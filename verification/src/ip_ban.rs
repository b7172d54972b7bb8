//! IP-based rate limiting and permanent blacklisting (fail2ban style).
use vstd::prelude::*;
use crate::errors::AppError;

verus! {

broadcast use vstd::seq_lib::group_seq_properties;

/// Views a list of strings as a sequence of character sequences.
pub open spec fn strs_view(v: Seq<String>) -> Seq<Seq<char>> {
    v.map_values(|s: String| s@)
}

/// Abstract state of an [`IpBanManager`].
pub struct BanState {
    /// Failed attempts per IP that has not been banned yet.
    pub failures: Map<Seq<char>, u32>,
    /// Banned IPs, in the order they were banned.
    pub blacklist: Seq<Seq<char>>,
    /// Failures after which an IP is banned.
    pub max_attempts: u32,
}

/// Number of recorded failures of `ip` (zero when none).
pub open spec fn failure_count(st: BanState, ip: Seq<char>) -> nat {
    if st.failures.dom().contains(ip) {
        st.failures[ip] as nat
    } else {
        0
    }
}

/// The state after one more failure of `ip`, and whether `ip` got banned.
pub open spec fn after_failure(st: BanState, ip: Seq<char>) -> (BanState, bool) {
    let c = failure_count(st, ip) + 1;
    if c >= st.max_attempts {
        (
            BanState {
                failures: st.failures.remove(ip),
                blacklist: st.blacklist.push(ip),
                max_attempts: st.max_attempts,
            },
            true,
        )
    } else {
        (
            BanState {
                failures: st.failures.insert(ip, c as u32),
                blacklist: st.blacklist,
                max_attempts: st.max_attempts,
            },
            false,
        )
    }
}

/// The state after `ip` authenticated successfully.
pub open spec fn after_clear(st: BanState, ip: Seq<char>) -> BanState {
    BanState { failures: st.failures.remove(ip), ..st }
}

/// The state after an administrator blacklisted `ip`.
pub open spec fn after_add(st: BanState, ip: Seq<char>) -> BanState {
    if st.blacklist.contains(ip) {
        st
    } else {
        BanState { blacklist: st.blacklist.push(ip), ..st }
    }
}

/// Keeps every entry other than `ip`.
pub open spec fn other_than(ip: Seq<char>) -> spec_fn(Seq<char>) -> bool {
    |x: Seq<char>| x != ip
}

/// The state after `ip` was unbanned: every occurrence leaves the list.
pub open spec fn after_unban(st: BanState, ip: Seq<char>) -> BanState {
    BanState { blacklist: st.blacklist.filter(other_than(ip)), ..st }
}

/// Counts failed authentication attempts per IP and permanently
/// blacklists an IP once it reaches `max_attempts`.
pub struct IpBanManager {
    failures: vstd::hash_map::StringHashMap<u32>,
    blacklist: Vec<String>,
    max_attempts: u32,
}

/// Snapshot reported by the status endpoint.
#[derive(Debug)]
pub struct IpBanStatus {
    pub blacklisted_ips: usize,
    pub max_attempts: u32,
}

impl IpBanManager {
    /// No failure count is saturated.
    pub closed spec fn wf(self) -> bool {
        forall|k: Seq<char>| #[trigger] self.failures@.dom().contains(k) ==> self.failures@[k] < u32::MAX
    }

    /// The abstract state.
    pub closed spec fn state(&self) -> BanState {
        BanState {
            failures: self.failures@,
            blacklist: strs_view(self.blacklist@),
            max_attempts: self.max_attempts,
        }
    }

    pub fn new(max_attempts: u32) -> (r: Self)
        ensures
            r.wf(),
            r.state() == (BanState {
                failures: Map::empty(),
                blacklist: Seq::empty(),
                max_attempts,
            }),
    {
        let r = IpBanManager { failures: vstd::hash_map::StringHashMap::new(), blacklist: Vec::new(), max_attempts };
        assert(r.state().blacklist =~= Seq::<Seq<char>>::empty());
        r
    }

    pub fn set_max_attempts(&mut self, n: u32)
        requires
            old(self).wf(),
        ensures
            final(self).wf(),
            final(self).state() == (BanState { max_attempts: n, ..old(self).state() }),
    {
        self.max_attempts = n;
    }

    /// Records a failed attempt of `ip` when fail2ban is enabled; when it is
    /// disabled nothing is recorded and nobody is banned.
    pub fn record_failure_when(&mut self, enabled: bool, ip: &str) -> (banned: bool)
        requires
            old(self).wf(),
        ensures
            final(self).wf(),
            enabled ==> (final(self).state(), banned) == after_failure(old(self).state(), ip@),
            !enabled ==> final(self).state() == old(self).state() && !banned,
    {
        if enabled {
            self.record_failure(ip)
        } else {
            false
        }
    }

    /// Records a failed attempt of `ip`; returns `true` when this failure
    /// got `ip` blacklisted.
    pub fn record_failure(&mut self, ip: &str) -> (banned: bool)
        requires
            old(self).wf(),
        ensures
            final(self).wf(),
            (final(self).state(), banned) == after_failure(old(self).state(), ip@),
    {
        let ghost st = self.state();
        let c: u32 = match self.failures.get(ip) {
            Some(n) => *n + 1,
            None => 1,
        };
        assert(c == failure_count(st, ip@) + 1);
        if c >= self.max_attempts {
            self.blacklist.push(String::from_str(ip));
            self.failures.remove(ip);
            assert(strs_view(self.blacklist@) =~= st.blacklist.push(ip@));
            true
        } else {
            self.failures.insert(String::from_str(ip), c);
            false
        }
    }

    /// Forgets the failures of `ip` (after a successful login).
    pub fn clear_failures(&mut self, ip: &str)
        requires
            old(self).wf(),
        ensures
            final(self).wf(),
            final(self).state() == after_clear(old(self).state(), ip@),
    {
        self.failures.remove(ip);
    }

    pub fn is_banned(&self, ip: &str) -> (b: bool)
        ensures
            b == self.state().blacklist.contains(ip@),
    {
        let key = String::from_str(ip);
        let mut i: usize = 0;
        while i < self.blacklist.len()
            invariant
                i <= self.blacklist@.len(),
                key@ == ip@,
                forall|j: int| 0 <= j < i ==> (#[trigger] self.blacklist@[j])@ != ip@,
            decreases self.blacklist@.len() - i,
        {
            if self.blacklist[i] == key {
                assert(self.state().blacklist[i as int] == ip@);
                return true;
            }
            i = i + 1;
        }
        assert forall|j: int| 0 <= j < self.state().blacklist.len() implies #[trigger] self.state().blacklist[j] != ip@ by {
            assert(self.state().blacklist[j] == self.blacklist@[j]@);
        }
        false
    }

    /// Blacklists `ip` unless it already is.
    pub fn add_blacklist(&mut self, ip: &str)
        requires
            old(self).wf(),
        ensures
            final(self).wf(),
            final(self).state() == after_add(old(self).state(), ip@),
    {
        if !self.is_banned(ip) {
            let ghost bl = self.state().blacklist;
            self.blacklist.push(String::from_str(ip));
            assert(strs_view(self.blacklist@) =~= bl.push(ip@));
        }
    }

    /// Removes every occurrence of `ip`; returns whether there was one.
    pub fn unban(&mut self, ip: &str) -> (removed: bool)
        requires
            old(self).wf(),
        ensures
            final(self).wf(),
            final(self).state() == after_unban(old(self).state(), ip@),
            removed == old(self).state().blacklist.contains(ip@),
    {
        let ghost old_bl = self.blacklist@;
        let ghost pred = other_than(ip@);
        let key = String::from_str(ip);
        let mut kept: Vec<String> = Vec::new();
        let mut found = false;
        let mut i: usize = 0;
        while i < self.blacklist.len()
            invariant
                old_bl == self.blacklist@,
                key@ == ip@,
                i <= old_bl.len(),
                pred == other_than(ip@),
                strs_view(kept@) == strs_view(old_bl.take(i as int)).filter(pred),
                found == strs_view(old_bl.take(i as int)).contains(ip@),
            decreases old_bl.len() - i,
        {
            let x = self.blacklist[i].clone();
            proof {
                assert(old_bl.take(i + 1) =~= old_bl.take(i as int).push(old_bl[i as int]));
                assert(strs_view(old_bl.take(i + 1)) =~= strs_view(old_bl.take(i as int)).push(
                    x@,
                ));
                strs_view(old_bl.take(i as int)).lemma_filter_push(x@, pred);
            }
            if x == key {
                found = true;
            } else {
                kept.push(x);
                assert(strs_view(kept@) =~= strs_view(old_bl.take(i as int)).filter(pred).push(
                    old_bl[i as int]@,
                ));
            }
            i = i + 1;
        }
        assert(old_bl.take(old_bl.len() as int) =~= old_bl);
        self.blacklist = kept;
        found
    }

    /// The banned IPs, in ban order.
    pub fn blacklist(&self) -> (r: &[String])
        ensures
            strs_view(r@) == self.state().blacklist,
    {
        self.blacklist.as_slice()
    }

    pub fn status(&self) -> (r: IpBanStatus)
        ensures
            r.blacklisted_ips == self.state().blacklist.len(),
            r.max_attempts == self.state().max_attempts,
    {
        IpBanStatus { blacklisted_ips: self.blacklist.len(), max_attempts: self.max_attempts }
    }
}

/// `n` consecutive failures of `ip`; the flag tells whether the last one banned it.
pub open spec fn fail_n(st: BanState, ip: Seq<char>, n: nat) -> (BanState, bool)
    decreases n,
{
    if n == 0 {
        (st, false)
    } else {
        after_failure(fail_n(st, ip, (n - 1) as nat).0, ip)
    }
}

/// An IP without recorded failures is banned by exactly its
/// `max_attempts`-th consecutive failure: every earlier failure only counts,
/// and the ban puts the IP on the blacklist.
pub proof fn law_banned_at_max_attempts(st: BanState, ip: Seq<char>, n: nat)
    requires
        failure_count(st, ip) == 0,
        st.max_attempts >= 1,
        1 <= n <= st.max_attempts,
    ensures
        fail_n(st, ip, n).1 == (n == st.max_attempts),
        n < st.max_attempts ==> failure_count(fail_n(st, ip, n).0, ip) == n,
        n < st.max_attempts ==> fail_n(st, ip, n).0.blacklist == st.blacklist,
        n == st.max_attempts ==> fail_n(st, ip, n).0.blacklist.contains(ip),
        fail_n(st, ip, n).0.max_attempts == st.max_attempts,
    decreases n,
{
    if n > 1 {
        law_banned_at_max_attempts(st, ip, (n - 1) as nat);
    }
    let prev = fail_n(st, ip, (n - 1) as nat).0;
    if n == st.max_attempts {
        assert(fail_n(st, ip, n).0.blacklist[prev.blacklist.len() as int] == ip);
    }
}

/// A successful login forgets the failures of that IP, and only of that IP.
pub proof fn law_clear_resets_count(st: BanState, ip: Seq<char>, other: Seq<char>)
    ensures
        failure_count(after_clear(st, ip), ip) == 0,
        other != ip ==> failure_count(after_clear(st, ip), other) == failure_count(st, other),
        after_clear(st, ip).blacklist == st.blacklist,
{
}

/// Blacklisting bans the IP; doing it twice changes nothing; unbanning it
/// afterwards lifts the ban.
pub proof fn law_add_then_unban(st: BanState, ip: Seq<char>)
    ensures
        after_add(st, ip).blacklist.contains(ip),
        after_add(after_add(st, ip), ip) == after_add(st, ip),
        !after_unban(after_add(st, ip), ip).blacklist.contains(ip),
{
    if !st.blacklist.contains(ip) {
        assert(after_add(st, ip).blacklist[st.blacklist.len() as int] == ip);
    }
    let s2 = after_add(st, ip).blacklist;
    let p = other_than(ip);
    let f = s2.filter(p);
    if f.contains(ip) {
        let i = choose|i: int| 0 <= i < f.len() && f[i] == ip;
        s2.lemma_filter_pred(p, i);
    }
}

/// Unbanning one IP leaves the ban of every other IP as it was.
pub proof fn law_unban_keeps_others(st: BanState, ip: Seq<char>, other: Seq<char>)
    requires
        other != ip,
    ensures
        after_unban(st, ip).blacklist.contains(other) == st.blacklist.contains(other),
{
    let p = other_than(ip);
    if st.blacklist.contains(other) {
        let i = choose|i: int| 0 <= i < st.blacklist.len() && st.blacklist[i] == other;
        st.blacklist.lemma_filter_contains(p, i);
    }
    if st.blacklist.filter(p).contains(other) {
        st.blacklist.lemma_filter_contains_rev(p, other);
    }
}

// ---------------------------------------------------------------------------
// The blacklist file: a JSON array of strings
// ---------------------------------------------------------------------------

/// The strings of a JSON text that is an array of strings, or `None` when
/// the text is not one.
pub uninterp spec fn json_string_array(text: Seq<char>) -> Option<Seq<Seq<char>>>;

/// The text `serde_json::to_string_pretty` writes for an array of strings.
pub uninterp spec fn json_pretty_strings(items: Seq<Seq<char>>) -> Seq<char>;

/// Wraps `serde_json::from_str::<Vec<String>>`. Trusted: the outcome is a
/// function of the text alone; the error text is left unsaid.
#[verifier::external_body]
fn parse_string_array(text: &str) -> (r: Result<Vec<String>, String>)
    ensures
        match r {
            Ok(v) => json_string_array(text@) == Some(crate::text::views(v@)),
            Err(_) => json_string_array(text@) is None,
        },
{
    serde_json::from_str::<Vec<String>>(text).map_err(|e| e.to_string())
}

/// Wraps `serde_json::to_string_pretty` on a list of strings. Trusted: the
/// call succeeds (it fails only for a value whose `Serialize` fails or a map
/// with non-string keys, and a list of strings is neither), the text is a
/// function of the strings alone, and reading it back with `from_str` gives
/// the same strings (each string is written as a JSON string literal,
/// escaped where needed).
#[verifier::external_body]
fn render_string_array(items: &[String]) -> (r: Result<String, String>)
    ensures
        r is Ok,
        r matches Ok(t) ==> t@ == json_pretty_strings(crate::text::views(items@)) && json_string_array(t@)
            == Some(crate::text::views(items@)),
{
    serde_json::to_string_pretty(items).map_err(|e| e.to_string())
}

/// The blacklist read from the file's text; `None` stands for a file that
/// does not exist, which is an empty list.
pub fn blacklist_from_text(text: Option<&str>) -> (r: Result<Vec<String>, AppError>)
    ensures
        text is None ==> (r matches Ok(v) && v@.len() == 0),
        text matches Some(t) ==> match json_string_array(t@) {
            Some(ips) => r matches Ok(v) && crate::text::views(v@) == ips,
            None => r matches Err(AppError::Internal(m)) && exists|e: Seq<char>|
                m@ == "Failed to parse blacklist: "@ + e,
        },
{
    match text {
        None => Ok(Vec::new()),
        Some(t) => match parse_string_array(t) {
            Ok(v) => Ok(v),
            Err(e) => {
                let m = crate::errors::concat("Failed to parse blacklist: ", e.as_str());
                assert(m@ == "Failed to parse blacklist: "@ + e@);
                Err(AppError::Internal(m))
            },
        },
    }
}

/// The text the blacklist file is written with; reading it back with
/// `blacklist_from_text` gives the same list.
pub fn blacklist_to_text(ips: &[String]) -> (t: String)
    ensures
        t@ == json_pretty_strings(crate::text::views(ips@)),
        json_string_array(t@) == Some(crate::text::views(ips@)),
{
    match render_string_array(ips) {
        Ok(t) => t,
        Err(_) => {
            assert(false);
            String::new()
        },
    }
}

/// Default location of the persisted blacklist.
pub fn default_blacklist_path() -> (r: String)
    ensures
        r@ == "./data/blacklist.json"@,
{
    String::from_str("./data/blacklist.json")
}

} // verus!
