//! Time-window bookkeeping: the request-replay nonce cache and the
//! per-IP request rate limiter. Times are milliseconds on a monotonic clock.
use vstd::prelude::*;
use crate::assoc::{amap, find_key, has_key, keys_unique, lemma_amap_dom, lemma_amap_index, lemma_amap_push, lemma_amap_update};
use crate::errors::{ApiError, AppError};

verus! {

broadcast use vstd::seq_lib::group_seq_properties;

/// Width of the replay window: nonces are remembered for 30 seconds.
pub const REPLAY_WINDOW_MS: u64 = 30_000;

/// Width of the rate-limiting window: one minute.
pub const RATE_WINDOW_MS: u64 = 60_000;

/// Requests allowed per IP within the rate-limiting window.
pub const RATE_LIMIT: usize = 60;

// ---------------------------------------------------------------------------
// Replay protection
// ---------------------------------------------------------------------------

/// The nonces of one user that are still inside the window at `now`.
pub open spec fn prune_nonces(m: Map<Seq<char>, u64>, now: u64) -> Map<Seq<char>, u64> {
    Map::new(
        |n: Seq<char>| m.dom().contains(n) && m[n] + REPLAY_WINDOW_MS > now,
        |n: Seq<char>| m[n],
    )
}

/// The nonces remembered for `user`.
pub open spec fn nonces_of(st: Map<Seq<char>, Map<Seq<char>, u64>>, user: Seq<char>) -> Map<
    Seq<char>,
    u64,
> {
    if st.dom().contains(user) {
        st[user]
    } else {
        Map::empty()
    }
}

/// One replay check: forget the user's expired nonces, then reject a nonce
/// still remembered, or remember a new one with the time `now`. The flag
/// tells whether the request is accepted.
pub open spec fn replay_step(
    st: Map<Seq<char>, Map<Seq<char>, u64>>,
    user: Seq<char>,
    nonce: Seq<char>,
    now: u64,
) -> (Map<Seq<char>, Map<Seq<char>, u64>>, bool) {
    let kept = prune_nonces(nonces_of(st, user), now);
    if kept.dom().contains(nonce) {
        (st.insert(user, kept), false)
    } else {
        (st.insert(user, kept.insert(nonce, now)), true)
    }
}

/// Recently seen request nonces per user.
#[derive(Debug)]
pub struct ReplayCache {
    users: Vec<(String, Vec<(String, u64)>)>,
}

pub open spec fn nested_view(s: Seq<(String, Vec<(String, u64)>)>) -> Map<
    Seq<char>,
    Map<Seq<char>, u64>,
> {
    amap(s).map_values(|v: Vec<(String, u64)>| amap(v@))
}

impl ReplayCache {
    pub closed spec fn wf(&self) -> bool {
        &&& keys_unique(self.users@)
        &&& forall|i: int|
            0 <= i < self.users@.len() ==> keys_unique((#[trigger] self.users@[i]).1@)
    }

    /// Remembered nonces (with the time they were seen) per user.
    pub closed spec fn seen(&self) -> Map<Seq<char>, Map<Seq<char>, u64>> {
        nested_view(self.users@)
    }

    pub fn new() -> (r: Self)
        ensures
            r.wf(),
            r.seen() == Map::<Seq<char>, Map<Seq<char>, u64>>::empty(),
    {
        let r = ReplayCache { users: Vec::new() };
        assert(r.seen() =~= Map::<Seq<char>, Map<Seq<char>, u64>>::empty());
        r
    }

    /// Checks the nonce of a request by `user` at time `now`: a nonce seen
    /// within the last 30 seconds is a replay.
    pub fn check_replay(&mut self, user_id: &str, nonce: &str, now: u64) -> (r: Result<(), AppError>)
        requires
            old(self).wf(),
        ensures
            final(self).wf(),
            final(self).seen() == replay_step(old(self).seen(), user_id@, nonce@, now).0,
            r is Ok <==> replay_step(old(self).seen(), user_id@, nonce@, now).1,
            r matches Err(e) ==> e.view() == ApiError::ReplayDetected,
    {
        let user = String::from_str(user_id);
        let key = String::from_str(nonce);
        let ghost s = self.users@;
        proof {
            lemma_amap_dom(s, user@);
        }
        let (idx, cache) = match find_key(&self.users, &user) {
            Some(i) => {
                proof {
                    lemma_amap_index(s, i as int);
                }
                (Some(i), copy_nonces(&self.users[i].1))
            },
            None => (None, Vec::new()),
        };
        assert(amap(cache@) == nonces_of(self.seen(), user@)) by {
            if idx is None {
                assert(amap(cache@) =~= Map::<Seq<char>, u64>::empty());
            }
        }
        assert(keys_unique(cache@));
        let mut kept = prune_list(&cache, now);
        let ghost kept_map = amap(kept@);
        proof {
            lemma_amap_dom(kept@, nonce@);
        }
        let ok = find_key(&kept, &key).is_none();
        if ok {
            proof {
                lemma_amap_push(kept@, (key, now));
            }
            kept.push((key, now));
        }
        let ghost new_inner = amap(kept@);
        match idx {
            Some(i) => {
                proof {
                    lemma_amap_update(s, i as int, (user, kept));
                }
                self.users.set(i, (user, kept));
                assert(self.wf()) by {
                    assert forall|j: int| 0 <= j < self.users@.len() implies keys_unique(
                        (#[trigger] self.users@[j]).1@,
                    ) by {
                        if j != i {
                            assert(self.users@[j] == s[j]);
                        }
                    }
                }
            },
            None => {
                proof {
                    lemma_amap_push(s, (user, kept));
                }
                self.users.push((user, kept));
                assert(self.wf()) by {
                    assert forall|j: int| 0 <= j < self.users@.len() implies keys_unique(
                        (#[trigger] self.users@[j]).1@,
                    ) by {
                        if j < s.len() {
                            assert(self.users@[j] == s[j]);
                        }
                    }
                }
            },
        }
        assert(self.seen() =~= replay_step(nested_view(s), user_id@, nonce@, now).0);
        if ok {
            Ok(())
        } else {
            Err(AppError::ReplayDetected)
        }
    }
}

fn copy_nonces(v: &Vec<(String, u64)>) -> (r: Vec<(String, u64)>)
    ensures
        r@ == v@,
{
    let mut r: Vec<(String, u64)> = Vec::new();
    let mut i: usize = 0;
    while i < v.len()
        invariant
            i <= v@.len(),
            r@ == v@.take(i as int),
        decreases v@.len() - i,
    {
        r.push((v[i].0.clone(), v[i].1));
        assert(r@ =~= v@.take(i + 1));
        i = i + 1;
    }
    assert(v@.take(v@.len() as int) =~= v@);
    r
}

fn copy_times(v: &Vec<u64>) -> (r: Vec<u64>)
    ensures
        r@ == v@,
{
    let mut r: Vec<u64> = Vec::new();
    let mut i: usize = 0;
    while i < v.len()
        invariant
            i <= v@.len(),
            r@ == v@.take(i as int),
        decreases v@.len() - i,
    {
        r.push(v[i]);
        assert(r@ =~= v@.take(i + 1));
        i = i + 1;
    }
    assert(v@.take(v@.len() as int) =~= v@);
    r
}

/// Keeps the entries still inside the replay window at `now`.
fn prune_list(v: &Vec<(String, u64)>, now: u64) -> (r: Vec<(String, u64)>)
    requires
        keys_unique(v@),
    ensures
        keys_unique(r@),
        amap(r@) == prune_nonces(amap(v@), now),
{
    let mut r: Vec<(String, u64)> = Vec::new();
    let mut i: usize = 0;
    assert(amap(r@) =~= prune_nonces(amap(v@.take(0)), now)) by {
        assert(v@.take(0) =~= Seq::<(String, u64)>::empty());
    }
    while i < v.len()
        invariant
            i <= v@.len(),
            keys_unique(v@),
            keys_unique(r@),
            amap(r@) == prune_nonces(amap(v@.take(i as int)), now),
        decreases v@.len() - i,
    {
        let ghost t = v@.take(i as int);
        assert(v@.take(i + 1).drop_last() =~= t);
        assert(v@.take(i + 1).last() == v@[i as int]);
        let k = &v[i].0;
        let seen_at = v[i].1;
        proof {
            // the key is new to the prefix
            assert(!has_key(t, k@)) by {
                if has_key(t, k@) {
                    let j = choose|j: int| 0 <= j < t.len() && (#[trigger] t[j]).0@ == k@;
                    assert(t[j] == v@[j]);
                }
            }
            lemma_amap_dom(t, k@);
            lemma_amap_dom(r@, k@);
        }
        if (seen_at as u128) + (REPLAY_WINDOW_MS as u128) > (now as u128) {
            proof {
                lemma_amap_push(r@, (v@[i as int].0, seen_at));
            }
            r.push((k.clone(), seen_at));
            assert(amap(r@) =~= prune_nonces(amap(v@.take(i + 1)), now));
        } else {
            assert(amap(r@) =~= prune_nonces(amap(v@.take(i + 1)), now));
        }
        i = i + 1;
    }
    assert(v@.take(v@.len() as int) =~= v@);
    r
}

/// A request with the nonce `n` accepted at time `t` is refused as a replay
/// by a next check of the same user and nonce within the window, and
/// accepted again once the window has passed.
pub proof fn law_replay_rejected_within_window(
    st: Map<Seq<char>, Map<Seq<char>, u64>>,
    user: Seq<char>,
    n: Seq<char>,
    t: u64,
    t2: u64,
)
    requires
        replay_step(st, user, n, t).1,
    ensures
        t + REPLAY_WINDOW_MS > t2 ==> !replay_step(replay_step(st, user, n, t).0, user, n, t2).1,
        t + REPLAY_WINDOW_MS <= t2 ==> replay_step(replay_step(st, user, n, t).0, user, n, t2).1,
{
}

/// Checks at time `t2` for other nonces of the same user keep a nonce seen
/// at `t` while `t2` is inside its window, and checks of other users leave
/// the user's nonces alone.
pub proof fn law_replay_memory_kept(
    st: Map<Seq<char>, Map<Seq<char>, u64>>,
    user: Seq<char>,
    other_user: Seq<char>,
    n: Seq<char>,
    m: Seq<char>,
    t2: u64,
)
    requires
        nonces_of(st, user).dom().contains(n),
        nonces_of(st, user)[n] + REPLAY_WINDOW_MS > t2,
    ensures
        nonces_of(replay_step(st, user, m, t2).0, user).dom().contains(n),
        nonces_of(replay_step(st, user, m, t2).0, user)[n] == nonces_of(st, user)[n],
        other_user != user ==> nonces_of(replay_step(st, other_user, m, t2).0, user) == nonces_of(
            st,
            user,
        ),
{
}

// ---------------------------------------------------------------------------
// Rate limiting
// ---------------------------------------------------------------------------

/// Request times still inside the rate window at `now`
/// (`now.duration_since(t) < 60 s`, saturating at zero).
pub open spec fn recent(ts: Seq<u64>, now: u64) -> Seq<u64> {
    ts.filter(|t: u64| t + RATE_WINDOW_MS > now)
}

pub open spec fn times_of(st: Map<Seq<char>, Seq<u64>>, ip: Seq<char>) -> Seq<u64> {
    if st.dom().contains(ip) {
        st[ip]
    } else {
        Seq::empty()
    }
}

/// One rate-limit check for `ip` at `now`: forget old requests, refuse when
/// 60 recent requests are recorded, otherwise record this one.
pub open spec fn rate_step(st: Map<Seq<char>, Seq<u64>>, ip: Seq<char>, now: u64) -> (Map<
    Seq<char>,
    Seq<u64>,
>, bool) {
    let kept = recent(times_of(st, ip), now);
    if kept.len() >= RATE_LIMIT {
        (st.insert(ip, kept), false)
    } else {
        (st.insert(ip, kept.push(now)), true)
    }
}

/// Request times per client IP.
pub struct RateLimiter {
    ips: vstd::hash_map::StringHashMap<Vec<u64>>,
}

impl RateLimiter {
    /// No IP has more than the limit of recorded requests.
    pub closed spec fn wf(&self) -> bool {
        forall|k: Seq<char>| #[trigger] self.ips@.dom().contains(k) ==> self.ips@[k]@.len() <= RATE_LIMIT
    }

    /// Recorded request times per IP.
    pub closed spec fn times(&self) -> Map<Seq<char>, Seq<u64>> {
        self.ips@.map_values(|v: Vec<u64>| v@)
    }

    pub fn new() -> (r: Self)
        ensures
            r.wf(),
            r.times() == Map::<Seq<char>, Seq<u64>>::empty(),
    {
        let r = RateLimiter { ips: vstd::hash_map::StringHashMap::new() };
        assert(r.times() =~= Map::<Seq<char>, Seq<u64>>::empty());
        r
    }

    /// Admits or refuses a request from `ip` at time `now`.
    pub fn check_rate_limit(&mut self, ip: &str, now: u64) -> (r: Result<(), AppError>)
        requires
            old(self).wf(),
        ensures
            final(self).wf(),
            final(self).times() == rate_step(old(self).times(), ip@, now).0,
            r is Ok <==> rate_step(old(self).times(), ip@, now).1,
            r matches Err(e) ==> e.view() == ApiError::Internal(
                "Rate limit exceeded (60 req/min)"@,
            ),
            forall|k: Seq<char>| #[trigger] final(self).times().dom().contains(k) ==> final(self).times()[k].len() <= RATE_LIMIT,
    {
        let ghost s = self.ips@;
        let times: Vec<u64> = match self.ips.get(ip) {
            Some(v) => copy_times(v),
            None => Vec::new(),
        };
        assert(times@ == times_of(self.times(), ip@));
        let ghost pred = |t: u64| t + RATE_WINDOW_MS > now;
        let mut kept: Vec<u64> = Vec::new();
        let mut i: usize = 0;
        while i < times.len()
            invariant
                i <= times@.len(),
                pred == (|t: u64| t + RATE_WINDOW_MS > now),
                kept@ == times@.take(i as int).filter(pred),
            decreases times@.len() - i,
        {
            let t = times[i];
            proof {
                assert(times@.take(i + 1) =~= times@.take(i as int).push(t));
                times@.take(i as int).lemma_filter_push(t, pred);
            }
            if (t as u128) + (RATE_WINDOW_MS as u128) > (now as u128) {
                kept.push(t);
            }
            i = i + 1;
        }
        assert(times@.take(times@.len() as int) =~= times@);
        let ok = kept.len() < RATE_LIMIT;
        if ok {
            kept.push(now);
        }
        assert(kept@.len() <= RATE_LIMIT) by {
            if !ok {
                assert(times@.len() <= RATE_LIMIT);
            }
        }
        self.ips.insert(String::from_str(ip), kept);
        assert(self.times() =~= rate_step(s.map_values(|v: Vec<u64>| v@), ip@, now).0);
        if ok {
            Ok(())
        } else {
            Err(AppError::Internal(String::from_str("Rate limit exceeded (60 req/min)")))
        }
    }
}

/// Once 60 requests from an IP were admitted within the window, the next
/// one inside it is refused; no IP ever has more than 60 recorded requests.
pub proof fn law_rate_limit_refuses_61st(st: Map<Seq<char>, Seq<u64>>, ip: Seq<char>, now: u64)
    requires
        recent(times_of(st, ip), now).len() >= RATE_LIMIT,
    ensures
        !rate_step(st, ip, now).1,
        rate_step(st, ip, now).0[ip].len() == recent(times_of(st, ip), now).len(),
{
}


/// A request time stays counted for one minute: when 60 of an IP's
/// recorded requests are less than 60 000 ms old, the next request is
/// refused and nothing is recorded; otherwise it is admitted and recorded
/// next to the requests of the last minute, the older ones forgotten.
pub proof fn law_rate_counts_last_minute(st: Map<Seq<char>, Seq<u64>>, ip: Seq<char>, now: u64)
    ensures
        times_of(st, ip).filter(|t: u64| t + 60_000 > now).len() >= 60 ==> !rate_step(st, ip, now).1
            && rate_step(st, ip, now).0[ip] == times_of(st, ip).filter(|t: u64| t + 60_000 > now),
        times_of(st, ip).filter(|t: u64| t + 60_000 > now).len() < 60 ==> rate_step(st, ip, now).1
            && rate_step(st, ip, now).0[ip] == times_of(st, ip).filter(|t: u64| t + 60_000 > now).push(now),
        forall|other: Seq<char>| other != ip ==> #[trigger] rate_step(st, ip, now).0.remove(ip).dom().contains(other)
            == st.dom().contains(other),
{
    let p = |t: u64| t + RATE_WINDOW_MS > now;
    let q = |t: u64| t + 60_000 > now;
    assert(p =~= q);
    assert(recent(times_of(st, ip), now) == times_of(st, ip).filter(q));
}

} // verus!
