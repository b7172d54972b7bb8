//! Player tracking by parsing Minecraft server log output.
//!
//! | Event | Log message |
//! |-------|-------------|
//! | Join  | `NAME joined the game` |
//! | Leave | `NAME left the game` |
//! | UUID  | `UUID of player NAME is UUID` |
//!
//! `NAME` is 3 to 16 word characters (the regular-expression class `\w`),
//! `UUID` is 36 characters from `[0-9a-f-]`. A `[time LEVEL]: ` prefix
//! is stripped first.
use vstd::prelude::*;
use crate::assoc::{amap, find_key, insert_sorted, keys_sorted, lemma_amap_dom, lemma_amap_index, lemma_amap_len, lemma_amap_update, lemma_sorted_unique, remove_key};
use crate::text::{chars_of, ends_with, ends_with_chars, find_str_from, lemma_occ_from, matches_at, occ_from, occurs_at, slice_range, starts_with, starts_with_chars, string_of};

verus! {

/// Information about a player who is online.
#[derive(Debug)]
pub struct PlayerInfo {
    /// In-game name.
    pub name: String,
    /// UUID, once the log reported it.
    pub uuid: Option<String>,
    /// When the player joined (milliseconds since the Unix epoch, UTC).
    pub joined_at: i64,
}

/// Abstract view of a [`PlayerInfo`].
pub struct PlayerView {
    pub name: Seq<char>,
    pub uuid: Option<Seq<char>>,
    pub joined_at: i64,
}

impl PlayerInfo {
    pub open spec fn view(&self) -> PlayerView {
        PlayerView {
            name: self.name@,
            uuid: match self.uuid {
                Some(u) => Some(u@),
                None => None,
            },
            joined_at: self.joined_at,
        }
    }
}

// ---------------------------------------------------------------------------
// The log grammar
// ---------------------------------------------------------------------------

/// Whether `c` belongs to the regular-expression class `\w`.
pub uninterp spec fn regex_word_char(c: char) -> bool;

/// Tests `c` against the regular expression `^\w$` (crate `regex`).
/// Trusted: the answer depends on `c` alone, and on ASCII it is exactly
/// `[0-9A-Za-z_]` (the crate documents `\w` as `\p{Alphabetic}`, `\p{M}`,
/// `\d`, `\p{Pc}` and `\p{Join_Control}`; of ASCII these hold of letters,
/// digits and `_`). Which other characters belong is left unsaid.
#[verifier::external_body]
pub(crate) fn is_word_char(c: char) -> (b: bool)
    ensures
        b == regex_word_char(c),
        c < '\u{80}' ==> (b == (('a' <= c && c <= 'z') || ('A' <= c && c <= 'Z') || ('0' <= c
            && c <= '9') || c == '_')),
{
    let mut buf = [0u8; 4];
    regex::Regex::new(r"^\w$").unwrap().is_match(c.encode_utf8(&mut buf))
}

/// Separator between the log prefix and the message.
pub open spec fn prefix_sep() -> Seq<char> {
    "]: "@
}

pub open spec fn join_suffix() -> Seq<char> {
    " joined the game"@
}

pub open spec fn leave_suffix() -> Seq<char> {
    " left the game"@
}

pub open spec fn uuid_prefix() -> Seq<char> {
    "UUID of player "@
}

pub open spec fn uuid_infix() -> Seq<char> {
    " is "@
}

/// The message of a log line: the text between the first and the second
/// `]: ` (`line.split("]: ").nth(1)`), or the whole line without one.
pub open spec fn log_message(line: Seq<char>) -> Seq<char> {
    match occ_from(line, prefix_sep(), 0) {
        Some(i) => {
            let start = i + prefix_sep().len();
            match occ_from(line, prefix_sep(), start) {
                Some(j) => line.subrange(start, j),
                None => line.subrange(start, line.len() as int),
            }
        },
        None => line,
    }
}

/// A player name: `\w{3,16}`.
pub open spec fn is_player_name(s: Seq<char>) -> bool {
    3 <= s.len() <= 16 && forall|i: int| 0 <= i < s.len() ==> regex_word_char(#[trigger] s[i])
}

/// A UUID as printed by the server: `[0-9a-f-]{36}`.
pub open spec fn is_uuid_text(s: Seq<char>) -> bool {
    s.len() == 36 && forall|i: int|
        0 <= i < s.len() ==> ('0' <= #[trigger] s[i] && s[i] <= '9') || ('a' <= s[i] && s[i]
            <= 'f') || s[i] == '-'
}

/// What a log message reports.
pub enum LogEvent {
    Joined(Seq<char>),
    Left(Seq<char>),
    Uuid(Seq<char>, Seq<char>),
    Nothing,
}

/// Length of the UUID message tail ` is UUID`.
pub open spec fn uuid_tail_len() -> int {
    uuid_infix().len() as int + 36
}

/// The event a message reports, tried in the order join, leave, UUID.
pub open spec fn log_event(msg: Seq<char>) -> LogEvent {
    let jn = msg.len() - join_suffix().len();
    let ln = msg.len() - leave_suffix().len();
    let un = msg.len() - uuid_tail_len();
    if ends_with(msg, join_suffix()) && is_player_name(msg.subrange(0, jn)) {
        LogEvent::Joined(msg.subrange(0, jn))
    } else if ends_with(msg, leave_suffix()) && is_player_name(msg.subrange(0, ln)) {
        LogEvent::Left(msg.subrange(0, ln))
    } else if starts_with(msg, uuid_prefix()) && uuid_prefix().len() <= un && occurs_at(
        msg,
        uuid_infix(),
        un,
    ) && is_player_name(msg.subrange(uuid_prefix().len() as int, un)) && is_uuid_text(
        msg.subrange(msg.len() - 36, msg.len() as int),
    ) {
        LogEvent::Uuid(
            msg.subrange(uuid_prefix().len() as int, un),
            msg.subrange(msg.len() - 36, msg.len() as int),
        )
    } else {
        LogEvent::Nothing
    }
}

/// The online table after one log line read at time `now`.
pub open spec fn track_line(m: Map<Seq<char>, PlayerView>, line: Seq<char>, now: i64) -> Map<
    Seq<char>,
    PlayerView,
> {
    match log_event(log_message(line)) {
        LogEvent::Joined(n) => if m.dom().contains(n) {
            m
        } else {
            m.insert(n, PlayerView { name: n, uuid: None, joined_at: now })
        },
        LogEvent::Left(n) => m.remove(n),
        LogEvent::Uuid(n, u) => if m.dom().contains(n) {
            m.insert(n, PlayerView { uuid: Some(u), ..m[n] })
        } else {
            m
        },
        LogEvent::Nothing => m,
    }
}

// ---------------------------------------------------------------------------
// Executable parsing
// ---------------------------------------------------------------------------

fn all_word_chars(s: &[char]) -> (b: bool)
    ensures
        b == forall|i: int| 0 <= i < s@.len() ==> regex_word_char(#[trigger] s@[i]),
{
    let mut i: usize = 0;
    while i < s.len()
        invariant
            i <= s@.len(),
            forall|j: int| 0 <= j < i ==> regex_word_char(#[trigger] s@[j]),
        decreases s@.len() - i,
    {
        if !is_word_char(s[i]) {
            return false;
        }
        i = i + 1;
    }
    true
}

fn is_player_name_exec(s: &[char]) -> (b: bool)
    ensures
        b == is_player_name(s@),
{
    3 <= s.len() && s.len() <= 16 && all_word_chars(s)
}

fn is_uuid_text_exec(s: &[char]) -> (b: bool)
    ensures
        b == is_uuid_text(s@),
{
    if s.len() != 36 {
        return false;
    }
    let mut i: usize = 0;
    while i < s.len()
        invariant
            i <= s@.len(),
            forall|j: int|
                0 <= j < i ==> ('0' <= #[trigger] s@[j] && s@[j] <= '9') || ('a' <= s@[j] && s@[j]
                    <= 'f') || s@[j] == '-',
        decreases s@.len() - i,
    {
        let c = s[i];
        if !(('0' <= c && c <= '9') || ('a' <= c && c <= 'f') || c == '-') {
            return false;
        }
        i = i + 1;
    }
    true
}

/// Extracts the message part of a log line.
pub fn log_message_exec(line: &[char]) -> (r: Vec<char>)
    ensures
        r@ == log_message(line@),
{
    let sep = chars_of("]: ");
    let n = line.len();
    match find_str_from(line, &sep, 0) {
        Some(i) => {
            proof {
                lemma_occ_from(line@, sep@, 0);
            }
            let start = i + sep.len();
            match find_str_from(line, &sep, start) {
                Some(j) => {
                    proof {
                        lemma_occ_from(line@, sep@, start as int);
                    }
                    slice_range(line, start, j)
                },
                None => slice_range(line, start, line.len()),
            }
        },
        None => slice_range(line, 0, line.len()),
    }
}

/// Executable form of [`LogEvent`].
#[derive(Debug)]
pub enum LogEventExec {
    Joined(String),
    Left(String),
    Uuid(String, String),
    Nothing,
}

impl LogEventExec {
    pub open spec fn view(&self) -> LogEvent {
        match self {
            LogEventExec::Joined(n) => LogEvent::Joined(n@),
            LogEventExec::Left(n) => LogEvent::Left(n@),
            LogEventExec::Uuid(n, u) => LogEvent::Uuid(n@, u@),
            LogEventExec::Nothing => LogEvent::Nothing,
        }
    }
}

/// Recognises the event a message reports.
pub fn log_event_exec(msg: &[char]) -> (r: LogEventExec)
    ensures
        r.view() == log_event(msg@),
{
    let join = chars_of(" joined the game");
    let leave = chars_of(" left the game");
    let pre = chars_of("UUID of player ");
    let infix = chars_of(" is ");
    if ends_with_chars(msg, &join) {
        let name = slice_range(msg, 0, msg.len() - join.len());
        if is_player_name_exec(&name) {
            return LogEventExec::Joined(string_of(&name));
        }
    }
    if ends_with_chars(msg, &leave) {
        let name = slice_range(msg, 0, msg.len() - leave.len());
        if is_player_name_exec(&name) {
            return LogEventExec::Left(string_of(&name));
        }
    }
    if starts_with_chars(msg, &pre) && msg.len() >= 36 && msg.len() - 36 >= infix.len()
        && pre.len() <= msg.len() - 36 - infix.len() {
        let un = msg.len() - 36 - infix.len();
        if matches_at(msg, &infix, un) {
            let name = slice_range(msg, pre.len(), un);
            let uuid = slice_range(msg, msg.len() - 36, msg.len());
            if is_player_name_exec(&name) && is_uuid_text_exec(&uuid) {
                return LogEventExec::Uuid(string_of(&name), string_of(&uuid));
            }
        }
    }
    LogEventExec::Nothing
}

// ---------------------------------------------------------------------------
// The tracker
// ---------------------------------------------------------------------------

/// Milliseconds since the Unix epoch (`chrono::Utc::now`).
/// Trusted for nothing: the clock can read anything.
#[verifier::external_body]
pub(crate) fn now_millis() -> (t: i64) {
    chrono::Utc::now().timestamp_millis()
}

/// Tracks online players by parsing server log lines.
#[derive(Debug)]
pub struct PlayerTracker {
    online: Vec<(String, PlayerInfo)>,
}

impl PlayerTracker {
    /// Names are strictly ascending.
    pub closed spec fn wf(&self) -> bool {
        keys_sorted(self.online@)
    }

    /// Online players by name.
    pub closed spec fn players(&self) -> Map<Seq<char>, PlayerView> {
        amap(self.online@).map_values(|p: PlayerInfo| p.view())
    }

    /// Online player names in ascending order.
    pub closed spec fn names(&self) -> Seq<Seq<char>> {
        self.online@.map_values(|p: (String, PlayerInfo)| p.0@)
    }

    pub fn new() -> (r: Self)
        ensures
            r.wf(),
            r.players() == Map::<Seq<char>, PlayerView>::empty(),
    {
        let r = PlayerTracker { online: Vec::new() };
        assert(r.players() =~= Map::<Seq<char>, PlayerView>::empty());
        r
    }

    /// Applies one log line read at time `now`.
    pub fn process_log_line_at(&mut self, line: &str, now: i64)
        requires
            old(self).wf(),
        ensures
            final(self).wf(),
            final(self).players() == track_line(old(self).players(), line@, now),
    {
        let lc = chars_of(line);
        let msg = log_message_exec(&lc);
        let ev = log_event_exec(&msg);
        let ghost s = self.online@;
        proof {
            lemma_sorted_unique(s);
        }
        match ev {
            LogEventExec::Joined(name) => {
                proof {
                    lemma_amap_dom(s, name@);
                }
                if find_key(&self.online, &name).is_none() {
                    let info = PlayerInfo { name: name.clone(), uuid: None, joined_at: now };
                    insert_sorted(&mut self.online, name, info);
                    assert(self.players() =~= track_line(
                        amap(s).map_values(|p: PlayerInfo| p.view()),
                        line@,
                        now,
                    ));
                }
            },
            LogEventExec::Left(name) => {
                remove_key(&mut self.online, &name);
                assert(self.players() =~= track_line(
                    amap(s).map_values(|p: PlayerInfo| p.view()),
                    line@,
                    now,
                ));
            },
            LogEventExec::Uuid(name, uuid) => {
                proof {
                    lemma_amap_dom(s, name@);
                }
                match find_key(&self.online, &name) {
                    Some(i) => {
                        proof {
                            lemma_amap_index(s, i as int);
                        }
                        let old_info = &self.online[i].1;
                        let info = PlayerInfo {
                            name: old_info.name.clone(),
                            uuid: Some(uuid),
                            joined_at: old_info.joined_at,
                        };
                        proof {
                            lemma_amap_update(s, i as int, (name, info));
                        }
                        self.online.set(i, (name, info));
                        assert(self.wf()) by {
                            assert forall|a: int, b: int|
                                0 <= a < b < self.online@.len() implies seq_lt_keys(
                                self.online@,
                                a,
                                b,
                            ) by {
                                assert(self.online@[a].0@ == s[a].0@);
                                assert(self.online@[b].0@ == s[b].0@);
                                assert(seq_lt_keys(s, a, b));
                            }
                        }
                        assert(self.players() =~= track_line(
                            amap(s).map_values(|p: PlayerInfo| p.view()),
                            line@,
                            now,
                        ));
                    },
                    None => {},
                }
            },
            LogEventExec::Nothing => {},
        }
    }

    /// Applies one log line, stamping a join with the current time.
    pub fn process_log_line(&mut self, line: &str)
        requires
            old(self).wf(),
        ensures
            final(self).wf(),
            exists|now: i64| final(self).players() == track_line(old(self).players(), line@, now),
    {
        let now = now_millis();
        self.process_log_line_at(line, now);
    }

    /// Online player names, ascending.
    pub fn online_players(&self) -> (r: Vec<String>)
        requires
            self.wf(),
        ensures
            r@.map_values(|s: String| s@) == self.names(),
            self.names().to_set() == self.players().dom(),
            forall|i: int, j: int|
                0 <= i < j < r@.len() ==> crate::text::seq_lt(r@[i]@, r@[j]@),
    {
        let mut r: Vec<String> = Vec::new();
        let mut i: usize = 0;
        while i < self.online.len()
            invariant
                i <= self.online@.len(),
                r@.map_values(|s: String| s@) == self.names().take(i as int),
            decreases self.online@.len() - i,
        {
            r.push(self.online[i].0.clone());
            assert(self.names().take(i + 1) =~= self.names().take(i as int).push(
                self.online@[i as int].0@,
            ));
            assert(r@.map_values(|s: String| s@) =~= self.names().take(i + 1));
            i = i + 1;
        }
        assert(self.names().take(self.online@.len() as int) =~= self.names());
        proof {
            lemma_sorted_unique(self.online@);
            lemma_amap_len(self.online@);
            assert(self.players().dom() =~= amap(self.online@).dom());
            assert forall|a: int, b: int| 0 <= a < b < r@.len() implies crate::text::seq_lt(
                r@[a]@,
                r@[b]@,
            ) by {
                assert(r@.map_values(|s: String| s@)[a] == r@[a]@);
                assert(r@.map_values(|s: String| s@)[b] == r@[b]@);
                assert(seq_lt_keys(self.online@, a, b));
            }
        }
        r
    }

    /// Number of online players.
    pub fn player_count(&self) -> (r: usize)
        requires
            self.wf(),
        ensures
            r == self.players().dom().len(),
    {
        proof {
            lemma_sorted_unique(self.online@);
            lemma_amap_len(self.online@);
            assert(self.players().dom() =~= amap(self.online@).dom());
        }
        self.online.len()
    }

    /// Details of an online player.
    pub fn player_info(&self, name: &str) -> (r: Option<&PlayerInfo>)
        requires
            self.wf(),
        ensures
            match r {
                Some(p) => self.players().dom().contains(name@) && self.players()[name@]
                    == p.view(),
                None => !self.players().dom().contains(name@),
            },
    {
        proof {
            lemma_sorted_unique(self.online@);
            lemma_amap_dom(self.online@, name@);
        }
        let k = String::from_str(name);
        match find_key(&self.online, &k) {
            Some(i) => {
                proof {
                    lemma_amap_index(self.online@, i as int);
                }
                Some(&self.online[i].1)
            },
            None => None,
        }
    }

    pub fn is_online(&self, name: &str) -> (r: bool)
        requires
            self.wf(),
        ensures
            r == self.players().dom().contains(name@),
    {
        proof {
            lemma_amap_dom(self.online@, name@);
        }
        let k = String::from_str(name);
        find_key(&self.online, &k).is_some()
    }

    /// Forgets every player (the server restarted).
    pub fn clear(&mut self)
        ensures
            final(self).wf(),
            final(self).players() == Map::<Seq<char>, PlayerView>::empty(),
    {
        self.online = Vec::new();
        assert(self.players() =~= Map::<Seq<char>, PlayerView>::empty());
    }
}

pub open spec fn seq_lt_keys<V>(s: Seq<(String, V)>, a: int, b: int) -> bool {
    crate::text::seq_lt(s[a].0@, s[b].0@)
}

/// A player who joins is online until a line reports that they left.
pub proof fn law_join_then_leave(m: Map<Seq<char>, PlayerView>, join: Seq<char>, leave: Seq<char>, t1: i64, t2: i64, name: Seq<char>)
    requires
        log_event(log_message(join)) == LogEvent::Joined(name),
        log_event(log_message(leave)) == LogEvent::Left(name),
    ensures
        track_line(m, join, t1).dom().contains(name),
        !track_line(track_line(m, join, t1), leave, t2).dom().contains(name),
{
}

/// The UUID reported for an online player is recorded on that player,
/// who keeps their join time.
pub proof fn law_uuid_recorded(m: Map<Seq<char>, PlayerView>, line: Seq<char>, t: i64, name: Seq<char>, uuid: Seq<char>)
    requires
        m.dom().contains(name),
        log_event(log_message(line)) == LogEvent::Uuid(name, uuid),
    ensures
        track_line(m, line, t)[name].uuid == Some(uuid),
        track_line(m, line, t)[name].joined_at == m[name].joined_at,
{
}


/// Only a join puts a player online: after any line, every online player
/// was online before or is the one the line reports joining. A UUID line
/// leaves the set of online players as it was, a leave line takes that
/// player off, and nobody else goes offline.
pub proof fn law_only_joins_add_players(m: Map<Seq<char>, PlayerView>, line: Seq<char>, now: i64, name: Seq<char>)
    ensures
        track_line(m, line, now).dom().contains(name) ==> m.dom().contains(name) || log_event(
            log_message(line),
        ) == LogEvent::Joined(name),
        (log_event(log_message(line)) matches LogEvent::Uuid(n, u)) ==> track_line(m, line, now).dom()
            == m.dom(),
        log_event(log_message(line)) == LogEvent::Left(name) ==> !track_line(m, line, now).dom().contains(
            name,
        ),
        m.dom().contains(name) && log_event(log_message(line)) != LogEvent::Left(name) ==> track_line(
            m,
            line,
            now,
        ).dom().contains(name),
{
    if let LogEvent::Uuid(n, u) = log_event(log_message(line)) {
        if m.dom().contains(n) {
            assert(track_line(m, line, now).dom() =~= m.dom());
        }
    }
}

} // verus!
