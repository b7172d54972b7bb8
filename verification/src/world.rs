//! Worlds, backups and the console command history of a server.
use vstd::prelude::*;
use crate::errors::{concat, Error};
use crate::registry::{quoted_id_message, ArchivedSummary};
use crate::text::{chars_of, seq_lt};

verus! {

/// Information about a Minecraft world directory.
#[derive(Debug)]
pub struct WorldInfo {
    pub name: String,
    pub path: String,
    pub size_bytes: u64,
    pub size_human: String,
    pub last_modified: String,
    pub region_files: usize,
    pub player_data_files: usize,
}

/// A backup file entry.
#[derive(Debug)]
pub struct BackupEntry {
    pub filename: String,
    pub path: String,
    pub size_bytes: u64,
    pub size_human: String,
    pub created_at: String,
    pub worlds_included: Vec<String>,
}

/// A command history entry.
#[derive(Debug)]
pub struct HistoryEntry {
    pub command: String,
    pub sent_at: String,
}

/// A directory holds a world when it has a `level.dat` file or a `region`
/// directory.
pub fn is_world_dir(has_level_dat: bool, has_region_dir: bool) -> (b: bool)
    ensures
        b == (has_level_dat || has_region_dir),
{
    has_level_dat || has_region_dir
}

// ---------------------------------------------------------------------------
// File extensions
// ---------------------------------------------------------------------------

/// `Path::extension` of a file name: the text after its last `.`, unless
/// that dot is the name's first character.
pub open spec fn extension_of(name: Seq<char>) -> Option<Seq<char>> {
    if exists|i: int| 0 < i < name.len() && name[i] == '.' {
        let i = choose|i: int| 0 < i < name.len() && name[i] == '.' && forall|j: int| i < j < name.len() ==> name[j] != '.';
        Some(name.subrange(i + 1, name.len() as int))
    } else {
        None
    }
}

/// Whether the file name has the extension `ext`.
pub fn has_extension(name: &str, ext: &str) -> (b: bool)
    ensures
        b == (extension_of(name@) == Some(ext@)),
{
    let n = chars_of(name);
    let mut i: usize = n.len();
    while i > 0
        invariant
            i <= n@.len(),
            n@ == name@,
            forall|j: int| i <= j < n@.len() ==> n@[j] != '.',
        decreases i,
    {
        if n[i - 1] == '.' {
            if i - 1 == 0 {
                proof {
                    assert(!exists|k: int| 0 < k < n@.len() && n@[k] == '.');
                }
                return false;
            }
            let tail = crate::text::slice_range(&n, i, n.len());
            proof {
                let c = choose|k: int| 0 < k < n@.len() && n@[k] == '.' && forall|j: int| k < j < n@.len() ==> n@[j] != '.';
                assert(n@[i - 1] == '.');
                if c < i - 1 {
                    assert(n@[i - 1] != '.');
                }
                if c > i - 1 {
                    assert(n@[c] != '.');
                }
            }
            return crate::text::str_eq(crate::text::string_of(&tail).as_str(), ext);
        }
        i = i - 1;
    }
    false
}

// ---------------------------------------------------------------------------
// Command history
// ---------------------------------------------------------------------------

/// At most this many commands are kept.
pub const HISTORY_LIMIT: usize = 500;

/// The history after one more command: appended, then cut to the most
/// recent `HISTORY_LIMIT` entries.
pub open spec fn recorded(h: Seq<HistoryEntry>, e: HistoryEntry) -> Seq<HistoryEntry> {
    let p = h.push(e);
    if p.len() > HISTORY_LIMIT {
        p.subrange(p.len() - HISTORY_LIMIT, p.len() as int)
    } else {
        p
    }
}

/// Records a command in a history, keeping the last 500.
pub fn record_command(history: Vec<HistoryEntry>, entry: HistoryEntry) -> (r: Vec<HistoryEntry>)
    ensures
        r@ == recorded(history@, entry),
{
    let mut h = history;
    h.push(entry);
    if h.len() > HISTORY_LIMIT {
        let start = h.len() - HISTORY_LIMIT;
        let ghost full = h@;
        let rest = h.split_off(start);
        assert(rest@ =~= full.subrange(start as int, full.len() as int));
        rest
    } else {
        h
    }
}

/// The history never holds more than 500 commands, and the newest one is
/// always last.
pub proof fn law_history_bounded(h: Seq<HistoryEntry>, e: HistoryEntry)
    requires
        h.len() <= HISTORY_LIMIT,
    ensures
        recorded(h, e).len() <= HISTORY_LIMIT,
        recorded(h, e).last() == e,
{
}

// ---------------------------------------------------------------------------
// Deleting and unpacking worlds
// ---------------------------------------------------------------------------

/// Refuses to delete what is not a world directory.
pub fn delete_world_check(name: &str, is_dir: bool, is_world: bool) -> (r: Result<(), Error>)
    ensures
        !is_dir ==> (r matches Err(Error::Other(m)) && m@ == "World '"@ + name@ + "' not found"@),
        is_dir && !is_world ==> (r matches Err(Error::Other(m)) && m@ == seq!['\''] + name@ + "' not a valid world"@),
        is_dir && is_world ==> r is Ok,
{
    if !is_dir {
        let mut m = concat("World '", name);
        m.append("' not found");
        return Err(Error::Other(m));
    }
    if !is_world {
        return Err(Error::Other(quoted_id_message(name, "' not a valid world")));
    }
    Ok(())
}

/// The folder an unpacked world archive is in: the first path segment of
/// its first entry, or `world` when that is empty or there is no entry.
pub open spec fn top_name(first_entry: Option<Seq<char>>) -> Seq<char> {
    match first_entry {
        None => "world"@,
        Some(n) => {
            let seg = match crate::text::idx_from(n, '/', 0) {
                Some(i) => n.subrange(0, i),
                None => n,
            };
            if seg.len() == 0 {
                "world"@
            } else {
                seg
            }
        },
    }
}

/// The folder name of an unpacked world archive.
pub fn world_top_name(first_entry: Option<&str>) -> (r: String)
    ensures
        r@ == top_name(match first_entry {
            Some(n) => Some(n@),
            None => None,
        }),
{
    match first_entry {
        None => String::from_str("world"),
        Some(n) => {
            let c = chars_of(n);
            let seg = match crate::text::find_char_from(&c, '/', 0) {
                Some(i) => {
                    proof {
                        crate::text::lemma_idx_from(c@, '/', 0);
                    }
                    crate::text::slice_range(&c, 0, i)
                },
                None => crate::text::slice_range(&c, 0, c.len()),
            };
            if seg.len() == 0 {
                String::from_str("world")
            } else {
                crate::text::string_of(&seg)
            }
        },
    }
}

// ---------------------------------------------------------------------------
// Newest first
// ---------------------------------------------------------------------------

/// Items listed newest first by a timestamp text.
pub trait Stamped: Sized {
    /// The timestamp the listing is ordered by.
    spec fn stamp(&self) -> Seq<char>;

    fn stamp_text(&self) -> (r: &String)
        ensures
            r@ == self.stamp();
}

impl Stamped for BackupEntry {
    open spec fn stamp(&self) -> Seq<char> {
        self.created_at@
    }

    fn stamp_text(&self) -> (r: &String) {
        &self.created_at
    }
}

impl Stamped for ArchivedSummary {
    open spec fn stamp(&self) -> Seq<char> {
        self.archived_at@
    }

    fn stamp_text(&self) -> (r: &String) {
        &self.archived_at
    }
}

/// Newest first: no item is older than one after it.
pub open spec fn newest_first<T: Stamped>(s: Seq<T>) -> bool {
    forall|i: int, j: int| 0 <= i < j < s.len() ==> !seq_lt((#[trigger] s[i]).stamp(), (#[trigger] s[j]).stamp())
}

/// Where an item stamped `t` goes in a newest-first list: after every item
/// that is not older.
fn slot_for<T: Stamped>(v: &Vec<T>, t: &String) -> (p: usize)
    requires
        newest_first(v@),
    ensures
        p <= v@.len(),
        forall|k: int| 0 <= k < p ==> !seq_lt((#[trigger] v@[k]).stamp(), t@),
        forall|k: int| p <= k < v@.len() ==> seq_lt((#[trigger] v@[k]).stamp(), t@),
{
    let tc = chars_of(t.as_str());
    let mut p: usize = v.len();
    while p > 0
        invariant
            p <= v@.len(),
            tc@ == t@,
            newest_first(v@),
            forall|k: int| p <= k < v@.len() ==> seq_lt((#[trigger] v@[k]).stamp(), t@),
        decreases p,
    {
        let c = chars_of(v[p - 1].stamp_text().as_str());
        if crate::text::chars_lt(&c, &tc) {
            p = p - 1;
        } else {
            proof {
                assert forall|k: int| 0 <= k < p implies !seq_lt((#[trigger] v@[k]).stamp(), t@) by {
                    if seq_lt(v@[k].stamp(), t@) && k < p - 1 {
                        let a = v@[k].stamp();
                        let b = v@[p - 1].stamp();
                        assert(!seq_lt(a, b));
                        crate::text::lemma_lt_total(a, b);
                        if a != b {
                            crate::text::lemma_lt_trans(b, a, t@);
                        }
                    }
                }
            }
            return p;
        }
    }
    p
}

proof fn lemma_newest_insert<T: Stamped>(s: Seq<T>, p: int, x: T)
    requires
        newest_first(s),
        0 <= p <= s.len(),
        forall|k: int| 0 <= k < p ==> !seq_lt((#[trigger] s[k]).stamp(), x.stamp()),
        forall|k: int| p <= k < s.len() ==> seq_lt((#[trigger] s[k]).stamp(), x.stamp()),
    ensures
        newest_first(s.insert(p, x)),
{
    let t = s.insert(p, x);
    assert forall|i: int, j: int| 0 <= i < j < t.len() implies !seq_lt((#[trigger] t[i]).stamp(), (#[trigger] t[j]).stamp()) by {
        if j < p {
            assert(t[i] == s[i] && t[j] == s[j]);
        } else if j == p {
            assert(t[i] == s[i]);
        } else if i < p {
            assert(t[i] == s[i] && t[j] == s[j - 1]);
        } else if i == p {
            assert(t[j] == s[j - 1]);
            crate::text::lemma_lt_asym(s[j - 1].stamp(), x.stamp());
        } else {
            assert(t[i] == s[i - 1] && t[j] == s[j - 1]);
        }
    }
}

/// `r` lists items of `items`: its `k`-th is the `src[k]`-th input, each
/// input taken at most once.
pub open spec fn picks<T>(r: Seq<T>, items: Seq<T>, src: Seq<int>) -> bool {
    &&& src.len() == r.len()
    &&& forall|k: int| 0 <= k < r.len() ==> 0 <= #[trigger] src[k] < items.len() && r[k] == items[src[k]]
    &&& forall|k: int, l: int| 0 <= k < l < r.len() ==> #[trigger] src[k] != #[trigger] src[l]
}

/// Items with equal timestamps come in their input order.
pub open spec fn keeps_ties<T: Stamped>(r: Seq<T>, src: Seq<int>) -> bool {
    forall|k: int, l: int|
        0 <= k < l < r.len() && (#[trigger] r[k]).stamp() == (#[trigger] r[l]).stamp() ==> src[k] < src[l]
}

proof fn lemma_stable_insert<T: Stamped>(o: Seq<T>, all: Seq<T>, src: Seq<int>, p: int, n: int)
    requires
        picks(o, all, src),
        keeps_ties(o, src),
        forall|k: int| 0 <= k < src.len() ==> #[trigger] src[k] < n,
        0 <= n < all.len(),
        0 <= p <= o.len(),
        forall|k: int| p <= k < o.len() ==> seq_lt((#[trigger] o[k]).stamp(), all[n].stamp()),
    ensures
        picks(o.insert(p, all[n]), all, src.insert(p, n)),
        keeps_ties(o.insert(p, all[n]), src.insert(p, n)),
        forall|k: int| 0 <= k < src.insert(p, n).len() ==> #[trigger] src.insert(p, n)[k] < n + 1,
{
    let t = o.insert(p, all[n]);
    let u = src.insert(p, n);
    assert forall|k: int| 0 <= k < t.len() implies 0 <= #[trigger] u[k] < all.len() && t[k] == all[u[k]] by {
        if k < p {
            assert(u[k] == src[k] && t[k] == o[k]);
        } else if k > p {
            assert(u[k] == src[k - 1] && t[k] == o[k - 1]);
        }
    }
    assert forall|k: int, l: int| 0 <= k < l < t.len() implies #[trigger] u[k] != #[trigger] u[l] by {
        if l < p {
            assert(u[k] == src[k] && u[l] == src[l]);
        } else if l == p {
            if k < p {
                assert(u[k] == src[k]);
            }
        } else if k < p {
            assert(u[k] == src[k] && u[l] == src[l - 1]);
        } else if k == p {
            assert(u[l] == src[l - 1]);
        } else {
            assert(u[k] == src[k - 1] && u[l] == src[l - 1]);
        }
    }
    assert forall|k: int, l: int| 0 <= k < l < t.len() && (#[trigger] t[k]).stamp() == (#[trigger] t[l]).stamp()
        implies u[k] < u[l] by {
        if l < p {
            assert(u[k] == src[k] && u[l] == src[l] && t[k] == o[k] && t[l] == o[l]);
        } else if l == p {
            if k < p {
                assert(u[k] == src[k]);
            }
        } else if k < p {
            assert(u[k] == src[k] && u[l] == src[l - 1] && t[k] == o[k] && t[l] == o[l - 1]);
        } else if k == p {
            assert(t[l] == o[l - 1]);
            assert(seq_lt(o[l - 1].stamp(), all[n].stamp()));
            crate::text::lemma_lt_irreflexive(all[n].stamp());
        } else {
            assert(u[k] == src[k - 1] && u[l] == src[l - 1] && t[k] == o[k - 1] && t[l] == o[l - 1]);
        }
    }
    assert forall|k: int| 0 <= k < u.len() implies #[trigger] u[k] < n + 1 by {
        if k < p {
            assert(u[k] == src[k]);
        } else if k > p {
            assert(u[k] == src[k - 1]);
        }
    }
}

/// Sorts newest first; items with equal timestamps keep their order.
pub fn sort_newest_first<T: Stamped>(items: Vec<T>) -> (r: Vec<T>)
    ensures
        newest_first(r@),
        r@.to_multiset() == items@.to_multiset(),
        r@.len() == items@.len(),
        exists|src: Seq<int>| picks(r@, items@, src) && keeps_ties(r@, src),
{
    broadcast use vstd::multiset::group_multiset_axioms;
    let mut rest = items;
    let ghost all = rest@;
    let mut out: Vec<T> = Vec::new();
    let ghost mut src: Seq<int> = Seq::empty();
    proof {
        out@.to_multiset_ensures();
        assert(out@.to_multiset() =~= vstd::multiset::Multiset::<T>::empty());
        assert(out@.to_multiset().add(rest@.to_multiset()) =~= all.to_multiset());
    }
    while rest.len() > 0
        invariant
            newest_first(out@),
            out@.to_multiset().add(rest@.to_multiset()) == all.to_multiset(),
            out@.len() + rest@.len() == all.len(),
            rest@ == all.skip(out@.len() as int),
            picks(out@, all, src),
            keeps_ties(out@, src),
            forall|k: int| 0 <= k < src.len() ==> #[trigger] src[k] < out@.len(),
        decreases rest@.len(),
    {
        let ghost r0 = rest@;
        let ghost o0 = out@;
        let ghost n = o0.len() as int;
        let x = rest.remove(0);
        let p = slot_for(&out, x.stamp_text());
        proof {
            assert(x == all[n]) by {
                assert(r0[0] == all.skip(n)[0]);
            }
            lemma_stable_insert(o0, all, src, p as int, n);
            src = src.insert(p as int, n);
            lemma_newest_insert(o0, p as int, x);
            vstd::seq_lib::to_multiset_remove(r0, 0);
            vstd::seq_lib::to_multiset_insert(o0, p as int, x);
            vstd::seq_lib::to_multiset_contains(r0, x);
            assert(r0.to_multiset().count(x) > 0) by {
                assert(r0[0] == x);
                assert(r0.contains(x));
            }
            assert(o0.to_multiset().insert(x).add(r0.to_multiset().remove(x)) =~= o0.to_multiset().add(r0.to_multiset()));
        }
        out.insert(p, x);
        proof {
            assert(out@ == o0.insert(p as int, x));
            assert(rest@ == r0.remove(0));
            assert(rest@ =~= all.skip(out@.len() as int));
        }
    }
    proof {
        rest@.to_multiset_ensures();
        assert(rest@.to_multiset() =~= vstd::multiset::Multiset::<T>::empty());
        assert(out@.to_multiset().add(vstd::multiset::Multiset::<T>::empty()) =~= out@.to_multiset());
    }
    out
}

/// The worlds a backup takes: all listed worlds unless told otherwise
/// (refused when there is none), else the one named world (which must be
/// a valid world name).
pub fn backup_selection(include_all: Option<bool>, world_name: &Option<String>, listed: &Vec<String>) -> (r: Result<Vec<String>, crate::errors::AppError>)
    ensures
        (include_all is None || include_all == Some(true)) && listed@.len() == 0 ==> (r matches Err(
            crate::errors::AppError::Internal(m),
        ) && m@ == "No worlds found"@),
        (include_all is None || include_all == Some(true)) && listed@.len() > 0 ==> (r matches Ok(v) && crate::text::views(v@) == crate::text::views(listed@)),
        include_all == Some(false) && world_name is None ==> (r matches Err(crate::errors::AppError::Internal(m))
            && m@ == "Specify world_name or include_all=true"@),
        include_all == Some(false) ==> (world_name matches Some(n) ==> match crate::validate::world_name_error(n@) {
            Some(e) => r matches Err(x) && x.view() == e,
            None => r matches Ok(v) && v@.len() == 1 && v@[0]@ == n@,
        }),
{
    let all = match include_all {
        Some(b) => b,
        None => true,
    };
    if all {
        if listed.len() == 0 {
            return Err(crate::errors::AppError::Internal(String::from_str("No worlds found")));
        }
        let v = crate::text::copy_strings(listed);
        return Ok(v);
    }
    match world_name {
        Some(n) => {
            crate::validate::validate_world_name(n.as_str())?;
            let mut v: Vec<String> = Vec::new();
            v.push(n.clone());
            Ok(v)
        },
        None => Err(crate::errors::AppError::Internal(String::from_str("Specify world_name or include_all=true"))),
    }
}

/// The compact `%Y%m%dT%H%M%SZ` text of the UTC instant `secs` seconds
/// after the epoch, or `None` for an instant outside the dates that can be
/// written.
pub uninterp spec fn utc_stamp(secs: i64) -> Option<Seq<char>>;

/// `chrono::DateTime::from_timestamp(secs, 0)` written with
/// `format("%Y%m%dT%H%M%SZ")`. Trusted: the outcome is a function of `secs`
/// alone.
#[verifier::external_body]
fn format_stamp(secs: i64) -> (r: Option<String>)
    ensures
        match r {
            Some(t) => utc_stamp(secs) == Some(t@),
            None => utc_stamp(secs) is None,
        },
{
    chrono::DateTime::from_timestamp(secs, 0).map(|dt| dt.format("%Y%m%dT%H%M%SZ").to_string())
}

/// The file a backup taken at `now_secs` is written to:
/// `<id>-worlds-<stamp>.zip`, stamped with the UTC time.
pub fn backup_file_name(id: &str, now_secs: i64) -> (r: Option<String>)
    ensures
        match utc_stamp(now_secs) {
            Some(st) => r matches Some(n) && n@ == id@ + "-worlds-"@ + st + ".zip"@,
            None => r is None,
        },
{
    let stamp = match format_stamp(now_secs) {
        Some(t) => t,
        None => return None,
    };
    let mut r = concat(id, "-worlds-");
    r.append(stamp.as_str());
    r.append(".zip");
    Some(r)
}

} // verus!
