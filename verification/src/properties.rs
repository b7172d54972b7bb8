//! Minecraft `server.properties` contents: parsing, editing and rendering.
//!
//! Reading and writing the file itself happens at the edge of the program;
//! this module turns file contents into a key/value table and back. Comment
//! lines of the file are kept as they were and written back on save.
use vstd::prelude::*;
use crate::assoc::{amap, find_key, lemma_amap_finite, insert_sorted, keys_sorted, lemma_amap_len, lemma_amap_dom, lemma_amap_index, lemma_sorted_unique, remove_key};
use crate::text::{chars_of, lemma_lt_asym, lemma_lt_irreflexive, seq_lt, find_char_from, idx_from, lemma_idx_from, lemma_idx_from_absent, lemma_idx_from_concat, lemma_idx_from_skip, lemma_trim_empty, lemma_trim_noop, lemma_trimmed_ends, is_ws, slice_range, string_of, trim, trim_chars};

verus! {

// ---------------------------------------------------------------------------
// Specification of the file format
// ---------------------------------------------------------------------------

/// A trimmed line starting with `#` is a comment.
pub open spec fn is_comment(t: Seq<char>) -> bool {
    t.len() > 0 && t[0] == '#'
}

/// The effect of one line on the table: a non-comment line holding `=` sets
/// the trimmed text before the first `=` to the trimmed text after it.
pub open spec fn apply_line(m: Map<Seq<char>, Seq<char>>, line: Seq<char>) -> Map<
    Seq<char>,
    Seq<char>,
> {
    let t = trim(line);
    match idx_from(t, '=', 0) {
        Some(e) => if is_comment(t) {
            m
        } else {
            m.insert(trim(t.subrange(0, e)), trim(t.subrange(e + 1, t.len() as int)))
        },
        None => m,
    }
}

/// The effect of a whole text, line by line (`str::lines`; a `\r` before a
/// line break is whitespace and disappears with the trimming).
pub open spec fn apply_text(m: Map<Seq<char>, Seq<char>>, s: Seq<char>) -> Map<
    Seq<char>,
    Seq<char>,
>
    decreases s.len(),
{
    match idx_from(s, '\n', 0) {
        Some(i) => {
            if 0 <= i < s.len() {
                apply_text(apply_line(m, s.subrange(0, i)), s.subrange(i + 1, s.len() as int))
            } else {
                m
            }
        },
        None => apply_line(m, s),
    }
}

/// One rendered line: `key=value` and a line break.
pub open spec fn render_entry(e: (Seq<char>, Seq<char>)) -> Seq<char> {
    e.0 + seq!['='] + e.1 + seq!['\n']
}

/// The rendered file: the entries' lines in order.
pub open spec fn render(es: Seq<(Seq<char>, Seq<char>)>) -> Seq<char>
    decreases es.len(),
{
    if es.len() == 0 {
        Seq::empty()
    } else {
        render(es.drop_last()) + render_entry(es.last())
    }
}

/// The comment lines among one line: the line itself when it is a comment.
pub open spec fn line_comments(line: Seq<char>) -> Seq<Seq<char>> {
    if is_comment(trim(line)) {
        seq![line]
    } else {
        Seq::empty()
    }
}

/// The comment lines of a text, in order and as written.
pub open spec fn text_comments(s: Seq<char>) -> Seq<Seq<char>>
    decreases s.len(),
{
    match idx_from(s, '\n', 0) {
        Some(i) => {
            if 0 <= i < s.len() {
                line_comments(s.subrange(0, i)) + text_comments(s.subrange(i + 1, s.len() as int))
            } else {
                Seq::empty()
            }
        },
        None => line_comments(s),
    }
}

/// A line that is kept as a comment: one line, a comment once trimmed.
pub open spec fn valid_comment(c: Seq<char>) -> bool {
    is_comment(trim(c)) && !c.contains('\n')
}

/// The rendered comment lines, each followed by a line break.
pub open spec fn render_comments(cs: Seq<Seq<char>>) -> Seq<char>
    decreases cs.len(),
{
    if cs.len() == 0 {
        Seq::empty()
    } else {
        cs[0] + seq!['\n'] + render_comments(cs.drop_first())
    }
}

/// The table that a list of entries denotes.
pub open spec fn entries_map(es: Seq<(Seq<char>, Seq<char>)>) -> Map<Seq<char>, Seq<char>>
    decreases es.len(),
{
    if es.len() == 0 {
        Map::empty()
    } else {
        entries_map(es.drop_last()).insert(es.last().0, es.last().1)
    }
}

/// A key/value pair that survives saving and loading unchanged.
pub open spec fn writable(e: (Seq<char>, Seq<char>)) -> bool {
    &&& !e.0.contains('=')
    &&& !e.0.contains('\n')
    &&& trim(e.0) == e.0
    &&& !is_comment(e.0)
    &&& !e.1.contains('\n')
    &&& trim(e.1) == e.1
}

pub open spec fn pairs_view(s: Seq<(String, String)>) -> Seq<(Seq<char>, Seq<char>)> {
    s.map_values(|p: (String, String)| (p.0@, p.1@))
}

// ---------------------------------------------------------------------------
// The table
// ---------------------------------------------------------------------------

/// The key/value table of a `server.properties` file, kept sorted by key,
/// with the file's comment lines, which are written back on save.
#[derive(Debug)]
pub struct ServerProperties {
    properties: Vec<(String, String)>,
    comments: Vec<String>,
    path: String,
}

impl ServerProperties {
    /// Keys are strictly ascending and every kept comment is one comment
    /// line.
    pub closed spec fn wf(&self) -> bool {
        &&& keys_sorted(self.properties@)
        &&& forall|i: int| 0 <= i < self.comments@.len() ==> valid_comment(#[trigger] self.comments@[i]@)
    }

    /// The comment lines, in file order.
    pub closed spec fn comments(&self) -> Seq<Seq<char>> {
        self.comments@.map_values(|c: String| c@)
    }

    /// The table as a map from key to value.
    pub closed spec fn map(&self) -> Map<Seq<char>, Seq<char>> {
        amap(self.properties@).map_values(|v: String| v@)
    }

    /// The entries in ascending key order.
    pub closed spec fn entries(&self) -> Seq<(Seq<char>, Seq<char>)> {
        pairs_view(self.properties@)
    }

    pub closed spec fn path_view(&self) -> Seq<char> {
        self.path@
    }

    /// An empty table for the file at `path` (a file that does not exist).
    pub fn empty(path: String) -> (r: Self)
        ensures
            r.wf(),
            r.map() == Map::<Seq<char>, Seq<char>>::empty(),
            r.comments().len() == 0,
            r.path_view() == path@,
    {
        let r = ServerProperties { properties: Vec::new(), comments: Vec::new(), path };
        assert(r.map() =~= Map::<Seq<char>, Seq<char>>::empty());
        r
    }

    /// The table read from the file contents `content`, with its comments.
    pub fn parse(path: String, content: &str) -> (r: Self)
        ensures
            r.wf(),
            r.map() == apply_text(Map::empty(), content@),
            r.comments() == text_comments(content@),
            r.path_view() == path@,
    {
        let mut r = Self::empty(path);
        r.reload_from(content);
        r
    }

    /// Merges the file contents `content` into the table; keys present in
    /// the text take its values, the others keep theirs. The comments become
    /// those of the text.
    pub fn reload_from(&mut self, content: &str)
        requires
            old(self).wf(),
        ensures
            final(self).wf(),
            final(self).map() == apply_text(old(self).map(), content@),
            final(self).comments() == text_comments(content@),
            final(self).path_view() == old(self).path_view(),
    {
        self.comments = Vec::new();
        assert(self.comments() =~= Seq::<Seq<char>>::empty());
        let s = chars_of(content);
        let ghost target = apply_text(self.map(), s@);
        let mut pos: usize = 0;
        let n = s.len();
        assert(s@.subrange(0, s@.len() as int) =~= s@);
        loop
            invariant
                self.wf(),
                n == s@.len(),
                s@ == content@,
                target == apply_text(old(self).map(), content@),
                pos <= s@.len(),
                apply_text(self.map(), s@.subrange(pos as int, s@.len() as int)) == target,
                self.comments() + text_comments(s@.subrange(pos as int, s@.len() as int)) == text_comments(
                    content@,
                ),
                self.path_view() == old(self).path_view(),
            decreases s@.len() - pos,
        {
            let ghost rest = s@.subrange(pos as int, s@.len() as int);
            proof {
                lemma_idx_from_skip(s@, '\n', pos as int, 0);
                lemma_idx_from(s@, '\n', pos as int);
            }
            match find_char_from(&s, '\n', pos) {
                Some(i) => {
                    let line = slice_range(&s, pos, i);
                    assert(rest.subrange(0, i - pos) =~= line@);
                    assert(rest.subrange(i - pos + 1, rest.len() as int) =~= s@.subrange(
                        i + 1,
                        s@.len() as int,
                    ));
                    let ghost before = self.comments();
                    assert(!line@.contains('\n')) by {
                        if line@.contains('\n') {
                            let k = choose|k: int| 0 <= k < line@.len() && line@[k] == '\n';
                            assert(s@[pos + k] == '\n');
                        }
                    }
                    self.keep_comment(&line);
                    assert(self.comments() + text_comments(s@.subrange(i + 1, s@.len() as int)) =~= before
                        + text_comments(rest));
                    self.apply_line_exec(&line);
                    pos = i + 1;
                },
                None => {
                    let line = slice_range(&s, pos, n);
                    assert(line@ =~= rest);
                    let ghost before = self.map();
                    assert(idx_from(rest, '\n', 0) is None);
                    assert(apply_text(before, rest) == apply_line(before, rest));
                    assert(!line@.contains('\n')) by {
                        if line@.contains('\n') {
                            let k = choose|k: int| 0 <= k < line@.len() && line@[k] == '\n';
                            assert(s@[pos + k] == '\n');
                        }
                    }
                    let ghost cbefore = self.comments();
                    self.keep_comment(&line);
                    assert(self.comments() =~= cbefore + text_comments(rest));
                    self.apply_line_exec(&line);
                    assert(self.map() == apply_line(before, line@));
                    assert(self.map() == target);
                    return;
                },
            }
        }
    }

    /// Keeps `line` when it is a comment.
    fn keep_comment(&mut self, line: &[char])
        requires
            old(self).wf(),
            !line@.contains('\n'),
        ensures
            final(self).wf(),
            final(self).comments() == old(self).comments() + line_comments(line@),
            final(self).map() == old(self).map(),
            final(self).entries() == old(self).entries(),
            final(self).path_view() == old(self).path_view(),
    {
        let t = trim_chars(line);
        if t.len() > 0 && t[0] == '#' {
            self.comments.push(string_of(line));
            assert(self.comments() =~= old(self).comments() + seq![line@]);
        } else {
            assert(old(self).comments() + line_comments(line@) =~= old(self).comments());
        }
    }

    fn apply_line_exec(&mut self, line: &[char])
        requires
            old(self).wf(),
        ensures
            final(self).wf(),
            final(self).map() == apply_line(old(self).map(), line@),
            final(self).comments() == old(self).comments(),
            final(self).path_view() == old(self).path_view(),
    {
        let t = trim_chars(line);
        match find_char_from(&t, '=', 0) {
            Some(e) => {
                proof {
                    lemma_idx_from(t@, '=', 0);
                }
                if t.len() > 0 && t[0] == '#' {
                    return ;
                }
                let kc = slice_range(&t, 0, e);
                let vc = slice_range(&t, e + 1, t.len());
                let k = string_of(&trim_chars(&kc));
                let v = string_of(&trim_chars(&vc));
                self.set(k, v);
            },
            None => {},
        }
    }

    /// The value of `key`.
    pub fn get(&self, key: &str) -> (r: Option<&str>)
        requires
            self.wf(),
        ensures
            match r {
                Some(v) => self.map().dom().contains(key@) && self.map()[key@] == v@,
                None => !self.map().dom().contains(key@),
            },
    {
        proof {
            lemma_sorted_unique(self.properties@);
            lemma_amap_dom(self.properties@, key@);
        }
        let k = String::from_str(key);
        match find_key(&self.properties, &k) {
            Some(i) => {
                proof {
                    lemma_amap_index(self.properties@, i as int);
                }
                Some(self.properties[i].1.as_str())
            },
            None => None,
        }
    }

    /// Sets `key` to `value`.
    pub fn set(&mut self, key: String, value: String)
        requires
            old(self).wf(),
        ensures
            final(self).wf(),
            final(self).map() == old(self).map().insert(key@, value@),
            final(self).comments() == old(self).comments(),
            final(self).path_view() == old(self).path_view(),
    {
        let ghost k = key@;
        let ghost v = value@;
        let ghost old_map = amap(self.properties@);
        insert_sorted(&mut self.properties, key, value);
        assert(self.map() =~= old_map.map_values(|v: String| v@).insert(k, v));
    }

    /// Removes `key`, returning its former value.
    pub fn remove(&mut self, key: &str) -> (r: Option<String>)
        requires
            old(self).wf(),
        ensures
            final(self).wf(),
            final(self).map() == old(self).map().remove(key@),
            final(self).comments() == old(self).comments(),
            final(self).path_view() == old(self).path_view(),
            match r {
                Some(v) => old(self).map().dom().contains(key@) && old(self).map()[key@] == v@,
                None => !old(self).map().dom().contains(key@),
            },
    {
        let ghost old_map = amap(self.properties@);
        let k = String::from_str(key);
        let r = remove_key(&mut self.properties, &k);
        assert(self.map() =~= old_map.map_values(|v: String| v@).remove(key@));
        r
    }

    pub fn contains_key(&self, key: &str) -> (r: bool)
        requires
            self.wf(),
        ensures
            r == self.map().dom().contains(key@),
    {
        proof {
            lemma_amap_dom(self.properties@, key@);
        }
        let k = String::from_str(key);
        find_key(&self.properties, &k).is_some()
    }

    /// Number of keys.
    pub fn len(&self) -> (r: usize)
        requires
            self.wf(),
        ensures
            r == self.map().dom().len(),
            r == self.entries().len(),
            self.map().dom().finite(),
    {
        proof {
            self.lemma_len();
            self.lemma_finite();
        }
        self.properties.len()
    }

    pub fn is_empty(&self) -> (r: bool)
        requires
            self.wf(),
        ensures
            r == (self.map().dom().len() == 0),
    {
        proof {
            self.lemma_len();
        }
        self.properties.len() == 0
    }

    /// All entries, in ascending key order.
    pub fn all(&self) -> (r: &[(String, String)])
        requires
            self.wf(),
        ensures
            pairs_view(r@) == self.entries(),
            entries_map(pairs_view(r@)) == self.map(),
    {
        proof {
            self.lemma_entries_map();
        }
        self.properties.as_slice()
    }

    /// The path of the file the table belongs to.
    pub fn path(&self) -> (r: &str)
        ensures
            r@ == self.path_view(),
    {
        self.path.as_str()
    }

    /// The file contents: the comment lines as they were, then one
    /// `key=value` line per entry, keys ascending.
    pub fn to_contents(&self) -> (r: String)
        requires
            self.wf(),
        ensures
            r@ == render_comments(self.comments()) + render(self.entries()),
    {
        let mut out: Vec<char> = Vec::new();
        let ghost cs = self.comments();
        let mut c: usize = 0;
        while c < self.comments.len()
            invariant
                c <= self.comments@.len(),
                cs == self.comments(),
                out@ == render_comments(cs.take(c as int)),
            decreases self.comments@.len() - c,
        {
            let line = chars_of(self.comments[c].as_str());
            let ghost before = out@;
            let mut j: usize = 0;
            while j < line.len()
                invariant
                    j <= line@.len(),
                    out@ == before + line@.take(j as int),
                decreases line@.len() - j,
            {
                out.push(line[j]);
                j = j + 1;
            }
            out.push('\n');
            proof {
                assert(line@.take(line@.len() as int) =~= line@);
                assert(cs.take(c + 1) =~= cs.take(c as int).push(cs[c as int]));
                lemma_render_comments_push(cs.take(c as int), cs[c as int]);
                assert(out@ =~= render_comments(cs.take(c + 1)));
            }
            c = c + 1;
        }
        assert(cs.take(cs.len() as int) =~= cs);
        let ghost head = out@;
        let mut i: usize = 0;
        let ghost es = self.entries();
        assert(es.take(0) =~= Seq::<(Seq<char>, Seq<char>)>::empty());
        assert(head + render(es.take(0)) =~= head);
        while i < self.properties.len()
            invariant
                i <= self.properties@.len(),
                es == self.entries(),
                out@ == head + render(es.take(i as int)),
            decreases self.properties@.len() - i,
        {
            let k = chars_of(self.properties[i].0.as_str());
            let v = chars_of(self.properties[i].1.as_str());
            let ghost before = out@;
            let mut j: usize = 0;
            while j < k.len()
                invariant
                    j <= k@.len(),
                    out@ == before + k@.take(j as int),
                decreases k@.len() - j,
            {
                out.push(k[j]);
                j = j + 1;
            }
            out.push('=');
            let ghost mid = out@;
            j = 0;
            while j < v.len()
                invariant
                    j <= v@.len(),
                    out@ == mid + v@.take(j as int),
                decreases v@.len() - j,
            {
                out.push(v[j]);
                j = j + 1;
            }
            out.push('\n');
            assert(es.take(i + 1).drop_last() =~= es.take(i as int));
            assert(k@.take(k@.len() as int) =~= k@);
            assert(v@.take(v@.len() as int) =~= v@);
            assert(out@ =~= before + render_entry(es[i as int]));
            assert(out@ =~= head + render(es.take(i + 1)));
            i = i + 1;
        }
        assert(es.take(es.len() as int) =~= es);
        string_of(&out)
    }

    proof fn lemma_len(&self)
        requires
            self.wf(),
        ensures
            self.map().dom().len() == self.properties@.len(),
            self.entries().len() == self.properties@.len(),
    {
        lemma_sorted_unique(self.properties@);
        lemma_amap_len(self.properties@);
        assert(self.map().dom() =~= amap(self.properties@).dom());
    }

    proof fn lemma_finite(&self)
        ensures
            self.map().dom().finite(),
    {
        lemma_amap_finite(self.properties@);
        assert(self.map().dom() =~= amap(self.properties@).dom());
    }

    proof fn lemma_ascending(&self)
        requires
            self.wf(),
        ensures
            keys_ascending(self.entries()),
    {
        assert forall|i: int, j: int| 0 <= i < j < self.entries().len() implies seq_lt(
            (#[trigger] self.entries()[i]).0,
            (#[trigger] self.entries()[j]).0,
        ) by {
            assert(self.entries()[i].0 == self.properties@[i].0@);
            assert(self.entries()[j].0 == self.properties@[j].0@);
        }
    }

    proof fn lemma_comments_valid(&self)
        requires
            self.wf(),
        ensures
            forall|i: int| 0 <= i < self.comments().len() ==> valid_comment(#[trigger] self.comments()[i]),
    {
        assert forall|i: int| 0 <= i < self.comments().len() implies valid_comment(
            #[trigger] self.comments()[i],
        ) by {
            assert(self.comments()[i] == self.comments@[i]@);
        }
    }

    proof fn lemma_entries_map(&self)
        ensures
            entries_map(self.entries()) == self.map(),
    {
        lemma_entries_map_amap(self.properties@);
    }
}

proof fn lemma_entries_map_amap(s: Seq<(String, String)>)
    ensures
        entries_map(pairs_view(s)) == amap(s).map_values(|v: String| v@),
    decreases s.len(),
{
    if s.len() > 0 {
        lemma_entries_map_amap(s.drop_last());
        assert(pairs_view(s).drop_last() =~= pairs_view(s.drop_last()));
        assert(entries_map(pairs_view(s)) =~= amap(s).map_values(|v: String| v@));
    }
}

proof fn lemma_render_comments_push(cs: Seq<Seq<char>>, c: Seq<char>)
    ensures
        render_comments(cs.push(c)) == render_comments(cs) + c + seq!['\n'],
    decreases cs.len(),
{
    if cs.len() == 0 {
        let p = cs.push(c);
        assert(p.drop_first() =~= Seq::<Seq<char>>::empty());
        assert(p[0] == c);
        assert(render_comments(p.drop_first()) == Seq::<char>::empty());
        assert(render_comments(cs) == Seq::<char>::empty());
        assert(render_comments(p) =~= render_comments(cs) + c + seq!['\n']);
    } else {
        lemma_render_comments_push(cs.drop_first(), c);
        assert(cs.push(c).drop_first() =~= cs.drop_first().push(c));
        assert(render_comments(cs.push(c)) =~= render_comments(cs) + c + seq!['\n']);
    }
}

// ---------------------------------------------------------------------------
// Saving then loading gives back the table
// ---------------------------------------------------------------------------

/// Inserting the entries front to back.
pub open spec fn fold_front(m: Map<Seq<char>, Seq<char>>, es: Seq<(Seq<char>, Seq<char>)>) -> Map<
    Seq<char>,
    Seq<char>,
>
    decreases es.len(),
{
    if es.len() == 0 {
        m
    } else {
        fold_front(m.insert(es[0].0, es[0].1), es.drop_first())
    }
}

/// Inserting the entries back to front, on top of `m`.
pub open spec fn fold_back(m: Map<Seq<char>, Seq<char>>, es: Seq<(Seq<char>, Seq<char>)>) -> Map<
    Seq<char>,
    Seq<char>,
>
    decreases es.len(),
{
    if es.len() == 0 {
        m
    } else {
        fold_back(m, es.drop_last()).insert(es.last().0, es.last().1)
    }
}

proof fn lemma_fold_back_cons(
    m: Map<Seq<char>, Seq<char>>,
    e: (Seq<char>, Seq<char>),
    r: Seq<(Seq<char>, Seq<char>)>,
)
    ensures
        fold_back(m, seq![e] + r) == fold_back(m.insert(e.0, e.1), r),
    decreases r.len(),
{
    let s = seq![e] + r;
    if r.len() == 0 {
        assert(s.drop_last() =~= Seq::<(Seq<char>, Seq<char>)>::empty());
        assert(s.last() == e);
        assert(fold_back(m, s.drop_last()) == m);
    } else {
        lemma_fold_back_cons(m, e, r.drop_last());
        assert(s.drop_last() =~= seq![e] + r.drop_last());
        assert(s.last() == r.last());
    }
}

proof fn lemma_fold_front_back(m: Map<Seq<char>, Seq<char>>, es: Seq<(Seq<char>, Seq<char>)>)
    ensures
        fold_front(m, es) == fold_back(m, es),
    decreases es.len(),
{
    if es.len() > 0 {
        lemma_fold_front_back(m.insert(es[0].0, es[0].1), es.drop_first());
        lemma_fold_back_cons(m, es[0], es.drop_first());
        assert(seq![es[0]] + es.drop_first() =~= es);
    }
}

proof fn lemma_entries_map_fold(es: Seq<(Seq<char>, Seq<char>)>)
    ensures
        entries_map(es) == fold_back(Map::empty(), es),
    decreases es.len(),
{
    if es.len() > 0 {
        lemma_entries_map_fold(es.drop_last());
    }
}

proof fn lemma_render_cons(es: Seq<(Seq<char>, Seq<char>)>)
    requires
        es.len() > 0,
    ensures
        render(es) == render_entry(es[0]) + render(es.drop_first()),
    decreases es.len(),
{
    if es.len() == 1 {
        assert(es.drop_last() =~= Seq::<(Seq<char>, Seq<char>)>::empty());
        assert(es.drop_first() =~= Seq::<(Seq<char>, Seq<char>)>::empty());
        assert(render(es.drop_last()) == Seq::<char>::empty());
        assert(es.last() == es[0]);
        assert(render(es) =~= render_entry(es[0]));
        assert(render(es.drop_first()) == Seq::<char>::empty());
    } else {
        lemma_render_cons(es.drop_last());
        assert(es.drop_last().drop_first() =~= es.drop_first().drop_last());
        assert(es.drop_first().last() == es.last());
        assert(render(es) =~= render_entry(es[0]) + render(es.drop_first()));
    }
}

proof fn lemma_apply_writable_line(m: Map<Seq<char>, Seq<char>>, e: (Seq<char>, Seq<char>))
    requires
        writable(e),
    ensures
        apply_line(m, e.0 + seq!['='] + e.1) == m.insert(e.0, e.1),
{
    let k = e.0;
    let v = e.1;
    let t0 = k + seq!['='] + v;
    if k.len() > 0 {
        lemma_trimmed_ends(k);
    }
    if v.len() > 0 {
        lemma_trimmed_ends(v);
    }
    assert(t0[0] == if k.len() > 0 { k[0] } else { '=' });
    assert(t0[t0.len() - 1] == if v.len() > 0 { v[v.len() - 1] } else { '=' });
    lemma_trim_noop(t0);
    lemma_idx_from_concat(k, '=', v);
    assert(t0.subrange(0, k.len() as int) =~= k);
    assert(t0.subrange(k.len() as int + 1, t0.len() as int) =~= v);
}

proof fn lemma_apply_render(m: Map<Seq<char>, Seq<char>>, es: Seq<(Seq<char>, Seq<char>)>)
    requires
        forall|i: int| 0 <= i < es.len() ==> writable(#[trigger] es[i]),
    ensures
        apply_text(m, render(es)) == fold_front(m, es),
    decreases es.len(),
{
    if es.len() == 0 {
        lemma_idx_from_absent(Seq::<char>::empty(), '\n', 0);
        lemma_trim_empty();
        lemma_idx_from_absent(Seq::<char>::empty(), '=', 0);
    } else {
        let e = es[0];
        assert(writable(e));
        let line = e.0 + seq!['='] + e.1;
        let rest = render(es.drop_first());
        lemma_render_cons(es);
        assert(render(es) =~= line + seq!['\n'] + rest);
        assert(!line.contains('\n')) by {
            if line.contains('\n') {
                let i = choose|i: int| 0 <= i < line.len() && line[i] == '\n';
                if i < e.0.len() {
                    assert(e.0[i] == '\n');
                } else if i > e.0.len() {
                    assert(e.1[i - e.0.len() - 1] == '\n');
                }
            }
        }
        lemma_idx_from_concat(line, '\n', rest);
        let s = render(es);
        assert(s.subrange(0, line.len() as int) =~= line);
        assert(s.subrange(line.len() as int + 1, s.len() as int) =~= rest);
        lemma_apply_writable_line(m, e);
        assert forall|i: int| 0 <= i < es.drop_first().len() implies writable(
            #[trigger] es.drop_first()[i],
        ) by {
            assert(es.drop_first()[i] == es[i + 1]);
        }
        lemma_apply_render(m.insert(e.0, e.1), es.drop_first());
    }
}

/// A comment line leaves the table alone.
proof fn lemma_apply_comment_line(m: Map<Seq<char>, Seq<char>>, c: Seq<char>)
    requires
        valid_comment(c),
    ensures
        apply_line(m, c) == m,
        line_comments(c) == seq![c],
{
}

/// Comment lines in front of a text add their comments and no keys.
proof fn lemma_apply_comments(m: Map<Seq<char>, Seq<char>>, cs: Seq<Seq<char>>, t: Seq<char>)
    requires
        forall|i: int| 0 <= i < cs.len() ==> valid_comment(#[trigger] cs[i]),
    ensures
        apply_text(m, render_comments(cs) + t) == apply_text(m, t),
        text_comments(render_comments(cs) + t) == cs + text_comments(t),
    decreases cs.len(),
{
    if cs.len() == 0 {
        assert(render_comments(cs) + t =~= t);
        assert(cs + text_comments(t) =~= text_comments(t));
    } else {
        let c = cs[0];
        assert(valid_comment(c));
        let rest = render_comments(cs.drop_first()) + t;
        assert forall|i: int| 0 <= i < cs.drop_first().len() implies valid_comment(
            #[trigger] cs.drop_first()[i],
        ) by {
            assert(cs.drop_first()[i] == cs[i + 1]);
        }
        lemma_apply_comments(m, cs.drop_first(), t);
        let full = render_comments(cs) + t;
        assert(full =~= c + seq!['\n'] + rest);
        lemma_idx_from_concat(c, '\n', rest);
        assert(full.subrange(0, c.len() as int) =~= c);
        assert(full.subrange(c.len() as int + 1, full.len() as int) =~= rest);
        lemma_apply_comment_line(m, c);
        assert(cs =~= seq![c] + cs.drop_first());
        assert(cs + text_comments(t) =~= seq![c] + (cs.drop_first() + text_comments(t)));
    }
}

/// A written `key=value` line is not a comment.
proof fn lemma_entry_not_comment(e: (Seq<char>, Seq<char>))
    requires
        writable(e),
    ensures
        line_comments(e.0 + seq!['='] + e.1) == Seq::<Seq<char>>::empty(),
{
    let k = e.0;
    let v = e.1;
    let t0 = k + seq!['='] + v;
    if k.len() > 0 {
        lemma_trimmed_ends(k);
    }
    if v.len() > 0 {
        lemma_trimmed_ends(v);
    }
    assert(t0[0] == if k.len() > 0 { k[0] } else { '=' });
    assert(t0[t0.len() - 1] == if v.len() > 0 { v[v.len() - 1] } else { '=' });
    lemma_trim_noop(t0);
}

/// The `key=value` lines of writable entries hold no comment.
proof fn lemma_render_no_comments(es: Seq<(Seq<char>, Seq<char>)>)
    requires
        forall|i: int| 0 <= i < es.len() ==> writable(#[trigger] es[i]),
    ensures
        text_comments(render(es)) == Seq::<Seq<char>>::empty(),
    decreases es.len(),
{
    if es.len() == 0 {
        lemma_idx_from_absent(Seq::<char>::empty(), '\n', 0);
        lemma_trim_empty();
    } else {
        let e = es[0];
        assert(writable(e));
        let line = e.0 + seq!['='] + e.1;
        let rest = render(es.drop_first());
        lemma_render_cons(es);
        assert(render(es) =~= line + seq!['\n'] + rest);
        assert(!line.contains('\n')) by {
            if line.contains('\n') {
                let i = choose|i: int| 0 <= i < line.len() && line[i] == '\n';
                if i < e.0.len() {
                    assert(e.0[i] == '\n');
                } else if i > e.0.len() {
                    assert(e.1[i - e.0.len() - 1] == '\n');
                }
            }
        }
        lemma_idx_from_concat(line, '\n', rest);
        let s = render(es);
        assert(s.subrange(0, line.len() as int) =~= line);
        assert(s.subrange(line.len() as int + 1, s.len() as int) =~= rest);
        lemma_entry_not_comment(e);
        assert forall|i: int| 0 <= i < es.drop_first().len() implies writable(
            #[trigger] es.drop_first()[i],
        ) by {
            assert(es.drop_first()[i] == es[i + 1]);
        }
        lemma_render_no_comments(es.drop_first());
        assert(text_comments(s) =~= Seq::<Seq<char>>::empty());
    }
}

/// Keys strictly ascending.
pub open spec fn keys_ascending(es: Seq<(Seq<char>, Seq<char>)>) -> bool {
    forall|i: int, j: int| 0 <= i < j < es.len() ==> seq_lt((#[trigger] es[i]).0, (#[trigger] es[j]).0)
}

proof fn lemma_entries_map_dom(es: Seq<(Seq<char>, Seq<char>)>, k: Seq<char>)
    ensures
        entries_map(es).dom().contains(k) <==> exists|i: int| 0 <= i < es.len() && (#[trigger] es[i]).0 == k,
    decreases es.len(),
{
    if es.len() > 0 {
        let t = es.drop_last();
        lemma_entries_map_dom(t, k);
        if exists|i: int| 0 <= i < t.len() && (#[trigger] t[i]).0 == k {
            let i = choose|i: int| 0 <= i < t.len() && (#[trigger] t[i]).0 == k;
            assert(es[i] == t[i]);
        }
        if exists|i: int| 0 <= i < es.len() && (#[trigger] es[i]).0 == k {
            let i = choose|i: int| 0 <= i < es.len() && (#[trigger] es[i]).0 == k;
            if i < es.len() - 1 {
                assert(t[i] == es[i]);
            }
        }
        assert(es[es.len() - 1] == es.last());
    }
}

/// A table determines its entries once they are in ascending key order.
proof fn lemma_ascending_entries_unique(a: Seq<(Seq<char>, Seq<char>)>, b: Seq<(Seq<char>, Seq<char>)>)
    requires
        keys_ascending(a),
        keys_ascending(b),
        entries_map(a) == entries_map(b),
    ensures
        a == b,
    decreases a.len(),
{
    if a.len() == 0 {
        if b.len() > 0 {
            assert(entries_map(b).dom().contains(b.last().0));
        }
        assert(a =~= b);
    } else if b.len() == 0 {
        assert(entries_map(a).dom().contains(a.last().0));
    } else {
        let la = a.len() - 1;
        let lb = b.len() - 1;
        let ka = a[la].0;
        let kb = b[lb].0;
        assert(a.last() == a[la] && b.last() == b[lb]);
        assert(entries_map(a).dom().contains(ka));
        assert(entries_map(b).dom().contains(kb));
        lemma_entries_map_dom(b, ka);
        lemma_entries_map_dom(a, kb);
        let j = choose|j: int| 0 <= j < b.len() && (#[trigger] b[j]).0 == ka;
        let i = choose|i: int| 0 <= i < a.len() && (#[trigger] a[i]).0 == kb;
        if j < lb && i < la {
            assert(seq_lt(ka, kb));
            assert(seq_lt(kb, ka));
            lemma_lt_asym(ka, kb);
        }
        if j < lb && i == la {
            assert(seq_lt(b[j].0, b[lb].0));
            lemma_lt_irreflexive(ka);
        }
        if j == lb && i < la {
            assert(seq_lt(a[i].0, a[la].0));
            lemma_lt_irreflexive(kb);
        }
        assert(ka == kb);
        assert(entries_map(a) == entries_map(a.drop_last()).insert(a.last().0, a.last().1));
        assert(entries_map(b) == entries_map(b.drop_last()).insert(b.last().0, b.last().1));
        assert(entries_map(a)[ka] == a.last().1);
        assert(entries_map(b)[kb] == b.last().1);
        assert(a.last().1 == b.last().1);
        let ta = a.drop_last();
        let tb = b.drop_last();
        lemma_entries_map_dom(ta, ka);
        lemma_entries_map_dom(tb, kb);
        if entries_map(ta).dom().contains(ka) {
            let x = choose|x: int| 0 <= x < ta.len() && (#[trigger] ta[x]).0 == ka;
            assert(seq_lt(a[x].0, a[la].0));
            lemma_lt_irreflexive(ka);
        }
        if entries_map(tb).dom().contains(kb) {
            let x = choose|x: int| 0 <= x < tb.len() && (#[trigger] tb[x]).0 == kb;
            assert(seq_lt(b[x].0, b[lb].0));
            lemma_lt_irreflexive(kb);
        }
        assert(entries_map(ta) =~= entries_map(a).remove(ka));
        assert(entries_map(tb) =~= entries_map(b).remove(kb));
        assert forall|x: int, y: int| 0 <= x < y < ta.len() implies seq_lt(
            (#[trigger] ta[x]).0,
            (#[trigger] ta[y]).0,
        ) by {
            assert(ta[x] == a[x] && ta[y] == a[y]);
        }
        assert forall|x: int, y: int| 0 <= x < y < tb.len() implies seq_lt(
            (#[trigger] tb[x]).0,
            (#[trigger] tb[y]).0,
        ) by {
            assert(tb[x] == b[x] && tb[y] == b[y]);
        }
        lemma_ascending_entries_unique(ta, tb);
        assert(a =~= b) by {
            assert(a =~= ta.push(a.last()));
            assert(b =~= tb.push(b.last()));
        }
    }
}

/// Setting a key makes it map to the value, leaves every other key as it
/// was, and adds one key exactly when the key was new.
pub proof fn law_set_then_get(p: ServerProperties, k: Seq<char>, v: Seq<char>, other: Seq<char>)
    requires
        p.wf(),
        other != k,
    ensures
        p.map().dom().finite(),
        p.map().insert(k, v)[k] == v,
        p.map().insert(k, v).dom().contains(other) == p.map().dom().contains(other),
        p.map().dom().contains(other) ==> p.map().insert(k, v)[other] == p.map()[other],
        p.map().insert(k, v).dom().len() == p.map().dom().len() + if p.map().dom().contains(k) {
            0int
        } else {
            1int
        },
{
    p.lemma_finite();
    if p.map().dom().contains(k) {
        assert(p.map().insert(k, v).dom() =~= p.map().dom());
    }
}

/// Loading the saved text of a table gives back the same entries in the
/// same order, when every key and value can be written to the file format.
pub proof fn law_save_then_load_entries(p: ServerProperties, q: ServerProperties)
    requires
        p.wf(),
        q.wf(),
        forall|i: int| 0 <= i < p.entries().len() ==> writable(#[trigger] p.entries()[i]),
        q.map() == apply_text(Map::empty(), render_comments(p.comments()) + render(p.entries())),
    ensures
        q.entries() == p.entries(),
{
    law_save_then_load(p);
    p.lemma_entries_map();
    q.lemma_entries_map();
    p.lemma_ascending();
    q.lemma_ascending();
    lemma_ascending_entries_unique(p.entries(), q.entries());
}

/// Saving a table and loading the saved text gives back the same table and
/// the same comment lines, provided every key and value can be written to
/// the file format.
pub proof fn law_save_then_load(p: ServerProperties)
    requires
        p.wf(),
        forall|i: int| 0 <= i < p.entries().len() ==> writable(#[trigger] p.entries()[i]),
    ensures
        apply_text(Map::empty(), render_comments(p.comments()) + render(p.entries())) == p.map(),
        text_comments(render_comments(p.comments()) + render(p.entries())) == p.comments(),
{
    let es = p.entries();
    p.lemma_comments_valid();
    lemma_apply_comments(Map::empty(), p.comments(), render(es));
    lemma_render_no_comments(es);
    assert(p.comments() + Seq::<Seq<char>>::empty() =~= p.comments());
    lemma_apply_render(Map::empty(), es);
    lemma_fold_front_back(Map::empty(), es);
    lemma_entries_map_fold(es);
    p.lemma_entries_map();
}

} // verus!
