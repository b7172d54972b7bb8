//! Association lists keyed by strings: a `Vec<(String, V)>` whose keys are
//! pairwise distinct, viewed as a finite `Map<Seq<char>, V>`.
use vstd::prelude::*;
use crate::text::{chars_lt, chars_of, lemma_lt_asym, lemma_lt_irreflexive, lemma_lt_total, lemma_lt_trans, seq_lt};

verus! {

/// The map an association list denotes (a later entry overrides an earlier one).
pub open spec fn amap<V>(s: Seq<(String, V)>) -> Map<Seq<char>, V>
    decreases s.len(),
{
    if s.len() == 0 {
        Map::empty()
    } else {
        amap(s.drop_last()).insert(s.last().0@, s.last().1)
    }
}

/// No key occurs twice.
pub open spec fn keys_unique<V>(s: Seq<(String, V)>) -> bool {
    forall|i: int, j: int| 0 <= i < j < s.len() ==> (#[trigger] s[i]).0@ != (#[trigger] s[j]).0@
}

/// Position of key `k`, if any.
pub open spec fn has_key<V>(s: Seq<(String, V)>, k: Seq<char>) -> bool {
    exists|i: int| 0 <= i < s.len() && (#[trigger] s[i]).0@ == k
}

pub proof fn lemma_amap_dom<V>(s: Seq<(String, V)>, k: Seq<char>)
    ensures
        amap(s).dom().contains(k) <==> has_key(s, k),
    decreases s.len(),
{
    if s.len() > 0 {
        let t = s.drop_last();
        lemma_amap_dom(t, k);
        if has_key(t, k) {
            let i = choose|i: int| 0 <= i < t.len() && (#[trigger] t[i]).0@ == k;
            assert(s[i] == t[i]);
        }
        if has_key(s, k) && s.last().0@ != k {
            let i = choose|i: int| 0 <= i < s.len() && (#[trigger] s[i]).0@ == k;
            assert(t[i] == s[i]);
        }
        if s.last().0@ == k {
            assert(s[s.len() - 1].0@ == k);
        }
    }
}

pub proof fn lemma_amap_finite<V>(s: Seq<(String, V)>)
    ensures
        amap(s).dom().finite(),
    decreases s.len(),
{
    if s.len() > 0 {
        lemma_amap_finite(s.drop_last());
    }
}

pub proof fn lemma_amap_index<V>(s: Seq<(String, V)>, i: int)
    requires
        keys_unique(s),
        0 <= i < s.len(),
    ensures
        amap(s).dom().contains(s[i].0@),
        amap(s)[s[i].0@] == s[i].1,
    decreases s.len(),
{
    let t = s.drop_last();
    if i < s.len() - 1 {
        assert(t[i] == s[i]);
        lemma_amap_index(t, i);
        assert(s[i].0@ != s[s.len() - 1].0@);
    }
}

pub proof fn lemma_unique_drop_last<V>(s: Seq<(String, V)>)
    requires
        keys_unique(s),
        s.len() > 0,
    ensures
        keys_unique(s.drop_last()),
{
    let t = s.drop_last();
    assert forall|i: int, j: int| 0 <= i < j < t.len() implies (#[trigger] t[i]).0@ != (
    #[trigger] t[j]).0@ by {
        assert(t[i] == s[i]);
        assert(t[j] == s[j]);
    }
}

pub proof fn lemma_amap_update<V>(s: Seq<(String, V)>, i: int, e: (String, V))
    requires
        keys_unique(s),
        0 <= i < s.len(),
        e.0@ == s[i].0@,
    ensures
        keys_unique(s.update(i, e)),
        amap(s.update(i, e)) == amap(s).insert(e.0@, e.1),
    decreases s.len(),
{
    let u = s.update(i, e);
    assert forall|a: int, b: int| 0 <= a < b < u.len() implies (#[trigger] u[a]).0@ != (
    #[trigger] u[b]).0@ by {
        assert(s[a].0@ != s[b].0@);
    }
    let t = s.drop_last();
    lemma_unique_drop_last(s);
    if i == s.len() - 1 {
        assert(u.drop_last() =~= t);
        assert(amap(u) =~= amap(t).insert(e.0@, e.1));
        assert(amap(s).insert(e.0@, e.1) =~= amap(t).insert(e.0@, e.1));
    } else {
        lemma_amap_update(t, i, e);
        assert(u.drop_last() =~= t.update(i, e));
        assert(s.last().0@ != e.0@) by {
            assert(s[i].0@ != s[s.len() - 1].0@);
        }
        assert(amap(u) =~= amap(s).insert(e.0@, e.1));
    }
}

pub proof fn lemma_amap_push<V>(s: Seq<(String, V)>, e: (String, V))
    requires
        keys_unique(s),
        !has_key(s, e.0@),
    ensures
        keys_unique(s.push(e)),
        amap(s.push(e)) == amap(s).insert(e.0@, e.1),
{
    let u = s.push(e);
    assert(u.drop_last() =~= s);
    assert forall|a: int, b: int| 0 <= a < b < u.len() implies (#[trigger] u[a]).0@ != (
    #[trigger] u[b]).0@ by {
        if b == s.len() {
            assert(u[a] == s[a]);
        } else {
            assert(u[a] == s[a]);
            assert(u[b] == s[b]);
        }
    }
}

pub proof fn lemma_amap_remove<V>(s: Seq<(String, V)>, i: int)
    requires
        keys_unique(s),
        0 <= i < s.len(),
    ensures
        keys_unique(s.remove(i)),
        amap(s.remove(i)) == amap(s).remove(s[i].0@),
    decreases s.len(),
{
    let u = s.remove(i);
    let k = s[i].0@;
    assert forall|a: int, b: int| 0 <= a < b < u.len() implies (#[trigger] u[a]).0@ != (
    #[trigger] u[b]).0@ by {
        let sa = if a < i { a } else { a + 1 };
        let sb = if b < i { b } else { b + 1 };
        assert(u[a] == s[sa]);
        assert(u[b] == s[sb]);
        assert(s[sa].0@ != s[sb].0@);
    }
    let t = s.drop_last();
    lemma_unique_drop_last(s);
    if i == s.len() - 1 {
        assert(u =~= t);
        lemma_amap_dom(t, k);
        if has_key(t, k) {
            let j = choose|j: int| 0 <= j < t.len() && (#[trigger] t[j]).0@ == k;
            assert(s[j].0@ != s[i].0@);
        }
        assert(amap(u) =~= amap(s).remove(k));
    } else {
        lemma_amap_remove(t, i);
        assert(u.drop_last() =~= t.remove(i));
        assert(u.last() == s.last());
        assert(s.last().0@ != k) by {
            assert(s[i].0@ != s[s.len() - 1].0@);
        }
        assert(amap(u) =~= amap(s).remove(k));
    }
}

/// For distinct keys the denoted map holds exactly the listed entries.
pub proof fn lemma_amap_char<V>(s: Seq<(String, V)>)
    requires
        keys_unique(s),
    ensures
        forall|k: Seq<char>| #[trigger] amap(s).dom().contains(k) <==> has_key(s, k),
        forall|i: int| 0 <= i < s.len() ==> #[trigger] amap(s)[s[i].0@] == s[i].1,
{
    assert forall|k: Seq<char>| #[trigger] amap(s).dom().contains(k) <==> has_key(s, k) by {
        lemma_amap_dom(s, k);
    }
    assert forall|i: int| 0 <= i < s.len() implies #[trigger] amap(s)[s[i].0@] == s[i].1 by {
        lemma_amap_index(s, i);
    }
}

pub proof fn lemma_amap_insert<V>(s: Seq<(String, V)>, p: int, e: (String, V))
    requires
        keys_unique(s),
        !has_key(s, e.0@),
        0 <= p <= s.len(),
    ensures
        keys_unique(s.insert(p, e)),
        amap(s.insert(p, e)) == amap(s).insert(e.0@, e.1),
{
    let u = s.insert(p, e);
    assert forall|a: int, b: int| 0 <= a < b < u.len() implies (#[trigger] u[a]).0@ != (
    #[trigger] u[b]).0@ by {
        if a == p {
            assert(u[b] == s[b - 1]);
        } else if b == p {
            assert(u[a] == s[a]);
        } else {
            let sa = if a < p { a } else { a - 1 };
            let sb = if b < p { b } else { b - 1 };
            assert(u[a] == s[sa]);
            assert(u[b] == s[sb]);
        }
    }
    lemma_amap_char(s);
    lemma_amap_char(u);
    assert forall|k: Seq<char>| #[trigger] amap(u).dom().contains(k) <==> amap(s).insert(
        e.0@,
        e.1,
    ).dom().contains(k) by {
        if has_key(u, k) && k != e.0@ {
            let i = choose|i: int| 0 <= i < u.len() && (#[trigger] u[i]).0@ == k;
            let si = if i < p { i } else { i - 1 };
            assert(u[i] == s[si]);
        }
        if has_key(s, k) {
            let i = choose|i: int| 0 <= i < s.len() && (#[trigger] s[i]).0@ == k;
            let ui = if i < p { i } else { i + 1 };
            assert(u[ui] == s[i]);
        }
        if k == e.0@ {
            assert(u[p] == e);
        }
    }
    assert forall|k: Seq<char>| #[trigger] amap(u).dom().contains(k) implies amap(u)[k] == amap(
        s,
    ).insert(e.0@, e.1)[k] by {
        let i = choose|i: int| 0 <= i < u.len() && (#[trigger] u[i]).0@ == k;
        if i == p {
            assert(u[p] == e);
        } else {
            let si = if i < p { i } else { i - 1 };
            assert(u[i] == s[si]);
        }
    }
    assert(amap(u) =~= amap(s).insert(e.0@, e.1));
}

/// For distinct keys the map has as many keys as the list has entries.
pub proof fn lemma_amap_len<V>(s: Seq<(String, V)>)
    requires
        keys_unique(s),
    ensures
        amap(s).dom().len() == s.len(),
        amap(s).dom() == s.map_values(|p: (String, V)| p.0@).to_set(),
{
    lemma_amap_char(s);
    let ks = s.map_values(|p: (String, V)| p.0@);
    assert(ks.no_duplicates()) by {
        assert forall|i: int, j: int|
            0 <= i < ks.len() && 0 <= j < ks.len() && i != j implies ks[i] != ks[j] by {
            if i < j {
                assert(s[i].0@ != s[j].0@);
            } else {
                assert(s[j].0@ != s[i].0@);
            }
        }
    }
    ks.unique_seq_to_set();
    assert(amap(s).dom() =~= ks.to_set()) by {
        assert forall|k: Seq<char>| amap(s).dom().contains(k) <==> ks.to_set().contains(k) by {
            if has_key(s, k) {
                let i = choose|i: int| 0 <= i < s.len() && (#[trigger] s[i]).0@ == k;
                assert(ks[i] == k);
            }
            if ks.contains(k) {
                let i = choose|i: int| 0 <= i < ks.len() && ks[i] == k;
                assert(s[i].0@ == k);
            }
        }
    }
}

/// Position of the entry with key `k`.
pub fn find_key<V>(v: &Vec<(String, V)>, k: &String) -> (r: Option<usize>)
    ensures
        match r {
            Some(i) => i < v@.len() && v@[i as int].0@ == k@,
            None => !has_key(v@, k@),
        },
{
    let mut i: usize = 0;
    while i < v.len()
        invariant
            i <= v@.len(),
            forall|j: int| 0 <= j < i ==> (#[trigger] v@[j]).0@ != k@,
        decreases v@.len() - i,
    {
        if v[i].0 == *k {
            return Some(i);
        }
        i = i + 1;
    }
    None
}

/// Keys strictly ascending in string order.
pub open spec fn keys_sorted<V>(s: Seq<(String, V)>) -> bool {
    forall|i: int, j: int| 0 <= i < j < s.len() ==> seq_lt((#[trigger] s[i]).0@, (#[trigger] s[j]).0@)
}

pub proof fn lemma_sorted_unique<V>(s: Seq<(String, V)>)
    requires
        keys_sorted(s),
    ensures
        keys_unique(s),
{
    assert forall|i: int, j: int| 0 <= i < j < s.len() implies (#[trigger] s[i]).0@ != (
    #[trigger] s[j]).0@ by {
        lemma_lt_irreflexive(s[i].0@);
    }
}

/// Sets `key` to `val`, keeping the keys sorted (`HashMap::insert` on a sorted table).
pub fn insert_sorted<V>(v: &mut Vec<(String, V)>, key: String, val: V)
    requires
        keys_sorted(old(v)@),
    ensures
        keys_sorted(final(v)@),
        amap(final(v)@) == amap(old(v)@).insert(key@, val),
{
    proof {
        lemma_sorted_unique(v@);
    }
    let kc = chars_of(key.as_str());
    let mut i: usize = 0;
    while i < v.len() && chars_lt(&chars_of(v[i].0.as_str()), &kc)
        invariant
            i <= v@.len(),
            kc@ == key@,
            forall|j: int| 0 <= j < i ==> seq_lt((#[trigger] v@[j]).0@, key@),
        decreases v@.len() - i,
    {
        i = i + 1;
    }
    let ghost s = v@;
    if i < v.len() && v[i].0 == key {
        proof {
            lemma_amap_update(s, i as int, (key, val));
        }
        v.set(i, (key, val));
        assert(keys_sorted(v@)) by {
            assert forall|a: int, b: int| 0 <= a < b < v@.len() implies seq_lt(
                (#[trigger] v@[a]).0@,
                (#[trigger] v@[b]).0@,
            ) by {
                assert(v@[a].0@ == s[a].0@);
                assert(v@[b].0@ == s[b].0@);
            }
        }
    } else {
        proof {
            if i < s.len() {
                lemma_lt_total(s[i as int].0@, key@);
            }
            lemma_amap_dom(s, key@);
            if has_key(s, key@) {
                let j = choose|j: int| 0 <= j < s.len() && (#[trigger] s[j]).0@ == key@;
                if j < i {
                    lemma_lt_irreflexive(key@);
                } else if j > i {
                    lemma_lt_trans(key@, s[i as int].0@, s[j].0@);
                    lemma_lt_irreflexive(key@);
                }
            }
            lemma_amap_insert(s, i as int, (key, val));
        }
        v.insert(i, (key, val));
        assert(keys_sorted(v@)) by {
            assert forall|a: int, b: int| 0 <= a < b < v@.len() implies seq_lt(
                (#[trigger] v@[a]).0@,
                (#[trigger] v@[b]).0@,
            ) by {
                if b == i {
                    assert(v@[a] == s[a]);
                } else if a == i {
                    assert(v@[b] == s[b - 1]);
                    if b - 1 > i {
                        lemma_lt_trans(key@, s[i as int].0@, s[b - 1].0@);
                    }
                } else {
                    let sa = if a < i { a } else { a - 1 };
                    let sb = if b < i { b } else { b - 1 };
                    assert(v@[a] == s[sa]);
                    assert(v@[b] == s[sb]);
                }
            }
        }
    }
}

/// Removes the entry for `key`, returning its value.
pub fn remove_key<V>(v: &mut Vec<(String, V)>, key: &String) -> (r: Option<V>)
    requires
        keys_sorted(old(v)@),
    ensures
        keys_sorted(final(v)@),
        amap(final(v)@) == amap(old(v)@).remove(key@),
        match r {
            Some(x) => amap(old(v)@).dom().contains(key@) && amap(old(v)@)[key@] == x,
            None => !amap(old(v)@).dom().contains(key@),
        },
{
    proof {
        lemma_sorted_unique(v@);
        lemma_amap_dom(v@, key@);
    }
    let ghost s = v@;
    match find_key(v, key) {
        Some(i) => {
            proof {
                lemma_amap_index(s, i as int);
                lemma_amap_remove(s, i as int);
            }
            let e = v.remove(i);
            assert(keys_sorted(v@)) by {
                assert forall|a: int, b: int| 0 <= a < b < v@.len() implies seq_lt(
                    (#[trigger] v@[a]).0@,
                    (#[trigger] v@[b]).0@,
                ) by {
                    let sa = if a < i { a } else { a + 1 };
                    let sb = if b < i { b } else { b + 1 };
                    assert(v@[a] == s[sa]);
                    assert(v@[b] == s[sb]);
                }
            }
            Some(e.1)
        },
        None => {
            assert(amap(s).remove(key@) =~= amap(s));
            None
        },
    }
}

} // verus!
