//! Association lists keyed by strings: a vector of `(key, value)` entries in
//! which no key occurs twice, read as a finite map.
use vstd::prelude::*;
use crate::text::{chars_eq, chars_of};

verus! {

/// The keys of an association list, in order.
pub open spec fn assoc_keys<V>(s: Seq<(String, V)>) -> Seq<Seq<char>> {
    s.map_values(|e: (String, V)| e.0@)
}

/// An association list read as a map (a later entry wins over an earlier one).
pub open spec fn assoc_map<V>(s: Seq<(String, V)>) -> Map<Seq<char>, V>
    decreases s.len(),
{
    if s.len() == 0 {
        Map::empty()
    } else {
        assoc_map(s.drop_last()).insert(s.last().0@, s.last().1)
    }
}

/// No key occurs twice.
pub open spec fn assoc_wf<V>(s: Seq<(String, V)>) -> bool {
    assoc_keys(s).no_duplicates()
}

/// Membership in a sequence extended by one element.
pub proof fn lemma_seq_push_contains<A>(s: Seq<A>, x: A, y: A)
    ensures
        s.push(x).contains(y) <==> (s.contains(y) || x == y),
{
    assert(s.push(x)[s.len() as int] == x);
    if s.push(x).contains(y) {
        let j = choose|j: int| 0 <= j < s.push(x).len() && s.push(x)[j] == y;
        if j < s.len() {
            assert(s[j] == y);
        }
    }
    if s.contains(y) {
        let j = choose|j: int| 0 <= j < s.len() && s[j] == y;
        assert(s.push(x)[j] == y);
    }
}

/// The map's domain is the set of keys.
pub proof fn lemma_assoc_dom<V>(s: Seq<(String, V)>)
    ensures
        forall|k: Seq<char>| #[trigger] assoc_map(s).dom().contains(k) <==> assoc_keys(s).contains(k),
    decreases s.len(),
{
    if s.len() > 0 {
        lemma_assoc_dom(s.drop_last());
        assert(assoc_keys(s) =~= assoc_keys(s.drop_last()).push(s.last().0@));
        assert(assoc_map(s) == assoc_map(s.drop_last()).insert(s.last().0@, s.last().1));
        assert forall|k: Seq<char>|
            #[trigger] assoc_map(s).dom().contains(k) <==> assoc_keys(s).contains(k) by {
            lemma_seq_push_contains(assoc_keys(s.drop_last()), s.last().0@, k);
        }
    }
}

proof fn lemma_assoc_last_fresh<V>(s: Seq<(String, V)>)
    requires
        s.len() > 0,
        assoc_wf(s),
    ensures
        assoc_wf(s.drop_last()),
        !assoc_keys(s.drop_last()).contains(s.last().0@),
{
    let d = s.drop_last();
    assert(assoc_keys(d) =~= assoc_keys(s).drop_last());
    if assoc_keys(d).contains(s.last().0@) {
        let j = choose|j: int| 0 <= j < assoc_keys(d).len() && assoc_keys(d)[j] == s.last().0@;
        assert(assoc_keys(s)[j] == assoc_keys(s)[s.len() - 1]);
    }
}

/// The entry at an index is in the map.
pub proof fn lemma_assoc_at<V>(s: Seq<(String, V)>, i: int)
    requires
        0 <= i < s.len(),
        assoc_wf(s),
    ensures
        assoc_map(s).dom().contains(s[i].0@),
        assoc_map(s)[s[i].0@] == s[i].1,
    decreases s.len(),
{
    let d = s.drop_last();
    assert(assoc_keys(d) =~= assoc_keys(s).drop_last());
    if i < s.len() - 1 {
        assert(assoc_keys(s)[i] == s[i].0@);
        assert(assoc_keys(s)[s.len() - 1] == s.last().0@);
        lemma_assoc_at(d, i);
    }
}

/// Removing the entry at an index removes its key from the map.
pub proof fn lemma_assoc_remove<V>(s: Seq<(String, V)>, i: int)
    requires
        0 <= i < s.len(),
        assoc_wf(s),
    ensures
        assoc_map(s.remove(i)) == assoc_map(s).remove(s[i].0@),
        assoc_wf(s.remove(i)),
    decreases s.len(),
{
    let d = s.drop_last();
    assert(assoc_keys(d) =~= assoc_keys(s).drop_last());
    assert(assoc_keys(s.remove(i)) =~= assoc_keys(s).remove(i));
    if i == s.len() - 1 {
        assert(s.remove(i) =~= d);
        lemma_assoc_dom(d);
        lemma_assoc_last_fresh(s);
        assert(assoc_map(s.remove(i)) =~= assoc_map(s).remove(s[i].0@));
    } else {
        lemma_assoc_remove(d, i);
        assert(s.remove(i) =~= d.remove(i).push(s.last()));
        assert(s.remove(i).drop_last() =~= d.remove(i));
        assert(assoc_keys(s)[i] != assoc_keys(s)[s.len() - 1]);
        assert(assoc_map(s.remove(i)) =~= assoc_map(s).remove(s[i].0@));
    }
}

/// Appending an entry with a fresh key inserts it into the map.
pub proof fn lemma_assoc_push<V>(s: Seq<(String, V)>, e: (String, V))
    requires
        assoc_wf(s),
        !assoc_map(s).dom().contains(e.0@),
    ensures
        assoc_map(s.push(e)) == assoc_map(s).insert(e.0@, e.1),
        assoc_wf(s.push(e)),
{
    lemma_assoc_dom(s);
    assert(s.push(e).drop_last() =~= s);
    assert(assoc_keys(s.push(e)) =~= assoc_keys(s).push(e.0@));
    assert forall|i: int, j: int|
        0 <= i < assoc_keys(s.push(e)).len() && 0 <= j < assoc_keys(s.push(e)).len() && i != j
            implies assoc_keys(s.push(e))[i] != assoc_keys(s.push(e))[j] by {
        if i < s.len() && j < s.len() {
        } else if i < s.len() {
            assert(assoc_keys(s).contains(assoc_keys(s)[i]));
        } else if j < s.len() {
            assert(assoc_keys(s).contains(assoc_keys(s)[j]));
        }
    }
}

/// The index of a key of a duplicate-free list: the entry there is the
/// map's value, and no other entry has the key.
pub proof fn lemma_assoc_index<V>(s: Seq<(String, V)>, k: Seq<char>) -> (i: int)
    requires
        assoc_wf(s),
        assoc_map(s).dom().contains(k),
    ensures
        0 <= i < s.len(),
        s[i].0@ == k,
        assoc_map(s)[k] == s[i].1,
        forall|j: int| 0 <= j < s.len() && #[trigger] s[j].0@ == k ==> j == i,
{
    lemma_assoc_dom(s);
    let i = choose|i: int| 0 <= i < assoc_keys(s).len() && assoc_keys(s)[i] == k;
    lemma_assoc_at(s, i);
    assert forall|j: int| 0 <= j < s.len() && #[trigger] s[j].0@ == k implies j == i by {
        assert(assoc_keys(s)[j] == k);
    }
    i
}

/// A duplicate-free list has as many entries as its map has keys.
pub proof fn lemma_assoc_len<V>(s: Seq<(String, V)>)
    requires
        assoc_wf(s),
    ensures
        assoc_map(s).dom().finite(),
        assoc_map(s).len() == s.len(),
    decreases s.len(),
{
    if s.len() > 0 {
        lemma_assoc_last_fresh(s);
        lemma_assoc_len(s.drop_last());
        lemma_assoc_dom(s.drop_last());
    }
}

/// The index of the entry for `key`, if any.
pub fn assoc_find<V>(s: &Vec<(String, V)>, key: &str) -> (r: Option<usize>)
    requires
        assoc_wf(s@),
    ensures
        r matches Some(i) ==> i < s@.len() && s@[i as int].0@ == key@ && assoc_map(
            s@,
        ).dom().contains(key@) && assoc_map(s@)[key@] == s@[i as int].1,
        r is None ==> !assoc_map(s@).dom().contains(key@),
{
    let k = chars_of(key);
    let mut i: usize = 0;
    while i < s.len()
        invariant
            assoc_wf(s@),
            k@ == key@,
            i <= s@.len(),
            forall|j: int| 0 <= j < i ==> assoc_keys(s@)[j] != key@,
        decreases s@.len() - i,
    {
        let c = chars_of(s[i].0.as_str());
        if chars_eq(c.as_slice(), k.as_slice()) {
            proof {
                lemma_assoc_at(s@, i as int);
            }
            return Some(i);
        }
        assert(assoc_keys(s@)[i as int] == s@[i as int].0@);
        i = i + 1;
    }
    proof {
        lemma_assoc_dom(s@);
        if assoc_keys(s@).contains(key@) {
            let j = choose|j: int| 0 <= j < assoc_keys(s@).len() && assoc_keys(s@)[j] == key@;
        }
    }
    None
}

/// Set the value of `key` (replacing the entry it had, if any).
pub fn assoc_insert<V>(s: &mut Vec<(String, V)>, key: &str, value: V)
    requires
        assoc_wf(old(s)@),
    ensures
        assoc_wf(final(s)@),
        assoc_map(final(s)@) == assoc_map(old(s)@).insert(key@, value),
        forall|j: int|
            0 <= j < final(s)@.len() ==> old(s)@.contains(#[trigger] final(s)@[j]) || (final(s)@[j].0@
                == key@ && final(s)@[j].1 == value),
{
    match assoc_find(s, key) {
        Some(i) => {
            let ghost before = s@;
            proof {
                lemma_assoc_remove(before, i as int);
            }
            s.remove(i);
            assert(s@ == before.remove(i as int));
            assert(!assoc_map(s@).dom().contains(key@));
            assert forall|j: int| 0 <= j < s@.len() implies old(s)@.contains(#[trigger] s@[j]) by {
                if j < i {
                    assert(old(s)@[j] == s@[j]);
                } else {
                    assert(old(s)@[j + 1] == s@[j]);
                }
            }
        },
        None => {},
    }
    let ghost mid = s@;
    let k = String::from_str(key);
    proof {
        lemma_assoc_push(mid, (k, value));
    }
    s.push((k, value));
    assert(assoc_map(s@) =~= assoc_map(old(s)@).insert(key@, value));
    assert forall|j: int|
        0 <= j < s@.len() implies old(s)@.contains(#[trigger] s@[j]) || (s@[j].0@ == key@ && s@[j].1
            == value) by {
        if j < mid.len() {
            assert(s@[j] == mid[j]);
        }
    }
}

/// Remove the entry of `key`, returning its value.
pub fn assoc_remove<V>(s: &mut Vec<(String, V)>, key: &str) -> (r: Option<V>)
    requires
        assoc_wf(old(s)@),
    ensures
        assoc_wf(final(s)@),
        assoc_map(final(s)@) == assoc_map(old(s)@).remove(key@),
        assoc_map(old(s)@).dom().contains(key@) ==> r == Some(assoc_map(old(s)@)[key@]),
        !assoc_map(old(s)@).dom().contains(key@) ==> r is None,
        forall|j: int| 0 <= j < final(s)@.len() ==> old(s)@.contains(#[trigger] final(s)@[j]),
{
    match assoc_find(s, key) {
        Some(i) => {
            let ghost before = s@;
            proof {
                lemma_assoc_remove(before, i as int);
            }
            let (_, v) = s.remove(i);
            assert(s@ == before.remove(i as int));
            assert forall|j: int| 0 <= j < s@.len() implies old(s)@.contains(#[trigger] s@[j]) by {
                if j < i {
                    assert(old(s)@[j] == s@[j]);
                } else {
                    assert(old(s)@[j + 1] == s@[j]);
                }
            }
            Some(v)
        },
        None => {
            assert(assoc_map(s@) =~= assoc_map(old(s)@).remove(key@));
            assert forall|j: int| 0 <= j < s@.len() implies old(s)@.contains(#[trigger] s@[j]) by {
                assert(old(s)@[j] == s@[j]);
            }
            None
        },
    }
}

/// The keys of a list, as strings (in order).
pub fn assoc_key_list<V>(s: &Vec<(String, V)>) -> (v: Vec<String>)
    requires
        assoc_wf(s@),
    ensures
        v@.map_values(|x: String| x@) == assoc_keys(s@),
        forall|k: Seq<char>|
            v@.map_values(|x: String| x@).contains(k) <==> assoc_map(s@).dom().contains(k),
        v@.map_values(|x: String| x@).no_duplicates(),
{
    let mut v: Vec<String> = Vec::new();
    let mut i: usize = 0;
    while i < s.len()
        invariant
            i <= s@.len(),
            v@.map_values(|x: String| x@) == assoc_keys(s@).subrange(0, i as int),
        decreases s@.len() - i,
    {
        let ghost before = v@.map_values(|x: String| x@);
        let ghost keys = assoc_keys(s@);
        let k = s[i].0.clone();
        assert(k@ == keys[i as int]);
        assert(keys.subrange(0, i + 1) =~= keys.subrange(0, i as int).push(keys[i as int]));
        v.push(k);
        assert(v@.map_values(|x: String| x@) =~= before.push(keys[i as int]));
        i = i + 1;
    }
    assert(assoc_keys(s@).subrange(0, s@.len() as int) =~= assoc_keys(s@));
    proof {
        lemma_assoc_dom(s@);
    }
    v
}

/// The sum of a count over a sequence of keys.
pub open spec fn sum_over(keys: Seq<Seq<char>>, g: spec_fn(Seq<char>) -> nat) -> nat
    decreases keys.len(),
{
    if keys.len() == 0 {
        0
    } else {
        sum_over(keys.drop_last(), g) + g(keys.last())
    }
}

/// A number capped at `usize::MAX`.
pub open spec fn saturated(n: nat) -> usize {
    if n > usize::MAX {
        usize::MAX
    } else {
        n as usize
    }
}


/// The keys of an association list form a finite set.
pub proof fn lemma_assoc_finite<V>(s: Seq<(String, V)>)
    ensures
        assoc_map(s).dom().finite(),
        assoc_map(s).dom() == assoc_keys(s).to_set(),
{
    broadcast use vstd::seq_lib::seq_to_set_is_finite;

    lemma_assoc_dom(s);
    assert(assoc_map(s).dom() =~= assoc_keys(s).to_set());
}

} // verus!
