//! Ordered tables keyed by names: the model shared by the type environment
//! and the variable store. A table is a sequence of (name, value) entries in
//! order; a name is found at its first entry, and storing under a name that
//! is present replaces that entry in place, while a new name goes last.
use vstd::prelude::*;

verus! {

/// The index of the first entry whose name is `k`.
pub open spec fn index_of<V>(s: Seq<(Seq<char>, V)>, k: Seq<char>) -> Option<int>
    decreases s.len(),
{
    if s.len() == 0 {
        None
    } else if s[0].0 == k {
        Some(0)
    } else {
        match index_of(s.drop_first(), k) {
            Some(i) => Some(i + 1),
            None => None,
        }
    }
}

/// The value stored under `k`, if any.
pub open spec fn lookup<V>(s: Seq<(Seq<char>, V)>, k: Seq<char>) -> Option<V> {
    match index_of(s, k) {
        Some(i) => Some(s[i].1),
        None => None,
    }
}

/// The table after storing `v` under `k`.
pub open spec fn insert_entry<V>(s: Seq<(Seq<char>, V)>, k: Seq<char>, v: V) -> Seq<(Seq<char>, V)> {
    match index_of(s, k) {
        Some(i) => s.update(i, (k, v)),
        None => s.push((k, v)),
    }
}

/// The names of a table, in order.
pub open spec fn names<V>(s: Seq<(Seq<char>, V)>) -> Seq<Seq<char>> {
    s.map_values(|e: (Seq<char>, V)| e.0)
}

/// `index_of` finds exactly the first entry with the name.
pub proof fn lemma_index_of<V>(s: Seq<(Seq<char>, V)>, k: Seq<char>)
    ensures
        match index_of(s, k) {
            Some(i) => 0 <= i < s.len() && s[i].0 == k && forall|j: int| 0 <= j < i ==> s[j].0 != k,
            None => forall|j: int| 0 <= j < s.len() ==> s[j].0 != k,
        },
    decreases s.len(),
{
    if s.len() > 0 && s[0].0 != k {
        lemma_index_of(s.drop_first(), k);
        let t = s.drop_first();
        match index_of(t, k) {
            Some(i) => {
                assert forall|j: int| 0 <= j < i + 1 implies s[j].0 != k by {
                    if j > 0 {
                        assert(s[j] == t[j - 1]);
                    }
                }
            },
            None => {
                assert forall|j: int| 0 <= j < s.len() implies s[j].0 != k by {
                    if j > 0 {
                        assert(s[j] == t[j - 1]);
                    }
                }
            },
        }
    }
}

/// The first entry with a name is where `index_of` lands.
pub proof fn lemma_index_of_at<V>(s: Seq<(Seq<char>, V)>, k: Seq<char>, i: int)
    requires
        0 <= i < s.len(),
        s[i].0 == k,
        forall|j: int| 0 <= j < i ==> s[j].0 != k,
    ensures
        index_of(s, k) == Some(i),
{
    lemma_index_of(s, k);
    match index_of(s, k) {
        Some(i2) => {
            if i2 < i {
            } else if i2 > i {
            }
        },
        None => {},
    }
}

/// With no entry of that name, `index_of` finds nothing.
pub proof fn lemma_index_of_absent<V>(s: Seq<(Seq<char>, V)>, k: Seq<char>)
    requires
        forall|j: int| 0 <= j < s.len() ==> s[j].0 != k,
    ensures
        index_of(s, k) == None::<int>,
{
    lemma_index_of(s, k);
}

/// Tables with the same names at the same places find names at the same places.
pub proof fn lemma_index_of_same_names<V, W>(s: Seq<(Seq<char>, V)>, t: Seq<(Seq<char>, W)>, k: Seq<char>)
    requires
        s.len() == t.len(),
        forall|j: int| 0 <= j < s.len() ==> s[j].0 == t[j].0,
    ensures
        index_of(s, k) == index_of(t, k),
{
    lemma_index_of(s, k);
    lemma_index_of(t, k);
    match index_of(s, k) {
        Some(i) => lemma_index_of_at(t, k, i),
        None => lemma_index_of_absent(t, k),
    }
}

/// Storing under `k` makes `k` hold `v` and leaves every other name as it was.
pub proof fn lemma_lookup_insert<V>(s: Seq<(Seq<char>, V)>, k: Seq<char>, v: V, k2: Seq<char>)
    ensures
        lookup(insert_entry(s, k, v), k2) == (if k2 == k { Some(v) } else { lookup(s, k2) }),
{
    lemma_index_of(s, k);
    let r = insert_entry(s, k, v);
    match index_of(s, k) {
        Some(i) => {
            lemma_index_of_same_names(r, s, k2);
            lemma_index_of(s, k2);
            if k2 == k {
                lemma_index_of_at(r, k, i);
            }
        },
        None => {
            lemma_index_of(s, k2);
            match index_of(s, k2) {
                Some(i2) => {
                    lemma_index_of_at(r, k2, i2);
                },
                None => {
                    if k2 == k {
                        lemma_index_of_at(r, k, s.len() as int);
                    } else {
                        lemma_index_of_absent(r, k2);
                    }
                },
            }
        },
    }
}


/// A name found in the first `m` entries is found at the same entry in the whole table.
pub proof fn lemma_lookup_prefix<V>(s: Seq<(Seq<char>, V)>, m: int, k: Seq<char>)
    requires
        0 <= m <= s.len(),
        lookup(s.take(m), k) is Some,
    ensures
        lookup(s, k) == lookup(s.take(m), k),
{
    let p = s.take(m);
    lemma_index_of(p, k);
    let i = index_of(p, k).unwrap();
    assert forall|j: int| 0 <= j < i implies s[j].0 != k by {
        assert(s[j] == p[j]);
    }
    assert(s[i] == p[i]);
    lemma_index_of_at(s, k, i);
}

/// Adding a name that is not present puts it last.
pub proof fn lemma_insert_absent<V>(s: Seq<(Seq<char>, V)>, k: Seq<char>, v: V)
    requires
        lookup(s, k) is None,
    ensures
        insert_entry(s, k, v) == s.push((k, v)),
{
}

} // verus!
