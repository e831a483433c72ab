//! Lists of records identified by a string key, seen as maps.
//!
//! The registries of this crate (sessions, discovered peers, trusted devices)
//! keep their records in a `Vec` with no key twice; these definitions and
//! lemmas relate such a list to the map from key to record.

use vstd::prelude::*;

verus! {

/// A record that carries its own string key.
pub trait KeyedRecord: Sized {
    spec fn spec_key(&self) -> Seq<char>;

    fn record_key(&self) -> (k: &String)
        ensures
            k@ == self.spec_key(),
    ;
}

/// The key function of a record type, as a spec closure.
pub open spec fn key_of<T: KeyedRecord>() -> spec_fn(T) -> Seq<char> {
    |t: T| t.spec_key()
}

/// Finds the position of the record with key `k`.
pub fn find_key<T: KeyedRecord>(v: &Vec<T>, k: &String) -> (r: Option<usize>)
    ensures
        r matches Some(i) ==> i < v.len() && v@[i as int].spec_key() == k@,
        r is None ==> !has_key(v@, key_of::<T>(), k@),
{
    let mut i: usize = 0;
    while i < v.len()
        invariant
            i <= v.len(),
            forall|j: int| 0 <= j < i ==> #[trigger] v@[j].spec_key() != k@,
        decreases v.len() - i,
    {
        let rk: &String = v[i].record_key();
        if *rk == *k {
            return Some(i);
        }
        i = i + 1;
    }
    assert forall|j: int| 0 <= j < v@.len() implies #[trigger] key_of::<T>()(v@[j]) != k@ by {
        assert(v@[j].spec_key() != k@);
    }
    None
}

pub open spec fn keys_unique<T>(s: Seq<T>, key: spec_fn(T) -> Seq<char>) -> bool {
    forall|i: int, j: int|
        0 <= i < s.len() && 0 <= j < s.len() && i != j ==> #[trigger] key(s[i]) != #[trigger] key(
            s[j],
        )
}

pub open spec fn has_key<T>(s: Seq<T>, key: spec_fn(T) -> Seq<char>, k: Seq<char>) -> bool {
    exists|i: int| 0 <= i < s.len() && #[trigger] key(s[i]) == k
}

pub open spec fn key_index<T>(s: Seq<T>, key: spec_fn(T) -> Seq<char>, k: Seq<char>) -> int {
    choose|i: int| 0 <= i < s.len() && #[trigger] key(s[i]) == k
}

/// The map from key to record that a list with unique keys stands for.
pub open spec fn keyed_map<T>(s: Seq<T>, key: spec_fn(T) -> Seq<char>) -> Map<Seq<char>, T> {
    Map::new(|k: Seq<char>| has_key(s, key, k), |k: Seq<char>| s[key_index(s, key, k)])
}

pub proof fn lemma_keyed_index<T>(s: Seq<T>, key: spec_fn(T) -> Seq<char>, i: int)
    requires
        keys_unique(s, key),
        0 <= i < s.len(),
    ensures
        keyed_map(s, key).dom().contains(key(s[i])),
        keyed_map(s, key)[key(s[i])] == s[i],
        key_index(s, key, key(s[i])) == i,
{
    assert(has_key(s, key, key(s[i])));
    let j = key_index(s, key, key(s[i]));
    assert(key(s[j]) == key(s[i]));
}

pub proof fn lemma_keyed_push<T>(s: Seq<T>, key: spec_fn(T) -> Seq<char>, t: T)
    requires
        keys_unique(s, key),
        !has_key(s, key, key(t)),
    ensures
        keys_unique(s.push(t), key),
        keyed_map(s.push(t), key) == keyed_map(s, key).insert(key(t), t),
{
    let s2 = s.push(t);
    assert forall|i: int, j: int|
        0 <= i < s2.len() && 0 <= j < s2.len() && i != j implies #[trigger] key(s2[i])
        != #[trigger] key(s2[j]) by {
        if i < s.len() && j < s.len() {
            assert(s2[i] == s[i] && s2[j] == s[j]);
        } else if i < s.len() {
            assert(s2[i] == s[i]);
        } else {
            assert(s2[j] == s[j]);
        }
    }
    let m1 = keyed_map(s2, key);
    let m2 = keyed_map(s, key).insert(key(t), t);
    assert forall|k: Seq<char>| m1.dom().contains(k) <==> m2.dom().contains(k) by {
        if has_key(s2, key, k) {
            let i = choose|i: int| 0 <= i < s2.len() && #[trigger] key(s2[i]) == k;
            if i < s.len() {
                assert(s2[i] == s[i]);
                assert(has_key(s, key, k));
            }
        }
        if has_key(s, key, k) {
            let i = choose|i: int| 0 <= i < s.len() && #[trigger] key(s[i]) == k;
            assert(s2[i] == s[i]);
            assert(key(s2[i]) == k);
        }
        if k == key(t) {
            assert(key(s2[s.len() as int]) == k);
        }
    }
    assert forall|k: Seq<char>| #[trigger] m1.dom().contains(k) implies m1[k] == m2[k] by {
        let i = key_index(s2, key, k);
        if k == key(t) {
            lemma_keyed_index(s2, key, s.len() as int);
        } else {
            assert(i < s.len());
            assert(s2[i] == s[i]);
            lemma_keyed_index(s, key, i);
        }
    }
    assert(m1 =~= m2);
}

pub proof fn lemma_keyed_update<T>(s: Seq<T>, key: spec_fn(T) -> Seq<char>, i: int, t: T)
    requires
        keys_unique(s, key),
        0 <= i < s.len(),
        key(t) == key(s[i]),
    ensures
        keys_unique(s.update(i, t), key),
        keyed_map(s.update(i, t), key) == keyed_map(s, key).insert(key(t), t),
{
    let s2 = s.update(i, t);
    assert forall|a: int, b: int|
        0 <= a < s2.len() && 0 <= b < s2.len() && a != b implies #[trigger] key(s2[a])
        != #[trigger] key(s2[b]) by {
        assert(key(s2[a]) == key(s[a]));
        assert(key(s2[b]) == key(s[b]));
    }
    let m1 = keyed_map(s2, key);
    let m2 = keyed_map(s, key).insert(key(t), t);
    assert forall|k: Seq<char>| m1.dom().contains(k) <==> m2.dom().contains(k) by {
        if has_key(s2, key, k) {
            let j = choose|j: int| 0 <= j < s2.len() && #[trigger] key(s2[j]) == k;
            assert(key(s[j]) == k);
        }
        if has_key(s, key, k) {
            let j = choose|j: int| 0 <= j < s.len() && #[trigger] key(s[j]) == k;
            assert(key(s2[j]) == k);
        }
        if k == key(t) {
            assert(key(s2[i]) == k);
        }
    }
    assert forall|k: Seq<char>| #[trigger] m1.dom().contains(k) implies m1[k] == m2[k] by {
        let j = key_index(s2, key, k);
        lemma_keyed_index(s2, key, j);
        if j == i {
        } else {
            assert(s2[j] == s[j]);
            lemma_keyed_index(s, key, j);
        }
    }
    assert(m1 =~= m2);
}

pub proof fn lemma_keyed_remove<T>(s: Seq<T>, key: spec_fn(T) -> Seq<char>, i: int)
    requires
        keys_unique(s, key),
        0 <= i < s.len(),
    ensures
        keys_unique(s.remove(i), key),
        keyed_map(s.remove(i), key) == keyed_map(s, key).remove(key(s[i])),
{
    let s2 = s.remove(i);
    assert forall|a: int, b: int|
        0 <= a < s2.len() && 0 <= b < s2.len() && a != b implies #[trigger] key(s2[a])
        != #[trigger] key(s2[b]) by {
        let a0 = if a < i { a } else { a + 1 };
        let b0 = if b < i { b } else { b + 1 };
        assert(s2[a] == s[a0]);
        assert(s2[b] == s[b0]);
    }
    let m1 = keyed_map(s2, key);
    let m2 = keyed_map(s, key).remove(key(s[i]));
    assert forall|k: Seq<char>| m1.dom().contains(k) <==> m2.dom().contains(k) by {
        if has_key(s2, key, k) {
            let j = choose|j: int| 0 <= j < s2.len() && #[trigger] key(s2[j]) == k;
            let j0 = if j < i { j } else { j + 1 };
            assert(s2[j] == s[j0]);
            assert(key(s[j0]) == k);
        }
        if has_key(s, key, k) && k != key(s[i]) {
            let j = choose|j: int| 0 <= j < s.len() && #[trigger] key(s[j]) == k;
            let j2 = if j < i { j } else { j - 1 };
            assert(s2[j2] == s[j]);
            assert(key(s2[j2]) == k);
        }
    }
    assert forall|k: Seq<char>| #[trigger] m1.dom().contains(k) implies m1[k] == m2[k] by {
        let j = key_index(s2, key, k);
        lemma_keyed_index(s2, key, j);
        let j0 = if j < i { j } else { j + 1 };
        assert(s2[j] == s[j0]);
        lemma_keyed_index(s, key, j0);
    }
    assert(m1 =~= m2);
}

/// Every element of a filtered list comes from the list.
pub proof fn lemma_filter_elements<T>(s: Seq<T>, f: spec_fn(T) -> bool)
    ensures
        forall|a: int| 0 <= a < s.filter(f).len() ==> s.contains(#[trigger] s.filter(f)[a]),
    decreases s.len(),
{
    reveal(Seq::filter);
    if s.len() > 0 {
        let t = s.drop_last();
        lemma_filter_elements(t, f);
        assert forall|a: int| 0 <= a < s.filter(f).len() implies s.contains(
            #[trigger] s.filter(f)[a],
        ) by {
            let u = t.filter(f);
            if a < u.len() {
                assert(s.filter(f)[a] == u[a]);
                assert(t.contains(u[a]));
                let k = choose|k: int| 0 <= k < t.len() && t[k] == u[a];
                assert(s[k] == u[a]);
            } else {
                assert(s.filter(f)[a] == s.last());
                assert(s[s.len() - 1] == s.last());
            }
        }
    }
}

/// Filtering a prefix one element longer.
pub proof fn lemma_filter_step<T>(s: Seq<T>, i: int, f: spec_fn(T) -> bool)
    requires
        0 <= i < s.len(),
    ensures
        s.subrange(0, i + 1).filter(f) == (if f(s[i]) {
            s.subrange(0, i).filter(f).push(s[i])
        } else {
            s.subrange(0, i).filter(f)
        }),
{
    reveal(Seq::filter);
    let next = s.subrange(0, i + 1);
    assert(next.drop_last() =~= s.subrange(0, i));
    assert(next.last() == s[i]);
}

/// The elements of a concatenation are those of its two parts.
pub proof fn lemma_concat_to_set<T>(a: Seq<T>, b: Seq<T>)
    ensures
        (a + b).to_set() == a.to_set() + b.to_set(),
{
    assert forall|x: T| (a + b).to_set().contains(x) <==> (a.to_set() + b.to_set()).contains(x) by {
        if (a + b).contains(x) {
            let k = choose|k: int| 0 <= k < (a + b).len() && (a + b)[k] == x;
            if k < a.len() {
                assert(a[k] == x);
            } else {
                assert(b[k - a.len()] == x);
            }
        }
        if a.contains(x) {
            let k = choose|k: int| 0 <= k < a.len() && a[k] == x;
            assert((a + b)[k] == x);
        }
        if b.contains(x) {
            let k = choose|k: int| 0 <= k < b.len() && b[k] == x;
            assert((a + b)[a.len() + k] == x);
        }
    }
    assert((a + b).to_set() =~= a.to_set() + b.to_set());
}


/// The keys of a list with unique keys, in order, hold no key twice.
pub proof fn lemma_unique_keys_no_duplicates<T>(s: Seq<T>, key: spec_fn(T) -> Seq<char>)
    requires
        keys_unique(s, key),
    ensures
        s.map_values(key).no_duplicates(),
{
    assert forall|i: int, j: int|
        0 <= i < s.len() && 0 <= j < s.len() && i != j implies s.map_values(key)[i] != s.map_values(
            key,
        )[j] by {
        assert(key(s[i]) != key(s[j]));
    }
}

} // verus!
