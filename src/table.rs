//! Tables of ledger records, each record named by its address.
use vstd::prelude::*;

use crate::address::Address;

verus! {

/// A record that is named by an address.
pub trait Keyed {
    spec fn key(&self) -> Seq<u8>;

    fn address(&self) -> (r: &Address)
        ensures
            r@ == self.key(),
    ;
}

/// Whether some record of `s` has the address `a`.
pub open spec fn contains_key<T: Keyed>(s: Seq<T>, a: Seq<u8>) -> bool {
    exists|i: int| 0 <= i < s.len() && #[trigger] s[i].key() == a
}

/// Where the record with address `a` stands in `s`.
pub open spec fn index_of<T: Keyed>(s: Seq<T>, a: Seq<u8>) -> int {
    choose|i: int| 0 <= i < s.len() && #[trigger] s[i].key() == a
}

/// The record with address `a`.
pub open spec fn entry<T: Keyed>(s: Seq<T>, a: Seq<u8>) -> T {
    s[index_of(s, a)]
}

/// No two records share an address.
pub open spec fn keys_unique<T: Keyed>(s: Seq<T>) -> bool {
    forall|i: int, j: int|
        0 <= i < s.len() && 0 <= j < s.len() && #[trigger] s[i].key() == #[trigger] s[j].key()
            ==> i == j
}

/// In a table without repeated addresses, a record with address `a` stands
/// where `index_of` says.
pub proof fn lemma_index_of<T: Keyed>(s: Seq<T>, i: int)
    requires
        keys_unique(s),
        0 <= i < s.len(),
    ensures
        contains_key(s, s[i].key()),
        index_of(s, s[i].key()) == i,
{
    let a = s[i].key();
    assert(0 <= i < s.len() && s[i].key() == a);
    let k = index_of(s, a);
    assert(0 <= k < s.len() && s[k].key() == a);
}

/// Changing a record in place, without changing its address, keeps the
/// addresses unique and every other record where it was.
pub proof fn lemma_update<T: Keyed>(s: Seq<T>, i: int, v: T)
    requires
        keys_unique(s),
        0 <= i < s.len(),
        v.key() == s[i].key(),
    ensures
        keys_unique(s.update(i, v)),
        forall|a: Seq<u8>| contains_key(s.update(i, v), a) == contains_key(s, a),
        forall|a: Seq<u8>| #[trigger]
            contains_key(s, a) ==> index_of(s.update(i, v), a) == index_of(s, a),
{
    let t = s.update(i, v);
    assert forall|j: int| 0 <= j < t.len() implies #[trigger] t[j].key() == s[j].key() by {}
    assert forall|a: Seq<u8>| contains_key(t, a) == contains_key(s, a) by {
        if contains_key(s, a) {
            let k = index_of(s, a);
            assert(t[k].key() == a);
        }
        if contains_key(t, a) {
            let k = index_of(t, a);
            assert(s[k].key() == a);
        }
    }
    assert forall|a: Seq<u8>| #[trigger] contains_key(s, a) implies index_of(t, a) == index_of(s, a) by {
        let k = index_of(s, a);
        let m = index_of(t, a);
        assert(t[k].key() == a);
        assert(s[m].key() == a);
    }
}

/// Appending a record with a new address keeps the addresses unique.
pub proof fn lemma_push<T: Keyed>(s: Seq<T>, v: T)
    requires
        keys_unique(s),
        !contains_key(s, v.key()),
    ensures
        keys_unique(s.push(v)),
        contains_key(s.push(v), v.key()),
        forall|a: Seq<u8>| #[trigger] contains_key(s, a) ==> contains_key(s.push(v), a),
        forall|a: Seq<u8>| #[trigger]
            contains_key(s.push(v), a) ==> contains_key(s, a) || a == v.key(),
        forall|a: Seq<u8>| #[trigger]
            contains_key(s, a) ==> index_of(s.push(v), a) == index_of(s, a),
{
    let t = s.push(v);
    assert(t[s.len() as int].key() == v.key());
    assert forall|i: int, j: int|
        0 <= i < t.len() && 0 <= j < t.len() && #[trigger] t[i].key() == #[trigger] t[j].key()
        implies i == j by {
        if i < s.len() && j == s.len() {
            assert(s[i].key() == v.key());
        }
        if j < s.len() && i == s.len() {
            assert(s[j].key() == v.key());
        }
    }
    assert forall|a: Seq<u8>| #[trigger] contains_key(t, a) implies contains_key(s, a) || a
        == v.key() by {
        let m = index_of(t, a);
        if m < s.len() {
            assert(s[m].key() == a);
        }
    }
    assert forall|a: Seq<u8>| #[trigger] contains_key(s, a) implies contains_key(t, a)
        && index_of(t, a) == index_of(s, a) by {
        let k = index_of(s, a);
        assert(t[k].key() == a);
        let m = index_of(t, a);
        if m == s.len() {
            assert(s[k].key() == v.key());
        } else {
            assert(s[m].key() == a);
        }
    }
}

/// Finds the record with address `a`.
pub fn position<T: Keyed>(v: &Vec<T>, a: &Address) -> (r: Option<usize>)
    requires
        keys_unique(v@),
    ensures
        match r {
            Some(i) => i < v@.len() && v@[i as int].key() == a@ && contains_key(v@, a@)
                && index_of(v@, a@) == i,
            None => !contains_key(v@, a@),
        },
{
    let mut i: usize = 0;
    while i < v.len()
        invariant
            0 <= i <= v@.len(),
            keys_unique(v@),
            forall|j: int| 0 <= j < i ==> #[trigger] v@[j].key() != a@,
        decreases v@.len() - i,
    {
        if v[i].address().same(a) {
            proof {
                lemma_index_of(v@, i as int);
            }
            return Some(i);
        }
        i = i + 1;
    }
    None
}

} // verus!
