//! Sequence helpers: byte concatenation and slicing, and keys that stay
//! unique under the edits the store makes.
use vstd::prelude::*;

verus! {

/// `a` followed by `b`, as a fresh vector.
pub fn concat(a: &[u8], b: &[u8]) -> (r: Vec<u8>)
    ensures
        r@ == a@ + b@,
{
    let mut r: Vec<u8> = Vec::new();
    let mut i: usize = 0;
    while i < a.len()
        invariant
            i <= a@.len(),
            r@ == a@.subrange(0, i as int),
        decreases a@.len() - i,
    {
        r.push(a[i]);
        i = i + 1;
    }
    let mut j: usize = 0;
    while j < b.len()
        invariant
            j <= b@.len(),
            r@ == a@ + b@.subrange(0, j as int),
        decreases b@.len() - j,
    {
        r.push(b[j]);
        j = j + 1;
    }
    assert(a@.subrange(0, a@.len() as int) == a@);
    assert(b@.subrange(0, b@.len() as int) == b@);
    r
}

/// The bytes of `a` from `start` (inclusive) to `end` (exclusive).
pub fn slice_to_vec(a: &[u8], start: usize, end: usize) -> (r: Vec<u8>)
    requires
        start <= end <= a@.len(),
    ensures
        r@ == a@.subrange(start as int, end as int),
{
    let mut r: Vec<u8> = Vec::new();
    let mut i: usize = start;
    while i < end
        invariant
            start <= i <= end <= a@.len(),
            r@ == a@.subrange(start as int, i as int),
        decreases end - i,
    {
        r.push(a[i]);
        i = i + 1;
    }
    r
}

/// No two entries of `s` share a key.
pub open spec fn unique_by<A, K>(s: Seq<A>, key: spec_fn(A) -> K) -> bool {
    forall|i: int, j: int|
        0 <= i < s.len() && 0 <= j < s.len() && i != j ==> key(#[trigger] s[i]) != key(
            #[trigger] s[j],
        )
}

/// Whether some entry of `s` has key `k`.
pub open spec fn has_key<A, K>(s: Seq<A>, key: spec_fn(A) -> K, k: K) -> bool {
    exists|i: int| 0 <= i < s.len() && key(#[trigger] s[i]) == k
}

/// Removing an entry keeps keys unique, and every other entry stays.
pub proof fn lemma_unique_remove<A, K>(s: Seq<A>, key: spec_fn(A) -> K, i: int)
    requires
        unique_by(s, key),
        0 <= i < s.len(),
    ensures
        unique_by(s.remove(i), key),
        forall|j: int|
            0 <= j < s.len() && j != i ==> s.remove(i).contains(#[trigger] s[j]),
        forall|x: A| #[trigger] s.remove(i).contains(x) ==> s.contains(x),
        forall|k: K| #[trigger] has_key(s.remove(i), key, k) <==> has_key(s, key, k) && k != key(s[i]),
{
    let r = s.remove(i);
    assert forall|a: int, b: int| 0 <= a < r.len() && 0 <= b < r.len() && a != b implies key(
        #[trigger] r[a],
    ) != key(#[trigger] r[b]) by {
        let a2 = if a < i { a } else { a + 1 };
        let b2 = if b < i { b } else { b + 1 };
        assert(r[a] == s[a2]);
        assert(r[b] == s[b2]);
    }
    assert forall|j: int| 0 <= j < s.len() && j != i implies r.contains(#[trigger] s[j]) by {
        let j2 = if j < i { j } else { j - 1 };
        assert(r[j2] == s[j]);
    }
    assert forall|x: A| #[trigger] r.contains(x) implies s.contains(x) by {
        let a = choose|a: int| 0 <= a < r.len() && r[a] == x;
        let a2 = if a < i { a } else { a + 1 };
        assert(s[a2] == x);
    }
    assert forall|k: K| #[trigger] has_key(r, key, k) <==> has_key(s, key, k) && k != key(s[i]) by {
        if has_key(r, key, k) {
            let a = choose|a: int| 0 <= a < r.len() && key(#[trigger] r[a]) == k;
            let a2 = if a < i { a } else { a + 1 };
            assert(s[a2] == r[a]);
        }
        if has_key(s, key, k) && k != key(s[i]) {
            let a = choose|a: int| 0 <= a < s.len() && key(#[trigger] s[a]) == k;
            let a2 = if a < i { a } else { a - 1 };
            assert(r[a2] == s[a]);
        }
    }
}

/// Appending an entry with a new key keeps keys unique.
pub proof fn lemma_unique_push<A, K>(s: Seq<A>, key: spec_fn(A) -> K, x: A)
    requires
        unique_by(s, key),
        !has_key(s, key, key(x)),
    ensures
        unique_by(s.push(x), key),
        forall|k: K| #[trigger] has_key(s.push(x), key, k) <==> has_key(s, key, k) || k == key(x),
{
    let r = s.push(x);
    assert forall|a: int, b: int| 0 <= a < r.len() && 0 <= b < r.len() && a != b implies key(
        #[trigger] r[a],
    ) != key(#[trigger] r[b]) by {
        if a < s.len() {
            assert(r[a] == s[a]);
        }
        if b < s.len() {
            assert(r[b] == s[b]);
        }
    }
    assert forall|k: K| #[trigger] has_key(r, key, k) <==> has_key(s, key, k) || k == key(x) by {
        if has_key(s, key, k) {
            let a = choose|a: int| 0 <= a < s.len() && key(#[trigger] s[a]) == k;
            assert(r[a] == s[a]);
        }
        if k == key(x) {
            assert(r[s.len() as int] == x);
        }
        if has_key(r, key, k) {
            let a = choose|a: int| 0 <= a < r.len() && key(#[trigger] r[a]) == k;
            if a < s.len() {
                assert(r[a] == s[a]);
            }
        }
    }
}

/// Replacing an entry by one with the same key keeps keys unique.
pub proof fn lemma_unique_update<A, K>(s: Seq<A>, key: spec_fn(A) -> K, i: int, x: A)
    requires
        unique_by(s, key),
        0 <= i < s.len(),
        key(x) == key(s[i]),
    ensures
        unique_by(s.update(i, x), key),
        forall|k: K| #[trigger] has_key(s.update(i, x), key, k) <==> has_key(s, key, k),
{
    let r = s.update(i, x);
    assert forall|a: int, b: int| 0 <= a < r.len() && 0 <= b < r.len() && a != b implies key(
        #[trigger] r[a],
    ) != key(#[trigger] r[b]) by {
        assert(key(r[a]) == key(s[a]));
        assert(key(r[b]) == key(s[b]));
    }
    assert forall|k: K| #[trigger] has_key(r, key, k) <==> has_key(s, key, k) by {
        if has_key(s, key, k) {
            let a = choose|a: int| 0 <= a < s.len() && key(#[trigger] s[a]) == k;
            assert(key(r[a]) == key(s[a]));
        }
        if has_key(r, key, k) {
            let a = choose|a: int| 0 <= a < r.len() && key(#[trigger] r[a]) == k;
            assert(key(r[a]) == key(s[a]));
        }
    }
}

} // verus!
