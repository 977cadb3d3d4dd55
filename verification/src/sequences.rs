//! Facts about membership in sequences that grow by one element.

use vstd::prelude::*;

verus! {

/// The first `n + 1` elements of a sequence hold what the first `n` hold,
/// and the element at `n`.
pub proof fn lemma_take_contains<T>(s: Seq<T>, n: int)
    requires
        0 <= n < s.len(),
    ensures
        forall|q: T| #[trigger] s.take(n + 1).contains(q) <==> s.take(n).contains(q) || q == s[n],
{
    let shorter = s.take(n);
    let longer = s.take(n + 1);
    assert forall|q: T| #[trigger] longer.contains(q) <==> shorter.contains(q) || q == s[n] by {
        if shorter.contains(q) {
            let i = choose|i: int| 0 <= i < shorter.len() && shorter[i] == q;
            assert(longer[i] == q);
        }
        if q == s[n] {
            assert(longer[n] == q);
        }
        if longer.contains(q) {
            let i = choose|i: int| 0 <= i < longer.len() && longer[i] == q;
            if i < n {
                assert(shorter[i] == q);
            }
        }
    }
}

/// In a sequence without repeats, the element at `n` is not among the first
/// `n`.
pub proof fn lemma_take_fresh<T>(s: Seq<T>, n: int)
    requires
        0 <= n < s.len(),
        s.no_duplicates(),
    ensures
        !s.take(n).contains(s[n]),
{
    let shorter = s.take(n);
    if shorter.contains(s[n]) {
        let i = choose|i: int| 0 <= i < shorter.len() && shorter[i] == s[n];
        assert(s[i] == s[n]);
    }
}

/// A sequence with `x` appended holds what it held before, and `x`.
pub proof fn lemma_push_contains<T>(s: Seq<T>, x: T)
    ensures
        forall|q: T| #[trigger] s.push(x).contains(q) <==> s.contains(q) || q == x,
{
    assert forall|q: T| #[trigger] s.push(x).contains(q) <==> s.contains(q) || q == x by {
        if s.contains(q) {
            let i = choose|i: int| 0 <= i < s.len() && s[i] == q;
            assert(s.push(x)[i] == q);
        }
        if q == x {
            assert(s.push(x)[s.len() as int] == q);
        }
    }
}

/// Appending an element that does not occur yet keeps a sequence free of
/// repeats.
pub proof fn lemma_push_distinct<T>(s: Seq<T>, x: T)
    requires
        s.no_duplicates(),
        !s.contains(x),
    ensures
        s.push(x).no_duplicates(),
{
    assert forall|i: int, j: int|
        0 <= i < s.push(x).len() && 0 <= j < s.push(x).len() && i != j implies s.push(x)[i]
        != s.push(x)[j] by {
        if i < s.len() {
            assert(s.contains(s[i]));
        }
        if j < s.len() {
            assert(s.contains(s[j]));
        }
    }
}

} // verus!
