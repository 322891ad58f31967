//! Positions in sequences, and facts on prefixes.
use vstd::prelude::*;

verus! {

/// `x` first occurs in `s` at position `i`.
pub open spec fn first_at<T>(s: Seq<T>, x: T, i: int) -> bool {
    &&& 0 <= i < s.len()
    &&& s[i] == x
    &&& forall|j: int| 0 <= j < i ==> s[j] != x
}

/// `x` last occurs in `s` at position `i`.
pub open spec fn last_at<T>(s: Seq<T>, x: T, i: int) -> bool {
    &&& 0 <= i < s.len()
    &&& s[i] == x
    &&& forall|j: int| i < j < s.len() ==> s[j] != x
}

/// `ok` first fails in `s` at position `i`.
pub open spec fn first_failing<T>(s: Seq<T>, ok: spec_fn(T) -> bool, i: int) -> bool {
    &&& 0 <= i < s.len()
    &&& !ok(s[i])
    &&& forall|j: int| 0 <= j < i ==> ok(#[trigger] s[j])
}

/// `ok` holds of every element of `s`.
pub open spec fn all_ok<T>(s: Seq<T>, ok: spec_fn(T) -> bool) -> bool {
    forall|j: int| 0 <= j < s.len() ==> ok(#[trigger] s[j])
}

/// A prefix longer by one holds one element more.
pub proof fn lemma_take_contains<T>(s: Seq<T>, k: int)
    requires
        0 <= k < s.len(),
    ensures
        s.take(k + 1) == s.take(k).push(s[k]),
        s.take(k + 1).to_set() == s.take(k).to_set().insert(s[k]),
        forall|x: T| #[trigger] s.take(k + 1).contains(x) <==> s.take(k).contains(x) || x == s[k],
{
    assert(s.take(k + 1) =~= s.take(k).push(s[k]));
    assert forall|x: T| #[trigger] s.take(k + 1).contains(x) <==> s.take(k).contains(x) || x
        == s[k] by {
        let (a, b) = (s.take(k), s.take(k + 1));
        if a.contains(x) {
            let i = choose|i: int| 0 <= i < a.len() && a[i] == x;
            assert(b[i] == x);
        }
        if b.contains(x) {
            let i = choose|i: int| 0 <= i < b.len() && b[i] == x;
            if i < k {
                assert(a[i] == x);
            }
        }
        assert(b[k] == s[k]);
    }
    assert(s.take(k + 1).to_set() =~= s.take(k).to_set().insert(s[k]));
}

/// The first and the last position of an element, where it occurs at all.
pub proof fn law_positions<T>(s: Seq<T>, x: T, i: int)
    ensures
        first_at(s, x, i) <==> s.index_of_first(x) == Some(i),
        last_at(s, x, i) <==> s.index_of_last(x) == Some(i),
{
    s.index_of_first_ensures(x);
    s.index_of_last_ensures(x);
    if first_at(s, x, i) {
        assert(s.contains(s[i]));
        let j = s.index_of_first(x)->0;
        if j < i {
            assert(s[j] != x);
        }
    }
    if last_at(s, x, i) {
        assert(s.contains(s[i]));
        let j = s.index_of_last(x)->0;
        if i < j {
            assert(s[j] != x);
        }
    }
}

/// A check either holds of all elements or first fails at one position: there it fails, and it
/// holds of everything before.
pub proof fn law_first_failure<T>(s: Seq<T>, ok: spec_fn(T) -> bool)
    ensures
        all_ok(s, ok) <==> forall|j: int| 0 <= j < s.len() ==> ok(#[trigger] s[j]),
        !all_ok(s, ok) <==> exists|i: int| #[trigger] first_failing(s, ok, i),
        forall|i: int| #[trigger]
            first_failing(s, ok, i) <==> 0 <= i < s.len() && !ok(s[i]) && (forall|j: int|
                0 <= j < i ==> ok(#[trigger] s[j])),
    decreases s.len(),
{
    if s.len() > 0 {
        let before = s.drop_last();
        law_first_failure(before, ok);
        if exists|i: int| #[trigger] first_failing(before, ok, i) {
            let i = choose|i: int| #[trigger] first_failing(before, ok, i);
            assert(before[i] == s[i]);
            assert forall|j: int| 0 <= j < i implies ok(#[trigger] s[j]) by {
                assert(before[j] == s[j]);
            }
            assert(first_failing(s, ok, i));
        } else {
            assert forall|j: int| 0 <= j < s.len() - 1 implies ok(#[trigger] s[j]) by {
                assert(before[j] == s[j]);
            }
            if !ok(s.last()) {
                assert(first_failing(s, ok, s.len() - 1));
            }
        }
    }
}

} // verus!
