//! The ascending order of party indices, in which maps over the parties are read.
use crate::round_input::walked_keys;
use crate::seqs::{all_ok, first_failing, law_first_failure, lemma_take_contains};
use std::collections::HashMap;
use vstd::prelude::*;

verus! {

/// The members of `set` below `n`, each once and in ascending order.
pub open spec fn ascending_below(set: Set<u16>, n: int) -> Seq<u16>
    decreases n,
{
    if n <= 0 {
        Seq::empty()
    } else {
        let before = ascending_below(set, n - 1);
        if set.contains((n - 1) as u16) {
            before.push((n - 1) as u16)
        } else {
            before
        }
    }
}

/// The members of `set`, each once and in ascending order.
pub open spec fn ascending(set: Set<u16>) -> Seq<u16> {
    ascending_below(set, 0x1_0000)
}

/// `d` is the lowest member of `set` of which `ok` does not hold.
pub open spec fn lowest_failing(set: Set<u16>, ok: spec_fn(u16) -> bool, d: u16) -> bool {
    &&& set.contains(d)
    &&& !ok(d)
    &&& forall|e: u16| #[trigger] set.contains(e) && e < d ==> ok(e)
}

/// `keys` lists the members of `dom`, each once.
pub open spec fn lists(keys: Seq<u16>, dom: Set<u16>) -> bool {
    keys.no_duplicates() && keys.to_set() == dom
}

/// Every element is smaller than those behind it.
spec fn increasing(s: Seq<u16>) -> bool {
    forall|i: int, j: int| 0 <= i < j < s.len() ==> s[i] < s[j]
}

proof fn lemma_increasing_below(s: Seq<u16>, set: Set<u16>, n: int)
    requires
        0 <= n <= 0x1_0000,
        increasing(s),
        forall|j: int| 0 <= j < s.len() ==> #[trigger] s[j] < n,
        forall|x: u16| x < n ==> (#[trigger] set.contains(x) <==> s.contains(x)),
    ensures
        s == ascending_below(set, n),
    decreases n,
{
    if n == 0 {
        if s.len() > 0 {
            assert(s[0] < 0);
        }
        assert(s =~= Seq::empty());
    } else {
        let top = (n - 1) as u16;
        if set.contains(top) {
            let j = choose|j: int| 0 <= j < s.len() && s[j] == top;
            assert(s[s.len() - 1] < n);
            assert(s.last() == top);
            let before = s.drop_last();
            assert forall|x: u16| x < n - 1 implies (#[trigger] set.contains(x)
                <==> before.contains(x)) by {
                if s.contains(x) {
                    let i = choose|i: int| 0 <= i < s.len() && s[i] == x;
                    assert(before[i] == x);
                }
                if before.contains(x) {
                    let i = choose|i: int| 0 <= i < before.len() && before[i] == x;
                    assert(s[i] == x);
                }
            }
            assert forall|i: int| 0 <= i < before.len() implies #[trigger] before[i] < n - 1 by {
                assert(s[i] < s[s.len() - 1]);
            }
            lemma_increasing_below(before, set, n - 1);
            assert(s =~= before.push(top));
        } else {
            assert forall|i: int| 0 <= i < s.len() implies #[trigger] s[i] < n - 1 by {
                assert(s.contains(s[i]));
            }
            lemma_increasing_below(s, set, n - 1);
        }
    }
}

/// What is below `n` is listed in ascending order, each member once.
proof fn lemma_ascending_below(set: Set<u16>, n: int)
    requires
        0 <= n <= 0x1_0000,
    ensures
        increasing(ascending_below(set, n)),
        forall|j: int|
            0 <= j < ascending_below(set, n).len() ==> #[trigger] ascending_below(set, n)[j] < n,
        forall|x: u16| #[trigger]
            ascending_below(set, n).contains(x) <==> x < n && set.contains(x),
    decreases n,
{
    if n > 0 {
        lemma_ascending_below(set, n - 1);
        let (a, b) = (ascending_below(set, n - 1), ascending_below(set, n));
        let top = (n - 1) as u16;
        assert forall|x: u16| #[trigger] b.contains(x) <==> x < n && set.contains(x) by {
            if a.contains(x) {
                let i = choose|i: int| 0 <= i < a.len() && a[i] == x;
                assert(b[i] == x);
            }
            if b.contains(x) {
                let i = choose|i: int| 0 <= i < b.len() && b[i] == x;
                if i < a.len() {
                    assert(a[i] == x);
                    assert(a.contains(x));
                }
            }
            if x == top && set.contains(x) {
                assert(b[b.len() - 1] == x);
            }
            if x < n - 1 && set.contains(x) {
                assert(a.contains(x));
            }
        }
        assert forall|j: int| 0 <= j < b.len() implies #[trigger] b[j] < n by {
            if j < a.len() {
                assert(b[j] == a[j]);
            }
        }
        assert forall|i: int, j: int| 0 <= i < j < b.len() implies b[i] < b[j] by {
            assert(b[i] == a[i]);
            if j < a.len() {
                assert(b[j] == a[j]);
            }
        }
    }
}

/// The ascending list of a set holds its members, each once, and nothing else.
pub proof fn lemma_ascending(set: Set<u16>)
    ensures
        lists(ascending(set), set),
        forall|i: int, j: int|
            0 <= i < j < ascending(set).len() ==> ascending(set)[i] < ascending(set)[j],
{
    lemma_ascending_below(set, 0x1_0000);
    assert(ascending(set).to_set() =~= set);
}

/// Where `ok` first fails in the ascending list of a set stands the lowest member of which it
/// does not hold.
pub proof fn lemma_first_failing_is_lowest(set: Set<u16>, ok: spec_fn(u16) -> bool, k: int)
    requires
        first_failing(ascending(set), ok, k),
    ensures
        lowest_failing(set, ok, ascending(set)[k]),
{
    lemma_ascending(set);
    let keys = ascending(set);
    assert(keys.to_set().contains(keys[k]));
    assert forall|e: u16| #[trigger] set.contains(e) && e < keys[k] implies ok(e) by {
        assert(keys.to_set().contains(e));
        let i = choose|i: int| 0 <= i < keys.len() && keys[i] == e;
        if k < i {
            assert(keys[k] < keys[i]);
        }
        assert(ok(keys[i]));
    }
}

/// What holds of every listed key holds of every member.
pub proof fn lemma_all_listed(keys: Seq<u16>, set: Set<u16>, ok: spec_fn(u16) -> bool)
    requires
        lists(keys, set),
        all_ok(keys, ok),
    ensures
        forall|d: u16| #[trigger] set.contains(d) ==> ok(d),
{
    assert forall|d: u16| #[trigger] set.contains(d) implies ok(d) by {
        assert(keys.to_set().contains(d));
        let i = choose|i: int| 0 <= i < keys.len() && keys[i] == d;
        assert(ok(keys[i]));
    }
}

/// Puts `key` where it belongs in an ascending list without it.
fn insert_ascending(keys: &mut Vec<u16>, key: u16)
    requires
        increasing(old(keys)@),
        !old(keys)@.contains(key),
    ensures
        increasing(final(keys)@),
        final(keys)@.to_set() == old(keys)@.to_set().insert(key),
{
    let ghost before = keys@;
    let mut i: usize = 0;
    while i < keys.len() && keys[i] < key
        invariant
            i <= keys@.len(),
            keys@ == before,
            forall|j: int| 0 <= j < i ==> keys@[j] < key,
        decreases keys@.len() - i,
    {
        i = i + 1;
    }
    keys.insert(i, key);
    proof {
        let after = keys@;
        assert(after =~= before.insert(i as int, key));
        if i < before.len() {
            assert(before.contains(before[i as int]));
        }
        assert forall|a: int, b: int| 0 <= a < b < after.len() implies after[a] < after[b] by {
            let pa = if a < i { a } else { a - 1 };
            let pb = if b < i { b } else { b - 1 };
            if a != i && b != i {
                assert(before[pa] < before[pb]);
            } else if a == i {
                assert(before[i as int] <= before[pb]);
            }
        }
        assert forall|x: u16| #[trigger] after.to_set().contains(x) <==> before.to_set().insert(
            key,
        ).contains(x) by {
            if before.contains(x) {
                let j = choose|j: int| 0 <= j < before.len() && before[j] == x;
                assert(after[if j < i { j } else { j + 1 }] == x);
            }
            if after.contains(x) {
                let j = choose|j: int| 0 <= j < after.len() && after[j] == x;
                if j < i {
                    assert(before[j] == x);
                } else if j > i {
                    assert(before[j - 1] == x);
                }
            }
            assert(after[i as int] == key);
        }
        assert(after.to_set() =~= before.to_set().insert(key));
    }
}

/// The keys of `map`, in ascending order.
pub fn ascending_keys<V>(map: &HashMap<u16, V>) -> (keys: Vec<u16>)
    ensures
        keys@ == ascending(map@.dom()),
        lists(keys@, map@.dom()),
{
    let walked = walked_keys(map);
    let mut keys: Vec<u16> = Vec::new();
    let mut k: usize = 0;
    assert(walked@.take(0).to_set() =~= keys@.to_set());
    while k < walked.len()
        invariant
            k <= walked@.len(),
            walked@.no_duplicates(),
            increasing(keys@),
            keys@.to_set() == walked@.take(k as int).to_set(),
        decreases walked@.len() - k,
    {
        proof {
            lemma_take_contains(walked@, k as int);
            if keys@.contains(walked@[k as int]) {
                assert(walked@.take(k as int).to_set().contains(walked@[k as int]));
                let i = choose|i: int| 0 <= i < k && walked@.take(k as int)[i] == walked@[k as int];
                assert(walked@[i] == walked@[k as int]);
            }
        }
        insert_ascending(&mut keys, walked[k]);
        k = k + 1;
    }
    proof {
        assert(walked@.take(k as int) =~= walked@);
        let dom = map@.dom();
        assert forall|x: u16| x < 0x1_0000 implies (#[trigger] dom.contains(x) <==> keys@.contains(
            x,
        )) by {
            assert(keys@.to_set().contains(x) <==> dom.contains(x));
        }
        lemma_increasing_below(keys@, dom, 0x1_0000);
        lemma_ascending(dom);
    }
    keys
}

/// The ascending list of a set is the one list that holds its members, each once, and grows
/// from each element to the next.
pub proof fn law_ascending_is_the_sorted_list(set: Set<u16>, s: Seq<u16>)
    ensures
        s == ascending(set) <==> {
            &&& forall|x: u16| #[trigger] s.contains(x) <==> set.contains(x)
            &&& forall|i: int, j: int| 0 <= i < j < s.len() ==> s[i] < s[j]
        },
{
    lemma_ascending_below(set, 0x1_0000);
    if (forall|x: u16| #[trigger] s.contains(x) <==> set.contains(x)) && increasing(s) {
        lemma_increasing_below(s, set, 0x1_0000);
    }
}

/// The lowest failing member fails, and no smaller member does; there is one unless the check
/// holds of all members.
pub proof fn law_lowest_failing(set: Set<u16>, ok: spec_fn(u16) -> bool)
    ensures
        forall|d: u16| #[trigger]
            lowest_failing(set, ok, d) <==> set.contains(d) && !ok(d) && (forall|e: u16|
                #[trigger] set.contains(e) && !ok(e) ==> d <= e),
        (forall|d: u16| !#[trigger] lowest_failing(set, ok, d)) <==> (forall|d: u16|
            #[trigger] set.contains(d) ==> ok(d)),
{
    assert forall|d: u16| #[trigger] lowest_failing(set, ok, d) <==> set.contains(d) && !ok(d) && (
    forall|e: u16| #[trigger] set.contains(e) && !ok(e) ==> d <= e) by {
        if set.contains(d) && !ok(d) && (forall|e: u16| #[trigger]
            set.contains(e) && !ok(e) ==> d <= e) {
            assert forall|e: u16| #[trigger] set.contains(e) && e < d implies ok(e) by {}
        }
    }
    let keys = ascending(set);
    lemma_ascending(set);
    law_first_failure(keys, ok);
    if all_ok(keys, ok) {
        lemma_all_listed(keys, set, ok);
    } else {
        let k = choose|k: int| #[trigger] first_failing(keys, ok, k);
        lemma_first_failing_is_lowest(set, ok, k);
    }
}

} // verus!
