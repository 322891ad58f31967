//! The collective randomness: every new participant contributes a byte string, and all of them
//! are combined bit by bit.
use vstd::prelude::*;

verus! {

/// The exclusive or of `a` with as much of `b` as covers it; the length is that of `a`.
pub open spec fn xor(a: Seq<u8>, b: Seq<u8>) -> Seq<u8> {
    Seq::new(
        a.len(),
        |i: int|
            if i < b.len() {
                a[i] ^ b[i]
            } else {
                a[i]
            },
    )
}

/// What `me` gets from its own contribution and those of the other `parties`, taken in their
/// order.
pub open spec fn combined(
    own: Seq<u8>,
    me: u16,
    parties: Seq<u16>,
    contributions: spec_fn(u16) -> Seq<u8>,
) -> Seq<u8>
    decreases parties.len(),
{
    if parties.len() == 0 {
        own
    } else {
        let before = combined(own, me, parties.drop_last(), contributions);
        if parties.last() == me {
            before
        } else {
            xor(before, contributions(parties.last()))
        }
    }
}

/// The exclusive or of two byte strings.
pub fn xor_array(a: Vec<u8>, b: &Vec<u8>) -> (res: Vec<u8>)
    ensures
        res@ == xor(a@, b@),
{
    let mut res: Vec<u8> = Vec::new();
    let mut i: usize = 0;
    while i < a.len()
        invariant
            i <= a@.len(),
            res@ == xor(a@, b@).take(i as int),
        decreases a@.len() - i,
    {
        let byte: u8 = if i < b.len() {
            a[i] ^ b[i]
        } else {
            a[i]
        };
        res.push(byte);
        proof {
            assert(xor(a@, b@)[i as int] == byte);
            assert(res@ =~= xor(a@, b@).take(i + 1));
        }
        i = i + 1;
    }
    assert(res@ =~= xor(a@, b@));
    res
}

/// The exclusive or of the contributions of all `parties`, each `n` bytes long.
spec fn total(n: nat, parties: Seq<u16>, contributions: spec_fn(u16) -> Seq<u8>) -> Seq<u8>
    decreases parties.len(),
{
    if parties.len() == 0 {
        Seq::new(n, |i: int| 0u8)
    } else {
        xor(total(n, parties.drop_last(), contributions), contributions(parties.last()))
    }
}

/// Every one of `parties` contributes `n` bytes.
pub open spec fn contribute(
    n: nat,
    parties: Seq<u16>,
    contributions: spec_fn(u16) -> Seq<u8>,
) -> bool {
    forall|k: int| 0 <= k < parties.len() ==> contributions(#[trigger] parties[k]).len() == n
}

proof fn lemma_total_len(n: nat, parties: Seq<u16>, contributions: spec_fn(u16) -> Seq<u8>)
    ensures
        total(n, parties, contributions).len() == n,
    decreases parties.len(),
{
    if parties.len() > 0 {
        lemma_total_len(n, parties.drop_last(), contributions);
    }
}

proof fn lemma_combined_outside(
    n: nat,
    own: Seq<u8>,
    me: u16,
    parties: Seq<u16>,
    contributions: spec_fn(u16) -> Seq<u8>,
)
    requires
        own.len() == n,
        contribute(n, parties, contributions),
        !parties.contains(me),
    ensures
        combined(own, me, parties, contributions) == xor(own, total(n, parties, contributions)),
    decreases parties.len(),
{
    lemma_total_len(n, parties, contributions);
    if parties.len() == 0 {
        assert forall|i: int| 0 <= i < n implies own[i] == #[trigger] xor(
            own,
            total(n, parties, contributions),
        )[i] by {
            let a = own[i];
            assert(a ^ 0u8 == a) by (bit_vector);
        }
        assert(own =~= xor(own, total(n, parties, contributions)));
    } else {
        let before = parties.drop_last();
        let last = parties.last();
        assert(parties[parties.len() - 1] == last);
        assert(contribute(n, before, contributions)) by {
            assert forall|k: int| 0 <= k < before.len() implies contributions(
                #[trigger] before[k],
            ).len() == n by {
                assert(parties[k] == before[k]);
            }
        }
        assert(!before.contains(me)) by {
            if before.contains(me) {
                let k = choose|k: int| 0 <= k < before.len() && before[k] == me;
                assert(parties[k] == me);
            }
        }
        lemma_combined_outside(n, own, me, before, contributions);
        lemma_total_len(n, before, contributions);
        let (t, c) = (total(n, before, contributions), contributions(last));
        assert forall|i: int| 0 <= i < n implies #[trigger] xor(xor(own, t), c)[i] == xor(
            own,
            xor(t, c),
        )[i] by {
            let (x, y, z) = (own[i], t[i], c[i]);
            assert((x ^ y) ^ z == x ^ (y ^ z)) by (bit_vector);
        }
        assert(xor(xor(own, t), c) =~= xor(own, xor(t, c)));
    }
}

proof fn lemma_combined_inside(
    n: nat,
    me: u16,
    parties: Seq<u16>,
    contributions: spec_fn(u16) -> Seq<u8>,
)
    requires
        contribute(n, parties, contributions),
        parties.no_duplicates(),
        parties.contains(me),
    ensures
        combined(contributions(me), me, parties, contributions) == total(n, parties, contributions),
    decreases parties.len(),
{
    let before = parties.drop_last();
    let last = parties.last();
    assert(parties[parties.len() - 1] == last);
    assert(contribute(n, before, contributions)) by {
        assert forall|k: int| 0 <= k < before.len() implies contributions(
            #[trigger] before[k],
        ).len() == n by {
            assert(parties[k] == before[k]);
        }
    }
    lemma_total_len(n, before, contributions);
    if last == me {
        assert(!before.contains(me)) by {
            if before.contains(me) {
                let k = choose|k: int| 0 <= k < before.len() && before[k] == me;
                assert(parties[k] == parties[parties.len() - 1]);
            }
        }
        lemma_combined_outside(n, contributions(me), me, before, contributions);
        let (t, c) = (total(n, before, contributions), contributions(me));
        assert forall|i: int| 0 <= i < n implies #[trigger] xor(c, t)[i] == xor(t, c)[i] by {
            let (x, y) = (c[i], t[i]);
            assert(x ^ y == y ^ x) by (bit_vector);
        }
        assert(xor(c, t) =~= xor(t, c));
    } else {
        let k = choose|k: int| 0 <= k < parties.len() && parties[k] == me;
        assert(before[k] == me);
        assert(before.no_duplicates());
        lemma_combined_inside(n, me, before, contributions);
    }
}

proof fn lemma_combined_agree(
    own: Seq<u8>,
    me: u16,
    parties: Seq<u16>,
    one: spec_fn(u16) -> Seq<u8>,
    other: spec_fn(u16) -> Seq<u8>,
)
    requires
        forall|k: int|
            0 <= k < parties.len() && #[trigger] parties[k] != me ==> one(parties[k]) == other(
                parties[k],
            ),
    ensures
        combined(own, me, parties, one) == combined(own, me, parties, other),
    decreases parties.len(),
{
    if parties.len() > 0 {
        let before = parties.drop_last();
        assert forall|k: int| 0 <= k < before.len() && #[trigger] before[k] != me implies one(
            before[k],
        ) == other(before[k]) by {
            assert(parties[k] == before[k]);
        }
        assert(parties[parties.len() - 1] == parties.last());
        lemma_combined_agree(own, me, before, one, other);
    }
}

/// All participants get the same byte string: `a` from its own contribution and from what it
/// received of the others, and `b` likewise, where both received what the others contributed.
pub proof fn law_randomness_is_collective(
    n: nat,
    a: u16,
    b: u16,
    parties: Seq<u16>,
    contributed: spec_fn(u16) -> Seq<u8>,
    received_by_a: spec_fn(u16) -> Seq<u8>,
    received_by_b: spec_fn(u16) -> Seq<u8>,
)
    requires
        contribute(n, parties, contributed),
        parties.no_duplicates(),
        parties.contains(a),
        parties.contains(b),
        forall|k: int|
            0 <= k < parties.len() && #[trigger] parties[k] != a ==> received_by_a(parties[k])
                == contributed(parties[k]),
        forall|k: int|
            0 <= k < parties.len() && #[trigger] parties[k] != b ==> received_by_b(parties[k])
                == contributed(parties[k]),
    ensures
        combined(contributed(a), a, parties, received_by_a) == combined(
            contributed(b),
            b,
            parties,
            received_by_b,
        ),
{
    lemma_combined_agree(contributed(a), a, parties, received_by_a, contributed);
    lemma_combined_agree(contributed(b), b, parties, received_by_b, contributed);
    lemma_combined_inside(n, a, parties, contributed);
    lemma_combined_inside(n, b, parties, contributed);
}

/// The exclusive or is taken bit by bit and undone by itself.
pub proof fn law_xor_is_bitwise(a: Seq<u8>, b: Seq<u8>)
    ensures
        xor(a, b).len() == a.len(),
        forall|i: int|
            0 <= i < a.len() && i < b.len() ==> #[trigger] xor(a, b)[i] == a[i] ^ b[i],
        forall|i: int| b.len() <= i < a.len() ==> #[trigger] xor(a, b)[i] == a[i],
        xor(xor(a, b), b) == a,
{
    let twice = xor(xor(a, b), b);
    assert forall|i: int| 0 <= i < a.len() implies #[trigger] twice[i] == a[i] by {
        if i < b.len() {
            let (x, y) = (a[i], b[i]);
            assert((x ^ y) ^ y == x) by (bit_vector);
        }
    }
    assert(twice =~= a);
}

/// The collective randomness takes in the contribution of every party but the participant
/// itself, and starts from the participant's own.
pub proof fn law_every_contribution_is_taken_in(
    own: Seq<u8>,
    me: u16,
    parties: Seq<u16>,
    contributions: spec_fn(u16) -> Seq<u8>,
)
    ensures
        combined(own, me, parties, contributions) == parties.filter(|p: u16| p != me).fold_left(
            own,
            |acc: Seq<u8>, p: u16| xor(acc, contributions(p)),
        ),
    decreases parties.len(),
{
    reveal(Seq::filter);
    if parties.len() > 0 {
        let (before, last) = (parties.drop_last(), parties.last());
        law_every_contribution_is_taken_in(own, me, before, contributions);
        let others = before.filter(|p: u16| p != me);
        assert(others.push(last).drop_last() =~= others);
    }
}

/// Every contribution counts: where one party other than the participant contributes something
/// else, and is listed once, the result differs by exactly the difference of its contributions.
pub proof fn law_every_contribution_counts(
    n: nat,
    own: Seq<u8>,
    me: u16,
    parties: Seq<u16>,
    at: int,
    one: spec_fn(u16) -> Seq<u8>,
    other: spec_fn(u16) -> Seq<u8>,
)
    requires
        own.len() == n,
        contribute(n, parties, one),
        contribute(n, parties, other),
        parties.no_duplicates(),
        0 <= at < parties.len(),
        parties[at] != me,
        forall|k: int|
            0 <= k < parties.len() && k != at ==> one(#[trigger] parties[k]) == other(parties[k]),
    ensures
        xor(combined(own, me, parties, one), combined(own, me, parties, other)) == xor(
            one(parties[at]),
            other(parties[at]),
        ),
    decreases parties.len(),
{
    let (before, last) = (parties.drop_last(), parties.last());
    assert(parties[parties.len() - 1] == last);
    assert forall|k: int| 0 <= k < before.len() implies before[k] == parties[k] by {}
    assert forall|k: int| 0 <= k < before.len() implies one(#[trigger] before[k]).len() == n
        && other(before[k]).len() == n by {
        assert(parties[k] == before[k]);
    }
    assert(contribute(n, before, one) && contribute(n, before, other));
    lemma_combined_len(own, me, before, one);
    lemma_combined_len(own, me, before, other);
    let (a, b) = (combined(own, me, before, one), combined(own, me, before, other));
    let (c, d) = (one(last), other(last));
    if at == parties.len() - 1 {
        assert forall|k: int| 0 <= k < before.len() && #[trigger] before[k] != me implies one(
            before[k],
        ) == other(before[k]) by {
            assert(parties[k] == before[k]);
        }
        lemma_combined_agree(own, me, before, one, other);
        assert forall|i: int| 0 <= i < n implies #[trigger] xor(xor(a, c), xor(a, d))[i] == xor(
            c,
            d,
        )[i] by {
            let (x, y, z) = (a[i], c[i], d[i]);
            assert((x ^ y) ^ (x ^ z) == y ^ z) by (bit_vector);
        }
        assert(xor(xor(a, c), xor(a, d)) =~= xor(c, d));
    } else {
        assert(before[at] == parties[at]);
        assert(before.no_duplicates());
        assert forall|k: int| 0 <= k < before.len() && k != at implies one(#[trigger] before[k])
            == other(before[k]) by {
            assert(parties[k] == before[k]);
        }
        law_every_contribution_counts(n, own, me, before, at, one, other);
        assert(c == d);
        if last != me {
            assert forall|i: int| 0 <= i < n implies #[trigger] xor(xor(a, c), xor(b, c))[i]
                == xor(a, b)[i] by {
                let (x, y, z) = (a[i], b[i], c[i]);
                assert((x ^ z) ^ (y ^ z) == x ^ y) by (bit_vector);
            }
            assert(xor(xor(a, c), xor(b, c)) =~= xor(a, b));
        }
    }
}

proof fn lemma_combined_len(
    own: Seq<u8>,
    me: u16,
    parties: Seq<u16>,
    contributions: spec_fn(u16) -> Seq<u8>,
)
    ensures
        combined(own, me, parties, contributions).len() == own.len(),
    decreases parties.len(),
{
    if parties.len() > 0 {
        lemma_combined_len(own, me, parties.drop_last(), contributions);
    }
}

} // verus!
