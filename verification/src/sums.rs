//! Sums over what the dealers sent: the new public key, the public shares and the new share.
use crate::algebra::{
    congruent, eval, lemma_congruent_add, lemma_congruent_mod, lemma_sum_over_empty,
    lemma_sum_over_insert, sum_over,
};
use crate::messages::{MsgFeldmanCommitment, MsgShareDistribution};
use crate::order::lists;
use crate::polynomial::{
    evaluate_commitment, share_coordinate, verify_share_against_commitment,
};
use crate::seqs::{all_ok, first_failing, lemma_take_contains};
use crate::suite::{logs, Group, Point, Scalar, Suite};
use std::collections::HashMap;
use vstd::arithmetic::div_mod::lemma_small_mod;
use vstd::prelude::*;

verus! {

broadcast use vstd::std_specs::hash::group_hash_axioms;

/// The discrete logarithm of the constant term that each dealer committed to.
pub open spec fn constant_terms<S: Group>(
    commitments: Map<u16, MsgFeldmanCommitment<S>>,
) -> spec_fn(u16) -> int {
    |d: u16| commitments[d].commitment@[0].log()
}

/// The value at `x` of the polynomial that each dealer committed to.
pub open spec fn committed_values<S: Group>(
    commitments: Map<u16, MsgFeldmanCommitment<S>>,
    x: int,
) -> spec_fn(u16) -> int {
    |d: u16| eval(logs(commitments[d].commitment@), x)
}

/// The share that each dealer sent.
pub open spec fn dealt_values<S: Group>(
    shares: Map<u16, MsgShareDistribution<S>>,
) -> spec_fn(u16) -> int {
    |d: u16| shares[d].share.val()
}

/// The discrete logarithm of the public key that the commitments add up to.
pub open spec fn committed_key<S: Group>(commitments: Map<u16, MsgFeldmanCommitment<S>>) -> int {
    sum_over(commitments.dom(), constant_terms(commitments)) % S::order()
}

/// The discrete logarithm of the public share of party `j` under the commitments.
pub open spec fn committed_share<S: Group>(
    commitments: Map<u16, MsgFeldmanCommitment<S>>,
    j: u16,
) -> int {
    sum_over(commitments.dom(), committed_values(commitments, j + 1)) % S::order()
}

/// The new share: the sum of the shares that the dealers sent.
pub open spec fn dealt_share<S: Group>(shares: Map<u16, MsgShareDistribution<S>>) -> int {
    sum_over(shares.dom(), dealt_values(shares)) % S::order()
}

/// The dealer committed to a polynomial, and the share that it sent to `me` lies on it.
pub open spec fn share_verifies<S: Group>(
    commitments: Map<u16, MsgFeldmanCommitment<S>>,
    shares: Map<u16, MsgShareDistribution<S>>,
    me: u16,
    dealer: u16,
) -> bool {
    &&& commitments.contains_key(dealer)
    &&& shares[dealer].share.val() == eval(logs(commitments[dealer].commitment@), me + 1)
        % S::order()
}

/// Under the commitments every one of the parties has a public share that is not zero.
pub open spec fn nonzero_check<S: Group>(
    commitments: Map<u16, MsgFeldmanCommitment<S>>,
) -> spec_fn(u16) -> bool {
    |party: u16| committed_share(commitments, party) != 0
}

/// The check of the shares that `me` received, dealer by dealer.
pub open spec fn share_check<S: Group>(
    commitments: Map<u16, MsgFeldmanCommitment<S>>,
    shares: Map<u16, MsgShareDistribution<S>>,
    me: u16,
) -> spec_fn(u16) -> bool {
    |d: u16| share_verifies(commitments, shares, me, d)
}

/// The check that a dealer committed to a polynomial with a constant term.
pub open spec fn constant_term_check<S: Group>(
    commitments: Map<u16, MsgFeldmanCommitment<S>>,
) -> spec_fn(u16) -> bool {
    |d: u16| commitments[d].commitment@.len() > 0
}

/// Every commitment has a constant term.
pub open spec fn have_constant_terms<S: Group>(
    commitments: Map<u16, MsgFeldmanCommitment<S>>,
) -> bool {
    forall|d: u16| #[trigger]
        commitments.dom().contains(d) ==> constant_term_check(commitments)(d)
}

/// Adding the term of one more key to a sum that is kept reduced.
proof fn lemma_add_key(
    keys: Seq<u16>,
    k: int,
    f: spec_fn(u16) -> int,
    acc: int,
    term: int,
    next: int,
    q: int,
)
    requires
        q > 0,
        keys.no_duplicates(),
        0 <= k < keys.len(),
        acc == sum_over(keys.take(k).to_set(), f) % q,
        congruent(term, f(keys[k]), q),
        next == (acc + term) % q,
    ensures
        next == sum_over(keys.take(k + 1).to_set(), f) % q,
{
    let before = keys.take(k).to_set();
    let total = sum_over(before, f);
    lemma_take_contains(keys, k);
    assert(!before.contains(keys[k])) by {
        if keys.take(k).contains(keys[k]) {
            let i = choose|i: int| 0 <= i < k && keys.take(k)[i] == keys[k];
            assert(keys[i] == keys[k]);
        }
    }
    lemma_sum_over_insert(before, f, keys[k]);
    lemma_congruent_mod(total, q);
    lemma_congruent_add(acc, total, term, f(keys[k]), q);
}

proof fn lemma_no_keys(keys: Seq<u16>, f: spec_fn(u16) -> int, q: int)
    requires
        q > 0,
    ensures
        sum_over(keys.take(0).to_set(), f) % q == 0,
{
    assert(keys.take(0).to_set() =~= Set::empty());
    lemma_sum_over_empty(f);
    lemma_small_mod(0, q as nat);
}

/// A listed key is in the map.
proof fn lemma_listed<V>(keys: Seq<u16>, map: Map<u16, V>, k: int)
    requires
        lists(keys, map.dom()),
        0 <= k < keys.len(),
    ensures
        map.contains_key(keys[k]),
{
    assert(keys.to_set().contains(keys[k]));
}

/// The public key that the commitments add up to.
pub fn add_constant_terms<S: Suite>(
    commitments: &HashMap<u16, MsgFeldmanCommitment<S>>,
    keys: &Vec<u16>,
) -> (res: Point<S>)
    requires
        lists(keys@, commitments@.dom()),
        have_constant_terms(commitments@),
    ensures
        res.log() == committed_key(commitments@),
{
    let mut key = S::point_zero();
    let mut k: usize = 0;
    let ghost f = constant_terms(commitments@);
    proof {
        S::lemma_order();
        lemma_no_keys(keys@, f, S::order());
    }
    while k < keys.len()
        invariant
            k <= keys@.len(),
            lists(keys@, commitments@.dom()),
            have_constant_terms(commitments@),
            f == constant_terms(commitments@),
            S::order() > 0,
            key.log() == sum_over(keys@.take(k as int).to_set(), f) % S::order(),
        decreases keys@.len() - k,
    {
        proof {
            lemma_listed(keys@, commitments@, k as int);
        }
        if let Some(c) = commitments.get(&keys[k]) {
            let next = S::point_add(&key, &c.commitment[0]);
            proof {
                let term = c.commitment@[0].log();
                lemma_add_key(keys@, k as int, f, key.log(), term, next.log(), S::order());
            }
            key = next;
        }
        k = k + 1;
    }
    assert(keys@.take(k as int) =~= keys@);
    key
}

/// The public share of party `j` under the commitments.
fn add_committed_values<S: Suite>(
    commitments: &HashMap<u16, MsgFeldmanCommitment<S>>,
    keys: &Vec<u16>,
    j: u16,
) -> (res: Point<S>)
    requires
        lists(keys@, commitments@.dom()),
    ensures
        res.log() == committed_share(commitments@, j),
{
    let x = share_coordinate(j);
    let mut public_share = S::point_zero();
    let mut k: usize = 0;
    let ghost f = committed_values(commitments@, j + 1);
    proof {
        S::lemma_order();
        lemma_no_keys(keys@, f, S::order());
    }
    while k < keys.len()
        invariant
            k <= keys@.len(),
            lists(keys@, commitments@.dom()),
            f == committed_values(commitments@, j + 1),
            x.val() == j + 1,
            S::order() > 0,
            public_share.log() == sum_over(keys@.take(k as int).to_set(), f) % S::order(),
        decreases keys@.len() - k,
    {
        proof {
            lemma_listed(keys@, commitments@, k as int);
        }
        if let Some(c) = commitments.get(&keys[k]) {
            let contribution = evaluate_commitment(&c.commitment, &x);
            let next = S::point_add(&public_share, &contribution);
            proof {
                let term = contribution.log();
                lemma_congruent_mod(f(keys@[k as int]), S::order());
                lemma_add_key(keys@, k as int, f, public_share.log(), term, next.log(), S::order());
            }
            public_share = next;
        }
        k = k + 1;
    }
    assert(keys@.take(k as int) =~= keys@);
    public_share
}

/// The public shares of `parties` under the commitments, unless one of them is zero.
pub fn add_public_shares<S: Suite>(
    commitments: &HashMap<u16, MsgFeldmanCommitment<S>>,
    keys: &Vec<u16>,
    parties: &Vec<u16>,
) -> (res: Option<Vec<Point<S>>>)
    requires
        lists(keys@, commitments@.dom()),
    ensures
        match res {
            Some(public_shares) => {
                &&& all_ok(parties@, nonzero_check(commitments@))
                &&& public_shares@.len() == parties@.len()
                &&& forall|k: int|
                    0 <= k < parties@.len() ==> (#[trigger] public_shares@[k]).log()
                        == committed_share(commitments@, parties@[k])
            },
            None => !all_ok(parties@, nonzero_check(commitments@)),
        },
{
    let ghost ok = nonzero_check(commitments@);
    let mut public_shares: Vec<Point<S>> = Vec::new();
    let mut k: usize = 0;
    while k < parties.len()
        invariant
            k <= parties@.len(),
            lists(keys@, commitments@.dom()),
            ok == nonzero_check(commitments@),
            public_shares@.len() == k,
            forall|j: int|
                0 <= j < k ==> (#[trigger] public_shares@[j]).log() == committed_share(
                    commitments@,
                    parties@[j],
                ),
            forall|j: int| 0 <= j < k ==> ok(#[trigger] parties@[j]),
        decreases parties@.len() - k,
    {
        let public_share = add_committed_values(commitments, keys, parties[k]);
        if !S::point_is_nonzero(&public_share) {
            assert(!ok(parties@[k as int]));
            return None;
        }
        public_shares.push(public_share);
        k = k + 1;
    }
    Some(public_shares)
}

/// The sum of the shares that the dealers sent.
pub fn add_dealt_values<S: Suite>(
    shares: &HashMap<u16, MsgShareDistribution<S>>,
    keys: &Vec<u16>,
) -> (res: Scalar<S>)
    requires
        lists(keys@, shares@.dom()),
    ensures
        res.val() == dealt_share(shares@),
{
    let mut share = S::scalar_from(0);
    let mut k: usize = 0;
    let ghost f = dealt_values(shares@);
    proof {
        S::lemma_order();
        lemma_no_keys(keys@, f, S::order());
    }
    while k < keys.len()
        invariant
            k <= keys@.len(),
            lists(keys@, shares@.dom()),
            f == dealt_values(shares@),
            S::order() > 0,
            share.val() == sum_over(keys@.take(k as int).to_set(), f) % S::order(),
        decreases keys@.len() - k,
    {
        proof {
            lemma_listed(keys@, shares@, k as int);
        }
        if let Some(m) = shares.get(&keys[k]) {
            let next = S::scalar_add(&share, &m.share);
            proof {
                let term = m.share.val();
                lemma_add_key(keys@, k as int, f, share.val(), term, next.val(), S::order());
            }
            share = next;
        }
        k = k + 1;
    }
    assert(keys@.take(k as int) =~= keys@);
    share
}

/// The first dealer, in the order of `keys`, whose commitment is empty.
pub fn find_empty_commitment<S: Suite>(
    commitments: &HashMap<u16, MsgFeldmanCommitment<S>>,
    keys: &Vec<u16>,
) -> (res: Option<u16>)
    requires
        lists(keys@, commitments@.dom()),
    ensures
        match res {
            Some(d) => exists|k: int| #[trigger]
                first_failing(keys@, constant_term_check(commitments@), k) && d == keys@[k],
            None => all_ok(keys@, constant_term_check(commitments@)),
        },
{
    let ghost ok = constant_term_check(commitments@);
    let mut k: usize = 0;
    while k < keys.len()
        invariant
            k <= keys@.len(),
            lists(keys@, commitments@.dom()),
            ok == constant_term_check(commitments@),
            forall|j: int| 0 <= j < k ==> ok(#[trigger] keys@[j]),
        decreases keys@.len() - k,
    {
        let d: u16 = keys[k];
        proof {
            lemma_listed(keys@, commitments@, k as int);
        }
        if let Some(c) = commitments.get(&d) {
            if c.commitment.len() == 0 {
                assert(first_failing(keys@, ok, k as int));
                return Some(d);
            }
        }
        k = k + 1;
    }
    None
}

/// The first dealer, in the order of `keys`, whose share is not the one that it committed to.
pub fn find_bad_share<S: Suite>(
    commitments: &HashMap<u16, MsgFeldmanCommitment<S>>,
    shares: &HashMap<u16, MsgShareDistribution<S>>,
    keys: &Vec<u16>,
    me: u16,
) -> (res: Option<u16>)
    requires
        lists(keys@, shares@.dom()),
    ensures
        match res {
            Some(d) => exists|k: int| #[trigger]
                first_failing(keys@, share_check(commitments@, shares@, me), k) && d == keys@[k],
            None => all_ok(keys@, share_check(commitments@, shares@, me)),
        },
{
    let ghost ok = share_check(commitments@, shares@, me);
    let mut k: usize = 0;
    while k < keys.len()
        invariant
            k <= keys@.len(),
                lists(keys@, shares@.dom()),
            ok == share_check(commitments@, shares@, me),
            forall|j: int| 0 <= j < k ==> ok(#[trigger] keys@[j]),
        decreases keys@.len() - k,
    {
        let d: u16 = keys[k];
        proof {
            lemma_listed(keys@, shares@, k as int);
        }
        let good: bool = match (shares.get(&d), commitments.get(&d)) {
            (Some(m), Some(c)) => verify_share_against_commitment(&m.share, &c.commitment, me),
            _ => false,
        };
        if !good {
            assert(first_failing(keys@, ok, k as int));
            return Some(d);
        }
        k = k + 1;
    }
    None
}

} // verus!
