//! The polynomials that shares are points of, and the commitments to them.
use crate::algebra::{congruent, eval, lemma_congruent_add, lemma_congruent_mod, lemma_congruent_mul};
use crate::suite::{logs, vals, Group, Point, Scalar, Suite};
use vstd::arithmetic::div_mod::lemma_small_mod;
use vstd::prelude::*;

verus! {

/// A polynomial over the scalars, with the secret as its constant term.
pub struct Polynomial<S: Group> {
    coefficients: Vec<Scalar<S>>,
}

/// One step of a term-by-term evaluation: the term of the next coefficient moves from what
/// is still to be added to what has been added.
proof fn lemma_eval_step(acc: int, pow: int, x: int, rest: Seq<int>, acc2: int, pow2: int, q: int)
    requires
        q > 0,
        rest.len() > 0,
        congruent(acc2, acc + pow * rest[0], q),
        congruent(pow2, pow * x, q),
    ensures
        congruent(
            acc2 + pow2 * eval(rest.drop_first(), x),
            acc + pow * eval(rest, x),
            q,
        ),
{
    let (c, t) = (rest[0], eval(rest.drop_first(), x));
    lemma_congruent_mul(pow2, pow * x, t, t, q);
    lemma_congruent_add(acc2, acc + pow * c, pow2 * t, (pow * x) * t, q);
    assert(pow * (c + x * t) == pow * c + (pow * x) * t) by (nonlinear_arith);
}

impl<S: Suite> Polynomial<S> {
    /// The coefficients, that of the lowest power first.
    pub closed spec fn coefs(self) -> Seq<int> {
        vals(self.coefficients@)
    }

    /// The polynomial with `secret` as its constant term and the randomly drawn scalars as its
    /// other coefficients. Its degree is at most the number of these.
    pub fn new_with_secret(secret: &Scalar<S>, random: Vec<Scalar<S>>) -> (res: Self)
        ensures
            res.coefs() == seq![secret.val()] + vals(random@),
    {
        let mut coefficients: Vec<Scalar<S>> = random;
        coefficients.insert(0, secret.clone());
        let res = Polynomial { coefficients };
        assert(res.coefs() =~= seq![secret.val()] + vals(random@));
        res
    }

    /// The value of the polynomial at `x`.
    pub fn evaluate(&self, x: &Scalar<S>) -> (res: Scalar<S>)
        ensures
            res.val() == eval(self.coefs(), x.val()) % S::order(),
    {
        let mut result = S::scalar_from(0);
        let mut x_power = S::scalar_from(1);
        let mut i: usize = 0;
        let ghost q = S::order();
        proof {
            S::lemma_order();
            assert(self.coefs().skip(0) =~= self.coefs());
            assert(1 * eval(self.coefs(), x.val()) == eval(self.coefs(), x.val()));
        }
        while i < self.coefficients.len()
            invariant
                i <= self.coefficients@.len(),
                q == S::order(),
                q > 1,
                self.coefs().len() == self.coefficients@.len(),
                0 <= result.val() < q,
                congruent(
                    result.val() + x_power.val() * eval(self.coefs().skip(i as int), x.val()),
                    eval(self.coefs(), x.val()),
                    q,
                ),
            decreases self.coefficients@.len() - i,
        {
            let term = S::scalar_mul(&x_power, &self.coefficients[i]);
            let next = S::scalar_add(&result, &term);
            let power = S::scalar_mul(&x_power, x);
            proof {
                let c = self.coefficients@[i as int].val();
                let rest = self.coefs().skip(i as int);
                assert(rest[0] == c);
                assert(rest.drop_first() =~= self.coefs().skip(i + 1));
                lemma_congruent_mod(x_power.val() * c, q);
                lemma_congruent_add(
                    result.val(),
                    result.val(),
                    term.val(),
                    x_power.val() * c,
                    q,
                );
                lemma_congruent_mod(result.val() + term.val(), q);
                lemma_congruent_mod(x_power.val() * x.val(), q);
                lemma_eval_step(
                    result.val(),
                    x_power.val(),
                    x.val(),
                    rest,
                    next.val(),
                    power.val(),
                    q,
                );
            }
            result = next;
            x_power = power;
            i = i + 1;
        }
        proof {
            assert(self.coefs().skip(i as int).len() == 0);
            assert(x_power.val() * 0 == 0) by (nonlinear_arith);
            lemma_small_mod(result.val() as nat, q as nat);
        }
        result
    }

    /// The Feldman commitment to the polynomial: the generator times each coefficient.
    pub fn feldman_commit(&self) -> (res: Vec<Point<S>>)
        ensures
            logs(res@) == self.coefs(),
    {
        let mut res: Vec<Point<S>> = Vec::new();
        let mut i: usize = 0;
        while i < self.coefficients.len()
            invariant
                i <= self.coefficients@.len(),
                res@.len() == i,
                forall|j: int|
                    0 <= j < i ==> (#[trigger] res@[j]).log() == self.coefficients@[j].val(),
            decreases self.coefficients@.len() - i,
        {
            res.push(S::generator_mul(&self.coefficients[i]));
            i = i + 1;
        }
        assert(logs(res@) =~= self.coefs());
        res
    }
}

/// The commitment to the value at `x` of the polynomial that `commitment` commits to.
pub fn evaluate_commitment<S: Suite>(commitment: &Vec<Point<S>>, x: &Scalar<S>) -> (res: Point<S>)
    ensures
        res.log() == eval(logs(commitment@), x.val()) % S::order(),
{
    let mut result = S::point_zero();
    let mut x_power = S::scalar_from(1);
    let mut i: usize = 0;
    let ghost q = S::order();
    let ghost c = logs(commitment@);
    proof {
        S::lemma_order();
        assert(c.skip(0) =~= c);
        assert(1 * eval(c, x.val()) == eval(c, x.val()));
    }
    while i < commitment.len()
        invariant
            i <= commitment@.len(),
            q == S::order(),
            q > 1,
            c == logs(commitment@),
            0 <= result.log() < q,
            congruent(
                result.log() + x_power.val() * eval(c.skip(i as int), x.val()),
                eval(c, x.val()),
                q,
            ),
        decreases commitment@.len() - i,
    {
        let term = S::point_mul(&commitment[i], &x_power);
        let next = S::point_add(&result, &term);
        let power = S::scalar_mul(&x_power, x);
        proof {
            let (p, l) = (x_power.val(), commitment@[i as int].log());
            let rest = c.skip(i as int);
            assert(rest[0] == l);
            assert(rest.drop_first() =~= c.skip(i + 1));
            assert(l * p == p * l) by (nonlinear_arith);
            lemma_congruent_mod(l * p, q);
            lemma_congruent_add(result.log(), result.log(), term.log(), p * l, q);
            lemma_congruent_mod(result.log() + term.log(), q);
            lemma_congruent_mod(p * x.val(), q);
            lemma_eval_step(result.log(), p, x.val(), rest, next.log(), power.val(), q);
        }
        result = next;
        x_power = power;
        i = i + 1;
    }
    proof {
        assert(c.skip(i as int).len() == 0);
        assert(x_power.val() * 0 == 0) by (nonlinear_arith);
        lemma_small_mod(result.log() as nat, q as nat);
    }
    result
}

/// The coordinate at which the party with this index has its share: the index plus one, which
/// need not fit an index again.
pub fn share_coordinate<S: Suite>(index: u16) -> (res: Scalar<S>)
    ensures
        res.val() == index + 1,
{
    proof {
        S::lemma_order();
        lemma_small_mod((index + 1) as nat, S::order() as nat);
    }
    S::scalar_add(&S::scalar_from(index), &S::scalar_from(1))
}

/// Whether `share` is the value that `commitment` commits its dealer to for this receiver.
pub fn verify_share_against_commitment<S: Suite>(
    share: &Scalar<S>,
    commitment: &Vec<Point<S>>,
    receiver_index: u16,
) -> (res: bool)
    ensures
        res == (share.val() == eval(logs(commitment@), receiver_index + 1) % S::order()),
{
    let x = share_coordinate(receiver_index);
    let expected = evaluate_commitment(commitment, &x);
    S::point_eq(&S::generator_mul(share), &expected)
}

} // verus!
