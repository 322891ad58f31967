//! Arithmetic of polynomials and finite sums over the integers, read modulo the group order.
//!
//! Values are plain integers: a polynomial is evaluated without any reduction, and the
//! contracts of the executable code take the result modulo the order once, at the end.
use vstd::arithmetic::div_mod::*;
use vstd::arithmetic::mul::*;
use vstd::arithmetic::power::{lemma_pow0, pow};
use vstd::prelude::*;

verus! {

/// The sum of the elements of `s`.
pub open spec fn sum(s: Seq<int>) -> int
    decreases s.len(),
{
    if s.len() == 0 {
        0
    } else {
        sum(s.drop_last()) + s.last()
    }
}

/// The product of the elements of `s`.
pub open spec fn prod(s: Seq<int>) -> int
    decreases s.len(),
{
    if s.len() == 0 {
        1
    } else {
        prod(s.drop_last()) * s.last()
    }
}

/// The inner product of the first `b.len()` elements of `a` with those of `b`.
pub open spec fn dot(a: Seq<int>, b: Seq<int>) -> int
    decreases b.len(),
{
    if b.len() == 0 {
        0
    } else {
        dot(a, b.drop_last()) + a[b.len() - 1] * b.last()
    }
}

/// The value at `x` of the polynomial whose coefficient of `x^i` is `coefs[i]`.
pub open spec fn eval(coefs: Seq<int>, x: int) -> int
    decreases coefs.len(),
{
    if coefs.len() == 0 {
        0
    } else {
        coefs[0] + x * eval(coefs.drop_first(), x)
    }
}

/// The values at each of `xs` of the polynomial with coefficients `coefs`.
pub open spec fn evals(coefs: Seq<int>, xs: Seq<int>) -> Seq<int> {
    Seq::new(xs.len(), |j: int| eval(coefs, xs[j]))
}

/// The sum of `f` over those of `keys` that are below `n`.
pub open spec fn sum_below(keys: Set<u16>, f: spec_fn(u16) -> int, n: int) -> int
    decreases n,
{
    if n <= 0 {
        0
    } else {
        sum_below(keys, f, n - 1) + if keys.contains((n - 1) as u16) {
            f((n - 1) as u16)
        } else {
            0
        }
    }
}

/// The sum of `f` over `keys`.
pub open spec fn sum_over(keys: Set<u16>, f: spec_fn(u16) -> int) -> int {
    sum_below(keys, f, 0x1_0000)
}

/// `a` and `b` leave the same remainder modulo `q`.
pub open spec fn congruent(a: int, b: int, q: int) -> bool {
    a % q == b % q
}

/// `e` is a multiplicative inverse of `a` modulo `q`.
pub open spec fn is_inverse(a: int, e: int, q: int) -> bool {
    congruent(a * e, 1, q)
}

pub proof fn lemma_congruent_add(a: int, b: int, c: int, d: int, q: int)
    requires
        q > 0,
        congruent(a, b, q),
        congruent(c, d, q),
    ensures
        congruent(a + c, b + d, q),
        congruent(a - c, b - d, q),
{
    lemma_add_mod_noop(a, c, q);
    lemma_add_mod_noop(b, d, q);
    lemma_sub_mod_noop(a, c, q);
    lemma_sub_mod_noop(b, d, q);
}

pub proof fn lemma_congruent_mul(a: int, b: int, c: int, d: int, q: int)
    requires
        q > 0,
        congruent(a, b, q),
        congruent(c, d, q),
    ensures
        congruent(a * c, b * d, q),
{
    lemma_mul_mod_noop_general(a, c, q);
    lemma_mul_mod_noop_general(b, d, q);
}

pub proof fn lemma_congruent_mod(a: int, q: int)
    requires
        q > 0,
    ensures
        congruent(a % q, a, q),
{
    lemma_mod_twice(a, q);
}

/// A factor with an inverse can be cancelled.
pub proof fn lemma_congruent_cancel(u: int, e: int, a: int, b: int, q: int)
    requires
        q > 0,
        is_inverse(u, e, q),
        congruent(u * a, u * b, q),
    ensures
        congruent(a, b, q),
{
    lemma_congruent_mul(u * a, u * b, e, e, q);
    lemma_congruent_mul(u * e, 1, a, a, q);
    lemma_congruent_mul(u * e, 1, b, b, q);
    assert((u * a) * e == (u * e) * a) by (nonlinear_arith);
    assert((u * b) * e == (u * e) * b) by (nonlinear_arith);
}

pub proof fn lemma_prod_remove(s: Seq<int>, i: int)
    requires
        0 <= i < s.len(),
    ensures
        prod(s) == s[i] * prod(s.remove(i)),
    decreases s.len(),
{
    let t = s.remove(i);
    if i == s.len() - 1 {
        assert(t =~= s.drop_last());
        assert(prod(t) * s.last() == s[i] * prod(t)) by (nonlinear_arith)
            requires
                s[i] == s.last(),
        ;
    } else {
        lemma_prod_remove(s.drop_last(), i);
        assert(t.drop_last() =~= s.drop_last().remove(i));
        assert(t.last() == s.last());
        let p = prod(t.drop_last());
        let (a, b) = (s[i], s.last());
        assert((a * p) * b == a * (p * b)) by (nonlinear_arith);
    }
}

pub proof fn lemma_dot_remove(a: Seq<int>, b: Seq<int>, i: int)
    requires
        0 <= i < b.len(),
        a.len() == b.len(),
    ensures
        dot(a, b) == a[i] * b[i] + dot(a.remove(i), b.remove(i)),
    decreases b.len(),
{
    let (c, d) = (a.remove(i), b.remove(i));
    lemma_dot_prefix(a, b.drop_last());
    if i == b.len() - 1 {
        assert(d =~= b.drop_last());
        assert(c =~= a.drop_last());
    } else {
        lemma_dot_remove(a.drop_last(), b.drop_last(), i);
        assert(d.drop_last() =~= b.drop_last().remove(i));
        assert(c.drop_last() =~= a.drop_last().remove(i));
        lemma_dot_prefix(c, d.drop_last());
        assert(d.last() == b.last());
        assert(c[d.len() - 1] == a[b.len() - 1]);
    }
}

pub proof fn lemma_dot_prefix(a: Seq<int>, b: Seq<int>)
    requires
        a.len() == b.len() + 1,
    ensures
        dot(a, b) == dot(a.drop_last(), b),
{
    lemma_dot_agree(a, a.drop_last(), b);
}

pub proof fn lemma_dot_agree(a: Seq<int>, c: Seq<int>, b: Seq<int>)
    requires
        a.len() >= b.len(),
        c.len() >= b.len(),
        forall|j: int| 0 <= j < b.len() ==> a[j] == c[j],
    ensures
        dot(a, b) == dot(c, b),
    decreases b.len(),
{
    if b.len() > 0 {
        lemma_dot_agree(a, c, b.drop_last());
    }
}

/// If every term on the left is `x` times the matching term on the right, modulo `q`, so is
/// the inner product.
pub proof fn lemma_dot_scaled(a: Seq<int>, b: Seq<int>, c: Seq<int>, d: Seq<int>, x: int, q: int)
    requires
        q > 0,
        a.len() == b.len(),
        c.len() == b.len(),
        d.len() == b.len(),
        forall|j: int| 0 <= j < b.len() ==> congruent(#[trigger] a[j] * b[j], x * (c[j] * d[j]), q),
    ensures
        congruent(dot(a, b), x * dot(c, d), q),
    decreases b.len(),
{
    if b.len() > 0 {
        let n = b.len() - 1;
        lemma_dot_prefix(a, b.drop_last());
        lemma_dot_prefix(c, d.drop_last());
        assert forall|j: int| 0 <= j < n implies congruent(
            #[trigger] a.drop_last()[j] * b.drop_last()[j],
            x * (c.drop_last()[j] * d.drop_last()[j]),
            q,
        ) by {
            assert(a.drop_last()[j] == a[j]);
        }
        lemma_dot_scaled(a.drop_last(), b.drop_last(), c.drop_last(), d.drop_last(), x, q);
        let (p, r) = (dot(a, b.drop_last()), dot(c, d.drop_last()));
        assert(congruent(a[n] * b[n], x * (c[n] * d[n]), q));
        lemma_congruent_add(p, x * r, a[n] * b[n], x * (c[n] * d[n]), q);
        let t = c[n] * d[n];
        assert(x * (r + t) == x * r + x * t) by (nonlinear_arith);
    } else {
        assert(x * dot(c, d) == 0) by (nonlinear_arith)
            requires
                dot(c, d) == 0,
        ;
    }
}

/// The inner product is linear in its second argument.
pub proof fn lemma_dot_linear(a: Seq<int>, b: Seq<int>, c: Seq<int>, d: Seq<int>, x: int, y: int)
    requires
        a.len() >= b.len(),
        c.len() == b.len(),
        d.len() == b.len(),
        forall|j: int| 0 <= j < b.len() ==> #[trigger] b[j] == x * c[j] + y * d[j],
    ensures
        dot(a, b) == x * dot(a, c) + y * dot(a, d),
    decreases b.len(),
{
    if b.len() > 0 {
        let n = b.len() - 1;
        lemma_dot_linear(a, b.drop_last(), c.drop_last(), d.drop_last(), x, y);
        assert(b[n] == x * c[n] + y * d[n]);
        let (p, r) = (dot(a, c.drop_last()), dot(a, d.drop_last()));
        let (u, v, w) = (a[n], c[n], d[n]);
        lemma_mul_is_distributive_add(u, x * v, y * w);
        lemma_mul_is_distributive_add(x, p, u * v);
        lemma_mul_is_distributive_add(y, r, u * w);
        assert(u * (x * v) == x * (u * v)) by (nonlinear_arith);
        assert(u * (y * w) == y * (u * w)) by (nonlinear_arith);
    } else {
        assert(x * dot(a, c) + y * dot(a, d) == 0) by (nonlinear_arith)
            requires
                dot(a, c) == 0,
                dot(a, d) == 0,
        ;
    }
}

pub proof fn lemma_dot_zero(a: Seq<int>, b: Seq<int>)
    requires
        a.len() >= b.len(),
        forall|j: int| 0 <= j < b.len() ==> b[j] == 0,
    ensures
        dot(a, b) == 0,
    decreases b.len(),
{
    if b.len() > 0 {
        lemma_dot_zero(a, b.drop_last());
        assert(a[b.len() - 1] * b.last() == 0) by (nonlinear_arith)
            requires
                b.last() == 0,
        ;
    }
}

proof fn lemma_sum_below_insert(keys: Set<u16>, f: spec_fn(u16) -> int, k: u16, n: int)
    requires
        0 <= n <= 0x1_0000,
        !keys.contains(k),
    ensures
        sum_below(keys.insert(k), f, n) == sum_below(keys, f, n) + if k < n {
            f(k)
        } else {
            0
        },
    decreases n,
{
    if n > 0 {
        lemma_sum_below_insert(keys, f, k, n - 1);
    }
}

/// One more key adds one more term.
pub proof fn lemma_sum_over_insert(keys: Set<u16>, f: spec_fn(u16) -> int, k: u16)
    requires
        !keys.contains(k),
    ensures
        sum_over(keys.insert(k), f) == sum_over(keys, f) + f(k),
{
    lemma_sum_below_insert(keys, f, k, 0x1_0000);
}

proof fn lemma_sum_below_empty(f: spec_fn(u16) -> int, n: int)
    ensures
        sum_below(Set::empty(), f, n) == 0,
    decreases n,
{
    if n > 0 {
        lemma_sum_below_empty(f, n - 1);
    }
}

pub proof fn lemma_sum_over_empty(f: spec_fn(u16) -> int)
    ensures
        sum_over(Set::empty(), f) == 0,
{
    lemma_sum_below_empty(f, 0x1_0000);
}

proof fn lemma_sum_below_congruent(
    keys: Set<u16>,
    f: spec_fn(u16) -> int,
    g: spec_fn(u16) -> int,
    q: int,
    n: int,
)
    requires
        q > 0,
        n <= 0x1_0000,
        forall|k: u16| #[trigger] keys.contains(k) ==> congruent(f(k), g(k), q),
    ensures
        congruent(sum_below(keys, f, n), sum_below(keys, g, n), q),
    decreases n,
{
    if n > 0 {
        lemma_sum_below_congruent(keys, f, g, q, n - 1);
        let k = (n - 1) as u16;
        if keys.contains(k) {
            lemma_congruent_add(
                sum_below(keys, f, n - 1),
                sum_below(keys, g, n - 1),
                f(k),
                g(k),
                q,
            );
        }
    }
}

/// Sums of congruent terms are congruent.
pub proof fn lemma_sum_over_congruent(
    keys: Set<u16>,
    f: spec_fn(u16) -> int,
    g: spec_fn(u16) -> int,
    q: int,
)
    requires
        q > 0,
        forall|k: u16| #[trigger] keys.contains(k) ==> congruent(f(k), g(k), q),
    ensures
        congruent(sum_over(keys, f), sum_over(keys, g), q),
{
    lemma_sum_below_congruent(keys, f, g, q, 0x1_0000);
}

proof fn lemma_sum_below_linear(
    keys: Set<u16>,
    f: spec_fn(u16) -> int,
    g: spec_fn(u16) -> int,
    h: spec_fn(u16) -> int,
    x: int,
    n: int,
)
    requires
        n <= 0x1_0000,
        forall|k: u16| #[trigger] keys.contains(k) ==> f(k) == g(k) + x * h(k),
    ensures
        sum_below(keys, f, n) == sum_below(keys, g, n) + x * sum_below(keys, h, n),
    decreases n,
{
    if n > 0 {
        lemma_sum_below_linear(keys, f, g, h, x, n - 1);
        let k = (n - 1) as u16;
        if keys.contains(k) {
            lemma_mul_is_distributive_add(x, sum_below(keys, h, n - 1), h(k));
        }
    } else {
        assert(x * 0 == 0) by (nonlinear_arith);
    }
}

/// A sum is linear in its terms.
pub proof fn lemma_sum_over_linear(
    keys: Set<u16>,
    f: spec_fn(u16) -> int,
    g: spec_fn(u16) -> int,
    h: spec_fn(u16) -> int,
    x: int,
)
    requires
        forall|k: u16| #[trigger] keys.contains(k) ==> f(k) == g(k) + x * h(k),
    ensures
        sum_over(keys, f) == sum_over(keys, g) + x * sum_over(keys, h),
{
    lemma_sum_below_linear(keys, f, g, h, x, 0x1_0000);
}

/// Sums of equal terms are equal.
pub proof fn lemma_sum_over_agree(keys: Set<u16>, f: spec_fn(u16) -> int, g: spec_fn(u16) -> int)
    requires
        forall|k: u16| #[trigger] keys.contains(k) ==> f(k) == g(k),
    ensures
        sum_over(keys, f) == sum_over(keys, g),
{
    let zero = |k: u16| 0int;
    assert forall|k: u16| #[trigger] keys.contains(k) implies f(k) == g(k) + 0 * zero(k) by {}
    lemma_sum_over_linear(keys, f, g, zero, 0);
    let rest = sum_over(keys, zero);
    assert(0 * rest == 0) by (nonlinear_arith);
}

/// A sum over listed keys is the sum over the list.
pub proof fn lemma_sum_over_listed(keys: Seq<u16>, f: spec_fn(u16) -> int, v: Seq<int>, q: int)
    requires
        q > 0,
        keys.no_duplicates(),
        v.len() == keys.len(),
        forall|k: int| 0 <= k < keys.len() ==> congruent(f(#[trigger] keys[k]), v[k], q),
    ensures
        congruent(sum_over(keys.to_set(), f), sum(v), q),
    decreases keys.len(),
{
    if keys.len() == 0 {
        assert(keys.to_set() =~= Set::empty());
        lemma_sum_over_empty(f);
    } else {
        let (before, last) = (keys.drop_last(), keys.last());
        assert(keys[keys.len() - 1] == last);
        assert forall|k: int| 0 <= k < before.len() implies congruent(
            f(#[trigger] before[k]),
            v.drop_last()[k],
            q,
        ) by {
            assert(keys[k] == before[k]);
        }
        assert(!before.to_set().contains(last)) by {
            if before.contains(last) {
                let k = choose|k: int| 0 <= k < before.len() && before[k] == last;
                assert(keys[k] == keys[keys.len() - 1]);
            }
        }
        assert(keys.to_set() =~= before.to_set().insert(last)) by {
            assert(keys =~= before.push(last));
            assert forall|x: u16| #[trigger] keys.to_set().contains(x) <==> before.to_set().insert(
                last,
            ).contains(x) by {
                if keys.contains(x) {
                    let k = choose|k: int| 0 <= k < keys.len() && keys[k] == x;
                    if k < before.len() {
                        assert(before[k] == x);
                    }
                }
                if before.contains(x) {
                    let k = choose|k: int| 0 <= k < before.len() && before[k] == x;
                    assert(keys[k] == x);
                }
            }
        }
        lemma_sum_over_listed(before, f, v.drop_last(), q);
        lemma_sum_over_insert(before.to_set(), f, last);
        lemma_congruent_add(
            sum_over(before.to_set(), f),
            sum(v.drop_last()),
            f(last),
            v.last(),
            q,
        );
    }
}

/// The inner product is the sum of the products.
pub proof fn lemma_dot_is_sum(a: Seq<int>, b: Seq<int>)
    requires
        a.len() >= b.len(),
    ensures
        sum(Seq::new(b.len(), |k: int| a[k] * b[k])) == dot(a, b),
    decreases b.len(),
{
    let s = Seq::new(b.len(), |k: int| a[k] * b[k]);
    if b.len() > 0 {
        let c = b.drop_last();
        lemma_dot_is_sum(a, c);
        assert(s.drop_last() =~= Seq::new(c.len(), |k: int| a[k] * c[k]));
    }
}

/// The sums of the coefficients of a family of polynomials, each with `t` coefficients.
pub open spec fn sum_of_coefs(
    keys: Set<u16>,
    family: spec_fn(u16) -> Seq<int>,
    t: nat,
) -> Seq<int> {
    Seq::new(t, |i: int| sum_over(keys, |k: u16| family(k)[i]))
}

/// Polynomials are added coefficient by coefficient.
pub proof fn lemma_sum_of_polynomials(
    keys: Set<u16>,
    family: spec_fn(u16) -> Seq<int>,
    t: nat,
    x: int,
)
    requires
        forall|k: u16| #[trigger] keys.contains(k) ==> family(k).len() == t,
    ensures
        sum_over(keys, |k: u16| eval(family(k), x)) == eval(sum_of_coefs(keys, family, t), x),
    decreases t,
{
    let values = |k: u16| eval(family(k), x);
    let total = sum_of_coefs(keys, family, t);
    if t == 0 {
        let zero = |k: u16| 0int;
        lemma_sum_over_agree(keys, values, zero);
        assert forall|k: u16| #[trigger] keys.contains(k) implies values(k) == zero(k) + 1 * zero(
            k,
        ) by {}
        lemma_sum_over_linear(keys, values, zero, zero, 1);
    } else {
        let rest = |k: u16| family(k).drop_first();
        let m = (t - 1) as nat;
        lemma_sum_of_polynomials(keys, rest, m, x);
        let first = |k: u16| family(k)[0];
        let higher = |k: u16| eval(rest(k), x);
        lemma_sum_over_linear(keys, values, first, higher, x);
        assert(total.drop_first() =~= sum_of_coefs(keys, rest, m)) by {
            assert forall|i: int| 0 <= i < m implies #[trigger] total.drop_first()[i]
                == sum_of_coefs(keys, rest, m)[i] by {
                let a = |k: u16| family(k)[i + 1];
                let b = |k: u16| rest(k)[i];
                lemma_sum_over_agree(keys, a, b);
            }
        }
        assert(total[0] == sum_over(keys, first));
    }
}

/// `sum` adds up all elements, and `prod` multiplies all of them.
pub proof fn law_sum_and_prod_take_every_element(s: Seq<int>)
    ensures
        sum(s) == s.fold_left(0int, |acc: int, x: int| acc + x),
        prod(s) == s.fold_left(1int, |acc: int, x: int| acc * x),
    decreases s.len(),
{
    if s.len() > 0 {
        law_sum_and_prod_take_every_element(s.drop_last());
    }
}

/// The inner product pairs up the elements of two sequences of one length, and adds up all the
/// products.
pub proof fn law_dot_takes_every_pair(a: Seq<int>, b: Seq<int>)
    requires
        a.len() == b.len(),
    ensures
        dot(a, b) == Seq::new(a.len(), |k: int| a[k] * b[k]).fold_left(
            0int,
            |acc: int, x: int| acc + x,
        ),
{
    lemma_dot_is_sum(a, b);
    law_sum_and_prod_take_every_element(Seq::new(a.len(), |k: int| a[k] * b[k]));
}

proof fn lemma_eval_push(coefs: Seq<int>, c: int, x: int)
    ensures
        eval(coefs.push(c), x) == eval(coefs, x) + c * pow(x, coefs.len()),
    decreases coefs.len(),
{
    let longer = coefs.push(c);
    if coefs.len() == 0 {
        lemma_pow0(x);
        assert(eval(longer.drop_first(), x) == 0);
        assert(longer[0] == c);
        assert(x * 0 == 0 && c * 1 == c) by (nonlinear_arith);
    } else {
        assert(longer[0] == coefs[0]);
        let rest = coefs.drop_first();
        assert(longer.drop_first() =~= rest.push(c));
        lemma_eval_push(rest, c, x);
        let n = rest.len();
        assert(pow(x, coefs.len()) == x * pow(x, n)) by {
            reveal(pow);
        }
        let (e, p) = (eval(rest, x), pow(x, n));
        assert(x * (e + c * p) == x * e + c * (x * p)) by (nonlinear_arith);
    }
}

/// The value of a polynomial is the sum over all its coefficients, each times the power of the
/// argument that its place stands for.
pub proof fn law_eval_is_a_sum_of_powers(coefs: Seq<int>, x: int)
    ensures
        eval(coefs, x) == Seq::new(coefs.len(), |i: int| coefs[i] * pow(x, i as nat)).fold_left(
            0int,
            |acc: int, t: int| acc + t,
        ),
    decreases coefs.len(),
{
    let terms = Seq::new(coefs.len(), |i: int| coefs[i] * pow(x, i as nat));
    if coefs.len() > 0 {
        let before = coefs.drop_last();
        law_eval_is_a_sum_of_powers(before, x);
        lemma_eval_push(before, coefs.last(), x);
        assert(before.push(coefs.last()) =~= coefs);
        assert(terms.drop_last() =~= Seq::new(before.len(), |i: int| before[i] * pow(x, i as nat)));
    }
}

/// The values of a polynomial at several points are its values at each of them.
pub proof fn law_evals_takes_every_point(coefs: Seq<int>, xs: Seq<int>)
    ensures
        evals(coefs, xs).len() == xs.len(),
        forall|j: int| 0 <= j < xs.len() ==> #[trigger] evals(coefs, xs)[j] == eval(coefs, xs[j]),
{
}

/// Numbers are congruent exactly when the modulus divides their difference.
pub proof fn law_congruent_divides_difference(a: int, b: int, q: int)
    requires
        q > 0,
    ensures
        congruent(a, b, q) <==> (a - b) % q == 0,
        is_inverse(a, b, q) <==> (a * b - 1) % q == 0,
{
    lemma_mod_equivalence(a, b, q);
    lemma_mod_equivalence(a * b, 1, q);
}

/// A sum over a set of keys adds up the terms of all of them, each once, whatever the order in
/// which they are listed.
pub proof fn law_sum_over_takes_every_key(keys: Seq<u16>, f: spec_fn(u16) -> int)
    requires
        keys.no_duplicates(),
    ensures
        sum_over(keys.to_set(), f) == Seq::new(keys.len(), |k: int| f(keys[k])).fold_left(
            0int,
            |acc: int, x: int| acc + x,
        ),
{
    let v = Seq::new(keys.len(), |k: int| f(keys[k]));
    let (a, b) = (sum_over(keys.to_set(), f), sum(v));
    law_sum_and_prod_take_every_element(v);
    let q = if a > b { a - b + 1 } else { b - a + 1 };
    lemma_sum_over_listed(keys, f, v, q);
    lemma_mod_equivalence(a, b, q);
    lemma_mod_equivalence(b, a, q);
    if a > b {
        lemma_small_mod((a - b) as nat, q as nat);
    } else {
        lemma_small_mod((b - a) as nat, q as nat);
    }
}

/// The coefficients of a sum of polynomials are the sums of the coefficients in each place.
pub proof fn law_sum_of_coefs_takes_every_place(
    keys: Set<u16>,
    family: spec_fn(u16) -> Seq<int>,
    t: nat,
    i: int,
)
    requires
        0 <= i < t,
    ensures
        sum_of_coefs(keys, family, t).len() == t,
        sum_of_coefs(keys, family, t)[i] == sum_over(keys, |k: u16| family(k)[i]),
{
}

} // verus!
