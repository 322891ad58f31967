//! Lagrange interpolation at zero, modulo the group order.
use crate::algebra::{
    congruent, dot, eval, evals, is_inverse, law_congruent_divides_difference,
    law_sum_and_prod_take_every_element, lemma_congruent_add, lemma_congruent_cancel,
    lemma_congruent_mul, lemma_dot_linear, lemma_dot_remove, lemma_dot_scaled, lemma_dot_zero,
    lemma_prod_remove, prod,
};
use vstd::prelude::*;

verus! {

/// The numerator of the coefficient of node `j`: the product of the other nodes.
pub open spec fn numerator(xs: Seq<int>, j: int) -> int {
    prod(xs.remove(j))
}

/// The denominator of the coefficient of node `j`: the product of the distances from node `j`
/// to the other nodes.
pub open spec fn denominator(xs: Seq<int>, j: int) -> int {
    prod(xs.remove(j).map_values(|x: int| x - xs[j]))
}

/// `l` is the coefficient by which the value at node `j` enters the interpolation at zero:
/// the numerator divided by the denominator, which has an inverse.
pub open spec fn is_coefficient(xs: Seq<int>, j: int, l: int, q: int) -> bool {
    exists|e: int| #[trigger]
        is_inverse(denominator(xs, j), e, q) && congruent(l, numerator(xs, j) * e, q)
}

/// `ls[j]` is the coefficient of node `j`, for every node.
pub open spec fn are_coefficients(xs: Seq<int>, ls: Seq<int>, q: int) -> bool {
    &&& ls.len() == xs.len()
    &&& forall|j: int| 0 <= j < xs.len() ==> is_coefficient(xs, j, #[trigger] ls[j], q)
}

/// Where node `j` stands once node `r` is taken out.
spec fn shifted(j: int, r: int) -> int {
    if j < r {
        j
    } else {
        j - 1
    }
}

proof fn lemma_without(xs: Seq<int>, j: int, r: int)
    requires
        0 <= j < xs.len(),
        0 <= r < xs.len(),
        j != r,
    ensures
        xs.remove(r)[shifted(j, r)] == xs[j],
        numerator(xs, j) == xs[r] * numerator(xs.remove(r), shifted(j, r)),
        denominator(xs, j) == (xs[r] - xs[j]) * denominator(xs.remove(r), shifted(j, r)),
{
    let ys = xs.remove(r);
    let k = shifted(j, r);
    let s = shifted(r, j);
    let a = xs.remove(j);
    assert(a.remove(s) =~= ys.remove(k));
    assert(a[s] == xs[r]);
    lemma_prod_remove(a, s);
    let d = a.map_values(|x: int| x - xs[j]);
    lemma_prod_remove(d, s);
    assert(d[s] == xs[r] - xs[j]);
    assert(d.remove(s) =~= ys.remove(k).map_values(|x: int| x - ys[k]));
}

/// Taking out node `r` leaves a system that has coefficients of its own, and ties them to
/// those of the larger one.
proof fn lemma_reduced(xs: Seq<int>, ls: Seq<int>, r: int, q: int) -> (ms: Seq<int>)
    requires
        q > 0,
        are_coefficients(xs, ls, q),
        0 <= r < xs.len(),
    ensures
        are_coefficients(xs.remove(r), ms, q),
        forall|j: int|
            0 <= j < xs.len() && j != r ==> congruent(
                #[trigger] ls[j] * (xs[r] - xs[j]),
                ms[shifted(j, r)] * xs[r],
                q,
            ),
{
    let ys = xs.remove(r);
    let back = |k: int| if k < r { k } else { k + 1 };
    let inv = |j: int|
        choose|e: int| #[trigger]
            is_inverse(denominator(xs, j), e, q) && congruent(ls[j], numerator(xs, j) * e, q);
    let ms = Seq::new(
        ys.len(),
        |k: int| numerator(ys, k) * ((xs[r] - xs[back(k)]) * inv(back(k))),
    );
    assert forall|k: int| 0 <= k < ys.len() implies is_coefficient(ys, k, #[trigger] ms[k], q) by {
        let j = back(k);
        assert(is_coefficient(xs, j, ls[j], q));
        let e = inv(j);
        lemma_without(xs, j, r);
        assert(shifted(j, r) == k);
        let (t, d) = (xs[r] - xs[j], denominator(ys, k));
        assert(d * (t * e) == (t * d) * e) by (nonlinear_arith);
        assert(is_inverse(d, t * e, q));
    }
    assert forall|j: int| 0 <= j < xs.len() && j != r implies congruent(
        #[trigger] ls[j] * (xs[r] - xs[j]),
        ms[shifted(j, r)] * xs[r],
        q,
    ) by {
        let k = shifted(j, r);
        assert(back(k) == j);
        assert(is_coefficient(xs, j, ls[j], q));
        let e = inv(j);
        lemma_without(xs, j, r);
        let (t, n, x) = (xs[r] - xs[j], numerator(ys, k), xs[r]);
        lemma_congruent_mul(ls[j], (x * n) * e, t, t, q);
        assert(((x * n) * e) * t == (n * (t * e)) * x) by (nonlinear_arith);
    }
    ms
}

/// With one node taken out, the weights of the larger system times the distances to that
/// node act as the smaller system does.
proof fn lemma_step(xs: Seq<int>, ls: Seq<int>, ms: Seq<int>, r: int, v: Seq<int>, q: int)
    requires
        q > 0,
        ls.len() == xs.len(),
        ms.len() == xs.len() - 1,
        v.len() == xs.len(),
        0 <= r < xs.len(),
        forall|j: int|
            0 <= j < xs.len() && j != r ==> congruent(
                #[trigger] ls[j] * (xs[r] - xs[j]),
                ms[shifted(j, r)] * xs[r],
                q,
            ),
    ensures
        congruent(
            xs[r] * dot(ls, v) - dot(ls, Seq::new(v.len(), |j: int| xs[j] * v[j])),
            xs[r] * dot(ms, v.remove(r)),
            q,
        ),
{
    let xv = Seq::new(v.len(), |j: int| xs[j] * v[j]);
    let w = Seq::new(v.len(), |j: int| (xs[r] - xs[j]) * v[j]);
    assert forall|j: int| 0 <= j < w.len() implies #[trigger] w[j] == xs[r] * v[j] + (-1) * xv[j] by {
        let (x, y, z) = (xs[r], xs[j], v[j]);
        assert((x - y) * z == x * z + (-1) * (y * z)) by (nonlinear_arith);
    }
    lemma_dot_linear(ls, w, v, xv, xs[r], -1);
    lemma_dot_remove(ls, w, r);
    assert(ls[r] * w[r] == 0) by {
        let (x, z) = (xs[r], v[r]);
        assert((x - x) * z == 0) by (nonlinear_arith);
        let l = ls[r];
        assert(l * 0 == 0) by (nonlinear_arith);
    }
    let (lr, wr, vr) = (ls.remove(r), w.remove(r), v.remove(r));
    assert forall|k: int| 0 <= k < vr.len() implies congruent(
        #[trigger] lr[k] * wr[k],
        xs[r] * (ms[k] * vr[k]),
        q,
    ) by {
        let j = if k < r { k } else { k + 1 };
        assert(shifted(j, r) == k);
        assert(lr[k] == ls[j] && wr[k] == w[j] && vr[k] == v[j]);
        assert(congruent(ls[j] * (xs[r] - xs[j]), ms[k] * xs[r], q));
        let (l, t, z, m, x) = (ls[j], xs[r] - xs[j], v[j], ms[k], xs[r]);
        lemma_congruent_mul(l * t, m * x, z, z, q);
        assert((l * t) * z == l * (t * z)) by (nonlinear_arith);
        assert((m * x) * z == x * (m * z)) by (nonlinear_arith);
    }
    lemma_dot_scaled(lr, wr, ms, vr, xs[r], q);
}

/// The coefficients of any system sum to one.
proof fn lemma_weights_sum_to_one(xs: Seq<int>, ls: Seq<int>, q: int)
    requires
        q > 0,
        xs.len() > 0,
        are_coefficients(xs, ls, q),
    ensures
        congruent(dot(ls, Seq::new(xs.len(), |j: int| 1)), 1, q),
    decreases xs.len(),
{
    let n = xs.len() as int;
    let ones = Seq::new(xs.len(), |j: int| 1int);
    assert(is_coefficient(xs, 0, ls[0], q));
    let e = choose|e: int| #[trigger]
        is_inverse(denominator(xs, 0), e, q) && congruent(ls[0], numerator(xs, 0) * e, q);
    if n == 1 {
        assert(numerator(xs, 0) == 1);
        assert(denominator(xs, 0) == 1);
        assert(ones.drop_last().len() == 0);
        assert(dot(ls, ones) == dot(ls, ones.drop_last()) + ls[0] * 1);
        assert(dot(ls, ones.drop_last()) == 0);
    } else {
        let t = dot(ls, ones);
        let xone = Seq::new(ones.len(), |j: int| xs[j] * ones[j]);
        let u = dot(ls, xone);
        let last = n - 1;
        let ms = lemma_reduced(xs, ls, last, q);
        lemma_weights_sum_to_one(xs.remove(last), ms, q);
        lemma_step(xs, ls, ms, last, ones, q);
        assert(ones.remove(last) =~= Seq::new(xs.remove(last).len(), |j: int| 1int));
        let ks = lemma_reduced(xs, ls, 0, q);
        lemma_weights_sum_to_one(xs.remove(0), ks, q);
        lemma_step(xs, ls, ks, 0, ones, q);
        assert(ones.remove(0) =~= Seq::new(xs.remove(0).len(), |j: int| 1int));
        let (a, b) = (xs[last], xs[0]);
        let (s1, s2) = (dot(ms, ones.remove(last)), dot(ks, ones.remove(0)));
        lemma_congruent_mul(a, a, s1, 1, q);
        lemma_congruent_mul(b, b, s2, 1, q);
        lemma_congruent_add(a * t - u, a * 1, b * t - u, b * 1, q);
        assert((a * t - u) - (b * t - u) == (a - b) * t) by (nonlinear_arith);
        assert(a * 1 - b * 1 == (a - b) * 1) by (nonlinear_arith);
        lemma_without(xs, 0, last);
        let d = denominator(xs.remove(last), 0);
        assert(denominator(xs, 0) == (a - b) * d);
        assert(((a - b) * d) * e == (a - b) * (d * e)) by (nonlinear_arith);
        lemma_congruent_cancel(a - b, d * e, t, 1, q);
    }
}

/// A polynomial with at most as many coefficients as there are nodes takes at zero the value
/// that its values at the nodes add up to, each weighted with the coefficient of its node.
pub proof fn law_interpolation_at_zero(coefs: Seq<int>, xs: Seq<int>, ls: Seq<int>, q: int)
    requires
        q > 0,
        xs.len() > 0,
        coefs.len() <= xs.len(),
        are_coefficients(xs, ls, q),
    ensures
        congruent(dot(ls, evals(coefs, xs)), eval(coefs, 0), q),
    decreases coefs.len(),
{
    let v = evals(coefs, xs);
    if coefs.len() == 0 {
        lemma_dot_zero(ls, v);
    } else {
        let g = coefs.drop_first();
        let w = evals(g, xs);
        let ones = Seq::new(xs.len(), |j: int| 1int);
        let xw = Seq::new(w.len(), |j: int| xs[j] * w[j]);
        let c = coefs[0];
        assert forall|j: int| 0 <= j < v.len() implies #[trigger] v[j] == c * ones[j] + 1 * xw[j] by {
            assert(v[j] == eval(coefs, xs[j]));
        }
        lemma_dot_linear(ls, v, ones, xw, c, 1);
        lemma_weights_sum_to_one(xs, ls, q);
        lemma_congruent_mul(c, c, dot(ls, ones), 1, q);
        assert(congruent(dot(ls, xw), 0, q)) by {
            if g.len() == 0 {
                assert forall|j: int| 0 <= j < xw.len() implies xw[j] == 0 by {
                    let x = xs[j];
                    assert(x * 0 == 0) by (nonlinear_arith);
                    assert(w[j] == eval(g, xs[j]));
                }
                lemma_dot_zero(ls, xw);
            } else {
                let last = xs.len() - 1;
                let ys = xs.remove(last);
                let ms = lemma_reduced(xs, ls, last, q);
                lemma_step(xs, ls, ms, last, w, q);
                law_interpolation_at_zero(g, xs, ls, q);
                law_interpolation_at_zero(g, ys, ms, q);
                assert(w.remove(last) =~= evals(g, ys));
                let (x, s, t, y) = (xs[last], dot(ls, w), dot(ms, evals(g, ys)), eval(g, 0));
                lemma_congruent_mul(x, x, s, y, q);
                lemma_congruent_mul(x, x, t, y, q);
                lemma_congruent_add(x * s, x * y, x * t, x * y, q);
                lemma_congruent_add(x * s, x * s, x * s - dot(ls, xw), x * t, q);
                assert(x * s - (x * s - dot(ls, xw)) == dot(ls, xw));
                assert(x * y - x * y == 0);
            }
        }
        lemma_congruent_add(c * dot(ls, ones), c * 1, dot(ls, xw), 0, q);
        assert(eval(coefs, 0) == c);
    }
}

/// The coefficient of node `j` is the one number, up to congruence, that gives the product of
/// the other nodes when it is multiplied with the product of their distances to node `j`; there
/// is one only where the latter product has an inverse.
pub proof fn law_coefficient_is_the_quotient(xs: Seq<int>, j: int, l: int, q: int)
    requires
        q > 0,
        0 <= j < xs.len(),
    ensures
        ({
            let others = xs.remove(j);
            let n = others.fold_left(1int, |acc: int, x: int| acc * x);
            let d = others.map_values(|x: int| x - xs[j]).fold_left(
                1int,
                |acc: int, x: int| acc * x,
            );
            is_coefficient(xs, j, l, q) <==> (l * d - n) % q == 0 && exists|e: int|
                #[trigger] is_inverse(d, e, q)
        }),
{
    let others = xs.remove(j);
    let distances = others.map_values(|x: int| x - xs[j]);
    law_sum_and_prod_take_every_element(others);
    law_sum_and_prod_take_every_element(distances);
    let (n, d) = (numerator(xs, j), denominator(xs, j));
    law_congruent_divides_difference(l * d, n, q);
    if is_coefficient(xs, j, l, q) {
        let e = choose|e: int| #[trigger] is_inverse(d, e, q) && congruent(l, n * e, q);
        lemma_congruent_mul(l, n * e, d, d, q);
        lemma_congruent_mul(d * e, 1, n, n, q);
        assert((n * e) * d == (d * e) * n) by (nonlinear_arith);
        assert(1 * n == n);
    }
    if congruent(l * d, n, q) && (exists|e: int| #[trigger] is_inverse(d, e, q)) {
        let e = choose|e: int| #[trigger] is_inverse(d, e, q);
        lemma_congruent_mul(l * d, n, e, e, q);
        lemma_congruent_mul(d * e, 1, l, l, q);
        assert((l * d) * e == (d * e) * l) by (nonlinear_arith);
        assert(1 * l == l);
        assert(is_inverse(d, e, q) && congruent(l, n * e, q));
    }
}

/// Coefficients of a system are one for each node, each the coefficient of its own node.
pub proof fn law_every_node_has_its_coefficient(xs: Seq<int>, ls: Seq<int>, q: int)
    ensures
        are_coefficients(xs, ls, q) <==> ls.len() == xs.len() && forall|j: int|
            0 <= j < xs.len() ==> is_coefficient(xs, j, #[trigger] ls[j], q),
{
}

} // verus!
