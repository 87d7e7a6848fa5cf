use vstd::prelude::*;

verus! {

/// An exact rational value `num / den`.
///
/// Every well-formed value keeps a strictly positive denominator, so a
/// rational carries its sign in the numerator alone. The estimators return
/// their results in this form: the quantities they compute are ratios of
/// integers, and keeping them exact lets every contract pin the result down
/// to a single mathematical value. Callers that want a machine real divide
/// `num` by `den` themselves.
#[derive(Clone, Copy, Debug, PartialEq, Eq, Structural)]
pub struct Rat {
    pub num: i128,
    pub den: i128,
}

impl Rat {
    /// A well-formed rational has a strictly positive denominator.
    pub open spec fn wf(self) -> bool {
        self.den > 0
    }

    /// `self` and the fraction `num / den` denote the same rational number
    /// (stated by cross multiplication, so it needs no division).
    pub open spec fn ratio_eq(self, num: int, den: int) -> bool {
        self.num * den == num * self.den
    }

    /// Builds the rational `num / den`, moving the sign of a negative
    /// denominator into the numerator.
    pub fn new(num: i128, den: i128) -> (r: Rat)
        requires
            den != 0,
            num != i128::MIN,
            den != i128::MIN,
        ensures
            r.wf(),
            r.num == spec_sign_norm(num as int, den as int).0,
            r.den == spec_sign_norm(num as int, den as int).1,
            r.ratio_eq(num as int, den as int),
    {
        proof {
            lemma_sign_norm_ratio(num as int, den as int);
        }
        if den < 0 {
            Rat { num: -num, den: -den }
        } else {
            Rat { num, den }
        }
    }
}

/// The fraction `num / den` rewritten so that the denominator is positive.
pub open spec fn spec_sign_norm(num: int, den: int) -> (int, int) {
    if den < 0 {
        (-num, -den)
    } else {
        (num, den)
    }
}

/// Sign normalisation keeps the denoted rational number unchanged.
pub proof fn lemma_sign_norm_ratio(num: int, den: int)
    ensures
        spec_sign_norm(num, den).0 * den == num * spec_sign_norm(num, den).1,
{
    if den < 0 {
        assert((-num) * den == num * (-den)) by (nonlinear_arith);
    }
}

/// `0 <= a <= amax` and `0 <= b <= bmax` bound the product `a * b`.
pub(crate) proof fn lemma_mul_bound(a: int, b: int, amax: int, bmax: int)
    by (nonlinear_arith)
    requires
        0 <= a <= amax,
        0 <= b <= bmax,
    ensures
        0 <= a * b <= amax * bmax,
{
}

/// `|a| <= amax` and `|b| <= bmax` bound the magnitude of the product.
pub(crate) proof fn lemma_mul_abs_bound(a: int, b: int, amax: int, bmax: int)
    by (nonlinear_arith)
    requires
        -amax <= a <= amax,
        -bmax <= b <= bmax,
        0 <= amax,
        0 <= bmax,
    ensures
        -(amax * bmax) <= a * b <= amax * bmax,
{
}

/// `|a| <= m` bounds the square: `0 <= a * a <= m * m`.
pub(crate) proof fn lemma_sq_bound(a: int, m: int)
    by (nonlinear_arith)
    requires
        -m <= a <= m,
    ensures
        0 <= a * a <= m * m,
{
}

/// The fractions `a` and `b` denote the same rational number (by cross
/// multiplication; sound whenever the denominators are nonzero).
pub open spec fn frac_eq(a: (int, int), b: (int, int)) -> bool {
    a.0 * b.1 == b.0 * a.1
}

/// The sum `a + b` of two fractions, over the common denominator.
pub open spec fn frac_add(a: (int, int), b: (int, int)) -> (int, int) {
    (a.0 * b.1 + b.0 * a.1, a.1 * b.1)
}

/// The difference `a - b` of two fractions, over the common denominator.
pub open spec fn frac_sub(a: (int, int), b: (int, int)) -> (int, int) {
    (a.0 * b.1 - b.0 * a.1, a.1 * b.1)
}

/// The sum of the first differences of a sequence of fractions:
/// `(ps[1] - ps[0]) + (ps[2] - ps[1]) + ... + (ps[m-1] - ps[m-2])`.
pub open spec fn diff_sum(ps: Seq<(int, int)>) -> (int, int)
    decreases ps.len(),
{
    if ps.len() < 2 {
        (0, 1)
    } else {
        frac_add(diff_sum(ps.drop_last()), frac_sub(ps.last(), ps[ps.len() - 2]))
    }
}

/// `frac_eq` is transitive through a fraction with a nonzero denominator.
pub proof fn lemma_frac_eq_trans(a: (int, int), b: (int, int), c: (int, int))
    by (nonlinear_arith)
    requires
        frac_eq(a, b),
        frac_eq(b, c),
        b.1 != 0,
    ensures
        frac_eq(a, c),
{
}

/// Replacing one summand by an equal fraction keeps the sum equal.
pub proof fn lemma_frac_add_congruence(a: (int, int), a2: (int, int), b: (int, int))
    requires
        frac_eq(a, a2),
    ensures
        frac_eq(frac_add(a, b), frac_add(a2, b)),
{
    lemma_add_congruence_scalar(a.0, a.1, a2.0, a2.1, b.0, b.1);
}

proof fn lemma_add_congruence_scalar(a0: int, a1: int, x0: int, x1: int, b0: int, b1: int)
    requires
        a0 * x1 == x0 * a1,
    ensures
        (a0 * b1 + b0 * a1) * (x1 * b1) == (x0 * b1 + b0 * x1) * (a1 * b1),
{
    let t = x1 * b1;
    assert((a0 * b1 + b0 * a1) * t == (a0 * b1) * t + (b0 * a1) * t) by (nonlinear_arith);
    assert((a0 * b1) * t == (a0 * x1) * (b1 * b1)) by (nonlinear_arith)
        requires
            t == x1 * b1,
    ;
    assert((a0 * x1) * (b1 * b1) == (x0 * a1) * (b1 * b1)) by (nonlinear_arith)
        requires
            a0 * x1 == x0 * a1,
    ;
    assert((x0 * a1) * (b1 * b1) == (x0 * b1) * (a1 * b1)) by (nonlinear_arith);
    assert((b0 * a1) * t == (b0 * x1) * (a1 * b1)) by (nonlinear_arith)
        requires
            t == x1 * b1,
    ;
    assert((x0 * b1 + b0 * x1) * (a1 * b1) == (x0 * b1) * (a1 * b1) + (b0 * x1) * (a1 * b1))
        by (nonlinear_arith);
}

/// One telescoping step: `(b - a) + (c - b) == c - a`, a polynomial identity
/// of the cross-multiplied fractions.
pub proof fn lemma_telescope_step(a: (int, int), b: (int, int), c: (int, int))
    ensures
        frac_eq(frac_add(frac_sub(b, a), frac_sub(c, b)), frac_sub(c, a)),
{
    lemma_telescope_scalar(a.0, a.1, b.0, b.1, c.0, c.1);
}

proof fn lemma_telescope_scalar(a0: int, a1: int, b0: int, b1: int, c0: int, c1: int)
    ensures
        ((b0 * a1 - a0 * b1) * (c1 * b1) + (c0 * b1 - b0 * c1) * (b1 * a1)) * (c1 * a1) == (c0 * a1
            - a0 * c1) * ((b1 * a1) * (c1 * b1)),
{
    let p = b0 * a1 - a0 * b1;
    let q = c0 * b1 - b0 * c1;
    let r = c0 * a1 - a0 * c1;
    let num = p * (c1 * b1) + q * (b1 * a1);
    assert(p * c1 + q * a1 == r * b1) by (nonlinear_arith)
        requires
            p == b0 * a1 - a0 * b1,
            q == c0 * b1 - b0 * c1,
            r == c0 * a1 - a0 * c1,
    ;
    assert(p * (c1 * b1) + q * (b1 * a1) == (p * c1 + q * a1) * b1) by (nonlinear_arith);
    assert((p * c1 + q * a1) * b1 == (r * b1) * b1) by (nonlinear_arith)
        requires
            p * c1 + q * a1 == r * b1,
    ;
    assert(num * (c1 * a1) == ((r * b1) * b1) * (c1 * a1)) by (nonlinear_arith)
        requires
            num == (r * b1) * b1,
    ;
    assert(((r * b1) * b1) * (c1 * a1) == r * ((b1 * a1) * (c1 * b1))) by (nonlinear_arith);
}

/// A sum of differences of fractions with positive denominators has a
/// positive denominator itself.
pub proof fn lemma_diff_sum_den_positive(ps: Seq<(int, int)>)
    requires
        forall|i: int| 0 <= i < ps.len() ==> (#[trigger] ps[i]).1 > 0,
    ensures
        diff_sum(ps).1 > 0,
    decreases ps.len(),
{
    if ps.len() >= 2 {
        lemma_diff_sum_den_positive(ps.drop_last());
        let pre = diff_sum(ps.drop_last());
        let step = frac_sub(ps.last(), ps[ps.len() - 2]);
        assert(step.1 > 0) by (nonlinear_arith)
            requires
                step.1 == ps.last().1 * ps[ps.len() - 2].1,
                ps.last().1 > 0,
                ps[ps.len() - 2].1 > 0,
        ;
        assert(pre.1 * step.1 > 0) by (nonlinear_arith)
            requires
                pre.1 > 0,
                step.1 > 0,
        ;
    }
}

/// The sum of the first differences of a sequence of fractions telescopes to
/// `last - first`; so the mean spacing of `m` interpolated positions is
/// exactly `(last - first) / (m - 1)`.
pub proof fn lemma_diff_sum_telescopes(ps: Seq<(int, int)>)
    requires
        ps.len() >= 2,
        forall|i: int| 0 <= i < ps.len() ==> (#[trigger] ps[i]).1 > 0,
    ensures
        frac_eq(diff_sum(ps), frac_sub(ps.last(), ps[0])),
    decreases ps.len(),
{
    if ps.len() == 2 {
        assert(diff_sum(ps.drop_last()) == (0int, 1int));
        assert(diff_sum(ps) == frac_add((0, 1), frac_sub(ps[1], ps[0])));
        assert(frac_eq(diff_sum(ps), frac_sub(ps[1], ps[0]))) by (nonlinear_arith)
            requires
                diff_sum(ps) == frac_add((0, 1), frac_sub(ps[1], ps[0])),
        ;
    } else {
        let pre = ps.drop_last();
        lemma_diff_sum_telescopes(pre);
        assert(pre[0] == ps[0]);
        assert(pre.last() == ps[ps.len() - 2]);
        let a = diff_sum(pre);
        let a2 = frac_sub(ps[ps.len() - 2], ps[0]);
        let b = frac_sub(ps.last(), ps[ps.len() - 2]);
        lemma_frac_add_congruence(a, a2, b);
        lemma_telescope_step(ps[0], ps[ps.len() - 2], ps.last());
        lemma_diff_sum_den_positive(pre);
        assert(frac_add(a2, b).1 != 0) by (nonlinear_arith)
            requires
                frac_add(a2, b).1 == (ps[ps.len() - 2].1 * ps[0].1) * (ps.last().1 * ps[
                    ps.len() - 2].1),
                ps[0].1 > 0,
                ps[ps.len() - 2].1 > 0,
                ps.last().1 > 0,
        ;
        lemma_frac_eq_trans(frac_add(a, b), frac_add(a2, b), frac_sub(ps.last(), ps[0]));
    }
}

} // verus!
