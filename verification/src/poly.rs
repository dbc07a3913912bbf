//! Dense polynomials over the field, as coefficient vectors with the constant
//! term first. Trailing zero coefficients do not change the polynomial.

use crate::domain::{is_power_of_two, max_domain_size};
use crate::field::{field_difference, field_sum, lemma_field_operations, modulus, values, Fr};
use ark_bls12_381::Fr as Scalar;
use ark_ff::{BigInteger256, PrimeField};
use ark_poly::univariate::DensePolynomial;
use ark_poly::{EvaluationDomain, GeneralEvaluationDomain, UVPolynomial};
use vstd::prelude::*;

verus! {

/// The coefficient of `x^i`, zero beyond the stored ones.
pub open spec fn coefficient(p: Seq<nat>, i: int) -> nat {
    if 0 <= i < p.len() {
        p[i]
    } else {
        0
    }
}

/// No trailing zero coefficient: the last stored coefficient leads.
pub open spec fn is_normalized(p: Seq<nat>) -> bool {
    p.len() == 0 || p.last() != 0
}

/// The same polynomial without trailing zero coefficients.
pub open spec fn normalized(p: Seq<nat>) -> Seq<nat>
    decreases p.len(),
{
    if p.len() == 0 || p.last() != 0 {
        p
    } else {
        normalized(p.drop_last())
    }
}

pub open spec fn longer(a: nat, b: nat) -> nat {
    if a >= b {
        a
    } else {
        b
    }
}

/// The coefficient-wise sum of two polynomials.
pub open spec fn poly_sum(a: Seq<nat>, b: Seq<nat>) -> Seq<nat> {
    Seq::new(longer(a.len(), b.len()), |i: int| field_sum(coefficient(a, i), coefficient(b, i)))
}

/// `scalar * (x^n - 1)`, the multiple of the vanishing polynomial of the
/// domain of size `n`.
pub open spec fn scaled_vanishing(scalar: nat, n: nat) -> Seq<nat> {
    if scalar == 0 {
        Seq::empty()
    } else {
        Seq::new(
            n + 1,
            |i: int|
                if i == 0 {
                    field_difference(0, scalar)
                } else if i == n {
                    scalar
                } else {
                    0
                },
        )
    }
}

/// Every coefficient is a reduced value.
pub open spec fn is_reduced(p: Seq<nat>) -> bool {
    forall|i: int| 0 <= i < p.len() ==> #[trigger] p[i] < modulus()
}

/// `p == quotient * (x^m - 1) + remainder` with a remainder of degree below
/// `m`: what it is to divide `p` by the vanishing polynomial of the domain of
/// size `m`.
pub open spec fn is_vanishing_division(
    p: Seq<nat>,
    m: nat,
    quotient: Seq<nat>,
    remainder: Seq<nat>,
) -> bool {
    &&& is_normalized(quotient)
    &&& is_normalized(remainder)
    &&& is_reduced(quotient)
    &&& is_reduced(remainder)
    &&& remainder.len() <= m
    &&& forall|t: int|
        0 <= t ==> #[trigger] coefficient(p, t) % modulus() == field_sum(
            field_difference(coefficient(quotient, t - m), coefficient(quotient, t)),
            coefficient(remainder, t),
        )
}

/// The right-hand side of the division equation at `t`, as an integer
/// expression without remainders.
proof fn lemma_division_equation(p: Seq<nat>, m: nat, q: Seq<nat>, r: Seq<nat>, t: int)
    requires
        0 <= t,
        is_vanishing_division(p, m, q, r),
    ensures
        coefficient(q, t - m) < modulus(),
        coefficient(q, t) < modulus(),
        coefficient(r, t) < modulus(),
        exists|k: int|
            -1 <= k <= 1 && coefficient(p, t) % modulus() == #[trigger] (k * modulus())
                + coefficient(q, t - m) - coefficient(q, t) + coefficient(r, t),
{
    let a = coefficient(q, t - m);
    let b = coefficient(q, t);
    let c = coefficient(r, t);
    assert(coefficient(p, t) % modulus() == field_sum(field_difference(a, b), c));
    lemma_field_operations(a, b);
    let d = field_difference(a, b);
    lemma_field_operations(d, c);
    let value = field_sum(d, c);
    let k: int = if a >= b {
        if d + c < modulus() {
            0
        } else {
            -1
        }
    } else {
        if d + c < modulus() {
            1
        } else {
            0
        }
    };
    assert(value == (k * modulus()) + a - b + c) by (nonlinear_arith)
        requires
            -1 <= k <= 1,
            k == 0 ==> value == a - b + c,
            k == 1 ==> value == modulus() + a - b + c,
            k == -1 ==> value == a - b + c - modulus(),
    ;
}

/// Two reduced values that differ by a multiple of the modulus, the
/// multiple being small, are the same.
proof fn lemma_congruent_reduced(a: nat, b: nat, k: int)
    requires
        a < modulus(),
        b < modulus(),
        a == b + k * modulus(),
    ensures
        a == b,
{
    assert(k == 0) by (nonlinear_arith)
        requires
            a < modulus(),
            b < modulus(),
            a == b + k * modulus(),
            modulus() > 0,
    ;
}

/// Two divisions of one polynomial agree on every coefficient of the
/// quotient from `s` on, given that they agree beyond `s + gap`.
proof fn lemma_quotients_agree(
    p: Seq<nat>,
    m: nat,
    q1: Seq<nat>,
    r1: Seq<nat>,
    q2: Seq<nat>,
    r2: Seq<nat>,
    s: int,
    gap: nat,
)
    requires
        m >= 1,
        s >= 0,
        s + gap >= longer(q1.len(), q2.len()),
        is_vanishing_division(p, m, q1, r1),
        is_vanishing_division(p, m, q2, r2),
    ensures
        coefficient(q1, s) == coefficient(q2, s),
    decreases gap,
{
    if s < longer(q1.len(), q2.len()) {
        let t = s + m;
        let rest: nat = if gap >= m {
            (gap - m) as nat
        } else {
            0
        };
        lemma_quotients_agree(p, m, q1, r1, q2, r2, t, rest);
        lemma_division_equation(p, m, q1, r1, t);
        lemma_division_equation(p, m, q2, r2, t);
        let k1 = choose|k: int|
            -1 <= k <= 1 && coefficient(p, t) % modulus() == #[trigger] (k * modulus())
                + coefficient(q1, t - m) - coefficient(q1, t) + coefficient(r1, t);
        let k2 = choose|k: int|
            -1 <= k <= 1 && coefficient(p, t) % modulus() == #[trigger] (k * modulus())
                + coefficient(q2, t - m) - coefficient(q2, t) + coefficient(r2, t);
        assert(coefficient(r1, t) == 0 && coefficient(r2, t) == 0);
        assert((k2 - k1) * modulus() == k2 * modulus() - k1 * modulus()) by (nonlinear_arith);
        lemma_congruent_reduced(coefficient(q1, s), coefficient(q2, s), k2 - k1);
    }
}

/// Division by a vanishing polynomial has one result: quotient and
/// remainder are determined by the dividend.
pub proof fn lemma_division_unique(
    p: Seq<nat>,
    m: nat,
    q1: Seq<nat>,
    r1: Seq<nat>,
    q2: Seq<nat>,
    r2: Seq<nat>,
)
    requires
        m >= 1,
        is_vanishing_division(p, m, q1, r1),
        is_vanishing_division(p, m, q2, r2),
    ensures
        q1 == q2,
        r1 == r2,
{
    assert forall|s: int| 0 <= s implies coefficient(q1, s) == coefficient(q2, s) by {
        lemma_quotients_agree(p, m, q1, r1, q2, r2, s, longer(q1.len(), q2.len()));
    }
    lemma_same_coefficients(q1, q2);
    assert forall|t: int| 0 <= t implies coefficient(r1, t) == coefficient(r2, t) by {
        lemma_division_equation(p, m, q1, r1, t);
        lemma_division_equation(p, m, q2, r2, t);
        let k1 = choose|k: int|
            -1 <= k <= 1 && coefficient(p, t) % modulus() == #[trigger] (k * modulus())
                + coefficient(q1, t - m) - coefficient(q1, t) + coefficient(r1, t);
        let k2 = choose|k: int|
            -1 <= k <= 1 && coefficient(p, t) % modulus() == #[trigger] (k * modulus())
                + coefficient(q2, t - m) - coefficient(q2, t) + coefficient(r2, t);
        assert((k2 - k1) * modulus() == k2 * modulus() - k1 * modulus()) by (nonlinear_arith);
        lemma_congruent_reduced(coefficient(r1, t), coefficient(r2, t), k2 - k1);
    }
    lemma_same_coefficients(r1, r2);
}

/// Normalised polynomials with the same coefficients are the same sequence.
pub proof fn lemma_same_coefficients(a: Seq<nat>, b: Seq<nat>)
    requires
        is_normalized(a),
        is_normalized(b),
        forall|i: int| 0 <= i ==> coefficient(a, i) == coefficient(b, i),
    ensures
        a == b,
{
    if a.len() > b.len() {
        assert(coefficient(a, a.len() - 1) == coefficient(b, a.len() - 1));
    }
    if b.len() > a.len() {
        assert(coefficient(a, b.len() - 1) == coefficient(b, b.len() - 1));
    }
    assert forall|i: int| 0 <= i < a.len() implies a[i] == b[i] by {
        assert(coefficient(a, i) == coefficient(b, i));
    }
    assert(a =~= b);
}

/// Normalising keeps every coefficient.
pub proof fn lemma_normalized(p: Seq<nat>)
    ensures
        is_normalized(normalized(p)),
        normalized(p).len() <= p.len(),
        forall|i: int| coefficient(normalized(p), i) == #[trigger] coefficient(p, i),
        normalized(p) == p.subrange(0, normalized(p).len() as int),
    decreases p.len(),
{
    if p.len() == 0 || p.last() != 0 {
        assert(p.subrange(0, p.len() as int) =~= p);
    } else {
        let q = p.drop_last();
        lemma_normalized(q);
        assert forall|i: int| coefficient(normalized(p), i) == #[trigger] coefficient(p, i) by {
            assert(coefficient(normalized(q), i) == coefficient(q, i));
        }
        assert(normalized(p) =~= p.subrange(0, normalized(p).len() as int));
    }
}

/// Drops trailing zero coefficients.
pub fn normalize(p: Vec<Fr>) -> (r: Vec<Fr>)
    ensures
        values(r@) == normalized(values(p@)),
        r@ == p@.subrange(0, r@.len() as int),
{
    let mut r = p;
    let ghost full = values(p@);
    loop
        invariant
            r@.len() <= p@.len(),
            r@ == p@.subrange(0, r@.len() as int),
            normalized(values(r@)) == normalized(full),
            full == values(p@),
        ensures
            values(r@) == normalized(full),
        decreases r@.len(),
    {
        let n = r.len();
        if n == 0 {
            break ;
        }
        if !r[n - 1].is_zero() {
            assert(values(r@).last() == r@[n - 1].value());
            break ;
        }
        proof {
            assert(values(r@).last() == r@[n - 1].value());
            assert(values(r@).drop_last() =~= values(r@.drop_last()));
            assert(r@.drop_last() =~= p@.subrange(0, n - 1));
        }
        r.pop();
    }
    r
}

/// `+` on `DensePolynomial`: the coefficient-wise sum, without trailing
/// zeros.
#[verifier::external_body]
pub(crate) fn poly_add(a: &Vec<Fr>, b: &Vec<Fr>) -> (r: Vec<Fr>)
    ensures
        values(r@) == normalized(poly_sum(values(a@), values(b@))),
{
    let to = |f: &Fr| Scalar::from_repr(BigInteger256([f.l0, f.l1, f.l2, f.l3])).unwrap();
    let back = |c: &Scalar| {
        let l = c.into_repr().0;
        Fr { l0: l[0], l1: l[1], l2: l[2], l3: l[3] }
    };
    let x = DensePolynomial::from_coefficients_vec(a.iter().map(to).collect());
    let y = DensePolynomial::from_coefficients_vec(b.iter().map(to).collect());
    (&x + &y).coeffs.iter().map(back).collect()
}

/// `*` on `DensePolynomial`, of the constant `scalar` and the vanishing
/// polynomial `x^n - 1` of the domain of size `n`. The product is computed
/// over a domain of at least `n + 2` points, which exists up to `n = 2^31`.
#[verifier::external_body]
pub(crate) fn poly_scaled_vanishing(scalar: &Fr, n: usize) -> (r: Vec<Fr>)
    requires
        is_power_of_two(n as nat),
        2 * n <= max_domain_size(),
    ensures
        values(r@) == scaled_vanishing(scalar.value(), n as nat),
{
    let to = |f: &Fr| Scalar::from_repr(BigInteger256([f.l0, f.l1, f.l2, f.l3])).unwrap();
    let back = |c: &Scalar| {
        let l = c.into_repr().0;
        Fr { l0: l[0], l1: l[1], l2: l[2], l3: l[3] }
    };
    let d = GeneralEvaluationDomain::<Scalar>::new(n).unwrap();
    let v: DensePolynomial<Scalar> = d.vanishing_polynomial().into();
    let p = &DensePolynomial::from_coefficients_slice(&[to(scalar)]) * &v;
    p.coeffs.iter().map(back).collect()
}

/// `DensePolynomial::divide_by_vanishing_poly`: quotient and remainder of
/// the division by `x^m - 1`, the vanishing polynomial of the domain of size
/// `m`.
#[verifier::external_body]
pub(crate) fn poly_divide_by_vanishing(p: &Vec<Fr>, m: usize) -> (r: (Vec<Fr>, Vec<Fr>))
    requires
        is_power_of_two(m as nat),
        m <= max_domain_size(),
    ensures
        is_vanishing_division(values(p@), m as nat, values(r.0@), values(r.1@)),
{
    let to = |f: &Fr| Scalar::from_repr(BigInteger256([f.l0, f.l1, f.l2, f.l3])).unwrap();
    let back = |c: &Scalar| {
        let l = c.into_repr().0;
        Fr { l0: l[0], l1: l[1], l2: l[2], l3: l[3] }
    };
    let x = DensePolynomial::from_coefficients_vec(p.iter().map(to).collect());
    let d = GeneralEvaluationDomain::<Scalar>::new(m).unwrap();
    let (q, r) = x.divide_by_vanishing_poly(d).unwrap();
    (q.coeffs.iter().map(back).collect(), r.coeffs.iter().map(back).collect())
}

/// Quotient and remainder of the division of `p` by `x^m - 1`.
pub open spec fn vanishing_division(p: Seq<nat>, m: nat) -> (Seq<nat>, Seq<nat>) {
    choose|qr: (Seq<nat>, Seq<nat>)| is_vanishing_division(p, m, qr.0, qr.1)
}

pub open spec fn vanishing_quotient(p: Seq<nat>, m: nat) -> Seq<nat> {
    vanishing_division(p, m).0
}

pub open spec fn vanishing_remainder(p: Seq<nat>, m: nat) -> Seq<nat> {
    vanishing_division(p, m).1
}

/// A quotient and a remainder that satisfy the division equation are the
/// quotient and the remainder.
pub proof fn lemma_division_found(p: Seq<nat>, m: nat, q: Seq<nat>, r: Seq<nat>)
    requires
        m >= 1,
        is_vanishing_division(p, m, q, r),
    ensures
        vanishing_quotient(p, m) == q,
        vanishing_remainder(p, m) == r,
{
    let found = (q, r);
    assert(is_vanishing_division(p, m, found.0, found.1));
    let chosen = vanishing_division(p, m);
    lemma_division_unique(p, m, q, r, chosen.0, chosen.1);
}

/// A polynomial of fewer than `m` reduced coefficients is its own remainder,
/// with quotient zero.
pub proof fn lemma_division_of_short(p: Seq<nat>, m: nat)
    requires
        m >= 1,
        p.len() <= m,
        is_reduced(p),
    ensures
        vanishing_quotient(p, m) == Seq::<nat>::empty(),
        vanishing_remainder(p, m) == normalized(p),
{
    let q = Seq::<nat>::empty();
    let r = normalized(p);
    lemma_normalized(p);
    assert forall|t: int| 0 <= t implies #[trigger] coefficient(p, t) % modulus() == field_sum(
        field_difference(coefficient(q, t - m), coefficient(q, t)),
        coefficient(r, t),
    ) by {
        assert(coefficient(r, t) == coefficient(p, t));
        assert(coefficient(p, t) < modulus());
        lemma_field_operations(0, 0);
        lemma_field_operations(0, coefficient(p, t));
        vstd::arithmetic::div_mod::lemma_small_mod(coefficient(p, t), modulus());
    }
    assert(is_reduced(r)) by {
        assert forall|i: int| 0 <= i < r.len() implies #[trigger] r[i] < modulus() by {
            assert(r[i] == p[i]);
        }
    }
    lemma_division_found(p, m, q, r);
}

/// How many coefficients stand at `j` and above.
pub open spec fn remaining(len: nat, j: int) -> nat {
    if j < len {
        (len - j) as nat
    } else {
        0
    }
}

/// The sum of the coefficients of `x^j`, `x^(j + m)`, `x^(j + 2m)`, ...,
/// reduced: what the coefficients from `j` on fold to when `x^m` is set to
/// one.
pub open spec fn folded(p: Seq<nat>, m: nat, j: int) -> nat
    decreases remaining(p.len(), j),
{
    if m == 0 || j < 0 || j >= p.len() {
        0
    } else {
        field_sum(p[j] % modulus(), folded(p, m, j + m))
    }
}

/// The quotient in closed form, before trailing zeros are dropped:
/// coefficient `s` is what folds onto it from above.
pub open spec fn folded_quotient(p: Seq<nat>, m: nat) -> Seq<nat> {
    Seq::new(
        if p.len() > m {
            (p.len() - m) as nat
        } else {
            0
        },
        |s: int| folded(p, m, s + m),
    )
}

/// The remainder in closed form, before trailing zeros are dropped.
pub open spec fn folded_remainder(p: Seq<nat>, m: nat) -> Seq<nat> {
    Seq::new(
        if p.len() < m {
            p.len()
        } else {
            m
        },
        |t: int| folded(p, m, t),
    )
}

/// A fold is a reduced value, and it is the coefficient it starts at plus
/// the fold one step further up.
pub proof fn lemma_folded_step(p: Seq<nat>, m: nat, j: int)
    requires
        m >= 1,
        j >= 0,
    ensures
        folded(p, m, j) < modulus(),
        folded(p, m, j) == field_sum(coefficient(p, j) % modulus(), folded(p, m, j + m)),
    decreases remaining(p.len(), j),
{
    if j < p.len() {
        lemma_folded_step(p, m, j + m);
        vstd::arithmetic::div_mod::lemma_mod_pos_bound((p[j] % modulus()) as int, modulus() as int);
        lemma_field_operations(p[j] % modulus(), folded(p, m, j + m));
    } else {
        vstd::arithmetic::div_mod::lemma_small_mod(0, modulus());
    }
}

/// Every polynomial has a quotient and a remainder by `x^m - 1`, and they
/// are the folds of its coefficients.
pub proof fn lemma_division_exists(p: Seq<nat>, m: nat)
    requires
        m >= 1,
    ensures
        is_vanishing_division(p, m, vanishing_quotient(p, m), vanishing_remainder(p, m)),
        vanishing_quotient(p, m) == normalized(folded_quotient(p, m)),
        vanishing_remainder(p, m) == normalized(folded_remainder(p, m)),
{
    let q = normalized(folded_quotient(p, m));
    let r = normalized(folded_remainder(p, m));
    lemma_normalized(folded_quotient(p, m));
    lemma_normalized(folded_remainder(p, m));
    assert forall|s: int| coefficient(q, s) == if s >= 0 {
        folded(p, m, s + m)
    } else {
        0
    } by {
        assert(coefficient(q, s) == coefficient(folded_quotient(p, m), s));
    }
    assert forall|t: int| coefficient(r, t) == if 0 <= t < m {
        folded(p, m, t)
    } else {
        0
    } by {
        assert(coefficient(r, t) == coefficient(folded_remainder(p, m), t));
    }
    assert(is_reduced(q)) by {
        assert forall|i: int| 0 <= i < q.len() implies #[trigger] q[i] < modulus() by {
            assert(q[i] == coefficient(q, i));
            lemma_folded_step(p, m, i + m);
        }
    }
    assert(is_reduced(r)) by {
        assert forall|i: int| 0 <= i < r.len() implies #[trigger] r[i] < modulus() by {
            assert(r[i] == coefficient(r, i));
            lemma_folded_step(p, m, i);
        }
    }
    assert forall|t: int| 0 <= t implies #[trigger] coefficient(p, t) % modulus() == field_sum(
        field_difference(coefficient(q, t - m), coefficient(q, t)),
        coefficient(r, t),
    ) by {
        let c = coefficient(p, t) % modulus();
        let above = folded(p, m, t + m);
        let here = folded(p, m, t);
        lemma_folded_step(p, m, t);
        lemma_folded_step(p, m, t + m);
        vstd::arithmetic::div_mod::lemma_mod_pos_bound(coefficient(p, t) as int, modulus() as int);
        lemma_field_operations(c, above);
        assert(coefficient(q, t) == above);
        if t < m {
            assert(coefficient(q, t - m) == 0);
            assert(coefficient(r, t) == here);
            lemma_field_operations(0, above);
            lemma_field_operations(field_difference(0, above), here);
        } else {
            assert(coefficient(q, t - m) == here);
            assert(coefficient(r, t) == 0);
            lemma_field_operations(here, above);
            lemma_field_operations(field_difference(here, above), 0);
        }
    }
    lemma_division_found(p, m, q, r);
}

/// Four summands may be reduced pairwise in either grouping.
proof fn lemma_regroup(u: nat, v: nat, s: nat, t: nat)
    ensures
        field_sum(field_sum(u, v) % modulus(), field_sum(s, t)) == field_sum(
            field_sum(u % modulus(), s),
            field_sum(v % modulus(), t),
        ),
{
    let m = modulus() as int;
    let all = (u + v + s + t) as int;
    vstd::arithmetic::div_mod::lemma_mod_twice((u + v) as int, m);
    vstd::arithmetic::div_mod::lemma_add_mod_noop((u + v) as int, (s + t) as int, m);
    assert(field_sum(field_sum(u, v) % modulus(), field_sum(s, t)) == all % m);
    let left = (u % modulus() + s) as int;
    let right = (v % modulus() + t) as int;
    vstd::arithmetic::div_mod::lemma_add_mod_noop(left, right, m);
    vstd::arithmetic::div_mod::lemma_add_mod_noop_right((u % modulus() + s + t) as int, v as int, m);
    vstd::arithmetic::div_mod::lemma_add_mod_noop_right((s + t + v) as int, u as int, m);
    assert(field_sum(field_sum(u % modulus(), s), field_sum(v % modulus(), t)) == all % m);
}

/// The fold of a sum is the sum of the folds.
pub proof fn lemma_folded_sum(a: Seq<nat>, b: Seq<nat>, m: nat, j: int)
    requires
        m >= 1,
        j >= 0,
    ensures
        folded(poly_sum(a, b), m, j) == field_sum(folded(a, m, j), folded(b, m, j)),
    decreases remaining(longer(a.len(), b.len()), j),
{
    let sum = poly_sum(a, b);
    lemma_folded_step(sum, m, j);
    lemma_folded_step(a, m, j);
    lemma_folded_step(b, m, j);
    if j < longer(a.len(), b.len()) {
        lemma_folded_sum(a, b, m, j + m);
        assert(coefficient(sum, j) == field_sum(coefficient(a, j), coefficient(b, j)));
        lemma_regroup(
            coefficient(a, j),
            coefficient(b, j),
            folded(a, m, j + m),
            folded(b, m, j + m),
        );
    } else {
        vstd::arithmetic::div_mod::lemma_small_mod(0, modulus());
    }
}

/// A multiple of `x^h - 1` folds to nothing under `x^m = 1` where `m`
/// divides `h`: from a multiple of `m` above zero the fold is the scalar, and
/// from zero it is the scalar and its negative.
proof fn lemma_folded_vanishing(scalar: nat, h: nat, m: nat, j: int)
    requires
        m >= 1,
        h >= m,
        h % m == 0,
        scalar < modulus(),
        j >= 0,
    ensures
        folded(scaled_vanishing(scalar, h), m, j) == if scalar != 0 && 0 < j <= h && j % (m as int)
            == 0 {
            scalar
        } else {
            0
        },
    decreases remaining(h + 1, j),
{
    let v = scaled_vanishing(scalar, h);
    lemma_folded_step(v, m, j);
    vstd::arithmetic::div_mod::lemma_small_mod(0, modulus());
    vstd::arithmetic::div_mod::lemma_small_mod(scalar, modulus());
    if scalar != 0 && j <= h {
        lemma_folded_vanishing(scalar, h, m, j + m);
        assert((j + m) % (m as int) == j % (m as int)) by (nonlinear_arith)
            requires
                m >= 1,
        ;
        lemma_field_operations(0, scalar);
        lemma_field_operations(field_difference(0, scalar), scalar);
        lemma_field_operations(scalar, 0);
        lemma_field_operations(0, 0);
        if j == 0 {
            assert(0int % (m as int) == 0);
            assert(v[0] == field_difference(0, scalar));
            vstd::arithmetic::div_mod::lemma_small_mod(field_difference(0, scalar), modulus());
        } else if j == h {
            assert(v[j] == scalar);
        } else {
            assert(v[j] == 0);
            if j % (m as int) == 0 {
                assert(j + m <= h) by (nonlinear_arith)
                    requires
                        0 < j < h,
                        j % (m as int) == 0,
                        h % m == 0,
                        m >= 1,
                ;
            }
        }
    }
}

/// A division by `x^m - 1` is exact if and only if the coefficients fold to
/// zero at each of the `m` places.
pub proof fn lemma_exact_division(p: Seq<nat>, m: nat)
    requires
        m >= 1,
    ensures
        vanishing_remainder(p, m).len() == 0 <==> forall|t: int|
            0 <= t < m ==> #[trigger] folded(p, m, t) == 0,
{
    lemma_division_exists(p, m);
    let raw = folded_remainder(p, m);
    lemma_normalized(raw);
    if vanishing_remainder(p, m).len() == 0 {
        assert forall|t: int| 0 <= t < m implies #[trigger] folded(p, m, t) == 0 by {
            assert(coefficient(normalized(raw), t) == coefficient(raw, t));
        }
    }
    if forall|t: int| 0 <= t < m ==> #[trigger] folded(p, m, t) == 0 {
        let r = normalized(raw);
        if r.len() > 0 {
            let top = r.len() - 1;
            assert(coefficient(r, top) == coefficient(raw, top));
            assert(raw[top] == folded(p, m, top));
        }
    }
}

/// Adding a multiple of `x^h - 1` does not change the remainder by
/// `x^m - 1` where `m` divides `h`: whether a division is exact does not
/// depend on the blinding.
pub proof fn lemma_blinding_keeps_remainder(p: Seq<nat>, scalar: nat, h: nat, m: nat)
    requires
        m >= 1,
        h >= m,
        h % m == 0,
        scalar < modulus(),
    ensures
        vanishing_remainder(poly_sum(p, scaled_vanishing(scalar, h)), m) == vanishing_remainder(
            p,
            m,
        ),
{
    let blinded = poly_sum(p, scaled_vanishing(scalar, h));
    lemma_division_exists(p, m);
    lemma_division_exists(blinded, m);
    let plain = normalized(folded_remainder(p, m));
    let other = normalized(folded_remainder(blinded, m));
    lemma_normalized(folded_remainder(p, m));
    lemma_normalized(folded_remainder(blinded, m));
    assert forall|t: int| 0 <= t implies coefficient(other, t) == coefficient(plain, t) by {
        assert(coefficient(other, t) == coefficient(folded_remainder(blinded, m), t));
        assert(coefficient(plain, t) == coefficient(folded_remainder(p, m), t));
        lemma_folded_step(p, m, t);
        lemma_folded_step(blinded, m, t);
        if t < m {
            lemma_folded_sum(p, scaled_vanishing(scalar, h), m, t);
            lemma_folded_vanishing(scalar, h, m, t);
            if t > 0 {
                vstd::arithmetic::div_mod::lemma_small_mod(t as nat, m);
            }
            assert(folded(scaled_vanishing(scalar, h), m, t) == 0);
            lemma_field_operations(folded(p, m, t), 0);
        }
    }
    lemma_same_coefficients(other, plain);
}

/// Divides by `x^m - 1`, the vanishing polynomial of the domain of size `m`.
pub fn divide_by_vanishing(p: &Vec<Fr>, m: usize) -> (r: (Vec<Fr>, Vec<Fr>))
    requires
        is_power_of_two(m as nat),
        m <= max_domain_size(),
    ensures
        values(r.0@) == vanishing_quotient(values(p@), m as nat),
        values(r.1@) == vanishing_remainder(values(p@), m as nat),
        is_vanishing_division(values(p@), m as nat, values(r.0@), values(r.1@)),
{
    let r = poly_divide_by_vanishing(p, m);
    proof {
        lemma_division_found(values(p@), m as nat, values(r.0@), values(r.1@));
    }
    r
}

} // verus!
