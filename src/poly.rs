//! Dense univariate polynomials over `Fr` and the radix-2 evaluation domain.
//!
//! A polynomial is the sequence of its coefficients, lowest degree first. The
//! arithmetic is done by `ark_poly`; the interpolation helpers of the scheme
//! (the Lagrange basis and the "mostly zero" interpolation) are built here on
//! top of it.
use ark_bls12_381::Fr as ArkFr;
use ark_poly::univariate::DensePolynomial;
use ark_poly::{
    DenseUVPolynomial, EvaluationDomain, Evaluations, GeneralEvaluationDomain, Polynomial,
    Radix2EvaluationDomain,
};
use ark_serialize::{CanonicalDeserialize, CanonicalSerialize};
use vstd::prelude::*;


use crate::algebra::{all_zero, fr_inverse_of, fr_mul_of, fr_neg_of, fr_u64_bytes, fr_views, Fr};

verus! {

/// Coefficients of the polynomial that takes the values `evals` on the domain
/// of size `evals.len()`.
pub uninterp spec fn interpolate_of(evals: Seq<Seq<u8>>) -> Seq<Seq<u8>>;

/// Values of a polynomial on the domain of size `n`.
pub uninterp spec fn fft_of(n: usize, coeffs: Seq<Seq<u8>>) -> Seq<Seq<u8>>;

/// The elements `omega^0, ..., omega^(n-1)` of the domain of size `n`.
pub uninterp spec fn domain_elements_of(n: usize) -> Seq<Seq<u8>>;

/// Coefficients of the product of two polynomials.
pub uninterp spec fn poly_mul_of(a: Seq<Seq<u8>>, b: Seq<Seq<u8>>) -> Seq<Seq<u8>>;

/// Value of a polynomial at a point.
pub uninterp spec fn poly_eval_of(p: Seq<Seq<u8>>, x: Seq<u8>) -> Seq<u8>;

/// Coefficients of a polynomial multiplied by a scalar.
pub uninterp spec fn poly_scale_of(p: Seq<Seq<u8>>, s: Seq<u8>) -> Seq<Seq<u8>>;

/// Coefficients of the difference of two polynomials.
pub uninterp spec fn poly_sub_of(a: Seq<Seq<u8>>, b: Seq<Seq<u8>>) -> Seq<Seq<u8>>;

/// Quotient of a polynomial by the vanishing polynomial `X^n - 1`.
pub uninterp spec fn poly_div_vanishing_of(p: Seq<Seq<u8>>, n: usize) -> Seq<Seq<u8>>;

/// Quotient of the division of one polynomial by another.
pub uninterp spec fn poly_div_of(a: Seq<Seq<u8>>, b: Seq<Seq<u8>>) -> Seq<Seq<u8>>;

/// Whether `n` is a power of two.
pub open spec fn is_pow2(n: nat) -> bool
    decreases n,
{
    if n == 1 {
        true
    } else if n == 0 || n % 2 == 1 {
        false
    } else {
        is_pow2(n / 2)
    }
}

/// Whether a radix-2 domain of size `n` exists: `n` is a power of two not
/// above the two-adicity of the field.
pub open spec fn domain_ok(n: nat) -> bool {
    is_pow2(n) && n <= 0x1_0000_0000
}

/// Index of the last non-zero coefficient, or zero when there is none: the
/// degree of the polynomial.
pub open spec fn degree_of(c: Seq<Seq<u8>>) -> nat
    decreases c.len(),
{
    if c.len() == 0 {
        0
    } else if !all_zero(c.last()) {
        (c.len() - 1) as nat
    } else {
        degree_of(c.drop_last())
    }
}

/// The degree is below the number of coefficients, when there is one.
pub proof fn lemma_degree_bound(c: Seq<Seq<u8>>)
    ensures
        c.len() > 0 ==> degree_of(c) < c.len(),
    decreases c.len(),
{
    if c.len() > 0 && all_zero(c.last()) {
        lemma_degree_bound(c.drop_last());
        assert(degree_of(c) == degree_of(c.drop_last()));
        if c.drop_last().len() == 0 {
            assert(degree_of(c.drop_last()) == 0);
        }
    }
}

/// The values of `L_i` on the domain of size `n`: one at `i`, zero elsewhere.
pub open spec fn indicator(n: nat, i: nat) -> Seq<Seq<u8>> {
    Seq::new(n, |j: int| if j == i { fr_u64_bytes(1) } else { fr_u64_bytes(0) })
}

/// `prod_{1 <= k < m} (X - points[k])`, multiplied out from the left.
pub open spec fn vanishing_product(points: Seq<Seq<u8>>, m: nat) -> Seq<Seq<u8>>
    decreases m,
{
    if m <= 1 {
        seq![fr_u64_bytes(1)]
    } else {
        poly_mul_of(
            vanishing_product(points, (m - 1) as nat),
            seq![fr_neg_of(points[m - 1]), fr_u64_bytes(1)],
        )
    }
}

/// The polynomial that is `v` at `points[0]` and zero at the other points:
/// `vanishing_product * (v / vanishing_product(points[0]))`; the constant one
/// for no point.
pub open spec fn mostly_zero_of(v: Seq<u8>, points: Seq<Seq<u8>>) -> Seq<Seq<u8>> {
    if points.len() == 0 {
        seq![fr_u64_bytes(1)]
    } else {
        let p = vanishing_product(points, points.len());
        let scale = poly_eval_of(p, points[0]);
        poly_scale_of(p, fr_mul_of(v, fr_inverse_of(scale)))
    }
}

/// Whether `mostly_zero_of(v, points)` is defined: the product does not vanish
/// at `points[0]`, which holds when the points are distinct.
pub open spec fn mostly_zero_defined(points: Seq<Seq<u8>>) -> bool {
    points.len() == 0 || !all_zero(
        poly_eval_of(vanishing_product(points, points.len()), points[0]),
    )
}

/// Whether `n` is a power of two.
pub fn is_power_of_two(n: usize) -> (r: bool)
    ensures
        r == is_pow2(n as nat),
{
    let mut m = n;
    while m > 1 && m % 2 == 0
        invariant
            is_pow2(n as nat) == is_pow2(m as nat),
        decreases m,
    {
        m = m / 2;
    }
    m == 1
}

/// Whether a radix-2 domain of size `n` exists.
pub fn domain_exists(n: usize) -> (r: bool)
    ensures
        r == domain_ok(n as nat),
{
    is_power_of_two(n) && (n as u64) <= 0x1_0000_0000u64
}

/// A dense polynomial, by its coefficients from degree zero upwards.
#[derive(Debug)]
pub struct Poly {
    pub coeffs: Vec<Fr>,
}

impl View for Poly {
    type V = Seq<Seq<u8>>;

    open spec fn view(&self) -> Seq<Seq<u8>> {
        fr_views(self.coeffs@)
    }
}

/// A copy of a sequence of scalars.
pub fn copy_frs(v: &Vec<Fr>) -> (r: Vec<Fr>)
    ensures
        fr_views(r@) == fr_views(v@),
{
    let mut r: Vec<Fr> = Vec::new();
    let mut i: usize = 0;
    while i < v.len()
        invariant
            i <= v@.len(),
            r@.len() == i,
            forall|k: int| 0 <= k < i ==> r@[k]@ == v@[k]@,
        decreases v@.len() - i,
    {
        r.push(v[i].copy());
        i = i + 1;
    }
    assert(fr_views(r@) =~= fr_views(v@));
    r
}

impl Poly {
    /// The polynomial with the given coefficients.
    pub fn from_coeffs(coeffs: Vec<Fr>) -> (r: Poly)
        ensures
            r@ == fr_views(coeffs@),
    {
        Poly { coeffs }
    }

    /// A copy of the polynomial.
    pub fn copy(&self) -> (r: Poly)
        ensures
            r@ == self@,
    {
        Poly { coeffs: copy_frs(&self.coeffs) }
    }

    /// The degree: the index of the last non-zero coefficient (zero for the
    /// zero polynomial).
    pub fn degree(&self) -> (r: usize)
        ensures
            r == degree_of(self@),
    {
        let mut m: usize = self.coeffs.len();
        assert(self@.subrange(0, m as int) =~= self@);
        while m > 0
            invariant
                m <= self.coeffs@.len(),
                degree_of(self@) == degree_of(self@.subrange(0, m as int)),
            decreases m,
        {
            let ghost s = self@.subrange(0, m as int);
            if !self.coeffs[m - 1].is_zero() {
                return m - 1;
            }
            assert(s.drop_last() =~= self@.subrange(0, m - 1));
            m = m - 1;
        }
        0
    }

    /// The value at `x`.
    pub fn evaluate(&self, x: &Fr) -> (r: Fr)
        ensures
            r@ == poly_eval_of(self@, x@),
    {
        self.evaluate_ark(x)
    }

    /// Relies on `Polynomial::evaluate` of `DensePolynomial`.
    #[verifier::external_body]
    fn evaluate_ark(&self, x: &Fr) -> (r: Fr)
        ensures
            r@ == poly_eval_of(self@, x@),
    {
        let p = DensePolynomial::from_coefficients_vec(self.coeffs.iter().map(|c| ArkFr::deserialize_compressed_unchecked(&c.bytes[..]).unwrap()).collect::<Vec<_>>());
        let x = ArkFr::deserialize_compressed_unchecked(&x.bytes[..]).unwrap();
        let mut bytes = Vec::new();
        p.evaluate(&x).serialize_compressed(&mut bytes).unwrap();
        Fr { bytes }
    }

    /// The product of two polynomials.
    pub fn naive_mul(&self, o: &Poly) -> (r: Poly)
        ensures
            r@ == poly_mul_of(self@, o@),
    {
        self.naive_mul_ark(o)
    }

    /// Relies on `DensePolynomial::naive_mul`: the product of two polynomials.
    #[verifier::external_body]
    fn naive_mul_ark(&self, o: &Poly) -> (r: Poly)
        ensures
            r@ == poly_mul_of(self@, o@),
    {
        let a = DensePolynomial::from_coefficients_vec(self.coeffs.iter().map(|c| ArkFr::deserialize_compressed_unchecked(&c.bytes[..]).unwrap()).collect::<Vec<_>>());
        let b = DensePolynomial::from_coefficients_vec(o.coeffs.iter().map(|c| ArkFr::deserialize_compressed_unchecked(&c.bytes[..]).unwrap()).collect::<Vec<_>>());
        Poly { coeffs: a.naive_mul(&b).coeffs.iter().map(|y| {
            let mut bytes = Vec::new();
            y.serialize_compressed(&mut bytes).unwrap();
            Fr { bytes }
        }).collect() }
    }

    /// Every coefficient times `s`.
    pub fn scale(&self, s: &Fr) -> (r: Poly)
        ensures
            r@ == poly_scale_of(self@, s@),
    {
        self.scale_ark(s)
    }

    /// Relies on `Mul<Fr>` for `&DensePolynomial`: every coefficient times `s`.
    #[verifier::external_body]
    fn scale_ark(&self, s: &Fr) -> (r: Poly)
        ensures
            r@ == poly_scale_of(self@, s@),
    {
        let a = DensePolynomial::from_coefficients_vec(self.coeffs.iter().map(|c| ArkFr::deserialize_compressed_unchecked(&c.bytes[..]).unwrap()).collect::<Vec<_>>());
        let x = ArkFr::deserialize_compressed_unchecked(&s.bytes[..]).unwrap();
        Poly { coeffs: (&a * x).coeffs.iter().map(|y| {
            let mut bytes = Vec::new();
            y.serialize_compressed(&mut bytes).unwrap();
            Fr { bytes }
        }).collect() }
    }

    /// The difference.
    pub fn sub(&self, o: &Poly) -> (r: Poly)
        ensures
            r@ == poly_sub_of(self@, o@),
    {
        self.sub_ark(o)
    }

    /// Relies on `Sub` for `&DensePolynomial`.
    #[verifier::external_body]
    fn sub_ark(&self, o: &Poly) -> (r: Poly)
        ensures
            r@ == poly_sub_of(self@, o@),
    {
        let a = DensePolynomial::from_coefficients_vec(self.coeffs.iter().map(|c| ArkFr::deserialize_compressed_unchecked(&c.bytes[..]).unwrap()).collect::<Vec<_>>());
        let b = DensePolynomial::from_coefficients_vec(o.coeffs.iter().map(|c| ArkFr::deserialize_compressed_unchecked(&c.bytes[..]).unwrap()).collect::<Vec<_>>());
        Poly { coeffs: (&a - &b).coeffs.iter().map(|y| {
            let mut bytes = Vec::new();
            y.serialize_compressed(&mut bytes).unwrap();
            Fr { bytes }
        }).collect() }
    }

    /// The quotient by `X^n - 1`.
    pub fn divide_by_vanishing(&self, n: usize) -> (r: Poly)
        requires
            domain_ok(n as nat),
        ensures
            r@ == poly_div_vanishing_of(self@, n),
    {
        self.divide_by_vanishing_ark(n)
    }

    /// Relies on `DensePolynomial::divide_by_vanishing_poly` over the radix-2
    /// domain of size `n`: the quotient by `X^n - 1`.
    #[verifier::external_body]
    fn divide_by_vanishing_ark(&self, n: usize) -> (r: Poly)
        requires
            domain_ok(n as nat),
        ensures
            r@ == poly_div_vanishing_of(self@, n),
    {
        let a = DensePolynomial::from_coefficients_vec(self.coeffs.iter().map(|c| ArkFr::deserialize_compressed_unchecked(&c.bytes[..]).unwrap()).collect::<Vec<_>>());
        let d = Radix2EvaluationDomain::<ArkFr>::new(n).unwrap();
        Poly { coeffs: a.divide_by_vanishing_poly(d).0.coeffs.iter().map(|y| {
            let mut bytes = Vec::new();
            y.serialize_compressed(&mut bytes).unwrap();
            Fr { bytes }
        }).collect() }
    }

    /// The quotient of the division by `d`.
    pub fn div(&self, d: &Poly) -> (r: Poly)
        requires
            exists|i: int| 0 <= i < d@.len() && !all_zero(#[trigger] d@[i]),
        ensures
            r@ == poly_div_of(self@, d@),
    {
        self.div_ark(d)
    }

    /// Relies on `Div` for `&DensePolynomial`, which panics only on a zero
    /// divisor: the quotient of the division.
    #[verifier::external_body]
    fn div_ark(&self, d: &Poly) -> (r: Poly)
        requires
            exists|i: int| 0 <= i < d@.len() && !all_zero(#[trigger] d@[i]),
        ensures
            r@ == poly_div_of(self@, d@),
    {
        let a = DensePolynomial::from_coefficients_vec(self.coeffs.iter().map(|c| ArkFr::deserialize_compressed_unchecked(&c.bytes[..]).unwrap()).collect::<Vec<_>>());
        let b = DensePolynomial::from_coefficients_vec(d.coeffs.iter().map(|c| ArkFr::deserialize_compressed_unchecked(&c.bytes[..]).unwrap()).collect::<Vec<_>>());
        Poly { coeffs: (&a / &b).coeffs.iter().map(|y| {
            let mut bytes = Vec::new();
            y.serialize_compressed(&mut bytes).unwrap();
            Fr { bytes }
        }).collect() }
    }
}

/// Relies on `Evaluations::interpolate` over a `GeneralEvaluationDomain`
/// (an inverse FFT), which exists for the sizes `domain_ok` allows.
#[verifier::external_body]
fn interpolate(evals: &Vec<Fr>) -> (r: Poly)
    requires
        domain_ok(evals@.len()),
    ensures
        r@ == interpolate_of(fr_views(evals@)),
{
    let d = GeneralEvaluationDomain::<ArkFr>::new(evals.len()).unwrap();
    let v = evals.iter().map(|c| ArkFr::deserialize_compressed_unchecked(&c.bytes[..]).unwrap()).collect::<Vec<_>>();
    Poly { coeffs: Evaluations::from_vec_and_domain(v, d).interpolate().coeffs.iter().map(|y| {
        let mut bytes = Vec::new();
        y.serialize_compressed(&mut bytes).unwrap();
        Fr { bytes }
    }).collect() }
}

/// The values of `p` at `omega^0, ..., omega^(n-1)`.
pub fn fft(p: &Poly, n: usize) -> (r: Vec<Fr>)
    requires
        domain_ok(n as nat),
        p@.len() <= n,
    ensures
        r@.len() == n,
        fr_views(r@) == fft_of(n, p@),
{
    fft_ark(p, n)
}

/// Relies on `EvaluationDomain::fft` of the radix-2 domain of size `n`: the
/// values of `p` at `omega^0, ..., omega^(n-1)`.
#[verifier::external_body]
fn fft_ark(p: &Poly, n: usize) -> (r: Vec<Fr>)
    requires
        domain_ok(n as nat),
        p@.len() <= n,
    ensures
        r@.len() == n,
        fr_views(r@) == fft_of(n, p@),
{
    let d = Radix2EvaluationDomain::<ArkFr>::new(n).unwrap();
    d.fft(&p.coeffs.iter().map(|c| ArkFr::deserialize_compressed_unchecked(&c.bytes[..]).unwrap()).collect::<Vec<_>>()).iter().map(|y| {
        let mut bytes = Vec::new();
        y.serialize_compressed(&mut bytes).unwrap();
        Fr { bytes }
    }).collect()
}

/// The elements `omega^0, ..., omega^(n-1)` of the domain of size `n`.
pub fn domain_elements(n: usize) -> (r: Vec<Fr>)
    requires
        domain_ok(n as nat),
    ensures
        r@.len() == n,
        fr_views(r@) == domain_elements_of(n),
        r@[0]@ == fr_u64_bytes(1),
{
    domain_elements_ark(n)
}

/// Relies on `EvaluationDomain::elements` of the radix-2 domain of size `n`,
/// which starts at `omega^0 = 1`.
#[verifier::external_body]
fn domain_elements_ark(n: usize) -> (r: Vec<Fr>)
    requires
        domain_ok(n as nat),
    ensures
        r@.len() == n,
        fr_views(r@) == domain_elements_of(n),
        r@[0]@ == fr_u64_bytes(1),
{
    let d = Radix2EvaluationDomain::<ArkFr>::new(n).unwrap();
    d.elements().collect::<Vec<_>>().iter().map(|y| {
        let mut bytes = Vec::new();
        y.serialize_compressed(&mut bytes).unwrap();
        Fr { bytes }
    }).collect()
}

/// The Lagrange basis polynomial `L_i` of the domain of size `n`: one at
/// `omega^i`, zero at the other points, obtained by an inverse FFT of the
/// indicator vector.
pub fn lagrange_poly(n: usize, i: usize) -> (r: Poly)
    requires
        i < n,
        domain_ok(n as nat),
    ensures
        r@ == interpolate_of(indicator(n as nat, i as nat)),
{
    let mut evals: Vec<Fr> = Vec::new();
    let mut j: usize = 0;
    while j < n
        invariant
            j <= n,
            evals@.len() == j,
            forall|k: int| 0 <= k < j ==> #[trigger] evals@[k]@ == indicator(n as nat, i as nat)[k],
        decreases n - j,
    {
        let v = if i == j { Fr::one() } else { Fr::zero() };
        evals.push(v);
        j = j + 1;
    }
    assert(fr_views(evals@) =~= indicator(n as nat, i as nat));
    interpolate(&evals)
}

/// The polynomial that takes the value `eval` at `points[0]` and vanishes at
/// `points[1..]`: the product of `X - points[k]` scaled so that its value at
/// `points[0]` is `eval`. For no point at all it is the constant one. `None`
/// when the product vanishes at `points[0]` (a repeated point).
pub fn interp_mostly_zero(eval: &Fr, points: &Vec<Fr>) -> (r: Option<Poly>)
    ensures
        r.is_some() <==> mostly_zero_defined(fr_views(points@)),
        r matches Some(p) ==> p@ == mostly_zero_of(eval@, fr_views(points@)),
{
    let ghost pts = fr_views(points@);
    if points.len() == 0 {
        let p = Poly::from_coeffs(vec![Fr::one()]);
        assert(p@ =~= seq![fr_u64_bytes(1)]);
        return Some(p);
    }
    let mut interp = Poly::from_coeffs(vec![Fr::one()]);
    assert(interp@ =~= vanishing_product(pts, 1));
    let mut k: usize = 1;
    while k < points.len()
        invariant
            1 <= k <= points@.len(),
            pts == fr_views(points@),
            interp@ == vanishing_product(pts, k as nat),
        decreases points@.len() - k,
    {
        let factor = Poly::from_coeffs(vec![points[k].neg(), Fr::one()]);
        assert(factor@ =~= seq![fr_neg_of(pts[k as int]), fr_u64_bytes(1)]);
        interp = interp.naive_mul(&factor);
        k = k + 1;
    }
    let scale = interp.evaluate(&points[0]);
    match scale.inverse() {
        None => None,
        Some(inv) => {
            let s = eval.mul(&inv);
            Some(interp.scale(&s))
        },
    }
}

} // verus!
