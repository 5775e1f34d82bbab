//! Field descriptors for GF(base): construction of the multiplicative-inverse
//! table by the extended Euclidean algorithm, and shared handles to the result.
//!
//! Construction never tests primality directly: it attempts to invert every
//! element, and the first element that shares a factor with the base is what
//! reports that the base is composite. The contract of [`Gf::new`] records that
//! this emergent behaviour decides primality exactly.

use crate::arith::{
    gcd, is_prime, lemma_divisor_le, lemma_divisor_not_invertible, lemma_gcd_divides,
    lemma_inverse_unique,
};
use crate::text::{decimal, render_usize};
use std::sync::Arc;
use vstd::arithmetic::div_mod::{
    lemma_fundamental_div_mod, lemma_mod_bound, lemma_mod_multiples_vanish,
    lemma_mul_mod_noop_left, lemma_small_mod,
};
use vstd::math::abs;
use vstd::prelude::*;
use vstd::string::StringExecFns;

verus! {

/// Why a field could not be constructed.
#[derive(Debug, Clone, Copy, PartialEq, Eq, Structural)]
pub enum GfError {
    /// GF of cardinality 0 has no elements at all.
    EmptyField,
    /// GF of cardinality 1 contains only zero, so no multiplicative identity.
    ZeroField,
    /// The cardinality is too large for the arithmetic's working precision.
    TooLargeField(usize),
    /// The cardinality is composite, so some element has no inverse.
    NotAField(usize),
}

impl GfError {
    /// The description that this error renders to.
    pub open spec fn spec_message(&self) -> Seq<char> {
        match *self {
            GfError::EmptyField => "GF[0] is empty"@,
            GfError::ZeroField => "GF[1] can contain only zero"@,
            GfError::TooLargeField(base) => "GF["@ + decimal(base as nat) + "] is too large"@,
            GfError::NotAField(base) => "field GF["@ + decimal(base as nat) + "] do not exist"@,
        }
    }

    /// Renders the error as the line of text it reports itself with.
    pub fn message(&self) -> (s: String)
        ensures
            s@ == self.spec_message(),
    {
        match *self {
            GfError::EmptyField => String::from_str("GF[0] is empty"),
            GfError::ZeroField => String::from_str("GF[1] can contain only zero"),
            GfError::TooLargeField(base) => {
                let mut s = String::from_str("GF[");
                let digits = render_usize(base);
                s.append(digits.as_str());
                s.append("] is too large");
                proof {
                    assert(s@ =~= self.spec_message());
                }
                s
            },
            GfError::NotAField(base) => {
                let mut s = String::from_str("field GF[");
                let digits = render_usize(base);
                s.append(digits.as_str());
                s.append("] do not exist");
                proof {
                    assert(s@ =~= self.spec_message());
                }
                s
            },
        }
    }
}

/// `base` is small enough that `(base - 1) * (base - 1)` fits the unsigned
/// working precision, which field construction demands.
pub open spec fn base_fits(base: int) -> bool {
    (base - 1) * (base - 1) <= usize::MAX as int
}

/// The range test that construction runs, `usize::MAX / (base - 1) >= base - 1`,
/// accepts exactly the bases whose squared predecessor fits.
proof fn lemma_fits_check(base: int)
    requires
        2 <= base,
    ensures
        base_fits(base) <==> usize::MAX as int / (base - 1) >= base - 1,
{
    let b = base - 1;
    let m = usize::MAX as int;
    lemma_fundamental_div_mod(m, b);
    let q = m / b;
    lemma_mod_bound(m, b);
    if q >= b {
        assert(b * b <= b * q) by (nonlinear_arith)
            requires
                b >= 1,
                q >= b,
        ;
    }
    if b * b <= m && q < b {
        assert(b * q + m % b < b * b) by (nonlinear_arith)
            requires
                b >= 1,
                q <= b - 1,
                m % b < b,
        ;
        assert(false);
    }
}

/// A base that passes the range test is far below the signed limit: twice the
/// base still fits unsigned precision, and the base itself fits signed.
pub(crate) proof fn lemma_base_fits_bounds(base: int)
    requires
        2 <= base,
        base_fits(base),
    ensures
        2 * base <= usize::MAX as int,
        base <= isize::MAX as int,
{
    let b = base - 1;
    let m = usize::MAX as int;
    assert(m == 2 * (isize::MAX as int) + 1);
    assert(m >= 0xffff_ffff);
    if b >= 4 {
        assert(4 * b <= b * b) by (nonlinear_arith)
            requires
                b >= 4,
        ;
    }
}

/// The immutable descriptor of GF(base): the cardinality and the table taking
/// each nonzero element to its multiplicative inverse (`inv[0]` is a sentinel).
#[derive(Debug)]
pub struct GfBase {
    base: usize,
    inv: Vec<usize>,
}

/// A shared, reference-counted handle to a field descriptor. Cloning a handle
/// shares the one inverse table instead of copying it.
#[derive(Debug, Clone)]
pub struct Gf(Arc<GfBase>);

/// Relies on std::sync::Arc::clone: a new handle to the same shared value.
#[verifier::external_body]
fn arc_clone(v: &Arc<GfBase>) -> (r: Arc<GfBase>)
    ensures
        r == *v,
{
    Arc::clone(v)
}

impl GfBase {
    /// The cardinality, as a mathematical integer.
    pub closed spec fn spec_base(&self) -> int {
        self.base as int
    }

    /// The inverse table, as a sequence.
    pub closed spec fn spec_inv(&self) -> Seq<usize> {
        self.inv@
    }

    /// Well-formedness: the cardinality is at least 2 and within precision, and
    /// the table maps every nonzero element to its multiplicative inverse.
    pub open spec fn wf(&self) -> bool {
        &&& 2 <= self.spec_base()
        &&& base_fits(self.spec_base())
        &&& self.spec_inv().len() == self.spec_base()
        &&& forall|i: int|
            1 <= i < self.spec_base() ==> 1 <= #[trigger] self.spec_inv()[i] < self.spec_base()
        &&& forall|i: int|
            1 <= i < self.spec_base() ==> (i * #[trigger] self.spec_inv()[i]) % self.spec_base()
                == 1
    }

    /// Builds the descriptor: rejects cardinalities 0, 1 and those out of
    /// range, then fills the inverse table, failing on the first element that
    /// shares a factor with the base. Succeeds exactly on primes in range.
    fn new(base: usize) -> (r: Result<GfBase, GfError>)
        ensures
            base == 0 ==> r == Err::<GfBase, GfError>(GfError::EmptyField),
            base == 1 ==> r == Err::<GfBase, GfError>(GfError::ZeroField),
            2 <= base && !base_fits(base as int) ==> r == Err::<GfBase, GfError>(
                GfError::TooLargeField(base),
            ),
            2 <= base && base_fits(base as int) && is_prime(base as int) ==> (r matches Ok(f)
                && f.wf() && f.spec_base() == base),
            2 <= base && base_fits(base as int) && !is_prime(base as int) ==> r == Err::<
                GfBase,
                GfError,
            >(GfError::NotAField(base)),
    {
        if base == 0 {
            return Err(GfError::EmptyField);
        }
        if base == 1 {
            return Err(GfError::ZeroField);
        }
        proof {
            lemma_fits_check(base as int);
        }
        if usize::MAX / (base - 1) < base - 1 {
            return Err(GfError::TooLargeField(base));
        }
        proof {
            lemma_base_fits_bounds(base as int);
        }
        let i_base = base as isize;

        let mut inv: Vec<usize> = Vec::new();
        let mut k: usize = 0;
        while k < base
            invariant
                k <= base,
                inv@.len() == k,
                forall|j: int| 0 <= j < k ==> inv@[j] == 0,
            decreases base - k,
        {
            inv.push(0);
            k = k + 1;
        }
        inv[1] = 1;
        proof {
            lemma_small_mod(1, base as nat);
        }

        let mut i: usize = 2;
        while i < base
            invariant
                2 <= i <= base,
                2 <= base,
                base_fits(base as int),
                i_base as int == base as int,
                inv@.len() == base,
                forall|j: int|
                    1 <= j < base && #[trigger] inv@[j] != 0 ==> 1 <= inv@[j] < base && (j * inv@[j])
                        % (base as int) == 1,
                forall|j: int| 1 <= j < i ==> #[trigger] inv@[j] != 0,
            decreases base - i,
        {
            if inv[i] == 0 {
                let tmp = match inv_calc(i_base, i as isize) {
                    Ok(v) => v,
                    Err(e) => {
                        proof {
                            let g = gcd(base as nat, i as nat);
                            lemma_gcd_divides(base as nat, i as nat);
                            lemma_divisor_le(g as int, i as int);
                            assert((base as int) % (g as int) == 0);
                            assert(!is_prime(base as int));
                        }
                        return Err(e);
                    },
                };
                inv[i] = tmp;
                inv[tmp] = i;
                proof {
                    assert(tmp as int * i as int == i as int * tmp as int) by (nonlinear_arith);
                }
            }
            i = i + 1;
        }

        proof {
            assert forall|d: int| 2 <= d < base implies #[trigger] ((base as int) % d) != 0 by {
                if (base as int) % d == 0 {
                    assert(inv@[d] != 0);
                    lemma_divisor_not_invertible(base as int, d, inv@[d] as int);
                }
            }
            assert(is_prime(base as int));
        }
        Ok(GfBase { base, inv })
    }

    /// The field's cardinality.
    pub fn base(&self) -> (r: usize)
        ensures
            r == self.spec_base(),
    {
        self.base
    }

    /// The multiplicative inverse of `val` modulo the base: `None` exactly for
    /// the values congruent to zero, otherwise the cached table entry.
    pub fn mul_inv(&self, val: usize) -> (r: Option<usize>)
        requires
            self.wf(),
        ensures
            r is None <==> val as int % self.spec_base() == 0,
            r matches Some(inv) ==> {
                &&& inv == self.spec_inv()[val as int % self.spec_base()]
                &&& 1 <= inv < self.spec_base()
                &&& (val as int * inv as int) % self.spec_base() == 1
            },
    {
        match val % self.base {
            0 => None,
            i => {
                proof {
                    lemma_mul_mod_noop_left(val as int, self.spec_inv()[i as int] as int,
                        self.spec_base());
                }
                Some(self.inv[i])
            },
        }
    }
}

/// One step of the extended Euclidean recurrence, for one coefficient pair:
/// the alternating-sign and magnitude identities carry over from `(uc, vc)` to
/// `(vc, wc)`, and they bound every intermediate product by `t`.
proof fn lemma_euclid_step(t: int, u0: int, v0: int, w0: int, q: int, uc: int, vc: int, wc: int)
    requires
        0 < v0 < u0,
        q == u0 / v0,
        w0 == u0 % v0,
        wc == uc - q * vc,
        uc * vc <= 0,
        abs(vc) * u0 + abs(uc) * v0 == t,
    ensures
        w0 == u0 - q * v0,
        0 <= w0 < v0,
        q * abs(vc) <= t,
        -t <= q * vc <= t,
        abs(wc) == abs(uc) + q * abs(vc),
        -t <= wc <= t,
        vc * wc <= 0,
        abs(wc) * v0 + abs(vc) * w0 == t,
        abs(wc) <= t,
        abs(vc) <= t,
        abs(uc) <= t,
{
    lemma_fundamental_div_mod(u0, v0);
    lemma_mod_bound(u0, v0);
    let a = abs(uc);
    let c = abs(vc);
    assert(q >= 1) by (nonlinear_arith)
        requires
            u0 == v0 * q + w0,
            0 < v0 < u0,
            0 <= w0 < v0,
    ;
    assert(q * v0 <= u0);
    assert(c * u0 <= t) by (nonlinear_arith)
        requires
            a >= 0,
            v0 > 0,
            c * u0 + a * v0 == t,
    ;
    assert(q * c <= t) by (nonlinear_arith)
        requires
            q >= 1,
            c >= 0,
            v0 >= 1,
            u0 > 0,
            q * v0 <= u0,
            c * u0 <= t,
    ;
    if vc >= 0 {
        if vc == 0 {
            assert(q * vc == 0) by (nonlinear_arith)
                requires
                    vc == 0,
            ;
            assert(wc == uc);
        } else {
            assert(uc <= 0) by (nonlinear_arith)
                requires
                    uc * vc <= 0,
                    vc > 0,
            ;
            assert(q * vc >= q) by (nonlinear_arith)
                requires
                    q >= 1,
                    vc >= 1,
            ;
            assert(q * vc == q * c);
            assert(wc <= 0);
            assert(abs(wc) == a + q * c);
        }
    } else {
        assert(uc >= 0) by (nonlinear_arith)
            requires
                uc * vc <= 0,
                vc < 0,
        ;
        assert(q * vc == -(q * c)) by (nonlinear_arith)
            requires
                c == -vc,
        ;
        assert(q * vc <= 0);
        assert(wc >= 0);
        assert(abs(wc) == a + q * c);
    }
    assert(vc * wc <= 0) by (nonlinear_arith)
        requires
            (vc >= 0 && wc <= 0) || (vc <= 0 && wc >= 0),
    ;
    let w = abs(wc);
    assert(w * v0 + c * w0 == t) by (nonlinear_arith)
        requires
            w == a + q * c,
            w0 == u0 - q * v0,
            c * u0 + a * v0 == t,
    ;
    assert(w <= t) by (nonlinear_arith)
        requires
            w * v0 + c * w0 == t,
            w >= 0,
            c >= 0,
            w0 >= 0,
            v0 >= 1,
    ;
    assert(c <= t) by (nonlinear_arith)
        requires
            c * u0 + a * v0 == t,
            a >= 0,
            c >= 0,
            v0 > 0,
            u0 >= 1,
    ;
    assert(a <= t) by (nonlinear_arith)
        requires
            c * u0 + a * v0 == t,
            a >= 0,
            c >= 0,
            u0 > 0,
            v0 >= 1,
    ;
}

/// The extended Euclidean algorithm on `(base, val)`: either the multiplicative
/// inverse of `val` modulo `base`, or the report that the two share a factor,
/// so that no field of cardinality `base` exists.
fn inv_calc(base: isize, val: isize) -> (r: Result<usize, GfError>)
    requires
        2 <= val < base,
    ensures
        r matches Ok(inv) ==> {
            &&& gcd(base as nat, val as nat) == 1
            &&& 1 <= inv as int
            &&& (inv as int) < base as int
            &&& (val as int * inv as int) % (base as int) == 1
        },
        r matches Err(e) ==> {
            &&& e == GfError::NotAField(base as usize)
            &&& gcd(base as nat, val as nat) > 1
        },
{
    let mut u0 = base;
    let mut u1: isize = 1;
    let mut u2: isize = 0;
    let mut v0 = val;
    let mut v1: isize = 0;
    let mut v2: isize = 1;
    proof {
        assert(abs(0) == 0 && abs(1) == 1);
        assert(abs(0) * val as int == 0 && abs(0) * base as int == 0) by (nonlinear_arith);
        assert(abs(1) * val as int == val as int && abs(1) * base as int == base as int)
            by (nonlinear_arith);
    }

    while v0 > 0
        invariant
            2 <= val < base,
            0 <= v0 < u0,
            u0 <= base,
            gcd(u0 as nat, v0 as nat) == gcd(base as nat, val as nat),
            base as int * u1 + val as int * u2 == u0 as int,
            base as int * v1 + val as int * v2 == v0 as int,
            u1 as int * v1 as int <= 0,
            u2 as int * v2 as int <= 0,
            abs(v1 as int) * u0 as int + abs(u1 as int) * v0 as int == val as int,
            abs(v2 as int) * u0 as int + abs(u2 as int) * v0 as int == base as int,
            abs(u1 as int) <= val as int,
            abs(u2 as int) <= base as int,
        decreases v0,
    {
        let q = u0 / v0;
        let ghost gw0: int = u0 as int % v0 as int;
        let ghost gw1: int = u1 as int - q as int * v1 as int;
        let ghost gw2: int = u2 as int - q as int * v2 as int;
        proof {
            lemma_euclid_step(
                val as int,
                u0 as int,
                v0 as int,
                gw0,
                q as int,
                u1 as int,
                v1 as int,
                gw1,
            );
            lemma_euclid_step(
                base as int,
                u0 as int,
                v0 as int,
                gw0,
                q as int,
                u2 as int,
                v2 as int,
                gw2,
            );
        }
        let w0 = u0 - q * v0;
        let w1 = u1 - q * v1;
        let w2 = u2 - q * v2;
        proof {
            assert(w0 as int == gw0);
            assert(gcd(u0 as nat, v0 as nat) == gcd(v0 as nat, w0 as nat));
            assert(base as int * w1 as int + val as int * w2 as int == w0 as int)
                by (nonlinear_arith)
                requires
                    base as int * u1 as int + val as int * u2 as int == u0 as int,
                    base as int * v1 as int + val as int * v2 as int == v0 as int,
                    w0 as int == u0 as int - q as int * v0 as int,
                    w1 as int == u1 as int - q as int * v1 as int,
                    w2 as int == u2 as int - q as int * v2 as int,
            ;
        }
        u0 = v0;
        u1 = v1;
        u2 = v2;
        v0 = w0;
        v1 = w1;
        v2 = w2;
    }
    if u0 > 1 {
        proof {
            assert(gcd(u0 as nat, 0) == u0 as nat);
        }
        return Err(GfError::NotAField(base as usize));
    }
    proof {
        assert(u0 == 1);
        assert(gcd(base as nat, val as nat) == 1);
    }
    let inv = if u2 < 0 {
        base + u2
    } else {
        u2
    };
    proof {
        let b = base as int;
        let v = val as int;
        if u2 >= 0 {
            assert(v * u2 as int == b * (-(u1 as int)) + 1) by (nonlinear_arith)
                requires
                    b * u1 as int + v * u2 as int == 1,
            ;
            lemma_mod_multiples_vanish(-(u1 as int), 1, b);
        } else {
            assert(v * (inv as int) == b * (v - u1 as int) + 1) by (nonlinear_arith)
                requires
                    b * u1 as int + v * u2 as int == 1,
                    inv as int == b + u2 as int,
            ;
            lemma_mod_multiples_vanish(v - u1 as int, 1, b);
        }
        lemma_small_mod(1, b as nat);
        assert((v * inv as int) % b == 1);
        if inv as int == 0 {
            assert(v * 0 == 0) by (nonlinear_arith);
            lemma_small_mod(0, b as nat);
            assert(false);
        }
        if inv as int == b {
            assert(v * b == b * v) by (nonlinear_arith);
            crate::arith::lemma_mod_of_multiple(v * b, v, b);
            assert(false);
        }
    }
    Ok(inv as usize)
}

impl Gf {
    /// The descriptor this handle shares.
    pub closed spec fn spec_gfbase(&self) -> GfBase {
        *self.0
    }

    /// The field's cardinality, as a mathematical integer.
    pub open spec fn spec_base(&self) -> int {
        self.spec_gfbase().spec_base()
    }

    /// The inverse table, as a sequence.
    pub open spec fn spec_inv(&self) -> Seq<usize> {
        self.spec_gfbase().spec_inv()
    }

    /// Well-formedness of the shared descriptor.
    pub open spec fn wf(&self) -> bool {
        self.spec_gfbase().wf()
    }

    /// Builds the field GF(base), computing the whole inverse table; fails with
    /// the reason when `base` is 0, 1, out of range, or composite. A successful
    /// construction is itself the proof that `base` is prime.
    pub fn new(base: usize) -> (r: Result<Gf, GfError>)
        ensures
            base == 0 ==> r == Err::<Gf, GfError>(GfError::EmptyField),
            base == 1 ==> r == Err::<Gf, GfError>(GfError::ZeroField),
            2 <= base && !base_fits(base as int) ==> r == Err::<Gf, GfError>(
                GfError::TooLargeField(base),
            ),
            2 <= base && base_fits(base as int) && is_prime(base as int) ==> (r matches Ok(f)
                && f.wf() && f.spec_base() == base),
            2 <= base && base_fits(base as int) && !is_prime(base as int) ==> r == Err::<
                Gf,
                GfError,
            >(GfError::NotAField(base)),
    {
        let field = match GfBase::new(base) {
            Ok(f) => f,
            Err(e) => return Err(e),
        };
        Ok(Gf(Arc::new(field)))
    }

    /// A new handle to the same field.
    pub fn clone(field: &Gf) -> (r: Gf)
        ensures
            r == *field,
    {
        Gf(arc_clone(&field.0))
    }

    /// The field's cardinality.
    pub fn base(&self) -> (r: usize)
        ensures
            r == self.spec_base(),
    {
        self.0.base()
    }

    /// The multiplicative inverse of `val` modulo the base, if `val` is not
    /// congruent to zero.
    pub fn mul_inv(&self, val: usize) -> (r: Option<usize>)
        requires
            self.wf(),
        ensures
            r is None <==> val as int % self.spec_base() == 0,
            r matches Some(inv) ==> {
                &&& inv == self.spec_inv()[val as int % self.spec_base()]
                &&& 1 <= inv < self.spec_base()
                &&& (val as int * inv as int) % self.spec_base() == 1
            },
    {
        self.0.mul_inv(val)
    }
}

/// The inverse table is an involution: the inverse of the inverse of `i` is
/// `i` itself, because inverses are unique.
pub proof fn lemma_inv_involution(f: &Gf, i: int)
    requires
        f.wf(),
        1 <= i < f.spec_base(),
    ensures
        f.spec_inv()[f.spec_inv()[i] as int] as int == i,
{
    let b = f.spec_base();
    let j = f.spec_inv()[i] as int;
    let k = f.spec_inv()[j] as int;
    assert(i * j == j * i) by (nonlinear_arith);
    lemma_inverse_unique(b, j, i, k);
}

impl PartialEq for Gf {
    /// Two field handles are equal when their cardinalities are: one field
    /// exists per cardinality, so the base identifies the field.
    fn eq(&self, other: &Gf) -> (r: bool) {
        self.base() == other.base()
    }
}

impl vstd::std_specs::cmp::PartialEqSpecImpl for Gf {
    open spec fn obeys_eq_spec() -> bool {
        true
    }

    open spec fn eq_spec(&self, other: &Gf) -> bool {
        self.spec_base() == other.spec_base()
    }
}

impl Eq for Gf {

}

} // verus!
