//! Field elements: values in `[0, base)` bound to a shared field handle, with
//! closed addition, subtraction, negation, multiplication and division, each
//! also in a raw-operand and a compound-assignment form.

use crate::arith::lemma_mul_inverse_cancels;
use crate::gf::{lemma_base_fits_bounds, Gf};
use crate::text::{decimal, render_usize};
use core::cmp::Ordering;
use vstd::prelude::*;

verus! {

/// Addition in GF(base) on reduced representatives.
pub open spec fn add_spec(base: int, a: int, b: int) -> int {
    (a + b) % base
}

/// Subtraction in GF(base): the base is added first, so the difference of
/// reduced representatives never goes negative.
pub open spec fn sub_spec(base: int, a: int, b: int) -> int {
    (base + a - b) % base
}

/// Negation in GF(base) on a reduced representative.
pub open spec fn neg_spec(base: int, a: int) -> int {
    (base - a) % base
}

/// Multiplication in GF(base) on reduced representatives.
pub open spec fn mul_spec(base: int, a: int, b: int) -> int {
    (a * b) % base
}

/// A value of GF(base): a raw representative always held in `[0, base)`, bound
/// to a shared handle of its field.
#[derive(Debug, Clone)]
pub struct GfNum {
    field: Gf,
    num: usize,
}

impl GfNum {
    /// The raw value, as a mathematical integer.
    pub closed spec fn spec_num(&self) -> int {
        self.num as int
    }

    /// The field the value belongs to.
    pub closed spec fn spec_field(&self) -> Gf {
        self.field
    }

    /// The field's cardinality.
    pub open spec fn spec_base(&self) -> int {
        self.spec_field().spec_base()
    }

    /// Well-formedness: the field is well-formed and the raw value is reduced.
    pub open spec fn wf(&self) -> bool {
        &&& self.spec_field().wf()
        &&& 0 <= self.spec_num() < self.spec_base()
    }

    /// A new element of `field`, reducing `value` modulo the base.
    pub fn new(field: &Gf, value: usize) -> (r: GfNum)
        requires
            field.wf(),
        ensures
            r.wf(),
            r.spec_field() == *field,
            r.spec_num() == value as int % field.spec_base(),
    {
        let field = Gf::clone(field);
        let value = value % field.base();
        GfNum { field, num: value }
    }

    /// One element of `field` for each raw value in the list, in order.
    pub fn from_vec(field: &Gf, value: Vec<usize>) -> (r: Vec<GfNum>)
        requires
            field.wf(),
        ensures
            r@.len() == value@.len(),
            forall|j: int|
                0 <= j < value@.len() ==> {
                    &&& (#[trigger] r@[j]).wf()
                    &&& r@[j].spec_field() == *field
                    &&& r@[j].spec_num() == value@[j] as int % field.spec_base()
                },
    {
        let mut r: Vec<GfNum> = Vec::new();
        let mut k: usize = 0;
        while k < value.len()
            invariant
                field.wf(),
                k <= value@.len(),
                r@.len() == k,
                forall|j: int|
                    0 <= j < k ==> {
                        &&& (#[trigger] r@[j]).wf()
                        &&& r@[j].spec_field() == *field
                        &&& r@[j].spec_num() == value@[j] as int % field.spec_base()
                    },
            decreases value@.len() - k,
        {
            r.push(GfNum::new(field, value[k]));
            k = k + 1;
        }
        r
    }

    /// Gives up the element for its raw value.
    pub fn into_num(self) -> (r: usize)
        ensures
            r == self.spec_num(),
    {
        self.num
    }

    /// The field the element belongs to.
    pub fn field(&self) -> (r: &Gf)
        ensures
            *r == self.spec_field(),
    {
        &self.field
    }

    /// The raw value.
    pub fn num(&self) -> (r: usize)
        ensures
            r == self.spec_num(),
    {
        self.num
    }

    /// The multiplicative inverse of this element. Zero has none: calling this
    /// on a zero element is a fatal misuse, so the contract excludes it.
    pub fn mul_inv(&self) -> (r: GfNum)
        requires
            self.wf(),
            self.spec_num() != 0,
        ensures
            r.wf(),
            r.spec_field() == self.spec_field(),
            r.spec_num() == self.spec_field().spec_inv()[self.spec_num()] as int,
            mul_spec(self.spec_base(), self.spec_num(), r.spec_num()) == 1,
    {
        let field = Gf::clone(self.field());
        proof {
            vstd::arithmetic::div_mod::lemma_small_mod(
                self.spec_num() as nat,
                self.spec_base() as nat,
            );
        }
        let value = field.mul_inv(self.num).unwrap();
        GfNum { field, num: value }
    }

    /// Whether this is the additive identity.
    pub fn is_zero(&self) -> (r: bool)
        ensures
            r <==> self.spec_num() == 0,
    {
        self.num == 0
    }

    /// Sum of two elements of the same field.
    pub fn add(self, rhs: GfNum) -> (r: GfNum)
        requires
            self.wf(),
            rhs.wf(),
            self.spec_base() == rhs.spec_base(),
        ensures
            r.wf(),
            r.spec_field() == self.spec_field(),
            r.spec_num() == add_spec(self.spec_base(), self.spec_num(), rhs.spec_num()),
    {
        proof {
            lemma_base_fits_bounds(self.spec_base());
        }
        let base = self.field.base();
        GfNum { field: self.field, num: (self.num + rhs.num) % base }
    }

    /// Sum of an element and a raw value, which is reduced first.
    pub fn add_raw(self, rhs: usize) -> (r: GfNum)
        requires
            self.wf(),
        ensures
            r.wf(),
            r.spec_field() == self.spec_field(),
            r.spec_num() == add_spec(self.spec_base(), self.spec_num(), rhs as int
                % self.spec_base()),
    {
        proof {
            lemma_base_fits_bounds(self.spec_base());
        }
        let base = self.field.base();
        GfNum { field: self.field, num: (self.num + (rhs % base)) % base }
    }

    /// Sum of a raw value, reduced first, and an element.
    pub fn raw_add(lhs: usize, rhs: GfNum) -> (r: GfNum)
        requires
            rhs.wf(),
        ensures
            r.wf(),
            r.spec_field() == rhs.spec_field(),
            r.spec_num() == add_spec(rhs.spec_base(), rhs.spec_num(), lhs as int % rhs.spec_base()),
    {
        proof {
            lemma_base_fits_bounds(rhs.spec_base());
        }
        let base = rhs.field.base();
        GfNum { field: rhs.field, num: (rhs.num + (lhs % base)) % base }
    }

    /// Replaces this element with the sum of itself and another.
    pub fn add_assign(&mut self, other: GfNum)
        requires
            old(self).wf(),
            other.wf(),
            old(self).spec_base() == other.spec_base(),
        ensures
            final (self).wf(),
            final (self).spec_field() == old(self).spec_field(),
            final (self).spec_num() == add_spec(
                old(self).spec_base(),
                old(self).spec_num(),
                other.spec_num(),
            ),
    {
        proof {
            lemma_base_fits_bounds(old(self).spec_base());
        }
        let base = self.field.base();
        self.num = (self.num + other.num) % base;
    }

    /// Replaces this element with the sum of itself and a raw value.
    pub fn add_assign_raw(&mut self, other: usize)
        requires
            old(self).wf(),
        ensures
            final (self).wf(),
            final (self).spec_field() == old(self).spec_field(),
            final (self).spec_num() == add_spec(
                old(self).spec_base(),
                old(self).spec_num(),
                other as int % old(self).spec_base(),
            ),
    {
        proof {
            lemma_base_fits_bounds(old(self).spec_base());
        }
        let base = self.field.base();
        self.num = (self.num + (other % base)) % base;
    }

    /// Difference of two elements of the same field.
    pub fn sub(self, rhs: GfNum) -> (r: GfNum)
        requires
            self.wf(),
            rhs.wf(),
            self.spec_base() == rhs.spec_base(),
        ensures
            r.wf(),
            r.spec_field() == self.spec_field(),
            r.spec_num() == sub_spec(self.spec_base(), self.spec_num(), rhs.spec_num()),
    {
        proof {
            lemma_base_fits_bounds(self.spec_base());
        }
        let base = self.field.base();
        GfNum { field: self.field, num: (base + self.num - rhs.num) % base }
    }

    /// Difference of an element and a raw value, which is reduced first.
    pub fn sub_raw(self, rhs: usize) -> (r: GfNum)
        requires
            self.wf(),
        ensures
            r.wf(),
            r.spec_field() == self.spec_field(),
            r.spec_num() == sub_spec(self.spec_base(), self.spec_num(), rhs as int
                % self.spec_base()),
    {
        proof {
            lemma_base_fits_bounds(self.spec_base());
        }
        let base = self.field.base();
        GfNum { field: self.field, num: (base + self.num - (rhs % base)) % base }
    }

    /// Difference with the raw value on the left. Note the orientation: this
    /// subtracts the reduced raw value from the element, `rhs - lhs`.
    pub fn raw_sub(lhs: usize, rhs: GfNum) -> (r: GfNum)
        requires
            rhs.wf(),
        ensures
            r.wf(),
            r.spec_field() == rhs.spec_field(),
            r.spec_num() == sub_spec(rhs.spec_base(), rhs.spec_num(), lhs as int % rhs.spec_base()),
    {
        proof {
            lemma_base_fits_bounds(rhs.spec_base());
        }
        let base = rhs.field.base();
        GfNum { field: rhs.field, num: (base + rhs.num - (lhs % base)) % base }
    }

    /// Replaces this element with the difference of itself and another.
    pub fn sub_assign(&mut self, other: GfNum)
        requires
            old(self).wf(),
            other.wf(),
            old(self).spec_base() == other.spec_base(),
        ensures
            final (self).wf(),
            final (self).spec_field() == old(self).spec_field(),
            final (self).spec_num() == sub_spec(
                old(self).spec_base(),
                old(self).spec_num(),
                other.spec_num(),
            ),
    {
        proof {
            lemma_base_fits_bounds(old(self).spec_base());
        }
        let base = self.field.base();
        self.num = (base + self.num - other.num) % base;
    }

    /// Replaces this element with the difference of itself and a raw value.
    pub fn sub_assign_raw(&mut self, other: usize)
        requires
            old(self).wf(),
        ensures
            final (self).wf(),
            final (self).spec_field() == old(self).spec_field(),
            final (self).spec_num() == sub_spec(
                old(self).spec_base(),
                old(self).spec_num(),
                other as int % old(self).spec_base(),
            ),
    {
        proof {
            lemma_base_fits_bounds(old(self).spec_base());
        }
        let base = self.field.base();
        self.num = (base + self.num - (other % base)) % base;
    }

    /// The additive inverse of this element.
    pub fn neg(self) -> (r: GfNum)
        requires
            self.wf(),
        ensures
            r.wf(),
            r.spec_field() == self.spec_field(),
            r.spec_num() == neg_spec(self.spec_base(), self.spec_num()),
    {
        let base = self.field.base();
        GfNum { field: self.field, num: (base - self.num) % base }
    }

    /// Product of two elements of the same field.
    pub fn mul(self, rhs: GfNum) -> (r: GfNum)
        requires
            self.wf(),
            rhs.wf(),
            self.spec_base() == rhs.spec_base(),
        ensures
            r.wf(),
            r.spec_field() == self.spec_field(),
            r.spec_num() == mul_spec(self.spec_base(), self.spec_num(), rhs.spec_num()),
    {
        proof {
            lemma_mul_fits(self.spec_base(), self.spec_num(), rhs.spec_num());
        }
        let base = self.field.base();
        GfNum { field: self.field, num: (self.num * rhs.num) % base }
    }

    /// Product of an element and a raw value, which is reduced first.
    pub fn mul_raw(self, rhs: usize) -> (r: GfNum)
        requires
            self.wf(),
        ensures
            r.wf(),
            r.spec_field() == self.spec_field(),
            r.spec_num() == mul_spec(self.spec_base(), self.spec_num(), rhs as int
                % self.spec_base()),
    {
        proof {
            lemma_mul_fits(self.spec_base(), self.spec_num(), rhs as int % self.spec_base());
        }
        let base = self.field.base();
        GfNum { field: self.field, num: (self.num * (rhs % base)) % base }
    }

    /// Product of a raw value, reduced first, and an element.
    pub fn raw_mul(lhs: usize, rhs: GfNum) -> (r: GfNum)
        requires
            rhs.wf(),
        ensures
            r.wf(),
            r.spec_field() == rhs.spec_field(),
            r.spec_num() == mul_spec(rhs.spec_base(), rhs.spec_num(), lhs as int % rhs.spec_base()),
    {
        proof {
            lemma_mul_fits(rhs.spec_base(), rhs.spec_num(), lhs as int % rhs.spec_base());
        }
        let base = rhs.field.base();
        GfNum { field: rhs.field, num: (rhs.num * (lhs % base)) % base }
    }

    /// Replaces this element with the product of itself and another.
    pub fn mul_assign(&mut self, other: GfNum)
        requires
            old(self).wf(),
            other.wf(),
            old(self).spec_base() == other.spec_base(),
        ensures
            final (self).wf(),
            final (self).spec_field() == old(self).spec_field(),
            final (self).spec_num() == mul_spec(
                old(self).spec_base(),
                old(self).spec_num(),
                other.spec_num(),
            ),
    {
        proof {
            lemma_mul_fits(old(self).spec_base(), old(self).spec_num(), other.spec_num());
        }
        let base = self.field.base();
        self.num = (self.num * other.num) % base;
    }

    /// Replaces this element with the product of itself and a raw value.
    pub fn mul_assign_raw(&mut self, other: usize)
        requires
            old(self).wf(),
        ensures
            final (self).wf(),
            final (self).spec_field() == old(self).spec_field(),
            final (self).spec_num() == mul_spec(
                old(self).spec_base(),
                old(self).spec_num(),
                other as int % old(self).spec_base(),
            ),
    {
        proof {
            lemma_mul_fits(
                old(self).spec_base(),
                old(self).spec_num(),
                other as int % old(self).spec_base(),
            );
        }
        let base = self.field.base();
        self.num = (self.num * (other % base)) % base;
    }

    /// Quotient of two elements of the same field: multiplication by the cached
    /// inverse of the divisor. Dividing by zero is a fatal misuse, so the
    /// contract excludes it; multiplying the quotient back by the divisor gives
    /// the dividend again.
    pub fn div(self, rhs: GfNum) -> (r: GfNum)
        requires
            self.wf(),
            rhs.wf(),
            self.spec_base() == rhs.spec_base(),
            rhs.spec_num() != 0,
        ensures
            r.wf(),
            r.spec_field() == self.spec_field(),
            r.spec_num() == mul_spec(self.spec_base(), self.spec_num(), self.spec_field().spec_inv()[rhs.spec_num()] as int),
            mul_spec(self.spec_base(), r.spec_num(), rhs.spec_num()) == self.spec_num(),
    {
        proof {
            vstd::arithmetic::div_mod::lemma_small_mod(rhs.spec_num() as nat, self.spec_base() as nat);
        }
        let base = self.field.base();
        let inv = self.field.mul_inv(rhs.num).unwrap();
        proof {
            lemma_mul_fits(self.spec_base(), self.spec_num(), inv as int);
            lemma_mul_inverse_cancels(self.spec_base(), self.spec_num(), rhs.spec_num(), inv as int);
        }
        GfNum { field: self.field, num: (self.num * inv) % base }
    }

    /// Quotient of an element and a raw value. Raw divisors congruent to zero
    /// are a fatal misuse, so the contract excludes them.
    pub fn div_raw(self, rhs: usize) -> (r: GfNum)
        requires
            self.wf(),
            rhs as int % self.spec_base() != 0,
        ensures
            r.wf(),
            r.spec_field() == self.spec_field(),
            r.spec_num() == mul_spec(self.spec_base(), self.spec_num(), self.spec_field().spec_inv()[rhs as int % self.spec_base()] as int),
            mul_spec(self.spec_base(), r.spec_num(), rhs as int % self.spec_base())
                == self.spec_num(),
    {
        let base = self.field.base();
        let inv = self.field.mul_inv(rhs).unwrap();
        proof {
            lemma_mul_fits(self.spec_base(), self.spec_num(), inv as int);
            vstd::arithmetic::div_mod::lemma_mul_mod_noop_left(
                rhs as int,
                inv as int,
                self.spec_base(),
            );
            lemma_mul_inverse_cancels(
                self.spec_base(),
                self.spec_num(),
                rhs as int % self.spec_base(),
                inv as int,
            );
        }
        GfNum { field: self.field, num: (self.num * inv) % base }
    }

    /// Quotient of a raw value, reduced first, by an element. Dividing by the
    /// zero element is a fatal misuse, so the contract excludes it.
    pub fn raw_div(lhs: usize, rhs: GfNum) -> (r: GfNum)
        requires
            rhs.wf(),
            rhs.spec_num() != 0,
        ensures
            r.wf(),
            r.spec_field() == rhs.spec_field(),
            r.spec_num() == mul_spec(rhs.spec_base(), lhs as int % rhs.spec_base(), rhs.spec_field().spec_inv()[rhs.spec_num()] as int),
            mul_spec(rhs.spec_base(), r.spec_num(), rhs.spec_num()) == lhs as int
                % rhs.spec_base(),
    {
        proof {
            vstd::arithmetic::div_mod::lemma_small_mod(rhs.spec_num() as nat, rhs.spec_base() as nat);
        }
        let base = rhs.field.base();
        let inv = rhs.field.mul_inv(rhs.num).unwrap();
        proof {
            lemma_mul_fits(rhs.spec_base(), lhs as int % rhs.spec_base(), inv as int);
            lemma_mul_inverse_cancels(
                rhs.spec_base(),
                lhs as int % rhs.spec_base(),
                rhs.spec_num(),
                inv as int,
            );
        }
        GfNum { field: rhs.field, num: ((lhs % base) * inv) % base }
    }

    /// Replaces this element with the quotient of itself and another.
    pub fn div_assign(&mut self, other: GfNum)
        requires
            old(self).wf(),
            other.wf(),
            old(self).spec_base() == other.spec_base(),
            other.spec_num() != 0,
        ensures
            final (self).wf(),
            final (self).spec_field() == old(self).spec_field(),
            final (self).spec_num() == mul_spec(
                old(self).spec_base(),
                old(self).spec_num(),
                old(self).spec_field().spec_inv()[other.spec_num()] as int,
            ),
            mul_spec(old(self).spec_base(), final (self).spec_num(), other.spec_num()) == old(
                self,
            ).spec_num(),
    {
        proof {
            vstd::arithmetic::div_mod::lemma_small_mod(
                other.spec_num() as nat,
                old(self).spec_base() as nat,
            );
        }
        let base = self.field.base();
        let inv = self.field.mul_inv(other.num).unwrap();
        proof {
            lemma_mul_fits(old(self).spec_base(), old(self).spec_num(), inv as int);
            lemma_mul_inverse_cancels(
                old(self).spec_base(),
                old(self).spec_num(),
                other.spec_num(),
                inv as int,
            );
        }
        self.num = (self.num * inv) % base;
    }

    /// Replaces this element with the quotient of itself and a raw value.
    pub fn div_assign_raw(&mut self, other: usize)
        requires
            old(self).wf(),
            other as int % old(self).spec_base() != 0,
        ensures
            final (self).wf(),
            final (self).spec_field() == old(self).spec_field(),
            final (self).spec_num() == mul_spec(
                old(self).spec_base(),
                old(self).spec_num(),
                old(self).spec_field().spec_inv()[other as int % old(self).spec_base()] as int,
            ),
            mul_spec(old(self).spec_base(), final (self).spec_num(), other as int % old(
                self,
            ).spec_base()) == old(self).spec_num(),
    {
        let base = self.field.base();
        let inv = self.field.mul_inv(other).unwrap();
        proof {
            lemma_mul_fits(old(self).spec_base(), old(self).spec_num(), inv as int);
            vstd::arithmetic::div_mod::lemma_mul_mod_noop_left(
                other as int,
                inv as int,
                old(self).spec_base(),
            );
            lemma_mul_inverse_cancels(
                old(self).spec_base(),
                old(self).spec_num(),
                other as int % old(self).spec_base(),
                inv as int,
            );
        }
        self.num = (self.num * inv) % base;
    }

    /// Whether this element equals a raw value; the raw value is reduced first.
    pub fn eq_raw(&self, other: usize) -> (r: bool)
        requires
            self.wf(),
        ensures
            r <==> self.spec_num() == other as int % self.spec_base(),
    {
        let base = self.field.base();
        self.num == other % base
    }

    /// Whether a raw value, reduced first, equals an element.
    pub fn raw_eq(lhs: usize, rhs: &GfNum) -> (r: bool)
        requires
            rhs.wf(),
        ensures
            r <==> lhs as int % rhs.spec_base() == rhs.spec_num(),
    {
        let base = rhs.field.base();
        lhs % base == rhs.num
    }

    /// Whether this element's representative is below a reduced raw value, in
    /// the representative order.
    pub fn lt_raw(&self, other: usize) -> (r: bool)
        requires
            self.wf(),
        ensures
            r <==> self.spec_num() < other as int % self.spec_base(),
    {
        let base = self.field.base();
        self.num < other % base
    }

    /// Whether a reduced raw value is below an element's representative, in the
    /// representative order.
    pub fn raw_lt(lhs: usize, rhs: &GfNum) -> (r: bool)
        requires
            rhs.wf(),
        ensures
            r <==> lhs as int % rhs.spec_base() < rhs.spec_num(),
    {
        let base = rhs.field.base();
        lhs % base < rhs.num
    }

    /// Renders the raw value in decimal, as the element displays itself.
    pub fn render(&self) -> (s: String)
        ensures
            s@ == decimal(self.spec_num() as nat),
    {
        render_usize(self.num)
    }
}

/// The product of two reduced representatives stays within precision.
proof fn lemma_mul_fits(base: int, a: int, b: int)
    requires
        2 <= base,
        crate::gf::base_fits(base),
        0 <= a < base,
        0 <= b < base,
    ensures
        a * b <= usize::MAX as int,
{
    assert(a * b <= (base - 1) * (base - 1)) by (nonlinear_arith)
        requires
            0 <= a <= base - 1,
            0 <= b <= base - 1,
    ;
}

/// Additive inverse law: any element plus its negation is zero.
pub proof fn lemma_add_neg_zero(base: int, a: int)
    requires
        2 <= base,
        0 <= a < base,
    ensures
        add_spec(base, a, neg_spec(base, a)) == 0,
{
    vstd::arithmetic::div_mod::lemma_mod_self_0(base);
    if a == 0 {
        vstd::arithmetic::div_mod::lemma_small_mod(0, base as nat);
        assert(neg_spec(base, a) == 0);
    } else {
        vstd::arithmetic::div_mod::lemma_small_mod((base - a) as nat, base as nat);
        assert(neg_spec(base, a) == base - a);
    }
}

/// Multiplicative inverse law: any nonzero element times its table inverse is
/// one.
pub proof fn lemma_mul_inv_one(f: &Gf, a: int)
    requires
        f.wf(),
        1 <= a < f.spec_base(),
    ensures
        mul_spec(f.spec_base(), a, f.spec_inv()[a] as int) == 1,
{
}

impl PartialEq for GfNum {
    /// Two elements are equal exactly when their raw values are; elements are
    /// only ever compared within one field.
    fn eq(&self, other: &GfNum) -> (r: bool) {
        self.num == other.num
    }
}

impl vstd::std_specs::cmp::PartialEqSpecImpl for GfNum {
    open spec fn obeys_eq_spec() -> bool {
        true
    }

    open spec fn eq_spec(&self, other: &GfNum) -> bool {
        self.spec_num() == other.spec_num()
    }
}

impl Eq for GfNum {

}

impl PartialOrd for GfNum {
    /// Elements order by their raw representatives: not a field-theoretic
    /// order, just a total order for algorithms that need one.
    fn partial_cmp(&self, other: &GfNum) -> (r: Option<Ordering>) {
        if self.num < other.num {
            Some(Ordering::Less)
        } else if self.num == other.num {
            Some(Ordering::Equal)
        } else {
            Some(Ordering::Greater)
        }
    }
}

impl vstd::std_specs::cmp::PartialOrdSpecImpl for GfNum {
    open spec fn obeys_partial_cmp_spec() -> bool {
        true
    }

    open spec fn partial_cmp_spec(&self, other: &GfNum) -> Option<Ordering> {
        if self.spec_num() < other.spec_num() {
            Some(Ordering::Less)
        } else if self.spec_num() == other.spec_num() {
            Some(Ordering::Equal)
        } else {
            Some(Ordering::Greater)
        }
    }
}

} // verus!
