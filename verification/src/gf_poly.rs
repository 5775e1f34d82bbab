//! Polynomials over a field: an ordered coefficient sequence of field elements
//! (index = power of the indeterminate), kept normalized so that no trailing
//! zero coefficient remains and the zero polynomial is the empty sequence.

use crate::gf::Gf;
use crate::gf_num::GfNum;
use crate::text::decimal;
use vstd::prelude::*;
use vstd::string::StringExecFns;

verus! {

/// Strips trailing zeros from a coefficient value sequence: the normal form.
pub open spec fn strip_spec(s: Seq<int>) -> Seq<int>
    decreases s.len(),
{
    if s.len() == 0 {
        s
    } else if s.last() != 0 {
        s
    } else {
        strip_spec(s.drop_last())
    }
}

/// A coefficient value sequence with no trailing zero.
pub open spec fn normalized_spec(s: Seq<int>) -> bool {
    s.len() == 0 || s.last() != 0
}

/// Stripping trailing zeros is taking the prefix up to the last nonzero entry.
proof fn lemma_strip_is_take(s: Seq<int>, i: int)
    requires
        0 <= i <= s.len(),
        forall|j: int| i <= j < s.len() ==> s[j] == 0,
        i > 0 ==> s[i - 1] != 0,
    ensures
        strip_spec(s) == s.take(i),
    decreases s.len(),
{
    if s.len() == i {
        assert(s.take(i) =~= s);
    } else {
        assert(s.last() == 0);
        lemma_strip_is_take(s.drop_last(), i);
        assert(s.drop_last().take(i) =~= s.take(i));
    }
}

/// A normalized coefficient sequence is a fixed point of stripping, so
/// normalizing twice changes nothing beyond the first pass.
pub proof fn lemma_strip_of_normalized(s: Seq<int>)
    requires
        normalized_spec(s),
    ensures
        strip_spec(s) == s,
{
}

/// The textual form of the coefficients alone: decimal values joined by
/// comma-space.
pub open spec fn coeffs_render(s: Seq<int>) -> Seq<char>
    decreases s.len(),
{
    if s.len() == 0 {
        Seq::empty()
    } else if s.len() == 1 {
        decimal(s[0] as nat)
    } else {
        coeffs_render(s.drop_last()) + ", "@ + decimal(s.last() as nat)
    }
}

/// The textual form of a polynomial: the joined coefficients between square
/// brackets, `"[ c0, c1, ..., cn ]"`; the zero polynomial renders as `"[  ]"`.
pub open spec fn poly_render(s: Seq<int>) -> Seq<char> {
    "[ "@ + coeffs_render(s) + " ]"@
}

/// A polynomial over GF(base): a field handle and the normalized coefficient
/// sequence, lowest power first.
#[derive(Debug, Clone)]
pub struct GfPoly {
    field: Gf,
    poly: Vec<GfNum>,
}

impl GfPoly {
    /// The field the coefficients belong to.
    pub closed spec fn spec_field(&self) -> Gf {
        self.field
    }

    /// The coefficients as a sequence of field elements.
    pub closed spec fn spec_elems(&self) -> Seq<GfNum> {
        self.poly@
    }

    /// The coefficients as a sequence of raw values.
    pub open spec fn spec_nums(&self) -> Seq<int> {
        self.spec_elems().map_values(|x: GfNum| x.spec_num())
    }

    /// Well-formedness: the field is well-formed and every coefficient is a
    /// well-formed element of that same field.
    pub open spec fn wf(&self) -> bool {
        &&& self.spec_field().wf()
        &&& forall|j: int|
            0 <= j < self.spec_elems().len() ==> (#[trigger] self.spec_elems()[j]).wf()
                && self.spec_elems()[j].spec_field() == self.spec_field()
    }

    /// The invariant the constructors establish: no trailing zero coefficient.
    pub open spec fn normalized(&self) -> bool {
        normalized_spec(self.spec_nums())
    }

    /// The constant polynomial with the one coefficient `value`, reduced, then
    /// normalized (so a zero scalar gives the zero polynomial).
    pub fn new(field: &Gf, value: usize) -> (r: GfPoly)
        requires
            field.wf(),
        ensures
            r.wf(),
            r.normalized(),
            r.spec_field() == *field,
            r.spec_nums() == strip_spec(seq![value as int % field.spec_base()]),
    {
        let mut coeffs: Vec<GfNum> = Vec::new();
        coeffs.push(GfNum::new(field, value));
        let mut poly = GfPoly { field: Gf::clone(field), poly: coeffs };
        proof {
            assert(poly.spec_nums() =~= seq![value as int % field.spec_base()]);
        }
        poly.normalize();
        poly
    }

    /// The constant polynomial with the one coefficient `value`, normalized.
    pub fn from_gf_num(value: GfNum) -> (r: GfPoly)
        requires
            value.wf(),
        ensures
            r.wf(),
            r.normalized(),
            r.spec_field() == value.spec_field(),
            r.spec_nums() == strip_spec(seq![value.spec_num()]),
    {
        let field = Gf::clone(value.field());
        let ghost v = value.spec_num();
        let mut coeffs: Vec<GfNum> = Vec::new();
        coeffs.push(value);
        let mut poly = GfPoly { field, poly: coeffs };
        proof {
            assert(poly.spec_nums() =~= seq![v]);
        }
        poly.normalize();
        poly
    }

    /// The polynomial whose coefficient of power `i` is `value[i]`, each raw
    /// value reduced, then normalized.
    pub fn from_vec(field: &Gf, value: Vec<usize>) -> (r: GfPoly)
        requires
            field.wf(),
        ensures
            r.wf(),
            r.normalized(),
            r.spec_field() == *field,
            r.spec_nums() == strip_spec(
                value@.map_values(|x: usize| x as int % field.spec_base()),
            ),
    {
        let coeffs = GfNum::from_vec(field, value);
        let mut poly = GfPoly { field: Gf::clone(field), poly: coeffs };
        proof {
            assert(poly.spec_nums() =~= value@.map_values(
                |x: usize| x as int % field.spec_base(),
            ));
        }
        poly.normalize();
        poly
    }

    /// Gives up the polynomial for its raw coefficient values, in order.
    pub fn into_vec(self) -> (r: Vec<usize>)
        ensures
            r@.len() == self.spec_nums().len(),
            forall|j: int| 0 <= j < r@.len() ==> #[trigger] r@[j] as int == self.spec_nums()[j],
    {
        let mut r: Vec<usize> = Vec::new();
        let mut k: usize = 0;
        while k < self.poly.len()
            invariant
                k <= self.spec_elems().len(),
                r@.len() == k,
                forall|j: int| 0 <= j < k ==> #[trigger] r@[j] as int == self.spec_nums()[j],
            decreases self.spec_elems().len() - k,
        {
            r.push(self.poly[k].num());
            k = k + 1;
        }
        r
    }

    /// Gives up the polynomial for its coefficient elements, in order.
    pub fn into_gf_num_vec(self) -> (r: Vec<GfNum>)
        ensures
            r@ == self.spec_elems(),
    {
        self.poly
    }

    /// The field the polynomial is over.
    pub fn field(&self) -> (r: &Gf)
        ensures
            *r == self.spec_field(),
    {
        &self.field
    }

    /// The coefficients, lowest power first.
    pub fn poly(&self) -> (r: &[GfNum])
        ensures
            r@ == self.spec_elems(),
    {
        self.poly.as_slice()
    }

    /// The number of coefficients.
    pub fn len(&self) -> (r: usize)
        ensures
            r == self.spec_elems().len(),
    {
        self.poly.len()
    }

    /// The degree: one less than the length. The degree of the zero polynomial
    /// is mathematically undefined, a fatal misuse, so the contract excludes
    /// the zero polynomial.
    pub fn deg(&self) -> (r: usize)
        requires
            self.spec_elems().len() > 0,
        ensures
            r as int == self.spec_elems().len() - 1,
    {
        self.poly.len() - 1
    }

    /// Whether this is the zero polynomial: the empty coefficient sequence.
    pub fn is_zero(&self) -> (r: bool)
        ensures
            r <==> self.spec_elems().len() == 0,
    {
        self.poly.is_empty()
    }

    /// Replaces the coefficients with the empty sequence, the zero polynomial.
    pub fn set_zero(&mut self)
        ensures
            final (self).spec_field() == old(self).spec_field(),
            final (self).spec_elems() == Seq::<GfNum>::empty(),
            final (self).normalized(),
            old(self).wf() ==> final (self).wf(),
    {
        self.poly.clear();
        proof {
            assert(self.spec_nums() =~= Seq::<int>::empty());
        }
    }

    /// Truncates everything above the highest nonzero coefficient; an all-zero
    /// sequence becomes empty. The result is the stripped form of the old
    /// coefficient values, and always a prefix of the old coefficients.
    pub fn normalize(&mut self)
        ensures
            final (self).spec_field() == old(self).spec_field(),
            final (self).spec_elems() == old(self).spec_elems().take(
                final (self).spec_elems().len() as int,
            ),
            final (self).spec_nums() == strip_spec(old(self).spec_nums()),
            final (self).normalized(),
            old(self).wf() ==> final (self).wf(),
    {
        let mut i = self.poly.len();
        while i > 0 && self.poly[i - 1].is_zero()
            invariant
                i <= self.spec_elems().len(),
                *self == *old(self),
                forall|j: int|
                    i <= j < self.spec_elems().len() ==> #[trigger] self.spec_nums()[j] == 0,
            decreases i,
        {
            i = i - 1;
        }
        proof {
            lemma_strip_is_take(self.spec_nums(), i as int);
        }
        let ghost before = *self;
        self.poly.truncate(i);
        proof {
            assert(self.spec_elems() =~= before.spec_elems().take(i as int));
            assert(self.spec_nums() =~= before.spec_nums().take(i as int));
            if i > 0 {
                assert(self.spec_nums().last() == before.spec_nums()[i - 1]);
            }
        }
    }

    /// Renders the polynomial as `"[ c0, c1, ..., cn ]"`, the zero polynomial
    /// as `"[  ]"`.
    pub fn render(&self) -> (s: String)
        requires
            self.wf(),
        ensures
            s@ == poly_render(self.spec_nums()),
    {
        let mut s = String::from_str("[ ");
        let mut k: usize = 0;
        while k < self.poly.len()
            invariant
                self.wf(),
                k <= self.spec_elems().len(),
                s@ == "[ "@ + coeffs_render(self.spec_nums().take(k as int)),
            decreases self.spec_elems().len() - k,
        {
            if k > 0 {
                s.append(", ");
            }
            let digits = self.poly[k].render();
            s.append(digits.as_str());
            proof {
                let t = self.spec_nums().take(k + 1 as int);
                assert(t.drop_last() =~= self.spec_nums().take(k as int));
                assert(t.last() == self.spec_nums()[k as int]);
                if k == 0 {
                    assert(s@ =~= "[ "@ + coeffs_render(t));
                } else {
                    assert(s@ =~= "[ "@ + coeffs_render(t));
                }
            }
            k = k + 1;
        }
        s.append(" ]");
        proof {
            assert(self.spec_nums().take(self.spec_nums().len() as int) =~= self.spec_nums());
            assert(s@ =~= poly_render(self.spec_nums()));
        }
        s
    }
}

} // verus!
