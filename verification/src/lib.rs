//! Exact arithmetic over finite fields of prime cardinality (Galois fields
//! GF(p)) and polynomials whose coefficients live in such a field.
//!
//! A [`Gf`] is a shared handle to a field descriptor holding the cardinality
//! and a precomputed table of multiplicative inverses; [`GfNum`] is a value in
//! `[0, base)` bound to such a field, with closed modular arithmetic; and
//! [`GfPoly`] is a coefficient sequence of field elements kept in a normalized
//! form with no trailing zero coefficients.

mod arith;
mod gf;
mod gf_num;
mod gf_poly;
mod text;

pub use arith::{gcd, is_prime};
pub use gf::{Gf, GfBase, GfError};
pub use gf_num::GfNum;
pub use gf_poly::GfPoly;
