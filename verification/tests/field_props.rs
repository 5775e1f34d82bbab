use gf::{Gf, GfError, GfNum, GfPoly};

#[test]
fn prime_fields_have_full_inverse_tables() {
    for p in [2usize, 3, 5, 7, 11, 13, 97, 101] {
        let field = Gf::new(p).unwrap();
        assert_eq!(field.base(), p);
        assert!(field.mul_inv(0).is_none());
        for i in 1..p {
            let inv = field.mul_inv(i).unwrap();
            assert!(1 <= inv && inv < p);
            assert_eq!((i * inv) % p, 1);
            assert_eq!(field.mul_inv(inv).unwrap(), i);
        }
    }
}

#[test]
fn construction_error_kinds() {
    assert_eq!(Gf::new(0).unwrap_err(), GfError::EmptyField);
    assert_eq!(Gf::new(1).unwrap_err(), GfError::ZeroField);
    assert_eq!(Gf::new(4).unwrap_err(), GfError::NotAField(4));
    assert_eq!(Gf::new(9).unwrap_err(), GfError::NotAField(9));
    assert_eq!(Gf::new(15).unwrap_err(), GfError::NotAField(15));
    assert_eq!(
        Gf::new(usize::MAX).unwrap_err(),
        GfError::TooLargeField(usize::MAX)
    );
}

#[test]
fn error_messages() {
    assert_eq!(GfError::EmptyField.message(), "GF[0] is empty");
    assert_eq!(GfError::ZeroField.message(), "GF[1] can contain only zero");
    assert_eq!(GfError::TooLargeField(123).message(), "GF[123] is too large");
    assert_eq!(
        Gf::new(4).unwrap_err().message(),
        "field GF[4] do not exist"
    );
}

#[test]
fn element_ops_stay_reduced() {
    let gf7 = Gf::new(7).unwrap();
    for a in 0..7usize {
        let ea = GfNum::new(&gf7, a);
        assert!(ea.neg().num() < 7);
        for b in 0..7usize {
            let eb = GfNum::new(&gf7, b);
            assert!(GfNum::new(&gf7, a).add(GfNum::new(&gf7, b)).num() < 7);
            assert!(GfNum::new(&gf7, a).sub(GfNum::new(&gf7, b)).num() < 7);
            assert!(GfNum::new(&gf7, a).mul(GfNum::new(&gf7, b)).num() < 7);
            assert!(GfNum::new(&gf7, a).add_raw(b + 7).num() < 7);
            assert!(GfNum::new(&gf7, a).sub_raw(b + 7).num() < 7);
            assert!(GfNum::new(&gf7, a).mul_raw(b + 7).num() < 7);
            if !eb.is_zero() {
                assert!(GfNum::new(&gf7, a).div(GfNum::new(&gf7, b)).num() < 7);
            }
        }
    }
}

#[test]
fn inverse_laws() {
    let gf13 = Gf::new(13).unwrap();
    for a in 0..13usize {
        let ea = GfNum::new(&gf13, a);
        let sum = GfNum::new(&gf13, a).add(ea.neg());
        assert!(sum.is_zero());
        if a != 0 {
            let ea = GfNum::new(&gf13, a);
            let prod = GfNum::new(&gf13, a).mul(ea.mul_inv());
            assert!(prod.eq_raw(1));
        }
    }
}

#[test]
fn cross_representation_equality() {
    let gf5 = Gf::new(5).unwrap();
    let e3 = GfNum::new(&gf5, 3);
    assert!(e3.eq_raw(8));
    assert!(GfNum::raw_eq(8, &e3));
    assert!(!e3.eq_raw(9));
    assert!(!GfNum::raw_eq(9, &e3));
}

#[test]
fn scenario_gf5() {
    let gf5 = Gf::new(5).unwrap();
    let e = |n: usize| GfNum::new(&gf5, n);

    assert_eq!(e(3).add(e(4)).num(), 2);
    assert_eq!(e(2).add_raw(1).num(), 3);
    assert_eq!(GfNum::raw_add(2, e(3)).num(), 0);

    assert_eq!(e(3).sub(e(4)).num(), 4);
    assert_eq!(e(4).sub_raw(1).num(), 3);
    assert_eq!(GfNum::raw_sub(2, e(3)).num(), 1);

    assert_eq!(e(3).mul(e(4)).num(), 2);
    assert_eq!(e(2).mul_raw(2).num(), 4);
    assert_eq!(GfNum::raw_mul(2, e(4)).num(), 3);

    assert_eq!(e(3).div(e(4)).num(), 2);
    assert_eq!(e(2).div_raw(2).num(), 1);
    assert_eq!(GfNum::raw_div(3, e(1)).num(), 3);
}

#[test]
fn raw_operands_reduce_first() {
    let gf5 = Gf::new(5).unwrap();
    let e2 = GfNum::new(&gf5, 2);
    assert_eq!(e2.add_raw(11).num(), 3);
    let e2 = GfNum::new(&gf5, 2);
    assert_eq!(e2.mul_raw(12).num(), 4);
    let e2 = GfNum::new(&gf5, 2);
    assert_eq!(e2.sub_raw(8).num(), 4);
    assert_eq!(gf5.mul_inv(7).unwrap(), 3);
}

#[test]
fn shared_handles_agree() {
    let gf7 = Gf::new(7).unwrap();
    let other = Gf::clone(&gf7);
    assert_eq!(other.base(), 7);
    assert_eq!(other, gf7);
    for i in 1..7usize {
        assert_eq!(other.mul_inv(i), gf7.mul_inv(i));
    }
    let num = GfNum::new(&other, 3);
    assert_eq!(num.field(), &gf7);
}

#[test]
fn element_rendering() {
    let gf97 = Gf::new(97).unwrap();
    assert_eq!(GfNum::new(&gf97, 45).render(), "45");
    assert_eq!(GfNum::new(&gf97, 100).render(), "3");
    assert_eq!(GfNum::new(&gf97, 0).render(), "0");
}

#[test]
fn polynomial_normalization_edges() {
    let gf5 = Gf::new(5).unwrap();

    let poly = GfPoly::from_vec(&gf5, vec![]);
    assert!(poly.is_zero());
    assert_eq!(poly.len(), 0);
    assert_eq!(poly.into_vec(), Vec::<usize>::new());

    let poly = GfPoly::from_vec(&gf5, vec![0, 0, 0]);
    assert!(poly.is_zero());
    assert_eq!(poly.render(), "[  ]");

    let poly = GfPoly::from_vec(&gf5, vec![0, 5, 10]);
    assert!(poly.is_zero());

    let poly = GfPoly::from_vec(&gf5, vec![0, 1]);
    assert_eq!(poly.len(), 2);
    assert_eq!(poly.deg(), 1);
    assert_eq!(poly.into_vec(), vec![0, 1]);

    let poly = GfPoly::new(&gf5, 12);
    assert_eq!(poly.len(), 1);
    assert_eq!(poly.deg(), 0);
    assert_eq!(poly.into_vec(), vec![2]);
}

#[test]
fn polynomial_rendering_multidigit() {
    let gf97 = Gf::new(97).unwrap();
    let poly = GfPoly::from_vec(&gf97, vec![10, 0, 25]);
    assert_eq!(poly.render(), "[ 10, 0, 25 ]");

    let mut poly = GfPoly::from_vec(&gf97, vec![10, 0, 25]);
    poly.set_zero();
    assert_eq!(poly.render(), "[  ]");
    assert!(poly.is_zero());
}

#[test]
fn normalize_is_idempotent() {
    let gf5 = Gf::new(5).unwrap();
    let mut poly = GfPoly::from_vec(&gf5, vec![1, 2, 3, 0, 0]);
    poly.normalize();
    assert_eq!(poly.len(), 3);
    poly.normalize();
    assert_eq!(poly.len(), 3);
    assert_eq!(poly.into_vec(), vec![1, 2, 3]);
}
