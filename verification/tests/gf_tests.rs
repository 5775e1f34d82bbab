use gf::{Gf, GfNum};

#[test]
fn gf_works() {
    let gf2 = Gf::new(2);
    assert!(gf2.is_ok());
    let gf2 = gf2.unwrap();
    assert_eq!(gf2.base(), 2);
}

#[test]
fn inverse_correct() {
    let gf5 = Gf::new(5).unwrap();
    assert!(gf5.mul_inv(0).is_none());
    assert_eq!(gf5.mul_inv(1).unwrap(), 1);
    assert_eq!(gf5.mul_inv(2).unwrap(), 3);
    assert_eq!(gf5.mul_inv(3).unwrap(), 2);
    assert_eq!(gf5.mul_inv(4).unwrap(), 4);
}

#[test]
fn not_a_field() {
    assert!(Gf::new(0).is_err());
    assert!(Gf::new(1).is_err());
    assert!(Gf::new(4).is_err());
    assert!(Gf::new(isize::max_value() as usize).is_err());
}

#[test]
fn gfn_works() {
    let gf5 = Gf::new(5).unwrap();
    let num = GfNum::new(&gf5, 7);
    assert_eq!(num.field(), &gf5);
    assert_eq!(num.num(), 2);
}

#[test]
#[should_panic]
fn mul_inv_for_zero() {
    let gf2 = Gf::new(2).unwrap();
    let num = GfNum::new(&gf2, 0);
    num.mul_inv();
}

#[test]
fn gfn_sum_works() {
    let gf5 = Gf::new(5).unwrap();

    let gfn3 = GfNum::new(&gf5, 3);
    let gfn4 = GfNum::new(&gf5, 4);

    let gfn2 = gfn3.add(gfn4);
    assert_eq!(gfn2.num(), 2);
    let gfn3 = gfn2.add_raw(1);
    assert_eq!(gfn3.num(), 3);
    let gfn0 = GfNum::raw_add(2, gfn3);
    assert_eq!(gfn0.num(), 0);

    let mut num = gfn0;
    let gfn1 = GfNum::new(&gf5, 1);

    num.add_assign(gfn1);
    assert_eq!(num.num(), 1);
    num.add_assign_raw(1);
    assert_eq!(num.num(), 2);
}

#[test]
fn gfn_sub_works() {
    let gf5 = Gf::new(5).unwrap();

    let gfn3 = GfNum::new(&gf5, 3);
    let gfn4 = GfNum::new(&gf5, 4);

    let gfn4 = gfn3.sub(gfn4);
    assert_eq!(gfn4.num(), 4);
    let gfn3 = gfn4.sub_raw(1);
    assert_eq!(gfn3.num(), 3);
    let gfn1 = GfNum::raw_sub(2, gfn3);
    assert_eq!(gfn1.num(), 1);

    let mut num = gfn1;
    let gfn1 = GfNum::new(&gf5, 1);

    num.sub_assign(gfn1);
    assert_eq!(num.num(), 0);
    num.sub_assign_raw(2);
    assert_eq!(num.num(), 3);
}

#[test]
fn gfn_neg_works() {
    let gf5 = Gf::new(5).unwrap();

    let gfn4 = GfNum::new(&gf5, 4);

    let gfn1 = gfn4.neg();
    assert_eq!(gfn1.num(), 1);
}

#[test]
fn gfn_mul_works() {
    let gf5 = Gf::new(5).unwrap();

    let gfn3 = GfNum::new(&gf5, 3);
    let gfn4 = GfNum::new(&gf5, 4);

    let gfn2 = gfn3.mul(gfn4);
    assert_eq!(gfn2.num(), 2);
    let gfn4 = gfn2.mul_raw(2);
    assert_eq!(gfn4.num(), 4);
    let gfn3 = GfNum::raw_mul(2, gfn4);
    assert_eq!(gfn3.num(), 3);

    let mut num = gfn3;
    let gfn2 = GfNum::new(&gf5, 2);

    num.mul_assign(gfn2);
    assert_eq!(num.num(), 1);
    num.mul_assign_raw(0);
    assert_eq!(num.num(), 0);
}

#[test]
fn gfn_div_works() {
    let gf5 = Gf::new(5).unwrap();

    let gfn3 = GfNum::new(&gf5, 3);
    let gfn4 = GfNum::new(&gf5, 4);

    let gfn2 = gfn3.div(gfn4);
    assert_eq!(gfn2.num(), 2);
    let gfn1 = gfn2.div_raw(2);
    assert_eq!(gfn1.num(), 1);
    let gfn3 = GfNum::raw_div(3, gfn1);
    assert_eq!(gfn3.num(), 3);

    let mut num = gfn3;
    let gfn2 = GfNum::new(&gf5, 2);

    num.div_assign(gfn2);
    assert_eq!(num.num(), 4);
    num.div_assign_raw(2);
    assert_eq!(num.num(), 2);
}

#[test]
#[should_panic]
fn gfn_division_by_zero() {
    let gf2 = Gf::new(2).unwrap();
    let mut num = GfNum::new(&gf2, 0);
    num.div_assign_raw(0);
}

#[test]
fn gfn_comparison() {
    let gf5 = Gf::new(5).unwrap();

    let gfn3 = GfNum::new(&gf5, 3);
    let gfn4 = GfNum::new(&gf5, 4);

    assert_eq!(gfn3, gfn3);
    assert!(gfn3.eq_raw(8));
    assert!(GfNum::raw_eq(8, &gfn3));

    assert!(gfn3 < gfn4);
    assert!(gfn3.lt_raw(9));
    assert!(GfNum::raw_lt(8, &gfn4));

    assert!(!gfn3.is_zero())
}
