use gf::{Gf, GfNum, GfPoly};

#[test]
fn gf_poly_works() {
    let gf5 = Gf::new(5).unwrap();

    let poly = GfPoly::new(&gf5, 3);
    let output = poly.render();
    assert_eq!(output, "[ 3 ]");

    let num = GfNum::new(&gf5, 5);
    let poly = GfPoly::from_gf_num(num);
    let output = poly.render();
    assert_eq!(output, "[  ]");

    let poly = GfPoly::from_vec(&gf5, vec![1, 2, 3, 0, 0]);
    let output = poly.render();
    assert_eq!(output, "[ 1, 2, 3 ]");
    assert_eq!(poly.field(), &gf5);
    assert_eq!(poly.poly(), &GfNum::from_vec(&gf5, vec![1, 2, 3])[..]);
    assert_eq!(poly.len(), 3);
    assert_eq!(poly.deg(), 2);
    assert_eq!(poly.into_vec(), vec![1, 2, 3]);

    let poly = GfPoly::from_vec(&gf5, vec![1, 2, 3, 0, 0]);
    assert_eq!(poly.into_gf_num_vec(), GfNum::from_vec(&gf5, vec![1, 2, 3]));

    let mut poly = GfPoly::from_vec(&gf5, vec![1, 2, 3, 0, 0]);
    poly.set_zero();
    assert!(poly.is_zero());
}
