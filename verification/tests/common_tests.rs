use wgfem::common::{drop_axis, insert_axis, Dim, INFINITY_BITS, R, SIGN_BIT};

fn sample_reals() -> Vec<f64> {
    vec![
        0.0,
        -0.0,
        1.0,
        -1.0,
        0.5,
        -0.5,
        1e-12,
        -1e-12,
        1e300,
        -1e300,
        f64::MIN_POSITIVE,
        -f64::MIN_POSITIVE,
        5e-324,
        -5e-324,
        f64::MAX,
        f64::MIN,
        f64::INFINITY,
        f64::NEG_INFINITY,
        f64::NAN,
        -f64::NAN,
        std::f64::consts::PI,
        3.0,
        3.0000000000000004,
    ]
}

#[test]
fn gt_orders_bits_as_the_reals_they_encode() {
    for &x in &sample_reals() {
        for &y in &sample_reals() {
            assert_eq!(R(x.to_bits()).gt(R(y.to_bits())), x > y, "{} > {}", x, y);
        }
    }
}

#[test]
fn gt_agrees_with_a_positive_difference() {
    for &x in &sample_reals() {
        for &y in &sample_reals() {
            assert_eq!(R(x.to_bits()).gt(R(y.to_bits())), x - y > 0.0, "{} - {}", x, y);
        }
    }
}

#[test]
fn gt_on_chosen_bit_patterns() {
    let one = R(0x3ff0_0000_0000_0000);
    let minus_one = R(0xbff0_0000_0000_0000);
    let zero = R(0);
    let minus_zero = R(SIGN_BIT);
    let inf = R(INFINITY_BITS);
    let nan = R(INFINITY_BITS + 1);
    assert!(one.gt(zero));
    assert!(one.gt(minus_one));
    assert!(zero.gt(minus_one));
    assert!(!minus_one.gt(zero));
    assert!(!zero.gt(minus_zero));
    assert!(!minus_zero.gt(zero));
    assert!(inf.gt(one));
    assert!(!inf.gt(inf));
    assert!(!nan.gt(zero));
    assert!(!one.gt(nan));
}

#[test]
fn drop_axis_leaves_the_others_in_order() {
    let v = vec![1.5, 2.5, 3.5];
    assert_eq!(drop_axis(&v, Dim(0)), vec![2.5, 3.5]);
    assert_eq!(drop_axis(&v, Dim(1)), vec![1.5, 3.5]);
    assert_eq!(drop_axis(&v, Dim(2)), vec![1.5, 2.5]);
    assert_eq!(drop_axis(&vec![7u8], Dim(0)), Vec::<u8>::new());
}

#[test]
fn insert_axis_puts_the_entry_in_place() {
    let v = vec![1.5, 3.5];
    assert_eq!(insert_axis(&v, Dim(0), 9.0), vec![9.0, 1.5, 3.5]);
    assert_eq!(insert_axis(&v, Dim(1), 9.0), vec![1.5, 9.0, 3.5]);
    assert_eq!(insert_axis(&v, Dim(2), 9.0), vec![1.5, 3.5, 9.0]);
    assert_eq!(insert_axis(&Vec::<u8>::new(), Dim(0), 4), vec![4]);
}

#[test]
fn insert_and_drop_undo_each_other() {
    let v = vec![10, 20, 30, 40];
    for a in 0..4 {
        assert_eq!(insert_axis(&drop_axis(&v, Dim(a)), Dim(a), v[a]), v);
    }
    for a in 0..=4 {
        assert_eq!(drop_axis(&insert_axis(&v, Dim(a), 99), Dim(a)), v);
    }
}
