use rugmat::float::{limbs_for, RawFloat, EXP_INF, EXP_NAN, EXP_ZERO, LIMB_HIGH_BIT};

#[test]
fn limb_count_rounds_up() {
    assert_eq!(limbs_for(1), 1);
    assert_eq!(limbs_for(16), 1);
    assert_eq!(limbs_for(64), 1);
    assert_eq!(limbs_for(65), 2);
    assert_eq!(limbs_for(128), 2);
    assert_eq!(limbs_for(129), 3);
    assert_eq!(limbs_for(256), 4);
    assert_eq!(limbs_for(4096), 64);
    assert_eq!(limbs_for(u32::MAX), 1 << 26);
}

#[test]
fn from_parts_checks_the_limb_count() {
    assert!(RawFloat::from_parts(64, false, 0, vec![1]).is_some());
    assert!(RawFloat::from_parts(65, false, 0, vec![1]).is_none());
    assert!(RawFloat::from_parts(65, false, 0, vec![1, 2]).is_some());
    assert!(RawFloat::from_parts(64, false, 0, vec![]).is_none());
    assert!(RawFloat::from_parts(64, false, 0, vec![1, 2]).is_none());
    assert!(RawFloat::from_parts(0, false, 0, vec![]).is_none());
    assert!(RawFloat::from_parts(1, true, -5, vec![LIMB_HIGH_BIT]).is_some());
}

#[test]
fn from_parts_keeps_the_fields() {
    let f = RawFloat::from_parts(128, true, -77, vec![3, 0x8000_0000_0000_0009]).unwrap();
    assert_eq!(f.prec(), 128);
    assert!(f.is_negative());
    assert_eq!(f.exp(), -77);
    assert_eq!(f.limbs(), &vec![3, 0x8000_0000_0000_0009]);
    assert!(!f.is_zero());
    assert!(!f.is_nan());
}

#[test]
fn from_limb_keeps_the_fields() {
    let f = RawFloat::from_limb(53, false, -33, 0xdbe6_fece_bded_d800);
    assert!(f == RawFloat::from_parts(53, false, -33, vec![0xdbe6_fece_bded_d800]).unwrap());
}

#[test]
fn zero_has_cleared_limbs() {
    for prec in [1u32, 16, 64, 65, 256, 4096] {
        let z = RawFloat::zero(prec);
        assert_eq!(z.prec(), prec);
        assert!(!z.is_negative());
        assert_eq!(z.exp(), EXP_ZERO);
        assert_eq!(z.limbs().len(), limbs_for(prec));
        assert!(z.limbs().iter().all(|&l| l == 0));
        assert!(z.is_zero());
    }
}

#[test]
fn one_has_only_the_top_bit() {
    for prec in [1u32, 16, 64, 65, 256, 4096] {
        let one = RawFloat::one(prec);
        let n = limbs_for(prec);
        assert_eq!(one.prec(), prec);
        assert!(!one.is_negative());
        assert_eq!(one.exp(), 1);
        assert_eq!(one.limbs().len(), n);
        for (i, &l) in one.limbs().iter().enumerate() {
            assert_eq!(l, if i == n - 1 { LIMB_HIGH_BIT } else { 0 });
        }
        assert!(!one.is_zero());
    }
}

#[test]
fn special_exponents_are_told_apart() {
    let zero = RawFloat::from_parts(64, true, EXP_ZERO, vec![5]).unwrap();
    let nan = RawFloat::from_parts(64, false, EXP_NAN, vec![5]).unwrap();
    let inf = RawFloat::from_parts(64, false, EXP_INF, vec![5]).unwrap();
    assert!(zero.is_zero() && !zero.is_nan());
    assert!(nan.is_nan() && !nan.is_zero());
    assert!(!inf.is_zero() && !inf.is_nan());
    assert_eq!(EXP_ZERO, i64::MIN + 1);
    assert_eq!(EXP_NAN, i64::MIN + 2);
    assert_eq!(EXP_INF, i64::MIN + 3);
}

#[test]
fn clone_is_a_deep_copy() {
    let f = RawFloat::from_parts(128, true, 4, vec![11, 0x8000_0000_0000_0000]).unwrap();
    let g = f.clone();
    assert!(f == g);
    assert_eq!(g.limbs(), &vec![11, 0x8000_0000_0000_0000]);
}
