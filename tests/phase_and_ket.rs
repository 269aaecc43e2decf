use phase_rs::ket::{CompKetState, KetState};
use phase_rs::phase::{Angle, Phase, PhaseMul};

#[test]
fn ket_complements() {
    assert_eq!(KetState::Zero.compl(), KetState::One);
    assert_eq!(KetState::One.compl(), KetState::Zero);
    assert_eq!(KetState::Plus.compl(), KetState::Minus);
    assert_eq!(KetState::Minus.compl(), KetState::Plus);
}

#[test]
fn ket_chars() {
    let s: String = [KetState::Zero, KetState::One, KetState::Plus, KetState::Minus]
        .iter()
        .map(|k| k.to_char())
        .collect();
    assert_eq!(s, "01+-");
}

#[test]
fn comp_ket_state_basics() {
    let k = CompKetState::new(vec![KetState::One, KetState::Plus]);
    assert_eq!(k.qubits(), 2);
    assert_eq!(k.get(1), KetState::Plus);
    assert_eq!(k.iter().copied().collect::<Vec<_>>(), vec![KetState::One, KetState::Plus]);
    let s = CompKetState::single(KetState::Minus);
    assert_eq!(s.qubits(), 1);
    assert_eq!(s.get(0), KetState::Minus);
}

#[test]
fn from_angle_uses_exact_variants() {
    assert_eq!(Phase::from_angle(Angle::new(1, 1)), Phase::MinusOne);
    assert_eq!(Phase::from_angle(Angle::new(1, 2)), Phase::Imag);
    assert_eq!(Phase::from_angle(Angle::new(3, 2)), Phase::MinusImag);
    assert_eq!(Phase::from_angle(Angle::new(10, 10)), Phase::MinusOne);
    assert_eq!(Phase::from_angle(Angle::new(5, 10)), Phase::Imag);
    assert_eq!(Phase::from_angle(Angle::new(15, 10)), Phase::MinusImag);
}

#[test]
fn from_angle_keeps_other_angles() {
    assert_eq!(Phase::from_angle(Angle::new(1, 4)), Phase::Angle(Angle::new(1, 4)));
    assert_eq!(Phase::from_angle(Angle::new(-1, 1)), Phase::Angle(Angle::new(-1, 1)));
    assert_eq!(Phase::from_angle(Angle::new(0, 1)), Phase::Angle(Angle::new(0, 1)));
}

#[test]
fn phase_eval_values() {
    assert_eq!(Phase::MinusOne.eval(), Angle::new(1, 1));
    assert_eq!(Phase::Imag.eval(), Angle::new(1, 2));
    assert_eq!(Phase::MinusImag.eval(), Angle::new(3, 2));
    assert_eq!(Phase::Angle(Angle::new(1, 4)).eval(), Angle::new(1, 4));
}

#[test]
fn angle_half_and_neg() {
    assert_eq!(Angle::new(1, 1).half(), Angle::new(1, 2));
    assert_eq!(Angle::new(2, 4).half(), Angle::new(1, 4));
    assert_eq!(Angle::new(3, 4).neg(), Angle::new(-3, 4));
    let big = Angle::new(3, u64::MAX);
    assert_eq!(big.half(), Angle::new(1, u64::MAX));
    assert_eq!(Angle::new(-3, u64::MAX).half(), Angle::new(-1, u64::MAX));
}

#[test]
fn phase_mul_apply() {
    let one = PhaseMul::one();
    assert_eq!(one.apply(Angle::new(1, 1)), Angle::new(1, 1));
    assert_eq!(one.inverse().apply(Angle::new(1, 1)), Angle::new(-1, 1));
    assert_eq!(one.sqrt().apply(Angle::new(1, 1)), Angle::new(1, 2));
    assert_eq!(one.sqrt().sqrt().inverse().apply(Angle::new(1, 1)), Angle::new(-1, 4));
    let saturated = PhaseMul { negated: false, halvings: u64::MAX };
    assert_eq!(saturated.sqrt().halvings, u64::MAX);
}

#[test]
fn decimal_angles() {
    let a = Angle::from_decimal(false, b"0", b"25").unwrap();
    assert_eq!((a.num(), a.den()), (25, 100));
    let b = Angle::from_decimal(true, b"1", b"5").unwrap();
    assert_eq!((b.num(), b.den()), (-15, 10));
    let c = Angle::from_decimal(false, b"2", b"").unwrap();
    assert_eq!((c.num(), c.den()), (2, 1));
    assert_eq!(Phase::from_angle(Angle::from_decimal(false, b"1", b"0").unwrap()), Phase::MinusOne);
}

#[test]
fn decimal_angles_rejected() {
    assert!(Angle::from_decimal(false, b"1a", b"").is_none());
    assert!(Angle::from_decimal(false, b"1", b"x").is_none());
    assert!(Angle::from_decimal(false, b"99999999999999999999", b"").is_none());
    assert!(Angle::from_decimal(false, b"0", b"000000000000000000001").is_none());
    assert!(Angle::from_decimal(false, b"9223372036854775807", b"").is_some());
}
