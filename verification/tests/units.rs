use tesla_fan_control::units::{Pct, Pwm};

#[test]
fn pct_to_pwm_zero() {
    assert_eq!(Pwm::from(Pct(0)), Pwm(0));
}

#[test]
fn pct_to_pwm_fifty() {
    // 50 * 255 / 100 = 127 (integer truncation, not 127.5)
    assert_eq!(Pwm::from(Pct(50)), Pwm(127));
}

#[test]
fn pct_to_pwm_full() {
    assert_eq!(Pwm::from(Pct(100)), Pwm(255));
}

#[test]
fn clamp_low() {
    assert_eq!(Pct(10).clamp(Pct(20), Pct(80)), Pct(20));
}

#[test]
fn clamp_high() {
    assert_eq!(Pct(95).clamp(Pct(20), Pct(80)), Pct(80));
}

#[test]
fn clamp_passthrough() {
    assert_eq!(Pct(50).clamp(Pct(20), Pct(80)), Pct(50));
}

#[test]
fn every_percentage_scales_down() {
    for p in 0..=100u8 {
        assert_eq!(Pwm::from(Pct(p)), Pwm((u16::from(p) * 255 / 100) as u8));
    }
    for p in 101..=255u8 {
        assert_eq!(Pwm::from(Pct(p)), Pwm((u16::from(p) * 255 / 100) as u8));
    }
}

#[test]
fn clamping_twice_is_clamping_once() {
    for p in [0u8, 19, 20, 50, 80, 81, 255] {
        let once = Pct(p).clamp(Pct(20), Pct(80));
        assert_eq!(once.clamp(Pct(20), Pct(80)), once);
    }
    assert_eq!(Pct(7).clamp(Pct(5), Pct(5)), Pct(5));
}
