use synth_core::control::ControlErrorKind;
use synth_core::envelope::Envelope;
use synth_core::time::TimeStamp;

fn t0() -> TimeStamp {
    TimeStamp::new(0)
}

#[test]
fn adsr_scenario_shape() {
    let env = Envelope::new_adsr(100_000, 150_000, 800_000, 600_000).unwrap();
    let out = env.get_envelope(20000, t0());
    assert_eq!(out.len(), 20000 + 26460);
    assert_eq!(out[0], 0);
    assert_eq!(out[4409], 999_773);
    assert_eq!(out[4410], 1_000_000);
    assert_eq!(out[4410 + 6614], 800_030);
    for k in 11025..20000 {
        assert_eq!(out[k], 800_000);
    }
    assert_eq!(out[20000], 800_000);
    assert_eq!(out[46459], 30);
    for k in 1..4410 {
        assert!(out[k - 1] <= out[k]);
    }
    for k in 4411..11025 {
        assert!(out[k] <= out[k - 1]);
    }
    for k in 20001..46460 {
        assert!(out[k] <= out[k - 1]);
    }
}

#[test]
fn flat_sustain_length_contract() {
    let env = Envelope::new_adsr(0, 0, 500_000, 100_000).unwrap();
    let out = env.get_envelope(100, t0());
    assert_eq!(out.len(), 100 + 4410);
    assert!(out[..100].iter().all(|&v| v == 500_000));
    assert_eq!(out[100], 500_000);
    assert_eq!(out[101], 499_886);
    assert_eq!(out[4509], 113);
}

#[test]
fn exponential_sustain_halves_after_half_life() {
    let env = Envelope::new_adsr_with_half_life(0, 0, 800_000, 100_000, 0).unwrap();
    let out = env.get_envelope(10000, t0());
    assert_eq!(out.len(), 10000);
    assert_eq!(out[0], 800_000);
    assert_eq!(out[1], 799_874);
    assert!((out[4410] - 400_000).abs() <= 1);
    assert!((out[8820] - 200_000).abs() <= 1);
    assert!((out[2205] - 565_685).abs() <= 2);
    for k in 1..10000 {
        assert!(out[k] <= out[k - 1]);
    }
}

#[test]
fn short_half_life_follows_exponential() {
    let env = Envelope::new_adsr_with_half_life(0, 0, 1_000_000, 10_000, 0).unwrap();
    let out = env.get_envelope(1000, t0());
    assert!((out[220] - 707_663).abs() <= 2);
    assert!((out[441] - 500_000).abs() <= 1);
}

#[test]
fn decay_longer_than_sustain_has_no_sustain() {
    let env = Envelope::new_ad(100_000, 100_000).unwrap();
    let out = env.get_envelope(10, t0());
    assert_eq!(out.len(), 8820);
    assert_eq!(out[8819], 226);
}

#[test]
fn zero_phases_and_zero_sustain_give_empty() {
    let env = Envelope::new_adsr(0, 0, 300_000, 0).unwrap();
    assert!(env.get_envelope(0, t0()).is_empty());
}

#[test]
fn get_vec_pads_long_spans() {
    let env = Envelope::new_adsr(0, 100_000, 500_000, 100_000).unwrap();
    let out = env.get_vec(t0(), 10000);
    assert_eq!(out.len(), 10000);
    assert_eq!(out[0], 1_000_000);
    assert_eq!(out[4410], 500_113);
    assert!(out[8820..].iter().all(|&v| v == 0));
}

#[test]
fn get_vec_keeps_release_for_short_spans() {
    let env = Envelope::new_adsr(0, 0, 500_000, 100_000).unwrap();
    let out = env.get_vec(t0(), 4000);
    assert_eq!(out.len(), 4410);
    assert_eq!(out[0], 500_000);
    let short = env.get_vec(t0(), 4410);
    assert_eq!(short.len(), 4410);
}

#[test]
fn constructors_refuse_out_of_range() {
    let e = Envelope::new(-1, 0, 0, None, 0).unwrap_err();
    assert_eq!(e.kind, ControlErrorKind::OutOfRange { value: -1, min: 0, max: 25_000_000 });
    assert_eq!(e.origin, vec![("Envelope", "attack")]);
    let e = Envelope::new(0, 25_000_001, 0, None, 0).unwrap_err();
    assert_eq!(e.origin, vec![("Envelope", "decay")]);
    let e = Envelope::new_adsr(0, 0, 1_000_001, 0).unwrap_err();
    assert_eq!(e.kind, ControlErrorKind::OutOfRange { value: 1_000_001, min: 0, max: 1_000_000 });
    let e = Envelope::new_adsr_with_half_life(0, 0, 0, 5_000, 0).unwrap_err();
    assert_eq!(e.kind, ControlErrorKind::OutOfRange { value: 5_000, min: 10_000, max: 10_000_000 });
    assert_eq!(e.origin, vec![("Envelope", "sustain half life")]);
    let e = Envelope::new_decay(30_000_000).unwrap_err();
    assert_eq!(e.origin, vec![("Envelope", "decay")]);
    assert!(Envelope::new(25_000_000, 0, 1_000_000, Some(10_000_000), 25_000_000).is_ok());
}

#[test]
fn set_replaces_all_controls() {
    let mut env = Envelope::new_decay(100_000).unwrap();
    env.set(Envelope::new_adsr(0, 0, 500_000, 0).unwrap());
    assert_eq!(env.get_envelope(3, t0()), vec![500_000, 500_000, 500_000]);
}

#[test]
fn default_is_standard_adsr() {
    let env = Envelope::default();
    let out = env.get_envelope(20000, t0());
    assert_eq!(out.len(), 46460);
    assert_eq!(out[15000], 800_000);
}
