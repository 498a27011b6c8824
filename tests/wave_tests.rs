use synth_core::io::easy_save;
use synth_core::time::TimeStamp;
use synth_core::control::{ControlErrorKind, IdMap};
use synth_core::envelope::Envelope;
use synth_core::volume::Volume;
use synth_core::wave::Stereo;
use synth_core::UNIT;

#[test]
fn constructors_fill_channels() {
    let z = Stereo::zeros(3);
    assert_eq!(z.get_right(), &vec![0, 0, 0]);
    assert_eq!(z.get_left(), &vec![0, 0, 0]);
    let o = Stereo::ones(2);
    assert_eq!(o.get_left(), &vec![UNIT, UNIT]);
    let f = Stereo::from_vec(vec![1, 2, 3]);
    assert_eq!(f.get_right(), &vec![1, 2, 3]);
    assert_eq!(f.get_left(), &vec![1, 2, 3]);
    assert_eq!(f.len(), 3);
    assert!(Stereo::new().is_empty());
    assert!(Stereo::with_capacity(10).is_empty());
}

#[test]
fn add_same_length_at_zero() {
    let mut a = Stereo::from_vec(vec![1, 2, 3]);
    a.add(&Stereo::from_vec(vec![10, 20, 30]), 0);
    assert_eq!(a.get_right(), &vec![11, 22, 33]);
    assert_eq!(a.get_left(), &vec![11, 22, 33]);
}

#[test]
fn add_at_offset_keeps_prefix_and_grows() {
    let mut a = Stereo::from_vec(vec![1, 2, 3]);
    a.add(&Stereo::from_vec(vec![10, 20, 30]), 2);
    assert_eq!(a.get_right(), &vec![1, 2, 13, 20, 30]);
    assert_eq!(a.len(), 5);
    let mut b = Stereo::from_vec(vec![1]);
    b.add_consuming(Stereo::from_vec(vec![5, 6]), 3);
    assert_eq!(b.get_left(), &vec![1, 0, 0, 5, 6]);
}

#[test]
fn add_inside_does_not_grow() {
    let mut a = Stereo::from_vec(vec![1, 1, 1, 1]);
    a.add(&Stereo::from_vec(vec![2]), 1);
    assert_eq!(a.get_right(), &vec![1, 3, 1, 1]);
}

#[test]
fn scale_and_scale_by_vec() {
    let mut a = Stereo::from_vec(vec![UNIT, -UNIT, 3]);
    a.scale(UNIT / 2);
    assert_eq!(a.get_right(), &vec![UNIT / 2, -UNIT / 2, 1]);
    let mut b = Stereo::from_vec(vec![UNIT, -UNIT, 10]);
    b.scale_by_vec(vec![2 * UNIT, UNIT / 4, 0]);
    assert_eq!(b.get_left(), &vec![2 * UNIT, -UNIT / 4, 0]);
}

#[test]
fn resize_and_clear() {
    let mut a = Stereo::from_vec(vec![1, 2, 3]);
    a.resize(5, 7);
    assert_eq!(a.get_right(), &vec![1, 2, 3, 7, 7]);
    a.resize(2, 0);
    assert_eq!(a.get_left(), &vec![1, 2]);
    a.clear();
    assert!(a.is_empty());
}

#[test]
fn peak_normalize_uses_global_peak() {
    let mut a = Stereo::from_vec(vec![100_000, -200_000]);
    a.add(&Stereo::from_vec(vec![0, 0]), 0);
    a.peak_normalize();
    assert_eq!(a.get_right(), &vec![450_000, -900_000]);
    let before = a.clone();
    a.peak_normalize();
    assert_eq!(a.get_right(), before.get_right());
    assert_eq!(a.get_left(), before.get_left());
}

#[test]
fn peak_normalize_leaves_silence() {
    let mut a = Stereo::zeros(4);
    a.peak_normalize();
    assert_eq!(a.get_right(), &vec![0, 0, 0, 0]);
}

#[test]
fn volume_scales_when_on() {
    let mut v = Volume::new();
    let mut w = Stereo::from_vec(vec![10, -20]);
    v.apply(&mut w, TimeStamp::new(0), &vec![]);
    assert_eq!(w.get_right(), &vec![10, -20]);
    v.off();
    v.apply(&mut w, TimeStamp::new(0), &vec![]);
    assert_eq!(w.get_right(), &vec![10, -20]);
    v.toggle();
    v.on();
    v.set_defaults();
    v.apply(&mut w, TimeStamp::new(0), &vec![]);
    assert_eq!(w.get_left(), &vec![10, -20]);
    assert!(v.test_sources(&vec![]).is_ok());
    let mut next: usize = 0;
    v.set_ids(&mut next);
    assert_eq!(v.get_ids(), vec![0]);
}

#[test]
fn pcm_frames_interleave_and_clamp() {
    let w = Stereo::from_vec(vec![UNIT, -UNIT, 2 * UNIT, UNIT / 2]);
    let frames = easy_save(&w);
    assert_eq!(frames, vec![32767, 32767, -32767, -32767, 32767, 32767, 16383, 16383]);
}

#[test]
fn mono_frames_use_quarter_scale() {
    let frames = synth_core::io::mono_frames(&vec![4 * UNIT, UNIT, -UNIT, 8 * UNIT, 0]);
    assert_eq!(frames, vec![32767, 8191, -8191, 32767, 0]);
}

#[test]
fn volume_follows_source_envelope() {
    let sources = vec![Envelope::new_adsr(0, 100_000, UNIT / 2, 0).unwrap()];
    let mut v = Volume::new();
    v.set_source(0);
    let mut w = Stereo::ones(5000);
    v.apply(&mut w, TimeStamp::new(0), &sources);
    assert_eq!(w.get_right()[0], UNIT);
    assert_eq!(w.get_left()[4409], 500_113);
    assert_eq!(w.get_right()[4410], 0);
    assert_eq!(w.get_left()[4999], 0);
}

#[test]
fn volume_heal_rewrites_and_reports() {
    let mut v = Volume::new();
    v.set_source(3);
    let mut m = IdMap::new();
    m.insert(3, 7);
    assert!(v.heal_sources(&m).is_ok());
    assert_eq!(v.get_ids(), vec![7]);
    let e = v.heal_sources(&IdMap::new()).unwrap_err();
    assert_eq!(e.kind, ControlErrorKind::Dangling { id: 7 });
    assert_eq!(e.origin, vec![("Volume", "volume")]);
    let e = v.test_sources(&vec![1]).unwrap_err();
    assert_eq!(e.origin, vec![("Volume", "volume")]);
    assert!(v.test_sources(&vec![7]).is_ok());
    v.set_defaults();
    assert!(v.heal_sources(&IdMap::new()).is_ok());
}
