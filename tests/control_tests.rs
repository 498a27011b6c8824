use synth_core::control::{Control, ControlErrorKind, IdMap};
use synth_core::envelope::Envelope;
use synth_core::time::TimeStamp;
use synth_core::UNIT;

fn t0() -> TimeStamp {
    TimeStamp::new(0)
}

#[test]
fn value_in_range_round_trips() {
    let c = Control::from_val_in_range(7, (0, 10)).unwrap();
    assert_eq!(c.get_value(t0()), Some(7));
    let lo = Control::from_val_in_range(0, (0, 10)).unwrap();
    assert_eq!(lo.get_value(t0()), Some(0));
    let hi = Control::from_val_in_range(10, (0, 10)).unwrap();
    assert_eq!(hi.get_value(t0()), Some(10));
}

#[test]
fn value_out_of_range_is_refused() {
    let e = Control::from_val_in_range(11, (0, 10)).unwrap_err();
    assert_eq!(e.kind, ControlErrorKind::OutOfRange { value: 11, min: 0, max: 10 });
    assert!(e.origin.is_empty());
    let e = Control::from_val_in_range(-1, (0, 10)).unwrap_err();
    assert_eq!(e.kind, ControlErrorKind::OutOfRange { value: -1, min: 0, max: 10 });
}

#[test]
fn unit_range() {
    assert!(Control::from_val_in_unit(UNIT).is_ok());
    assert!(Control::from_val_in_unit(0).is_ok());
    let e = Control::from_val_in_unit(UNIT + 1).unwrap_err();
    assert_eq!(e.kind, ControlErrorKind::OutOfRange { value: UNIT + 1, min: 0, max: UNIT });
}

#[test]
fn set_value_checks_range() {
    let mut c = Control::from_val_in_range(3, (0, 10)).unwrap();
    assert!(c.set_value(9).is_ok());
    assert_eq!(c.get_value(t0()), Some(9));
    let e = c.set_value(20).unwrap_err();
    assert_eq!(e.kind, ControlErrorKind::OutOfRange { value: 20, min: 0, max: 10 });
    assert_eq!(c.get_value(t0()), Some(9));
}

#[test]
fn get_vec_repeats_constant() {
    let c = Control::from_val_in_range(4, (0, 10)).unwrap();
    assert_eq!(c.get_vec(t0(), 3), Some(vec![4, 4, 4]));
    assert_eq!(c.get_vec(t0(), 0), Some(vec![]));
    let s = Control::from_source(5, (0, 10));
    assert_eq!(s.get_vec(t0(), 3), None);
    assert_eq!(s.get_value(t0()), None);
}

#[test]
fn heal_rewrites_source_id() {
    let mut c = Control::from_source(3, (0, 10));
    let mut m = IdMap::new();
    m.insert(3, 8);
    assert!(c.heal_sources(&m).is_ok());
    assert_eq!(c.get_ids(), vec![8]);
}

#[test]
fn heal_with_missing_id_fails() {
    let mut c = Control::from_source(3, (0, 10));
    let mut m = IdMap::new();
    m.insert(4, 8);
    let e = c.heal_sources(&m).unwrap_err();
    assert_eq!(e.kind, ControlErrorKind::Dangling { id: 3 });
    assert_eq!(c.get_ids(), vec![3]);
}

#[test]
fn heal_leaves_fixed_control() {
    let mut c = Control::from_val_in_range(2, (0, 10)).unwrap();
    assert!(c.heal_sources(&IdMap::new()).is_ok());
    assert_eq!(c.get_value(t0()), Some(2));
}

#[test]
fn id_map_last_insert_wins() {
    let mut m = IdMap::new();
    m.insert(1, 10);
    m.insert(2, 20);
    m.insert(1, 11);
    assert_eq!(m.get(1), Some(11));
    assert_eq!(m.get(2), Some(20));
    assert_eq!(m.get(3), None);
}

#[test]
fn set_ids_assigns_once() {
    let mut c = Control::from_source(9, (0, 10));
    let mut next: usize = 100;
    c.set_ids(&mut next);
    assert_eq!(next, 101);
    c.set_ids(&mut next);
    assert_eq!(next, 101);
    assert_eq!(c.get_ids(), vec![100, 9]);
}

#[test]
fn test_sources_checks_liveness() {
    let c = Control::from_source(4, (0, 10));
    assert!(c.test_sources(&vec![1, 4]).is_ok());
    let e = c.test_sources(&vec![1, 2]).unwrap_err();
    assert_eq!(e.kind, ControlErrorKind::Dangling { id: 4 });
    let f = Control::from_val_in_range(1, (0, 10)).unwrap();
    assert!(f.test_sources(&vec![]).is_ok());
}

#[test]
fn set_origin_records_path() {
    let e = Control::from_val_in_range(11, (0, 10)).unwrap_err();
    let e = e.set_origin("Envelope", "attack").set_origin("Track", "envelope");
    assert_eq!(e.origin, vec![("Envelope", "attack"), ("Track", "envelope")]);
}

#[test]
fn sourced_control_reads_its_envelope() {
    let sources = vec![
        Envelope::new_adsr(0, 0, 300_000, 0).unwrap(),
        Envelope::new_decay(100_000).unwrap(),
    ];
    let c = Control::from_source(1, (0, UNIT));
    let long = c.get_vec_in(t0(), 5000, &sources).unwrap();
    assert_eq!(long.len(), 5000);
    assert_eq!(long[0], 1_000_000);
    assert_eq!(long[4409], 226);
    assert!(long[4410..].iter().all(|&v| v == 0));
    let short = c.get_vec_in(t0(), 3, &sources).unwrap();
    assert_eq!(short.len(), 4410);
    assert_eq!(short[0], 1_000_000);
    let dangling = Control::from_source(2, (0, UNIT));
    assert_eq!(dangling.get_vec_in(t0(), 3, &sources), None);
    let fixed = Control::from_val_in_unit(5).unwrap();
    assert_eq!(fixed.get_vec_in(t0(), 2, &sources), Some(vec![5, 5]));
}
