use crucible::errors::Fault;
use crucible::lantern::Probability;

#[test]
fn probability_round_trips_every_valid_value() {
    for v in 0u8..=100u8 {
        match Probability::new(v) {
            Ok(p) => assert_eq!(p.value(), v),
            Err(_) => panic!("construction failed for {}", v),
        }
    }
}

#[test]
fn probability_rejects_every_out_of_range_value() {
    for v in 101u8..=255u8 {
        match Probability::new(v) {
            Ok(_) => panic!("construction succeeded for {}", v),
            Err(f) => assert!(matches!(f, Fault::InvalidProbability)),
        }
    }
}

#[test]
fn probability_boundaries() {
    assert_eq!(Probability::new(0).unwrap().value(), 0);
    assert_eq!(Probability::new(100).unwrap().value(), 100);
    assert!(Probability::new(101).is_err());
}
