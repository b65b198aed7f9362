use power::design::{DesignError, Tail, TestKind};
use power::fields::Fields;
use power::numbers::Decimal;

fn fields(pairs: &[(&str, &str)]) -> Fields {
    let mut f = Fields::new();
    for (name, value) in pairs {
        f.insert(name, value);
    }
    f
}

fn dec(mantissa: i64, scale: i64) -> Decimal {
    Decimal { mantissa, scale }
}

#[test]
fn within_repeated_epsilon_below_bound_is_rejected() {
    let f = fields(&[("k", "2"), ("m", "4"), ("rho", "0.5"), ("epsilon", "0.1")]);
    let r = TestKind::from_str("withinRepeatedANOVA", &f);
    assert!(matches!(r, Err(DesignError::ConstraintViolation(_))));
}

#[test]
fn within_repeated_epsilon_above_bound_is_accepted() {
    let f = fields(&[("k", "2"), ("m", "4"), ("rho", "0.5"), ("epsilon", "0.4")]);
    let r = TestKind::from_str("withinRepeatedANOVA", &f);
    assert_eq!(
        r,
        Ok(TestKind::WithinRepeatedANOVA { k: 2, m: 4, rho: dec(5, 1), epsilon: dec(4, 1) })
    );
}

#[test]
fn epsilon_exactly_at_bound_is_accepted() {
    let f = fields(&[("k", "3"), ("m", "3"), ("rho", "0"), ("epsilon", "0.5")]);
    let r = TestKind::from_str("withinBetweenRepeatedANOVA", &f);
    assert_eq!(
        r,
        Ok(TestKind::WithinBetweenRepeatedANOVA { k: 3, m: 3, rho: dec(0, 0), epsilon: dec(5, 1) })
    );
}

#[test]
fn within_between_epsilon_just_below_bound_is_rejected() {
    let f = fields(&[("k", "3"), ("m", "3"), ("rho", "0"), ("epsilon", "0.49")]);
    let r = TestKind::from_str("withinBetweenRepeatedANOVA", &f);
    assert!(matches!(r, Err(DesignError::ConstraintViolation(_))));
}

#[test]
fn single_measurement_breaks_epsilon_bound() {
    let f = fields(&[("k", "2"), ("m", "1"), ("rho", "0.5"), ("epsilon", "1")]);
    let r = TestKind::from_str("withinRepeatedANOVA", &f);
    assert!(matches!(r, Err(DesignError::ConstraintViolation(_))));
}

#[test]
fn designs_without_fields() {
    let f = Fields::new();
    assert_eq!(TestKind::from_str("oneSampleTTest", &f), Ok(TestKind::OneSampleTTest));
    assert_eq!(
        TestKind::from_str("independentSamplesTTest", &f),
        Ok(TestKind::IndependentSamplesTTest)
    );
}

#[test]
fn designs_with_integer_fields() {
    let f = fields(&[("df", "5"), ("nPredictors", "3"), ("rho", "6"), ("q", "2"), ("k", "4"), ("p", "1")]);
    assert_eq!(
        TestKind::from_str("goodnessOfFitChisqTest", &f),
        Ok(TestKind::GoodnessOfFitChisqTest { df: 5 })
    );
    assert_eq!(
        TestKind::from_str("deviationFromZeroMultipleRegression", &f),
        Ok(TestKind::DeviationFromZeroMultipleRegression { n_predictors: 3 })
    );
    assert_eq!(
        TestKind::from_str("increaseMultipleRegression", &f),
        Ok(TestKind::IncreaseMultipleRegression { rho: 6, q: 2 })
    );
    assert_eq!(TestKind::from_str("ANCOVA", &f), Ok(TestKind::ANCOVA { k: 4, q: 2, p: 1 }));
    assert_eq!(TestKind::from_str("oneWayANOVA", &f), Ok(TestKind::OneWayANOVA { k: 4 }));
    assert_eq!(TestKind::from_str("twoWayANOVA", &f), Ok(TestKind::TwoWayANOVA { k: 4, q: 2 }));
}

#[test]
fn between_repeated_reads_a_decimal_correlation() {
    let f = fields(&[("k", "2"), ("m", "3"), ("rho", "-0.25")]);
    assert_eq!(
        TestKind::from_str("betweenRepeatedANOVA", &f),
        Ok(TestKind::BetweenRepeatedANOVA { k: 2, m: 3, rho: dec(-25, 2) })
    );
}

#[test]
fn missing_field_is_named() {
    let f = fields(&[("k", "4"), ("p", "1")]);
    assert_eq!(
        TestKind::from_str("ANCOVA", &f),
        Err(DesignError::MissingField("q".to_string()))
    );
}

#[test]
fn first_missing_field_in_order_is_named() {
    let f = fields(&[("p", "1")]);
    assert_eq!(
        TestKind::from_str("ANCOVA", &f),
        Err(DesignError::MissingField("k".to_string()))
    );
}

#[test]
fn malformed_integer_is_unparsable() {
    let f = fields(&[("k", "2.5")]);
    assert_eq!(
        TestKind::from_str("oneWayANOVA", &f),
        Err(DesignError::UnparsableNumber("k".to_string()))
    );
    let g = fields(&[("k", "abc")]);
    assert_eq!(
        TestKind::from_str("oneWayANOVA", &g),
        Err(DesignError::UnparsableNumber("k".to_string()))
    );
}

#[test]
fn malformed_decimal_is_unparsable() {
    let f = fields(&[("k", "2"), ("m", "3"), ("rho", "0.5.1")]);
    assert_eq!(
        TestKind::from_str("betweenRepeatedANOVA", &f),
        Err(DesignError::UnparsableNumber("rho".to_string()))
    );
}

#[test]
fn unparsable_field_before_missing_one() {
    let f = fields(&[("k", "x")]);
    assert_eq!(
        TestKind::from_str("twoWayANOVA", &f),
        Err(DesignError::UnparsableNumber("k".to_string()))
    );
}

#[test]
fn unknown_test_name_is_rejected() {
    let f = Fields::new();
    assert_eq!(
        TestKind::from_str("pairedTTest", &f),
        Err(DesignError::UnknownTestName("pairedTTest".to_string()))
    );
    assert_eq!(
        TestKind::from_str("", &f),
        Err(DesignError::UnknownTestName("".to_string()))
    );
}

#[test]
fn tail_codes() {
    assert_eq!(Tail::from_json(&fields(&[("tail", "1")])), Some(Tail::OneSided));
    assert_eq!(Tail::from_json(&fields(&[("tail", "2")])), Some(Tail::TwoSided));
    assert_eq!(Tail::from_json(&fields(&[("tail", "+2")])), Some(Tail::TwoSided));
    assert_eq!(Tail::from_json(&fields(&[("tail", "3")])), None);
    assert_eq!(Tail::from_json(&fields(&[("tail", "0")])), None);
    assert_eq!(Tail::from_json(&fields(&[("tail", "one")])), None);
    assert_eq!(Tail::from_json(&Fields::new()), None);
}

#[test]
fn later_field_value_replaces_earlier() {
    let f = fields(&[("tail", "1"), ("tail", "2")]);
    assert_eq!(Tail::from_json(&f), Some(Tail::TwoSided));
    assert_eq!(f.get("tail"), Some("2".to_string()));
    assert_eq!(f.get("k"), None);
}

#[test]
fn tail_from_code() {
    assert_eq!(Tail::from_code(1), Some(Tail::OneSided));
    assert_eq!(Tail::from_code(2), Some(Tail::TwoSided));
    assert_eq!(Tail::from_code(0), None);
    assert_eq!(Tail::from_code(-1), None);
    assert_eq!(Tail::from_code(3), None);
}

#[test]
fn tail_sides() {
    assert_eq!(Tail::OneSided.sides(), 1);
    assert_eq!(Tail::TwoSided.sides(), 2);
}

#[test]
fn epsilon_in_exponent_notation() {
    let f = fields(&[("k", "2"), ("m", "4"), ("rho", "5e-1"), ("epsilon", "4E-1")]);
    assert_eq!(
        TestKind::from_str("withinRepeatedANOVA", &f),
        Ok(TestKind::WithinRepeatedANOVA { k: 2, m: 4, rho: dec(5, 1), epsilon: dec(4, 1) })
    );
}

#[test]
fn non_positive_measurements_flip_the_bound() {
    let ok = fields(&[("k", "2"), ("m", "0"), ("rho", "0.5"), ("epsilon", "0.5")]);
    assert_eq!(
        TestKind::from_str("withinRepeatedANOVA", &ok),
        Ok(TestKind::WithinRepeatedANOVA { k: 2, m: 0, rho: dec(5, 1), epsilon: dec(5, 1) })
    );
    let at_bound = fields(&[("k", "2"), ("m", "0"), ("rho", "0.5"), ("epsilon", "-1")]);
    assert!(TestKind::from_str("withinBetweenRepeatedANOVA", &at_bound).is_ok());
    let below = fields(&[("k", "2"), ("m", "0"), ("rho", "0.5"), ("epsilon", "-2")]);
    assert!(matches!(
        TestKind::from_str("withinBetweenRepeatedANOVA", &below),
        Err(DesignError::ConstraintViolation(_))
    ));
}

#[test]
fn constraint_violation_explains_itself() {
    let f = fields(&[("k", "2"), ("m", "4"), ("rho", "0.5"), ("epsilon", "0.1")]);
    match TestKind::from_str("withinRepeatedANOVA", &f) {
        Err(DesignError::ConstraintViolation(msg)) => assert!(!msg.is_empty()),
        other => panic!("expected a constraint violation, got {:?}", other),
    }
}
