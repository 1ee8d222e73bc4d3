use chronos_collector::propagation_priority::{
    claim_once, reads_as_off, reset_for_request, should_claim, Claim,
};

#[test]
fn recognises_every_spelling_of_off() {
    for value in ["", "0", "off", "no", "false", "FALSE", " Off "] {
        assert!(reads_as_off(value), "{value:?} should read as off");
    }
}

#[test]
fn anything_else_is_on() {
    for value in ["1", "true", "On", "yes", "enabled-somehow"] {
        assert!(!reads_as_off(value), "{value:?} should read as on");
    }
}

#[test]
fn claims_when_the_other_tracer_is_loaded_and_propagating() {
    assert!(should_claim(true, Some("true")));
    assert!(should_claim(true, Some("1")));
}

#[test]
fn does_not_claim_when_opted_out() {
    assert!(!should_claim(false, Some("true")));
}

#[test]
fn does_not_claim_when_the_other_tracer_is_absent_or_already_quiet() {
    assert!(!should_claim(true, None));
    assert!(!should_claim(true, Some("false")));
    assert!(!should_claim(true, Some("0")));
}

#[test]
fn a_request_claims_at_most_once() {
    let mut claim = Claim::new();
    let write = Some(("datadog.distributed_tracing", "0"));
    assert_eq!(claim_once(&mut claim, true, Some("1")), write);
    assert_eq!(claim_once(&mut claim, true, Some("1")), None);
    reset_for_request(&mut claim);
    assert_eq!(claim_once(&mut claim, false, Some("1")), None);
    assert_eq!(claim_once(&mut claim, true, Some("1")), None);
    reset_for_request(&mut claim);
    assert_eq!(claim_once(&mut claim, true, Some("1")), write);
}
