use minilang::control::{call_yields_body_value, list_stops, loop_stops, Nested, ReasonsForStopping};

fn all_reasons() -> Vec<ReasonsForStopping> {
    vec![
        ReasonsForStopping::Error(String::from("boom")),
        ReasonsForStopping::BreakStatement,
        ReasonsForStopping::ContinueStatement,
        ReasonsForStopping::ReturnStatement,
        ReasonsForStopping::Finished,
    ]
}

#[test]
fn loop_goes_on_after_finished_and_continue() {
    assert!(!loop_stops(&ReasonsForStopping::Finished));
    assert!(!loop_stops(&ReasonsForStopping::ContinueStatement));
    assert!(loop_stops(&ReasonsForStopping::BreakStatement));
    assert!(loop_stops(&ReasonsForStopping::ReturnStatement));
    assert!(loop_stops(&ReasonsForStopping::Error(String::from("e"))));
}

#[test]
fn block_and_if_hand_on_everything_but_finished() {
    for nested in [Nested::Block, Nested::If] {
        assert!(!list_stops(nested, &ReasonsForStopping::Finished));
        assert!(list_stops(nested, &ReasonsForStopping::BreakStatement));
        assert!(list_stops(nested, &ReasonsForStopping::ContinueStatement));
        assert!(list_stops(nested, &ReasonsForStopping::ReturnStatement));
        assert!(list_stops(nested, &ReasonsForStopping::Error(String::new())));
    }
}

#[test]
fn loop_hands_on_only_return() {
    assert!(list_stops(Nested::Loop, &ReasonsForStopping::ReturnStatement));
    assert!(!list_stops(Nested::Loop, &ReasonsForStopping::BreakStatement));
    assert!(!list_stops(Nested::Loop, &ReasonsForStopping::ContinueStatement));
    assert!(!list_stops(Nested::Loop, &ReasonsForStopping::Finished));
    assert!(!list_stops(Nested::Loop, &ReasonsForStopping::Error(String::from("x"))));
}

#[test]
fn call_yields_value_only_on_return() {
    assert!(call_yields_body_value(&ReasonsForStopping::ReturnStatement));
    assert!(!call_yields_body_value(&ReasonsForStopping::Finished));
    assert!(!call_yields_body_value(&ReasonsForStopping::BreakStatement));
    assert!(!call_yields_body_value(&ReasonsForStopping::ContinueStatement));
    assert!(!call_yields_body_value(&ReasonsForStopping::Error(String::from("x"))));
}

#[test]
fn break_and_continue_stay_inside_the_loop() {
    for reason in all_reasons() {
        if loop_stops(&reason) && list_stops(Nested::Loop, &reason) {
            assert!(matches!(reason, ReasonsForStopping::ReturnStatement));
        }
    }
}

#[test]
fn return_passes_through_everything() {
    let r = ReasonsForStopping::ReturnStatement;
    assert!(loop_stops(&r));
    for nested in [Nested::Block, Nested::If, Nested::Loop] {
        assert!(list_stops(nested, &r));
    }
}
