use turing::builder::BuildError;
use turing::builder::ProgramBuilder;
use turing::builder::State;
use turing::builder::Transition;
use turing::HeadAction;
use turing::ACCEPT_STATE;
use turing::BLANK;
use turing::REJECT_STATE;

#[test]
fn resolution_maps_reserved_and_declared_names() {
    // Rules reference "Accept", "Reject" and both declared names; the
    // built program must use 0, 1, and 2 + declaration position.
    let program = ProgramBuilder::with_states(vec![
        State::with_transitions(
            "State 0",
            vec![
                Transition::new(0, 0, HeadAction::Stay, "Accept"),
                Transition::new(1, 1, HeadAction::Stay, "Reject"),
                Transition::new(2, 2, HeadAction::Stay, "State 1"),
                Transition::new(3, 3, HeadAction::Stay, "State 0"),
            ],
        ),
        State::with_transitions(
            "State 1",
            vec![Transition::new(4, 4, HeadAction::Stay, "State 0")],
        ),
    ])
    .build()
    .unwrap();
    assert_eq!(program.states.len(), 4);
    assert_eq!(program.current_state, 2);
    assert!(program.states[ACCEPT_STATE].transitions.is_empty());
    assert!(program.states[REJECT_STATE].transitions.is_empty());
    let first = &program.states[2].transitions;
    assert_eq!(first[0].next, 0);
    assert_eq!(first[1].next, 1);
    assert_eq!(first[2].next, 3);
    assert_eq!(first[3].next, 2);
    assert_eq!(program.states[3].transitions[0].next, 2);
}

#[test]
fn resolution_keeps_rule_payloads() {
    let program = ProgramBuilder::with_states(vec![State::with_transitions(
        "State 0",
        vec![Transition::new(BLANK, 7, HeadAction::Left, "Accept")],
    )])
    .build()
    .unwrap();
    let rule = &program.states[2].transitions[0];
    assert_eq!(rule.cond, BLANK);
    assert_eq!(rule.write, 7);
    assert!(matches!(rule.head, HeadAction::Left));
    assert_eq!(rule.next, ACCEPT_STATE);
}

#[test]
fn unknown_reference_fails_with_the_offending_name() {
    let result = ProgramBuilder::with_states(vec![State::with_transitions(
        "State 0",
        vec![Transition::new(0, 0, HeadAction::Stay, "State 99")],
    )])
    .build();
    match result {
        Ok(_) => panic!("an undeclared target name must not build"),
        Err(e) => {
            let BuildError::UnknownStateReference(name) = e;
            assert_eq!(name, "State 99");
        }
    }
}

#[test]
fn error_name_accessor_returns_the_offending_name() {
    let result = ProgramBuilder::with_states(vec![State::with_transitions(
        "Loop",
        vec![Transition::new(0, 0, HeadAction::Stay, "Elsewhere")],
    )])
    .build();
    let err = result.err().expect("an undeclared target name must not build");
    assert_eq!(err.name().as_str(), "Elsewhere");
}

#[test]
fn duplicate_declaration_resolves_to_first_position() {
    // Two states share a name: references resolve to the first
    // declaration, in declaration order.
    let program = ProgramBuilder::with_states(vec![
        State::with_transitions(
            "Twin",
            vec![Transition::new(0, 0, HeadAction::Stay, "Twin")],
        ),
        State::with_transitions(
            "Twin",
            vec![Transition::new(1, 1, HeadAction::Stay, "Twin")],
        ),
    ])
    .build()
    .unwrap();
    assert_eq!(program.states[2].transitions[0].next, 2);
    assert_eq!(program.states[3].transitions[0].next, 2);
}

#[test]
fn authored_rule_keeps_its_fields() {
    let t = Transition::new(3, 4, HeadAction::Right, "Target");
    assert_eq!(t.cond, 3);
    assert_eq!(t.write, 4);
    assert!(matches!(t.head, HeadAction::Right));
    assert_eq!(t.next, "Target");
}

#[test]
fn authored_state_keeps_name_and_rules() {
    let s = State::with_transitions(
        "Named",
        vec![Transition::new(0, 1, HeadAction::Stay, "Named")],
    );
    assert_eq!(s.name, "Named");
    assert_eq!(s.transitions.len(), 1);
}
