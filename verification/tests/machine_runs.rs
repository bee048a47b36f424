use turing::builder::ProgramBuilder;
use turing::builder::State;
use turing::builder::Transition;
use turing::machine::Machine;
use turing::HeadAction;
use turing::ACCEPT_STATE;
use turing::BLANK;
use turing::BLOCK_SIZE;
use turing::REJECT_STATE;

/// The binary successor machine: scan right to the end of the digits,
/// then increment with carry from the right.
fn successor_program() -> turing::program::Program {
    ProgramBuilder::with_states(vec![
        State::with_transitions(
            "State 0",
            vec![
                Transition::new(BLANK, BLANK, HeadAction::Left, "State 1"),
                Transition::new(0, 0, HeadAction::Right, "State 0"),
                Transition::new(1, 1, HeadAction::Right, "State 0"),
            ],
        ),
        State::with_transitions(
            "State 1",
            vec![
                Transition::new(BLANK, 1, HeadAction::Right, "Accept"),
                Transition::new(0, 1, HeadAction::Right, "Accept"),
                Transition::new(1, 0, HeadAction::Left, "State 1"),
            ],
        ),
    ])
    .build()
    .unwrap()
}

#[test]
fn binary_successor_increments() {
    let program = successor_program();
    let mut machine = Machine::with_program(program, vec![0, 1, 1, 0]);
    let accepted = machine.run_to_end();
    assert!(accepted);
    // The input region starts right after the leading gap block.
    assert_eq!(machine.tape.cell_at(BLOCK_SIZE), 0);
    assert_eq!(machine.tape.cell_at(BLOCK_SIZE + 1), 1);
    assert_eq!(machine.tape.cell_at(BLOCK_SIZE + 2), 1);
    assert_eq!(machine.tape.cell_at(BLOCK_SIZE + 3), 1);
    assert_eq!(machine.tape.cell_at(BLOCK_SIZE + 4), BLANK);
    assert_eq!(machine.program.current_state, ACCEPT_STATE);
}

#[test]
fn binary_successor_carries_into_fresh_cell() {
    // 11 + 1 = 100: the carry ripples left and a digit is written into
    // a cell that was blank before the run.
    let program = successor_program();
    let mut machine = Machine::with_program(program, vec![1, 1]);
    let accepted = machine.run_to_end();
    assert!(accepted);
    assert_eq!(machine.tape.cell_at(BLOCK_SIZE - 1), 1);
    assert_eq!(machine.tape.cell_at(BLOCK_SIZE), 0);
    assert_eq!(machine.tape.cell_at(BLOCK_SIZE + 1), 0);
    assert_eq!(machine.tape.cell_at(BLOCK_SIZE + 2), BLANK);
}

#[test]
fn unmatched_symbol_rejects_on_first_step() {
    // The only rule matches Blank; the cell under the head holds 5, so
    // the very first step takes the default transition to Reject and
    // writes nothing.
    let program = ProgramBuilder::with_states(vec![State::with_transitions(
        "State 0",
        vec![Transition::new(BLANK, 1, HeadAction::Right, "Accept")],
    )])
    .build()
    .unwrap();
    let mut machine = Machine::with_program(program, vec![5]);
    machine.step();
    assert_eq!(machine.program.current_state, REJECT_STATE);
    assert_eq!(machine.tape.cell_at(BLOCK_SIZE), 5);
    assert_eq!(machine.tape.head_position(), BLOCK_SIZE);
}

#[test]
fn unmatched_symbol_run_rejects() {
    let program = ProgramBuilder::with_states(vec![State::with_transitions(
        "State 0",
        vec![Transition::new(BLANK, 1, HeadAction::Right, "Accept")],
    )])
    .build()
    .unwrap();
    let mut machine = Machine::with_program(program, vec![5]);
    let accepted = machine.run_to_end();
    assert!(!accepted);
    assert_eq!(machine.program.current_state, REJECT_STATE);
    assert_eq!(machine.tape.cell_at(BLOCK_SIZE), 5);
}

#[test]
fn first_match_wins_over_later_duplicate() {
    // Two rules share the read symbol 1: only the first one's write,
    // move and target may take effect.
    let program = ProgramBuilder::with_states(vec![State::with_transitions(
        "State 0",
        vec![
            Transition::new(1, 9, HeadAction::Stay, "Accept"),
            Transition::new(1, 3, HeadAction::Right, "Reject"),
        ],
    )])
    .build()
    .unwrap();
    let mut machine = Machine::with_program(program, vec![1]);
    let accepted = machine.run_to_end();
    assert!(accepted);
    assert_eq!(machine.tape.cell_at(BLOCK_SIZE), 9);
    assert_eq!(machine.tape.head_position(), BLOCK_SIZE);
}

#[test]
fn accept_state_is_terminal_success() {
    // A single rule stepping straight to Accept.
    let program = ProgramBuilder::with_states(vec![State::with_transitions(
        "State 0",
        vec![Transition::new(7, 8, HeadAction::Right, "Accept")],
    )])
    .build()
    .unwrap();
    let mut machine = Machine::with_program(program, vec![7]);
    let accepted = machine.run_to_end();
    assert!(accepted);
    assert_eq!(machine.program.current_state, ACCEPT_STATE);
    assert_eq!(machine.tape.cell_at(BLOCK_SIZE), 8);
    assert_eq!(machine.tape.head_position(), BLOCK_SIZE + 1);
}

#[test]
fn binary_not_flips_every_digit() {
    // Rightward scan flipping 0 and 1 until the first blank.
    let program = ProgramBuilder::with_states(vec![State::with_transitions(
        "State 0",
        vec![
            Transition::new(BLANK, BLANK, HeadAction::Right, "Accept"),
            Transition::new(0, 1, HeadAction::Right, "State 0"),
            Transition::new(1, 0, HeadAction::Right, "State 0"),
        ],
    )])
    .build()
    .unwrap();
    let mut machine = Machine::with_program(program, vec![1, 0, 0, 1]);
    let accepted = machine.run_to_end();
    assert!(accepted);
    assert_eq!(machine.tape.cell_at(BLOCK_SIZE), 0);
    assert_eq!(machine.tape.cell_at(BLOCK_SIZE + 1), 1);
    assert_eq!(machine.tape.cell_at(BLOCK_SIZE + 2), 1);
    assert_eq!(machine.tape.cell_at(BLOCK_SIZE + 3), 0);
}
