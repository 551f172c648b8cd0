use pspspsps::{CatError, CatInstruction, CatInterpreter};

#[test]
fn machine_basic_move_program() {
    let mut machine = CatInterpreter::new(
        4,
        vec![
            CatInstruction::MoveRight,
            CatInstruction::MoveLeft,
            CatInstruction::MoveRight,
        ],
    );

    while !machine.is_done() {
        if let Err(e) = machine.step(None) {
            panic!("{:?}", e);
        }
    }

    assert_eq!(machine.pointer, 1);
}

#[test]
fn machine_basic_add_program() {
    let mut machine = CatInterpreter::new(
        4,
        vec![
            CatInstruction::Increment, // [0] = 1
            CatInstruction::MoveRight,
            CatInstruction::Increment,
            CatInstruction::Increment, // [1] = 2
            CatInstruction::MoveLeft,
            CatInstruction::Decrement, // [0] = 0
            CatInstruction::MoveRight,
            CatInstruction::Decrement,
            CatInstruction::Increment, // [1] = 2
        ],
    );

    machine.step(None).unwrap();
    assert_eq!(machine.tape[0], 1);
    machine.step(None).unwrap();

    machine.step(None).unwrap();
    assert_eq!(machine.tape[1], 1);
    machine.step(None).unwrap();
    assert_eq!(machine.tape[1], 2);
    machine.step(None).unwrap();

    machine.step(None).unwrap();
    assert_eq!(machine.tape[0], 0);
    machine.step(None).unwrap();

    machine.step(None).unwrap();
    assert_eq!(machine.tape[1], 1);
    machine.step(None).unwrap();
    assert_eq!(machine.tape[1], 2);

    assert_eq!(machine.pointer, 1);
}

#[test]
fn machine_basic_output() {
    let mut machine = CatInterpreter::new(4, vec![CatInstruction::Increment; 0x42]);
    let last = machine.instructions.len() - 1;
    machine.instructions[last] = CatInstruction::Output;

    while !machine.is_done() {
        if let Err(e) = machine.step(None) {
            panic!("{:?}", e);
        }
    }
}

#[test]
fn move_right_walks_full_circle() {
    let tape_len = 5;
    let mut machine = CatInterpreter::new(tape_len, vec![CatInstruction::MoveRight; 5]);
    let start = machine.pointer;

    for steps_taken in 1..=tape_len {
        machine.step(None).unwrap();
        if steps_taken < tape_len {
            assert_ne!(machine.pointer, start);
        }
    }
    assert_eq!(machine.pointer, start);
}

#[test]
fn move_left_from_zero_wraps_to_last_cell() {
    let mut machine = CatInterpreter::new(7, vec![CatInstruction::MoveLeft]);
    assert_eq!(machine.pointer, 0);
    machine.step(None).unwrap();
    assert_eq!(machine.pointer, 6);
}

#[test]
fn incrementing_256_times_returns_the_cell() {
    let mut machine = CatInterpreter::new(1, vec![CatInstruction::Increment; 256]);
    machine.tape[0] = 7;

    while !machine.is_done() {
        machine.step(None).unwrap();
    }
    assert_eq!(machine.tape[0], 7);
}

#[test]
fn decrementing_from_zero_wraps_to_255() {
    let mut machine = CatInterpreter::new(3, vec![CatInstruction::Decrement]);
    assert_eq!(machine.tape[0], 0);
    machine.step(None).unwrap();
    assert_eq!(machine.tape[0], 255);
}

#[test]
fn countdown_program_runs_the_cell_dry() {
    let program = vec![
        CatInstruction::Increment,
        CatInstruction::JumpForward,
        CatInstruction::Decrement,
        CatInstruction::JumpBack,
    ];
    let mut machine = CatInterpreter::new(4, program.clone());
    machine.tape[0] = 5;

    while !machine.is_done() {
        machine.step(None).unwrap();
    }
    assert_eq!(machine.pc, 4);
    assert_eq!(machine.tape[0], 0);

    // Seeding with 255 makes the Increment wrap the cell to zero, so the
    // JumpForward itself skips past its matching JumpBack.
    let mut wrapped = CatInterpreter::new(4, program);
    wrapped.tape[0] = 255;
    wrapped.step(None).unwrap();
    wrapped.step(None).unwrap();
    assert!(wrapped.is_done());
    assert_eq!(wrapped.pc, 4);
    assert_eq!(wrapped.tape[0], 0);
}

#[test]
fn unmatched_jump_forward_fails_without_mutation() {
    let mut machine = CatInterpreter::new(3, vec![CatInstruction::JumpForward]);
    assert_eq!(machine.step(None), Err(CatError::UnmatchedJumpForward));
    assert_eq!(machine.pointer, 0);
    assert_eq!(machine.pc, 0);
    assert_eq!(machine.tape, vec![0, 0, 0]);
}

#[test]
fn unmatched_jump_back_fails_without_mutation() {
    let mut machine = CatInterpreter::new(3, vec![
        CatInstruction::Increment,
        CatInstruction::JumpBack,
    ]);
    machine.step(None).unwrap();
    assert_eq!(machine.step(None), Err(CatError::UnmatchedJumpBack));
    assert_eq!(machine.pointer, 0);
    assert_eq!(machine.pc, 1);
    assert_eq!(machine.tape, vec![1, 0, 0]);
}

#[test]
fn is_done_tracks_the_program_counter_and_done_steps_fail() {
    let mut empty = CatInterpreter::new(2, vec![]);
    assert!(empty.is_done());
    assert_eq!(empty.step(None), Err(CatError::ProgramDone));
    assert_eq!(empty.pc, 0);
    assert_eq!(empty.pointer, 0);

    let mut machine = CatInterpreter::new(2, vec![CatInstruction::Increment]);
    assert!(!machine.is_done());
    machine.step(None).unwrap();
    assert!(machine.is_done());
    assert_eq!(machine.step(None), Err(CatError::ProgramDone));
    assert_eq!(machine.tape[0], 1);
    assert_eq!(machine.pc, 1);
}

#[test]
fn output_hands_back_ascii_or_the_replacement_character() {
    let mut machine = CatInterpreter::new(2, vec![
        CatInstruction::Output,
        CatInstruction::Output,
    ]);
    machine.tape[0] = 0x41;
    assert_eq!(machine.step(None), Ok(Some('A')));
    machine.tape[0] = 200;
    assert_eq!(machine.step(None), Ok(Some('\u{FFFD}')));
}

#[test]
fn input_stores_the_offered_byte_or_fails_dry() {
    let mut machine = CatInterpreter::new(2, vec![CatInstruction::Input]);
    assert_eq!(machine.step(Some(66)), Ok(None));
    assert_eq!(machine.tape[0], 66);
    assert!(machine.is_done());

    let mut starved = CatInterpreter::new(2, vec![CatInstruction::Input]);
    assert_eq!(starved.step(None), Err(CatError::InputExhausted));
    assert_eq!(starved.tape[0], 0);
    assert_eq!(starved.pc, 0);
}

#[test]
fn jumps_on_the_other_cell_value_fall_through() {
    // JumpForward on a nonzero cell and JumpBack on a zero cell are no-ops.
    let mut machine = CatInterpreter::new(2, vec![
        CatInstruction::Increment,
        CatInstruction::JumpForward,
        CatInstruction::Decrement,
        CatInstruction::JumpBack,
    ]);
    machine.step(None).unwrap();
    machine.step(None).unwrap();
    assert_eq!(machine.pc, 2);
    machine.step(None).unwrap();
    machine.step(None).unwrap();
    assert_eq!(machine.pc, 4);
    assert!(machine.is_done());
}

#[test]
fn loaded_source_runs_end_to_end() {
    // Two increments, junk between them, then an output of the cell.
    let source = "pspsp some commentary pspsp then pspspspsp";
    let mut machine = CatInterpreter::new(8, CatInstruction::pspspspsps_to_vec(source));
    machine.step(None).unwrap();
    machine.step(None).unwrap();
    assert_eq!(machine.step(None), Ok(Some('\u{2}')));
    assert!(machine.is_done());
}
