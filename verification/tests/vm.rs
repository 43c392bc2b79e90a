use brainfuck::BFI;
use brainfuck::BfToken;
use brainfuck::Machine;

const BUDGET: usize = 1_000_000;

#[test]
fn three_increments_output_three() {
    let program = BFI::build(String::from("+++.")).unwrap();
    let mut machine = Machine::new();
    let out = BFI::run(&program, &mut machine, &Vec::new(), BUDGET).unwrap();
    assert_eq!(out, vec![3u8]);
}

#[test]
fn copy_loop_moves_value() {
    let program = BFI::build(String::from("++[>+<-]")).unwrap();
    let mut machine = Machine::new();
    let out = BFI::run(&program, &mut machine, &Vec::new(), BUDGET).unwrap();
    assert!(out.is_empty());
    assert_eq!(machine.memory[0], 0);
    assert_eq!(machine.memory[1], 2);
}

#[test]
fn empty_loop_builds_and_terminates_immediately() {
    let program = BFI::build(String::from("[]")).unwrap();
    assert_eq!(program, vec![BfToken::JumpStart(2), BfToken::JumpEnd(1)]);
    let mut machine = Machine::new();
    // Cell 0 starts at zero, so the body never runs: three steps suffice.
    let out = BFI::run(&program, &mut machine, &Vec::new(), 3).unwrap();
    assert!(out.is_empty());
    assert_eq!(machine.instruction_ptr, 2);
}

#[test]
fn lone_close_fails_to_build() {
    let err = BFI::build(String::from("]")).unwrap_err();
    assert_eq!(err.message().as_str(), "Failed to find jump start for 0");
}

#[test]
fn lone_open_fails_to_build() {
    let err = BFI::build(String::from("[")).unwrap_err();
    assert_eq!(
        err.message().as_str(),
        "Failed to find end of jump at instruction 0"
    );
}

#[test]
fn extra_close_fails_at_its_position() {
    let err = BFI::build(String::from("[]]")).unwrap_err();
    assert_eq!(err.message().as_str(), "Failed to find jump start for 2");
}

#[test]
fn extra_open_fails_at_its_position() {
    let err = BFI::build(String::from("[[]")).unwrap_err();
    assert_eq!(
        err.message().as_str(),
        "Failed to find end of jump at instruction 0"
    );
}

#[test]
fn positions_count_commands_only() {
    // The filler letter is dropped before positions are assigned.
    let err = BFI::build(String::from("a]")).unwrap_err();
    assert_eq!(err.message().as_str(), "Failed to find jump start for 0");
}

#[test]
fn multi_digit_position_in_message() {
    let err = BFI::build(String::from("++++++++++]")).unwrap_err();
    assert_eq!(err.message().as_str(), "Failed to find jump start for 10");
}

#[test]
fn filler_characters_are_no_ops() {
    let plain = BFI::build(String::from("++[>+<-].")).unwrap();
    let noisy = BFI::build(String::from("++ two! [ right> plus+ left< minus- ] dot.")).unwrap();
    assert_eq!(plain, noisy);
    let mut machine = Machine::new();
    let out = BFI::run(&noisy, &mut machine, &Vec::new(), BUDGET).unwrap();
    assert_eq!(out, vec![0u8]);
}

#[test]
fn building_twice_is_identical() {
    let first = BFI::build(String::from("++[>+<-].")).unwrap();
    let second = BFI::build(String::from("++[>+<-].")).unwrap();
    assert_eq!(first, second);
}

#[test]
fn nested_brackets_resolve_past_their_match() {
    let program = BFI::build(String::from("[[]]")).unwrap();
    assert_eq!(
        program,
        vec![
            BfToken::JumpStart(4),
            BfToken::JumpStart(3),
            BfToken::JumpEnd(2),
            BfToken::JumpEnd(1),
        ]
    );
}

#[test]
fn increments_wrap_modulo_256_on_output() {
    let mut source = String::new();
    for _ in 0..300 {
        source.push('+');
    }
    source.push('.');
    let program = BFI::build(source).unwrap();
    let mut machine = Machine::new();
    let out = BFI::run(&program, &mut machine, &Vec::new(), BUDGET).unwrap();
    assert_eq!(out, vec![44u8]); // 300 mod 256
}

#[test]
fn decrement_from_zero_outputs_255() {
    let program = BFI::build(String::from("-.")).unwrap();
    let mut machine = Machine::new();
    let out = BFI::run(&program, &mut machine, &Vec::new(), BUDGET).unwrap();
    assert_eq!(machine.memory[0], -1);
    assert_eq!(out, vec![255u8]);
}

#[test]
fn input_value_is_stored_and_emitted() {
    let program = BFI::build(String::from(",.")).unwrap();
    let mut machine = Machine::new();
    let out = BFI::run(&program, &mut machine, &vec![65], BUDGET).unwrap();
    assert_eq!(machine.memory[0], 65);
    assert_eq!(out, vec![65u8]);
}

#[test]
fn negative_input_emits_its_low_byte() {
    let program = BFI::build(String::from(",.")).unwrap();
    let mut machine = Machine::new();
    let out = BFI::run(&program, &mut machine, &vec![-1], BUDGET).unwrap();
    assert_eq!(out, vec![255u8]);
}

#[test]
fn missing_input_is_a_run_error() {
    let program = BFI::build(String::from(",")).unwrap();
    let mut machine = Machine::new();
    let err = BFI::run(&program, &mut machine, &Vec::new(), BUDGET).unwrap_err();
    assert_eq!(
        err.message().as_str(),
        "User input failure at instruction 0"
    );
}

#[test]
fn pointer_underflow_is_a_run_error() {
    let program = BFI::build(String::from("<")).unwrap();
    let mut machine = Machine::new();
    let err = BFI::run(&program, &mut machine, &Vec::new(), BUDGET).unwrap_err();
    assert_eq!(
        err.message().as_str(),
        "Data pointer underflow at instruction 0"
    );
    assert_eq!(machine.data_ptr, 0);
    assert_eq!(machine.instruction_ptr, 0);
}

#[test]
fn pointer_overflow_is_a_run_error() {
    let mut source = String::new();
    for _ in 0..30000 {
        source.push('>');
    }
    let program = BFI::build(source).unwrap();
    let mut machine = Machine::new();
    let err = BFI::run(&program, &mut machine, &Vec::new(), BUDGET).unwrap_err();
    assert_eq!(
        err.message().as_str(),
        "Data pointer overflow at instruction 29999"
    );
    assert_eq!(machine.data_ptr, 29999);
}

#[test]
fn exhausted_budget_is_a_run_error() {
    let program = BFI::build(String::from("+[]")).unwrap();
    let mut machine = Machine::new();
    let err = BFI::run(&program, &mut machine, &Vec::new(), 100).unwrap_err();
    assert_eq!(err.message().as_str(), "Step limit reached");
}

#[test]
fn fresh_machine_is_all_zero() {
    let machine = Machine::new();
    assert_eq!(machine.memory.len(), 30000);
    assert_eq!(machine.data_ptr, 0);
    assert_eq!(machine.instruction_ptr, 0);
    assert!(machine.memory.iter().all(|&c| c == 0));
}

#[test]
fn errors_keep_their_message() {
    let build_err = brainfuck::BuildError::new(String::from("out of luck"));
    assert_eq!(build_err.message().as_str(), "out of luck");
    let run_err = brainfuck::RunError::new(String::from("out of tape"));
    assert_eq!(run_err.message().as_str(), "out of tape");
}

#[test]
fn locate_jump_end_finds_the_partner() {
    let code: Vec<char> = "[[]]".chars().collect();
    assert_eq!(BFI::locate_jump_end(0, &code).unwrap(), 3);
    assert_eq!(BFI::locate_jump_end(1, &code).unwrap(), 2);
}

#[test]
fn empty_source_builds_to_empty_program() {
    let program = BFI::build(String::new()).unwrap();
    assert!(program.is_empty());
    let mut machine = Machine::new();
    let out = BFI::run(&program, &mut machine, &Vec::new(), 0).unwrap();
    assert!(out.is_empty());
}
