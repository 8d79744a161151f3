use register_machine::program::instruction::Instruction;
use register_machine::program::Program;

fn run_text(text: &str, fuel: u64) -> [i32; 4] {
    Program::from_str(text)
        .unwrap()
        .run(fuel)
        .expect("program should halt within the given fuel")
}

#[test]
fn single_increment_sets_exactly_that_register() {
    for (name, index) in [("a", 0), ("b", 1), ("c", 2), ("d", 3)] {
        let registers = run_text(&format!("inc {}", name), 10);
        for slot in 0..4 {
            let expected = if slot == index { 1 } else { 0 };
            assert_eq!(registers[slot], expected);
        }
    }
}

#[test]
fn copy_then_increment() {
    assert_eq!(run_text("cpy 5 a\ninc a", 10), [6, 0, 0, 0]);
}

#[test]
fn copy_reads_registers_and_literals() {
    assert_eq!(run_text("cpy 7 c\ncpy c d\ncpy -1 a", 10), [-1, 0, 7, 7]);
}

#[test]
fn repeated_increments_wrap_across_the_boundary() {
    let registers = run_text("cpy 2147483646 a\ninc a\ninc a\ninc a", 10);
    assert_eq!(registers[0], -2147483647);
}

#[test]
fn increment_wraps_at_max() {
    assert_eq!(run_text("cpy 2147483647 a\ninc a", 10)[0], i32::MIN);
}

#[test]
fn decrement_wraps_at_min() {
    assert_eq!(run_text("cpy -2147483648 b\ndec b", 10)[1], i32::MAX);
}

#[test]
fn decrement_below_zero_goes_negative() {
    assert_eq!(run_text("dec c", 10), [0, 0, -1, 0]);
}

#[test]
fn jump_offset_trace() {
    // The pinned offset trace: the taken jump at address 1 with offset 2
    // skips the increments at addresses 2 and 3, and only the final
    // increment runs.
    assert_eq!(run_text("cpy 2 a\njnz a 2\ninc a\ninc a\ninc a", 100), [3, 0, 0, 0]);
}

#[test]
fn untaken_jump_falls_through() {
    assert_eq!(run_text("jnz 0 2\ninc a\ninc b", 10), [1, 1, 0, 0]);
}

#[test]
fn jump_offset_may_come_from_a_register() {
    assert_eq!(run_text("cpy 1 d\njnz 1 d\ninc a\ninc b", 10), [0, 1, 0, 1]);
}

#[test]
fn backward_jump_repeats_a_loop_body() {
    assert_eq!(run_text("cpy 3 a\ndec a\njnz a -2\ninc b", 100), [0, 1, 0, 0]);
}

#[test]
fn jump_past_either_end_halts() {
    assert_eq!(run_text("inc a\njnz a -100", 10), [1, 0, 0, 0]);
    assert_eq!(run_text("inc a\njnz a 100", 10), [1, 0, 0, 0]);
}

#[test]
fn blank_text_runs_zero_instructions() {
    let program = Program::from_str("\n  \n\t\n").unwrap();
    assert_eq!(program.instructions.len(), 0);
    assert_eq!(program.run(0), Some([0, 0, 0, 0]));
}

#[test]
fn fuel_counts_executed_instructions() {
    let program = Program::from_str("inc a\ninc a").unwrap();
    assert_eq!(program.clone().run(0), None);
    assert_eq!(program.clone().run(1), None);
    assert_eq!(program.run(2), Some([2, 0, 0, 0]));
}

#[test]
fn nonterminating_program_exhausts_any_fuel() {
    let program = Program::from_str("inc a\njnz 1 -2").unwrap();
    assert_eq!(program.run(10_000), None);
}

#[test]
fn new_program_starts_with_zero_registers() {
    let instructions = Instruction::parse_str("inc d").unwrap();
    let program = Program::new(instructions);
    assert_eq!(program.registers, [0, 0, 0, 0]);
    assert!(program.is_well_formed());
    assert_eq!(program.run(5), Some([0, 0, 0, 1]));
}
