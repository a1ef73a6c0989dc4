use bfc::ir::Compiler;
use bfc::lexer::Tokenizer;
use bfc::machine::{run, wrap_add};

fn compile_and_run(src: &str, input: Vec<i32>, fuel: usize) -> Option<(Vec<u8>, i32)> {
    let mut t = Tokenizer::new(src.chars().collect());
    t.lex().expect("source must lex");
    let c = Compiler::compile(&t.tokens).expect("generation must succeed");
    run(&c.insts, input, fuel)
}

#[test]
fn wrap_add_wraps_at_eight_bits() {
    assert_eq!(wrap_add(255, 1), 0);
    assert_eq!(wrap_add(0, 255), 255);
    assert_eq!(wrap_add(200, 100), 44);
    assert_eq!(wrap_add(10, 1), 11);
}

#[test]
fn incrementing_a_cell_at_255_yields_0() {
    let src = format!("{}.", "+".repeat(256));
    let (out, status) = compile_and_run(&src, vec![], 10_000).expect("run must finish");
    assert_eq!(out, vec![0]);
    assert_eq!(status, 0);
}

#[test]
fn decrementing_a_cell_at_0_yields_255() {
    let (out, _) = compile_and_run("-.", vec![], 1_000).expect("run must finish");
    assert_eq!(out, vec![255]);
}

#[test]
fn increments_then_as_many_decrements_restore_the_cell() {
    // 300 of each wraps the cell past 255 and back.
    let src = format!("{}{}.", "+".repeat(300), "-".repeat(300));
    let (out, status) = compile_and_run(&src, vec![], 10_000).expect("run must finish");
    assert_eq!(out, vec![0]);
    assert_eq!(status, 0);
}

#[test]
fn multiplication_pattern_writes_the_digit_two() {
    // Cell 1 counts to 5; each pass adds 10 to cell 0: 5 * 10 = 50, ASCII '2'.
    let (out, status) =
        compile_and_run(">+++++[<++++++++++>-]<.", vec![], 100_000).expect("run must finish");
    assert_eq!(out, vec![50]);
    assert_eq!(out, vec![b'2']);
    assert_eq!(status, 0);
}

#[test]
fn empty_routine_writes_nothing_and_returns_zero() {
    let (out, status) = compile_and_run("", vec![], 1_000).expect("run must finish");
    assert_eq!(out, vec![]);
    assert_eq!(status, 0);
}

#[test]
fn read_stores_the_low_eight_bits_of_the_input() {
    let (out, _) = compile_and_run(",+.", vec![65], 1_000).expect("run must finish");
    assert_eq!(out, vec![66]);
    let (out, _) = compile_and_run(",.", vec![256 + 7], 1_000).expect("run must finish");
    assert_eq!(out, vec![7]);
}

#[test]
fn exhausted_input_reads_as_minus_one() {
    // -1 truncates to byte 255.
    let (out, _) = compile_and_run(",.", vec![], 1_000).expect("run must finish");
    assert_eq!(out, vec![255]);
}

#[test]
fn a_loop_over_a_zero_cell_runs_no_body() {
    let (out, status) = compile_and_run("[.]", vec![], 1_000).expect("run must finish");
    assert_eq!(out, vec![]);
    assert_eq!(status, 0);
}

#[test]
fn moving_left_of_the_tape_gets_stuck() {
    assert_eq!(compile_and_run("<", vec![], 1_000), None);
}

#[test]
fn letters_come_out_in_order() {
    // Cell 0 counts 8 passes; each adds 9 to cell 1: 72 is 'H', 73 is 'I'.
    let (out, status) =
        compile_and_run("++++++++[>+++++++++<-]>.+.", vec![], 100_000).expect("run must finish");
    assert_eq!(out, b"HI".to_vec());
    assert_eq!(status, 0);
}

#[test]
fn an_endless_loop_exhausts_the_fuel() {
    assert_eq!(compile_and_run("+[]", vec![], 10_000), None);
}
