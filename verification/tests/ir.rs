use bfc::ir::{Compiler, GenError, Inst};
use bfc::lexer::{Token, TokenType, Tokenizer};

fn compile_source(src: &str) -> Result<Compiler, GenError> {
    let mut t = Tokenizer::new(src.chars().collect());
    t.lex().expect("source must lex");
    Compiler::compile(&t.tokens)
}

#[test]
fn empty_source_generates_setup_and_teardown_only() {
    let c = compile_source("").expect("generation must succeed");
    assert_eq!(c.insts, vec![Inst::Alloc, Inst::Free, Inst::Ret(0)]);
    assert!(c.while_blocks.is_empty());
}

#[test]
fn each_token_lowers_to_its_instruction() {
    let c = compile_source("+-><.,").expect("generation must succeed");
    assert_eq!(
        c.insts,
        vec![
            Inst::Alloc,
            Inst::AddByte(1),
            Inst::AddByte(255),
            Inst::AddPtr(1),
            Inst::AddPtr(-1),
            Inst::Put,
            Inst::Get,
            Inst::Free,
            Inst::Ret(0),
        ]
    );
}

#[test]
fn a_loop_lowers_to_three_fresh_labels() {
    let c = compile_source("[]").expect("generation must succeed");
    assert_eq!(
        c.insts,
        vec![
            Inst::Alloc,
            Inst::Jump(0),
            Inst::Label(0),
            Inst::Branch(1, 2),
            Inst::Label(1),
            Inst::Jump(0),
            Inst::Label(2),
            Inst::Free,
            Inst::Ret(0),
        ]
    );
    assert!(c.while_blocks.is_empty());
}

#[test]
fn nested_loops_pop_the_inner_frame_first() {
    let c = compile_source("[[]]").expect("generation must succeed");
    assert_eq!(
        c.insts,
        vec![
            Inst::Alloc,
            Inst::Jump(0),
            Inst::Label(0),
            Inst::Branch(1, 2),
            Inst::Label(1),
            Inst::Jump(3),
            Inst::Label(3),
            Inst::Branch(4, 5),
            Inst::Label(4),
            Inst::Jump(3),
            Inst::Label(5),
            Inst::Jump(0),
            Inst::Label(2),
            Inst::Free,
            Inst::Ret(0),
        ]
    );
    assert!(c.while_blocks.is_empty());
}

#[test]
fn balanced_brackets_leave_the_loop_stack_empty() {
    let c = compile_source("[+[-]][]").expect("generation must succeed");
    assert!(c.while_blocks.is_empty());
}

#[test]
fn loop_close_without_open_loop_is_unmatched() {
    assert_eq!(compile_source("]").unwrap_err(), GenError::UnmatchedLoopEnd);
    assert_eq!(compile_source("[]]").unwrap_err(), GenError::UnmatchedLoopEnd);
    assert_eq!(compile_source("][").unwrap_err(), GenError::UnmatchedLoopEnd);
}

#[test]
fn unterminated_open_loop_is_accepted_with_its_frame_left_open() {
    let c = compile_source("[").expect("generation must succeed");
    assert_eq!(c.while_blocks.len(), 1);
}

#[test]
fn marker_kinds_lower_to_nothing() {
    let tokens = vec![
        Token { token_type: TokenType::PStart, line: 1, pos: 0 },
        Token { token_type: TokenType::NewLine, line: 1, pos: 0 },
        Token { token_type: TokenType::EOF, line: 2, pos: 1 },
    ];
    let c = Compiler::compile(&tokens).expect("generation must succeed");
    assert_eq!(c.insts, vec![Inst::Alloc, Inst::Free, Inst::Ret(0)]);
}

#[test]
fn generation_stops_at_the_first_end_of_input() {
    let tokens = vec![
        Token { token_type: TokenType::IncByte, line: 1, pos: 0 },
        Token { token_type: TokenType::EOF, line: 2, pos: 1 },
        Token { token_type: TokenType::IncByte, line: 1, pos: 1 },
    ];
    let c = Compiler::compile(&tokens).expect("generation must succeed");
    assert_eq!(
        c.insts,
        vec![Inst::Alloc, Inst::AddByte(1), Inst::Free, Inst::Ret(0)]
    );
}

#[test]
fn build_add_keeps_the_amount_modulo_256() {
    let mut c = Compiler::new();
    c.build_add(1);
    c.build_add(-1);
    c.build_add(256);
    c.build_add(-257);
    c.build_add(300);
    c.build_add(i32::MIN);
    assert_eq!(
        c.insts,
        vec![
            Inst::AddByte(1),
            Inst::AddByte(255),
            Inst::AddByte(0),
            Inst::AddByte(255),
            Inst::AddByte(44),
            Inst::AddByte(0),
        ]
    );
}

#[test]
fn closing_with_no_open_loop_reports_the_error_and_changes_nothing() {
    let mut c = Compiler::new();
    assert_eq!(c.build_while_end(), Err(GenError::UnmatchedLoopEnd));
    assert!(c.insts.is_empty());
    assert!(c.while_blocks.is_empty());
}
