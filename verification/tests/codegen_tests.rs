use exprc::codegen::{codegen, instructions};
use exprc::machine::{execute, Instr};
use exprc::parser::{parse, Node};
use exprc::token::{Symbol, Token, TokenKind};

fn sym(s: Symbol) -> Token {
    Token { kind: TokenKind::Reserved(s), pos: 0 }
}

fn num(v: u32) -> Token {
    Token { kind: TokenKind::Number(v), pos: 0 }
}

/// Parse, compile and run on the stack machine.
fn run_tokens(toks: Vec<Token>) -> Option<i64> {
    let tree = parse(&toks).unwrap();
    execute(&instructions(&tree))
}

#[test]
fn literal_program_text() {
    let lines = codegen(&Node::Number(42));
    assert_eq!(
        lines,
        vec![
            ".intel_syntax noprefix",
            ".global main",
            "main:",
            "\tpush 42",
            "\tpop rax",
            "\tret",
        ]
    );
}

#[test]
fn addition_program_text() {
    let tree = parse(&vec![num(1), sym(Symbol::Plus), num(2)]).unwrap();
    let lines = codegen(&tree);
    assert_eq!(
        lines,
        vec![
            ".intel_syntax noprefix",
            ".global main",
            "main:",
            "\tpush 1",
            "\tpush 2",
            "\tpop rdi",
            "\tpop rax",
            "\tadd rax, rdi",
            "\tpush rax",
            "\tpop rax",
            "\tret",
        ]
    );
}

#[test]
fn comparison_program_text() {
    // "5>3" is normalized while parsing, so the pushes come out swapped.
    let tree = parse(&vec![num(5), sym(Symbol::Gt), num(3)]).unwrap();
    let lines = codegen(&tree);
    assert_eq!(
        lines,
        vec![
            ".intel_syntax noprefix",
            ".global main",
            "main:",
            "\tpush 3",
            "\tpush 5",
            "\tpop rdi",
            "\tpop rax",
            "\tcmp rax, rdi",
            "\tsetl al",
            "\tmovzb rax, al",
            "\tpush rax",
            "\tpop rax",
            "\tret",
        ]
    );
}

#[test]
fn division_program_text_sign_extends() {
    let tree = parse(&vec![num(7), sym(Symbol::Slash), num(2)]).unwrap();
    let lines = codegen(&tree);
    assert_eq!(
        lines,
        vec![
            ".intel_syntax noprefix",
            ".global main",
            "main:",
            "\tpush 7",
            "\tpush 2",
            "\tpop rdi",
            "\tpop rax",
            "\tcqo",
            "\tidiv rdi",
            "\tpush rax",
            "\tpop rax",
            "\tret",
        ]
    );
}

#[test]
fn decimal_rendering_edges() {
    assert_eq!(codegen(&Node::Number(0))[3], "\tpush 0");
    assert_eq!(codegen(&Node::Number(10))[3], "\tpush 10");
    assert_eq!(codegen(&Node::Number(4294967295))[3], "\tpush 4294967295");
}

#[test]
fn instructions_are_post_order() {
    let tree = parse(&vec![num(2), sym(Symbol::Plus), num(3), sym(Symbol::Star), num(4)])
        .unwrap();
    assert_eq!(
        instructions(&tree),
        vec![
            Instr::Push(2),
            Instr::Push(3),
            Instr::Push(4),
            Instr::Mul,
            Instr::Add,
        ]
    );
}

#[test]
fn round_trip_through_the_machine() {
    // "(1+2)*3-4" must leave 5 in the return register.
    let toks = vec![
        sym(Symbol::LParen),
        num(1),
        sym(Symbol::Plus),
        num(2),
        sym(Symbol::RParen),
        sym(Symbol::Star),
        num(3),
        sym(Symbol::Minus),
        num(4),
    ];
    assert_eq!(run_tokens(toks), Some(5));
}

#[test]
fn precedence_evaluates() {
    // "2+3*4" is 14, not 20.
    let toks = vec![num(2), sym(Symbol::Plus), num(3), sym(Symbol::Star), num(4)];
    assert_eq!(run_tokens(toks), Some(14));
}

#[test]
fn left_associativity_evaluates() {
    // "8-4-2" is 2, not 6.
    let toks = vec![num(8), sym(Symbol::Minus), num(4), sym(Symbol::Minus), num(2)];
    assert_eq!(run_tokens(toks), Some(2));
}

#[test]
fn division_truncates_toward_zero() {
    // "7/2" is 3.
    let toks = vec![num(7), sym(Symbol::Slash), num(2)];
    assert_eq!(run_tokens(toks), Some(3));
    // "-7/2", built through unary-minus normalization, is -3.
    let toks = vec![sym(Symbol::Minus), num(7), sym(Symbol::Slash), num(2)];
    assert_eq!(run_tokens(toks), Some(-3));
}

#[test]
fn division_by_zero_traps() {
    let toks = vec![num(1), sym(Symbol::Slash), num(0)];
    assert_eq!(run_tokens(toks), None);
}

#[test]
fn comparisons_produce_one_or_zero() {
    assert_eq!(run_tokens(vec![num(5), sym(Symbol::Gt), num(3)]), Some(1));
    assert_eq!(run_tokens(vec![num(5), sym(Symbol::Lt), num(3)]), Some(0));
    assert_eq!(run_tokens(vec![num(3), sym(Symbol::Le), num(3)]), Some(1));
    assert_eq!(run_tokens(vec![num(4), sym(Symbol::Ge), num(5)]), Some(0));
    assert_eq!(run_tokens(vec![num(5), sym(Symbol::EqEq), num(5)]), Some(1));
    assert_eq!(run_tokens(vec![num(5), sym(Symbol::NotEq), num(5)]), Some(0));
}

#[test]
fn literals_push_zero_extended() {
    // The largest 32-bit literal stays positive in 64-bit arithmetic.
    let toks = vec![num(4294967295), sym(Symbol::Gt), num(0)];
    assert_eq!(run_tokens(toks), Some(1));
    assert_eq!(run_tokens(vec![num(4294967295)]), Some(4294967295));
}

#[test]
fn execute_runs_hand_built_programs() {
    let prog = vec![Instr::Push(2), Instr::Push(3), Instr::Add];
    assert_eq!(execute(&prog), Some(5));
    // An operand is missing: the machine yields nothing.
    let broken = vec![Instr::Push(2), Instr::Add];
    assert_eq!(execute(&broken), None);
    // An empty program leaves nothing to return.
    assert_eq!(execute(&vec![]), None);
}

#[test]
fn machine_subtraction_can_go_negative() {
    let toks = vec![num(2), sym(Symbol::Minus), num(7)];
    assert_eq!(run_tokens(toks), Some(-5));
}
