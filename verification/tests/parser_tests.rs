use exprc::parser::{parse, Node, ParseError, ParserContext};
use exprc::token::{Symbol, Token, TokenKind};

fn sym(s: Symbol) -> Token {
    Token { kind: TokenKind::Reserved(s), pos: 0 }
}

fn num(v: u32) -> Token {
    Token { kind: TokenKind::Number(v), pos: 0 }
}

fn num_node(v: u32) -> Node {
    Node::Number(v)
}

fn add_node(l: Node, r: Node) -> Node {
    Node::Add { lhs: Box::new(l), rhs: Box::new(r) }
}

fn sub_node(l: Node, r: Node) -> Node {
    Node::Sub { lhs: Box::new(l), rhs: Box::new(r) }
}

fn mul_node(l: Node, r: Node) -> Node {
    Node::Mul { lhs: Box::new(l), rhs: Box::new(r) }
}

fn div_node(l: Node, r: Node) -> Node {
    Node::Div { lhs: Box::new(l), rhs: Box::new(r) }
}

fn lt_node(l: Node, r: Node) -> Node {
    Node::Lt { lhs: Box::new(l), rhs: Box::new(r) }
}

fn lte_node(l: Node, r: Node) -> Node {
    Node::Lte { lhs: Box::new(l), rhs: Box::new(r) }
}

fn equal_node(l: Node, r: Node) -> Node {
    Node::Equal { lhs: Box::new(l), rhs: Box::new(r) }
}

fn not_equal_node(l: Node, r: Node) -> Node {
    Node::NotEqual { lhs: Box::new(l), rhs: Box::new(r) }
}

#[test]
fn precedence_mul_binds_tighter() {
    // "2+3*4"
    let toks = vec![num(2), sym(Symbol::Plus), num(3), sym(Symbol::Star), num(4)];
    let tree = parse(&toks).unwrap();
    assert_eq!(tree, add_node(num_node(2), mul_node(num_node(3), num_node(4))));
    assert_ne!(tree, mul_node(add_node(num_node(2), num_node(3)), num_node(4)));
}

#[test]
fn subtraction_is_left_associative() {
    // "8-4-2"
    let toks = vec![num(8), sym(Symbol::Minus), num(4), sym(Symbol::Minus), num(2)];
    let tree = parse(&toks).unwrap();
    assert_eq!(tree, sub_node(sub_node(num_node(8), num_node(4)), num_node(2)));
}

#[test]
fn parentheses_override_precedence() {
    // "(2+3)*4"
    let toks = vec![
        sym(Symbol::LParen),
        num(2),
        sym(Symbol::Plus),
        num(3),
        sym(Symbol::RParen),
        sym(Symbol::Star),
        num(4),
    ];
    let tree = parse(&toks).unwrap();
    assert_eq!(tree, mul_node(add_node(num_node(2), num_node(3)), num_node(4)));
}

#[test]
fn unary_minus_becomes_zero_minus() {
    // "-5+3"
    let toks = vec![sym(Symbol::Minus), num(5), sym(Symbol::Plus), num(3)];
    let tree = parse(&toks).unwrap();
    assert_eq!(tree, add_node(sub_node(num_node(0), num_node(5)), num_node(3)));
}

#[test]
fn unary_plus_is_erased() {
    // "+5"
    let toks = vec![sym(Symbol::Plus), num(5)];
    assert_eq!(parse(&toks).unwrap(), num_node(5));
}

#[test]
fn greater_than_is_normalized_to_less_than() {
    // "5>3" and "3<5" must build the same tree.
    let gt = vec![num(5), sym(Symbol::Gt), num(3)];
    let lt = vec![num(3), sym(Symbol::Lt), num(5)];
    let t1 = parse(&gt).unwrap();
    let t2 = parse(&lt).unwrap();
    assert_eq!(t1, lt_node(num_node(3), num_node(5)));
    assert_eq!(t1, t2);
}

#[test]
fn greater_equal_is_normalized_to_lte() {
    // "1>=2" parses as the tree of "2<=1".
    let toks = vec![num(1), sym(Symbol::Ge), num(2)];
    assert_eq!(parse(&toks).unwrap(), lte_node(num_node(2), num_node(1)));
}

#[test]
fn equality_operators_parse() {
    let eq = vec![num(1), sym(Symbol::EqEq), num(2)];
    assert_eq!(parse(&eq).unwrap(), equal_node(num_node(1), num_node(2)));
    let ne = vec![num(1), sym(Symbol::NotEq), num(2)];
    assert_eq!(parse(&ne).unwrap(), not_equal_node(num_node(1), num_node(2)));
}

#[test]
fn comparison_binds_looser_than_addition() {
    // "1+2<4" is "(1+2) < 4".
    let toks = vec![num(1), sym(Symbol::Plus), num(2), sym(Symbol::Lt), num(4)];
    assert_eq!(
        parse(&toks).unwrap(),
        lt_node(add_node(num_node(1), num_node(2)), num_node(4))
    );
}

#[test]
fn division_parses_left_associative() {
    // "100/5/2" is "(100/5)/2".
    let toks = vec![num(100), sym(Symbol::Slash), num(5), sym(Symbol::Slash), num(2)];
    assert_eq!(
        parse(&toks).unwrap(),
        div_node(div_node(num_node(100), num_node(5)), num_node(2))
    );
}

#[test]
fn nested_parentheses() {
    // "((7))"
    let toks = vec![
        sym(Symbol::LParen),
        sym(Symbol::LParen),
        num(7),
        sym(Symbol::RParen),
        sym(Symbol::RParen),
    ];
    assert_eq!(parse(&toks).unwrap(), num_node(7));
}

#[test]
fn unterminated_parenthesis_is_an_error() {
    // "(1+2": the missing close paren is noticed at the end of the input.
    let toks = vec![sym(Symbol::LParen), num(1), sym(Symbol::Plus), num(2)];
    assert_eq!(parse(&toks), Err(ParseError { at: 4 }));
}

#[test]
fn dangling_operator_is_an_error() {
    // "1+": the operand is missing at the end of the input.
    let toks = vec![num(1), sym(Symbol::Plus)];
    assert_eq!(parse(&toks), Err(ParseError { at: 2 }));
}

#[test]
fn empty_input_is_an_error() {
    let toks: Vec<Token> = vec![];
    assert_eq!(parse(&toks), Err(ParseError { at: 0 }));
}

#[test]
fn lone_operator_is_an_error() {
    let toks = vec![sym(Symbol::Star), num(2)];
    assert_eq!(parse(&toks), Err(ParseError { at: 0 }));
}

#[test]
fn error_points_at_the_offending_token() {
    // "1*)": the close paren sits where an operand should be.
    let toks = vec![num(1), sym(Symbol::Star), sym(Symbol::RParen)];
    assert_eq!(parse(&toks), Err(ParseError { at: 2 }));
}

#[test]
fn trailing_tokens_are_not_validated() {
    // "1 2": a complete expression followed by a stray token.
    let toks = vec![num(1), num(2)];
    assert_eq!(parse(&toks).unwrap(), num_node(1));
}

#[test]
fn consume_advances_only_on_match() {
    let mut ctx = ParserContext::new(vec![sym(Symbol::Plus), num(1)]);
    assert!(!ctx.consume(Symbol::Minus));
    assert!(ctx.consume(Symbol::Plus));
    assert!(!ctx.consume(Symbol::Plus));
}

#[test]
fn expect_reports_the_offending_index() {
    let mut ctx = ParserContext::new(vec![num(1)]);
    assert_eq!(ctx.expect(Symbol::RParen), Err(ParseError { at: 0 }));
    let mut at_end = ParserContext::new(vec![]);
    assert_eq!(at_end.expect(Symbol::RParen), Err(ParseError { at: 0 }));
}

#[test]
fn expect_number_takes_only_numbers() {
    let mut ctx = ParserContext::new(vec![num(42), sym(Symbol::Plus)]);
    assert_eq!(ctx.expect_number(), Ok(42));
    assert_eq!(ctx.expect_number(), Err(ParseError { at: 1 }));
    // It advances past the offending token unconditionally...
    assert_eq!(ctx.pos, 2);
    // ...but has nothing to advance past once the tokens ran out.
    assert_eq!(ctx.expect_number(), Err(ParseError { at: 2 }));
    assert_eq!(ctx.pos, 2);
}
