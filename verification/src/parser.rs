//! Recursive-descent parser from a token sequence to an expression tree.
//!
//! The grammar, in ascending precedence (every starred level folds left):
//!
//! ```text
//! expr       := equality
//! equality   := relational (("==" | "!=") relational)*
//! relational := additive (("<" | "<=" | ">" | ">=") additive)*
//! additive   := mul (("+" | "-") mul)*
//! mul        := unary (("*" | "/") unary)*
//! unary      := ("+" | "-")? primary
//! primary    := "(" expr ")" | NUMBER
//! ```
//!
//! Two normalizations happen while parsing: `a > b` becomes `Lt { lhs: b,
//! rhs: a }` and `a >= b` becomes `Lte { lhs: b, rhs: a }` (operands
//! swapped; the tree has no greater-than variants), and a unary `-x`
//! becomes `Sub { lhs: Number(0), rhs: x }` while a unary `+x` is erased.
//!
//! The grammar is written down twice: once as `spec` functions
//! ([`spec_expr`] and the functions it calls), which are the mathematical
//! statement of what a token sequence parses to, and once as executable
//! methods whose contracts say they return exactly what the spec functions
//! describe.  [`lemma_parse_round_trip`] shows the spec parser is total on
//! well-formed input: every tree comes back unchanged from parsing its own
//! fully parenthesized rendering.

use vstd::prelude::*;

use crate::token::{Symbol, Token, TokenKind};

verus! {

/// An expression tree: a number literal leaf, or a binary operator with
/// two owned subtrees.  Greater-than comparisons have no variant of their
/// own; the parser normalizes them into `Lt`/`Lte` with swapped operands.
#[derive(Debug, PartialEq)]
pub enum Node {
    Number(u32),
    Add { lhs: Box<Node>, rhs: Box<Node> },
    Sub { lhs: Box<Node>, rhs: Box<Node> },
    Mul { lhs: Box<Node>, rhs: Box<Node> },
    Div { lhs: Box<Node>, rhs: Box<Node> },
    Equal { lhs: Box<Node>, rhs: Box<Node> },
    NotEqual { lhs: Box<Node>, rhs: Box<Node> },
    Lt { lhs: Box<Node>, rhs: Box<Node> },
    Lte { lhs: Box<Node>, rhs: Box<Node> },
}

/// A parse failure: the token at index `at` (or the end of the sequence,
/// when `at` equals its length) did not have the required shape.
#[derive(Clone, Copy, PartialEq, Eq, Structural, Debug)]
pub struct ParseError {
    pub at: usize,
}

/// The token at `pos` is the reserved symbol `s`.
pub open spec fn sym_at(toks: Seq<Token>, pos: int, s: Symbol) -> bool {
    0 <= pos < toks.len() && toks[pos].kind == TokenKind::Reserved(s)
}

/// The number literal at `pos`, if the token there is one.
pub open spec fn num_at(toks: Seq<Token>, pos: int) -> Option<u32> {
    if 0 <= pos < toks.len() {
        match toks[pos].kind {
            TokenKind::Number(n) => Some(n),
            TokenKind::Reserved(_) => None,
        }
    } else {
        None
    }
}

/// A successful spec-parse result: the subtree and the position past it.
pub open spec fn parsed(v: (Node, int)) -> Result<(Node, int), int> {
    Ok(v)
}

/// A failed spec-parse result: the position where the match failed.
pub open spec fn no_parse(p: int) -> Result<(Node, int), int> {
    Err(p)
}

/// `primary := "(" expr ")" | NUMBER`.  Every spec parsing function
/// returns the parsed subtree and the position just past it, or, on a
/// parse failure, the position of the token that did not fit (the
/// sequence's length when the tokens ran out).
pub open spec fn spec_primary(toks: Seq<Token>, pos: int) -> Result<(Node, int), int>
    decreases toks.len() - pos, 1int,
{
    if sym_at(toks, pos, Symbol::LParen) {
        match spec_expr(toks, pos + 1) {
            Ok((n, p)) => {
                if sym_at(toks, p, Symbol::RParen) {
                    Ok((n, p + 1))
                } else {
                    Err(p)
                }
            },
            Err(q) => Err(q),
        }
    } else {
        match num_at(toks, pos) {
            Some(v) => Ok((Node::Number(v), pos + 1)),
            None => Err(pos),
        }
    }
}

/// `unary := ("+" | "-")? primary`; `-x` is sugar for `0 - x` and `+x`
/// for `x`.
pub open spec fn spec_unary(toks: Seq<Token>, pos: int) -> Result<(Node, int), int>
    decreases toks.len() - pos, 2int,
{
    if sym_at(toks, pos, Symbol::Plus) {
        spec_primary(toks, pos + 1)
    } else if sym_at(toks, pos, Symbol::Minus) {
        match spec_primary(toks, pos + 1) {
            Ok((n, p)) => Ok(
                (Node::Sub { lhs: Box::new(Node::Number(0)), rhs: Box::new(n) }, p),
            ),
            Err(q) => Err(q),
        }
    } else {
        spec_primary(toks, pos)
    }
}

/// `mul := unary (("*" | "/") unary)*`.  Here and below, the position
/// bounds tested before each fold step only keep the recursion
/// well-founded; parsing never leaves them (the executable methods prove
/// as much at every call).
pub open spec fn spec_mul(toks: Seq<Token>, pos: int) -> Result<(Node, int), int>
    decreases toks.len() - pos, 3int,
{
    match spec_unary(toks, pos) {
        Ok((n, p)) => {
            if pos <= p && p <= toks.len() {
                spec_mul_rest(toks, p, n)
            } else {
                Err(p)
            }
        },
        Err(q) => Err(q),
    }
}

/// The left fold of `mul`: `acc` is the tree parsed so far.
pub open spec fn spec_mul_rest(toks: Seq<Token>, pos: int, acc: Node) -> Result<(Node, int), int>
    decreases toks.len() - pos, 0int,
{
    if sym_at(toks, pos, Symbol::Star) {
        match spec_unary(toks, pos + 1) {
            Ok((r, p)) => {
                if pos < p && p <= toks.len() {
                    spec_mul_rest(toks, p, Node::Mul { lhs: Box::new(acc), rhs: Box::new(r) })
                } else {
                    Err(p)
                }
            },
            Err(q) => Err(q),
        }
    } else if sym_at(toks, pos, Symbol::Slash) {
        match spec_unary(toks, pos + 1) {
            Ok((r, p)) => {
                if pos < p && p <= toks.len() {
                    spec_mul_rest(toks, p, Node::Div { lhs: Box::new(acc), rhs: Box::new(r) })
                } else {
                    Err(p)
                }
            },
            Err(q) => Err(q),
        }
    } else {
        Ok((acc, pos))
    }
}

/// `additive := mul (("+" | "-") mul)*`.
pub open spec fn spec_additive(toks: Seq<Token>, pos: int) -> Result<(Node, int), int>
    decreases toks.len() - pos, 4int,
{
    match spec_mul(toks, pos) {
        Ok((n, p)) => {
            if pos <= p && p <= toks.len() {
                spec_additive_rest(toks, p, n)
            } else {
                Err(p)
            }
        },
        Err(q) => Err(q),
    }
}

/// The left fold of `additive`.
pub open spec fn spec_additive_rest(toks: Seq<Token>, pos: int, acc: Node) -> Result<
    (Node, int),
    int,
>
    decreases toks.len() - pos, 0int,
{
    if sym_at(toks, pos, Symbol::Plus) {
        match spec_mul(toks, pos + 1) {
            Ok((r, p)) => {
                if pos < p && p <= toks.len() {
                    spec_additive_rest(toks, p, Node::Add { lhs: Box::new(acc), rhs: Box::new(r) })
                } else {
                    Err(p)
                }
            },
            Err(q) => Err(q),
        }
    } else if sym_at(toks, pos, Symbol::Minus) {
        match spec_mul(toks, pos + 1) {
            Ok((r, p)) => {
                if pos < p && p <= toks.len() {
                    spec_additive_rest(toks, p, Node::Sub { lhs: Box::new(acc), rhs: Box::new(r) })
                } else {
                    Err(p)
                }
            },
            Err(q) => Err(q),
        }
    } else {
        Ok((acc, pos))
    }
}

/// `relational := additive (("<" | "<=" | ">" | ">=") additive)*`.
pub open spec fn spec_relational(toks: Seq<Token>, pos: int) -> Result<(Node, int), int>
    decreases toks.len() - pos, 5int,
{
    match spec_additive(toks, pos) {
        Ok((n, p)) => {
            if pos <= p && p <= toks.len() {
                spec_relational_rest(toks, p, n)
            } else {
                Err(p)
            }
        },
        Err(q) => Err(q),
    }
}

/// The left fold of `relational`.  `>` and `>=` build `Lt`/`Lte` nodes
/// with the operands swapped: the tree for `a > b` is the tree for
/// `b < a`.
pub open spec fn spec_relational_rest(toks: Seq<Token>, pos: int, acc: Node) -> Result<
    (Node, int),
    int,
>
    decreases toks.len() - pos, 0int,
{
    if sym_at(toks, pos, Symbol::Lt) {
        match spec_additive(toks, pos + 1) {
            Ok((r, p)) => {
                if pos < p && p <= toks.len() {
                    spec_relational_rest(
                        toks,
                        p,
                        Node::Lt { lhs: Box::new(acc), rhs: Box::new(r) },
                    )
                } else {
                    Err(p)
                }
            },
            Err(q) => Err(q),
        }
    } else if sym_at(toks, pos, Symbol::Le) {
        match spec_additive(toks, pos + 1) {
            Ok((r, p)) => {
                if pos < p && p <= toks.len() {
                    spec_relational_rest(
                        toks,
                        p,
                        Node::Lte { lhs: Box::new(acc), rhs: Box::new(r) },
                    )
                } else {
                    Err(p)
                }
            },
            Err(q) => Err(q),
        }
    } else if sym_at(toks, pos, Symbol::Gt) {
        match spec_additive(toks, pos + 1) {
            Ok((r, p)) => {
                if pos < p && p <= toks.len() {
                    spec_relational_rest(
                        toks,
                        p,
                        Node::Lt { lhs: Box::new(r), rhs: Box::new(acc) },
                    )
                } else {
                    Err(p)
                }
            },
            Err(q) => Err(q),
        }
    } else if sym_at(toks, pos, Symbol::Ge) {
        match spec_additive(toks, pos + 1) {
            Ok((r, p)) => {
                if pos < p && p <= toks.len() {
                    spec_relational_rest(
                        toks,
                        p,
                        Node::Lte { lhs: Box::new(r), rhs: Box::new(acc) },
                    )
                } else {
                    Err(p)
                }
            },
            Err(q) => Err(q),
        }
    } else {
        Ok((acc, pos))
    }
}

/// `equality := relational (("==" | "!=") relational)*`.
pub open spec fn spec_equality(toks: Seq<Token>, pos: int) -> Result<(Node, int), int>
    decreases toks.len() - pos, 6int,
{
    match spec_relational(toks, pos) {
        Ok((n, p)) => {
            if pos <= p && p <= toks.len() {
                spec_equality_rest(toks, p, n)
            } else {
                Err(p)
            }
        },
        Err(q) => Err(q),
    }
}

/// The left fold of `equality`.
pub open spec fn spec_equality_rest(toks: Seq<Token>, pos: int, acc: Node) -> Result<
    (Node, int),
    int,
>
    decreases toks.len() - pos, 0int,
{
    if sym_at(toks, pos, Symbol::EqEq) {
        match spec_relational(toks, pos + 1) {
            Ok((r, p)) => {
                if pos < p && p <= toks.len() {
                    spec_equality_rest(
                        toks,
                        p,
                        Node::Equal { lhs: Box::new(acc), rhs: Box::new(r) },
                    )
                } else {
                    Err(p)
                }
            },
            Err(q) => Err(q),
        }
    } else if sym_at(toks, pos, Symbol::NotEq) {
        match spec_relational(toks, pos + 1) {
            Ok((r, p)) => {
                if pos < p && p <= toks.len() {
                    spec_equality_rest(
                        toks,
                        p,
                        Node::NotEqual { lhs: Box::new(acc), rhs: Box::new(r) },
                    )
                } else {
                    Err(p)
                }
            },
            Err(q) => Err(q),
        }
    } else {
        Ok((acc, pos))
    }
}

/// `expr := equality`: the whole grammar, rooted at the lowest-precedence
/// production.
pub open spec fn spec_expr(toks: Seq<Token>, pos: int) -> Result<(Node, int), int>
    decreases toks.len() - pos, 7int,
{
    spec_equality(toks, pos)
}

/// What parsing a whole token sequence yields: the tree of the longest
/// expression starting at the first token, or, when no expression starts
/// there, the index of the token where the grammar match first failed
/// (the sequence's length when the tokens ran out).  Tokens past the
/// parsed expression are not validated.
pub open spec fn spec_parse(toks: Seq<Token>) -> Result<Node, int> {
    match spec_expr(toks, 0) {
        Ok((n, _)) => Ok(n),
        Err(q) => Err(q),
    }
}

/// A cursor over the token sequence with single-token lookahead.
pub struct ParserContext {
    pub tokens: Vec<Token>,
    /// Index of the next token to look at; at most `tokens.len()`.
    pub pos: usize,
}

impl ParserContext {
    /// The cursor has not run past the end of the sequence.
    pub open spec fn wf(&self) -> bool {
        self.pos <= self.tokens@.len()
    }

    pub fn new(tokens: Vec<Token>) -> (ctx: ParserContext)
        ensures
            ctx.wf(),
            ctx.tokens@ == tokens@,
            ctx.pos == 0,
    {
        ParserContext { tokens, pos: 0 }
    }

    /// If the next token is the reserved symbol `op`, advance past it and
    /// report success; otherwise report failure without advancing.
    pub fn consume(&mut self, op: Symbol) -> (r: bool)
        requires
            old(self).wf(),
        ensures
            final(self).wf(),
            final(self).tokens@ == old(self).tokens@,
            r == sym_at(old(self).tokens@, old(self).pos as int, op),
            r ==> final(self).pos == old(self).pos + 1,
            !r ==> final(self).pos == old(self).pos,
    {
        if self.pos < self.tokens.len() {
            let t = self.tokens[self.pos];
            match t.kind {
                TokenKind::Reserved(s) => {
                    if s == op {
                        self.pos = self.pos + 1;
                        return true;
                    }
                },
                TokenKind::Number(_) => {},
            }
        }
        false
    }

    /// `consume` with the failure made a parse error.
    pub fn expect(&mut self, op: Symbol) -> (r: Result<(), ParseError>)
        requires
            old(self).wf(),
        ensures
            final(self).wf(),
            final(self).tokens@ == old(self).tokens@,
            r is Ok <==> sym_at(old(self).tokens@, old(self).pos as int, op),
            r is Ok ==> final(self).pos == old(self).pos + 1,
            r is Err ==> final(self).pos == old(self).pos && r->Err_0.at == old(self).pos,
    {
        if self.consume(op) {
            Ok(())
        } else {
            Err(ParseError { at: self.pos })
        }
    }

    /// Advance past the next token unconditionally and require the token
    /// just consumed to be a number literal; a reserved symbol there is a
    /// parse failure at its index.  An exhausted stream is a parse
    /// failure at the sequence's end, with nothing left to advance past.
    pub fn expect_number(&mut self) -> (r: Result<u32, ParseError>)
        requires
            old(self).wf(),
        ensures
            final(self).wf(),
            final(self).tokens@ == old(self).tokens@,
            final(self).pos == if old(self).pos < old(self).tokens@.len() {
                old(self).pos + 1
            } else {
                old(self).pos as int
            },
            match r {
                Ok(n) => num_at(old(self).tokens@, old(self).pos as int) == Some(n),
                Err(e) => num_at(old(self).tokens@, old(self).pos as int) is None && e.at == old(
                    self,
                ).pos,
            },
    {
        let at = self.pos;
        if at < self.tokens.len() {
            let t = self.tokens[at];
            self.pos = at + 1;
            match t.kind {
                TokenKind::Number(n) => Ok(n),
                TokenKind::Reserved(_) => Err(ParseError { at }),
            }
        } else {
            Err(ParseError { at })
        }
    }

    fn primary(&mut self) -> (r: Result<Node, ParseError>)
        requires
            old(self).wf(),
        ensures
            final(self).wf(),
            final(self).tokens@ == old(self).tokens@,
            match r {
                Ok(n) => spec_primary(old(self).tokens@, old(self).pos as int) == parsed(
                    (n, final(self).pos as int),
                ) && old(self).pos <= final(self).pos,
                Err(e) => spec_primary(old(self).tokens@, old(self).pos as int) == no_parse(e.at as int),
            },
        decreases old(self).tokens@.len() - old(self).pos, 1int,
    {
        if self.consume(Symbol::LParen) {
            let n = self.expr()?;
            self.expect(Symbol::RParen)?;
            Ok(n)
        } else {
            let v = self.expect_number()?;
            Ok(Node::Number(v))
        }
    }

    fn unary(&mut self) -> (r: Result<Node, ParseError>)
        requires
            old(self).wf(),
        ensures
            final(self).wf(),
            final(self).tokens@ == old(self).tokens@,
            match r {
                Ok(n) => spec_unary(old(self).tokens@, old(self).pos as int) == parsed(
                    (n, final(self).pos as int),
                ) && old(self).pos <= final(self).pos,
                Err(e) => spec_unary(old(self).tokens@, old(self).pos as int) == no_parse(e.at as int),
            },
        decreases old(self).tokens@.len() - old(self).pos, 2int,
    {
        if self.consume(Symbol::Plus) {
            self.primary()
        } else if self.consume(Symbol::Minus) {
            let n = self.primary()?;
            Ok(Node::Sub { lhs: Box::new(Node::Number(0)), rhs: Box::new(n) })
        } else {
            self.primary()
        }
    }

    fn mul(&mut self) -> (r: Result<Node, ParseError>)
        requires
            old(self).wf(),
        ensures
            final(self).wf(),
            final(self).tokens@ == old(self).tokens@,
            match r {
                Ok(n) => spec_mul(old(self).tokens@, old(self).pos as int) == parsed(
                    (n, final(self).pos as int),
                ) && old(self).pos <= final(self).pos,
                Err(e) => spec_mul(old(self).tokens@, old(self).pos as int) == no_parse(e.at as int),
            },
        decreases old(self).tokens@.len() - old(self).pos, 3int,
    {
        let n = self.unary()?;
        self.mul_rest(n)
    }

    fn mul_rest(&mut self, acc: Node) -> (r: Result<Node, ParseError>)
        requires
            old(self).wf(),
        ensures
            final(self).wf(),
            final(self).tokens@ == old(self).tokens@,
            match r {
                Ok(n) => spec_mul_rest(old(self).tokens@, old(self).pos as int, acc) == parsed(
                    (n, final(self).pos as int),
                ) && old(self).pos <= final(self).pos,
                Err(e) => spec_mul_rest(old(self).tokens@, old(self).pos as int, acc) == no_parse(e.at as int),
            },
        decreases old(self).tokens@.len() - old(self).pos, 0int,
    {
        if self.consume(Symbol::Star) {
            let r = self.unary()?;
            self.mul_rest(Node::Mul { lhs: Box::new(acc), rhs: Box::new(r) })
        } else if self.consume(Symbol::Slash) {
            let r = self.unary()?;
            self.mul_rest(Node::Div { lhs: Box::new(acc), rhs: Box::new(r) })
        } else {
            Ok(acc)
        }
    }

    fn add(&mut self) -> (r: Result<Node, ParseError>)
        requires
            old(self).wf(),
        ensures
            final(self).wf(),
            final(self).tokens@ == old(self).tokens@,
            match r {
                Ok(n) => spec_additive(old(self).tokens@, old(self).pos as int) == parsed(
                    (n, final(self).pos as int),
                ) && old(self).pos <= final(self).pos,
                Err(e) => spec_additive(old(self).tokens@, old(self).pos as int) == no_parse(e.at as int),
            },
        decreases old(self).tokens@.len() - old(self).pos, 4int,
    {
        let n = self.mul()?;
        self.add_rest(n)
    }

    fn add_rest(&mut self, acc: Node) -> (r: Result<Node, ParseError>)
        requires
            old(self).wf(),
        ensures
            final(self).wf(),
            final(self).tokens@ == old(self).tokens@,
            match r {
                Ok(n) => spec_additive_rest(old(self).tokens@, old(self).pos as int, acc) == parsed(
                    (n, final(self).pos as int),
                ) && old(self).pos <= final(self).pos,
                Err(e) => spec_additive_rest(old(self).tokens@, old(self).pos as int, acc) == no_parse(e.at as int),
            },
        decreases old(self).tokens@.len() - old(self).pos, 0int,
    {
        if self.consume(Symbol::Plus) {
            let r = self.mul()?;
            self.add_rest(Node::Add { lhs: Box::new(acc), rhs: Box::new(r) })
        } else if self.consume(Symbol::Minus) {
            let r = self.mul()?;
            self.add_rest(Node::Sub { lhs: Box::new(acc), rhs: Box::new(r) })
        } else {
            Ok(acc)
        }
    }

    fn relational(&mut self) -> (r: Result<Node, ParseError>)
        requires
            old(self).wf(),
        ensures
            final(self).wf(),
            final(self).tokens@ == old(self).tokens@,
            match r {
                Ok(n) => spec_relational(old(self).tokens@, old(self).pos as int) == parsed(
                    (n, final(self).pos as int),
                ) && old(self).pos <= final(self).pos,
                Err(e) => spec_relational(old(self).tokens@, old(self).pos as int) == no_parse(e.at as int),
            },
        decreases old(self).tokens@.len() - old(self).pos, 5int,
    {
        let n = self.add()?;
        self.relational_rest(n)
    }

    fn relational_rest(&mut self, acc: Node) -> (r: Result<Node, ParseError>)
        requires
            old(self).wf(),
        ensures
            final(self).wf(),
            final(self).tokens@ == old(self).tokens@,
            match r {
                Ok(n) => spec_relational_rest(old(self).tokens@, old(self).pos as int, acc) == parsed(
                    (n, final(self).pos as int),
                ) && old(self).pos <= final(self).pos,
                Err(e) => spec_relational_rest(old(self).tokens@, old(self).pos as int, acc) == no_parse(e.at as int),
            },
        decreases old(self).tokens@.len() - old(self).pos, 0int,
    {
        if self.consume(Symbol::Lt) {
            let r = self.add()?;
            self.relational_rest(Node::Lt { lhs: Box::new(acc), rhs: Box::new(r) })
        } else if self.consume(Symbol::Le) {
            let r = self.add()?;
            self.relational_rest(Node::Lte { lhs: Box::new(acc), rhs: Box::new(r) })
        } else if self.consume(Symbol::Gt) {
            let r = self.add()?;
            self.relational_rest(Node::Lt { lhs: Box::new(r), rhs: Box::new(acc) })
        } else if self.consume(Symbol::Ge) {
            let r = self.add()?;
            self.relational_rest(Node::Lte { lhs: Box::new(r), rhs: Box::new(acc) })
        } else {
            Ok(acc)
        }
    }

    #[verifier::rlimit(50)]
    fn equality(&mut self) -> (r: Result<Node, ParseError>)
        requires
            old(self).wf(),
        ensures
            final(self).wf(),
            final(self).tokens@ == old(self).tokens@,
            match r {
                Ok(n) => spec_equality(old(self).tokens@, old(self).pos as int) == parsed(
                    (n, final(self).pos as int),
                ) && old(self).pos <= final(self).pos,
                Err(e) => spec_equality(old(self).tokens@, old(self).pos as int) == no_parse(e.at as int),
            },
        decreases old(self).tokens@.len() - old(self).pos, 6int,
    {
        let n = self.relational()?;
        self.equality_rest(n)
    }

    fn equality_rest(&mut self, acc: Node) -> (r: Result<Node, ParseError>)
        requires
            old(self).wf(),
        ensures
            final(self).wf(),
            final(self).tokens@ == old(self).tokens@,
            match r {
                Ok(n) => spec_equality_rest(old(self).tokens@, old(self).pos as int, acc) == parsed(
                    (n, final(self).pos as int),
                ) && old(self).pos <= final(self).pos,
                Err(e) => spec_equality_rest(old(self).tokens@, old(self).pos as int, acc) == no_parse(e.at as int),
            },
        decreases old(self).tokens@.len() - old(self).pos, 0int,
    {
        if self.consume(Symbol::EqEq) {
            let r = self.relational()?;
            self.equality_rest(Node::Equal { lhs: Box::new(acc), rhs: Box::new(r) })
        } else if self.consume(Symbol::NotEq) {
            let r = self.relational()?;
            self.equality_rest(Node::NotEqual { lhs: Box::new(acc), rhs: Box::new(r) })
        } else {
            Ok(acc)
        }
    }

    fn expr(&mut self) -> (r: Result<Node, ParseError>)
        requires
            old(self).wf(),
        ensures
            final(self).wf(),
            final(self).tokens@ == old(self).tokens@,
            match r {
                Ok(n) => spec_expr(old(self).tokens@, old(self).pos as int) == parsed(
                    (n, final(self).pos as int),
                ) && old(self).pos <= final(self).pos,
                Err(e) => spec_expr(old(self).tokens@, old(self).pos as int) == no_parse(e.at as int),
            },
        decreases old(self).tokens@.len() - old(self).pos, 7int,
    {
        self.equality()
    }
}

fn copy_tokens(tokens: &Vec<Token>) -> (r: Vec<Token>)
    ensures
        r@ == tokens@,
{
    let mut r: Vec<Token> = Vec::new();
    let mut i: usize = 0;
    while i < tokens.len()
        invariant
            i <= tokens@.len(),
            r@ == tokens@.subrange(0, i as int),
        decreases tokens@.len() - i,
    {
        r.push(tokens[i]);
        i = i + 1;
    }
    proof {
        assert(r@ =~= tokens@);
    }
    r
}

/// Parse one expression starting at the first token.  Succeeds if and
/// only if a well-formed expression starts there, and on failure reports
/// the index of the token where the grammar match first failed
/// ([`spec_parse`] says which trees and which indices come out); the
/// first token past the expression is not looked at, so trailing tokens
/// are left to the caller to judge.
pub fn parse(tokens: &Vec<Token>) -> (r: Result<Node, ParseError>)
    ensures
        match r {
            Ok(n) => spec_parse(tokens@) == Ok::<Node, int>(n),
            Err(e) => spec_parse(tokens@) == Err::<Node, int>(e.at as int),
        },
{
    let mut ctx = ParserContext::new(copy_tokens(tokens));
    ctx.expr()
}

/// A token for the reserved symbol `s`, at a nominal position.
pub open spec fn sym_token(s: Symbol) -> Token {
    Token { kind: TokenKind::Reserved(s), pos: 0 }
}

/// A token for the number literal `v`, at a nominal position.
pub open spec fn num_token(v: u32) -> Token {
    Token { kind: TokenKind::Number(v), pos: 0 }
}

/// A parenthesized infix rendering: `( l s r )`.
pub open spec fn wrap_tokens(s: Symbol, l: Seq<Token>, r: Seq<Token>) -> Seq<Token> {
    seq![sym_token(Symbol::LParen)] + l + seq![sym_token(s)] + r + seq![
        sym_token(Symbol::RParen),
    ]
}

/// The fully parenthesized rendering of a tree: every binary node becomes
/// `( lhs op rhs )`, with `Lt`/`Lte` rendered as `<`/`<=` (never `>`).
pub open spec fn tokens_of(n: Node) -> Seq<Token>
    decreases n,
{
    match n {
        Node::Number(v) => seq![num_token(v)],
        Node::Add { lhs, rhs } => wrap_tokens(Symbol::Plus, tokens_of(*lhs), tokens_of(*rhs)),
        Node::Sub { lhs, rhs } => wrap_tokens(Symbol::Minus, tokens_of(*lhs), tokens_of(*rhs)),
        Node::Mul { lhs, rhs } => wrap_tokens(Symbol::Star, tokens_of(*lhs), tokens_of(*rhs)),
        Node::Div { lhs, rhs } => wrap_tokens(Symbol::Slash, tokens_of(*lhs), tokens_of(*rhs)),
        Node::Equal { lhs, rhs } => wrap_tokens(Symbol::EqEq, tokens_of(*lhs), tokens_of(*rhs)),
        Node::NotEqual { lhs, rhs } => wrap_tokens(
            Symbol::NotEq,
            tokens_of(*lhs),
            tokens_of(*rhs),
        ),
        Node::Lt { lhs, rhs } => wrap_tokens(Symbol::Lt, tokens_of(*lhs), tokens_of(*rhs)),
        Node::Lte { lhs, rhs } => wrap_tokens(Symbol::Le, tokens_of(*lhs), tokens_of(*rhs)),
    }
}

/// The sequence `s` occupies `toks[pos .. pos + s.len()]`.
pub open spec fn seg(toks: Seq<Token>, pos: int, s: Seq<Token>) -> bool {
    &&& 0 <= pos
    &&& pos + s.len() <= toks.len()
    &&& forall|i: int| 0 <= i < s.len() ==> toks[pos + i] == s[i]
}

/// `n` is the binary node with operator symbol `s` and children `l`, `r`.
pub open spec fn bin_shape(n: Node, s: Symbol, l: Node, r: Node) -> bool {
    match n {
        Node::Number(_) => false,
        Node::Add { lhs, rhs } => s == Symbol::Plus && l == *lhs && r == *rhs,
        Node::Sub { lhs, rhs } => s == Symbol::Minus && l == *lhs && r == *rhs,
        Node::Mul { lhs, rhs } => s == Symbol::Star && l == *lhs && r == *rhs,
        Node::Div { lhs, rhs } => s == Symbol::Slash && l == *lhs && r == *rhs,
        Node::Equal { lhs, rhs } => s == Symbol::EqEq && l == *lhs && r == *rhs,
        Node::NotEqual { lhs, rhs } => s == Symbol::NotEq && l == *lhs && r == *rhs,
        Node::Lt { lhs, rhs } => s == Symbol::Lt && l == *lhs && r == *rhs,
        Node::Lte { lhs, rhs } => s == Symbol::Le && l == *lhs && r == *rhs,
    }
}

/// Split a `seg` of a parenthesized rendering into its five parts.
proof fn lemma_seg_parts(toks: Seq<Token>, pos: int, s: Symbol, tl: Seq<Token>, tr: Seq<Token>)
    requires
        seg(toks, pos, wrap_tokens(s, tl, tr)),
    ensures
        toks[pos] == sym_token(Symbol::LParen),
        seg(toks, pos + 1, tl),
        toks[pos + 1 + tl.len()] == sym_token(s),
        seg(toks, pos + 2 + tl.len(), tr),
        toks[pos + 2 + tl.len() + tr.len()] == sym_token(Symbol::RParen),
{
    let w = wrap_tokens(s, tl, tr);
    assert(w[0] == sym_token(Symbol::LParen));
    assert(toks[pos + 0] == w[0]);
    assert forall|i: int| 0 <= i < tl.len() implies toks[pos + 1 + i] == tl[i] by {
        assert(w[1 + i] == tl[i]);
        assert(toks[pos + (1 + i)] == w[1 + i]);
    }
    assert(w[1int + tl.len()] == sym_token(s));
    assert(toks[pos + (1 + tl.len())] == w[1int + tl.len()]);
    assert forall|i: int| 0 <= i < tr.len() implies toks[pos + 2 + tl.len() + i] == tr[i] by {
        assert(w[2 + tl.len() + i] == tr[i]);
        assert(toks[pos + (2 + tl.len() + i)] == w[2 + tl.len() + i]);
    }
    assert(w[2int + tl.len() + tr.len()] == sym_token(Symbol::RParen));
    assert(toks[pos + (2 + tl.len() + tr.len())] == w[2int + tl.len() + tr.len()]);
}

/// A rendering starts with `(` or a number, never with an operator.
proof fn lemma_tokens_of_first(n: Node)
    ensures
        tokens_of(n).len() >= 1,
        tokens_of(n)[0].kind is Number || tokens_of(n)[0].kind == TokenKind::Reserved(
            Symbol::LParen,
        ),
{
    match n {
        Node::Number(v) => {},
        Node::Add { lhs, rhs } => {
            assert(tokens_of(n)[0] == sym_token(Symbol::LParen));
        },
        Node::Sub { lhs, rhs } => {
            assert(tokens_of(n)[0] == sym_token(Symbol::LParen));
        },
        Node::Mul { lhs, rhs } => {
            assert(tokens_of(n)[0] == sym_token(Symbol::LParen));
        },
        Node::Div { lhs, rhs } => {
            assert(tokens_of(n)[0] == sym_token(Symbol::LParen));
        },
        Node::Equal { lhs, rhs } => {
            assert(tokens_of(n)[0] == sym_token(Symbol::LParen));
        },
        Node::NotEqual { lhs, rhs } => {
            assert(tokens_of(n)[0] == sym_token(Symbol::LParen));
        },
        Node::Lt { lhs, rhs } => {
            assert(tokens_of(n)[0] == sym_token(Symbol::LParen));
        },
        Node::Lte { lhs, rhs } => {
            assert(tokens_of(n)[0] == sym_token(Symbol::LParen));
        },
    }
}

/// A parsed primary is a parsed unary when no sign precedes it.
proof fn lemma_climb_unary(toks: Seq<Token>, pos: int, m: Node, p: int)
    requires
        spec_primary(toks, pos) == parsed((m, p)),
        !sym_at(toks, pos, Symbol::Plus),
        !sym_at(toks, pos, Symbol::Minus),
    ensures
        spec_unary(toks, pos) == parsed((m, p)),
{
}

/// A parsed unary is a parsed mul when no `*` or `/` follows.
proof fn lemma_climb_mul(toks: Seq<Token>, pos: int, m: Node, p: int)
    requires
        spec_unary(toks, pos) == parsed((m, p)),
        pos <= p <= toks.len(),
        !sym_at(toks, p, Symbol::Star),
        !sym_at(toks, p, Symbol::Slash),
    ensures
        spec_mul(toks, pos) == parsed((m, p)),
{
}

/// A parsed mul is a parsed additive when no `+` or `-` follows.
proof fn lemma_climb_additive(toks: Seq<Token>, pos: int, m: Node, p: int)
    requires
        spec_mul(toks, pos) == parsed((m, p)),
        pos <= p <= toks.len(),
        !sym_at(toks, p, Symbol::Plus),
        !sym_at(toks, p, Symbol::Minus),
    ensures
        spec_additive(toks, pos) == parsed((m, p)),
{
}

/// A parsed additive is a parsed relational when no comparison follows.
proof fn lemma_climb_relational(toks: Seq<Token>, pos: int, m: Node, p: int)
    requires
        spec_additive(toks, pos) == parsed((m, p)),
        pos <= p <= toks.len(),
        !sym_at(toks, p, Symbol::Lt),
        !sym_at(toks, p, Symbol::Le),
        !sym_at(toks, p, Symbol::Gt),
        !sym_at(toks, p, Symbol::Ge),
    ensures
        spec_relational(toks, pos) == parsed((m, p)),
{
}

/// A parsed relational is a parsed expression when no `==` or `!=`
/// follows.
proof fn lemma_climb_equality(toks: Seq<Token>, pos: int, m: Node, p: int)
    requires
        spec_relational(toks, pos) == parsed((m, p)),
        pos <= p <= toks.len(),
        !sym_at(toks, p, Symbol::EqEq),
        !sym_at(toks, p, Symbol::NotEq),
    ensures
        spec_equality(toks, pos) == parsed((m, p)),
        spec_expr(toks, pos) == parsed((m, p)),
{
}

/// A rendering placed anywhere in a token sequence parses as a primary,
/// back to exactly the tree it came from.
proof fn lemma_primary_of_tokens(n: Node, toks: Seq<Token>, pos: int)
    requires
        seg(toks, pos, tokens_of(n)),
    ensures
        spec_primary(toks, pos) == parsed((n, pos + tokens_of(n).len())),
    decreases n, 1int,
{
    match n {
        Node::Number(v) => {
            assert(toks[pos + 0] == tokens_of(n)[0]);
        },
        Node::Add { lhs, rhs } => {
            lemma_bin_of_tokens(n, Symbol::Plus, *lhs, *rhs, toks, pos);
        },
        Node::Sub { lhs, rhs } => {
            lemma_bin_of_tokens(n, Symbol::Minus, *lhs, *rhs, toks, pos);
        },
        Node::Mul { lhs, rhs } => {
            lemma_bin_of_tokens(n, Symbol::Star, *lhs, *rhs, toks, pos);
        },
        Node::Div { lhs, rhs } => {
            lemma_bin_of_tokens(n, Symbol::Slash, *lhs, *rhs, toks, pos);
        },
        Node::Equal { lhs, rhs } => {
            lemma_bin_of_tokens(n, Symbol::EqEq, *lhs, *rhs, toks, pos);
        },
        Node::NotEqual { lhs, rhs } => {
            lemma_bin_of_tokens(n, Symbol::NotEq, *lhs, *rhs, toks, pos);
        },
        Node::Lt { lhs, rhs } => {
            lemma_bin_of_tokens(n, Symbol::Lt, *lhs, *rhs, toks, pos);
        },
        Node::Lte { lhs, rhs } => {
            lemma_bin_of_tokens(n, Symbol::Le, *lhs, *rhs, toks, pos);
        },
    }
}

/// The binary case of [`lemma_primary_of_tokens`]: `( l s r )` parses as
/// a primary back to `n`.
#[verifier::rlimit(100)]
proof fn lemma_bin_of_tokens(n: Node, s: Symbol, l: Node, r: Node, toks: Seq<Token>, pos: int)
    requires
        bin_shape(n, s, l, r),
        seg(toks, pos, tokens_of(n)),
        decreases_to!(n => l),
        decreases_to!(n => r),
    ensures
        spec_primary(toks, pos) == parsed((n, pos + tokens_of(n).len())),
    decreases n, 0int,
{
    let tl = tokens_of(l);
    let tr = tokens_of(r);
    let a = pos + 1;
    let b = a + tl.len();
    let c = b + 1;
    let d = c + tr.len();
    assert(tokens_of(n) == wrap_tokens(s, tl, tr));
    lemma_seg_parts(toks, pos, s, tl, tr);
    // The left child parses as a primary and climbs: its rendering never
    // starts with a sign.
    lemma_primary_of_tokens(l, toks, a);
    lemma_tokens_of_first(l);
    assert(toks[a + 0] == tl[0]);
    lemma_climb_unary(toks, a, l, b);
    // The right child likewise.
    lemma_primary_of_tokens(r, toks, c);
    lemma_tokens_of_first(r);
    assert(toks[c + 0] == tr[0]);
    lemma_climb_unary(toks, c, r, d);
    // After the whole rendering stands the closing parenthesis, which no
    // fold level consumes.
    assert(sym_at(toks, d, Symbol::RParen));
    if s == Symbol::Star || s == Symbol::Slash {
        reveal_with_fuel(spec_mul_rest, 2);
        assert(spec_mul_rest(toks, b, l) == parsed((n, d)));
        assert(spec_mul(toks, a) == parsed((n, d)));
        lemma_climb_additive(toks, a, n, d);
        lemma_climb_relational(toks, a, n, d);
        lemma_climb_equality(toks, a, n, d);
    } else if s == Symbol::Plus || s == Symbol::Minus {
        lemma_climb_mul(toks, a, l, b);
        lemma_climb_mul(toks, c, r, d);
        reveal_with_fuel(spec_additive_rest, 2);
        assert(spec_additive_rest(toks, b, l) == parsed((n, d)));
        assert(spec_additive(toks, a) == parsed((n, d)));
        lemma_climb_relational(toks, a, n, d);
        lemma_climb_equality(toks, a, n, d);
    } else if s == Symbol::Lt || s == Symbol::Le {
        lemma_climb_mul(toks, a, l, b);
        lemma_climb_additive(toks, a, l, b);
        lemma_climb_mul(toks, c, r, d);
        lemma_climb_additive(toks, c, r, d);
        reveal_with_fuel(spec_relational_rest, 2);
        assert(spec_relational_rest(toks, b, l) == parsed((n, d)));
        assert(spec_relational(toks, a) == parsed((n, d)));
        lemma_climb_equality(toks, a, n, d);
    } else {
        lemma_climb_mul(toks, a, l, b);
        lemma_climb_additive(toks, a, l, b);
        lemma_climb_relational(toks, a, l, b);
        lemma_climb_mul(toks, c, r, d);
        lemma_climb_additive(toks, c, r, d);
        lemma_climb_relational(toks, c, r, d);
        reveal_with_fuel(spec_equality_rest, 2);
        assert(spec_equality_rest(toks, b, l) == parsed((n, d)));
        assert(spec_equality(toks, a) == parsed((n, d)));
        assert(spec_expr(toks, a) == parsed((n, d)));
    }
    assert(sym_at(toks, pos, Symbol::LParen));
    assert(spec_primary(toks, pos) == parsed((n, d + 1)));
}

/// The parser is total and exact on well-formed input: the fully
/// parenthesized rendering of any tree parses, consumes every token, and
/// gives back exactly the tree it was rendered from.  Since the tree
/// comes back unchanged, anything computed from it -- its value under
/// [`crate::machine::eval`] included -- is preserved by the round trip.
pub proof fn lemma_parse_round_trip(n: Node)
    ensures
        spec_expr(tokens_of(n), 0) == parsed((n, tokens_of(n).len() as int)),
        spec_parse(tokens_of(n)) == Ok::<Node, int>(n),
{
    let toks = tokens_of(n);
    let p = toks.len() as int;
    assert(seg(toks, 0, toks));
    lemma_primary_of_tokens(n, toks, 0);
    lemma_tokens_of_first(n);
    lemma_climb_unary(toks, 0, n, p);
    lemma_climb_mul(toks, 0, n, p);
    lemma_climb_additive(toks, 0, n, p);
    lemma_climb_relational(toks, 0, n, p);
    lemma_climb_equality(toks, 0, n, p);
}

} // verus!
