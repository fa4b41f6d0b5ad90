//! Code generation: flattening an expression tree into stack-machine
//! instructions and rendering them as assembly text.
//!
//! The flattening is the classic post-order walk: code for the left
//! subtree (leaves its value on the stack), code for the right subtree
//! (leaves its value on top of that), then the operator instruction, which
//! pops the right operand first and the left second.  [`instructions`]
//! carries the correctness statement: running its output on the stack
//! machine yields exactly [`eval`] of the tree, traps included.
//!
//! [`codegen`] renders a whole program as text, one line per instruction:
//! a syntax directive, the global entry symbol and its label, the
//! instruction lines (each starting with a tab), and a closing pop into
//! the return register followed by a return.

use vstd::prelude::*;

use vstd::string::StringExecFns;

use crate::machine::{binop_result, eval, run, spec_execute, Instr};
use crate::parser::Node;

verus! {

/// The instruction sequence a tree compiles to.
pub open spec fn instrs_of(n: Node) -> Seq<Instr>
    decreases n,
{
    match n {
        Node::Number(v) => seq![Instr::Push(v)],
        Node::Add { lhs, rhs } => instrs_of(*lhs) + instrs_of(*rhs) + seq![Instr::Add],
        Node::Sub { lhs, rhs } => instrs_of(*lhs) + instrs_of(*rhs) + seq![Instr::Sub],
        Node::Mul { lhs, rhs } => instrs_of(*lhs) + instrs_of(*rhs) + seq![Instr::Mul],
        Node::Div { lhs, rhs } => instrs_of(*lhs) + instrs_of(*rhs) + seq![Instr::Div],
        Node::Equal { lhs, rhs } => instrs_of(*lhs) + instrs_of(*rhs) + seq![Instr::Eq],
        Node::NotEqual { lhs, rhs } => instrs_of(*lhs) + instrs_of(*rhs) + seq![Instr::Ne],
        Node::Lt { lhs, rhs } => instrs_of(*lhs) + instrs_of(*rhs) + seq![Instr::Lt],
        Node::Lte { lhs, rhs } => instrs_of(*lhs) + instrs_of(*rhs) + seq![Instr::Le],
    }
}

/// Running one binary instruction on a stack ending in its two operands
/// applies [`binop_result`] to them.
proof fn lemma_bin_tail(op: Instr, a: i64, b: i64, rest: Seq<Instr>, stack: Seq<i64>)
    requires
        !(op is Push),
    ensures
        run(seq![op] + rest, stack.push(a).push(b)) == match binop_result(op, a, b) {
            Some(v) => run(rest, stack.push(v)),
            None => None,
        },
{
    let st = stack.push(a).push(b);
    assert(st[st.len() - 1] == b);
    assert(st[st.len() - 2] == a);
    assert((seq![op] + rest)[0] == op);
    assert((seq![op] + rest).skip(1) =~= rest);
    assert(st.take(st.len() - 2) =~= stack);
}

/// The central fact about the generated code: run from any stack, the
/// instructions for a tree either leave exactly the tree's value on top
/// of it (and then the rest of the program runs), or trap exactly when
/// evaluating the tree traps.
pub proof fn lemma_compile_correct(n: Node, rest: Seq<Instr>, stack: Seq<i64>)
    ensures
        run(instrs_of(n) + rest, stack) == match eval(n) {
            Some(v) => run(rest, stack.push(v)),
            None => None,
        },
    decreases n, 1int,
{
    match n {
        Node::Number(v) => {
            assert((instrs_of(n) + rest)[0] == Instr::Push(v));
            assert((instrs_of(n) + rest).skip(1) =~= rest);
        },
        Node::Add { lhs, rhs } => {
            lemma_compile_bin(n, Instr::Add, *lhs, *rhs, rest, stack);
        },
        Node::Sub { lhs, rhs } => {
            lemma_compile_bin(n, Instr::Sub, *lhs, *rhs, rest, stack);
        },
        Node::Mul { lhs, rhs } => {
            lemma_compile_bin(n, Instr::Mul, *lhs, *rhs, rest, stack);
        },
        Node::Div { lhs, rhs } => {
            lemma_compile_bin(n, Instr::Div, *lhs, *rhs, rest, stack);
        },
        Node::Equal { lhs, rhs } => {
            lemma_compile_bin(n, Instr::Eq, *lhs, *rhs, rest, stack);
        },
        Node::NotEqual { lhs, rhs } => {
            lemma_compile_bin(n, Instr::Ne, *lhs, *rhs, rest, stack);
        },
        Node::Lt { lhs, rhs } => {
            lemma_compile_bin(n, Instr::Lt, *lhs, *rhs, rest, stack);
        },
        Node::Lte { lhs, rhs } => {
            lemma_compile_bin(n, Instr::Le, *lhs, *rhs, rest, stack);
        },
    }
}

/// One binary case of [`lemma_compile_correct`]: `n` is the binary node
/// with operator instruction `op` and children `l` and `r`.
proof fn lemma_compile_bin(n: Node, op: Instr, l: Node, r: Node, rest: Seq<Instr>, stack: Seq<i64>)
    requires
        !(op is Push),
        instrs_of(n) == instrs_of(l) + instrs_of(r) + seq![op],
        eval(n) == match (eval(l), eval(r)) {
            (Some(a), Some(b)) => binop_result(op, a, b),
            _ => None::<i64>,
        },
        decreases_to!(n => l),
        decreases_to!(n => r),
    ensures
        run(instrs_of(n) + rest, stack) == match eval(n) {
            Some(v) => run(rest, stack.push(v)),
            None => None,
        },
    decreases n, 0int,
{
    assert(instrs_of(n) + rest =~= instrs_of(l) + (instrs_of(r) + (seq![op] + rest)));
    lemma_compile_correct(l, instrs_of(r) + (seq![op] + rest), stack);
    match eval(l) {
        Some(a) => {
            lemma_compile_correct(r, seq![op] + rest, stack.push(a));
            match eval(r) {
                Some(b) => {
                    lemma_bin_tail(op, a, b, rest, stack);
                },
                None => {},
            }
        },
        None => {},
    }
}

/// Run on an empty stack, the instructions for a tree compute exactly the
/// tree's value: the compiled program and direct evaluation agree on
/// every tree, traps included.
pub proof fn lemma_codegen_correct(n: Node)
    ensures
        spec_execute(instrs_of(n)) == eval(n),
{
    lemma_compile_correct(n, Seq::empty(), Seq::empty());
    assert(instrs_of(n) + Seq::<Instr>::empty() =~= instrs_of(n));
    match eval(n) {
        Some(v) => {
            assert(run(Seq::<Instr>::empty(), Seq::<i64>::empty().push(v)) == Some(
                Seq::<i64>::empty().push(v),
            ));
            assert(Seq::<i64>::empty().push(v).last() == v);
        },
        None => {},
    }
}

/// Flatten a tree into its stack-machine program.  The second clause is
/// the compiler's correctness: executing the result computes the tree's
/// value.
pub fn instructions(node: &Node) -> (r: Vec<Instr>)
    ensures
        r@ == instrs_of(*node),
        spec_execute(r@) == eval(*node),
    decreases *node, 1int,
{
    proof {
        lemma_codegen_correct(*node);
    }
    match node {
        Node::Number(v) => {
            let mut r: Vec<Instr> = Vec::new();
            r.push(Instr::Push(*v));
            proof {
                assert(r@ =~= instrs_of(*node));
            }
            r
        },
        Node::Add { lhs, rhs } => instructions_bin(Instr::Add, lhs, rhs, Ghost(*node)),
        Node::Sub { lhs, rhs } => instructions_bin(Instr::Sub, lhs, rhs, Ghost(*node)),
        Node::Mul { lhs, rhs } => instructions_bin(Instr::Mul, lhs, rhs, Ghost(*node)),
        Node::Div { lhs, rhs } => instructions_bin(Instr::Div, lhs, rhs, Ghost(*node)),
        Node::Equal { lhs, rhs } => instructions_bin(Instr::Eq, lhs, rhs, Ghost(*node)),
        Node::NotEqual { lhs, rhs } => instructions_bin(Instr::Ne, lhs, rhs, Ghost(*node)),
        Node::Lt { lhs, rhs } => instructions_bin(Instr::Lt, lhs, rhs, Ghost(*node)),
        Node::Lte { lhs, rhs } => instructions_bin(Instr::Le, lhs, rhs, Ghost(*node)),
    }
}

/// The shared binary case of [`instructions`].
fn instructions_bin(op: Instr, lhs: &Node, rhs: &Node, whole: Ghost<Node>) -> (r: Vec<Instr>)
    requires
        instrs_of(whole@) == instrs_of(*lhs) + instrs_of(*rhs) + seq![op],
        decreases_to!(whole@ => *lhs),
        decreases_to!(whole@ => *rhs),
    ensures
        r@ == instrs_of(whole@),
    decreases whole@, 0int,
{
    let mut r = instructions(lhs);
    let mut rr = instructions(rhs);
    r.append(&mut rr);
    r.push(op);
    proof {
        assert(r@ =~= instrs_of(whole@));
    }
    r
}

/// The character for one decimal digit.
pub open spec fn digit_char(d: nat) -> char {
    if d == 0 {
        '0'
    } else if d == 1 {
        '1'
    } else if d == 2 {
        '2'
    } else if d == 3 {
        '3'
    } else if d == 4 {
        '4'
    } else if d == 5 {
        '5'
    } else if d == 6 {
        '6'
    } else if d == 7 {
        '7'
    } else if d == 8 {
        '8'
    } else {
        '9'
    }
}

/// The decimal rendering of a number, most significant digit first, with
/// no leading zero except for the number zero itself.
pub open spec fn dec_rep(n: nat) -> Seq<char>
    decreases n,
{
    if n < 10 {
        seq![digit_char(n)]
    } else {
        dec_rep(n / 10) + seq![digit_char(n % 10)]
    }
}

/// The text lines one instruction renders to, tab included.
pub open spec fn lines_of_instr(i: Instr) -> Seq<Seq<char>> {
    match i {
        Instr::Push(v) => seq!["\tpush "@ + dec_rep(v as nat)],
        Instr::Add => seq!["\tpop rdi"@, "\tpop rax"@, "\tadd rax, rdi"@, "\tpush rax"@],
        Instr::Sub => seq!["\tpop rdi"@, "\tpop rax"@, "\tsub rax, rdi"@, "\tpush rax"@],
        Instr::Mul => seq!["\tpop rdi"@, "\tpop rax"@, "\timul rax, rdi"@, "\tpush rax"@],
        Instr::Div => seq![
            "\tpop rdi"@,
            "\tpop rax"@,
            "\tcqo"@,
            "\tidiv rdi"@,
            "\tpush rax"@,
        ],
        Instr::Eq => seq![
            "\tpop rdi"@,
            "\tpop rax"@,
            "\tcmp rax, rdi"@,
            "\tsete al"@,
            "\tmovzb rax, al"@,
            "\tpush rax"@,
        ],
        Instr::Ne => seq![
            "\tpop rdi"@,
            "\tpop rax"@,
            "\tcmp rax, rdi"@,
            "\tsetne al"@,
            "\tmovzb rax, al"@,
            "\tpush rax"@,
        ],
        Instr::Lt => seq![
            "\tpop rdi"@,
            "\tpop rax"@,
            "\tcmp rax, rdi"@,
            "\tsetl al"@,
            "\tmovzb rax, al"@,
            "\tpush rax"@,
        ],
        Instr::Le => seq![
            "\tpop rdi"@,
            "\tpop rax"@,
            "\tcmp rax, rdi"@,
            "\tsetle al"@,
            "\tmovzb rax, al"@,
            "\tpush rax"@,
        ],
    }
}

/// The text lines a whole instruction sequence renders to.
pub open spec fn asm_lines(prog: Seq<Instr>) -> Seq<Seq<char>>
    decreases prog.len(),
{
    if prog.len() == 0 {
        Seq::empty()
    } else {
        lines_of_instr(prog[0]) + asm_lines(prog.skip(1))
    }
}

/// The full program text for a tree: directives and entry label, the
/// instruction lines, then pop into the return register and return.
pub open spec fn program_lines(n: Node) -> Seq<Seq<char>> {
    seq![".intel_syntax noprefix"@, ".global main"@, "main:"@] + asm_lines(instrs_of(n)) + seq![
        "\tpop rax"@,
        "\tret"@,
    ]
}

proof fn lemma_asm_lines_append(a: Seq<Instr>, b: Seq<Instr>)
    ensures
        asm_lines(a + b) == asm_lines(a) + asm_lines(b),
    decreases a.len(),
{
    if a.len() == 0 {
        assert(a + b =~= b);
        assert(asm_lines(a) + asm_lines(b) =~= asm_lines(b));
    } else {
        assert((a + b)[0] == a[0]);
        assert((a + b).skip(1) =~= a.skip(1) + b);
        lemma_asm_lines_append(a.skip(1), b);
        assert(lines_of_instr(a[0]) + (asm_lines(a.skip(1)) + asm_lines(b)) =~= (lines_of_instr(
            a[0],
        ) + asm_lines(a.skip(1))) + asm_lines(b));
    }
}

/// One digit as text.
fn digit_str(d: u32) -> (r: &'static str)
    requires
        d < 10,
    ensures
        r@ == seq![digit_char(d as nat)],
{
    proof {
        reveal_strlit("0");
        reveal_strlit("1");
        reveal_strlit("2");
        reveal_strlit("3");
        reveal_strlit("4");
        reveal_strlit("5");
        reveal_strlit("6");
        reveal_strlit("7");
        reveal_strlit("8");
        reveal_strlit("9");
    }
    let r: &'static str = if d == 0 {
        "0"
    } else if d == 1 {
        "1"
    } else if d == 2 {
        "2"
    } else if d == 3 {
        "3"
    } else if d == 4 {
        "4"
    } else if d == 5 {
        "5"
    } else if d == 6 {
        "6"
    } else if d == 7 {
        "7"
    } else if d == 8 {
        "8"
    } else {
        "9"
    };
    proof {
        assert(r@ =~= seq![digit_char(d as nat)]);
    }
    r
}

/// Append the decimal rendering of `n` to `s`.
fn push_dec(s: &mut String, n: u32)
    ensures
        final(s)@ == old(s)@ + dec_rep(n as nat),
    decreases n,
{
    if n < 10 {
        s.append(digit_str(n));
    } else {
        push_dec(s, n / 10);
        s.append(digit_str(n % 10));
        proof {
            assert(old(s)@ + dec_rep((n / 10) as nat) + seq![digit_char((n % 10) as nat)] =~= old(
                s,
            )@ + dec_rep(n as nat));
        }
    }
}

/// The text of a push-literal instruction.
fn push_line(v: u32) -> (s: String)
    ensures
        s@ == "\tpush "@ + dec_rep(v as nat),
{
    let mut s = String::from_str("\tpush ");
    push_dec(&mut s, v);
    s
}

/// Append one literal line to the output.
fn push_lit(out: &mut Vec<String>, s: &str)
    ensures
        final(out).deep_view() == old(out).deep_view() + seq![s@],
{
    out.push(String::from_str(s));
    proof {
        assert(out.deep_view() =~= old(out).deep_view() + seq![s@]);
    }
}

/// Append the text lines of one instruction to the output.
fn emit_instr(ins: Instr, out: &mut Vec<String>)
    ensures
        final(out).deep_view() == old(out).deep_view() + lines_of_instr(ins),
{
    match ins {
        Instr::Push(v) => {
            out.push(push_line(v));
            proof {
                assert(out.deep_view() =~= old(out).deep_view() + lines_of_instr(ins));
            }
        },
        Instr::Add => {
            push_lit(out, "\tpop rdi");
            push_lit(out, "\tpop rax");
            push_lit(out, "\tadd rax, rdi");
            push_lit(out, "\tpush rax");
            proof {
                assert(out.deep_view() =~= old(out).deep_view() + lines_of_instr(ins));
            }
        },
        Instr::Sub => {
            push_lit(out, "\tpop rdi");
            push_lit(out, "\tpop rax");
            push_lit(out, "\tsub rax, rdi");
            push_lit(out, "\tpush rax");
            proof {
                assert(out.deep_view() =~= old(out).deep_view() + lines_of_instr(ins));
            }
        },
        Instr::Mul => {
            push_lit(out, "\tpop rdi");
            push_lit(out, "\tpop rax");
            push_lit(out, "\timul rax, rdi");
            push_lit(out, "\tpush rax");
            proof {
                assert(out.deep_view() =~= old(out).deep_view() + lines_of_instr(ins));
            }
        },
        Instr::Div => {
            push_lit(out, "\tpop rdi");
            push_lit(out, "\tpop rax");
            push_lit(out, "\tcqo");
            push_lit(out, "\tidiv rdi");
            push_lit(out, "\tpush rax");
            proof {
                assert(out.deep_view() =~= old(out).deep_view() + lines_of_instr(ins));
            }
        },
        Instr::Eq => {
            push_lit(out, "\tpop rdi");
            push_lit(out, "\tpop rax");
            push_lit(out, "\tcmp rax, rdi");
            push_lit(out, "\tsete al");
            push_lit(out, "\tmovzb rax, al");
            push_lit(out, "\tpush rax");
            proof {
                assert(out.deep_view() =~= old(out).deep_view() + lines_of_instr(ins));
            }
        },
        Instr::Ne => {
            push_lit(out, "\tpop rdi");
            push_lit(out, "\tpop rax");
            push_lit(out, "\tcmp rax, rdi");
            push_lit(out, "\tsetne al");
            push_lit(out, "\tmovzb rax, al");
            push_lit(out, "\tpush rax");
            proof {
                assert(out.deep_view() =~= old(out).deep_view() + lines_of_instr(ins));
            }
        },
        Instr::Lt => {
            push_lit(out, "\tpop rdi");
            push_lit(out, "\tpop rax");
            push_lit(out, "\tcmp rax, rdi");
            push_lit(out, "\tsetl al");
            push_lit(out, "\tmovzb rax, al");
            push_lit(out, "\tpush rax");
            proof {
                assert(out.deep_view() =~= old(out).deep_view() + lines_of_instr(ins));
            }
        },
        Instr::Le => {
            push_lit(out, "\tpop rdi");
            push_lit(out, "\tpop rax");
            push_lit(out, "\tcmp rax, rdi");
            push_lit(out, "\tsetle al");
            push_lit(out, "\tmovzb rax, al");
            push_lit(out, "\tpush rax");
            proof {
                assert(out.deep_view() =~= old(out).deep_view() + lines_of_instr(ins));
            }
        },
    }
}

/// Append the instruction text for a whole tree to the output: the
/// post-order walk of the code generator.
pub fn gen(node: &Node, out: &mut Vec<String>)
    ensures
        final(out).deep_view() == old(out).deep_view() + asm_lines(instrs_of(*node)),
{
    let instrs = instructions(node);
    let mut i: usize = 0;
    while i < instrs.len()
        invariant
            i <= instrs@.len(),
            instrs@ == instrs_of(*node),
            out.deep_view() == old(out).deep_view() + asm_lines(instrs@.take(i as int)),
        decreases instrs@.len() - i,
    {
        proof {
            reveal_with_fuel(asm_lines, 2);
            assert(instrs@.take(i + 1) =~= instrs@.take(i as int) + seq![instrs@[i as int]]);
            lemma_asm_lines_append(instrs@.take(i as int), seq![instrs@[i as int]]);
            assert(seq![instrs@[i as int]].skip(1) =~= Seq::<Instr>::empty());
        }
        emit_instr(instrs[i], out);
        proof {
            assert(out.deep_view() =~= old(out).deep_view() + asm_lines(instrs@.take(i + 1)));
        }
        i = i + 1;
    }
    proof {
        assert(instrs@.take(instrs@.len() as int) =~= instrs@);
    }
}

/// Generate the whole assembly text for a tree, one line per entry: the
/// directives and entry label, the instruction lines, then the closing
/// pop into the return register and the return.
pub fn codegen(node: &Node) -> (out: Vec<String>)
    ensures
        out.deep_view() == program_lines(*node),
{
    let mut out: Vec<String> = Vec::new();
    push_lit(&mut out, ".intel_syntax noprefix");
    push_lit(&mut out, ".global main");
    push_lit(&mut out, "main:");
    gen(node, &mut out);
    push_lit(&mut out, "\tpop rax");
    push_lit(&mut out, "\tret");
    proof {
        assert(out.deep_view() =~= program_lines(*node));
    }
    out
}

} // verus!
