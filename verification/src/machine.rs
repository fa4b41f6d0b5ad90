//! The target stack machine, and what expression trees mean on it.
//!
//! The code generator emits programs for a stack machine: an instruction
//! either pushes a literal or pops two operands (right first), applies a
//! binary operator in 64-bit two's-complement arithmetic, and pushes the
//! result.  [`run`] is the machine's small-step semantics at the spec
//! level; [`execute`] is a verified interpreter for it; [`eval`] gives the
//! value of a tree directly, and the code generator's contract connects
//! the two.
//!
//! Arithmetic follows the machine, not mathematics: add, subtract and
//! multiply wrap silently at 64 bits, while division by zero, and the
//! minimum representable value divided by minus one, trap (the machine
//! yields no value).  Comparisons are signed and produce 1 or 0.  A
//! 32-bit literal is pushed zero-extended: how a wide literal is extended
//! is left to the execution environment by design, and this model fixes
//! zero-extension, so literals at or above 2^31 stay positive here where
//! a target that sign-extends its push immediates would make them
//! negative (or reject them).

use vstd::prelude::*;

use crate::parser::Node;

verus! {

/// One stack-machine instruction.  `Push` pushes a literal; every other
/// instruction pops the right operand, then the left, and pushes the
/// result of the operator named.
#[derive(Clone, Copy, PartialEq, Eq, Structural, Debug)]
pub enum Instr {
    Push(u32),
    Add,
    Sub,
    Mul,
    Div,
    Eq,
    Ne,
    Lt,
    Le,
}

/// What a binary instruction computes from its two operands, or `None`
/// when it traps: division by zero, or `i64::MIN / -1`.  `Push` is not a
/// binary instruction and yields nothing.
pub open spec fn binop_result(i: Instr, a: i64, b: i64) -> Option<i64> {
    match i {
        Instr::Push(_) => None,
        Instr::Add => Some(a.wrapping_add(b)),
        Instr::Sub => Some(a.wrapping_sub(b)),
        Instr::Mul => Some(a.wrapping_mul(b)),
        Instr::Div => a.checked_div(b),
        Instr::Eq => Some(if a == b { 1i64 } else { 0i64 }),
        Instr::Ne => Some(if a != b { 1i64 } else { 0i64 }),
        Instr::Lt => Some(if a < b { 1i64 } else { 0i64 }),
        Instr::Le => Some(if a <= b { 1i64 } else { 0i64 }),
    }
}

/// One machine step: the stack after `i`, or `None` when the machine
/// traps (an operand is missing, or the operator does).
pub open spec fn step(i: Instr, stack: Seq<i64>) -> Option<Seq<i64>> {
    match i {
        Instr::Push(v) => Some(stack.push(v as i64)),
        _ => {
            if stack.len() >= 2 {
                let b = stack[stack.len() - 1];
                let a = stack[stack.len() - 2];
                match binop_result(i, a, b) {
                    Some(v) => Some(stack.take(stack.len() - 2).push(v)),
                    None => None,
                }
            } else {
                None
            }
        },
    }
}

/// Run a whole program from a starting stack.
pub open spec fn run(prog: Seq<Instr>, stack: Seq<i64>) -> Option<Seq<i64>>
    decreases prog.len(),
{
    if prog.len() == 0 {
        Some(stack)
    } else {
        match step(prog[0], stack) {
            Some(st) => run(prog.skip(1), st),
            None => None,
        }
    }
}

/// What a program started on an empty stack leaves in the return
/// register: the top of the final stack, or `None` when the machine
/// trapped or finished with an empty stack.
pub open spec fn spec_execute(prog: Seq<Instr>) -> Option<i64> {
    match run(prog, Seq::empty()) {
        Some(st) => if st.len() >= 1 {
            Some(st.last())
        } else {
            None
        },
        None => None,
    }
}

/// The value of an expression tree under the machine's arithmetic, or
/// `None` when evaluating it would trap in a division.
pub open spec fn eval(n: Node) -> Option<i64>
    decreases n,
{
    match n {
        Node::Number(v) => Some(v as i64),
        Node::Add { lhs, rhs } => match (eval(*lhs), eval(*rhs)) {
            (Some(a), Some(b)) => Some(a.wrapping_add(b)),
            _ => None,
        },
        Node::Sub { lhs, rhs } => match (eval(*lhs), eval(*rhs)) {
            (Some(a), Some(b)) => Some(a.wrapping_sub(b)),
            _ => None,
        },
        Node::Mul { lhs, rhs } => match (eval(*lhs), eval(*rhs)) {
            (Some(a), Some(b)) => Some(a.wrapping_mul(b)),
            _ => None,
        },
        Node::Div { lhs, rhs } => match (eval(*lhs), eval(*rhs)) {
            (Some(a), Some(b)) => a.checked_div(b),
            _ => None,
        },
        Node::Equal { lhs, rhs } => match (eval(*lhs), eval(*rhs)) {
            (Some(a), Some(b)) => Some(if a == b { 1i64 } else { 0i64 }),
            _ => None,
        },
        Node::NotEqual { lhs, rhs } => match (eval(*lhs), eval(*rhs)) {
            (Some(a), Some(b)) => Some(if a != b { 1i64 } else { 0i64 }),
            _ => None,
        },
        Node::Lt { lhs, rhs } => match (eval(*lhs), eval(*rhs)) {
            (Some(a), Some(b)) => Some(if a < b { 1i64 } else { 0i64 }),
            _ => None,
        },
        Node::Lte { lhs, rhs } => match (eval(*lhs), eval(*rhs)) {
            (Some(a), Some(b)) => Some(if a <= b { 1i64 } else { 0i64 }),
            _ => None,
        },
    }
}

/// Running a concatenation runs the first part, then the second from
/// where the first left off.
pub proof fn lemma_run_append(a: Seq<Instr>, b: Seq<Instr>, stack: Seq<i64>)
    ensures
        run(a + b, stack) == match run(a, stack) {
            Some(m) => run(b, m),
            None => None,
        },
    decreases a.len(),
{
    if a.len() == 0 {
        assert(a + b =~= b);
    } else {
        assert((a + b)[0] == a[0]);
        match step(a[0], stack) {
            Some(st) => {
                assert((a + b).skip(1) =~= a.skip(1) + b);
                lemma_run_append(a.skip(1), b, st);
            },
            None => {},
        }
    }
}

/// What one binary instruction computes, executably.
fn apply_binop(i: Instr, a: i64, b: i64) -> (r: Option<i64>)
    ensures
        r == binop_result(i, a, b),
{
    match i {
        Instr::Push(_) => None,
        Instr::Add => Some(a.wrapping_add(b)),
        Instr::Sub => Some(a.wrapping_sub(b)),
        Instr::Mul => Some(a.wrapping_mul(b)),
        Instr::Div => a.checked_div(b),
        Instr::Eq => Some(if a == b { 1i64 } else { 0i64 }),
        Instr::Ne => Some(if a != b { 1i64 } else { 0i64 }),
        Instr::Lt => Some(if a < b { 1i64 } else { 0i64 }),
        Instr::Le => Some(if a <= b { 1i64 } else { 0i64 }),
    }
}

/// Interpret a program on the stack machine, starting from an empty
/// stack: exactly what [`spec_execute`] says, including every trap.
pub fn execute(prog: &Vec<Instr>) -> (r: Option<i64>)
    ensures
        r == spec_execute(prog@),
{
    let mut stack: Vec<i64> = Vec::new();
    let mut i: usize = 0;
    while i < prog.len()
        invariant
            i <= prog@.len(),
            run(prog@.take(i as int), Seq::empty()) == Some(stack@),
        decreases prog@.len() - i,
    {
        let ins = prog[i];
        let ghost stack0 = stack@;
        proof {
            reveal_with_fuel(run, 2);
            assert(prog@.take(i + 1) =~= prog@.take(i as int) + seq![prog@[i as int]]);
            lemma_run_append(prog@.take(i as int), seq![prog@[i as int]], Seq::empty());
            assert(seq![prog@[i as int]].skip(1) =~= Seq::<Instr>::empty());
        }
        match ins {
            Instr::Push(v) => {
                stack.push(v as i64);
            },
            _ => {
                if stack.len() < 2 {
                    proof {
                        assert(prog@ =~= prog@.take(i as int) + prog@.skip(i as int));
                        lemma_run_append(prog@.take(i as int), prog@.skip(i as int), Seq::empty());
                        assert(prog@.skip(i as int)[0] == prog@[i as int]);
                    }
                    return None;
                }
                let b = stack.pop().unwrap();
                let a = stack.pop().unwrap();
                match apply_binop(ins, a, b) {
                    Some(v) => {
                        stack.push(v);
                        proof {
                            assert(stack@ =~= stack0.take(stack0.len() - 2).push(v));
                        }
                    },
                    None => {
                        proof {
                            assert(prog@ =~= prog@.take(i as int) + prog@.skip(i as int));
                            lemma_run_append(
                                prog@.take(i as int),
                                prog@.skip(i as int),
                                Seq::empty(),
                            );
                            assert(prog@.skip(i as int)[0] == prog@[i as int]);
                        }
                        return None;
                    },
                }
            },
        }
        i = i + 1;
    }
    proof {
        assert(prog@.take(prog@.len() as int) =~= prog@);
    }
    if stack.len() >= 1 {
        Some(stack[stack.len() - 1])
    } else {
        None
    }
}

} // verus!
