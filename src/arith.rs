//! What compiled arithmetic computes: an expression made of number literals
//! and the operators `+`, `-` and `<`, compiled and run, leaves exactly its
//! value on the stack.
use crate::eval::{
    advance, binary_step, block_code, decimal_value, emit, empty_program, expression_code, fits_value,
    initial_state, operator_instruction, program_of, run, statement_code, step, valid_numeral, CompileError,
    Instruction, ProgramModel, RuntimeError, VmState,
};
use crate::parse::{Expression, Literal, Statement};
use vstd::prelude::*;

verus! {

/// An expression of number literals that the compiler accepts, combined by
/// `+`, `-` and `<`.
pub open spec fn is_arithmetic(e: Expression) -> bool
    decreases e,
{
    match e {
        Expression::Literal(Literal::Number(t)) => valid_numeral(t.value@),
        Expression::BinaryOperation(b) => operator_instruction(b.operator.value@) is Some
            && is_arithmetic(*b.left) && is_arithmetic(*b.right),
        _ => false,
    }
}

/// The value of an arithmetic expression, its operands taken left to right:
/// `a - b` subtracts `b` from `a`, and `a < b` is 1 when `a` is less than
/// `b` and 0 otherwise.
pub open spec fn arithmetic_value(e: Expression) -> int
    decreases e,
{
    match e {
        Expression::Literal(Literal::Number(t)) => decimal_value(t.value@),
        Expression::BinaryOperation(b) => {
            let l = arithmetic_value(*b.left);
            let r = arithmetic_value(*b.right);
            match operator_instruction(b.operator.value@) {
                Some(Instruction::Add) => l + r,
                Some(Instruction::Subtract) => l - r,
                _ => if l < r { 1 } else { 0 },
            }
        },
        _ => 0,
    }
}

/// Every part of the expression has a value that fits in an `i32`.
pub open spec fn stays_in_range(e: Expression) -> bool
    decreases e,
{
    fits_value(arithmetic_value(e)) && match e {
        Expression::BinaryOperation(b) => stays_in_range(*b.left) && stays_in_range(*b.right),
        _ => true,
    }
}

/// Exactly `n` steps from `s`, or fewer where the program ends first.
pub open spec fn steps(p: ProgramModel, s: VmState, n: nat) -> Result<VmState, RuntimeError>
    decreases n,
{
    if n == 0 || s.pc >= p.instructions.len() {
        Ok(s)
    } else {
        match step(p, s) {
            Err(e) => Err(e),
            Ok(next) => steps(p, next, (n - 1) as nat),
        }
    }
}

proof fn lemma_steps_compose(p: ProgramModel, s: VmState, a: nat, b: nat)
    requires
        steps(p, s, a) is Ok,
    ensures
        steps(p, s, a + b) == steps(p, steps(p, s, a)->Ok_0, b),
    decreases a,
{
    if a > 0 && s.pc < p.instructions.len() {
        let next = step(p, s)->Ok_0;
        lemma_steps_compose(p, next, (a - 1) as nat, b);
        assert((a + b - 1) as nat == ((a - 1) as nat + b) as nat);
    }
}

proof fn lemma_run_after_steps(p: ProgramModel, s: VmState, n: nat, fuel: nat)
    requires
        steps(p, s, n) is Ok,
        n <= fuel,
    ensures
        run(p, s, fuel) == run(p, steps(p, s, n)->Ok_0, (fuel - n) as nat),
    decreases n,
{
    if n > 0 && s.pc < p.instructions.len() {
        let next = step(p, s)->Ok_0;
        lemma_run_after_steps(p, next, (n - 1) as nat, (fuel - 1) as nat);
    }
}

/// Code of an arithmetic expression, placed in a program at the program
/// counter, pushes the expression's value and moves on past itself.
proof fn lemma_arithmetic_code(p: ProgramModel, s: VmState, e: Expression, locals: Seq<Seq<char>>)
    requires
        is_arithmetic(e),
        stays_in_range(e),
    ensures
        expression_code(e, locals) is Ok,
        ({
            let c = expression_code(e, locals)->Ok_0;
            s.pc + c.len() <= p.instructions.len() && p.instructions.subrange(
                s.pc as int,
                (s.pc + c.len()) as int,
            ) == c ==> steps(p, s, c.len()) == Ok::<VmState, RuntimeError>(
                VmState {
                    pc: s.pc + c.len(),
                    fp: s.fp,
                    stack: s.stack.push(arithmetic_value(e) as i32),
                    output: s.output,
                },
            )
        }),
    decreases e,
{
    match e {
        Expression::Literal(Literal::Number(t)) => {
            let c = expression_code(e, locals)->Ok_0;
            if s.pc + c.len() <= p.instructions.len() && p.instructions.subrange(
                s.pc as int,
                (s.pc + c.len()) as int,
            ) == c {
                assert(p.instructions[s.pc as int] == c[0]);
                let next = step(p, s)->Ok_0;
                assert(steps(p, next, 0) == Ok::<VmState, RuntimeError>(next));
            }
        },
        Expression::BinaryOperation(b) => {
            lemma_arithmetic_code(p, s, *b.left, locals);
            let l = expression_code(*b.left, locals)->Ok_0;
            let op = operator_instruction(b.operator.value@)->Some_0;
            let vl = arithmetic_value(*b.left) as i32;
            let s1 = VmState { pc: s.pc + l.len(), fp: s.fp, stack: s.stack.push(vl), output: s.output };
            lemma_arithmetic_code(p, s1, *b.right, locals);
            let r = expression_code(*b.right, locals)->Ok_0;
            let c = expression_code(e, locals)->Ok_0;
            assert(c == l + r + seq![op]);
            if s.pc + c.len() <= p.instructions.len() && p.instructions.subrange(
                s.pc as int,
                (s.pc + c.len()) as int,
            ) == c {
                let ins = p.instructions;
                assert(ins.subrange(s.pc as int, (s.pc + l.len()) as int) =~= c.subrange(0, l.len() as int));
                assert(c.subrange(0, l.len() as int) =~= l);
                assert(ins.subrange(s1.pc as int, (s1.pc + r.len()) as int) =~= c.subrange(
                    l.len() as int,
                    (l.len() + r.len()) as int,
                ));
                assert(c.subrange(l.len() as int, (l.len() + r.len()) as int) =~= r);
                let vr = arithmetic_value(*b.right) as i32;
                let s2 = VmState {
                    pc: s1.pc + r.len(),
                    fp: s.fp,
                    stack: s1.stack.push(vr),
                    output: s.output,
                };
                lemma_steps_compose(p, s, l.len(), r.len());
                lemma_steps_compose(p, s, (l.len() + r.len()) as nat, 1);
                assert(ins[s2.pc as int] == c[(l.len() + r.len()) as int]);
                let n = s2.stack.len();
                assert(s2.stack[n - 2] == vl);
                assert(s2.stack[n - 1] == vr);
                assert(s2.stack.subrange(0, n - 2) =~= s.stack);
                let v = arithmetic_value(e);
                assert(stays_in_range(*b.left) && stays_in_range(*b.right));
                assert(fits_value(arithmetic_value(*b.left)));
                assert(fits_value(arithmetic_value(*b.right)));
                assert(vl as int == arithmetic_value(*b.left));
                assert(vr as int == arithmetic_value(*b.right));
                assert(ins[s2.pc as int] == op);
                match op {
                    Instruction::Add => assert(step(p, s2) == binary_step(s2, vl + vr)),
                    Instruction::Subtract => assert(step(p, s2) == binary_step(s2, vl - vr)),
                    _ => assert(step(p, s2) == binary_step(s2, if vl < vr { 1int } else { 0int })),
                }
                let s3 = step(p, s2)->Ok_0;
                assert(steps(p, s3, 0) == Ok::<VmState, RuntimeError>(s3));
                assert(steps(p, s2, 1) == Ok::<VmState, RuntimeError>(s3));
                assert(s3 == advance(s2, s.stack.push(v as i32)));
            }
        },
        _ => {},
    }
}

/// A program of one expression statement whose expression is arithmetic
/// compiles, and, given at least one step per instruction, runs to its end
/// leaving exactly the expression's value on the stack and printing nothing.
pub proof fn arithmetic_program_leaves_its_value(e: Expression)
    requires
        is_arithmetic(e),
        stays_in_range(e),
    ensures
        program_of(seq![Statement::Expression(e)]) is Ok,
        forall|fuel: nat|
            fuel >= program_of(seq![Statement::Expression(e)])->Ok_0.instructions.len() ==> #[trigger] run(
                program_of(seq![Statement::Expression(e)])->Ok_0,
                initial_state(),
                fuel,
            ) == Ok::<VmState, (RuntimeError, Seq<Seq<i32>>)>(
                VmState {
                    pc: program_of(seq![Statement::Expression(e)])->Ok_0.instructions.len(),
                    fp: 0,
                    stack: seq![arithmetic_value(e) as i32],
                    output: seq![],
                },
            ),
{
    let s0 = initial_state();
    lemma_arithmetic_code(empty_program(), s0, e, seq![]);
    let c = expression_code(e, seq![])->Ok_0;
    let p = emit(empty_program(), c);
    let ast = seq![Statement::Expression(e)];
    assert(ast[0] == Statement::Expression(e));
    assert(statement_code(empty_program(), seq![], ast[0]) == Ok::<
        (ProgramModel, Seq<Seq<char>>),
        CompileError,
    >((p, seq![])));
    assert(block_code(p, seq![], ast, 1) == Ok::<
        (ProgramModel, Seq<Seq<char>>),
        CompileError,
    >((p, seq![])));
    assert(program_of(ast) == Ok::<ProgramModel, CompileError>(p));
    assert(p.instructions =~= c);
    lemma_arithmetic_code(p, s0, e, seq![]);
    assert(p.instructions.subrange(0, c.len() as int) =~= c);
    assert forall|fuel: nat| fuel >= p.instructions.len() implies #[trigger] run(p, s0, fuel) == Ok::<
        VmState,
        (RuntimeError, Seq<Seq<i32>>),
    >(
        VmState {
            pc: p.instructions.len(),
            fp: 0,
            stack: seq![arithmetic_value(e) as i32],
            output: seq![],
        },
    ) by {
        lemma_run_after_steps(p, s0, c.len(), fuel);
        assert(s0.stack.push(arithmetic_value(e) as i32) =~= seq![arithmetic_value(e) as i32]);
    }
}

} // verus!
