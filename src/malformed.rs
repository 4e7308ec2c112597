//! Malformed programs are rejected: they never run to a value.
use crate::eval::{
    empty_program, expression_code, function_named, program_of, run, slot_of, statement_code, step,
    CompileError, Instruction, ProgramModel, RuntimeError, VmState,
};
use crate::lex::Token;
use crate::parse::{BinaryOperation, Expression, Literal, Statement};
use vstd::prelude::*;

verus! {

/// A binary operation whose operator is not `+`, `-` or `<`, with operands
/// that compile, fails to compile with that operator; so does a program
/// whose statement is that operation.
pub proof fn unknown_operator_is_rejected(b: BinaryOperation)
    requires
        b.operator.value@ != "+"@,
        b.operator.value@ != "-"@,
        b.operator.value@ != "<"@,
        expression_code(*b.left, seq![]) is Ok,
        expression_code(*b.right, seq![]) is Ok,
    ensures
        program_of(seq![Statement::Expression(Expression::BinaryOperation(b))]) == Err::<
            ProgramModel,
            CompileError,
        >(CompileError::UnknownOperator(b.operator)),
{
    let e = Expression::BinaryOperation(b);
    let ast = seq![Statement::Expression(e)];
    let err = CompileError::UnknownOperator(b.operator);
    assert(expression_code(e, seq![]) == Err::<Seq<Instruction>, CompileError>(err));
    assert(statement_code(empty_program(), seq![], ast[0]) == Err::<
        (ProgramModel, Seq<Seq<char>>),
        CompileError,
    >(err));
}

/// A reference to an identifier that no local or parameter declares fails to
/// compile with that identifier; at top level before any `local`, that is
/// every identifier.
pub proof fn undeclared_identifier_is_rejected(t: Token, locals: Seq<Seq<char>>)
    requires
        slot_of(locals, t.value@) is None,
    ensures
        expression_code(Expression::Literal(Literal::Identifier(t)), locals) == Err::<
            Seq<Instruction>,
            CompileError,
        >(CompileError::UndefinedIdentifier(t)),
        program_of(seq![Statement::Expression(Expression::Literal(Literal::Identifier(t)))])
            == Err::<ProgramModel, CompileError>(CompileError::UndefinedIdentifier(t)),
{
    let e = Expression::Literal(Literal::Identifier(t));
    let ast = seq![Statement::Expression(e)];
    let err = CompileError::UndefinedIdentifier(t);
    assert(slot_of(seq![], t.value@) is None);
    assert(expression_code(e, seq![]) == Err::<Seq<Instruction>, CompileError>(err));
    assert(statement_code(empty_program(), seq![], ast[0]) == Err::<
        (ProgramModel, Seq<Seq<char>>),
        CompileError,
    >(err));
}

/// A call of a name other than `print` that no function of the program
/// bears stops the run there with `UndefinedFunction`, whatever the
/// number of steps allowed, keeping what was printed before.
pub proof fn undefined_call_aborts(p: ProgramModel, s: VmState, fuel: nat)
    requires
        s.pc < p.instructions.len(),
        p.instructions[s.pc as int] matches Instruction::Call(name, _) && name@ != "print"@
            && function_named(p.functions, name@) is None,
        fuel > 0,
    ensures
        step(p, s) == Err::<VmState, RuntimeError>(RuntimeError::UndefinedFunction),
        run(p, s, fuel) == Err::<VmState, (RuntimeError, Seq<Seq<i32>>)>(
            (RuntimeError::UndefinedFunction, s.output),
        ),
{
}

} // verus!
