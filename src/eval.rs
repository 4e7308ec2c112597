//! Compilation of the syntax tree into bytecode, and the virtual machine that
//! runs it.
use crate::lex::{diagnostic_text, is_digit, Token};
use crate::parse::{
    Ast, BinaryOperation, Expression, FunctionCall, FunctionDeclaration, If, Literal, Local,
    Return, Statement,
};
use crate::text::text_is;
use vstd::prelude::*;

verus! {

/// One bytecode instruction. Jump targets are label handles: indices into the
/// program's label table.
#[derive(Debug)]
pub enum Instruction {
    /// Push a constant.
    PushConstant(i32),
    /// Push a copy of the value at `frame_pointer + offset`.
    LoadSlot(usize),
    /// Copy the argument that lies `caller_offset + 4` below the frame
    /// pointer into the given slot of the frame.
    BindArgument(usize, usize),
    /// Pop a value into the slot at `frame_pointer + offset`, growing the
    /// stack with zeros where the slot does not exist yet.
    StoreSlot(usize),
    /// Pop a value; when it is zero, go to the label's location.
    BranchIfFalse(usize),
    /// Go to the label's location.
    Jump(usize),
    /// Call a function (or the builtin `print`) with this many arguments.
    Call(String, usize),
    /// Return the top of the stack to the caller.
    Return,
    /// Replace the two values on top by their sum.
    Add,
    /// Replace the two values on top by the lower minus the upper.
    Subtract,
    /// Replace the two values on top by 1 when the lower is less than the
    /// upper, and by 0 otherwise.
    LessThan,
}

/// A function of the program: where its code starts, how many parameters it
/// takes and how many slots its frame holds (parameters included).
#[derive(Debug)]
pub struct FunctionSymbol {
    pub name: String,
    pub location: usize,
    pub arity: usize,
    pub local_count: usize,
}

/// A compiled program: its instructions, the location of each label, and
/// its functions (where a name is declared twice, the later declaration
/// counts).
#[derive(Debug)]
pub struct Program {
    instructions: Vec<Instruction>,
    labels: Vec<usize>,
    functions: Vec<FunctionSymbol>,
}

/// What a program is, as a value.
#[verifier::ext_equal]
pub struct ProgramModel {
    pub instructions: Seq<Instruction>,
    pub labels: Seq<usize>,
    pub functions: Seq<FunctionSymbol>,
}

impl View for Program {
    type V = ProgramModel;

    closed spec fn view(&self) -> ProgramModel {
        ProgramModel {
            instructions: self.instructions@,
            labels: self.labels@,
            functions: self.functions@,
        }
    }
}

/// Why a syntax tree does not compile; each carries the offending token.
#[derive(Debug)]
pub enum CompileError {
    /// A binary operator other than `+`, `-` and `<`.
    UnknownOperator(Token),
    /// An identifier that names no parameter or local in scope.
    UndefinedIdentifier(Token),
    /// A number literal that is not a decimal numeral within `i32`.
    InvalidNumber(Token),
}

// ----- What the compiler emits, as spec functions -----

/// The slot of the latest local named `name`.
pub open spec fn slot_of(locals: Seq<Seq<char>>, name: Seq<char>) -> Option<nat>
    decreases locals.len(),
{
    if locals.len() == 0 {
        None
    } else if locals.last() == name {
        Some((locals.len() - 1) as nat)
    } else {
        slot_of(locals.drop_last(), name)
    }
}

/// The value of a numeral made of decimal digits.
pub open spec fn decimal_value(s: Seq<char>) -> int
    decreases s.len(),
{
    if s.len() == 0 {
        0
    } else {
        decimal_value(s.drop_last()) * 10 + (s.last() as int - '0' as int)
    }
}

/// A numeral that the compiler accepts: decimal digits, of a value within
/// `i32`.
pub open spec fn valid_numeral(s: Seq<char>) -> bool {
    &&& s.len() > 0
    &&& forall|i: int| 0 <= i < s.len() ==> is_digit(#[trigger] s[i])
    &&& decimal_value(s) <= i32::MAX
}

/// The instruction of a binary operator.
pub open spec fn operator_instruction(op: Seq<char>) -> Option<Instruction> {
    if op == "+"@ {
        Some(Instruction::Add)
    } else if op == "-"@ {
        Some(Instruction::Subtract)
    } else if op == "<"@ {
        Some(Instruction::LessThan)
    } else {
        None
    }
}

/// `Ok(prefix + c)` where `r` is `Ok(c)`.
pub open spec fn after(prefix: Seq<Instruction>, r: Result<Seq<Instruction>, CompileError>) -> Result<
    Seq<Instruction>,
    CompileError,
> {
    match r {
        Ok(c) => Ok(prefix + c),
        Err(e) => Err(e),
    }
}

/// The code of an expression: it pushes the expression's value.
pub open spec fn expression_code(e: Expression, locals: Seq<Seq<char>>) -> Result<
    Seq<Instruction>,
    CompileError,
>
    decreases e, 0int,
{
    match e {
        Expression::Literal(Literal::Number(t)) => {
            if valid_numeral(t.value@) {
                Ok(seq![Instruction::PushConstant(decimal_value(t.value@) as i32)])
            } else {
                Err(CompileError::InvalidNumber(t))
            }
        },
        Expression::Literal(Literal::Identifier(t)) => match slot_of(locals, t.value@) {
            Some(i) => Ok(seq![Instruction::LoadSlot(i as usize)]),
            None => Err(CompileError::UndefinedIdentifier(t)),
        },
        Expression::BinaryOperation(b) => match expression_code(*b.left, locals) {
            Err(err) => Err(err),
            Ok(l) => match expression_code(*b.right, locals) {
                Err(err) => Err(err),
                Ok(r) => match operator_instruction(b.operator.value@) {
                    Some(i) => Ok(l + r + seq![i]),
                    None => Err(CompileError::UnknownOperator(b.operator)),
                },
            },
        },
        Expression::FunctionCall(fc) => match arguments_code(fc.arguments@, locals, 0) {
            Err(err) => Err(err),
            Ok(c) => Ok(c + seq![Instruction::Call(fc.name.value, fc.arguments@.len() as usize)]),
        },
    }
}

/// The code of `args[i..]`, left to right.
pub open spec fn arguments_code(args: Seq<Expression>, locals: Seq<Seq<char>>, i: int) -> Result<
    Seq<Instruction>,
    CompileError,
>
    decreases args, args.len() - i,
{
    if i < 0 || i >= args.len() {
        Ok(seq![])
    } else {
        match expression_code(args[i], locals) {
            Err(err) => Err(err),
            Ok(c) => after(c, arguments_code(args, locals, i + 1)),
        }
    }
}

/// `p` with `c` appended to its instructions.
pub open spec fn emit(p: ProgramModel, c: Seq<Instruction>) -> ProgramModel {
    ProgramModel { instructions: p.instructions + c, labels: p.labels, functions: p.functions }
}

/// The entry sequence of a function of `k` parameters: parameter `i` is
/// copied from below the frame into slot `i`.
pub open spec fn binding_code(k: nat) -> Seq<Instruction> {
    Seq::new(k, |i: int| Instruction::BindArgument(i as usize, (k - i - 1) as usize))
}

/// The names that tokens spell.
pub open spec fn token_names(ts: Seq<Token>) -> Seq<Seq<char>> {
    Seq::new(ts.len(), |i: int| ts[i].value@)
}

/// The program and the locals after compiling statement `s` onto `p` with
/// the locals `locals`.
///
/// An expression statement deliberately emits no instruction that discards
/// its value: the value stays on the stack, so that a program of bare
/// expressions leaves their values as the result of the run.
pub open spec fn statement_code(p: ProgramModel, locals: Seq<Seq<char>>, s: Statement) -> Result<
    (ProgramModel, Seq<Seq<char>>),
    CompileError,
>
    decreases s, 0int,
{
    match s {
        Statement::Expression(e) => match expression_code(e, locals) {
            Err(err) => Err(err),
            Ok(c) => Ok((emit(p, c), locals)),
        },
        Statement::Return(r) => match expression_code(r.expression, locals) {
            Err(err) => Err(err),
            Ok(c) => Ok((emit(p, c.push(Instruction::Return)), locals)),
        },
        Statement::Local(l) => {
            let inner = locals.push(l.name.value@);
            match expression_code(l.expression, inner) {
                Err(err) => Err(err),
                Ok(c) => Ok((emit(p, c.push(Instruction::StoreSlot(locals.len() as usize))), inner)),
            }
        },
        Statement::If(i) => match expression_code(i.test, locals) {
            Err(err) => Err(err),
            Ok(c) => {
                let label = p.labels.len();
                let p1 = ProgramModel {
                    instructions: p.instructions + c.push(Instruction::BranchIfFalse(label as usize)),
                    labels: p.labels.push(0),
                    functions: p.functions,
                };
                match block_code(p1, locals, i.body@, 0) {
                    Err(err) => Err(err),
                    Ok((p2, l2)) => Ok(
                        (
                            ProgramModel {
                                instructions: p2.instructions,
                                labels: p2.labels.update(label as int, p2.instructions.len() as usize),
                                functions: p2.functions,
                            },
                            l2,
                        ),
                    ),
                }
            },
        },
        Statement::FunctionDeclaration(fd) => {
            let done = p.labels.len();
            let k = fd.parameters@.len();
            let p1 = ProgramModel {
                instructions: p.instructions.push(Instruction::Jump(done as usize)) + binding_code(k),
                labels: p.labels.push(0),
                functions: p.functions,
            };
            match block_code(p1, token_names(fd.parameters@), fd.body@, 0) {
                Err(err) => Err(err),
                Ok((p2, l2)) => Ok(
                    (
                        ProgramModel {
                            instructions: p2.instructions,
                            labels: p2.labels.update(done as int, p2.instructions.len() as usize),
                            functions: p2.functions.push(
                                FunctionSymbol {
                                    name: fd.name.value,
                                    location: (p.instructions.len() + 1) as usize,
                                    arity: k as usize,
                                    local_count: l2.len() as usize,
                                },
                            ),
                        },
                        locals,
                    ),
                ),
            }
        },
    }
}

/// The program and the locals after compiling `ss[i..]` in order.
pub open spec fn block_code(p: ProgramModel, locals: Seq<Seq<char>>, ss: Seq<Statement>, i: int) -> Result<
    (ProgramModel, Seq<Seq<char>>),
    CompileError,
>
    decreases ss, ss.len() - i,
{
    if i < 0 || i >= ss.len() {
        Ok((p, locals))
    } else {
        match statement_code(p, locals, ss[i]) {
            Err(err) => Err(err),
            Ok((p1, l1)) => block_code(p1, l1, ss, i + 1),
        }
    }
}

/// The empty program.
pub open spec fn empty_program() -> ProgramModel {
    ProgramModel { instructions: seq![], labels: seq![], functions: seq![] }
}

/// The program that a syntax tree compiles to: its statements in order, at
/// top level, with no locals declared before them.
pub open spec fn program_of(ast: Seq<Statement>) -> Result<ProgramModel, CompileError> {
    match block_code(empty_program(), seq![], ast, 0) {
        Err(err) => Err(err),
        Ok((p, _)) => Ok(p),
    }
}

/// `after` is `before` with the code of `code` emitted, and `r` is `Ok`; or
/// `r` is the error of `code`.
pub open spec fn emitted(
    before: ProgramModel,
    after: ProgramModel,
    r: Result<(), CompileError>,
    code: Result<Seq<Instruction>, CompileError>,
) -> bool {
    match code {
        Ok(c) => r is Ok && after == emit(before, c),
        Err(err) => r == Err::<(), CompileError>(err),
    }
}

proof fn lemma_decimal_nonneg(s: Seq<char>)
    requires
        forall|i: int| 0 <= i < s.len() ==> is_digit(#[trigger] s[i]),
    ensures
        decimal_value(s) >= 0,
    decreases s.len(),
{
    if s.len() > 0 {
        lemma_decimal_nonneg(s.drop_last());
    }
}

proof fn lemma_decimal_prefix(s: Seq<char>, n: int)
    requires
        0 <= n <= s.len(),
        forall|i: int| 0 <= i < s.len() ==> is_digit(#[trigger] s[i]),
    ensures
        decimal_value(s.subrange(0, n)) <= decimal_value(s),
    decreases s.len(),
{
    if n < s.len() {
        assert(s.drop_last().subrange(0, n) =~= s.subrange(0, n));
        lemma_decimal_prefix(s.drop_last(), n);
        lemma_decimal_nonneg(s.drop_last());
    } else {
        assert(s.subrange(0, n) =~= s);
    }
}

/// The value of a numeral, where the compiler accepts it.
fn parse_numeral(s: &String) -> (r: Option<i32>)
    ensures
        valid_numeral(s@) ==> r == Some(decimal_value(s@) as i32),
        !valid_numeral(s@) ==> r is None,
{
    let a = s.as_str();
    let n = a.unicode_len();
    if n == 0 {
        return None;
    }
    let mut acc: i32 = 0;
    let mut i: usize = 0;
    while i < n
        invariant
            a@ == s@,
            n == s@.len(),
            i <= n,
            forall|j: int| 0 <= j < i ==> is_digit(#[trigger] s@[j]),
            acc == decimal_value(s@.subrange(0, i as int)),
            acc >= 0,
        decreases n - i,
    {
        let c = a.get_char(i);
        if !('0' <= c && c <= '9') {
            return None;
        }
        let d = (c as u32 - '0' as u32) as i32;
        assert(s@.subrange(0, i + 1).drop_last() =~= s@.subrange(0, i as int));
        if acc > (i32::MAX - d) / 10 {
            proof {
                assert(decimal_value(s@.subrange(0, i + 1)) > i32::MAX) by (nonlinear_arith)
                    requires
                        decimal_value(s@.subrange(0, i + 1)) == acc * 10 + d,
                        acc > (i32::MAX - d) / 10,
                        0 <= d <= 9,
                ;
                if forall|j: int| 0 <= j < s@.len() ==> is_digit(#[trigger] s@[j]) {
                    lemma_decimal_prefix(s@, i + 1);
                }
            }
            return None;
        }
        assert(0 <= acc * 10 + d <= i32::MAX) by (nonlinear_arith)
            requires
                0 <= acc <= (i32::MAX - d) / 10,
                0 <= d <= 9,
        ;
        acc = acc * 10 + d;
        i += 1;
    }
    assert(s@.subrange(0, n as int) =~= s@);
    Some(acc)
}

/// The slot of the latest local named `name`.
fn find_slot(locals: &Vec<String>, name: &String) -> (r: Option<usize>)
    ensures
        r == match slot_of(locals.deep_view(), name@) {
            Some(i) => Some(i as usize),
            None => None::<usize>,
        },
{
    let mut i: usize = locals.len();
    assert(locals.deep_view().subrange(0, i as int) =~= locals.deep_view());
    while i > 0
        invariant
            i <= locals@.len(),
            slot_of(locals.deep_view(), name@) == slot_of(locals.deep_view().subrange(0, i as int), name@),
        decreases i,
    {
        let ghost prefix = locals.deep_view().subrange(0, i as int);
        assert(prefix.drop_last() =~= locals.deep_view().subrange(0, i - 1));
        if locals[i - 1] == *name {
            return Some(i - 1);
        }
        i -= 1;
    }
    None
}

fn compile_literal(pgrm: &mut Program, locals: &Vec<String>, lit: &Literal) -> (r: Result<(), CompileError>)
    ensures
        emitted(old(pgrm)@, final(pgrm)@, r, expression_code(Expression::Literal(*lit), locals.deep_view())),
{
    match lit {
        Literal::Number(t) => {
            match parse_numeral(&t.value) {
                Some(n) => {
                    pgrm.instructions.push(Instruction::PushConstant(n));
                    assert(final(pgrm)@ =~= emit(old(pgrm)@, seq![Instruction::PushConstant(n)]));
                    Ok(())
                },
                None => Err(CompileError::InvalidNumber(t.copy())),
            }
        },
        Literal::Identifier(t) => {
            match find_slot(locals, &t.value) {
                Some(i) => {
                    pgrm.instructions.push(Instruction::LoadSlot(i));
                    assert(final(pgrm)@ =~= emit(old(pgrm)@, seq![Instruction::LoadSlot(i)]));
                    Ok(())
                },
                None => Err(CompileError::UndefinedIdentifier(t.copy())),
            }
        },
    }
}

fn compile_binary_operation(pgrm: &mut Program, locals: &Vec<String>, bop: &BinaryOperation) -> (r:
    Result<(), CompileError>)
    ensures
        emitted(
            old(pgrm)@,
            final(pgrm)@,
            r,
            expression_code(Expression::BinaryOperation(*bop), locals.deep_view()),
        ),
    decreases bop, 0int,
{
    let ghost start = pgrm@;
    match compile_expression(pgrm, locals, &bop.left) {
        Ok(()) => {},
        Err(err) => { return Err(err); },
    }
    let ghost mid = pgrm@;
    match compile_expression(pgrm, locals, &bop.right) {
        Ok(()) => {},
        Err(err) => { return Err(err); },
    }
    let ghost end = pgrm@;
    let op = &bop.operator.value;
    let instruction = if text_is(op, "+") {
        Instruction::Add
    } else if text_is(op, "-") {
        Instruction::Subtract
    } else if text_is(op, "<") {
        Instruction::LessThan
    } else {
        return Err(CompileError::UnknownOperator(bop.operator.copy()));
    };
    pgrm.instructions.push(instruction);
    proof {
        let l = expression_code(*bop.left, locals.deep_view())->Ok_0;
        let rc = expression_code(*bop.right, locals.deep_view())->Ok_0;
        assert(pgrm@ =~= emit(start, l + rc + seq![instruction]));
    }
    Ok(())
}

fn compile_function_call(pgrm: &mut Program, locals: &Vec<String>, fc: &FunctionCall) -> (r: Result<
    (),
    CompileError,
>)
    ensures
        emitted(
            old(pgrm)@,
            final(pgrm)@,
            r,
            expression_code(Expression::FunctionCall(*fc), locals.deep_view()),
        ),
    decreases fc, 0int,
{
    let ghost start = pgrm@;
    let ghost args = fc.arguments@;
    let ghost names = locals.deep_view();
    let n = fc.arguments.len();
    let mut i: usize = 0;
    while i < n
        invariant
            n == args.len(),
            args == fc.arguments@,
            names == locals.deep_view(),
            i <= n,
            pgrm@.labels == start.labels,
            pgrm@.functions == start.functions,
            start.instructions.len() <= pgrm@.instructions.len(),
            arguments_code(args, names, 0) == after(
                pgrm@.instructions.subrange(start.instructions.len() as int, pgrm@.instructions.len() as int),
                arguments_code(args, names, i as int),
            ),
            pgrm@.instructions == start.instructions + pgrm@.instructions.subrange(
                start.instructions.len() as int,
                pgrm@.instructions.len() as int,
            ),
        decreases n - i,
    {
        let ghost before = pgrm@;
        match compile_expression(pgrm, locals, &fc.arguments[i]) {
            Ok(()) => {},
            Err(err) => { return Err(err); },
        }
        proof {
            let c = expression_code(args[i as int], names)->Ok_0;
            let old_part = before.instructions.subrange(start.instructions.len() as int, before.instructions.len() as int);
            let new_part = pgrm@.instructions.subrange(start.instructions.len() as int, pgrm@.instructions.len() as int);
            assert(new_part =~= old_part + c);
            assert(pgrm@.instructions =~= start.instructions + new_part);
            match arguments_code(args, names, i + 1) {
                Ok(rest) => { assert(old_part + (c + rest) =~= new_part + rest); },
                Err(_) => {},
            }
        }
        i += 1;
    }
    let ghost body = pgrm@.instructions.subrange(start.instructions.len() as int, pgrm@.instructions.len() as int);
    assert(body + seq![] =~= body);
    pgrm.instructions.push(Instruction::Call(fc.name.value.clone(), n));
    assert(pgrm@ =~= emit(start, body + seq![Instruction::Call(fc.name.value, n)]));
    Ok(())
}

fn compile_expression(pgrm: &mut Program, locals: &Vec<String>, e: &Expression) -> (r: Result<
    (),
    CompileError,
>)
    ensures
        emitted(old(pgrm)@, final(pgrm)@, r, expression_code(*e, locals.deep_view())),
    decreases e, 1int,
{
    match e {
        Expression::BinaryOperation(bop) => compile_binary_operation(pgrm, locals, bop),
        Expression::FunctionCall(fc) => compile_function_call(pgrm, locals, fc),
        Expression::Literal(lit) => compile_literal(pgrm, locals, lit),
    }
}

/// `r` is `Ok` and the program and the locals are those of `spec`; or `r`
/// is the error of `spec`.
pub open spec fn compiled(
    p: ProgramModel,
    locals: Seq<Seq<char>>,
    r: Result<(), CompileError>,
    spec: Result<(ProgramModel, Seq<Seq<char>>), CompileError>,
) -> bool {
    match spec {
        Ok((sp, sl)) => r is Ok && p == sp && locals == sl,
        Err(err) => r == Err::<(), CompileError>(err),
    }
}

fn compile_return(pgrm: &mut Program, locals: &mut Vec<String>, ret: &Return) -> (r: Result<
    (),
    CompileError,
>)
    ensures
        compiled(
            final(pgrm)@,
            final(locals).deep_view(),
            r,
            statement_code(old(pgrm)@, old(locals).deep_view(), Statement::Return(*ret)),
        ),
{
    let ghost start = pgrm@;
    match compile_expression(pgrm, locals, &ret.expression) {
        Ok(()) => {},
        Err(err) => { return Err(err); },
    }
    pgrm.instructions.push(Instruction::Return);
    proof {
        let c = expression_code(ret.expression, locals.deep_view())->Ok_0;
        assert(pgrm@ =~= emit(start, c.push(Instruction::Return)));
    }
    Ok(())
}

fn compile_local(pgrm: &mut Program, locals: &mut Vec<String>, local: &Local) -> (r: Result<
    (),
    CompileError,
>)
    ensures
        compiled(
            final(pgrm)@,
            final(locals).deep_view(),
            r,
            statement_code(old(pgrm)@, old(locals).deep_view(), Statement::Local(*local)),
        ),
{
    let ghost start = pgrm@;
    let ghost outer = locals.deep_view();
    let index = locals.len();
    locals.push(local.name.value.clone());
    assert(locals.deep_view() =~= outer.push(local.name.value@));
    match compile_expression(pgrm, locals, &local.expression) {
        Ok(()) => {},
        Err(err) => { return Err(err); },
    }
    pgrm.instructions.push(Instruction::StoreSlot(index));
    proof {
        let c = expression_code(local.expression, locals.deep_view())->Ok_0;
        assert(pgrm@ =~= emit(start, c.push(Instruction::StoreSlot(index))));
    }
    Ok(())
}

fn compile_if(pgrm: &mut Program, locals: &mut Vec<String>, if_: &If) -> (r: Result<
    (),
    CompileError,
>)
    ensures
        compiled(
            final(pgrm)@,
            final(locals).deep_view(),
            r,
            statement_code(old(pgrm)@, old(locals).deep_view(), Statement::If(*if_)),
        ),
    decreases if_, 0int,
{
    let ghost start = pgrm@;
    match compile_expression(pgrm, locals, &if_.test) {
        Ok(()) => {},
        Err(err) => { return Err(err); },
    }
    let label = pgrm.labels.len();
    pgrm.instructions.push(Instruction::BranchIfFalse(label));
    pgrm.labels.push(0);
    proof {
        let c = expression_code(if_.test, locals.deep_view())->Ok_0;
        assert(pgrm@ =~= (ProgramModel {
            instructions: start.instructions + c.push(Instruction::BranchIfFalse(label)),
            labels: start.labels.push(0),
            functions: start.functions,
        }));
    }
    let ghost body_start = pgrm@;
    match compile_block(pgrm, locals, &if_.body) {
        Ok(()) => {},
        Err(err) => { return Err(err); },
    }
    proof {
        block_labels_grow(body_start, old(locals).deep_view(), if_.body@, 0);
    }
    let end = pgrm.instructions.len();
    pgrm.labels.set(label, end);
    proof {
        let p2 = block_code(body_start, old(locals).deep_view(), if_.body@, 0)->Ok_0.0;
        assert(pgrm@ =~= (ProgramModel {
            instructions: p2.instructions,
            labels: p2.labels.update(label as int, end),
            functions: p2.functions,
        }));
    }
    Ok(())
}

fn compile_declaration(pgrm: &mut Program, locals: &mut Vec<String>, fd: &FunctionDeclaration) -> (r:
    Result<(), CompileError>)
    ensures
        compiled(
            final(pgrm)@,
            final(locals).deep_view(),
            r,
            statement_code(old(pgrm)@, old(locals).deep_view(), Statement::FunctionDeclaration(*fd)),
        ),
    decreases fd, 0int,
{
    let ghost start = pgrm@;
    // Top-level execution jumps over the function body.
    let done_label = pgrm.labels.len();
    pgrm.instructions.push(Instruction::Jump(done_label));
    pgrm.labels.push(0);
    let function_index = pgrm.instructions.len();
    let narguments = fd.parameters.len();
    let mut new_locals: Vec<String> = Vec::new();
    let mut i: usize = 0;
    while i < narguments
        invariant
            narguments == fd.parameters@.len(),
            i <= narguments,
            function_index == start.instructions.len() + 1,
            pgrm@.instructions == start.instructions.push(Instruction::Jump(done_label)) + binding_code(
                narguments as nat,
            ).subrange(0, i as int),
            pgrm@.labels == start.labels.push(0),
            pgrm@.functions == start.functions,
            new_locals.deep_view() == token_names(fd.parameters@).subrange(0, i as int),
        decreases narguments - i,
    {
        let ghost before = pgrm@.instructions;
        pgrm.instructions.push(Instruction::BindArgument(i, narguments - (i + 1)));
        assert(pgrm@.instructions =~= start.instructions.push(Instruction::Jump(done_label)) + binding_code(
            narguments as nat,
        ).subrange(0, i + 1));
        let ghost names = new_locals.deep_view();
        new_locals.push(fd.parameters[i].value.clone());
        assert(new_locals.deep_view() =~= names.push(fd.parameters@[i as int].value@));
        assert(new_locals.deep_view() =~= token_names(fd.parameters@).subrange(0, i + 1));
        i += 1;
    }
    assert(binding_code(narguments as nat).subrange(0, narguments as int) =~= binding_code(narguments as nat));
    assert(token_names(fd.parameters@).subrange(0, narguments as int) =~= token_names(fd.parameters@));
    let ghost body_start = pgrm@;
    assert(body_start =~= (ProgramModel {
        instructions: start.instructions.push(Instruction::Jump(done_label)) + binding_code(narguments as nat),
        labels: start.labels.push(0),
        functions: start.functions,
    }));
    match compile_block(pgrm, &mut new_locals, &fd.body) {
        Ok(()) => {},
        Err(err) => { return Err(err); },
    }
    proof {
        block_labels_grow(body_start, token_names(fd.parameters@), fd.body@, 0);
    }
    pgrm.functions.push(
        FunctionSymbol {
            name: fd.name.value.clone(),
            location: function_index,
            arity: narguments,
            local_count: new_locals.len(),
        },
    );
    let end = pgrm.instructions.len();
    pgrm.labels.set(done_label, end);
    proof {
        let p2 = block_code(body_start, token_names(fd.parameters@), fd.body@, 0)->Ok_0.0;
        assert(pgrm@ =~= (ProgramModel {
            instructions: p2.instructions,
            labels: p2.labels.update(done_label as int, end),
            functions: p2.functions.push(
                FunctionSymbol {
                    name: fd.name.value,
                    location: function_index,
                    arity: narguments,
                    local_count: new_locals.len(),
                },
            ),
        }));
    }
    Ok(())
}

proof fn statement_labels_grow(p: ProgramModel, locals: Seq<Seq<char>>, s: Statement)
    requires
        statement_code(p, locals, s) is Ok,
    ensures
        p.labels.len() <= statement_code(p, locals, s)->Ok_0.0.labels.len(),
    decreases s, 0int,
{
    match s {
        Statement::If(i) => {
            let c = expression_code(i.test, locals)->Ok_0;
            let p1 = ProgramModel {
                instructions: p.instructions + c.push(Instruction::BranchIfFalse(p.labels.len() as usize)),
                labels: p.labels.push(0),
                functions: p.functions,
            };
            block_labels_grow(p1, locals, i.body@, 0);
        },
        Statement::FunctionDeclaration(fd) => {
            let p1 = ProgramModel {
                instructions: p.instructions.push(Instruction::Jump(p.labels.len() as usize))
                    + binding_code(fd.parameters@.len()),
                labels: p.labels.push(0),
                functions: p.functions,
            };
            block_labels_grow(p1, token_names(fd.parameters@), fd.body@, 0);
        },
        _ => {},
    }
}

proof fn block_labels_grow(p: ProgramModel, locals: Seq<Seq<char>>, ss: Seq<Statement>, i: int)
    requires
        block_code(p, locals, ss, i) is Ok,
    ensures
        p.labels.len() <= block_code(p, locals, ss, i)->Ok_0.0.labels.len(),
    decreases ss, ss.len() - i,
{
    if 0 <= i < ss.len() {
        statement_labels_grow(p, locals, ss[i]);
        let (p1, l1) = statement_code(p, locals, ss[i])->Ok_0;
        block_labels_grow(p1, l1, ss, i + 1);
    }
}

fn compile_statement(pgrm: &mut Program, locals: &mut Vec<String>, stmt: &Statement) -> (r: Result<
    (),
    CompileError,
>)
    ensures
        compiled(
            final(pgrm)@,
            final(locals).deep_view(),
            r,
            statement_code(old(pgrm)@, old(locals).deep_view(), *stmt),
        ),
    decreases stmt, 1int,
{
    match stmt {
        Statement::FunctionDeclaration(fd) => compile_declaration(pgrm, locals, fd),
        Statement::Return(ret) => compile_return(pgrm, locals, ret),
        Statement::If(if_) => compile_if(pgrm, locals, if_),
        Statement::Local(local) => compile_local(pgrm, locals, local),
        Statement::Expression(e) => compile_expression(pgrm, locals, e),
    }
}

fn compile_block(pgrm: &mut Program, locals: &mut Vec<String>, stmts: &Vec<Statement>) -> (r: Result<
    (),
    CompileError,
>)
    ensures
        compiled(
            final(pgrm)@,
            final(locals).deep_view(),
            r,
            block_code(old(pgrm)@, old(locals).deep_view(), stmts@, 0),
        ),
    decreases stmts, 0int,
{
    let ghost target = block_code(pgrm@, locals.deep_view(), stmts@, 0);
    let n = stmts.len();
    let mut i: usize = 0;
    while i < n
        invariant
            n == stmts@.len(),
            i <= n,
            target == block_code(pgrm@, locals.deep_view(), stmts@, i as int),
            target == block_code(old(pgrm)@, old(locals).deep_view(), stmts@, 0),
        decreases n - i,
    {
        let ghost p0 = pgrm@;
        let ghost l0 = locals.deep_view();
        match compile_statement(pgrm, locals, &stmts[i]) {
            Ok(()) => {},
            Err(err) => {
                assert(statement_code(p0, l0, stmts@[i as int]) == Err::<(ProgramModel, Seq<Seq<char>>), CompileError>(err));
                assert(block_code(p0, l0, stmts@, i as int) == Err::<(ProgramModel, Seq<Seq<char>>), CompileError>(err));
                assert(target == Err::<(ProgramModel, Seq<Seq<char>>), CompileError>(err));
                return Err(err);
            },
        }
        i += 1;
    }
    Ok(())
}

/// The text of a compile error's message.
pub open spec fn error_text(e: CompileError) -> Seq<char> {
    match e {
        CompileError::UnknownOperator(_) => "Unable to compile binary operation:"@,
        CompileError::UndefinedIdentifier(_) => "Undefined identifier:"@,
        CompileError::InvalidNumber(_) => "Invalid number literal:"@,
    }
}

/// The token that a compile error is about.
pub open spec fn error_token(e: CompileError) -> Token {
    match e {
        CompileError::UnknownOperator(t) => t,
        CompileError::UndefinedIdentifier(t) => t,
        CompileError::InvalidNumber(t) => t,
    }
}

impl CompileError {
    /// The diagnostic for this error: its message, and the source line of
    /// the offending token with a caret under it.
    pub fn message(&self, raw: &Vec<char>) -> (r: String)
        ensures
            r@ == diagnostic_text(raw@, error_token(*self).loc, error_text(*self)),
    {
        match self {
            CompileError::UnknownOperator(t) => t.loc.debug(raw, "Unable to compile binary operation:"),
            CompileError::UndefinedIdentifier(t) => t.loc.debug(raw, "Undefined identifier:"),
            CompileError::InvalidNumber(t) => t.loc.debug(raw, "Invalid number literal:"),
        }
    }
}

/// Compiles a syntax tree: its statements in order, at top level.
pub fn compile_ast(ast: &Ast) -> (r: Result<Program, CompileError>)
    ensures
        match program_of(ast@) {
            Ok(p) => r matches Ok(q) && q@ == p,
            Err(err) => r == Err::<Program, CompileError>(err),
        },
{
    let mut locals: Vec<String> = Vec::new();
    let mut pgrm = Program { instructions: Vec::new(), labels: Vec::new(), functions: Vec::new() };
    assert(pgrm@ =~= empty_program());
    assert(locals.deep_view() =~= Seq::<Seq<char>>::empty());
    match compile_block(&mut pgrm, &mut locals, ast) {
        Ok(()) => Ok(pgrm),
        Err(err) => Err(err),
    }
}

/// Compiles a syntax tree parsed from `raw`; a failure comes with its
/// diagnostic.
pub fn compile(raw: &Vec<char>, ast: Ast) -> (r: Result<Program, String>)
    ensures
        match program_of(ast@) {
            Ok(p) => r matches Ok(q) && q@ == p,
            Err(err) => r matches Err(m) && m@ == diagnostic_text(raw@, error_token(err).loc, error_text(err)),
        },
{
    match compile_ast(&ast) {
        Ok(pgrm) => Ok(pgrm),
        Err(err) => Err(err.message(raw)),
    }
}

// ----- The virtual machine -----

/// Why a run stops before the end of the program.
#[derive(Copy, Clone, Debug, PartialEq, Eq, Structural)]
pub enum RuntimeError {
    /// A value was taken from an empty stack.
    StackUnderflow,
    /// A slot lies outside the stack.
    SlotOutOfRange,
    /// A call names no function of the program.
    UndefinedFunction,
    /// A jump names no label of the program.
    UndefinedLabel,
    /// A result does not fit in a value.
    Overflow,
    /// A return found saved frame values that are no address.
    BrokenFrame,
    /// The run took more steps than it was allowed.
    StepLimit,
}

/// The machine: program counter, frame pointer, the value stack, and the
/// lines printed so far.
#[verifier::ext_equal]
pub struct VmState {
    pub pc: nat,
    pub fp: nat,
    pub stack: Seq<i32>,
    pub output: Seq<Seq<i32>>,
}

/// Where a run starts.
pub open spec fn initial_state() -> VmState {
    VmState { pc: 0, fp: 0, stack: seq![], output: seq![] }
}

/// The latest function of the table that is named `name`.
pub open spec fn function_named(fs: Seq<FunctionSymbol>, name: Seq<char>) -> Option<FunctionSymbol>
    decreases fs.len(),
{
    if fs.len() == 0 {
        None
    } else if fs.last().name@ == name {
        Some(fs.last())
    } else {
        function_named(fs.drop_last(), name)
    }
}

pub open spec fn zeros(n: nat) -> Seq<i32> {
    Seq::new(n, |i: int| 0i32)
}

pub open spec fn fits_value(x: int) -> bool {
    i32::MIN <= x <= i32::MAX
}

/// `s` with the next instruction and the stack `stack`.
pub open spec fn advance(s: VmState, stack: Seq<i32>) -> VmState {
    VmState { pc: s.pc + 1, fp: s.fp, stack, output: s.output }
}

/// `s` at `pc`.
pub open spec fn goto(s: VmState, pc: nat, stack: Seq<i32>) -> VmState {
    VmState { pc, fp: s.fp, stack, output: s.output }
}

/// A binary operation on the two values on top of the stack.
pub open spec fn binary_step(s: VmState, value: int) -> Result<VmState, RuntimeError> {
    if !fits_value(value) {
        Err(RuntimeError::Overflow)
    } else {
        Ok(advance(s, s.stack.subrange(0, s.stack.len() - 2).push(value as i32)))
    }
}

/// The effect of `Return` on `s`.
pub open spec fn return_step(p: ProgramModel, s: VmState) -> Result<VmState, RuntimeError> {
    let st = s.stack;
    if st.len() == 0 {
        Err(RuntimeError::StackUnderflow)
    } else if s.fp == 0 {
        // A return from top level ends the run with the returned value.
        Ok(VmState { pc: p.instructions.len(), fp: 0, stack: seq![st.last()], output: s.output })
    } else {
        let rest = st.drop_last();
        let kept = if s.fp < rest.len() { rest.subrange(0, s.fp as int) } else { rest };
        let n = kept.len();
        if n < 3 {
            Err(RuntimeError::StackUnderflow)
        } else {
            let argc = kept[n - 1];
            let ret_pc = kept[n - 2];
            let ret_fp = kept[n - 3];
            if argc < 0 || ret_pc < 0 || ret_fp < 0 {
                Err(RuntimeError::BrokenFrame)
            } else if argc > n - 3 {
                Err(RuntimeError::StackUnderflow)
            } else {
                Ok(
                    VmState {
                        pc: ret_pc as nat,
                        fp: ret_fp as nat,
                        stack: kept.subrange(0, n - 3 - argc).push(st.last()),
                        output: s.output,
                    },
                )
            }
        }
    }
}

/// The effect of `Call(name, k)` on `s`.
pub open spec fn call_step(p: ProgramModel, s: VmState, name: Seq<char>, k: nat) -> Result<
    VmState,
    RuntimeError,
> {
    let st = s.stack;
    if name == "print"@ {
        // The builtin prints its arguments in the order they were written.
        if k > st.len() {
            Err(RuntimeError::StackUnderflow)
        } else {
            Ok(
                VmState {
                    pc: s.pc + 1,
                    fp: s.fp,
                    stack: st.subrange(0, st.len() - k),
                    output: s.output.push(st.subrange(st.len() - k, st.len() as int)),
                },
            )
        }
    } else {
        match function_named(p.functions, name) {
            None => Err(RuntimeError::UndefinedFunction),
            Some(f) => {
                if s.fp > i32::MAX || s.pc + 1 > i32::MAX || f.arity > i32::MAX || st.len() + 3
                    + f.local_count > usize::MAX {
                    Err(RuntimeError::Overflow)
                } else {
                    let framed = st.push(s.fp as i32).push((s.pc + 1) as i32).push(f.arity as i32);
                    Ok(
                        VmState {
                            pc: f.location as nat,
                            fp: framed.len(),
                            stack: framed + zeros(f.local_count as nat),
                            output: s.output,
                        },
                    )
                }
            },
        }
    }
}

/// One instruction's effect.
pub open spec fn step(p: ProgramModel, s: VmState) -> Result<VmState, RuntimeError>
    recommends
        s.pc < p.instructions.len(),
{
    let st = s.stack;
    let n = st.len();
    match p.instructions[s.pc as int] {
        Instruction::PushConstant(v) => Ok(advance(s, st.push(v))),
        Instruction::LoadSlot(i) => {
            if s.fp + i < n {
                Ok(advance(s, st.push(st[s.fp + i])))
            } else {
                Err(RuntimeError::SlotOutOfRange)
            }
        },
        Instruction::BindArgument(slot, off) => {
            if s.fp >= off + 4 && s.fp - off - 4 < n && s.fp + slot < n {
                Ok(advance(s, st.update(s.fp + slot, st[s.fp - off - 4])))
            } else {
                Err(RuntimeError::SlotOutOfRange)
            }
        },
        Instruction::StoreSlot(i) => {
            if n == 0 {
                Err(RuntimeError::StackUnderflow)
            } else if s.fp + i >= usize::MAX {
                Err(RuntimeError::SlotOutOfRange)
            } else {
                let rest = st.drop_last();
                let a = s.fp + i;
                let grown = if a < rest.len() { rest } else { rest + zeros((a + 1 - rest.len()) as nat) };
                Ok(advance(s, grown.update(a, st.last())))
            }
        },
        Instruction::BranchIfFalse(l) => {
            if n == 0 {
                Err(RuntimeError::StackUnderflow)
            } else if st.last() != 0 {
                Ok(advance(s, st.drop_last()))
            } else if l < p.labels.len() {
                Ok(goto(s, p.labels[l as int] as nat, st.drop_last()))
            } else {
                Err(RuntimeError::UndefinedLabel)
            }
        },
        Instruction::Jump(l) => {
            if l < p.labels.len() {
                Ok(goto(s, p.labels[l as int] as nat, st))
            } else {
                Err(RuntimeError::UndefinedLabel)
            }
        },
        Instruction::Call(name, k) => call_step(p, s, name@, k as nat),
        Instruction::Return => return_step(p, s),
        Instruction::Add => {
            if n < 2 {
                Err(RuntimeError::StackUnderflow)
            } else {
                binary_step(s, st[n - 2] + st[n - 1])
            }
        },
        Instruction::Subtract => {
            if n < 2 {
                Err(RuntimeError::StackUnderflow)
            } else {
                binary_step(s, st[n - 2] - st[n - 1])
            }
        },
        Instruction::LessThan => {
            if n < 2 {
                Err(RuntimeError::StackUnderflow)
            } else {
                binary_step(s, if st[n - 2] < st[n - 1] { 1 } else { 0 })
            }
        },
    }
}

/// Running `p` from `s` for at most `fuel` instructions: the state once the
/// program counter is past the last instruction; or why the run stopped
/// early, with the lines printed until then.
pub open spec fn run(p: ProgramModel, s: VmState, fuel: nat) -> Result<VmState, (RuntimeError, Seq<Seq<i32>>)>
    decreases fuel,
{
    if s.pc >= p.instructions.len() {
        Ok(s)
    } else if fuel == 0 {
        Err((RuntimeError::StepLimit, s.output))
    } else {
        match step(p, s) {
            Err(e) => Err((e, s.output)),
            Ok(next) => run(p, next, (fuel - 1) as nat),
        }
    }
}

/// What a finished run leaves: the printed lines, and the value stack.
#[derive(Debug)]
pub struct Outcome {
    pub output: Vec<Vec<i32>>,
    pub stack: Vec<i32>,
}

/// A run that stopped early: why, and the lines printed before it stopped.
#[derive(Debug)]
pub struct Abort {
    pub error: RuntimeError,
    pub output: Vec<Vec<i32>>,
}

struct Machine {
    pc: usize,
    fp: usize,
    stack: Vec<i32>,
    output: Vec<Vec<i32>>,
}

impl View for Machine {
    type V = VmState;

    closed spec fn view(&self) -> VmState {
        VmState {
            pc: self.pc as nat,
            fp: self.fp as nat,
            stack: self.stack@,
            output: self.output.deep_view(),
        }
    }
}

/// The index of the latest function named `name`.
fn find_function(fs: &Vec<FunctionSymbol>, name: &String) -> (r: Option<usize>)
    ensures
        match function_named(fs@, name@) {
            Some(f) => r matches Some(i) && i < fs@.len() && fs@[i as int] == f,
            None => r is None,
        },
{
    let mut i: usize = fs.len();
    assert(fs@.subrange(0, i as int) =~= fs@);
    while i > 0
        invariant
            i <= fs@.len(),
            function_named(fs@, name@) == function_named(fs@.subrange(0, i as int), name@),
        decreases i,
    {
        assert(fs@.subrange(0, i as int).drop_last() =~= fs@.subrange(0, i - 1));
        if fs[i - 1].name == *name {
            return Some(i - 1);
        }
        i -= 1;
    }
    None
}

impl Machine {
    /// Extends the stack with zeros up to `len` values.
    fn grow(&mut self, len: usize)
        requires
            old(self).stack@.len() <= len,
        ensures
            final(self)@ == (VmState {
                stack: old(self).stack@ + zeros((len - old(self).stack@.len()) as nat),
                ..old(self)@
            }),
    {
        let ghost start = self.stack@;
        while self.stack.len() < len
            invariant
                start.len() <= self.stack@.len() <= len,
                self.stack@ == start + zeros((self.stack@.len() - start.len()) as nat),
                self.pc == old(self).pc,
                self.fp == old(self).fp,
                self.output == old(self).output,
            decreases len - self.stack@.len(),
        {
            self.stack.push(0);
            assert(self.stack@ =~= start + zeros((self.stack@.len() - start.len()) as nat));
        }
    }

    fn binary(&mut self, value: Option<i32>) -> (r: Result<(), RuntimeError>)
        requires
            old(self).stack@.len() >= 2,
            old(self).pc < usize::MAX,
        ensures
            match value {
                Some(v) => r is Ok && final(self)@ == advance(
                    old(self)@,
                    old(self).stack@.subrange(0, old(self).stack@.len() - 2).push(v),
                ),
                None => r == Err::<(), RuntimeError>(RuntimeError::Overflow) && final(self)@.output
                    == old(self)@.output,
            },
    {
        match value {
            Some(v) => {
                let n = self.stack.len();
                self.stack.truncate(n - 2);
                self.stack.push(v);
                self.pc = self.pc + 1;
                Ok(())
            },
            None => Err(RuntimeError::Overflow),
        }
    }

    fn call(&mut self, pgrm: &Program, name: &String, k: usize) -> (r: Result<(), RuntimeError>)
        requires
            old(self).pc < pgrm@.instructions.len(),
        ensures
            match call_step(pgrm@, old(self)@, name@, k as nat) {
                Ok(s) => r is Ok && final(self)@ == s,
                Err(e) => r == Err::<(), RuntimeError>(e) && final(self)@.output == old(self)@.output,
            },
    {
        let count = pgrm.instructions.len();
        assert(self.pc < count);
        let n = self.stack.len();
        if text_is(name, "print") {
            if k > n {
                return Err(RuntimeError::StackUnderflow);
            }
            let ghost before = self.output.deep_view();
            let printed = self.stack.split_off(n - k);
            assert(printed.deep_view() =~= printed@);
            self.output.push(printed);
            assert(self.output.deep_view() =~= before.push(printed@));
            self.pc = self.pc + 1;
            return Ok(());
        }
        match find_function(&pgrm.functions, name) {
            None => Err(RuntimeError::UndefinedFunction),
            Some(index) => {
                let f = &pgrm.functions[index];
                if self.fp as u64 > i32::MAX as u64 || self.pc as u64 >= i32::MAX as u64 || f.arity as u64
                    > i32::MAX as u64 {
                    return Err(RuntimeError::Overflow);
                }
                self.stack.push(self.fp as i32);
                self.stack.push((self.pc + 1) as i32);
                self.stack.push(f.arity as i32);
                let base = self.stack.len();
                self.fp = base;
                self.pc = f.location;
                if f.local_count > usize::MAX - base {
                    return Err(RuntimeError::Overflow);
                }
                self.grow(base + f.local_count);
                Ok(())
            },
        }
    }

    fn ret(&mut self, pgrm: &Program) -> (r: Result<(), RuntimeError>)
        ensures
            match return_step(pgrm@, old(self)@) {
                Ok(s) => r is Ok && final(self)@ == s,
                Err(e) => r == Err::<(), RuntimeError>(e) && final(self)@.output == old(self)@.output,
            },
    {
        let value = match self.stack.pop() {
            Some(v) => v,
            None => { return Err(RuntimeError::StackUnderflow); },
        };
        if self.fp == 0 {
            self.stack.clear();
            self.stack.push(value);
            assert(self.stack@ =~= seq![value]);
            self.pc = pgrm.instructions.len();
            return Ok(());
        }
        // Discard the frame's locals and operands.
        if self.fp < self.stack.len() {
            self.stack.truncate(self.fp);
        }
        let n = self.stack.len();
        if n < 3 {
            return Err(RuntimeError::StackUnderflow);
        }
        let argc = self.stack[n - 1];
        let ret_pc = self.stack[n - 2];
        let ret_fp = self.stack[n - 3];
        if argc < 0 || ret_pc < 0 || ret_fp < 0 {
            return Err(RuntimeError::BrokenFrame);
        }
        if argc as u64 > (n - 3) as u64 {
            return Err(RuntimeError::StackUnderflow);
        }
        // Discard the saved frame and the arguments, and hand the value back.
        self.stack.truncate(n - 3 - argc as usize);
        self.stack.push(value);
        self.pc = ret_pc as usize;
        self.fp = ret_fp as usize;
        Ok(())
    }

    fn step(&mut self, pgrm: &Program) -> (r: Result<(), RuntimeError>)
        requires
            old(self).pc < pgrm@.instructions.len(),
        ensures
            match step(pgrm@, old(self)@) {
                Ok(s) => r is Ok && final(self)@ == s,
                Err(e) => r == Err::<(), RuntimeError>(e) && final(self)@.output == old(self)@.output,
            },
    {
        let count = pgrm.instructions.len();
        assert(self.pc < count);
        let n = self.stack.len();
        match &pgrm.instructions[self.pc] {
            Instruction::PushConstant(v) => {
                self.stack.push(*v);
                self.pc = self.pc + 1;
                Ok(())
            },
            Instruction::LoadSlot(i) => {
                if *i < n && self.fp < n - *i {
                    let v = self.stack[self.fp + *i];
                    self.stack.push(v);
                    self.pc = self.pc + 1;
                    Ok(())
                } else {
                    Err(RuntimeError::SlotOutOfRange)
                }
            },
            Instruction::BindArgument(slot, off) => {
                if self.fp >= 4 && *off <= self.fp - 4 && self.fp - 4 - *off < n && *slot < n && self.fp
                    < n - *slot {
                    let v = self.stack[self.fp - 4 - *off];
                    self.stack.set(self.fp + *slot, v);
                    self.pc = self.pc + 1;
                    Ok(())
                } else {
                    Err(RuntimeError::SlotOutOfRange)
                }
            },
            Instruction::StoreSlot(i) => {
                if n == 0 {
                    return Err(RuntimeError::StackUnderflow);
                }
                if *i >= usize::MAX - self.fp {
                    return Err(RuntimeError::SlotOutOfRange);
                }
                let ghost start = self@;
                let v = self.stack.pop().unwrap();
                let a = self.fp + *i;
                if self.stack.len() <= a {
                    self.grow(a + 1);
                }
                self.stack.set(a, v);
                self.pc = self.pc + 1;
                assert(self@.stack =~= step(pgrm@, start)->Ok_0.stack);
                Ok(())
            },
            Instruction::BranchIfFalse(l) => {
                let v = match self.stack.pop() {
                    Some(v) => v,
                    None => { return Err(RuntimeError::StackUnderflow); },
                };
                if v != 0 {
                    self.pc = self.pc + 1;
                    Ok(())
                } else if *l < pgrm.labels.len() {
                    self.pc = pgrm.labels[*l];
                    Ok(())
                } else {
                    Err(RuntimeError::UndefinedLabel)
                }
            },
            Instruction::Jump(l) => {
                if *l < pgrm.labels.len() {
                    self.pc = pgrm.labels[*l];
                    Ok(())
                } else {
                    Err(RuntimeError::UndefinedLabel)
                }
            },
            Instruction::Call(name, k) => self.call(pgrm, name, *k),
            Instruction::Return => self.ret(pgrm),
            Instruction::Add => {
                if n < 2 {
                    return Err(RuntimeError::StackUnderflow);
                }
                let value = self.stack[n - 2].checked_add(self.stack[n - 1]);
                self.binary(value)
            },
            Instruction::Subtract => {
                if n < 2 {
                    return Err(RuntimeError::StackUnderflow);
                }
                let value = self.stack[n - 2].checked_sub(self.stack[n - 1]);
                self.binary(value)
            },
            Instruction::LessThan => {
                if n < 2 {
                    return Err(RuntimeError::StackUnderflow);
                }
                let value: i32 = if self.stack[n - 2] < self.stack[n - 1] { 1 } else { 0 };
                self.binary(Some(value))
            },
        }
    }
}

/// Runs a compiled program from its first instruction, with an empty stack
/// and no frame, until the program counter passes the last instruction;
/// `max_steps` bounds the number of instructions run. A run that stops
/// early hands back why, with the lines printed before it stopped.
pub fn eval(pgrm: &Program, max_steps: u64) -> (r: Result<Outcome, Abort>)
    ensures
        match run(pgrm@, initial_state(), max_steps as nat) {
            Ok(s) => r matches Ok(o) && o.output.deep_view() == s.output && o.stack@ == s.stack,
            Err((e, out)) => r matches Err(a) && a.error == e && a.output.deep_view() == out,
        },
{
    let mut m = Machine { pc: 0, fp: 0, stack: Vec::new(), output: Vec::new() };
    assert(m@ =~= initial_state());
    let mut fuel = max_steps;
    while m.pc < pgrm.instructions.len()
        invariant
            run(pgrm@, m@, fuel as nat) == run(pgrm@, initial_state(), max_steps as nat),
        decreases fuel,
    {
        if fuel == 0 {
            return Err(Abort { error: RuntimeError::StepLimit, output: m.output });
        }
        match m.step(pgrm) {
            Ok(()) => {},
            Err(e) => {
                return Err(Abort { error: e, output: m.output });
            },
        }
        fuel = fuel - 1;
    }
    Ok(Outcome { output: m.output, stack: m.stack })
}

} // verus!
