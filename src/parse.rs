//! The syntax tree, and parsing of tokens into it.
use crate::lex::{diagnostic_text, Token, TokenKind};
use crate::text::text_is;
use vstd::prelude::*;

verus! {

#[derive(Debug)]
pub enum Literal {
    Identifier(Token),
    Number(Token),
}

#[derive(Debug)]
pub struct FunctionCall {
    pub name: Token,
    pub arguments: Vec<Expression>,
}

#[derive(Debug)]
pub struct BinaryOperation {
    pub operator: Token,
    pub left: Box<Expression>,
    pub right: Box<Expression>,
}

#[derive(Debug)]
pub enum Expression {
    FunctionCall(FunctionCall),
    BinaryOperation(BinaryOperation),
    Literal(Literal),
}

#[derive(Debug)]
pub struct FunctionDeclaration {
    pub name: Token,
    pub parameters: Vec<Token>,
    pub body: Vec<Statement>,
}

#[derive(Debug)]
pub struct If {
    pub test: Expression,
    pub body: Vec<Statement>,
}

#[derive(Debug)]
pub struct Local {
    pub name: Token,
    pub expression: Expression,
}

#[derive(Debug)]
pub struct Return {
    pub expression: Expression,
}

#[derive(Debug)]
pub enum Statement {
    Expression(Expression),
    If(If),
    FunctionDeclaration(FunctionDeclaration),
    Return(Return),
    Local(Local),
}

pub type Ast = Vec<Statement>;

// ----- The grammar, as spec functions over the tokens -----

pub open spec fn is_keyword_token(ts: Seq<Token>, i: int, text: Seq<char>) -> bool {
    0 <= i < ts.len() && ts[i].kind == TokenKind::Keyword && ts[i].value@ == text
}

pub open spec fn is_syntax_token(ts: Seq<Token>, i: int, text: Seq<char>) -> bool {
    0 <= i < ts.len() && ts[i].kind == TokenKind::Syntax && ts[i].value@ == text
}

pub open spec fn is_identifier_token(ts: Seq<Token>, i: int) -> bool {
    0 <= i < ts.len() && ts[i].kind == TokenKind::Identifier
}

/// A number or an identifier.
pub open spec fn is_operand_token(ts: Seq<Token>, i: int) -> bool {
    0 <= i < ts.len() && (ts[i].kind == TokenKind::Number || ts[i].kind == TokenKind::Identifier)
}

/// `+`, `-` or `<`.
pub open spec fn is_operator_token(ts: Seq<Token>, i: int) -> bool {
    is_syntax_token(ts, i, "+"@) || is_syntax_token(ts, i, "-"@) || is_syntax_token(ts, i, "<"@)
}

/// The literal of an operand token.
pub open spec fn operand(t: Token) -> Expression {
    if t.kind == TokenKind::Number {
        Expression::Literal(Literal::Number(t))
    } else {
        Expression::Literal(Literal::Identifier(t))
    }
}

/// Where the expression that starts at `i` ends: an operand, a call
/// `name(arg, ...)`, or `operand operator operand`.
pub open spec fn expression_end(ts: Seq<Token>, i: int) -> Option<int>
    decreases ts.len() - i, 0int,
{
    if i < 0 || i >= ts.len() || !is_operand_token(ts, i) {
        None
    } else if is_syntax_token(ts, i + 1, "("@) {
        arguments_end(ts, i + 2, true)
    } else if !is_operator_token(ts, i + 1) {
        Some(i + 1)
    } else if is_operand_token(ts, i + 2) {
        Some(i + 3)
    } else {
        None
    }
}

/// Where the arguments that start at `k` end, past the closing parenthesis;
/// `first` tells that no argument came before.
pub open spec fn arguments_end(ts: Seq<Token>, k: int, first: bool) -> Option<int>
    decreases ts.len() - k, 1int,
{
    if k < 0 || k >= ts.len() {
        None
    } else if is_syntax_token(ts, k, ")"@) {
        Some(k + 1)
    } else if !first && !is_syntax_token(ts, k, ","@) {
        None
    } else {
        let k1 = if first { k } else { k + 1 };
        match expression_end(ts, k1) {
            Some(k2) => if k1 < k2 <= ts.len() {
                arguments_end(ts, k2, false)
            } else {
                None
            },
            None => None,
        }
    }
}

/// `e` is the expression that the tokens from `i` make.
pub open spec fn expression_tree(ts: Seq<Token>, i: int, e: Expression) -> bool
    decreases e, 0int,
{
    match e {
        Expression::Literal(_) => is_operand_token(ts, i) && e == operand(ts[i]) && !is_syntax_token(ts, i + 1, "("@)
            && !is_operator_token(ts, i + 1),
        Expression::BinaryOperation(b) => is_operand_token(ts, i) && !is_syntax_token(ts, i + 1, "("@)
            && is_operator_token(ts, i + 1) && is_operand_token(ts, i + 2)
            && *b.left == operand(ts[i]) && b.operator == ts[i + 1] && *b.right == operand(ts[i + 2]),
        Expression::FunctionCall(fc) => is_operand_token(ts, i) && is_syntax_token(ts, i + 1, "("@) && fc.name == ts[i]
            && arguments_tree(ts, i + 2, fc.arguments@, 0, true),
    }
}

/// `args[n..]` are the arguments that the tokens from `k` make, up to the
/// closing parenthesis.
pub open spec fn arguments_tree(ts: Seq<Token>, k: int, args: Seq<Expression>, n: int, first: bool) -> bool
    decreases args, args.len() - n,
{
    if n < 0 || n >= args.len() {
        is_syntax_token(ts, k, ")"@)
    } else {
        let k1 = if first { k } else { k + 1 };
        &&& !is_syntax_token(ts, k, ")"@)
        &&& expression_tree(ts, k1, args[n])
        &&& arguments_tree(ts, expression_end(ts, k1)->Some_0, args, n + 1, false)
    }
}

/// Where the body that starts at `k` ends, past its `end`.
pub open spec fn body_end(ts: Seq<Token>, k: int) -> Option<int>
    decreases ts.len() - k, 3int,
{
    if k < 0 || k >= ts.len() {
        None
    } else if is_keyword_token(ts, k, "end"@) {
        Some(k + 1)
    } else {
        match statement_end(ts, k) {
            Some(k2) => if k < k2 <= ts.len() {
                body_end(ts, k2)
            } else {
                None
            },
            None => None,
        }
    }
}

/// `if test then body end`.
pub open spec fn if_end(ts: Seq<Token>, i: int) -> Option<int>
    decreases ts.len() - i, 1int,
{
    if !is_keyword_token(ts, i, "if"@) {
        None
    } else {
        match expression_end(ts, i + 1) {
            Some(j) => if i < j && is_keyword_token(ts, j, "then"@) {
                body_end(ts, j + 1)
            } else {
                None
            },
            None => None,
        }
    }
}

/// `expression ;`.
pub open spec fn expression_statement_end(ts: Seq<Token>, i: int) -> Option<int> {
    match expression_end(ts, i) {
        Some(j) => if is_syntax_token(ts, j, ";"@) {
            Some(j + 1)
        } else {
            None
        },
        None => None,
    }
}

/// `return expression ;`.
pub open spec fn return_end(ts: Seq<Token>, i: int) -> Option<int> {
    if !is_keyword_token(ts, i, "return"@) {
        None
    } else {
        expression_statement_end(ts, i + 1)
    }
}

/// `local name = expression ;`.
pub open spec fn local_end(ts: Seq<Token>, i: int) -> Option<int> {
    if is_keyword_token(ts, i, "local"@) && is_identifier_token(ts, i + 1) && is_syntax_token(
        ts,
        i + 2,
        "="@,
    ) {
        expression_statement_end(ts, i + 3)
    } else {
        None
    }
}

/// Where the parameters that start at `k` end, past the closing
/// parenthesis; `first` tells that no parameter came before.
pub open spec fn parameters_end(ts: Seq<Token>, k: int, first: bool) -> Option<int>
    decreases ts.len() - k,
{
    if k < 0 || k >= ts.len() {
        None
    } else if is_syntax_token(ts, k, ")"@) {
        Some(k + 1)
    } else if !first && !is_syntax_token(ts, k, ","@) {
        None
    } else {
        let k1 = if first { k } else { k + 1 };
        if is_identifier_token(ts, k1) {
            parameters_end(ts, k1 + 1, false)
        } else {
            None
        }
    }
}

/// `function name(parameters) body end`.
pub open spec fn function_end(ts: Seq<Token>, i: int) -> Option<int>
    decreases ts.len() - i, 1int,
{
    if is_keyword_token(ts, i, "function"@) && is_identifier_token(ts, i + 1) && is_syntax_token(
        ts,
        i + 2,
        "("@,
    ) {
        match parameters_end(ts, i + 3, true) {
            Some(k) => if i < k <= ts.len() {
                body_end(ts, k)
            } else {
                None
            },
            None => None,
        }
    } else {
        None
    }
}

/// Where the statement that starts at `i` ends: the first of an `if`, an
/// expression statement, a `return`, a function declaration and a `local`
/// that the tokens make.
pub open spec fn statement_end(ts: Seq<Token>, i: int) -> Option<int>
    decreases ts.len() - i, 2int,
{
    if i < 0 || i >= ts.len() {
        None
    } else if if_end(ts, i) is Some {
        if_end(ts, i)
    } else if expression_statement_end(ts, i) is Some {
        expression_statement_end(ts, i)
    } else if return_end(ts, i) is Some {
        return_end(ts, i)
    } else if function_end(ts, i) is Some {
        function_end(ts, i)
    } else {
        local_end(ts, i)
    }
}

/// `s` is the statement that the tokens from `i` make.
pub open spec fn statement_tree(ts: Seq<Token>, i: int, s: Statement) -> bool
    decreases s, 1int,
{
    match s {
        Statement::If(x) => is_keyword_token(ts, i, "if"@) && expression_tree(ts, i + 1, x.test)
            && block_tree(ts, expression_end(ts, i + 1)->Some_0 + 1, x.body@, 0),
        Statement::Expression(e) => expression_tree(ts, i, e),
        Statement::Return(r) => is_keyword_token(ts, i, "return"@) && expression_tree(ts, i + 1, r.expression),
        Statement::Local(l) => is_keyword_token(ts, i, "local"@) && l.name == ts[i + 1] && expression_tree(
            ts,
            i + 3,
            l.expression,
        ),
        Statement::FunctionDeclaration(fd) => is_keyword_token(ts, i, "function"@) && fd.name == ts[i + 1]
            && parameters_tree(ts, i + 3, fd.parameters@, 0, true) && block_tree(
            ts,
            parameters_end(ts, i + 3, true)->Some_0,
            fd.body@,
            0,
        ),
    }
}

/// `body[n..]` are the statements that the tokens from `k` make, up to `end`.
pub open spec fn block_tree(ts: Seq<Token>, k: int, body: Seq<Statement>, n: int) -> bool
    decreases body, body.len() - n,
{
    if n < 0 || n >= body.len() {
        is_keyword_token(ts, k, "end"@)
    } else {
        &&& !is_keyword_token(ts, k, "end"@)
        &&& statement_tree(ts, k, body[n])
        &&& block_tree(ts, statement_end(ts, k)->Some_0, body, n + 1)
    }
}

/// `ps[n..]` are the parameters that the tokens from `k` name, up to the
/// closing parenthesis.
pub open spec fn parameters_tree(ts: Seq<Token>, k: int, ps: Seq<Token>, n: int, first: bool) -> bool
    decreases ps.len() - n,
{
    if n < 0 || n >= ps.len() {
        is_syntax_token(ts, k, ")"@)
    } else {
        let k1 = if first { k } else { k + 1 };
        &&& !is_syntax_token(ts, k, ")"@)
        &&& ps[n] == ts[k1]
        &&& parameters_tree(ts, k1 + 1, ps, n + 1, false)
    }
}

/// The index of the first token from `i` on where no statement starts,
/// reading statement after statement.
pub open spec fn program_error(ts: Seq<Token>, i: int) -> Option<int>
    decreases ts.len() - i,
{
    if i < 0 || i >= ts.len() {
        None
    } else {
        match statement_end(ts, i) {
            Some(j) => if i < j <= ts.len() {
                program_error(ts, j)
            } else {
                Some(i)
            },
            None => Some(i),
        }
    }
}

/// `ast[n..]` are the statements that the tokens from `i` make, up to the
/// last token.
pub open spec fn program_tree(ts: Seq<Token>, i: int, ast: Seq<Statement>, n: int) -> bool
    decreases ast.len() - n,
{
    if n < 0 || n >= ast.len() {
        i >= ts.len()
    } else {
        &&& i < ts.len()
        &&& statement_tree(ts, i, ast[n])
        &&& program_tree(ts, statement_end(ts, i)->Some_0, ast, n + 1)
    }
}

// ----- Progress: every construct ends after it starts -----

proof fn lemma_expression_progress(ts: Seq<Token>, i: int)
    ensures
        expression_end(ts, i) matches Some(j) ==> i < j <= ts.len(),
    decreases ts.len() - i, 0int,
{
    if 0 <= i < ts.len() && is_operand_token(ts, i) && is_syntax_token(ts, i + 1, "("@) {
        lemma_arguments_progress(ts, i + 2, true);
    }
}

proof fn lemma_arguments_progress(ts: Seq<Token>, k: int, first: bool)
    ensures
        arguments_end(ts, k, first) matches Some(j) ==> k < j <= ts.len(),
    decreases ts.len() - k, 1int,
{
    if 0 <= k < ts.len() && !is_syntax_token(ts, k, ")"@) && (first || is_syntax_token(ts, k, ","@)) {
        let k1 = if first { k } else { k + 1 };
        lemma_expression_progress(ts, k1);
        if let Some(k2) = expression_end(ts, k1) {
            if k1 < k2 <= ts.len() {
                lemma_arguments_progress(ts, k2, false);
            }
        }
    }
}

proof fn lemma_parameters_progress(ts: Seq<Token>, k: int, first: bool)
    ensures
        parameters_end(ts, k, first) matches Some(j) ==> k < j <= ts.len(),
    decreases ts.len() - k,
{
    if 0 <= k < ts.len() && !is_syntax_token(ts, k, ")"@) && (first || is_syntax_token(ts, k, ","@)) {
        let k1 = if first { k } else { k + 1 };
        if is_identifier_token(ts, k1) {
            lemma_parameters_progress(ts, k1 + 1, false);
        }
    }
}

proof fn lemma_body_progress(ts: Seq<Token>, k: int)
    ensures
        body_end(ts, k) matches Some(j) ==> k < j <= ts.len(),
    decreases ts.len() - k, 3int,
{
    if 0 <= k < ts.len() && !is_keyword_token(ts, k, "end"@) {
        if let Some(k2) = statement_end(ts, k) {
            if k < k2 <= ts.len() {
                lemma_body_progress(ts, k2);
            }
        }
    }
}

proof fn lemma_statement_progress(ts: Seq<Token>, i: int)
    ensures
        statement_end(ts, i) matches Some(j) ==> i < j <= ts.len(),
    decreases ts.len() - i, 2int,
{
    if 0 <= i < ts.len() {
        lemma_expression_progress(ts, i);
        lemma_expression_progress(ts, i + 1);
        lemma_expression_progress(ts, i + 3);
        if is_keyword_token(ts, i, "if"@) {
            if let Some(j) = expression_end(ts, i + 1) {
                if i < j && is_keyword_token(ts, j, "then"@) {
                    lemma_body_progress(ts, j + 1);
                }
            }
        }
        lemma_parameters_progress(ts, i + 3, true);
        if let Some(k) = parameters_end(ts, i + 3, true) {
            if i < k <= ts.len() {
                lemma_body_progress(ts, k);
            }
        }
    }
}

// ----- The parser -----

fn expect_keyword(tokens: &Vec<Token>, index: usize, value: &str) -> (r: bool)
    ensures
        r == is_keyword_token(tokens@, index as int, value@),
{
    if index >= tokens.len() {
        return false;
    }
    let t = &tokens[index];
    t.kind == TokenKind::Keyword && text_is(&t.value, value)
}

fn expect_syntax(tokens: &Vec<Token>, index: usize, value: &str) -> (r: bool)
    ensures
        r == is_syntax_token(tokens@, index as int, value@),
{
    if index >= tokens.len() {
        return false;
    }
    let t = &tokens[index];
    t.kind == TokenKind::Syntax && text_is(&t.value, value)
}

fn expect_identifier(tokens: &Vec<Token>, index: usize) -> (r: bool)
    ensures
        r == is_identifier_token(tokens@, index as int),
{
    if index >= tokens.len() {
        return false;
    }
    tokens[index].kind == TokenKind::Identifier
}

fn expect_operand(tokens: &Vec<Token>, index: usize) -> (r: bool)
    ensures
        r == is_operand_token(tokens@, index as int),
{
    if index >= tokens.len() {
        return false;
    }
    tokens[index].kind == TokenKind::Number || tokens[index].kind == TokenKind::Identifier
}

fn expect_operator(tokens: &Vec<Token>, index: usize) -> (r: bool)
    ensures
        r == is_operator_token(tokens@, index as int),
{
    expect_syntax(tokens, index, "+") || expect_syntax(tokens, index, "-") || expect_syntax(
        tokens,
        index,
        "<",
    )
}

/// The literal of an operand token.
fn literal_expression(t: &Token) -> (r: Expression)
    ensures
        r == operand(*t),
{
    if t.kind == TokenKind::Number {
        Expression::Literal(Literal::Number(t.copy()))
    } else {
        Expression::Literal(Literal::Identifier(t.copy()))
    }
}

fn parse_expression(tokens: &Vec<Token>, index: usize) -> (r: Option<(Expression, usize)>)
    ensures
        match expression_end(tokens@, index as int) {
            Some(j) => r matches Some((e, k)) && k == j && expression_tree(tokens@, index as int, e),
            None => r is None,
        },
    decreases tokens@.len() - index, 0int,
{
    let ghost ts = tokens@;
    let count = tokens.len();
    if !expect_operand(tokens, index) {
        return None;
    }
    let mut next_index = index + 1;
    if expect_syntax(tokens, next_index, "(") {
        // A function call.
        next_index += 1;
        let mut arguments: Vec<Expression> = Vec::new();
        let mut first = true;
        while !expect_syntax(tokens, next_index, ")")
            invariant
                ts == tokens@,
                index + 2 <= next_index <= ts.len(),
                is_operand_token(ts, index as int),
                is_syntax_token(ts, index + 1, "("@),
                first == (arguments@.len() == 0),
                expression_end(ts, index as int) == arguments_end(ts, next_index as int, first),
                forall|a: Seq<Expression>|
                    a.len() >= arguments@.len() && a.subrange(0, arguments@.len() as int) == arguments@
                        && #[trigger] arguments_tree(ts, next_index as int, a, arguments@.len() as int, first)
                        ==> arguments_tree(ts, index + 2, a, 0, true),
            decreases ts.len() - next_index,
        {
            if next_index >= tokens.len() {
                return None;
            }
            if !first {
                if !expect_syntax(tokens, next_index, ",") {
                    return None;
                }
            }
            let start = if first { next_index } else { next_index + 1 };
            match parse_expression(tokens, start) {
                None => { return None; },
                Some((arg, end)) => {
                    proof {
                        lemma_expression_progress(ts, start as int);
                        let n = arguments@.len() as int;
                        assert forall|a: Seq<Expression>|
                            a.len() >= n + 1 && a.subrange(0, n + 1) == arguments@.push(arg)
                                && #[trigger] arguments_tree(ts, end as int, a, n + 1, false)
                                implies arguments_tree(ts, index + 2, a, 0, true) by {
                            assert(a.subrange(0, n) =~= arguments@);
                            assert(a[n] == a.subrange(0, n + 1)[n]);
                            assert(arguments_tree(ts, next_index as int, a, n, first));
                        }
                    }
                    arguments.push(arg);
                    next_index = end;
                    first = false;
                },
            }
        }
        proof {
            let n = arguments@.len() as int;
            assert(arguments@.subrange(0, n) =~= arguments@);
            assert(arguments_tree(ts, next_index as int, arguments@, n, first));
        }
        let name = tokens[index].copy();
        return Some((Expression::FunctionCall(FunctionCall { name, arguments }), next_index + 1));
    }
    let left = literal_expression(&tokens[index]);
    // Might be a literal expression.
    if !expect_operator(tokens, next_index) {
        return Some((left, next_index));
    }
    // Otherwise it is a binary operation.
    let operator = tokens[next_index].copy();
    next_index += 1;
    if !expect_operand(tokens, next_index) {
        return None;
    }
    let right = literal_expression(&tokens[next_index]);
    next_index += 1;
    Some(
        (
            Expression::BinaryOperation(
                BinaryOperation { operator, left: Box::new(left), right: Box::new(right) },
            ),
            next_index,
        ),
    )
}

/// The statements of a body up to its `end`, and the index past the `end`.
fn parse_block(tokens: &Vec<Token>, index: usize) -> (r: Option<(Vec<Statement>, usize)>)
    ensures
        match body_end(tokens@, index as int) {
            Some(j) => r matches Some((b, k)) && k == j && block_tree(tokens@, index as int, b@, 0),
            None => r is None,
        },
    decreases tokens@.len() - index, 3int,
{
    let ghost ts = tokens@;
    let count = tokens.len();
    if index >= count {
        return None;
    }
    let mut statements: Vec<Statement> = Vec::new();
    let mut next_index = index;
    while !expect_keyword(tokens, next_index, "end")
        invariant
            ts == tokens@,
            count == ts.len(),
            index <= next_index <= ts.len(),
            body_end(ts, index as int) == body_end(ts, next_index as int),
            forall|a: Seq<Statement>|
                a.len() >= statements@.len() && a.subrange(0, statements@.len() as int) == statements@
                    && #[trigger] block_tree(ts, next_index as int, a, statements@.len() as int)
                    ==> block_tree(ts, index as int, a, 0),
        decreases ts.len() - next_index,
    {
        if next_index >= count {
            return None;
        }
        match parse_statement(tokens, next_index) {
            None => { return None; },
            Some((stmt, end)) => {
                proof {
                    lemma_statement_progress(ts, next_index as int);
                    let n = statements@.len() as int;
                    assert forall|a: Seq<Statement>|
                        a.len() >= n + 1 && a.subrange(0, n + 1) == statements@.push(stmt)
                            && #[trigger] block_tree(ts, end as int, a, n + 1)
                            implies block_tree(ts, index as int, a, 0) by {
                        assert(a.subrange(0, n) =~= statements@);
                        assert(a[n] == a.subrange(0, n + 1)[n]);
                        assert(block_tree(ts, next_index as int, a, n));
                    }
                }
                statements.push(stmt);
                next_index = end;
            },
        }
    }
    proof {
        let n = statements@.len() as int;
        assert(statements@.subrange(0, n) =~= statements@);
        assert(block_tree(ts, next_index as int, statements@, n));
    }
    Some((statements, next_index + 1))
}

fn parse_if(tokens: &Vec<Token>, index: usize) -> (r: Option<(Statement, usize)>)
    ensures
        match if_end(tokens@, index as int) {
            Some(j) => r matches Some((s, k)) && k == j && statement_tree(tokens@, index as int, s),
            None => r is None,
        },
    decreases tokens@.len() - index, 1int,
{
    if !expect_keyword(tokens, index, "if") {
        return None;
    }
    let count = tokens.len();
    let (test, next_index) = match parse_expression(tokens, index + 1) {
        Some(res) => res,
        None => { return None; },
    };
    proof {
        lemma_expression_progress(tokens@, index + 1);
    }
    if !expect_keyword(tokens, next_index, "then") {
        return None;
    }
    let (body, end) = match parse_block(tokens, next_index + 1) {
        Some(res) => res,
        None => { return None; },
    };
    Some((Statement::If(If { test, body }), end))
}

fn parse_expression_statement(tokens: &Vec<Token>, index: usize) -> (r: Option<(Statement, usize)>)
    ensures
        match expression_statement_end(tokens@, index as int) {
            Some(j) => r matches Some((s, k)) && k == j && statement_tree(tokens@, index as int, s),
            None => r is None,
        },
{
    let count = tokens.len();
    let (expr, next_index) = match parse_expression(tokens, index) {
        Some(res) => res,
        None => { return None; },
    };
    if !expect_syntax(tokens, next_index, ";") {
        return None;
    }
    Some((Statement::Expression(expr), next_index + 1))
}

fn parse_return(tokens: &Vec<Token>, index: usize) -> (r: Option<(Statement, usize)>)
    ensures
        match return_end(tokens@, index as int) {
            Some(j) => r matches Some((s, k)) && k == j && statement_tree(tokens@, index as int, s),
            None => r is None,
        },
{
    if !expect_keyword(tokens, index, "return") {
        return None;
    }
    let count = tokens.len();
    let (expression, next_index) = match parse_expression(tokens, index + 1) {
        Some(res) => res,
        None => { return None; },
    };
    if !expect_syntax(tokens, next_index, ";") {
        return None;
    }
    Some((Statement::Return(Return { expression }), next_index + 1))
}

fn parse_local(tokens: &Vec<Token>, index: usize) -> (r: Option<(Statement, usize)>)
    ensures
        match local_end(tokens@, index as int) {
            Some(j) => r matches Some((s, k)) && k == j && statement_tree(tokens@, index as int, s),
            None => r is None,
        },
{
    let count = tokens.len();
    if !expect_keyword(tokens, index, "local") || !expect_identifier(tokens, index + 1) || !expect_syntax(
        tokens,
        index + 2,
        "=",
    ) {
        return None;
    }
    let name = tokens[index + 1].copy();
    let (expression, next_index) = match parse_expression(tokens, index + 3) {
        Some(res) => res,
        None => { return None; },
    };
    if !expect_syntax(tokens, next_index, ";") {
        return None;
    }
    Some((Statement::Local(Local { name, expression }), next_index + 1))
}

fn parse_function(tokens: &Vec<Token>, index: usize) -> (r: Option<(Statement, usize)>)
    ensures
        match function_end(tokens@, index as int) {
            Some(j) => r matches Some((s, k)) && k == j && statement_tree(tokens@, index as int, s),
            None => r is None,
        },
    decreases tokens@.len() - index, 1int,
{
    let ghost ts = tokens@;
    let count = tokens.len();
    if !expect_keyword(tokens, index, "function") || !expect_identifier(tokens, index + 1)
        || !expect_syntax(tokens, index + 2, "(") {
        return None;
    }
    let name = tokens[index + 1].copy();
    let mut next_index = index + 3;
    let mut parameters: Vec<Token> = Vec::new();
    let mut first = true;
    while !expect_syntax(tokens, next_index, ")")
        invariant
            ts == tokens@,
            count == ts.len(),
            index + 3 <= next_index <= ts.len(),
            first == (parameters@.len() == 0),
            parameters_end(ts, index + 3, true) == parameters_end(ts, next_index as int, first),
            forall|a: Seq<Token>|
                a.len() >= parameters@.len() && a.subrange(0, parameters@.len() as int) == parameters@
                    && #[trigger] parameters_tree(ts, next_index as int, a, parameters@.len() as int, first)
                    ==> parameters_tree(ts, index + 3, a, 0, true),
        decreases ts.len() - next_index,
    {
        if next_index >= count {
            return None;
        }
        if !first {
            if !expect_syntax(tokens, next_index, ",") {
                return None;
            }
        }
        let at = if first { next_index } else { next_index + 1 };
        if !expect_identifier(tokens, at) {
            return None;
        }
        let param = tokens[at].copy();
        proof {
            let n = parameters@.len() as int;
            assert forall|a: Seq<Token>|
                a.len() >= n + 1 && a.subrange(0, n + 1) == parameters@.push(param)
                    && #[trigger] parameters_tree(ts, at + 1, a, n + 1, false)
                    implies parameters_tree(ts, index + 3, a, 0, true) by {
                assert(a.subrange(0, n) =~= parameters@);
                assert(a[n] == a.subrange(0, n + 1)[n]);
                assert(parameters_tree(ts, next_index as int, a, n, first));
            }
        }
        parameters.push(param);
        next_index = at + 1;
        first = false;
    }
    proof {
        let n = parameters@.len() as int;
        assert(parameters@.subrange(0, n) =~= parameters@);
        assert(parameters_tree(ts, next_index as int, parameters@, n, first));
    }
    let (body, end) = match parse_block(tokens, next_index + 1) {
        Some(res) => res,
        None => { return None; },
    };
    Some((Statement::FunctionDeclaration(FunctionDeclaration { name, parameters, body }), end))
}

fn parse_statement(tokens: &Vec<Token>, index: usize) -> (r: Option<(Statement, usize)>)
    ensures
        match statement_end(tokens@, index as int) {
            Some(j) => r matches Some((s, k)) && k == j && statement_tree(tokens@, index as int, s),
            None => r is None,
        },
    decreases tokens@.len() - index, 2int,
{
    if index >= tokens.len() {
        return None;
    }
    let res = parse_if(tokens, index);
    if res.is_some() {
        return res;
    }
    let res = parse_expression_statement(tokens, index);
    if res.is_some() {
        return res;
    }
    let res = parse_return(tokens, index);
    if res.is_some() {
        return res;
    }
    let res = parse_function(tokens, index);
    if res.is_some() {
        return res;
    }
    parse_local(tokens, index)
}

/// Parses tokens lexed from `raw` into statements; a token where no
/// statement starts fails with its diagnostic.
pub fn parse(raw: &Vec<char>, tokens: Vec<Token>) -> (r: Result<Ast, String>)
    ensures
        match program_error(tokens@, 0) {
            None => r matches Ok(ast) && program_tree(tokens@, 0, ast@, 0),
            Some(j) => r matches Err(m) && m@ == diagnostic_text(
                raw@,
                tokens@[j].loc,
                "Invalid token while parsing:"@,
            ),
        },
{
    let ghost ts = tokens@;
    let mut ast: Vec<Statement> = Vec::new();
    let mut index: usize = 0;
    let ntokens = tokens.len();
    while index < ntokens
        invariant
            ts == tokens@,
            ntokens == ts.len(),
            index <= ntokens,
            program_error(ts, 0) == program_error(ts, index as int),
            forall|a: Seq<Statement>|
                a.len() >= ast@.len() && a.subrange(0, ast@.len() as int) == ast@
                    && #[trigger] program_tree(ts, index as int, a, ast@.len() as int)
                    ==> program_tree(ts, 0, a, 0),
        decreases ntokens - index,
    {
        match parse_statement(&tokens, index) {
            Some((stmt, next_index)) => {
                proof {
                    lemma_statement_progress(ts, index as int);
                    let n = ast@.len() as int;
                    assert forall|a: Seq<Statement>|
                        a.len() >= n + 1 && a.subrange(0, n + 1) == ast@.push(stmt)
                            && #[trigger] program_tree(ts, next_index as int, a, n + 1)
                            implies program_tree(ts, 0, a, 0) by {
                        assert(a.subrange(0, n) =~= ast@);
                        assert(a[n] == a.subrange(0, n + 1)[n]);
                        assert(program_tree(ts, index as int, a, n));
                    }
                }
                ast.push(stmt);
                index = next_index;
            },
            None => {
                return Err(tokens[index].loc.debug(raw, "Invalid token while parsing:"));
            },
        }
    }
    proof {
        let n = ast@.len() as int;
        assert(ast@.subrange(0, n) =~= ast@);
        assert(program_tree(ts, index as int, ast@, n));
    }
    Ok(ast)
}

} // verus!
