use vstd::prelude::*;
use vstd::string::*;
use crate::lexer::{Position, ArithToken, Lexer, arith_token};
use crate::settings::Settings;
use crate::text::string_from_chars;

verus! {

/// An operator that joins two operands.
#[derive(Copy, Clone, Debug, PartialEq, Eq, Structural)]
pub enum BinaryOperator {
    Multiply,
    Divide,
    Modulo,
    Add,
    Substract,
    ShiftLeft,
    ShiftRight,
    LessThan,
    GreaterThan,
    LessEqual,
    GreaterEqual,
    Equal,
    NotEqual,
    And,
    ExclusiveOr,
    Or,
    LogicalAnd,
    LogicalOr,
    Assign,
    MultiplyAssign,
    DivideAssign,
    ModuloAssign,
    AddAssign,
    SubstractAssign,
    ShiftLeftAssign,
    ShiftRightAssign,
    AndAssign,
    ExclusiveOrAssign,
    OrAssign,
}

/// An operator with one operand.
#[derive(Copy, Clone, Debug, PartialEq, Eq, Structural)]
pub enum UnaryOperator {
    /// `-`
    Negate,
    /// `~`
    Not,
    /// `!`
    LogicalNot,
}

/// The name of a parameter.
pub enum ParameterName {
    Variable(String),
}

/// An arithmetic expression; each node carries the script name and the
/// position where it starts.
pub enum ArithmeticExpression {
    Number(String, Position, i64),
    Parameter(String, Position, ParameterName),
    Binary(String, Position, Box<ArithmeticExpression>, BinaryOperator, Box<ArithmeticExpression>),
    Unary(String, Position, UnaryOperator, Box<ArithmeticExpression>),
    Conditional(String, Position, Box<ArithmeticExpression>, Box<ArithmeticExpression>, Box<ArithmeticExpression>),
}

/// An arithmetic expression with its strings as character sequences.
pub enum ArithExprView {
    Number(Seq<char>, Position, i64),
    Parameter(Seq<char>, Position, Seq<char>),
    Binary(Seq<char>, Position, Box<ArithExprView>, BinaryOperator, Box<ArithExprView>),
    Unary(Seq<char>, Position, UnaryOperator, Box<ArithExprView>),
    Conditional(Seq<char>, Position, Box<ArithExprView>, Box<ArithExprView>, Box<ArithExprView>),
}

/// The view of an arithmetic expression.
pub open spec fn arith_view(e: ArithmeticExpression) -> ArithExprView
    decreases e,
{
    match e {
        ArithmeticExpression::Number(p, pos, n) => ArithExprView::Number(p@, pos, n),
        ArithmeticExpression::Parameter(p, pos, ParameterName::Variable(name)) => ArithExprView::Parameter(
            p@,
            pos,
            name@,
        ),
        ArithmeticExpression::Binary(p, pos, l, op, r) => ArithExprView::Binary(
            p@,
            pos,
            Box::new(arith_view(*l)),
            op,
            Box::new(arith_view(*r)),
        ),
        ArithmeticExpression::Unary(p, pos, op, e1) => ArithExprView::Unary(p@, pos, op, Box::new(arith_view(*e1))),
        ArithmeticExpression::Conditional(p, pos, c, t, f) => ArithExprView::Conditional(
            p@,
            pos,
            Box::new(arith_view(*c)),
            Box::new(arith_view(*t)),
            Box::new(arith_view(*f)),
        ),
    }
}

impl View for ArithmeticExpression {
    type V = ArithExprView;

    open spec fn view(&self) -> ArithExprView {
        arith_view(*self)
    }
}

/// Why a script could not be parsed.
pub enum ParserError {
    /// A syntax error in the script named first, at the position, with a
    /// message; the flag says whether more input could complete the script.
    Syntax(String, Position, String, bool),
}

/// A parser error with its strings as character sequences.
pub enum ParserErrorView {
    Syntax(Seq<char>, Position, Seq<char>, bool),
}

impl View for ParserError {
    type V = ParserErrorView;

    open spec fn view(&self) -> ParserErrorView {
        match *self {
            ParserError::Syntax(p, pos, msg, cont) => ParserErrorView::Syntax(p@, pos, msg@, cont),
        }
    }
}

/// The parser of scripts; it keeps the here-documents whose bodies are still
/// to be read.
pub struct Parser {
    pub here_docs: Vec<String>,
}

impl Parser {
    /// A parser with no pending here-documents.
    pub fn new() -> (res: Parser)
        ensures
            res.here_docs@ == Seq::<String>::empty(),
    {
        Parser { here_docs: Vec::new() }
    }
}

/// The binding level of a binary operator, from 2 (`||`) to 11 (`*`, `/`,
/// `%`); the assignments, which bind right to left at the lowest level, have 0.
pub open spec fn binary_level(op: BinaryOperator) -> int {
    match op {
        BinaryOperator::Multiply | BinaryOperator::Divide | BinaryOperator::Modulo => 11,
        BinaryOperator::Add | BinaryOperator::Substract => 10,
        BinaryOperator::ShiftLeft | BinaryOperator::ShiftRight => 9,
        BinaryOperator::LessThan | BinaryOperator::GreaterThan | BinaryOperator::LessEqual
        | BinaryOperator::GreaterEqual => 8,
        BinaryOperator::Equal | BinaryOperator::NotEqual => 7,
        BinaryOperator::And => 6,
        BinaryOperator::ExclusiveOr => 5,
        BinaryOperator::Or => 4,
        BinaryOperator::LogicalAnd => 3,
        BinaryOperator::LogicalOr => 2,
        _ => 0,
    }
}

/// The result of parsing from some state: the expression with the index and
/// position after it, or the error.
pub type ArithParse = Result<(ArithExprView, int, Position), ParserErrorView>;

/// The syntax error at `pos`; more input could complete the expression when
/// the error is at the end of the input.
pub open spec fn syntax_error(path: Seq<char>, pos: Position, at_end: bool) -> ParserErrorView {
    ParserErrorView::Syntax(path, pos, "syntax error"@, at_end)
}

/// A bound on the steps of the arithmetic parser from index `i` of an input of
/// `len` characters, for a parsing function of the given rank; each step either
/// reads a token or goes to a function of lower rank.
pub open spec fn parse_measure(len: int, i: int, rank: int) -> nat {
    ((len - i) * 16 + rank) as nat
}

/// A primary expression: a number, a variable, or an expression in
/// parentheses. The parsing functions take `fuel` steps at most; the fuel that
/// `parse_measure` gives is never used up.
pub open spec fn parse_primary(chars: Seq<char>, path: Seq<char>, i: int, pos: Position, fuel: nat) -> ArithParse
    decreases fuel,
{
    if fuel == 0 {
        Err(syntax_error(path, pos, false))
    } else {
        let (tok, s, tpos, e, epos) = arith_token(chars, i, pos);
        match tok {
            ArithToken::Number(n) => Ok((ArithExprView::Number(path, tpos, n), e, epos)),
            ArithToken::Name => Ok((ArithExprView::Parameter(path, tpos, chars.subrange(s, e)), e, epos)),
            ArithToken::LeftParen => match parse_expr(chars, path, e, epos, (fuel - 1) as nat) {
                Ok((x, j, jpos)) => {
                    let (t2, s2, t2pos, e2, epos2) = arith_token(chars, j, jpos);
                    if t2 == ArithToken::RightParen {
                        Ok((x, e2, epos2))
                    } else {
                        Err(syntax_error(path, t2pos, t2 == ArithToken::End))
                    }
                },
                Err(err) => Err(err),
            },
            _ => Err(syntax_error(path, tpos, tok == ArithToken::End)),
        }
    }
}

/// `op` applied at `pos` to the expression that `r` parsed, if any.
pub open spec fn unary_of(path: Seq<char>, pos: Position, op: UnaryOperator, r: ArithParse) -> ArithParse {
    match r {
        Ok((x, j, jpos)) => Ok((ArithExprView::Unary(path, pos, op, Box::new(x)), j, jpos)),
        Err(err) => Err(err),
    }
}

/// A unary expression: `+`, `-`, `~` or `!` before a unary expression, or a
/// primary expression. `+` leaves its operand as it is.
pub open spec fn parse_unary(chars: Seq<char>, path: Seq<char>, i: int, pos: Position, fuel: nat) -> ArithParse
    decreases fuel,
{
    if fuel == 0 {
        Err(syntax_error(path, pos, false))
    } else {
        let (tok, s, tpos, e, epos) = arith_token(chars, i, pos);
        match tok {
            ArithToken::Operator(BinaryOperator::Add) => parse_unary(chars, path, e, epos, (fuel - 1) as nat),
            ArithToken::Operator(BinaryOperator::Substract) => unary_of(
                path,
                tpos,
                UnaryOperator::Negate,
                parse_unary(chars, path, e, epos, (fuel - 1) as nat),
            ),
            ArithToken::Tilde => unary_of(path, tpos, UnaryOperator::Not, parse_unary(chars, path, e, epos, (fuel - 1) as nat)),
            ArithToken::Bang => unary_of(
                path,
                tpos,
                UnaryOperator::LogicalNot,
                parse_unary(chars, path, e, epos, (fuel - 1) as nat),
            ),
            _ => parse_primary(chars, path, i, pos, (fuel - 1) as nat),
        }
    }
}

/// The operators of binding level `level` and above, joined left to right;
/// level 12 is that of the unary expressions.
pub open spec fn parse_binary(chars: Seq<char>, path: Seq<char>, level: int, i: int, pos: Position, fuel: nat) -> ArithParse
    decreases fuel,
{
    if fuel == 0 {
        Err(syntax_error(path, pos, false))
    } else if level >= 12 {
        parse_unary(chars, path, i, pos, (fuel - 1) as nat)
    } else {
        let start = arith_token(chars, i, pos).2;
        match parse_binary(chars, path, level + 1, i, pos, (fuel - 1) as nat) {
            Ok((lhs, j, jpos)) => parse_binary_rest(chars, path, level, start, lhs, j, jpos, (fuel - 1) as nat),
            Err(err) => Err(err),
        }
    }
}

/// The rest of a chain of operators of binding level `level` after the left
/// operand `lhs`, which started at `start`.
pub open spec fn parse_binary_rest(
    chars: Seq<char>,
    path: Seq<char>,
    level: int,
    start: Position,
    lhs: ArithExprView,
    i: int,
    pos: Position,
    fuel: nat,
) -> ArithParse
    decreases fuel,
{
    if fuel == 0 {
        Err(syntax_error(path, pos, false))
    } else {
        let (tok, s, tpos, e, epos) = arith_token(chars, i, pos);
        match tok {
            ArithToken::Operator(op) => if binary_level(op) == level {
                match parse_binary(chars, path, level + 1, e, epos, (fuel - 1) as nat) {
                    Ok((rhs, j, jpos)) => parse_binary_rest(
                        chars,
                        path,
                        level,
                        start,
                        ArithExprView::Binary(path, start, Box::new(lhs), op, Box::new(rhs)),
                        j,
                        jpos,
                        (fuel - 1) as nat,
                    ),
                    Err(err) => Err(err),
                }
            } else {
                Ok((lhs, i, pos))
            },
            _ => Ok((lhs, i, pos)),
        }
    }
}

/// An expression: a chain of binary operators, then an assignment, which binds
/// right to left, or a conditional `? :`, whose branches are expressions.
pub open spec fn parse_expr(chars: Seq<char>, path: Seq<char>, i: int, pos: Position, fuel: nat) -> ArithParse
    decreases fuel,
{
    if fuel == 0 {
        Err(syntax_error(path, pos, false))
    } else {
        let start = arith_token(chars, i, pos).2;
        match parse_binary(chars, path, 2, i, pos, (fuel - 1) as nat) {
            Ok((lhs, j, jpos)) => {
                let (tok, s, tpos, e, epos) = arith_token(chars, j, jpos);
                match tok {
                    ArithToken::Operator(op) => if binary_level(op) == 0 {
                        match parse_expr(chars, path, e, epos, (fuel - 1) as nat) {
                            Ok((rhs, k, kpos)) => Ok(
                                (ArithExprView::Binary(path, start, Box::new(lhs), op, Box::new(rhs)), k, kpos),
                            ),
                            Err(err) => Err(err),
                        }
                    } else {
                        Ok((lhs, j, jpos))
                    },
                    ArithToken::Question => match parse_expr(chars, path, e, epos, (fuel - 1) as nat) {
                        Ok((x2, k, kpos)) => {
                            let (t2, s2, t2pos, e2, epos2) = arith_token(chars, k, kpos);
                            if t2 == ArithToken::Colon {
                                match parse_expr(chars, path, e2, epos2, (fuel - 1) as nat) {
                                    Ok((x3, l, lpos)) => Ok(
                                        (
                                            ArithExprView::Conditional(
                                                path,
                                                start,
                                                Box::new(lhs),
                                                Box::new(x2),
                                                Box::new(x3),
                                            ),
                                            l,
                                            lpos,
                                        ),
                                    ),
                                    Err(err) => Err(err),
                                }
                            } else {
                                Err(syntax_error(path, t2pos, t2 == ArithToken::End))
                            }
                        },
                        Err(err) => Err(err),
                    },
                    _ => Ok((lhs, j, jpos)),
                }
            },
            Err(err) => Err(err),
        }
    }
}

/// The arithmetic expression at index `i` and position `pos` of `chars`.
pub open spec fn spec_parse_arith_expr(chars: Seq<char>, path: Seq<char>, i: int, pos: Position) -> ArithParse {
    parse_expr(chars, path, i, pos, parse_measure(chars.len() as int, i, 15))
}

/// `res` is what `spec` says, with the lexer at `index` and `pos` after an
/// expression.
pub open spec fn parse_matches(res: Result<ArithmeticExpression, ParserError>, index: int, pos: Position, spec: ArithParse) -> bool {
    match spec {
        Ok((x, j, jpos)) => match res {
            Ok(e) => e@ == x && index == j && pos == jpos,
            Err(_) => false,
        },
        Err(err) => match res {
            Ok(_) => false,
            Err(e) => e@ == err,
        },
    }
}

/// The lexer reads the same input of the same script, at the same level and
/// as interactively, before and after.
pub open spec fn same_input(a: Lexer, b: Lexer) -> bool {
    &&& a.input() == b.input()
    &&& a.path_view() == b.path_view()
    &&& a.arith_depth() == b.arith_depth()
    &&& a.level() == b.level()
    &&& a.interactive() == b.interactive()
}

/// The binding level of a binary operator.
fn level_of(op: BinaryOperator) -> (res: usize)
    ensures
        res as int == binary_level(op),
{
    match op {
        BinaryOperator::Multiply | BinaryOperator::Divide | BinaryOperator::Modulo => 11,
        BinaryOperator::Add | BinaryOperator::Substract => 10,
        BinaryOperator::ShiftLeft | BinaryOperator::ShiftRight => 9,
        BinaryOperator::LessThan | BinaryOperator::GreaterThan | BinaryOperator::LessEqual
        | BinaryOperator::GreaterEqual => 8,
        BinaryOperator::Equal | BinaryOperator::NotEqual => 7,
        BinaryOperator::And => 6,
        BinaryOperator::ExclusiveOr => 5,
        BinaryOperator::Or => 4,
        BinaryOperator::LogicalAnd => 3,
        BinaryOperator::LogicalOr => 2,
        _ => 0,
    }
}

/// A copy of the script name of the lexer.
fn path_of(lexer: &Lexer) -> (res: String)
    ensures
        res@ == lexer.path_view(),
{
    lexer.path().clone()
}

/// The syntax error at `pos`.
fn syntax_err(lexer: &Lexer, pos: Position, at_end: bool) -> (res: ParserError)
    ensures
        res@ == syntax_error(lexer.path_view(), pos, at_end),
{
    ParserError::Syntax(path_of(lexer), pos, String::from_str("syntax error"), at_end)
}

/// Parses a primary expression; see `parse_primary`.
fn arith_primary(lexer: &mut Lexer, Ghost(fuel): Ghost<nat>) -> (res: Result<ArithmeticExpression, ParserError>)
    requires
        0 <= old(lexer).index() <= old(lexer).input().len(),
        fuel >= parse_measure(old(lexer).input().len() as int, old(lexer).index(), 2),
    ensures
        parse_matches(
            res,
            final(lexer).index(),
            final(lexer).position(),
            parse_primary(old(lexer).input(), old(lexer).path_view(), old(lexer).index(), old(lexer).position(), fuel),
        ),
        same_input(*old(lexer), *final(lexer)),
        0 <= final(lexer).index() <= final(lexer).input().len(),
        res is Ok ==> final(lexer).index() > old(lexer).index(),
    decreases fuel,
{
    let (tok, s, tpos, e, epos) = lexer.peek_arith_token();
    match tok {
        ArithToken::Number(n) => {
            lexer.skip_to(e, epos);
            Ok(ArithmeticExpression::Number(path_of(lexer), tpos, n))
        },
        ArithToken::Name => {
            let name = string_from_chars(lexer.chars(), s, e);
            lexer.skip_to(e, epos);
            Ok(ArithmeticExpression::Parameter(path_of(lexer), tpos, ParameterName::Variable(name)))
        },
        ArithToken::LeftParen => {
            lexer.skip_to(e, epos);
            match arith_expr(lexer, Ghost((fuel - 1) as nat)) {
                Ok(x) => {
                    let (t2, s2, t2pos, e2, epos2) = lexer.peek_arith_token();
                    if t2 == ArithToken::RightParen {
                        lexer.skip_to(e2, epos2);
                        Ok(x)
                    } else {
                        Err(syntax_err(lexer, t2pos, t2 == ArithToken::End))
                    }
                },
                Err(err) => Err(err),
            }
        },
        _ => Err(syntax_err(lexer, tpos, tok == ArithToken::End)),
    }
}

/// Parses a unary expression; see `parse_unary`.
fn arith_unary(lexer: &mut Lexer, Ghost(fuel): Ghost<nat>) -> (res: Result<ArithmeticExpression, ParserError>)
    requires
        0 <= old(lexer).index() <= old(lexer).input().len(),
        fuel >= parse_measure(old(lexer).input().len() as int, old(lexer).index(), 3),
    ensures
        parse_matches(
            res,
            final(lexer).index(),
            final(lexer).position(),
            parse_unary(old(lexer).input(), old(lexer).path_view(), old(lexer).index(), old(lexer).position(), fuel),
        ),
        same_input(*old(lexer), *final(lexer)),
        0 <= final(lexer).index() <= final(lexer).input().len(),
        res is Ok ==> final(lexer).index() > old(lexer).index(),
    decreases fuel,
{
    let (tok, s, tpos, e, epos) = lexer.peek_arith_token();
    let op = match tok {
        ArithToken::Operator(BinaryOperator::Add) => {
            lexer.skip_to(e, epos);
            return arith_unary(lexer, Ghost((fuel - 1) as nat));
        },
        ArithToken::Operator(BinaryOperator::Substract) => UnaryOperator::Negate,
        ArithToken::Tilde => UnaryOperator::Not,
        ArithToken::Bang => UnaryOperator::LogicalNot,
        _ => {
            return arith_primary(lexer, Ghost((fuel - 1) as nat));
        },
    };
    lexer.skip_to(e, epos);
    match arith_unary(lexer, Ghost((fuel - 1) as nat)) {
        Ok(x) => Ok(ArithmeticExpression::Unary(path_of(lexer), tpos, op, Box::new(x))),
        Err(err) => Err(err),
    }
}

/// Parses the operators of binding level `level` and above; see `parse_binary`.
fn arith_binary(lexer: &mut Lexer, level: usize, Ghost(fuel): Ghost<nat>) -> (res: Result<ArithmeticExpression, ParserError>)
    requires
        2 <= level <= 12,
        0 <= old(lexer).index() <= old(lexer).input().len(),
        fuel >= parse_measure(old(lexer).input().len() as int, old(lexer).index(), 16 - level),
    ensures
        parse_matches(
            res,
            final(lexer).index(),
            final(lexer).position(),
            parse_binary(
                old(lexer).input(),
                old(lexer).path_view(),
                level as int,
                old(lexer).index(),
                old(lexer).position(),
                fuel,
            ),
        ),
        same_input(*old(lexer), *final(lexer)),
        0 <= final(lexer).index() <= final(lexer).input().len(),
        res is Ok ==> final(lexer).index() > old(lexer).index(),
    decreases fuel,
{
    if level >= 12 {
        return arith_unary(lexer, Ghost((fuel - 1) as nat));
    }
    let (_, _, start, _, _) = lexer.peek_arith_token();
    match arith_binary(lexer, level + 1, Ghost((fuel - 1) as nat)) {
        Ok(lhs) => arith_binary_rest(lexer, level, start, lhs, Ghost((fuel - 1) as nat)),
        Err(err) => Err(err),
    }
}

/// Parses the rest of a chain of operators of binding level `level`; see
/// `parse_binary_rest`.
fn arith_binary_rest(
    lexer: &mut Lexer,
    level: usize,
    start: Position,
    lhs: ArithmeticExpression,
    Ghost(fuel): Ghost<nat>,
) -> (res: Result<ArithmeticExpression, ParserError>)
    requires
        2 <= level <= 11,
        0 <= old(lexer).index() <= old(lexer).input().len(),
        fuel >= parse_measure(old(lexer).input().len() as int, old(lexer).index(), 1),
    ensures
        parse_matches(
            res,
            final(lexer).index(),
            final(lexer).position(),
            parse_binary_rest(
                old(lexer).input(),
                old(lexer).path_view(),
                level as int,
                start,
                lhs@,
                old(lexer).index(),
                old(lexer).position(),
                fuel,
            ),
        ),
        same_input(*old(lexer), *final(lexer)),
        0 <= final(lexer).index() <= final(lexer).input().len(),
        res is Ok ==> final(lexer).index() >= old(lexer).index(),
    decreases fuel,
{
    let (tok, s, tpos, e, epos) = lexer.peek_arith_token();
    match tok {
        ArithToken::Operator(op) => {
            if level_of(op) == level {
                lexer.skip_to(e, epos);
                match arith_binary(lexer, level + 1, Ghost((fuel - 1) as nat)) {
                    Ok(rhs) => {
                        let node = ArithmeticExpression::Binary(path_of(lexer), start, Box::new(lhs), op, Box::new(rhs));
                        arith_binary_rest(lexer, level, start, node, Ghost((fuel - 1) as nat))
                    },
                    Err(err) => Err(err),
                }
            } else {
                Ok(lhs)
            }
        },
        _ => Ok(lhs),
    }
}

/// Parses an expression; see `parse_expr`.
fn arith_expr(lexer: &mut Lexer, Ghost(fuel): Ghost<nat>) -> (res: Result<ArithmeticExpression, ParserError>)
    requires
        0 <= old(lexer).index() <= old(lexer).input().len(),
        fuel >= parse_measure(old(lexer).input().len() as int, old(lexer).index(), 15),
    ensures
        parse_matches(
            res,
            final(lexer).index(),
            final(lexer).position(),
            parse_expr(old(lexer).input(), old(lexer).path_view(), old(lexer).index(), old(lexer).position(), fuel),
        ),
        same_input(*old(lexer), *final(lexer)),
        0 <= final(lexer).index() <= final(lexer).input().len(),
        res is Ok ==> final(lexer).index() > old(lexer).index(),
    decreases fuel,
{
    let (_, _, start, _, _) = lexer.peek_arith_token();
    let lhs = match arith_binary(lexer, 2, Ghost((fuel - 1) as nat)) {
        Ok(lhs) => lhs,
        Err(err) => {
            return Err(err);
        },
    };
    let (tok, s, tpos, e, epos) = lexer.peek_arith_token();
    match tok {
        ArithToken::Operator(op) => {
            if level_of(op) == 0 {
                lexer.skip_to(e, epos);
                match arith_expr(lexer, Ghost((fuel - 1) as nat)) {
                    Ok(rhs) => Ok(ArithmeticExpression::Binary(path_of(lexer), start, Box::new(lhs), op, Box::new(rhs))),
                    Err(err) => Err(err),
                }
            } else {
                Ok(lhs)
            }
        },
        ArithToken::Question => {
            lexer.skip_to(e, epos);
            let x2 = match arith_expr(lexer, Ghost((fuel - 1) as nat)) {
                Ok(x2) => x2,
                Err(err) => {
                    return Err(err);
                },
            };
            let (t2, s2, t2pos, e2, epos2) = lexer.peek_arith_token();
            if t2 == ArithToken::Colon {
                lexer.skip_to(e2, epos2);
                match arith_expr(lexer, Ghost((fuel - 1) as nat)) {
                    Ok(x3) => Ok(
                        ArithmeticExpression::Conditional(path_of(lexer), start, Box::new(lhs), Box::new(x2), Box::new(x3)),
                    ),
                    Err(err) => Err(err),
                }
            } else {
                Err(syntax_err(lexer, t2pos, t2 == ArithToken::End))
            }
        },
        _ => Ok(lhs),
    }
}

impl Parser {
    /// Parses an arithmetic expression from where the lexer is, as inside
    /// `$((...))`, and leaves the lexer after it. The grammar is that of C:
    /// assignments and `? :` bind right to left at the lowest level; then
    /// `||`, `&&`, `|`, `^`, `&`, `== !=`, `< > <= >=`, `<< >>`, `+ -`,
    /// `* / %` bind left to right, each tighter than the one before; then the
    /// unary `+ - ~ !`; then numbers, variables and parentheses. Every node
    /// carries the script name and the position where it starts. A token that
    /// cannot come where it is gives a syntax error at its position, which
    /// more input could mend when the token is the end of the input.
    pub fn parse_arith_expr(&mut self, lexer: &mut Lexer, settings: &Settings) -> (res: Result<
        ArithmeticExpression,
        ParserError,
    >)
        ensures
            parse_matches(
                res,
                final(lexer).index(),
                final(lexer).position(),
                spec_parse_arith_expr(old(lexer).input(), old(lexer).path_view(), old(lexer).index(), old(lexer).position()),
            ),
            same_input(*old(lexer), *final(lexer)),
            final(self).here_docs@ == old(self).here_docs@,
    {
        let _ = lexer.peek_arith_token();
        let ghost fuel = parse_measure(lexer.input().len() as int, lexer.index(), 15);
        arith_expr(lexer, Ghost(fuel))
    }
}

} // verus!
