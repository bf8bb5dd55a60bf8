use vstd::prelude::*;
use crate::lexer::{Position, ArithToken, arith_token, lemma_arith_token};
use crate::parser::{
    ArithExprView,
    ArithParse,
    BinaryOperator,
    binary_level,
    parse_binary,
    parse_binary_rest,
    parse_expr,
    parse_primary,
    parse_measure,
    parse_unary,
    spec_parse_arith_expr,
};

verus! {

/// The token at index `i` and position `pos`.
pub open spec fn token_at(chars: Seq<char>, i: int, pos: Position) -> ArithToken {
    arith_token(chars, i, pos).0
}

/// The index after the token at `i`.
pub open spec fn token_end(chars: Seq<char>, i: int, pos: Position) -> int {
    arith_token(chars, i, pos).3
}

/// The position after the token at `i`.
pub open spec fn token_end_pos(chars: Seq<char>, i: int, pos: Position) -> Position {
    arith_token(chars, i, pos).4
}

/// The position where the token at `i` starts.
pub open spec fn token_pos(chars: Seq<char>, i: int, pos: Position) -> Position {
    arith_token(chars, i, pos).2
}

/// A number or a name: an operand of one token.
pub open spec fn is_atom(tok: ArithToken) -> bool {
    tok is Number || tok is Name
}

/// The expression of the operand of one token at `i`.
pub open spec fn atom_view(chars: Seq<char>, path: Seq<char>, i: int, pos: Position) -> ArithExprView {
    let (tok, s, tpos, e, epos) = arith_token(chars, i, pos);
    match tok {
        ArithToken::Number(n) => ArithExprView::Number(path, tpos, n),
        _ => ArithExprView::Parameter(path, tpos, chars.subrange(s, e)),
    }
}

/// The binding level of the token at `i` when it is an operator, else -1.
pub open spec fn level_at(chars: Seq<char>, i: int, pos: Position) -> int {
    match token_at(chars, i, pos) {
        ArithToken::Operator(op) => binary_level(op),
        _ => -1,
    }
}

/// `x op y` as an expression that starts at `start`.
pub open spec fn binary(path: Seq<char>, start: Position, x: ArithExprView, op: BinaryOperator, y: ArithExprView) -> ArithExprView {
    ArithExprView::Binary(path, start, Box::new(x), op, Box::new(y))
}

/// The parse of `x`, with the index and position after it.
pub open spec fn parsed(x: ArithExprView, j: int, jpos: Position) -> ArithParse {
    Ok((x, j, jpos))
}

/// An operand of one token parses as itself.
proof fn lemma_unary_atom(chars: Seq<char>, path: Seq<char>, i: int, pos: Position, fuel: nat)
    requires
        is_atom(token_at(chars, i, pos)),
        fuel >= 2,
    ensures
        parse_unary(chars, path, i, pos, fuel) == parsed(atom_view(chars, path, i, pos), token_end(chars, i, pos), token_end_pos(chars, i, pos)),
{
    assert(parse_primary(chars, path, i, pos, (fuel - 1) as nat) == parsed(atom_view(chars, path, i, pos), token_end(chars, i, pos), token_end_pos(chars, i, pos)));
}

/// A chain of operators of `level` ends before a token that is not an
/// operator of that level.
proof fn lemma_rest_stops(
    chars: Seq<char>,
    path: Seq<char>,
    level: int,
    start: Position,
    lhs: ArithExprView,
    i: int,
    pos: Position,
    fuel: nat,
)
    requires
        level_at(chars, i, pos) != level,
        fuel >= 1,
    ensures
        parse_binary_rest(chars, path, level, start, lhs, i, pos, fuel) == parsed(lhs, i, pos),
{
}

/// An operand of one token followed by an operator looser than `level`, or
/// by no operator, parses at `level` as itself.
proof fn lemma_binary_atom(chars: Seq<char>, path: Seq<char>, level: int, i: int, pos: Position, fuel: nat)
    requires
        2 <= level <= 12,
        is_atom(token_at(chars, i, pos)),
        level_at(chars, token_end(chars, i, pos), token_end_pos(chars, i, pos)) < level,
        fuel >= 3 * (13 - level) + 3,
    ensures
        parse_binary(chars, path, level, i, pos, fuel) == parsed(atom_view(chars, path, i, pos), token_end(chars, i, pos), token_end_pos(chars, i, pos)),
    decreases 12 - level,
{
    let a = atom_view(chars, path, i, pos);
    let q = token_end(chars, i, pos);
    let qp = token_end_pos(chars, i, pos);
    if level == 12 {
        lemma_unary_atom(chars, path, i, pos, (fuel - 1) as nat);
    } else {
        lemma_binary_atom(chars, path, level + 1, i, pos, (fuel - 1) as nat);
        lemma_rest_stops(chars, path, level, token_pos(chars, i, pos), a, q, qp, (fuel - 1) as nat);
    }
}

/// A chain of operators of `level` goes on at an operator of that level with
/// the operand that the next level parses after it.
proof fn lemma_rest_step(
    chars: Seq<char>,
    path: Seq<char>,
    level: int,
    start: Position,
    lhs: ArithExprView,
    i: int,
    pos: Position,
    fuel: nat,
    rhs: ArithExprView,
    j: int,
    jpos: Position,
)
    requires
        token_at(chars, i, pos) is Operator,
        level_at(chars, i, pos) == level,
        fuel >= 1,
        parse_binary(chars, path, level + 1, token_end(chars, i, pos), token_end_pos(chars, i, pos), (fuel - 1) as nat)
            == parsed(rhs, j, jpos),
    ensures
        parse_binary_rest(chars, path, level, start, lhs, i, pos, fuel) == parse_binary_rest(
            chars,
            path,
            level,
            start,
            binary(path, start, lhs, token_at(chars, i, pos)->Operator_0, rhs),
            j,
            jpos,
            (fuel - 1) as nat,
        ),
{
}

/// From `i`: an operand of one token, a binary operator other than the
/// assignments, an operand of one token, and then no operator of level 2 or
/// more.
pub open spec fn pair_at(chars: Seq<char>, i: int, pos: Position) -> bool {
    let q = token_end(chars, i, pos);
    let qp = token_end_pos(chars, i, pos);
    let r = token_end(chars, q, qp);
    let rp = token_end_pos(chars, q, qp);
    &&& is_atom(token_at(chars, i, pos))
    &&& token_at(chars, q, qp) is Operator
    &&& 2 <= level_at(chars, q, qp) <= 11
    &&& is_atom(token_at(chars, r, rp))
    &&& level_at(chars, token_end(chars, r, rp), token_end_pos(chars, r, rp)) < 2
}

/// What `pair_at` parses to at `level`: `x op y` when `op` binds at `level`
/// or tighter, else `x` alone.
pub open spec fn pair_result(chars: Seq<char>, path: Seq<char>, level: int, i: int, pos: Position) -> ArithParse {
    let q = token_end(chars, i, pos);
    let qp = token_end_pos(chars, i, pos);
    let r = token_end(chars, q, qp);
    let rp = token_end_pos(chars, q, qp);
    if level <= level_at(chars, q, qp) {
        parsed(
            binary(path, token_pos(chars, i, pos), atom_view(chars, path, i, pos), token_at(chars, q, qp)->Operator_0, atom_view(chars, path, r, rp)),
            token_end(chars, r, rp),
            token_end_pos(chars, r, rp),
        )
    } else {
        parsed(atom_view(chars, path, i, pos), q, qp)
    }
}

proof fn lemma_binary_pair(chars: Seq<char>, path: Seq<char>, level: int, i: int, pos: Position, fuel: nat)
    requires
        2 <= level <= 12,
        pair_at(chars, i, pos),
        fuel >= 4 * (13 - level) + 4,
    ensures
        parse_binary(chars, path, level, i, pos, fuel) == pair_result(chars, path, level, i, pos),
    decreases 12 - level,
{
    let q = token_end(chars, i, pos);
    let qp = token_end_pos(chars, i, pos);
    let r = token_end(chars, q, qp);
    let rp = token_end_pos(chars, q, qp);
    let l = level_at(chars, q, qp);
    let start = token_pos(chars, i, pos);
    let a = atom_view(chars, path, i, pos);
    let b = atom_view(chars, path, r, rp);
    let op = token_at(chars, q, qp)->Operator_0;
    if level > l {
        lemma_binary_atom(chars, path, level, i, pos, fuel);
    } else {
        lemma_binary_pair(chars, path, level + 1, i, pos, (fuel - 1) as nat);
        if level == l {
            lemma_binary_atom(chars, path, level + 1, r, rp, (fuel - 2) as nat);
            lemma_rest_step(chars, path, level, start, a, q, qp, (fuel - 1) as nat, b, token_end(chars, r, rp), token_end_pos(chars, r, rp));
            lemma_rest_stops(chars, path, level, start, binary(path, start, a, op, b), token_end(chars, r, rp), token_end_pos(chars, r, rp), (fuel - 2) as nat);
        } else {
            lemma_rest_stops(chars, path, level, start, binary(path, start, a, op, b), token_end(chars, r, rp), token_end_pos(chars, r, rp), (fuel - 1) as nat);
        }
    }
}

/// From `i`: an operand of one token, a binary operator other than the
/// assignments, and then what `pair_at` describes.
pub open spec fn triple_at(chars: Seq<char>, i: int, pos: Position) -> bool {
    let q = token_end(chars, i, pos);
    let qp = token_end_pos(chars, i, pos);
    &&& is_atom(token_at(chars, i, pos))
    &&& token_at(chars, q, qp) is Operator
    &&& 2 <= level_at(chars, q, qp) <= 11
    &&& pair_at(chars, token_end(chars, q, qp), token_end_pos(chars, q, qp))
}

/// The parts of `x op1 y op2 z` from `i`: the three operands, the two
/// operators, where `x` and `y` start, and the index and position after `y`
/// and after `z`.
pub open spec fn triple_parts(chars: Seq<char>, path: Seq<char>, i: int, pos: Position) -> (
    ArithExprView,
    BinaryOperator,
    ArithExprView,
    BinaryOperator,
    ArithExprView,
    Position,
    Position,
    (int, Position),
    (int, Position),
) {
    let q1 = token_end(chars, i, pos);
    let qp1 = token_end_pos(chars, i, pos);
    let r1 = token_end(chars, q1, qp1);
    let rp1 = token_end_pos(chars, q1, qp1);
    let q2 = token_end(chars, r1, rp1);
    let qp2 = token_end_pos(chars, r1, rp1);
    let r2 = token_end(chars, q2, qp2);
    let rp2 = token_end_pos(chars, q2, qp2);
    (
        atom_view(chars, path, i, pos),
        token_at(chars, q1, qp1)->Operator_0,
        atom_view(chars, path, r1, rp1),
        token_at(chars, q2, qp2)->Operator_0,
        atom_view(chars, path, r2, rp2),
        token_pos(chars, i, pos),
        token_pos(chars, r1, rp1),
        (q2, qp2),
        (token_end(chars, r2, rp2), token_end_pos(chars, r2, rp2)),
    )
}

/// What `triple_at` parses to at `level`.
pub open spec fn triple_result(chars: Seq<char>, path: Seq<char>, level: int, i: int, pos: Position) -> ArithParse {
    let (x, op1, y, op2, z, sx, sy, after_y, after_z) = triple_parts(chars, path, i, pos);
    let l1 = binary_level(op1);
    let l2 = binary_level(op2);
    if level > l1 {
        parsed(x, token_end(chars, i, pos), token_end_pos(chars, i, pos))
    } else if l2 > l1 {
        parsed(binary(path, sx, x, op1, binary(path, sy, y, op2, z)), after_z.0, after_z.1)
    } else if level <= l2 {
        parsed(binary(path, sx, binary(path, sx, x, op1, y), op2, z), after_z.0, after_z.1)
    } else {
        parsed(binary(path, sx, x, op1, y), after_y.0, after_y.1)
    }
}

proof fn lemma_binary_triple(chars: Seq<char>, path: Seq<char>, level: int, i: int, pos: Position, fuel: nat)
    requires
        2 <= level <= 12,
        triple_at(chars, i, pos),
        fuel >= 5 * (13 - level) + 5,
    ensures
        parse_binary(chars, path, level, i, pos, fuel) == triple_result(chars, path, level, i, pos),
    decreases 12 - level,
{
    let q1 = token_end(chars, i, pos);
    let qp1 = token_end_pos(chars, i, pos);
    let r1 = token_end(chars, q1, qp1);
    let rp1 = token_end_pos(chars, q1, qp1);
    let q2 = token_end(chars, r1, rp1);
    let qp2 = token_end_pos(chars, r1, rp1);
    let r2 = token_end(chars, q2, qp2);
    let rp2 = token_end_pos(chars, q2, qp2);
    let q3 = token_end(chars, r2, rp2);
    let qp3 = token_end_pos(chars, r2, rp2);
    let (x, op1, y, op2, z, sx, sy, after_y, after_z) = triple_parts(chars, path, i, pos);
    let l1 = binary_level(op1);
    let l2 = binary_level(op2);
    assert(level_at(chars, q1, qp1) == l1);
    assert(level_at(chars, q2, qp2) == l2);
    if level > l1 {
        lemma_binary_atom(chars, path, level, i, pos, fuel);
    } else {
        lemma_binary_triple(chars, path, level + 1, i, pos, (fuel - 1) as nat);
        if level == l1 {
            lemma_binary_pair(chars, path, level + 1, r1, rp1, (fuel - 2) as nat);
            if l2 > l1 {
                let yz = binary(path, sy, y, op2, z);
                lemma_rest_step(chars, path, level, sx, x, q1, qp1, (fuel - 1) as nat, yz, q3, qp3);
                lemma_rest_stops(chars, path, level, sx, binary(path, sx, x, op1, yz), q3, qp3, (fuel - 2) as nat);
            } else {
                let xy = binary(path, sx, x, op1, y);
                lemma_rest_step(chars, path, level, sx, x, q1, qp1, (fuel - 1) as nat, y, q2, qp2);
                if l2 == level {
                    lemma_binary_atom(chars, path, level + 1, r2, rp2, (fuel - 3) as nat);
                    lemma_rest_step(chars, path, level, sx, xy, q2, qp2, (fuel - 2) as nat, z, q3, qp3);
                    lemma_rest_stops(chars, path, level, sx, binary(path, sx, xy, op2, z), q3, qp3, (fuel - 3) as nat);
                } else {
                    lemma_rest_stops(chars, path, level, sx, xy, q2, qp2, (fuel - 2) as nat);
                }
            }
        } else {
            let xy = binary(path, sx, x, op1, y);
            if l2 > l1 {
                lemma_rest_stops(chars, path, level, sx, binary(path, sx, x, op1, binary(path, sy, y, op2, z)), q3, qp3, (fuel - 1) as nat);
            } else if level + 1 <= l2 {
                lemma_rest_stops(chars, path, level, sx, binary(path, sx, xy, op2, z), q3, qp3, (fuel - 1) as nat);
            } else if l2 == level {
                lemma_binary_atom(chars, path, level + 1, r2, rp2, (fuel - 2) as nat);
                lemma_rest_step(chars, path, level, sx, xy, q2, qp2, (fuel - 1) as nat, z, q3, qp3);
                lemma_rest_stops(chars, path, level, sx, binary(path, sx, xy, op2, z), q3, qp3, (fuel - 2) as nat);
            } else {
                lemma_rest_stops(chars, path, level, sx, xy, q2, qp2, (fuel - 1) as nat);
            }
        }
    }
}

/// Binary operators bind as in C: `*` `/` `%` tightest, then `+` `-`, the
/// shifts, the comparisons `<` `>` `<=` `>=`, then `==` `!=`, `&`, `^`, `|`,
/// `&&`, and `||` loosest of the binary operators, with the assignments below
/// them all; the operators of one group bind alike.
pub proof fn lemma_c_precedence_order()
    ensures
        binary_level(BinaryOperator::Assign) < binary_level(BinaryOperator::LogicalOr),
        binary_level(BinaryOperator::LogicalOr) < binary_level(BinaryOperator::LogicalAnd),
        binary_level(BinaryOperator::LogicalAnd) < binary_level(BinaryOperator::Or),
        binary_level(BinaryOperator::Or) < binary_level(BinaryOperator::ExclusiveOr),
        binary_level(BinaryOperator::ExclusiveOr) < binary_level(BinaryOperator::And),
        binary_level(BinaryOperator::And) < binary_level(BinaryOperator::Equal),
        binary_level(BinaryOperator::Equal) == binary_level(BinaryOperator::NotEqual),
        binary_level(BinaryOperator::NotEqual) < binary_level(BinaryOperator::LessThan),
        binary_level(BinaryOperator::LessThan) == binary_level(BinaryOperator::GreaterThan),
        binary_level(BinaryOperator::LessThan) == binary_level(BinaryOperator::LessEqual),
        binary_level(BinaryOperator::LessThan) == binary_level(BinaryOperator::GreaterEqual),
        binary_level(BinaryOperator::GreaterEqual) < binary_level(BinaryOperator::ShiftLeft),
        binary_level(BinaryOperator::ShiftLeft) == binary_level(BinaryOperator::ShiftRight),
        binary_level(BinaryOperator::ShiftRight) < binary_level(BinaryOperator::Add),
        binary_level(BinaryOperator::Add) == binary_level(BinaryOperator::Substract),
        binary_level(BinaryOperator::Substract) < binary_level(BinaryOperator::Multiply),
        binary_level(BinaryOperator::Multiply) == binary_level(BinaryOperator::Divide),
        binary_level(BinaryOperator::Multiply) == binary_level(BinaryOperator::Modulo),
        forall|op: BinaryOperator| #[trigger] binary_level(op) < binary_level(BinaryOperator::LogicalOr)
            ==> binary_level(op) == binary_level(BinaryOperator::Assign),
{
}

/// Precedence and associativity: in `x op1 y op2 z`, where `x`, `y` and `z`
/// are numbers or names and `op1` and `op2` are binary operators other than
/// the assignments, followed by the end of the input or `)`, the parser
/// groups `y op2 z` first when `op2` binds tighter than `op1`, and `x op1 y`
/// first otherwise: operators that bind alike group from the left. The
/// expression ends after `z`.
pub proof fn lemma_binary_precedence(chars: Seq<char>, path: Seq<char>, i: int, pos: Position)
    requires
        0 <= i <= chars.len(),
        triple_at(chars, i, pos),
        ({
            let after_z = triple_parts(chars, path, i, pos).8;
            token_at(chars, after_z.0, after_z.1) == ArithToken::End || token_at(chars, after_z.0, after_z.1)
                == ArithToken::RightParen
        }),
    ensures
        ({
            let (x, op1, y, op2, z, sx, sy, after_y, after_z) = triple_parts(chars, path, i, pos);
            spec_parse_arith_expr(chars, path, i, pos) == parsed(
                if binary_level(op2) > binary_level(op1) {
                    binary(path, sx, x, op1, binary(path, sy, y, op2, z))
                } else {
                    binary(path, sx, binary(path, sx, x, op1, y), op2, z)
                },
                after_z.0,
                after_z.1,
            )
        }),
{
    let q1 = token_end(chars, i, pos);
    let qp1 = token_end_pos(chars, i, pos);
    let r1 = token_end(chars, q1, qp1);
    let rp1 = token_end_pos(chars, q1, qp1);
    lemma_arith_token(chars, i, pos);
    lemma_arith_token(chars, q1, qp1);
    lemma_arith_token(chars, r1, rp1);
    assert(token_end(chars, r1, rp1) >= i + 3);
    let fuel = parse_measure(chars.len() as int, i, 15);
    assert(fuel >= 63);
    lemma_binary_triple(chars, path, 2, i, pos, (fuel - 1) as nat);
}

} // verus!
