use vstd::prelude::*;
use vstd::string::*;
use crate::io::CharReader;
use crate::parser::BinaryOperator;

verus! {

/// A place in a script: a line and a column, both counted from 1.
#[derive(Copy, Clone, Debug, PartialEq, Eq, Structural)]
pub struct Position {
    pub line: usize,
    pub column: usize,
}

impl Position {
    /// The position at `line` and `column`.
    pub fn new(line: usize, column: usize) -> (res: Position)
        ensures
            res.line == line,
            res.column == column,
    {
        Position { line, column }
    }
}

/// One more, unless that would not fit.
pub open spec fn bump(n: usize) -> usize {
    if n < usize::MAX {
        (n + 1) as usize
    } else {
        n
    }
}

/// The position after the character `c` at `pos`: the next line at column 1
/// after a newline, the next column after any other character.
pub open spec fn next_position(pos: Position, c: char) -> Position {
    if c == '\n' {
        Position { line: bump(pos.line), column: 1 }
    } else {
        Position { line: pos.line, column: bump(pos.column) }
    }
}

/// The position after the `n` characters from index `i` on, starting at `pos`.
pub open spec fn advance(chars: Seq<char>, i: int, pos: Position, n: nat) -> Position
    decreases n,
{
    if n == 0 {
        pos
    } else {
        advance(chars, i + 1, next_position(pos, chars[i]), (n - 1) as nat)
    }
}

/// A blank between the tokens of an arithmetic expression.
pub open spec fn is_arith_blank(c: char) -> bool {
    c == ' ' || c == '\t' || c == '\n'
}

/// A decimal digit.
pub open spec fn is_digit(c: char) -> bool {
    '0' <= c && c <= '9'
}

/// A character that can start a variable name.
pub open spec fn is_name_start(c: char) -> bool {
    c == '_' || ('a' <= c && c <= 'z') || ('A' <= c && c <= 'Z')
}

/// A character that can continue a variable name.
pub open spec fn is_name_char(c: char) -> bool {
    is_name_start(c) || is_digit(c)
}

/// The index and position after the blanks from index `i` on.
pub open spec fn skip_blanks(chars: Seq<char>, i: int, pos: Position) -> (int, Position)
    decreases chars.len() - i,
{
    if 0 <= i < chars.len() && is_arith_blank(chars[i]) {
        skip_blanks(chars, i + 1, next_position(pos, chars[i]))
    } else {
        (i, pos)
    }
}

/// The index after the digits from index `i` on.
pub open spec fn digits_end(chars: Seq<char>, i: int) -> int
    decreases chars.len() - i,
{
    if 0 <= i < chars.len() && is_digit(chars[i]) {
        digits_end(chars, i + 1)
    } else {
        i
    }
}

/// The index after the name characters from index `i` on.
pub open spec fn name_end(chars: Seq<char>, i: int) -> int
    decreases chars.len() - i,
{
    if 0 <= i < chars.len() && is_name_char(chars[i]) {
        name_end(chars, i + 1)
    } else {
        i
    }
}

/// The value of the decimal digits from `start` to `end`.
pub open spec fn digits_value(chars: Seq<char>, start: int, end: int) -> int
    decreases end - start,
{
    if end <= start {
        0
    } else {
        digits_value(chars, start, end - 1) * 10 + (chars[end - 1] as int - '0' as int)
    }
}

/// A token of an arithmetic expression.
#[derive(Copy, Clone, Debug, PartialEq, Eq, Structural)]
pub enum ArithToken {
    /// A decimal number that fits in `i64`.
    Number(i64),
    /// A variable name; its text is that of the token.
    Name,
    /// An operator that can join two operands.
    Operator(BinaryOperator),
    /// `~`
    Tilde,
    /// `!`
    Bang,
    /// `?`
    Question,
    /// `:`
    Colon,
    /// `(`
    LeftParen,
    /// `)`
    RightParen,
    /// A character that starts no token, or a number too large for `i64`.
    Invalid,
    /// The end of the input.
    End,
}

/// `chars` holds `c` at index `i`.
pub open spec fn char_is(chars: Seq<char>, i: int, c: char) -> bool {
    0 <= i < chars.len() && chars[i] == c
}

/// `op` when the character at `i` is `=`, else `plain`, with their lengths.
pub open spec fn with_assign(chars: Seq<char>, i: int, plain: BinaryOperator, op: BinaryOperator) -> (ArithToken, int) {
    if char_is(chars, i + 1, '=') {
        (ArithToken::Operator(op), 2)
    } else {
        (ArithToken::Operator(plain), 1)
    }
}

/// The operator or punctuation token at index `i`, with its length; the
/// longest one that matches.
pub open spec fn operator_token(chars: Seq<char>, i: int) -> (ArithToken, int) {
    let c = chars[i];
    if c == '(' {
        (ArithToken::LeftParen, 1)
    } else if c == ')' {
        (ArithToken::RightParen, 1)
    } else if c == '?' {
        (ArithToken::Question, 1)
    } else if c == ':' {
        (ArithToken::Colon, 1)
    } else if c == '~' {
        (ArithToken::Tilde, 1)
    } else if c == '!' {
        if char_is(chars, i + 1, '=') {
            (ArithToken::Operator(BinaryOperator::NotEqual), 2)
        } else {
            (ArithToken::Bang, 1)
        }
    } else if c == '=' {
        with_assign(chars, i, BinaryOperator::Assign, BinaryOperator::Equal)
    } else if c == '*' {
        with_assign(chars, i, BinaryOperator::Multiply, BinaryOperator::MultiplyAssign)
    } else if c == '/' {
        with_assign(chars, i, BinaryOperator::Divide, BinaryOperator::DivideAssign)
    } else if c == '%' {
        with_assign(chars, i, BinaryOperator::Modulo, BinaryOperator::ModuloAssign)
    } else if c == '+' {
        with_assign(chars, i, BinaryOperator::Add, BinaryOperator::AddAssign)
    } else if c == '-' {
        with_assign(chars, i, BinaryOperator::Substract, BinaryOperator::SubstractAssign)
    } else if c == '^' {
        with_assign(chars, i, BinaryOperator::ExclusiveOr, BinaryOperator::ExclusiveOrAssign)
    } else if c == '&' {
        if char_is(chars, i + 1, '&') {
            (ArithToken::Operator(BinaryOperator::LogicalAnd), 2)
        } else {
            with_assign(chars, i, BinaryOperator::And, BinaryOperator::AndAssign)
        }
    } else if c == '|' {
        if char_is(chars, i + 1, '|') {
            (ArithToken::Operator(BinaryOperator::LogicalOr), 2)
        } else {
            with_assign(chars, i, BinaryOperator::Or, BinaryOperator::OrAssign)
        }
    } else if c == '<' {
        if char_is(chars, i + 1, '<') {
            if char_is(chars, i + 2, '=') {
                (ArithToken::Operator(BinaryOperator::ShiftLeftAssign), 3)
            } else {
                (ArithToken::Operator(BinaryOperator::ShiftLeft), 2)
            }
        } else {
            with_assign(chars, i, BinaryOperator::LessThan, BinaryOperator::LessEqual)
        }
    } else if c == '>' {
        if char_is(chars, i + 1, '>') {
            if char_is(chars, i + 2, '=') {
                (ArithToken::Operator(BinaryOperator::ShiftRightAssign), 3)
            } else {
                (ArithToken::Operator(BinaryOperator::ShiftRight), 2)
            }
        } else {
            with_assign(chars, i, BinaryOperator::GreaterThan, BinaryOperator::GreaterEqual)
        }
    } else {
        (ArithToken::Invalid, 1)
    }
}

/// The next token of an arithmetic expression from index `i` at `pos`: the
/// token, the index and position where it starts (after blanks), and the
/// index and position after it.
pub open spec fn arith_token(chars: Seq<char>, i: int, pos: Position) -> (ArithToken, int, Position, int, Position) {
    let (s, spos) = skip_blanks(chars, i, pos);
    if s < 0 || s >= chars.len() {
        (ArithToken::End, s, spos, s, spos)
    } else if is_digit(chars[s]) {
        let e = digits_end(chars, s);
        let v = digits_value(chars, s, e);
        let tok = if v <= i64::MAX {
            ArithToken::Number(v as i64)
        } else {
            ArithToken::Invalid
        };
        (tok, s, spos, e, advance(chars, s, spos, (e - s) as nat))
    } else if is_name_start(chars[s]) {
        let e = name_end(chars, s + 1);
        (ArithToken::Name, s, spos, e, advance(chars, s, spos, (e - s) as nat))
    } else {
        let (tok, n) = operator_token(chars, s);
        (tok, s, spos, s + n, advance(chars, s, spos, n as nat))
    }
}

/// The operators of arithmetic expressions as written: each of `* / % + - ^
/// & | << >>` followed by `=` is the compound assignment of that operator,
/// one character longer; `=` alone is assignment and `==` equality; `&&` and
/// `||` are the logical operators, and the comparisons are `< <= > >= !=`.
pub proof fn lemma_operator_tokens(chars: Seq<char>, i: int, pos: Position)
    ensures
        ({
            let (tok, s, spos, e, epos) = arith_token(chars, i, pos);
            &&& char_is(chars, s, '*') && char_is(chars, s + 1, '=') ==> tok == ArithToken::Operator(BinaryOperator::MultiplyAssign) && e == s + 2
            &&& char_is(chars, s, '*') && !char_is(chars, s + 1, '=') ==> tok == ArithToken::Operator(BinaryOperator::Multiply) && e == s + 1
            &&& char_is(chars, s, '/') && char_is(chars, s + 1, '=') ==> tok == ArithToken::Operator(BinaryOperator::DivideAssign) && e == s + 2
            &&& char_is(chars, s, '/') && !char_is(chars, s + 1, '=') ==> tok == ArithToken::Operator(BinaryOperator::Divide) && e == s + 1
            &&& char_is(chars, s, '%') && char_is(chars, s + 1, '=') ==> tok == ArithToken::Operator(BinaryOperator::ModuloAssign) && e == s + 2
            &&& char_is(chars, s, '%') && !char_is(chars, s + 1, '=') ==> tok == ArithToken::Operator(BinaryOperator::Modulo) && e == s + 1
            &&& char_is(chars, s, '+') && char_is(chars, s + 1, '=') ==> tok == ArithToken::Operator(BinaryOperator::AddAssign) && e == s + 2
            &&& char_is(chars, s, '+') && !char_is(chars, s + 1, '=') ==> tok == ArithToken::Operator(BinaryOperator::Add) && e == s + 1
            &&& char_is(chars, s, '-') && char_is(chars, s + 1, '=') ==> tok == ArithToken::Operator(BinaryOperator::SubstractAssign) && e == s + 2
            &&& char_is(chars, s, '-') && !char_is(chars, s + 1, '=') ==> tok == ArithToken::Operator(BinaryOperator::Substract) && e == s + 1
            &&& char_is(chars, s, '^') && char_is(chars, s + 1, '=') ==> tok == ArithToken::Operator(BinaryOperator::ExclusiveOrAssign) && e == s + 2
            &&& char_is(chars, s, '^') && !char_is(chars, s + 1, '=') ==> tok == ArithToken::Operator(BinaryOperator::ExclusiveOr) && e == s + 1
            &&& char_is(chars, s, '&') && char_is(chars, s + 1, '=') ==> tok == ArithToken::Operator(BinaryOperator::AndAssign) && e == s + 2
            &&& char_is(chars, s, '&') && char_is(chars, s + 1, '&') ==> tok == ArithToken::Operator(BinaryOperator::LogicalAnd) && e == s + 2
            &&& char_is(chars, s, '&') && !char_is(chars, s + 1, '&') && !char_is(chars, s + 1, '=') ==> tok == ArithToken::Operator(BinaryOperator::And) && e == s + 1
            &&& char_is(chars, s, '|') && char_is(chars, s + 1, '=') ==> tok == ArithToken::Operator(BinaryOperator::OrAssign) && e == s + 2
            &&& char_is(chars, s, '|') && char_is(chars, s + 1, '|') ==> tok == ArithToken::Operator(BinaryOperator::LogicalOr) && e == s + 2
            &&& char_is(chars, s, '|') && !char_is(chars, s + 1, '|') && !char_is(chars, s + 1, '=') ==> tok == ArithToken::Operator(BinaryOperator::Or) && e == s + 1
            &&& char_is(chars, s, '<') && char_is(chars, s + 1, '<') && char_is(chars, s + 2, '=') ==> tok == ArithToken::Operator(BinaryOperator::ShiftLeftAssign) && e == s + 3
            &&& char_is(chars, s, '<') && char_is(chars, s + 1, '<') && !char_is(chars, s + 2, '=') ==> tok == ArithToken::Operator(BinaryOperator::ShiftLeft) && e == s + 2
            &&& char_is(chars, s, '<') && char_is(chars, s + 1, '=') ==> tok == ArithToken::Operator(BinaryOperator::LessEqual) && e == s + 2
            &&& char_is(chars, s, '<') && !char_is(chars, s + 1, '<') && !char_is(chars, s + 1, '=') ==> tok == ArithToken::Operator(BinaryOperator::LessThan) && e == s + 1
            &&& char_is(chars, s, '>') && char_is(chars, s + 1, '>') && char_is(chars, s + 2, '=') ==> tok == ArithToken::Operator(BinaryOperator::ShiftRightAssign) && e == s + 3
            &&& char_is(chars, s, '>') && char_is(chars, s + 1, '>') && !char_is(chars, s + 2, '=') ==> tok == ArithToken::Operator(BinaryOperator::ShiftRight) && e == s + 2
            &&& char_is(chars, s, '>') && char_is(chars, s + 1, '=') ==> tok == ArithToken::Operator(BinaryOperator::GreaterEqual) && e == s + 2
            &&& char_is(chars, s, '>') && !char_is(chars, s + 1, '>') && !char_is(chars, s + 1, '=') ==> tok == ArithToken::Operator(BinaryOperator::GreaterThan) && e == s + 1
            &&& char_is(chars, s, '=') && char_is(chars, s + 1, '=') ==> tok == ArithToken::Operator(BinaryOperator::Equal) && e == s + 2
            &&& char_is(chars, s, '=') && !char_is(chars, s + 1, '=') ==> tok == ArithToken::Operator(BinaryOperator::Assign) && e == s + 1
            &&& char_is(chars, s, '!') && char_is(chars, s + 1, '=') ==> tok == ArithToken::Operator(BinaryOperator::NotEqual) && e == s + 2
        }),
{
}

/// Blanks are skipped forward only, within the input.
pub proof fn lemma_skip_blanks(chars: Seq<char>, i: int, pos: Position)
    requires
        0 <= i <= chars.len(),
    ensures
        i <= skip_blanks(chars, i, pos).0 <= chars.len(),
    decreases chars.len() - i,
{
    if i < chars.len() && is_arith_blank(chars[i]) {
        lemma_skip_blanks(chars, i + 1, next_position(pos, chars[i]));
    }
}

/// Digits and names are scanned forward only, within the input.
pub proof fn lemma_scan_ends(chars: Seq<char>, i: int)
    requires
        0 <= i <= chars.len(),
    ensures
        i <= digits_end(chars, i) <= chars.len(),
        i <= name_end(chars, i) <= chars.len(),
    decreases chars.len() - i,
{
    if i < chars.len() {
        lemma_scan_ends(chars, i + 1);
    }
}

/// A token starts at or after `i` and ends within the input; any token but
/// the end of the input has at least one character.
pub proof fn lemma_arith_token(chars: Seq<char>, i: int, pos: Position)
    requires
        0 <= i <= chars.len(),
    ensures
        ({
            let (tok, s, spos, e, epos) = arith_token(chars, i, pos);
            &&& i <= s <= e <= chars.len()
            &&& tok != ArithToken::End ==> s < e
        }),
{
    lemma_skip_blanks(chars, i, pos);
    let (s, spos) = skip_blanks(chars, i, pos);
    if s < chars.len() {
        lemma_scan_ends(chars, s);
        lemma_scan_ends(chars, s + 1);
    }
}

/// The lexer of a script: its name, the input that is left to read, and the
/// position reached.
pub struct Lexer {
    path: String,
    chars: Vec<char>,
    index: usize,
    pos: Position,
    level: usize,
    is_interactive: bool,
    arith_depth: usize,
}

impl Lexer {
    #[verifier::type_invariant]
    spec fn inv(self) -> bool {
        self.index <= self.chars.len()
    }

    /// The name of the script, which every node and error carries.
    pub closed spec fn path_view(&self) -> Seq<char> {
        self.path@
    }

    /// The whole input.
    pub closed spec fn input(&self) -> Seq<char> {
        self.chars@
    }

    /// The index of the next character to read.
    pub closed spec fn index(&self) -> int {
        self.index as int
    }

    /// The position of the next character to read.
    pub closed spec fn position(&self) -> Position {
        self.pos
    }

    /// The nesting level of the input that the lexer reads.
    pub closed spec fn level(&self) -> nat {
        self.level as nat
    }

    /// Whether the input is read interactively.
    pub closed spec fn interactive(&self) -> bool {
        self.is_interactive
    }

    /// How many arithmetic expressions the lexer is in.
    pub closed spec fn arith_depth(&self) -> nat {
        self.arith_depth as nat
    }

    /// A lexer of the script `path` that reads what is left in `reader`,
    /// starting at `pos`. `level` and `is_interactive` are kept for the
    /// callers that read nested or interactive input.
    pub fn new(path: &str, pos: &Position, reader: &mut CharReader, level: usize, is_interactive: bool) -> (res: Lexer)
        ensures
            res.path_view() == path@,
            res.input() == old(reader).chars(),
            res.index() == 0,
            res.position() == *pos,
            res.arith_depth() == 0,
            res.level() == level,
            res.interactive() == is_interactive,
            final(reader).chars() == Seq::<char>::empty(),
    {
        let chars = reader.take_chars();
        Lexer {
            path: String::from_str(path),
            chars,
            index: 0,
            pos: *pos,
            level,
            is_interactive,
            arith_depth: 0,
        }
    }
}

/// The position after the character `c` at `pos`.
fn next_pos(pos: Position, c: char) -> (res: Position)
    ensures
        res == next_position(pos, c),
{
    if c == '\n' {
        Position { line: if pos.line < usize::MAX { pos.line + 1 } else { pos.line }, column: 1 }
    } else {
        Position { line: pos.line, column: if pos.column < usize::MAX { pos.column + 1 } else { pos.column } }
    }
}

/// The position after the characters from `start` to `end`, from `pos`.
fn advance_over(chars: &Vec<char>, start: usize, pos: Position, end: usize) -> (res: Position)
    requires
        start <= end <= chars.len(),
    ensures
        res == advance(chars@, start as int, pos, (end - start) as nat),
{
    let mut i = start;
    let mut p = pos;
    while i < end
        invariant
            start <= i <= end <= chars.len(),
            advance(chars@, start as int, pos, (end - start) as nat) == advance(chars@, i as int, p, (end - i) as nat),
        decreases end - i,
    {
        p = next_pos(p, chars[i]);
        i = i + 1;
    }
    p
}

/// The end of the digits from `start` on, and their value when it fits in
/// `i64`.
fn scan_digits(chars: &Vec<char>, start: usize) -> (res: (usize, Option<i64>))
    requires
        start < chars.len(),
        is_digit(chars@[start as int]),
    ensures
        res.0 == digits_end(chars@, start as int),
        res.1 == if digits_value(chars@, start as int, res.0 as int) <= i64::MAX {
            Some(digits_value(chars@, start as int, res.0 as int) as i64)
        } else {
            None::<i64>
        },
{
    let n = chars.len();
    let mut i = start;
    let mut acc: i64 = 0;
    let mut fits = true;
    while i < n && '0' <= chars[i] && chars[i] <= '9'
        invariant
            start <= i <= n,
            n == chars.len(),
            digits_end(chars@, start as int) == digits_end(chars@, i as int),
            digits_value(chars@, start as int, i as int) >= 0,
            fits ==> acc == digits_value(chars@, start as int, i as int),
            !fits ==> digits_value(chars@, start as int, i as int) > i64::MAX,
        decreases n - i,
    {
        let c = chars[i];
        let d: i64 = if c == '0' { 0 } else if c == '1' { 1 } else if c == '2' { 2 } else if c == '3' { 3 }
            else if c == '4' { 4 } else if c == '5' { 5 } else if c == '6' { 6 } else if c == '7' { 7 }
            else if c == '8' { 8 } else { 9 };
        assert(d == c as int - '0' as int);
        assert(digits_value(chars@, start as int, i + 1) == digits_value(chars@, start as int, i as int) * 10 + d);
        if fits {
            if acc > 922337203685477580 || (acc == 922337203685477580 && d > 7) {
                fits = false;
            } else {
                acc = acc * 10 + d;
            }
        }
        i = i + 1;
    }
    (i, if fits { Some(acc) } else { None })
}

/// The end of the name characters from `start` on.
fn scan_name(chars: &Vec<char>, start: usize) -> (res: usize)
    requires
        start <= chars.len(),
    ensures
        res == name_end(chars@, start as int),
{
    let n = chars.len();
    let mut i = start;
    while i < n && (chars[i] == '_' || ('a' <= chars[i] && chars[i] <= 'z') || ('A' <= chars[i] && chars[i] <= 'Z')
        || ('0' <= chars[i] && chars[i] <= '9'))
        invariant
            start <= i <= n,
            n == chars.len(),
            name_end(chars@, start as int) == name_end(chars@, i as int),
        decreases n - i,
    {
        i = i + 1;
    }
    i
}

/// Whether `chars` holds `c` at index `i`.
fn has_char_at(chars: &Vec<char>, i: usize, c: char) -> (res: bool)
    ensures
        res == char_is(chars@, i as int, c),
{
    i < chars.len() && chars[i] == c
}

/// `op` when the character after `i` is `=`, else `plain`, with their lengths.
fn or_assign(chars: &Vec<char>, i: usize, plain: BinaryOperator, op: BinaryOperator) -> (res: (ArithToken, usize))
    requires
        i < chars.len(),
    ensures
        (res.0, res.1 as int) == with_assign(chars@, i as int, plain, op),
{
    if has_char_at(chars, i + 1, '=') {
        (ArithToken::Operator(op), 2)
    } else {
        (ArithToken::Operator(plain), 1)
    }
}

/// The operator or punctuation token at index `i`, with its length.
fn operator_at(chars: &Vec<char>, i: usize) -> (res: (ArithToken, usize))
    requires
        i < chars.len(),
    ensures
        (res.0, res.1 as int) == operator_token(chars@, i as int),
{
    let c = chars[i];
    if c == '(' {
        (ArithToken::LeftParen, 1)
    } else if c == ')' {
        (ArithToken::RightParen, 1)
    } else if c == '?' {
        (ArithToken::Question, 1)
    } else if c == ':' {
        (ArithToken::Colon, 1)
    } else if c == '~' {
        (ArithToken::Tilde, 1)
    } else if c == '!' {
        if has_char_at(chars, i + 1, '=') {
            (ArithToken::Operator(BinaryOperator::NotEqual), 2)
        } else {
            (ArithToken::Bang, 1)
        }
    } else if c == '=' {
        or_assign(chars, i, BinaryOperator::Assign, BinaryOperator::Equal)
    } else if c == '*' {
        or_assign(chars, i, BinaryOperator::Multiply, BinaryOperator::MultiplyAssign)
    } else if c == '/' {
        or_assign(chars, i, BinaryOperator::Divide, BinaryOperator::DivideAssign)
    } else if c == '%' {
        or_assign(chars, i, BinaryOperator::Modulo, BinaryOperator::ModuloAssign)
    } else if c == '+' {
        or_assign(chars, i, BinaryOperator::Add, BinaryOperator::AddAssign)
    } else if c == '-' {
        or_assign(chars, i, BinaryOperator::Substract, BinaryOperator::SubstractAssign)
    } else if c == '^' {
        or_assign(chars, i, BinaryOperator::ExclusiveOr, BinaryOperator::ExclusiveOrAssign)
    } else if c == '&' {
        if has_char_at(chars, i + 1, '&') {
            (ArithToken::Operator(BinaryOperator::LogicalAnd), 2)
        } else {
            or_assign(chars, i, BinaryOperator::And, BinaryOperator::AndAssign)
        }
    } else if c == '|' {
        if has_char_at(chars, i + 1, '|') {
            (ArithToken::Operator(BinaryOperator::LogicalOr), 2)
        } else {
            or_assign(chars, i, BinaryOperator::Or, BinaryOperator::OrAssign)
        }
    } else if c == '<' {
        if has_char_at(chars, i + 1, '<') {
            if has_char_at(chars, i + 2, '=') {
                (ArithToken::Operator(BinaryOperator::ShiftLeftAssign), 3)
            } else {
                (ArithToken::Operator(BinaryOperator::ShiftLeft), 2)
            }
        } else {
            or_assign(chars, i, BinaryOperator::LessThan, BinaryOperator::LessEqual)
        }
    } else if c == '>' {
        if has_char_at(chars, i + 1, '>') {
            if has_char_at(chars, i + 2, '=') {
                (ArithToken::Operator(BinaryOperator::ShiftRightAssign), 3)
            } else {
                (ArithToken::Operator(BinaryOperator::ShiftRight), 2)
            }
        } else {
            or_assign(chars, i, BinaryOperator::GreaterThan, BinaryOperator::GreaterEqual)
        }
    } else {
        (ArithToken::Invalid, 1)
    }
}

impl Lexer {
    /// Enters an arithmetic expression, such as the inside of `$((...))`.
    pub fn push_in_arith_expr(&mut self)
        ensures
            final(self).arith_depth() == if old(self).arith_depth() < usize::MAX {
                old(self).arith_depth() + 1
            } else {
                old(self).arith_depth()
            },
            final(self).path_view() == old(self).path_view(),
            final(self).level() == old(self).level(),
            final(self).interactive() == old(self).interactive(),
            final(self).input() == old(self).input(),
            final(self).index() == old(self).index(),
            final(self).position() == old(self).position(),
    {
        proof {
            use_type_invariant(&*self);
        }
        if self.arith_depth < usize::MAX {
            self.arith_depth = self.arith_depth + 1;
        }
    }

    /// Leaves the innermost arithmetic expression, if any.
    pub fn pop_state(&mut self)
        ensures
            final(self).arith_depth() == if old(self).arith_depth() > 0 {
                (old(self).arith_depth() - 1) as nat
            } else {
                0
            },
            final(self).path_view() == old(self).path_view(),
            final(self).level() == old(self).level(),
            final(self).interactive() == old(self).interactive(),
            final(self).input() == old(self).input(),
            final(self).index() == old(self).index(),
            final(self).position() == old(self).position(),
    {
        proof {
            use_type_invariant(&*self);
        }
        if self.arith_depth > 0 {
            self.arith_depth = self.arith_depth - 1;
        }
    }

    /// The script name.
    pub(crate) fn path(&self) -> (res: &String)
        ensures
            res@ == self.path_view(),
    {
        &self.path
    }

    /// The characters of the input.
    pub(crate) fn chars(&self) -> (res: &Vec<char>)
        ensures
            res@ == self.input(),
    {
        &self.chars
    }

    /// Moves to index `index` at position `pos`.
    pub(crate) fn skip_to(&mut self, index: usize, pos: Position)
        requires
            index <= old(self).input().len(),
        ensures
            final(self).path_view() == old(self).path_view(),
            final(self).level() == old(self).level(),
            final(self).interactive() == old(self).interactive(),
            final(self).input() == old(self).input(),
            final(self).arith_depth() == old(self).arith_depth(),
            final(self).index() == index,
            final(self).position() == pos,
    {
        self.index = index;
        self.pos = pos;
    }

    /// The next token of an arithmetic expression, its start and position,
    /// and the index and position after it; nothing is read.
    pub(crate) fn peek_arith_token(&self) -> (res: (ArithToken, usize, Position, usize, Position))
        ensures
            (res.0, res.1 as int, res.2, res.3 as int, res.4) == arith_token(self.input(), self.index(), self.position()),
            0 <= self.index() <= res.1 <= res.3 <= self.input().len(),
            res.0 != ArithToken::End ==> res.1 < res.3,
    {
        proof {
            use_type_invariant(self);
            lemma_arith_token(self.chars@, self.index as int, self.pos);
        }
        let chars = &self.chars;
        let n = chars.len();
        let mut i = self.index;
        let mut pos = self.pos;
        while i < n && (chars[i] == ' ' || chars[i] == '\t' || chars[i] == '\n')
            invariant
                self.index <= i <= n,
                n == chars.len(),
                chars@ == self.chars@,
                skip_blanks(chars@, self.index as int, self.pos) == skip_blanks(chars@, i as int, pos),
            decreases n - i,
        {
            pos = next_pos(pos, chars[i]);
            i = i + 1;
        }
        if i >= n {
            return (ArithToken::End, i, pos, i, pos);
        }
        let c = chars[i];
        if '0' <= c && c <= '9' {
            let (e, v) = scan_digits(chars, i);
            proof {
                lemma_scan_ends(chars@, i as int);
            }
            let tok = match v {
                Some(v) => ArithToken::Number(v),
                None => ArithToken::Invalid,
            };
            let epos = advance_over(chars, i, pos, e);
            (tok, i, pos, e, epos)
        } else if c == '_' || ('a' <= c && c <= 'z') || ('A' <= c && c <= 'Z') {
            let e = scan_name(chars, i + 1);
            proof {
                lemma_scan_ends(chars@, i + 1);
            }
            let epos = advance_over(chars, i, pos, e);
            (ArithToken::Name, i, pos, e, epos)
        } else {
            let (tok, len) = operator_at(chars, i);
            let e = if i + len <= n { i + len } else { n };
            let epos = advance_over(chars, i, pos, e);
            (tok, i, pos, e, epos)
        }
    }
}

} // verus!
