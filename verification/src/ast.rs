use vstd::prelude::*;
use crate::ast_node::{
    ArrayLiteral, AssignExpression, BinaryExpression, BlockStatement, BreakStatement, CallExpression,
    CaseClause, CatchClause, ClassDeclaration, ClassMethodDeclaration, ComputedPropertyName,
    ConditionalExpression, ContinueStatement, Declaration, ElementAccessExpression, Expression,
    ExpressionStatement, ForStatement, FunctionDeclaration, GroupExpression, IdentifierLiteral,
    IfStatement, Keywords, LabeledStatement, NewExpression, NumberLiteral, ObjectLiteral, Parameter,
    PostfixUnaryExpression, PrefixUnaryExpression, PropertyAccessExpression, PropertyAssignment,
    ReturnStatement, SequenceExpression, Statement, StringLiteral, SwitchStatement, TemplateLiteralExpression,
    ThrowStatement, TryCatchStatement, VariableDeclaration, VariableDeclarationStatement,
    VariableFlag,
};
use crate::ast_token::{Token, get_token_keyword, get_token_literal, keyword_token, literal_token, token_name};
use crate::error::{JSIError, JSIErrorType, JSIResult};
use crate::ast_utils::{chars_to_string, get_hex_number_value, hex_digit_value, str_to_chars};

verus! {

/// A character that may start an identifier.
pub open spec fn is_id_first(c: char) -> bool {
    ('a' <= c && c <= 'z') || ('A' <= c && c <= 'Z') || c == '$' || c == '_'
}

pub open spec fn is_digit(c: char) -> bool {
    '0' <= c && c <= '9'
}

/// A character that may continue an identifier.
pub open spec fn is_id_part(c: char) -> bool {
    is_id_first(c) || is_digit(c)
}

pub open spec fn is_quote(c: char) -> bool {
    c == '"' || c == '\''
}

/// The character the lexer sees at index `i` of the text: past the end it
/// sees `\0`, which no token holds.
pub open spec fn eff_char(code: Seq<char>, i: int) -> char {
    if 0 <= i < code.len() {
        code[i]
    } else {
        '\0'
    }
}

/// The token of a word: a keyword (strict mode), a literal keyword, or an identifier.
pub open spec fn word_token(w: Seq<char>) -> Token {
    if keyword_token(w, true) != Token::ILLEGAL {
        keyword_token(w, true)
    } else if literal_token(w) != Token::ILLEGAL {
        literal_token(w)
    } else {
        Token::Identifier
    }
}

/// The punctuator of 1 character(s) `c0..`, or `ILLEGAL`.
pub open spec fn punctuator1(c0: char) -> Token {
    if c0 == '+' { Token::Plus }
    else if c0 == '-' { Token::Subtract }
    else if c0 == '*' { Token::Multiply }
    else if c0 == '/' { Token::Slash }
    else if c0 == '%' { Token::Remainder }
    else if c0 == '>' { Token::Greater }
    else if c0 == '<' { Token::Less }
    else if c0 == '=' { Token::Assign }
    else if c0 == ':' { Token::Colon }
    else if c0 == '.' { Token::Period }
    else if c0 == '`' { Token::Backtick }
    else if c0 == ',' { Token::Comma }
    else if c0 == ';' { Token::Semicolon }
    else if c0 == '(' { Token::LeftParenthesis }
    else if c0 == ')' { Token::RightParenthesis }
    else if c0 == '[' { Token::LeftBracket }
    else if c0 == ']' { Token::RightBracket }
    else if c0 == '{' { Token::LeftBrace }
    else if c0 == '}' { Token::RightBrace }
    else if c0 == '~' { Token::BitwiseNot }
    else if c0 == '&' { Token::And }
    else if c0 == '|' { Token::Or }
    else if c0 == '!' { Token::Not }
    else if c0 == '^' { Token::ExclusiveOr }
    else if c0 == '?' { Token::QuestionMark }
    else { Token::ILLEGAL }
}

/// The punctuator of 2 character(s) `c0..`, or `ILLEGAL`.
pub open spec fn punctuator2(c0: char, c1: char) -> Token {
    if c0 == '+' && c1 == '=' { Token::AddAssign }
    else if c0 == '+' && c1 == '+' { Token::Increment }
    else if c0 == '-' && c1 == '=' { Token::SubtractAssign }
    else if c0 == '-' && c1 == '-' { Token::Decrement }
    else if c0 == '*' && c1 == '=' { Token::MultiplyAssign }
    else if c0 == '*' && c1 == '*' { Token::Exponentiation }
    else if c0 == '/' && c1 == '=' { Token::SlashAssign }
    else if c0 == '%' && c1 == '=' { Token::RemainderAssign }
    else if c0 == '>' && c1 == '>' { Token::ShiftRight }
    else if c0 == '>' && c1 == '=' { Token::GreaterOrEqual }
    else if c0 == '<' && c1 == '<' { Token::ShiftLeft }
    else if c0 == '<' && c1 == '=' { Token::LessOrEqual }
    else if c0 == '=' && c1 == '=' { Token::Equal }
    else if c0 == '&' && c1 == '&' { Token::LogicalAnd }
    else if c0 == '&' && c1 == '=' { Token::AndAssign }
    else if c0 == '|' && c1 == '|' { Token::LogicalOr }
    else if c0 == '|' && c1 == '=' { Token::OrAssign }
    else if c0 == '!' && c1 == '=' { Token::NotEqual }
    else if c0 == '^' && c1 == '=' { Token::ExclusiveOrAssign }
    else if c0 == '?' && c1 == '?' { Token::NullishCoalescing }
    else if c0 == '?' && c1 == '.' { Token::OptionalChaining }
    else { Token::ILLEGAL }
}

/// The punctuator of 3 character(s) `c0..`, or `ILLEGAL`.
pub open spec fn punctuator3(c0: char, c1: char, c2: char) -> Token {
    if c0 == '*' && c1 == '*' && c2 == '=' { Token::ExponentiationAssign }
    else if c0 == '>' && c1 == '>' && c2 == '>' { Token::UnsignedShiftRight }
    else if c0 == '>' && c1 == '>' && c2 == '=' { Token::ShiftRightAssign }
    else if c0 == '<' && c1 == '<' && c2 == '=' { Token::ShiftLeftAssign }
    else if c0 == '=' && c1 == '=' && c2 == '=' { Token::StrictEqual }
    else if c0 == '&' && c1 == '&' && c2 == '=' { Token::LogicalAndAssign }
    else if c0 == '|' && c1 == '|' && c2 == '=' { Token::LogicalOrAssign }
    else if c0 == '!' && c1 == '=' && c2 == '=' { Token::StrictNotEqual }
    else if c0 == '?' && c1 == '?' && c2 == '=' { Token::NullishCoalescingAssign }
    else { Token::ILLEGAL }
}

/// The punctuator of 4 character(s) `c0..`, or `ILLEGAL`.
pub open spec fn punctuator4(c0: char, c1: char, c2: char, c3: char) -> Token {
    if c0 == '>' && c1 == '>' && c2 == '>' && c3 == '=' { Token::UnsignedShiftRightAssign }
    else { Token::ILLEGAL }
}



/// The punctuator a text spells, or `ILLEGAL` when it spells none.
pub open spec fn op_token(s: Seq<char>) -> Token {
    if s.len() == 1 {
        punctuator1(s[0])
    } else if s.len() == 2 {
        punctuator2(s[0], s[1])
    } else if s.len() == 3 {
        punctuator3(s[0], s[1], s[2])
    } else if s.len() == 4 {
        punctuator4(s[0], s[1], s[2], s[3])
    } else {
        Token::ILLEGAL
    }
}

/// The token a literal stands for, told by its text alone: `EOF` for the
/// empty text, then words, numbers, strings, and punctuators.
pub open spec fn classify(lit: Seq<char>) -> Token {
    if lit.len() == 0 {
        Token::EOF
    } else if is_id_first(lit[0]) {
        word_token(lit)
    } else if is_digit(lit[0]) {
        Token::Number
    } else if is_quote(lit[0]) {
        Token::String
    } else {
        op_token(lit)
    }
}

/// The end of the run of characters from `i` whose hexadecimal value is below `base`.
pub open spec fn digit_run_end(code: Seq<char>, i: int, base: int) -> int
    decreases code.len() - i,
{
    if i < 0 || i >= code.len() {
        i
    } else if hex_digit_value(code[i]) < base {
        digit_run_end(code, i + 1, base)
    } else {
        i
    }
}

/// The end of the run of identifier characters from `i`.
pub open spec fn ident_end(code: Seq<char>, i: int) -> int
    decreases code.len() - i,
{
    if i < 0 || i >= code.len() {
        i
    } else if is_id_part(code[i]) {
        ident_end(code, i + 1)
    } else {
        i
    }
}

/// The end of a number literal starting at `s`: `0x` or `0X` and
/// hexadecimal digits; or decimal digits, then optionally a point and more
/// digits.
pub open spec fn number_end(code: Seq<char>, s: int) -> int {
    if 0 <= s && s + 1 < code.len() && code[s] == '0' && (code[s + 1] == 'x' || code[s + 1] == 'X') {
        digit_run_end(code, s + 2, 16)
    } else {
        decimal_end(code, s)
    }
}

/// The end of a decimal number literal starting at `s`: digits, then
/// optionally a point and more digits.
pub open spec fn decimal_end(code: Seq<char>, s: int) -> int {
    let q = digit_run_end(code, s, 10);
    if q < code.len() && code[q] == '.' {
        digit_run_end(code, q + 1, 10)
    } else {
        q
    }
}

/// The index just past the first `q` at or after `i`, or the end of the text.
pub open spec fn quote_end(code: Seq<char>, q: char, i: int) -> int
    decreases code.len() - i,
{
    if i < 0 || i >= code.len() {
        code.len() as int
    } else if code[i] == q {
        i + 1
    } else {
        quote_end(code, q, i + 1)
    }
}

/// The first index at or after `i` that is not skipped: with `skip_space`,
/// spaces, tabs and line breaks are skipped.
pub open spec fn lookahead_index(code: Seq<char>, i: int, skip_space: bool) -> int
    decreases code.len() - i,
{
    if i < 0 || i >= code.len() || !skip_space {
        i
    } else if code[i] == ' ' || code[i] == '\n' || code[i] == '\r' || code[i] == '\t' {
        lookahead_index(code, i + 1, skip_space)
    } else {
        i
    }
}

/// Where a line comment ends, its second `/` standing at `c`: just past the
/// line break that ends it, or at the end of the text.
pub open spec fn line_comment_end(code: Seq<char>, c: int) -> int
    decreases code.len() - c,
{
    if c < 0 || c + 1 >= code.len() {
        code.len() as int
    } else if code[c + 1] == '\n' {
        c + 2
    } else {
        line_comment_end(code, c + 1)
    }
}

/// Where a block comment ends, its `*` standing at `c`: just past the first
/// `*/` whose `*` follows `c` by an odd number of characters as the lexer
/// steps through it, or at the end of the text.
pub open spec fn block_comment_end(code: Seq<char>, c: int) -> int
    decreases code.len() - c,
{
    if c < 0 || c + 1 >= code.len() {
        code.len() as int
    } else if code[c + 1] == '*' {
        if c + 2 >= code.len() {
            code.len() as int
        } else if code[c + 2] == '/' {
            c + 3
        } else {
            block_comment_end(code, c + 2)
        }
    } else {
        block_comment_end(code, c + 1)
    }
}

pub proof fn lemma_comment_end_bounds(code: Seq<char>, c: int)
    requires
        0 <= c,
    ensures
        c < line_comment_end(code, c) <= code.len() || (c >= code.len() && line_comment_end(code, c) == code.len()),
        c < block_comment_end(code, c) <= code.len() || (c >= code.len() && block_comment_end(code, c) == code.len()),
    decreases code.len() - c,
{
    if c + 1 < code.len() {
        lemma_comment_end_bounds(code, c + 1);
        if c + 2 < code.len() {
            lemma_comment_end_bounds(code, c + 2);
        }
    }
}

/// The index where the next token starts, from `i`: past spaces, tabs,
/// line breaks, and `//` and `/*` comments; the end of the text when no
/// token is left.
pub open spec fn next_start(code: Seq<char>, i: int) -> int
    decreases code.len() - i,
{
    if i < 0 || i >= code.len() {
        code.len() as int
    } else if code[i] == ' ' || code[i] == '\t' || code[i] == '\n' {
        next_start(code, i + 1)
    } else if code[i] == '/' && eff_char(code, i + 1) == '/' {
        proof {
            lemma_comment_end_bounds(code, i + 1);
        }
        next_start(code, line_comment_end(code, i + 1))
    } else if code[i] == '/' && eff_char(code, i + 1) == '*' {
        proof {
            lemma_comment_end_bounds(code, i + 1);
        }
        next_start(code, block_comment_end(code, i + 1))
    } else {
        i
    }
}

pub proof fn lemma_next_start_bounds(code: Seq<char>, i: int)
    requires
        0 <= i <= code.len(),
    ensures
        i <= next_start(code, i) <= code.len(),
        next_start(code, i) < code.len() ==> next_start(code, next_start(code, i)) == next_start(code, i),
    decreases code.len() - i,
{
    if i < code.len() {
        lemma_comment_end_bounds(code, i + 1);
        if code[i] == ' ' || code[i] == '\t' || code[i] == '\n' {
            lemma_next_start_bounds(code, i + 1);
        } else if code[i] == '/' && eff_char(code, i + 1) == '/' {
            lemma_next_start_bounds(code, line_comment_end(code, i + 1));
        } else if code[i] == '/' && eff_char(code, i + 1) == '*' {
            lemma_next_start_bounds(code, block_comment_end(code, i + 1));
        }
    }
}

/// Spaces and tabs before the next token change nothing of where it starts.
pub proof fn lemma_next_start_skip_blanks(code: Seq<char>, a: int, b: int)
    requires
        0 <= a <= b <= code.len(),
        forall|j: int| a <= j < b ==> #[trigger] code[j] == ' ' || code[j] == '\t',
    ensures
        next_start(code, a) == next_start(code, b),
    decreases b - a,
{
    if a < b {
        lemma_next_start_skip_blanks(code, a + 1, b);
    }
}

/// Whether a line break stands between `i` and the next token: the lexer
/// meets a `\n` while it skips spaces, tabs and comments (the line break
/// that ends a `//` comment belongs to the comment).
pub open spec fn line_break_before(code: Seq<char>, i: int) -> bool
    decreases code.len() - i,
{
    if i < 0 || i >= code.len() {
        false
    } else if code[i] == '\n' {
        true
    } else if code[i] == ' ' || code[i] == '\t' {
        line_break_before(code, i + 1)
    } else if code[i] == '/' && eff_char(code, i + 1) == '/' {
        proof {
            lemma_comment_end_bounds(code, i + 1);
        }
        line_break_before(code, line_comment_end(code, i + 1))
    } else if code[i] == '/' && eff_char(code, i + 1) == '*' {
        proof {
            lemma_comment_end_bounds(code, i + 1);
        }
        line_break_before(code, block_comment_end(code, i + 1))
    } else {
        false
    }
}

/// Spaces and tabs before the next token change nothing of whether a line
/// break precedes it.
pub proof fn lemma_line_break_skip_blanks(code: Seq<char>, a: int, b: int)
    requires
        0 <= a <= b <= code.len(),
        forall|j: int| a <= j < b ==> #[trigger] code[j] == ' ' || code[j] == '\t',
    ensures
        line_break_before(code, a) == line_break_before(code, b),
    decreases b - a,
{
    if a < b {
        lemma_line_break_skip_blanks(code, a + 1, b);
    }
}

/// The tokens after which a line break ends the statement.
pub open spec fn asks_semicolon(t: Token) -> bool {
    t == Token::Identifier || t == Token::Continue || t == Token::Break || t == Token::Return || t
        == Token::Yield || t == Token::Increment || t == Token::Decrement || t
        == Token::RightParenthesis || t == Token::RightBracket || t == Token::RightBrace
}

pub open spec fn min_int(a: int, b: int) -> int {
    if a <= b { a } else { b }
}

/// `lit` is what the lexer reads from index `s` on, with the lexer now
/// standing at `end`.
pub open spec fn spelled_at(code: Seq<char>, s: int, lit: Seq<char>, end: int) -> bool {
    &&& 0 <= s < code.len()
    &&& end == min_int(s + lit.len(), code.len() as int)
    &&& forall|j: int| 0 <= j < lit.len() ==> #[trigger] lit[j] == eff_char(code, s + j)
}

/// A token read from index `s` to `end` is maximal: a word, number or string
/// ends where its grammar ends it, and a punctuator is the longest one.
pub open spec fn maximal_at(code: Seq<char>, s: int, lit: Seq<char>, end: int) -> bool {
    if is_id_first(lit[0]) {
        end == ident_end(code, s)
    } else if is_digit(lit[0]) {
        end == number_end(code, s)
    } else if is_quote(lit[0]) {
        end == quote_end(code, lit[0], s + 1)
    } else {
        op_token(lit.push(eff_char(code, s + lit.len()))) == Token::ILLEGAL
    }
}

pub proof fn lemma_eff_char_past_end(code: Seq<char>, i: int)
    requires
        i >= code.len(),
    ensures
        eff_char(code, i) == eff_char(code, code.len() as int),
{
}

pub proof fn lemma_digit_run_end_bounds(code: Seq<char>, i: int, base: int)
    requires
        0 <= i <= code.len(),
    ensures
        i <= digit_run_end(code, i, base) <= code.len(),
        forall|j: int| i <= j < digit_run_end(code, i, base) ==> hex_digit_value(#[trigger] code[j]) < base,
        digit_run_end(code, i, base) < code.len() ==> hex_digit_value(code[digit_run_end(code, i, base)]) >= base,
    decreases code.len() - i,
{
    if i < code.len() && hex_digit_value(code[i]) < base {
        lemma_digit_run_end_bounds(code, i + 1, base);
    }
}

pub proof fn lemma_ident_end_bounds(code: Seq<char>, i: int)
    requires
        0 <= i <= code.len(),
    ensures
        i <= ident_end(code, i) <= code.len(),
        forall|j: int| i <= j < ident_end(code, i) ==> is_id_part(#[trigger] code[j]),
        ident_end(code, i) < code.len() ==> !is_id_part(code[ident_end(code, i)]),
    decreases code.len() - i,
{
    if i < code.len() && is_id_part(code[i]) {
        lemma_ident_end_bounds(code, i + 1);
    }
}

pub proof fn lemma_quote_end_bounds(code: Seq<char>, q: char, i: int)
    requires
        0 <= i <= code.len(),
    ensures
        i <= quote_end(code, q, i) <= code.len(),
    decreases code.len() - i,
{
    if i < code.len() && code[i] != q {
        lemma_quote_end_bounds(code, q, i + 1);
    }
}

pub proof fn lemma_lookahead_bounds(code: Seq<char>, i: int, skip: bool)
    requires
        0 <= i,
    ensures
        i <= lookahead_index(code, i, skip),
        lookahead_index(code, i, skip) < code.len() ==> !skip || !(code[lookahead_index(code, i, skip)] == ' ' || code[lookahead_index(code, i, skip)] == '\n' || code[lookahead_index(code, i, skip)] == '\r' || code[lookahead_index(code, i, skip)] == '\t'),
    decreases code.len() - i,
{
    if i < code.len() && skip && (code[i] == ' ' || code[i] == '\n' || code[i] == '\r' || code[i] == '\t') {
        lemma_lookahead_bounds(code, i + 1, skip);
    }
}

pub proof fn lemma_subrange_spelled(code: Seq<char>, s: int, end: int)
    requires
        0 <= s < end <= code.len(),
    ensures
        spelled_at(code, s, code.subrange(s, end), end),
{
}

pub proof fn lemma_quote_none(code: Seq<char>, q: char, i: int)
    requires
        0 <= i <= code.len(),
        forall|j: int| i <= j < code.len() ==> #[trigger] code[j] != q,
    ensures
        quote_end(code, q, i) == code.len(),
    decreases code.len() - i,
{
    if i < code.len() {
        lemma_quote_none(code, q, i + 1);
    }
}

/// The message of the error for an unexpected token `t` with text `lit`.
pub open spec fn unexpected_message(t: Token, lit: Seq<char>) -> Seq<char> {
    if t == Token::Identifier {
        "Unexpected identifier '"@ + lit + "'"@
    } else if t == Token::Number {
        "Unexpected number"@
    } else if t == Token::String {
        "Unexpected string"@
    } else {
        "Unexpected token "@ + token_name(t)
    }
}

/// The flag of a declaration that starts with the keyword `t`.
pub open spec fn variable_flag_of(t: Token) -> VariableFlag {
    if t == Token::Let {
        VariableFlag::Let
    } else if t == Token::Const {
        VariableFlag::Const
    } else {
        VariableFlag::Var
    }
}

/// The precedence level of a binary operator, from `||` and `??` (1) up to
/// `**` (11); 0 for a token that is no binary operator.
pub open spec fn binary_level(t: Token) -> int {
    match t {
        Token::LogicalOr | Token::NullishCoalescing => 1,
        Token::LogicalAnd => 2,
        Token::Or => 3,
        Token::ExclusiveOr => 4,
        Token::And => 5,
        Token::Equal | Token::StrictEqual | Token::NotEqual | Token::StrictNotEqual => 6,
        Token::Less | Token::Greater | Token::GreaterOrEqual | Token::LessOrEqual | Token::In
        | Token::Instanceof => 7,
        Token::ShiftLeft | Token::ShiftRight | Token::UnsignedShiftRight => 8,
        Token::Plus | Token::Subtract => 9,
        Token::Multiply | Token::Slash | Token::Remainder => 10,
        Token::Exponentiation => 11,
        _ => 0,
    }
}

/// The assignment operators, `=` and the compound ones.
pub open spec fn is_assign_operator(t: Token) -> bool {
    match t {
        Token::Assign | Token::AddAssign | Token::SubtractAssign | Token::MultiplyAssign
        | Token::SlashAssign | Token::RemainderAssign | Token::ShiftLeftAssign
        | Token::ShiftRightAssign | Token::UnsignedShiftRightAssign | Token::OrAssign
        | Token::AndAssign | Token::ExclusiveOrAssign | Token::LogicalAndAssign
        | Token::LogicalOrAssign | Token::ExponentiationAssign | Token::NullishCoalescingAssign => true,
        _ => false,
    }
}

/// The prefix unary operators.
pub open spec fn is_prefix_operator(t: Token) -> bool {
    match t {
        Token::Not | Token::BitwiseNot | Token::Plus | Token::Subtract | Token::Typeof | Token::Void
        | Token::Delete | Token::Await | Token::Increment | Token::Decrement => true,
        _ => false,
    }
}

/// An operand that no operator of the expression grammar joins: not a
/// binary, conditional or assignment expression, and not the unknown one.
pub open spec fn primary_form(e: Expression) -> bool {
    !(e is Binary) && !(e is Assign) && !(e is Conditional) && !(e is Unknown)
}

/// The binary operators of `e` nest as their precedence and associativity
/// ask, none of them binding looser than level `min`: `**` groups to the
/// right, every other operator to the left.
pub open spec fn binary_form(e: Expression, min: int) -> bool
    decreases e,
{
    match e {
        Expression::Binary(b) => {
            let l = binary_level(b.operator);
            &&& 1 <= l
            &&& min <= l
            &&& if l == 11 {
                binary_form(*b.left, 12) && binary_form(*b.right, 11)
            } else {
                binary_form(*b.left, l) && binary_form(*b.right, l + 1)
            }
        },
        _ => primary_form(e),
    }
}

/// A conditional expression `c ? a : b`, or an expression of binary operators.
pub open spec fn conditional_form(e: Expression) -> bool
    decreases e,
{
    match e {
        Expression::Conditional(c) => binary_form(*c.condition, 1) && assignment_form(*c.when_true)
            && assignment_form(*c.when_false),
        _ => binary_form(e, 1),
    }
}

/// A full expression: assignments group to the right, and what they assign
/// to is a conditional expression.
pub open spec fn assignment_form(e: Expression) -> bool
    decreases e,
{
    match e {
        Expression::Assign(a) => is_assign_operator(a.operator) && conditional_form(*a.left)
            && assignment_form(*a.right),
        Expression::Conditional(c) => binary_form(*c.condition, 1) && assignment_form(*c.when_true)
            && assignment_form(*c.when_false),
        _ => binary_form(e, 1),
    }
}

/// The expression a literal token `t` with text `lit` stands for.
pub open spec fn literal_form(t: Token, lit: Seq<char>, e: Expression) -> bool {
    match t {
        Token::Identifier => e matches Expression::Identifier(i) && i.literal@ == lit,
        Token::Number => e matches Expression::Number(n) && n.literal@ == lit,
        Token::String => e matches Expression::String(s) && s.literal@ == lit && s.value@
            == lit.subrange(1, lit.len() - 1),
        Token::Backtick => e matches Expression::TemplateLiteral(t) && forall|i: int|
            0 <= i < t.spans@.len() ==> span_form(#[trigger] t.spans@[i]),
        Token::False => e == Expression::Keyword(Keywords::False),
        Token::True => e == Expression::Keyword(Keywords::True),
        Token::Null => e == Expression::Keyword(Keywords::Null),
        Token::Undefined => e == Expression::Keyword(Keywords::Undefined),
        Token::This => e == Expression::Keyword(Keywords::This),
        Token::LeftBrace => e matches Expression::Object(o) && forall|i: int|
            0 <= i < o.properties@.len() ==> property_form(#[trigger] o.properties@[i]),
        Token::LeftBracket => e matches Expression::Array(a) && forall|i: int|
            0 <= i < a.elements@.len() ==> element_form(#[trigger] a.elements@[i]),
        Token::Function => e matches Expression::Function(f) && function_form(f),
        _ => e is Unknown,
    }
}

/// A property of a parsed object literal: its name is a string (an
/// identifier name becomes one), a number, or a computed name that holds a
/// full expression; its value is a full expression, the identifier itself
/// for a shorthand `{ a }`, or the unknown expression for a shorthand of a
/// name that is no identifier.
pub open spec fn property_form(p: PropertyAssignment) -> bool {
    &&& (*p.name is String || *p.name is Number || (*p.name matches Expression::ComputedPropertyName(c)
        && assignment_form(*c.expression)))
    &&& (assignment_form(*p.initializer) || *p.initializer is Unknown || (
    *p.initializer matches Expression::Identifier(i) && *p.name matches Expression::String(n)
        && n.literal@ == i.literal@ && n.value@ == i.literal@))
}

/// An element of a parsed array literal: a full expression, or `undefined`
/// for an elision.
pub open spec fn element_form(e: Expression) -> bool {
    assignment_form(e) || e == Expression::Keyword(Keywords::Undefined)
}

/// A parameter of a parsed function: an identifier, which defaults to `undefined`.
pub open spec fn parameter_form(p: Parameter) -> bool {
    &&& classify(p.name.literal@) == Token::Identifier
    &&& *p.initializer == Expression::Keyword(Keywords::Undefined)
}

/// A parsed function: it is anonymous exactly when it has no name, its
/// parameters are identifiers, its body holds statements of a parsed
/// program, and the functions its body hoists have names.
pub open spec fn function_form(f: FunctionDeclaration) -> bool {
    &&& f.is_anonymous == (f.name.literal@.len() == 0)
    &&& forall|i: int| 0 <= i < f.parameters@.len() ==> parameter_form(#[trigger] f.parameters@[i])
    &&& forall|i: int|
        0 <= i < f.body.statements@.len() ==> statement_ok(#[trigger] f.body.statements@[i])
    &&& named_functions(f.declarations@)
}

/// A span of a parsed template literal: a run of its text, kept as
/// written, or the full expression of a `${..}`.
pub open spec fn span_form(e: Expression) -> bool {
    (e matches Expression::String(s) && s.value@ == s.literal@) || assignment_form(e)
}

/// The index of the first `q` at or after `i`, or the end of the text.
pub open spec fn char_index(code: Seq<char>, q: char, i: int) -> int
    decreases code.len() - i,
{
    if i < 0 || i >= code.len() {
        code.len() as int
    } else if code[i] == q {
        i
    } else {
        char_index(code, q, i + 1)
    }
}

pub proof fn lemma_char_index_bounds(code: Seq<char>, q: char, i: int)
    requires
        0 <= i <= code.len(),
    ensures
        i <= char_index(code, q, i) <= code.len(),
        forall|j: int| i <= j < char_index(code, q, i) ==> #[trigger] code[j] != q,
        char_index(code, q, i) < code.len() ==> code[char_index(code, q, i)] == q,
    decreases code.len() - i,
{
    if i < code.len() && code[i] != q {
        lemma_char_index_bounds(code, q, i + 1);
    }
}

/// A `${` opens a substitution at an index strictly between `b` and `e`.
pub open spec fn has_substitution(code: Seq<char>, b: int, e: int) -> bool {
    exists|j: int| b < j < e && j + 1 < code.len() && #[trigger] code[j] == '$' && code[j + 1] == '{'
}

/// The spans of a template literal without substitutions whose text runs
/// from `b` to `e`: that text as one span, or none when it is empty.
pub open spec fn plain_spans(spans: Seq<Expression>, code: Seq<char>, b: int, e: int) -> bool {
    if b < e {
        &&& spans.len() == 1
        &&& spans[0] matches Expression::String(s)
        &&& s.literal@ == code.subrange(b, e)
        &&& s.value@ == s.literal@
    } else {
        spans.len() == 0
    }
}

/// The tokens that are a whole operand by themselves: identifiers, numbers,
/// strings, and the words `true`, `false`, `null`, `undefined` and `this`.
pub open spec fn is_operand_token(t: Token) -> bool {
    t == Token::Identifier || t == Token::Number || t == Token::String || t == Token::True || t
        == Token::False || t == Token::Null || t == Token::Undefined || t == Token::This
}

/// Where the word, number or string that starts at `s` ends.
pub open spec fn operand_end(code: Seq<char>, s: int) -> int {
    if is_id_first(code[s]) {
        ident_end(code, s)
    } else if is_quote(code[s]) {
        quote_end(code, code[s], s + 1)
    } else {
        number_end(code, s)
    }
}

/// A number, a string closed by its quote, or a word that is an operand
/// token (no keyword of a statement or an operator), starts at `s`.
pub open spec fn operand_at(code: Seq<char>, s: int) -> bool {
    &&& 0 <= s < code.len()
    &&& (is_digit(code[s]) || (is_quote(code[s]) && char_index(code, code[s], s + 1) < code.len())
        || (is_id_first(code[s]) && is_operand_token(
        word_token(code.subrange(s, ident_end(code, s))),
    )))
}

/// The end of a string is just past its closing quote.
pub proof fn lemma_quote_end_index(code: Seq<char>, q: char, i: int)
    requires
        0 <= i <= code.len(),
        char_index(code, q, i) < code.len(),
    ensures
        quote_end(code, q, i) == char_index(code, q, i) + 1,
    decreases code.len() - i,
{
    if i < code.len() && code[i] != q {
        lemma_quote_end_index(code, q, i + 1);
    }
}

pub proof fn lemma_operand_end_bounds(code: Seq<char>, s: int)
    requires
        operand_at(code, s),
    ensures
        s < operand_end(code, s) <= code.len(),
        is_quote(code[s]) ==> s + 2 <= operand_end(code, s),
{
    if is_id_first(code[s]) {
        lemma_ident_end_bounds(code, s);
    } else if is_quote(code[s]) {
        lemma_char_index_bounds(code, code[s], s + 1);
        lemma_quote_end_index(code, code[s], s + 1);
    } else {
        lemma_digit_run_end_bounds(code, s, 10);
        if s + 2 <= code.len() {
            lemma_digit_run_end_bounds(code, s + 2, 16);
        }
        let q = digit_run_end(code, s, 10);
        if q < code.len() {
            lemma_digit_run_end_bounds(code, q + 1, 10);
        }
    }
}

/// `=` on its own (not `==`, `===` or `=>`) at `t`.
pub open spec fn assign_at(code: Seq<char>, t: int) -> bool {
    &&& 0 <= t && t + 1 < code.len()
    &&& code[t] == '=' && code[t + 1] != '=' && code[t + 1] != '>'
}

/// `++` or `--` at `t`.
pub open spec fn incdec_at(code: Seq<char>, t: int) -> bool {
    &&& 0 <= t && t + 1 < code.len()
    &&& ((code[t] == '+' && code[t + 1] == '+') || (code[t] == '-' && code[t + 1] == '-'))
}

/// The token of `++` (`c` is `+`) or `--`.
pub open spec fn incdec_token(c: char) -> Token {
    if c == '+' {
        Token::Increment
    } else {
        Token::Decrement
    }
}

/// A token of the simple programs (see `program_at`) starts at `t`, or
/// the text has ended.
pub open spec fn simple_token_at(code: Seq<char>, t: int) -> bool {
    t >= code.len() || code[t] == ';' || assign_at(code, t) || incdec_at(code, t) || binop_len(
        code,
        t,
    ) > 0 || operand_at(code, t) || paren_at(code, t, '(') || paren_at(code, t, ')') || keyword_at(
        code,
        t,
        Token::If,
    ) || keyword_at(code, t, Token::Else)
}

/// The text of the operand that starts at `o`.
pub open spec fn operand_text(code: Seq<char>, o: int) -> Seq<char> {
    code.subrange(o, operand_end(code, o))
}

/// Where the operand of the unary expression at `s` starts: after a
/// leading `++` or `--`, else at `s`.
pub open spec fn unary_operand(code: Seq<char>, s: int) -> int {
    if incdec_at(code, s) {
        next_start(code, s + 2)
    } else {
        s
    }
}

/// Where the unary expression at `s` ends.
pub open spec fn unary_end(code: Seq<char>, s: int) -> int {
    operand_end(code, unary_operand(code, s))
}

/// A character that may follow a binary operator of a simple program:
/// white space, or one that starts an operand.
pub open spec fn after_operator_char(c: char) -> bool {
    c == ' ' || c == '\t' || c == '\n' || is_id_part(c)
}

/// A binary operator of `k` characters stands at `t`: characters that are
/// neither white space nor part of a word, followed by one that is, and
/// spelling an operator of a level from 1 (`||`) to 11 (`**`).
pub open spec fn binop_of_len(code: Seq<char>, t: int, k: int) -> bool {
    &&& 0 <= t && t + k < code.len()
    &&& after_operator_char(code[t + k])
    &&& forall|j: int| t <= j < t + k ==> !after_operator_char(#[trigger] code[j])
    &&& binary_level(op_token(code.subrange(t, t + k))) >= 1
}

/// The length of the binary operator at `t`, or 0 when there is none.
pub open spec fn binop_len(code: Seq<char>, t: int) -> int {
    if binop_of_len(code, t, 1) {
        1
    } else if binop_of_len(code, t, 2) {
        2
    } else if binop_of_len(code, t, 3) {
        3
    } else {
        0
    }
}

/// The token of the binary operator at `t`.
pub open spec fn binop_token(code: Seq<char>, t: int) -> Token {
    op_token(code.subrange(t, t + binop_len(code, t)))
}

/// Each shorter start of a binary operator is a token too, and none
/// starts with a quote.
pub proof fn lemma_binop_prefix(w: Seq<char>, j: int)
    requires
        1 <= j < w.len() <= 3,
        binary_level(op_token(w)) >= 1,
    ensures
        op_token(w.subrange(0, j)) != Token::ILLEGAL,
{
}

/// No punctuator holds white space or a character of a word.
pub proof fn lemma_op_word_char(w: Seq<char>, j: int)
    requires
        0 <= j < w.len(),
        after_operator_char(w[j]),
    ensures
        op_token(w) == Token::ILLEGAL,
{
}

/// A `;`, a lone `=`, a `++` or a `--` is no binary operator.
pub proof fn lemma_binop_disjoint(code: Seq<char>, t: int)
    requires
        (0 <= t < code.len() && code[t] == ';') || assign_at(code, t) || incdec_at(code, t),
    ensures
        binop_len(code, t) == 0,
{
    if binop_of_len(code, t, 2) {
        assert(code.subrange(t, t + 2) =~= seq![code[t], code[t + 1]]);
    }
    if binop_of_len(code, t, 3) {
        assert(code.subrange(t, t + 3) =~= seq![code[t], code[t + 1], code[t + 2]]);
    }
}

/// What may follow an operand in an expression of a simple program: what
/// `follows_unary` allows, or a binary operator.
pub open spec fn follows_operand(code: Seq<char>, e: int, ident: bool) -> bool {
    follows_unary(code, e, ident) || binop_len(code, next_start(code, e)) > 0
}

/// A unary expression starts at `s`, followed by what `follows_operand` allows.
pub open spec fn unary_ok_c(code: Seq<char>, s: int) -> bool {
    let o = unary_operand(code, s);
    &&& operand_at(code, o)
    &&& (incdec_at(code, s) || s == o)
    &&& follows_operand(code, unary_end(code, s), classify(operand_text(code, o)) == Token::Identifier)
}

/// Where the token after the unary expression at `s` starts.
pub open spec fn after_unary(code: Seq<char>, s: int) -> int {
    next_start(code, unary_end(code, s))
}

pub proof fn lemma_unary_c_bounds(code: Seq<char>, s: int)
    requires
        0 <= s,
        unary_ok_c(code, s),
    ensures
        s < unary_end(code, s) <= after_unary(code, s) <= code.len(),
        binop_len(code, after_unary(code, s)) > 0 ==> after_unary(code, s) + binop_len(
            code,
            after_unary(code, s),
        ) <= next_start(code, after_unary(code, s) + binop_len(code, after_unary(code, s)))
            <= code.len(),
{
    let o = unary_operand(code, s);
    if incdec_at(code, s) {
        lemma_next_start_bounds(code, s + 2);
    }
    lemma_operand_end_bounds(code, o);
    lemma_next_start_bounds(code, unary_end(code, s));
    let t = after_unary(code, s);
    let k = binop_len(code, t);
    if k > 0 {
        lemma_next_start_bounds(code, t + k);
    }
}

/// Unary expressions joined by binary operators start at `s`.
pub open spec fn chain_ok(code: Seq<char>, s: int) -> bool
    decreases code.len() - s,
{
    if s < 0 || !unary_ok_c(code, s) {
        false
    } else {
        let t = after_unary(code, s);
        let k = binop_len(code, t);
        proof {
            lemma_unary_c_bounds(code, s);
        }
        if k > 0 {
            chain_ok(code, next_start(code, t + k))
        } else {
            true
        }
    }
}

/// Where the operands of level at least `lv` joined to the unary
/// expression at `s` end: the start of the first operator below that
/// level, or of the token after the chain.
pub open spec fn chain_stop(code: Seq<char>, s: int, lv: int) -> int
    decreases code.len() - s,
{
    if s < 0 || !unary_ok_c(code, s) {
        s
    } else {
        let t = after_unary(code, s);
        let k = binop_len(code, t);
        proof {
            lemma_unary_c_bounds(code, s);
        }
        if k > 0 && binary_level(binop_token(code, t)) >= lv {
            chain_stop(code, next_start(code, t + k), lv)
        } else {
            t
        }
    }
}

/// At the first stop of level `lv + 1`, either an operator of level `lv`
/// goes on to the next operand, or the chain of level `lv` stops too.
pub proof fn lemma_chain_stop_step(code: Seq<char>, s: int, lv: int)
    requires
        chain_ok(code, s),
        1 <= lv,
    ensures
        ({
            let q = chain_stop(code, s, lv + 1);
            let k = binop_len(code, q);
            &&& 0 <= q <= code.len()
            &&& (k > 0 && binary_level(binop_token(code, q)) == lv) ==> (chain_ok(
                code,
                next_start(code, q + k),
            ) && chain_stop(code, s, lv) == chain_stop(code, next_start(code, q + k), lv))
            &&& !(k > 0 && binary_level(binop_token(code, q)) == lv) ==> chain_stop(code, s, lv) == q
            &&& (k > 0 ==> binary_level(binop_token(code, q)) <= lv)
        }),
    decreases code.len() - s,
{
    lemma_unary_c_bounds(code, s);
    let t = after_unary(code, s);
    let k = binop_len(code, t);
    if k > 0 && binary_level(binop_token(code, t)) >= lv + 1 {
        lemma_chain_stop_step(code, next_start(code, t + k), lv);
    }
}

/// The parenthesis `c` (`(` or `)`) stands at `t`.
pub open spec fn paren_at(code: Seq<char>, t: int, c: char) -> bool {
    0 <= t < code.len() && code[t] == c && (c == '(' || c == ')')
}

/// The keyword `k` is the word that starts at `t`.
pub open spec fn keyword_at(code: Seq<char>, t: int, k: Token) -> bool {
    &&& 0 <= t < code.len()
    &&& is_id_first(code[t])
    &&& word_token(code.subrange(t, ident_end(code, t))) == k
}

/// What may follow a unary expression that ends at `e`, its operand an
/// identifier when `ident`: the end of the text, `;`, `=`, the start of
/// another operand, or a `++` or `--` that a line break after an
/// identifier turns into the start of the next statement.
pub open spec fn follows_unary(code: Seq<char>, e: int, ident: bool) -> bool {
    let t = next_start(code, e);
    ||| t >= code.len()
    ||| code[t] == ';'
    ||| assign_at(code, t)
    ||| operand_at(code, t)
    ||| (incdec_at(code, t) && ident && line_break_before(code, e))
    ||| paren_at(code, t, ')')
    ||| keyword_at(code, t, Token::If)
    ||| keyword_at(code, t, Token::Else)
}

/// A unary expression of a simple program starts at `s`: an operand (see
/// `operand_at`), after a `++` or `--` or not, followed by what
/// `follows_unary` allows.
pub open spec fn unary_ok(code: Seq<char>, s: int) -> bool {
    let o = unary_operand(code, s);
    &&& operand_at(code, o)
    &&& (incdec_at(code, s) || s == o)
    &&& follows_unary(code, unary_end(code, s), classify(operand_text(code, o)) == Token::Identifier)
}

/// The expression parsed from the unary expression at `s`.
pub open spec fn unary_form(code: Seq<char>, s: int, e: Expression) -> bool {
    let lit = operand_text(code, unary_operand(code, s));
    if incdec_at(code, s) {
        &&& e matches Expression::PrefixUnary(p)
        &&& p.operator == incdec_token(code[s])
        &&& literal_form(classify(lit), lit, *p.operand)
    } else {
        literal_form(classify(lit), lit, e)
    }
}

pub proof fn lemma_chain_stop_bounds(code: Seq<char>, s: int, lv: int)
    requires
        chain_ok(code, s),
    ensures
        s < after_unary(code, s) <= chain_stop(code, s, lv) <= code.len(),
    decreases code.len() - s,
{
    lemma_unary_c_bounds(code, s);
    let t = after_unary(code, s);
    let k = binop_len(code, t);
    if k > 0 && binary_level(binop_token(code, t)) >= lv {
        lemma_chain_stop_bounds(code, next_start(code, t + k), lv);
    }
}

/// An expression of a simple program starts at `s`: chains of operands
/// and binary operators (see `chain_ok`) joined by `=`.
pub open spec fn expr_ok(code: Seq<char>, s: int) -> bool
    decreases code.len() - s,
{
    if s < 0 || !chain_ok(code, s) {
        false
    } else {
        let t = chain_stop(code, s, 1);
        proof {
            lemma_chain_stop_bounds(code, s, 1);
        }
        if assign_at(code, t) {
            proof {
                lemma_next_start_bounds(code, t + 1);
            }
            expr_ok(code, next_start(code, t + 1))
        } else {
            true
        }
    }
}

/// Where the token after the expression at `s` starts.
pub open spec fn expr_stop(code: Seq<char>, s: int) -> int
    decreases code.len() - s,
{
    if s < 0 || !chain_ok(code, s) {
        s
    } else {
        let t = chain_stop(code, s, 1);
        proof {
            lemma_chain_stop_bounds(code, s, 1);
        }
        if assign_at(code, t) {
            proof {
                lemma_next_start_bounds(code, t + 1);
            }
            expr_stop(code, next_start(code, t + 1))
        } else {
            t
        }
    }
}

/// The expression parsed from the expression at `s`: assignments group to
/// the right, and a side without binary operators is its unary expression.
pub open spec fn expr_form(code: Seq<char>, s: int, e: Expression) -> bool
    decreases code.len() - s,
{
    if s < 0 || !chain_ok(code, s) {
        false
    } else {
        let t = chain_stop(code, s, 1);
        let plain = binop_len(code, after_unary(code, s)) == 0;
        proof {
            lemma_chain_stop_bounds(code, s, 1);
        }
        if assign_at(code, t) {
            proof {
                lemma_next_start_bounds(code, t + 1);
            }
            &&& e matches Expression::Assign(a)
            &&& a.operator == Token::Assign
            &&& (plain ==> unary_form(code, s, *a.left))
            &&& expr_form(code, next_start(code, t + 1), *a.right)
        } else {
            plain ==> unary_form(code, s, e)
        }
    }
}

pub proof fn lemma_expr_bounds(code: Seq<char>, s: int)
    requires
        expr_ok(code, s),
    ensures
        s < expr_stop(code, s) <= code.len(),
        !assign_at(code, expr_stop(code, s)),
    decreases code.len() - s,
{
    lemma_chain_stop_bounds(code, s, 1);
    let t = chain_stop(code, s, 1);
    if assign_at(code, t) {
        lemma_next_start_bounds(code, t + 1);
        lemma_expr_bounds(code, next_start(code, t + 1));
    }
}

/// Where the statement that starts at `s` ends: after its expression and
/// the `;` that may follow it.
pub open spec fn after_statement(code: Seq<char>, s: int) -> int {
    let t = expr_stop(code, s);
    if t < code.len() && code[t] == ';' {
        next_start(code, t + 1)
    } else {
        t
    }
}

pub proof fn lemma_after_statement_bounds(code: Seq<char>, s: int)
    requires
        expr_ok(code, s),
    ensures
        s < after_statement(code, s) <= code.len(),
{
    lemma_expr_bounds(code, s);
    let t = expr_stop(code, s);
    if t < code.len() && code[t] == ';' {
        lemma_next_start_bounds(code, t + 1);
    }
}

/// Where the condition of the `if` at `s` starts: after the keyword and `(`.
pub open spec fn if_condition(code: Seq<char>, s: int) -> int {
    next_start(code, next_start(code, ident_end(code, s)) + 1)
}

/// Where the statement of the branch taken when the condition of the `if`
/// at `s` holds starts: after the condition and `)`.
pub open spec fn if_then(code: Seq<char>, s: int) -> int {
    next_start(code, expr_stop(code, if_condition(code, s)) + 1)
}

/// Where the token after the branch of the `if` at `s` starts: the `else`,
/// when there is one.
pub open spec fn if_after_then(code: Seq<char>, s: int) -> int {
    after_statement(code, if_then(code, s))
}

/// Whether the `if` at `s` has an `else` branch.
pub open spec fn if_has_else(code: Seq<char>, s: int) -> bool {
    keyword_at(code, if_after_then(code, s), Token::Else)
}

/// Where the statement of the `else` branch of the `if` at `s` starts.
pub open spec fn if_else(code: Seq<char>, s: int) -> int {
    next_start(code, ident_end(code, if_after_then(code, s)))
}

/// An `if` statement of a simple program starts at `s`: `if`, `(`, an
/// expression (see `expr_ok`), `)`, an expression statement, and
/// optionally `else` and another expression statement.
pub open spec fn if_ok(code: Seq<char>, s: int) -> bool {
    let p = next_start(code, ident_end(code, s));
    &&& keyword_at(code, s, Token::If)
    &&& paren_at(code, p, '(')
    &&& expr_ok(code, if_condition(code, s))
    &&& paren_at(code, expr_stop(code, if_condition(code, s)), ')')
    &&& expr_ok(code, if_then(code, s))
    &&& (if_has_else(code, s) ==> expr_ok(code, if_else(code, s)))
}

/// Where the `if` statement at `s` ends.
pub open spec fn if_end(code: Seq<char>, s: int) -> int {
    if if_has_else(code, s) {
        after_statement(code, if_else(code, s))
    } else {
        if_after_then(code, s)
    }
}

/// The statement parsed from the `if` at `s`: its condition, the
/// expression statement of its branch, and the one after `else` when there
/// is one, else the unknown statement.
pub open spec fn if_form(code: Seq<char>, s: int, st: Statement) -> bool {
    &&& st matches Statement::If(i)
    &&& expr_form(code, if_condition(code, s), i.condition)
    &&& *i.then_statement matches Statement::Expression(x) && expr_form(
        code,
        if_then(code, s),
        x.expression,
    )
    &&& if if_has_else(code, s) {
        *i.else_statement matches Statement::Expression(y) && expr_form(
            code,
            if_else(code, s),
            y.expression,
        )
    } else {
        *i.else_statement is Unknown
    }
}

pub proof fn lemma_if_bounds(code: Seq<char>, s: int)
    requires
        if_ok(code, s),
    ensures
        s < if_end(code, s) <= code.len(),
{
    lemma_ident_end_bounds(code, s);
    let p = next_start(code, ident_end(code, s));
    lemma_next_start_bounds(code, ident_end(code, s));
    lemma_next_start_bounds(code, p + 1);
    let c = if_condition(code, s);
    lemma_expr_bounds(code, c);
    lemma_next_start_bounds(code, expr_stop(code, c) + 1);
    lemma_after_statement_bounds(code, if_then(code, s));
    if if_has_else(code, s) {
        let a = if_after_then(code, s);
        lemma_ident_end_bounds(code, a);
        lemma_next_start_bounds(code, ident_end(code, a));
        lemma_after_statement_bounds(code, if_else(code, s));
    }
}

/// The statement parsed from the statement of a simple program at `s`.
pub open spec fn statement_form_at(code: Seq<char>, s: int, st: Statement) -> bool {
    if if_ok(code, s) {
        if_form(code, s, st)
    } else {
        st matches Statement::Expression(x) && expr_form(code, s, x.expression)
    }
}

/// The text from the token that starts at `s` on is a simple program:
/// expression statements (see `expr_ok`), `if` statements (see `if_ok`)
/// and semicolons, apart from white space, line breaks and comments.
pub open spec fn program_at(code: Seq<char>, s: int) -> bool
    decreases code.len() - s,
{
    if s < 0 {
        false
    } else if s >= code.len() {
        true
    } else if code[s] == ';' {
        proof {
            lemma_next_start_bounds(code, s + 1);
        }
        program_at(code, next_start(code, s + 1))
    } else if expr_ok(code, s) {
        proof {
            lemma_after_statement_bounds(code, s);
        }
        program_at(code, after_statement(code, s))
    } else if if_ok(code, s) {
        proof {
            lemma_if_bounds(code, s);
        }
        program_at(code, if_end(code, s))
    } else {
        false
    }
}

/// Where the statements of the simple program at `s` start, in order.
pub open spec fn statement_starts(code: Seq<char>, s: int) -> Seq<int>
    decreases code.len() - s,
{
    if s < 0 || s >= code.len() {
        Seq::empty()
    } else if code[s] == ';' {
        proof {
            lemma_next_start_bounds(code, s + 1);
        }
        statement_starts(code, next_start(code, s + 1))
    } else if expr_ok(code, s) {
        proof {
            lemma_after_statement_bounds(code, s);
        }
        seq![s] + statement_starts(code, after_statement(code, s))
    } else if if_ok(code, s) {
        proof {
            lemma_if_bounds(code, s);
        }
        seq![s] + statement_starts(code, if_end(code, s))
    } else {
        Seq::empty()
    }
}

/// The statements parsed from a simple program: one statement for each
/// start in `starts`, in order, the one parsed from the text there (see
/// `statement_form_at`).
pub open spec fn program_form(body: Seq<Statement>, code: Seq<char>, starts: Seq<int>) -> bool {
    &&& body.len() == starts.len()
    &&& forall|k: int| 0 <= k < body.len() ==> statement_form_at(code, starts[k], #[trigger] body[k])
}

pub proof fn lemma_operand_token(code: Seq<char>, o: int)
    requires
        operand_at(code, o),
    ensures
        operand_text(code, o).len() > 0,
        operand_text(code, o)[0] == code[o],
        is_operand_token(classify(operand_text(code, o))),
        classify(operand_text(code, o)) == Token::String ==> operand_text(code, o).len() >= 2,
{
    lemma_operand_end_bounds(code, o);
}

pub proof fn lemma_program_token(code: Seq<char>, s: int)
    requires
        program_at(code, s),
    ensures
        simple_token_at(code, s),
{
}

/// The statement that a statement starting with token `t` parses to.
pub open spec fn statement_form(t: Token, s: Statement) -> bool {
    match t {
        Token::Var | Token::Let | Token::Const => s matches Statement::Var(v) && v.flag
            == variable_flag_of(t),
        Token::If => s is If,
        Token::Switch => s is Switch,
        Token::For => s matches Statement::For(f) && !f.post_judgment,
        Token::While => s matches Statement::For(f) && !f.post_judgment && *f.initializer is Unknown,
        Token::Do => s matches Statement::For(f) && f.post_judgment && *f.initializer is Unknown,
        Token::Break => s is Break,
        Token::Continue => s is Continue,
        Token::Function => s matches Statement::Function(f) && function_form(f),
        Token::Return => s is Return,
        Token::Class => s is Class,
        Token::Try => s is Try,
        Token::Throw => s is Throw,
        Token::LeftBrace => s matches Statement::Block(b) && forall|i: int|
            0 <= i < b.statements@.len() ==> statement_ok(#[trigger] b.statements@[i]),
        _ => (s matches Statement::Expression(x) && assignment_form(x.expression)) || s is Label,
    }
}

/// A statement of a parsed program: never the unknown statement, and an
/// expression statement holds a full expression (see `assignment_form`).
pub open spec fn statement_ok(s: Statement) -> bool {
    &&& !(s is Unknown)
    &&& (s matches Statement::Expression(x) ==> assignment_form(x.expression))
}

/// The level of a binary operator token (see `binary_level`).
fn token_level(t: Token) -> (r: u8)
    ensures
        r == binary_level(t),
{
    match t {
        Token::LogicalOr | Token::NullishCoalescing => 1,
        Token::LogicalAnd => 2,
        Token::Or => 3,
        Token::ExclusiveOr => 4,
        Token::And => 5,
        Token::Equal | Token::StrictEqual | Token::NotEqual | Token::StrictNotEqual => 6,
        Token::Less | Token::Greater | Token::GreaterOrEqual | Token::LessOrEqual | Token::In
        | Token::Instanceof => 7,
        Token::ShiftLeft | Token::ShiftRight | Token::UnsignedShiftRight => 8,
        Token::Plus | Token::Subtract => 9,
        Token::Multiply | Token::Slash | Token::Remainder => 10,
        Token::Exponentiation => 11,
        _ => 0,
    }
}

/// Whether `t` is an assignment operator.
fn is_assign_token(t: Token) -> (r: bool)
    ensures
        r == is_assign_operator(t),
{
    match t {
        Token::Assign | Token::AddAssign | Token::SubtractAssign | Token::MultiplyAssign
        | Token::SlashAssign | Token::RemainderAssign | Token::ShiftLeftAssign
        | Token::ShiftRightAssign | Token::UnsignedShiftRightAssign | Token::OrAssign
        | Token::AndAssign | Token::ExclusiveOrAssign | Token::LogicalAndAssign
        | Token::LogicalOrAssign | Token::ExponentiationAssign | Token::NullishCoalescingAssign => true,
        _ => false,
    }
}

/// Every declaration is that of a function with a name.
pub open spec fn named_functions(declarations: Seq<Declaration>) -> bool {
    forall|i: int|
        0 <= i < declarations.len() ==> (#[trigger] declarations[i] matches Declaration::Function(f)
            && !f.is_anonymous)
}

/// The lexer and parser state over one source text.
pub struct AST {
    /// The current character.
    cur_char: char,
    /// The index of the next character.
    next_char_index: usize,
    /// The index of the current character.
    cur_char_index: usize,
    /// The characters of the source text.
    code: Vec<char>,
    /// The number of characters of the source text.
    length: usize,
    /// The current token.
    token: Token,
    /// The text of the current token.
    literal: String,
    /// The scope that collects the declarations being hoisted.
    scope: ASTScope,
    /// Whether a line break after the previous token ends a statement.
    pre_token_need_semicolon: bool,
    /// Whether a semicolon was inserted before the current token.
    auto_semicolon_when_new_line: bool,
}

/// A parsed program: its statements and the function declarations hoisted
/// to its top.
#[derive(Debug)]
pub struct Program {
    pub body: Vec<Statement>,
    pub declarations: Vec<Declaration>,
}

/// The declarations collected in a scope while parsing, and the enclosing scope.
#[derive(Debug)]
pub struct ASTScope {
    pub parent: Option<Box<ASTScope>>,
    pub declarations: Vec<Declaration>,
}

impl ASTScope {
    fn new() -> (r: ASTScope)
        ensures
            r.parent is None,
            r.declarations@.len() == 0,
    {
        ASTScope { parent: None, declarations: Vec::new() }
    }

    /// Takes the collected declarations out of the scope.
    fn take_declarations(&mut self) -> (r: Vec<Declaration>)
        ensures
            r@ == old(self).declarations@,
            final(self).parent == old(self).parent,
    {
        let mut declarations: Vec<Declaration> = Vec::new();
        std::mem::swap(&mut declarations, &mut self.declarations);
        declarations
    }

    fn declare(&mut self, declaration: Declaration)
        ensures
            final(self).declarations@ == old(self).declarations@.push(declaration),
            final(self).parent == old(self).parent,
    {
        self.declarations.push(declaration);
    }
}

impl AST {
    /// The source text.
    pub closed spec fn spec_code(self) -> Seq<char> {
        self.code@
    }

    /// The index the lexer stands at.
    pub closed spec fn spec_pos(self) -> int {
        self.cur_char_index as int
    }

    /// The index of the next character to read.
    pub closed spec fn spec_next_index(self) -> int {
        self.next_char_index as int
    }

    /// The current token.
    pub closed spec fn spec_token(self) -> Token {
        self.token
    }

    /// The text of the current token.
    pub closed spec fn spec_literal(self) -> Seq<char> {
        self.literal@
    }

    /// Whether a semicolon was inserted before the current token.
    pub closed spec fn spec_auto_semicolon(self) -> bool {
        self.auto_semicolon_when_new_line
    }

    /// Whether a line break after the previous token ends a statement.
    pub closed spec fn spec_need_semicolon(self) -> bool {
        self.pre_token_need_semicolon
    }

    /// The lexer has read its first character: it stands at an index of the
    /// text, or at its end, and sees the character there.
    pub closed spec fn started(self) -> bool {
        &&& self.cur_char_index <= self.length
        &&& self.next_char_index == (if self.cur_char_index < self.length {
            self.cur_char_index + 1
        } else {
            self.length as int
        })
        &&& self.cur_char == eff_char(self.code@, self.cur_char_index as int)
    }

    /// The state is consistent: the length is that of the text, and the
    /// lexer has started or stands before the first character.
    pub closed spec fn wf(self) -> bool {
        &&& self.length == self.code@.len()
        &&& (self.started() || (self.cur_char_index == 0 && self.next_char_index == 0
            && self.cur_char == ' '))
        &&& named_functions(self.scope.declarations@)
    }

    /// How much of the text is left to read.
    pub closed spec fn remaining(self) -> nat {
        (2 * self.length - self.next_char_index - self.cur_char_index) as nat
    }

    /// What is left to parse: the text left to read, and whether the current
    /// token is still to be consumed.
    pub closed spec fn measure(self) -> nat {
        2 * self.remaining() + (if self.token == Token::EOF { 0nat } else { 1nat })
    }

    /// Two states over the same text.
    pub closed spec fn same_text(self, other: AST) -> bool {
        self.code@ == other.code@ && self.length == other.length
    }

    /// Two states with the same collected declarations.
    pub closed spec fn same_scope(self, other: AST) -> bool {
        self.scope == other.scope
    }

    /// Two states that differ at most in the lexer's position.
    pub closed spec fn same_but_position(self, other: AST) -> bool {
        &&& self.same_text(other)
        &&& self.token == other.token
        &&& self.literal@ == other.literal@
        &&& self.scope == other.scope
        &&& self.pre_token_need_semicolon == other.pre_token_need_semicolon
        &&& self.auto_semicolon_when_new_line == other.auto_semicolon_when_new_line
    }

    /// The index the next token may start at: the current one once the lexer
    /// has started, else the first.
    pub closed spec fn from_index(self) -> int {
        if self.started() { self.cur_char_index as int } else { 0 }
    }

    /// Where the current token starts: its text ends where the lexer stands.
    spec fn tok_start(self) -> int {
        self.from_index() - self.literal@.len()
    }

    /// The current token is the token of a simple program that starts at
    /// `s` (see `simple_token_at`), and the lexer stands at its end.
    spec fn reads(self, s: int) -> bool {
        let code = self.code@;
        &&& self.parsing()
        &&& if s >= code.len() {
            &&& self.token == Token::EOF
            &&& self.literal@.len() == 0
            &&& self.from_index() == code.len()
        } else if code[s] == ';' {
            &&& self.token == Token::Semicolon
            &&& self.literal@ == seq![';']
            &&& self.from_index() == s + 1
        } else if assign_at(code, s) {
            &&& self.token == Token::Assign
            &&& self.literal@ == seq!['=']
            &&& self.from_index() == s + 1
        } else if incdec_at(code, s) {
            &&& self.token == incdec_token(code[s])
            &&& self.literal@ == code.subrange(s, s + 2)
            &&& self.from_index() == s + 2
        } else if binop_len(code, s) > 0 {
            &&& self.token == binop_token(code, s)
            &&& self.literal@ == code.subrange(s, s + binop_len(code, s))
            &&& self.from_index() == s + binop_len(code, s)
        } else if paren_at(code, s, '(') || paren_at(code, s, ')') {
            &&& self.token == punctuator1(code[s])
            &&& self.literal@ == seq![code[s]]
            &&& self.from_index() == s + 1
        } else if keyword_at(code, s, Token::If) || keyword_at(code, s, Token::Else) {
            &&& self.literal@ == code.subrange(s, ident_end(code, s))
            &&& self.from_index() == ident_end(code, s)
            &&& self.token == word_token(self.literal@)
        } else if operand_at(code, s) {
            &&& self.literal@ == operand_text(code, s)
            &&& self.from_index() == operand_end(code, s)
            &&& self.token == classify(self.literal@)
            &&& is_operand_token(self.token)
        } else {
            false
        }
    }

    /// A token that reads from `s` on starts there.
    proof fn lemma_reads_start(self, s: int)
        requires
            self.reads(s),
            0 <= s <= self.code@.len(),
        ensures
            self.tok_start() == s,
    {
        let code = self.code@;
        if s < code.len() && !(code[s] == ';') && !assign_at(code, s) && !incdec_at(code, s)
            && binop_len(code, s) == 0 && !paren_at(code, s, '(') && !paren_at(code, s, ')') {
            if keyword_at(code, s, Token::If) || keyword_at(code, s, Token::Else) {
                lemma_ident_end_bounds(code, s);
            } else {
                lemma_operand_end_bounds(code, s);
            }
        }
    }

    /// The current token of a simple program stands where it starts.
    spec fn here(self) -> bool {
        self.reads(self.tok_start())
    }

    /// The current token starts a unary expression of a simple program.
    spec fn unary_here(self) -> bool {
        self.here() && unary_ok(self.code@, self.tok_start())
    }

    /// The current token starts a unary expression of a simple program,
    /// which a binary operator may follow.
    spec fn unary_c_here(self) -> bool {
        self.here() && unary_ok_c(self.code@, self.tok_start())
    }

    /// The current token starts a chain of operands and binary operators
    /// of a simple program.
    spec fn chain_here(self) -> bool {
        self.here() && chain_ok(self.code@, self.tok_start())
    }

    /// The current token is an operand of a simple program, followed by
    /// what `follows_unary` allows.
    spec fn operand_here(self) -> bool {
        &&& is_operand_token(self.token)
        &&& self.here()
        &&& follows_operand(self.code@, self.from_index(), self.token == Token::Identifier)
    }

    /// What the token that starts a unary expression of a simple program is:
    /// a `++` or `--`, or an operand followed as `follows_unary` allows.
    proof fn lemma_unary_here(self)
        requires
            self.unary_c_here(),
        ensures
            0 <= self.tok_start() < self.code@.len(),
            incdec_at(self.code@, self.tok_start()) ==> (self.token == incdec_token(
                self.code@[self.tok_start()],
            ) && self.from_index() == self.tok_start() + 2),
            !incdec_at(self.code@, self.tok_start()) ==> (self.operand_here() && unary_end(
                self.code@,
                self.tok_start(),
            ) == self.from_index() && self.literal@ == operand_text(self.code@, self.tok_start())),
            is_operand_token(self.token) || self.token == Token::Increment || self.token
                == Token::Decrement,
    {
        let code = self.code@;
        let st = self.tok_start();
        lemma_operand_token(code, unary_operand(code, st));
        if st >= code.len() {
            assert(self.literal@.len() == 0);
        }
    }

    /// At an operator of level `lv` after the operands of higher levels
    /// from `p`, the chain of level `lv` goes on at the next operand.
    proof fn lemma_stop_advance(self, code: Seq<char>, p: int, lv: int)
        requires
            self.code@ == code,
            chain_ok(code, p),
            1 <= lv,
            self.reads(chain_stop(code, p, lv + 1)),
            binary_level(self.token) == lv,
        ensures
            ({
                let q = chain_stop(code, p, lv + 1);
                let u = next_start(code, self.from_index());
                &&& self.from_index() == q + binop_len(code, q)
                &&& chain_ok(code, u)
                &&& simple_token_at(code, u)
                &&& 0 <= u <= code.len()
                &&& chain_stop(code, p, lv) == chain_stop(code, u, lv)
            }),
    {
        lemma_chain_stop_step(code, p, lv);
        let q = chain_stop(code, p, lv + 1);
        if (q < code.len() && code[q] == ';') || assign_at(code, q) || incdec_at(code, q) {
            lemma_binop_disjoint(code, q);
        }
        let u = next_start(code, q + binop_len(code, q));
        assert(unary_ok_c(code, u));
        lemma_unary_c_bounds(code, u);
        lemma_operand_token(code, unary_operand(code, u));
    }

    /// At a token that is no operator of level `lv` after the operands of
    /// higher levels from `p`, the chain of level `lv` stops there too.
    proof fn lemma_stop_exit(self, code: Seq<char>, p: int, st: int, lv: int)
        requires
            self.code@ == code,
            chain_ok(code, p),
            1 <= lv,
            self.reads(chain_stop(code, p, lv + 1)),
            chain_stop(code, p, lv) == chain_stop(code, st, lv),
            binary_level(self.token) != lv,
        ensures
            self.reads(chain_stop(code, st, lv)),
    {
        lemma_chain_stop_step(code, p, lv);
        let q = chain_stop(code, p, lv + 1);
        if (q < code.len() && code[q] == ';') || assign_at(code, q) || incdec_at(code, q) {
            lemma_binop_disjoint(code, q);
        }
    }

    /// The current token starts an expression of a simple program.
    spec fn expr_here(self) -> bool {
        self.here() && expr_ok(self.code@, self.tok_start())
    }

    /// The current token starts a simple program.
    spec fn program_here(self) -> bool {
        self.here() && program_at(self.code@, self.tok_start())
    }

    /// The lexer stands within the text, and the next token is looked for
    /// from an index within it.
    pub proof fn lemma_position_in_text(self)
        requires
            self.wf(),
        ensures
            0 <= self.spec_pos() <= self.spec_code().len(),
            0 <= self.from_index() <= self.spec_code().len(),
    {
    }

    /// A lexer over the characters of `code`, before its first token.
    pub fn new(code: String) -> (r: AST)
        ensures
            r.wf(),
            r.spec_code() == code@,
            r.spec_pos() == 0,
            r.from_index() == 0,
            r.spec_token() == Token::Identifier,
            r.spec_literal().len() == 0,
    {
        let chars = str_to_chars(code.as_str());
        let len = chars.len();
        AST {
            cur_char: ' ',
            next_char_index: 0,
            cur_char_index: 0,
            code: chars,
            length: len,
            token: Token::Identifier,
            literal: String::new(),
            scope: ASTScope::new(),
            pre_token_need_semicolon: false,
            auto_semicolon_when_new_line: false,
        }
    }

    /// Reads the next character; returns false, and stands at the end of the
    /// text, when there is none.
    pub fn read(&mut self) -> (r: bool)
        requires
            old(self).wf(),
        ensures
            final(self).wf(),
            final(self).started(),
            final(self).same_but_position(*old(self)),
            final(self).spec_code() == old(self).spec_code(),
            final(self).spec_token() == old(self).spec_token(),
            final(self).spec_literal() == old(self).spec_literal(),
            r == (old(self).spec_next_index() < old(self).spec_code().len()),
            r ==> final(self).spec_pos() == old(self).spec_next_index(),
            r ==> final(self).remaining() < old(self).remaining(),
            !r ==> final(self).spec_pos() == final(self).spec_code().len(),
            final(self).remaining() <= old(self).remaining(),
            old(self).started() ==> final(self).spec_pos() == min_int(
                old(self).spec_pos() + 1,
                old(self).spec_code().len() as int,
            ),
            final(self).spec_pos() > old(self).spec_pos() ==> final(self).remaining() < old(self).remaining(),
    {
        if self.next_char_index < self.length {
            self.cur_char_index = self.next_char_index;
            self.cur_char = self.code[self.cur_char_index];
            self.next_char_index = self.next_char_index + 1;
            true
        } else {
            // past the end no character is read
            self.next_char_index = self.length;
            self.cur_char_index = self.length;
            self.cur_char = '\0';
            false
        }
    }

    /// Whether the current character may start an identifier.
    fn char_is_identifier_first(&self) -> (r: bool)
        ensures
            r == is_id_first(self.cur_char),
    {
        if self.cur_char >= 'a' && self.cur_char <= 'z' || self.cur_char >= 'A' && self.cur_char <= 'Z' {
            return true;
        }
        match self.cur_char {
            '$' | '_' => true,
            _ => false,
        }
    }

    /// Whether the current character may continue an identifier.
    fn char_is_identifier_part(&self) -> (r: bool)
        ensures
            r == is_id_part(self.cur_char),
    {
        if self.char_is_identifier_first() {
            return true;
        }
        if self.cur_char >= '0' && self.cur_char <= '9' {
            return true;
        }
        false
    }

    /// Skips spaces and tabs (line breaks are left to `scan`).
    fn skip_white_space(&mut self)
        requires
            old(self).wf(),
        ensures
            final(self).wf(),
            final(self).started(),
            final(self).same_but_position(*old(self)),
            final(self).remaining() <= old(self).remaining(),
            final(self).cur_char_index == final(self).length || (final(self).cur_char != ' '
                && final(self).cur_char != '\t'),
            old(self).from_index() <= final(self).cur_char_index,
            forall|i: int|
                old(self).from_index() <= i < final(self).cur_char_index ==> #[trigger] old(self).code@[i] == ' ' || old(self).code@[i] == '\t',
    {
        loop
            invariant
                self.wf(),
                self.started() || *self == *old(self),
                self.same_but_position(*old(self)),
                self.remaining() <= old(self).remaining(),
                old(self).from_index() <= self.from_index(),
                forall|i: int|
                    old(self).from_index() <= i < self.from_index() ==> #[trigger] old(self).code@[i] == ' ' || old(self).code@[i] == '\t',
            ensures
                self.wf(),
                self.started(),
                self.same_but_position(*old(self)),
                self.remaining() <= old(self).remaining(),
                self.cur_char_index == self.length || (self.cur_char != ' ' && self.cur_char != '\t'),
                old(self).from_index() <= self.cur_char_index,
                forall|i: int|
                    old(self).from_index() <= i < self.cur_char_index ==> #[trigger] old(self).code@[i] == ' ' || old(self).code@[i] == '\t',
            decreases self.remaining(),
        {
            match self.cur_char {
                ' ' | '\t' => {
                    if !self.read() {
                        break;
                    }
                },
                _ => {
                    break;
                },
            }
        }
    }


    /// Reads an identifier that starts at the current character.
    fn get_identifier(&mut self) -> (r: String)
        requires
            old(self).wf(),
            old(self).started(),
            old(self).cur_char_index < old(self).length,
            is_id_first(old(self).cur_char),
        ensures
            final(self).wf(),
            final(self).started(),
            final(self).same_but_position(*old(self)),
            final(self).cur_char_index == ident_end(old(self).code@, old(self).cur_char_index as int),
            r@ == old(self).code@.subrange(old(self).cur_char_index as int, final(self).cur_char_index as int),
            final(self).remaining() < old(self).remaining(),
    {
        let start_index = self.cur_char_index;
        proof {
            lemma_ident_end_bounds(self.code@, start_index as int);
        }
        loop
            invariant
                self.wf(),
                self.started(),
                self.same_but_position(*old(self)),
                start_index == old(self).cur_char_index,
                start_index < self.length,
                is_id_first(old(self).cur_char),
                start_index <= self.cur_char_index <= ident_end(self.code@, start_index as int),
                self.remaining() <= old(self).remaining(),
                self.cur_char_index > start_index ==> self.remaining() < old(self).remaining(),
                self.cur_char_index == start_index ==> *self == *old(self),
                ident_end(self.code@, start_index as int) == ident_end(self.code@, self.cur_char_index as int),
            ensures
                self.wf(),
                self.started(),
                self.same_but_position(*old(self)),
                self.cur_char_index == ident_end(self.code@, start_index as int),
                self.remaining() < old(self).remaining(),
            decreases self.remaining(),
        {
            if self.char_is_identifier_part() {
                proof {
                    if self.cur_char_index < self.length {
                        assert(ident_end(self.code@, self.cur_char_index as int) == ident_end(
                            self.code@,
                            self.cur_char_index + 1,
                        ));
                        lemma_ident_end_bounds(self.code@, self.cur_char_index + 1);
                    }
                }
                if !self.read() {
                    break;
                }
            } else {
                break;
            }
        }
        chars_to_string(&self.code, start_index, self.cur_char_index)
    }

    /// Reads a word: a keyword (strict mode), a literal keyword, or an identifier.
    fn scan_word(&mut self) -> (r: (Token, String))
        requires
            old(self).wf(),
            old(self).started(),
            old(self).cur_char_index < old(self).length,
            is_id_first(old(self).cur_char),
        ensures
            final(self).wf(),
            final(self).started(),
            final(self).same_text(*old(self)),
            final(self).token == old(self).token,
            final(self).literal@ == old(self).literal@,
            final(self).scope == old(self).scope,
            final(self).auto_semicolon_when_new_line == old(self).auto_semicolon_when_new_line,
            final(self).cur_char_index == ident_end(old(self).code@, old(self).cur_char_index as int),
            r.1@ == old(self).code@.subrange(old(self).cur_char_index as int, final(self).cur_char_index as int),
            r.1@.len() > 0,
            r.0 == word_token(r.1@),
            r.0 == classify(r.1@),
            final(self).remaining() < old(self).remaining(),
            final(self).pre_token_need_semicolon == (old(self).pre_token_need_semicolon
                || r.0 == Token::Identifier || r.0 == Token::Continue || r.0 == Token::Break
                || r.0 == Token::Return || r.0 == Token::Yield),
    {
        let is_strict = true;
        let ghost s = self.cur_char_index as int;
        let ghost code = self.code@;
        let literal = self.get_identifier();
        proof {
            lemma_ident_end_bounds(code, s);
            assert(literal@.len() > 0);
            assert(literal@[0] == code[s]);
        }
        let token = get_token_keyword(&literal, is_strict);
        if token == Token::ILLEGAL {
            let token_literal = get_token_literal(&literal);
            if token_literal == Token::ILLEGAL {
                // a name of the program's own
                self.pre_token_need_semicolon = true;
                return (Token::Identifier, literal);
            }
            return (token_literal, literal);
        }
        match token {
            Token::Continue | Token::Break | Token::Return | Token::Yield => {
                // a line break after these keywords ends the statement
                self.pre_token_need_semicolon = true;
            },
            _ => {},
        };
        (token, literal)
    }

    /// Reads on while the current character is a digit in base `binary`.
    fn read_number(&mut self, binary: i32)
        requires
            old(self).wf(),
            old(self).started(),
        ensures
            final(self).wf(),
            final(self).started(),
            final(self).same_but_position(*old(self)),
            final(self).cur_char_index == digit_run_end(
                old(self).code@,
                old(self).cur_char_index as int,
                binary as int,
            ),
            final(self).remaining() <= old(self).remaining(),
    {
        let ghost start = self.cur_char_index as int;
        proof {
            lemma_digit_run_end_bounds(self.code@, start, binary as int);
        }
        loop
            invariant
                self.wf(),
                self.started(),
                self.same_but_position(*old(self)),
                start == old(self).cur_char_index,
                start <= self.cur_char_index <= digit_run_end(self.code@, start, binary as int),
                self.remaining() <= old(self).remaining(),
                digit_run_end(self.code@, start, binary as int) == digit_run_end(
                    self.code@,
                    self.cur_char_index as int,
                    binary as int,
                ),
            ensures
                self.wf(),
                self.started(),
                self.same_but_position(*old(self)),
                self.cur_char_index == digit_run_end(self.code@, start, binary as int),
                self.remaining() <= old(self).remaining(),
            decreases self.remaining(),
        {
            if get_hex_number_value(self.cur_char) < binary {
                proof {
                    if self.cur_char_index < self.length {
                        assert(digit_run_end(self.code@, self.cur_char_index as int, binary as int)
                            == digit_run_end(self.code@, self.cur_char_index + 1, binary as int));
                        lemma_digit_run_end_bounds(self.code@, self.cur_char_index + 1, binary as int);
                    }
                }
                if !self.read() {
                    break;
                }
            } else {
                break;
            }
        }
    }

    /// Reads a number literal: `0x` or `0X` and hexadecimal digits; or
    /// decimal digits, then optionally a point and more digits.
    fn scan_number(&mut self) -> (r: (Token, String))
        requires
            old(self).wf(),
            old(self).started(),
            old(self).cur_char_index < old(self).length,
            is_digit(old(self).cur_char),
        ensures
            final(self).wf(),
            final(self).started(),
            final(self).same_but_position(*old(self)),
            r.0 == Token::Number,
            final(self).cur_char_index == number_end(old(self).code@, old(self).cur_char_index as int),
            r.1@ == old(self).code@.subrange(old(self).cur_char_index as int, final(self).cur_char_index as int),
            final(self).remaining() < old(self).remaining(),
    {
        let start_index = self.cur_char_index;
        let ghost code = self.code@;
        proof {
            lemma_digit_run_end_bounds(code, start_index as int, 10);
        }
        if self.cur_char == '0' {
            self.read();
            if self.cur_char == 'x' || self.cur_char == 'X' {
                // hexadecimal: `0x` and its digits
                self.read();
                proof {
                    lemma_digit_run_end_bounds(code, self.cur_char_index as int, 16);
                }
                self.read_number(16);
                return (Token::Number, chars_to_string(&self.code, start_index, self.cur_char_index));
            }
        }
        self.read_number(10);
        let ghost q = self.cur_char_index as int;
        proof {
            lemma_digit_run_end_bounds(code, q, 10);
        }
        if self.cur_char == '.' {
            self.read();
            proof {
                lemma_digit_run_end_bounds(code, self.cur_char_index as int, 10);
            }
            self.read_number(10);
        }
        (Token::Number, chars_to_string(&self.code, start_index, self.cur_char_index))
    }

    /// Reads a string literal, both quotes included; an unterminated one runs
    /// to the end of the text.
    fn scan_string(&mut self) -> (r: (Token, String))
        requires
            old(self).wf(),
            old(self).started(),
            old(self).cur_char_index < old(self).length,
            is_quote(old(self).cur_char),
        ensures
            final(self).wf(),
            final(self).started(),
            final(self).same_but_position(*old(self)),
            r.0 == Token::String,
            final(self).cur_char_index == quote_end(
                old(self).code@,
                old(self).cur_char,
                old(self).cur_char_index + 1,
            ),
            r.1@ == old(self).code@.subrange(old(self).cur_char_index as int, final(self).cur_char_index as int),
            final(self).remaining() < old(self).remaining(),
    {
        let start_index = self.cur_char_index;
        let str_start = self.cur_char;
        let ghost code = self.code@;
        self.read();
        proof {
            lemma_quote_end_bounds(code, str_start, start_index + 1);
        }
        while self.cur_char != str_start
            invariant
                self.wf(),
                self.started(),
                self.same_but_position(*old(self)),
                code == self.code@,
                start_index == old(self).cur_char_index,
                str_start == old(self).cur_char,
                is_quote(str_start),
                start_index < self.cur_char_index,
                self.remaining() < old(self).remaining(),
                forall|i: int| start_index < i < self.cur_char_index ==> #[trigger] code[i] != str_start,
                self.cur_char_index < self.length ==> quote_end(code, str_start, start_index + 1)
                    == quote_end(code, str_start, self.cur_char_index as int),
            ensures
                self.wf(),
                self.started(),
                self.same_but_position(*old(self)),
                self.remaining() < old(self).remaining(),
                self.next_char_index == quote_end(code, str_start, start_index + 1),
                start_index < self.next_char_index,
            decreases self.remaining(),
        {
            if !self.read() {
                proof {
                    lemma_quote_none(code, str_start, start_index + 1);
                }
                break;
            }
        }
        proof {
            if self.cur_char_index == self.length && start_index + 1 < self.length {
                assert(code[self.length - 1] != str_start);
            }
        }
        let literal = chars_to_string(&self.code, start_index, self.next_char_index);
        self.read();
        (Token::String, literal)
    }

    /// Appends the current character to `lit` and reads the next one.
    fn take(&mut self, lit: &mut String, Ghost(s): Ghost<int>)
        requires
            old(self).wf(),
            old(self).started(),
            0 <= s < old(self).length,
            spelled_at(old(self).code@, s, old(lit)@, old(self).cur_char_index as int),
        ensures
            final(self).wf(),
            final(self).started(),
            final(self).same_but_position(*old(self)),
            final(lit)@ == old(lit)@.push(old(self).cur_char),
            spelled_at(final(self).code@, s, final(lit)@, final(self).cur_char_index as int),
            final(self).remaining() <= old(self).remaining(),
            final(self).cur_char_index >= old(self).cur_char_index,
            old(self).cur_char_index < old(self).length ==> final(self).remaining() < old(self).remaining(),
    {
        proof {
            let k = old(lit)@.len() as int;
            if s + k >= self.length {
                lemma_eff_char_past_end(self.code@, s + k);
            }
        }
        lit.push(self.cur_char);
        self.read();
        proof {
            let l = lit@;
            assert forall|j: int| 0 <= j < l.len() implies #[trigger] l[j] == eff_char(self.code@, s + j) by {
                if j < l.len() - 1 {
                    assert(l[j] == old(lit)@[j]);
                }
            }
        }
    }

    /// Reads the punctuator that starts at the current character, or skips a
    /// line break or a comment (then `None`).
    #[verifier::rlimit(100)]
    #[verifier::spinoff_prover]
    fn scan_punctuator(&mut self) -> (r: Option<(Token, String)>)
        requires
            old(self).wf(),
            old(self).started(),
            old(self).cur_char_index < old(self).length,
            !is_id_first(old(self).cur_char),
            !is_digit(old(self).cur_char),
            !is_quote(old(self).cur_char),
            old(self).cur_char != ' ',
            old(self).cur_char != '\t',
        ensures
            final(self).wf(),
            final(self).started(),
            final(self).same_text(*old(self)),
            final(self).token == old(self).token,
            final(self).literal@ == old(self).literal@,
            final(self).scope == old(self).scope,
            final(self).remaining() < old(self).remaining(),
            final(self).cur_char_index > old(self).cur_char_index,
            r is None ==> next_start(old(self).code@, old(self).cur_char_index as int) == next_start(
                old(self).code@,
                final(self).cur_char_index as int,
            ),
            r is Some ==> next_start(old(self).code@, old(self).cur_char_index as int)
                == old(self).cur_char_index,
            match r {
                None => {
                    let code = old(self).code@;
                    let i = old(self).cur_char_index as int;
                    &&& line_break_before(code, i) == (code[i] == '\n' || line_break_before(
                        code,
                        final(self).cur_char_index as int,
                    ))
                    &&& final(self).auto_semicolon_when_new_line == (old(self).auto_semicolon_when_new_line
                        || (code[i] == '\n' && old(self).pre_token_need_semicolon))
                    &&& final(self).pre_token_need_semicolon == (old(self).pre_token_need_semicolon
                        && code[i] != '\n')
                },
                Some((t, lit)) => {
                    &&& spelled_at(old(self).code@, old(self).cur_char_index as int, lit@, final(self).cur_char_index as int)
                    &&& lit@.len() >= 1
                    &&& !line_break_before(old(self).code@, old(self).cur_char_index as int)
                    &&& t == op_token(lit@)
                    &&& (t == Token::ILLEGAL ==> lit@.len() == 1)
                    &&& op_token(lit@.push(final(self).cur_char)) == Token::ILLEGAL
                    &&& final(self).auto_semicolon_when_new_line == old(self).auto_semicolon_when_new_line
                    &&& final(self).pre_token_need_semicolon == (old(self).pre_token_need_semicolon
                        || t == Token::Increment || t == Token::Decrement || t == Token::RightParenthesis
                        || t == Token::RightBracket || t == Token::RightBrace)
                },
            },
    {
        let ghost s = self.cur_char_index as int;
        let cur_char = self.cur_char;
        let mut lit = String::new();
        self.take(&mut lit, Ghost(s));
        match cur_char {
            '\n' => {
                // a line break after a token that asks for it ends the statement
                if self.pre_token_need_semicolon {
                    self.pre_token_need_semicolon = false;
                    self.auto_semicolon_when_new_line = true;
                }
                None
            },
            '+' => {
                if self.cur_char == '=' {
                    self.take(&mut lit, Ghost(s));
                    Some((Token::AddAssign, lit))
                } else if self.cur_char == '+' {
                    self.pre_token_need_semicolon = true;
                    self.take(&mut lit, Ghost(s));
                    Some((Token::Increment, lit))
                } else {
                    Some((Token::Plus, lit))
                }
            },
            '-' => {
                if self.cur_char == '=' {
                    self.take(&mut lit, Ghost(s));
                    Some((Token::SubtractAssign, lit))
                } else if self.cur_char == '-' {
                    self.pre_token_need_semicolon = true;
                    self.take(&mut lit, Ghost(s));
                    Some((Token::Decrement, lit))
                } else {
                    Some((Token::Subtract, lit))
                }
            },
            '*' => {
                if self.cur_char == '=' {
                    self.take(&mut lit, Ghost(s));
                    Some((Token::MultiplyAssign, lit))
                } else if self.cur_char == '*' {
                    self.take(&mut lit, Ghost(s));
                    if self.cur_char == '=' {
                        self.take(&mut lit, Ghost(s));
                        Some((Token::ExponentiationAssign, lit))
                    } else {
                        Some((Token::Exponentiation, lit))
                    }
                } else {
                    Some((Token::Multiply, lit))
                }
            },
            '/' => {
                if self.cur_char == '/' {
                    // a line comment runs to the end of the line
                    loop
                        invariant_except_break
                            self.cur_char != '\n',
                            line_comment_end(self.code@, s + 1) == line_comment_end(
                                self.code@,
                                self.cur_char_index as int,
                            ),
                        invariant
                            self.wf(),
                            self.started(),
                            self.same_but_position(*old(self)),
                            self.remaining() < old(self).remaining(),
                            self.cur_char_index > s,
                        ensures
                            self.wf(),
                            self.started(),
                            self.same_but_position(*old(self)),
                            self.remaining() < old(self).remaining(),
                            self.cur_char_index > s,
                            self.cur_char_index == line_comment_end(self.code@, s + 1),
                        decreases self.remaining(),
                    {
                        self.read();
                        match self.cur_char {
                            '\n' => {
                                self.read();
                                break;
                            },
                            _ => {
                                if self.cur_char_index >= self.length {
                                    break;
                                }
                            },
                        };
                    }
                    None
                } else if self.cur_char == '*' {
                    // a block comment runs to the next `*/`
                    loop
                        invariant_except_break
                            block_comment_end(self.code@, s + 1) == block_comment_end(
                                self.code@,
                                self.cur_char_index as int,
                            ),
                        invariant
                            self.wf(),
                            self.started(),
                            self.same_but_position(*old(self)),
                            self.remaining() < old(self).remaining(),
                            self.cur_char_index > s,
                        ensures
                            self.wf(),
                            self.started(),
                            self.same_but_position(*old(self)),
                            self.remaining() < old(self).remaining(),
                            self.cur_char_index > s,
                            self.cur_char_index == block_comment_end(self.code@, s + 1),
                        decreases self.remaining(),
                    {
                        if !self.read() {
                            break;
                        }
                        if self.cur_char == '*' {
                            self.read();
                            if self.cur_char == '/' {
                                self.read();
                                break;
                            }
                        }
                    }
                    None
                } else if self.cur_char == '=' {
                    self.take(&mut lit, Ghost(s));
                    Some((Token::SlashAssign, lit))
                } else {
                    Some((Token::Slash, lit))
                }
            },
            '%' => {
                if self.cur_char == '=' {
                    self.take(&mut lit, Ghost(s));
                    Some((Token::RemainderAssign, lit))
                } else {
                    Some((Token::Remainder, lit))
                }
            },
            '>' => {
                if self.cur_char == '>' {
                    self.take(&mut lit, Ghost(s));
                    if self.cur_char == '>' {
                        self.take(&mut lit, Ghost(s));
                        if self.cur_char == '=' {
                            self.take(&mut lit, Ghost(s));
                            Some((Token::UnsignedShiftRightAssign, lit))
                        } else {
                            Some((Token::UnsignedShiftRight, lit))
                        }
                    } else if self.cur_char == '=' {
                        self.take(&mut lit, Ghost(s));
                        Some((Token::ShiftRightAssign, lit))
                    } else {
                        Some((Token::ShiftRight, lit))
                    }
                } else if self.cur_char == '=' {
                    self.take(&mut lit, Ghost(s));
                    Some((Token::GreaterOrEqual, lit))
                } else {
                    Some((Token::Greater, lit))
                }
            },
            '<' => {
                if self.cur_char == '<' {
                    self.take(&mut lit, Ghost(s));
                    if self.cur_char == '=' {
                        self.take(&mut lit, Ghost(s));
                        Some((Token::ShiftLeftAssign, lit))
                    } else {
                        Some((Token::ShiftLeft, lit))
                    }
                } else if self.cur_char == '=' {
                    self.take(&mut lit, Ghost(s));
                    Some((Token::LessOrEqual, lit))
                } else {
                    Some((Token::Less, lit))
                }
            },
            '=' => {
                if self.cur_char == '=' {
                    self.take(&mut lit, Ghost(s));
                    if self.cur_char == '=' {
                        self.take(&mut lit, Ghost(s));
                        Some((Token::StrictEqual, lit))
                    } else {
                        Some((Token::Equal, lit))
                    }
                } else {
                    Some((Token::Assign, lit))
                }
            },
            ':' => Some((Token::Colon, lit)),
            '.' => Some((Token::Period, lit)),
            '`' => Some((Token::Backtick, lit)),
            ',' => Some((Token::Comma, lit)),
            ';' => Some((Token::Semicolon, lit)),
            '(' => Some((Token::LeftParenthesis, lit)),
            ')' => {
                self.pre_token_need_semicolon = true;
                Some((Token::RightParenthesis, lit))
            },
            '[' => Some((Token::LeftBracket, lit)),
            ']' => {
                self.pre_token_need_semicolon = true;
                Some((Token::RightBracket, lit))
            },
            '{' => Some((Token::LeftBrace, lit)),
            '}' => {
                self.pre_token_need_semicolon = true;
                Some((Token::RightBrace, lit))
            },
            '~' => Some((Token::BitwiseNot, lit)),
            '&' => {
                if self.cur_char == '&' {
                    self.take(&mut lit, Ghost(s));
                    if self.cur_char == '=' {
                        self.take(&mut lit, Ghost(s));
                        Some((Token::LogicalAndAssign, lit))
                    } else {
                        Some((Token::LogicalAnd, lit))
                    }
                } else if self.cur_char == '=' {
                    self.take(&mut lit, Ghost(s));
                    Some((Token::AndAssign, lit))
                } else {
                    Some((Token::And, lit))
                }
            },
            '|' => {
                if self.cur_char == '|' {
                    self.take(&mut lit, Ghost(s));
                    if self.cur_char == '=' {
                        self.take(&mut lit, Ghost(s));
                        Some((Token::LogicalOrAssign, lit))
                    } else {
                        Some((Token::LogicalOr, lit))
                    }
                } else if self.cur_char == '=' {
                    self.take(&mut lit, Ghost(s));
                    Some((Token::OrAssign, lit))
                } else {
                    Some((Token::Or, lit))
                }
            },
            '!' => {
                if self.cur_char == '=' {
                    self.take(&mut lit, Ghost(s));
                    if self.cur_char == '=' {
                        self.take(&mut lit, Ghost(s));
                        Some((Token::StrictNotEqual, lit))
                    } else {
                        Some((Token::NotEqual, lit))
                    }
                } else {
                    Some((Token::Not, lit))
                }
            },
            '^' => {
                if self.cur_char == '=' {
                    self.take(&mut lit, Ghost(s));
                    Some((Token::ExclusiveOrAssign, lit))
                } else {
                    Some((Token::ExclusiveOr, lit))
                }
            },
            '?' => {
                if self.cur_char == '?' {
                    self.take(&mut lit, Ghost(s));
                    if self.cur_char == '=' {
                        self.take(&mut lit, Ghost(s));
                        Some((Token::NullishCoalescingAssign, lit))
                    } else {
                        Some((Token::NullishCoalescing, lit))
                    }
                } else if self.cur_char == '.' {
                    self.take(&mut lit, Ghost(s));
                    Some((Token::OptionalChaining, lit))
                } else {
                    Some((Token::QuestionMark, lit))
                }
            },
            _ => Some((Token::ILLEGAL, lit)),
        }
    }

    /// Reads the next token and its text, skipping white space, line breaks
    /// and comments; `EOF` with an empty text at the end of the source.
    pub fn scan(&mut self) -> (r: (Token, String))
        requires
            old(self).wf(),
        ensures
            final(self).wf(),
            final(self).started(),
            final(self).same_text(*old(self)),
            final(self).spec_token() == old(self).spec_token(),
            final(self).spec_literal() == old(self).spec_literal(),
            final(self).same_scope(*old(self)),
            final(self).remaining() <= old(self).remaining(),
            r.0 == Token::EOF || final(self).remaining() < old(self).remaining(),
            r.0 == classify(r.1@),
            r.0 == Token::EOF ==> final(self).spec_pos() == final(self).spec_code().len()
                && final(self).spec_auto_semicolon() && !final(self).spec_need_semicolon(),
            final(self).spec_code() == old(self).spec_code(),
            final(self).from_index() == final(self).spec_pos(),
            r.0 == Token::EOF <==> next_start(old(self).spec_code(), old(self).from_index())
                == old(self).spec_code().len(),
            r.0 != Token::EOF ==> ({
                let s = next_start(old(self).spec_code(), old(self).from_index());
                &&& spelled_at(final(self).spec_code(), s, r.1@, final(self).spec_pos())
                &&& maximal_at(final(self).spec_code(), s, r.1@, final(self).spec_pos())
                &&& (is_id_first(r.1@[0]) || is_digit(r.1@[0]) || is_quote(r.1@[0])) ==> r.1@
                    == final(self).spec_code().subrange(s, final(self).spec_pos())
            }),
            r.0 == Token::ILLEGAL ==> r.1@.len() == 1,
            r.0 == Token::EOF ==> r.1@.len() == 0,
            final(self).spec_auto_semicolon() ==> (r.0 == Token::EOF || old(self).spec_need_semicolon()),
            r.0 != Token::EOF ==> final(self).spec_auto_semicolon() == (old(self).spec_need_semicolon()
                && line_break_before(old(self).spec_code(), old(self).from_index())),
            r.0 != Token::EOF ==> final(self).spec_need_semicolon() == (asks_semicolon(r.0) || (old(self).spec_need_semicolon() && !line_break_before(old(self).spec_code(), old(self).from_index()))),
            (r.0 == Token::Identifier || r.0 == Token::Increment || r.0 == Token::Decrement
                || r.0 == Token::RightParenthesis || r.0 == Token::RightBracket || r.0 == Token::RightBrace
                || r.0 == Token::Continue || r.0 == Token::Break || r.0 == Token::Return
                || r.0 == Token::Yield) ==> final(self).spec_need_semicolon(),
    {
        // no semicolon is inserted unless a line break asks for it
        self.auto_semicolon_when_new_line = false;
        let ghost mut lbs = false;
        proof {
            lemma_next_start_bounds(self.code@, self.from_index());
        }
        loop
            invariant
                next_start(self.code@, self.from_index()) == next_start(old(self).code@, old(self).from_index()),
                self.wf(),
                self.same_text(*old(self)),
                self.token == old(self).token,
                self.literal@ == old(self).literal@,
                self.scope == old(self).scope,
                self.remaining() <= old(self).remaining(),
                old(self).from_index() <= self.from_index(),
                self.auto_semicolon_when_new_line ==> old(self).pre_token_need_semicolon,
                self.pre_token_need_semicolon ==> old(self).pre_token_need_semicolon,
                self.auto_semicolon_when_new_line == (old(self).pre_token_need_semicolon && lbs),
                self.pre_token_need_semicolon == (old(self).pre_token_need_semicolon && !lbs),
                line_break_before(old(self).code@, old(self).from_index()) == (lbs || line_break_before(
                    self.code@,
                    self.from_index(),
                )),
            decreases self.remaining(),
        {
            let ghost before = *self;
            self.skip_white_space();
            proof {
                lemma_next_start_skip_blanks(self.code@, before.from_index(), self.cur_char_index as int);
                lemma_line_break_skip_blanks(self.code@, before.from_index(), self.cur_char_index as int);
            }
            if self.cur_char_index >= self.length {
                // the end of the text
                self.pre_token_need_semicolon = false;
                self.auto_semicolon_when_new_line = true;
                return (Token::EOF, String::new());
            }
            let ghost s = self.cur_char_index as int;
            let ghost code = self.code@;
            if self.char_is_identifier_first() {
                let r = self.scan_word();
                proof {
                    lemma_ident_end_bounds(code, s);
                    lemma_subrange_spelled(code, s, self.cur_char_index as int);
                    assert(maximal_at(code, s, r.1@, self.cur_char_index as int));
                    assert(old(self).from_index() <= s && spelled_at(self.spec_code(), s, r.1@, self.spec_pos())
                        && maximal_at(self.spec_code(), s, r.1@, self.spec_pos()));
                }
                return r;
            }
            if self.cur_char >= '0' && self.cur_char <= '9' {
                let r = self.scan_number();
                proof {
                    lemma_digit_run_end_bounds(code, s, 10);
                    assert(r.1@[0] == code[s]);
                    lemma_subrange_spelled(code, s, self.cur_char_index as int);
                    assert(maximal_at(code, s, r.1@, self.cur_char_index as int));
                    assert(old(self).from_index() <= s && spelled_at(self.spec_code(), s, r.1@, self.spec_pos())
                        && maximal_at(self.spec_code(), s, r.1@, self.spec_pos()));
                }
                return r;
            }
            if self.cur_char == '"' || self.cur_char == '\'' {
                let r = self.scan_string();
                proof {
                    lemma_quote_end_bounds(code, code[s], s + 1);
                    assert(r.1@[0] == code[s]);
                    lemma_subrange_spelled(code, s, self.cur_char_index as int);
                    assert(maximal_at(code, s, r.1@, self.cur_char_index as int));
                    assert(old(self).from_index() <= s && spelled_at(self.spec_code(), s, r.1@, self.spec_pos())
                        && maximal_at(self.spec_code(), s, r.1@, self.spec_pos()));
                }
                return r;
            }
            match self.scan_punctuator() {
                Some(r) => {
                    proof {
                        let k = r.1@.len() as int;
                        if s + k >= self.length {
                            lemma_eff_char_past_end(code, s + k);
                        }
                        assert(r.1@[0] == eff_char(code, s));
                        assert(spelled_at(code, s, r.1@, self.cur_char_index as int));
                        assert(maximal_at(code, s, r.1@, self.cur_char_index as int));
                        assert(spelled_at(self.spec_code(), s, r.1@, self.spec_pos())
                            && maximal_at(self.spec_code(), s, r.1@, self.spec_pos()));
                    }
                    return r;
                },
                None => {
                    proof {
                        lbs = lbs || code[s] == '\n';
                    }
                },
            }
        }
    }

    /// Moves to the next token.
    #[verifier::rlimit(100)]
    #[verifier::spinoff_prover]
    fn next(&mut self)
        requires
            old(self).wf(),
        ensures
            final(self).wf(),
            final(self).started(),
            final(self).same_text(*old(self)),
            final(self).scope == old(self).scope,
            final(self).measure() <= old(self).measure(),
            old(self).token != Token::EOF ==> final(self).measure() < old(self).measure(),
            final(self).token == classify(final(self).literal@),
            final(self).token == Token::EOF ==> final(self).auto_semicolon_when_new_line,
            final(self).auto_semicolon_when_new_line ==> (final(self).token == Token::EOF
                || old(self).pre_token_need_semicolon),
            final(self).token == Token::EOF <==> next_start(old(self).code@, old(self).from_index())
                == old(self).code@.len(),
            final(self).token != Token::EOF ==> final(self).auto_semicolon_when_new_line == (old(self).pre_token_need_semicolon && line_break_before(old(self).code@, old(self).from_index())),
            final(self).token != Token::EOF ==> final(self).pre_token_need_semicolon == (asks_semicolon(
                final(self).token,
            ) || (old(self).pre_token_need_semicolon && !line_break_before(
                old(self).code@,
                old(self).from_index(),
            ))),
            simple_token_at(old(self).code@, next_start(old(self).code@, old(self).from_index()))
                ==> final(self).reads(next_start(old(self).code@, old(self).from_index())),
    {
        let ghost code = self.code@;
        let ghost s = next_start(code, self.from_index());
        proof {
            lemma_next_start_bounds(code, self.from_index());
        }
        let scan_res = self.scan();
        self.token = scan_res.0;
        self.literal = scan_res.1;
        proof {
            if s < code.len() && simple_token_at(code, s) {
                let lit = self.literal@;
                assert(lit.len() > 0);
                assert(lit[0] == code[s]);
                if code[s] == ';' {
                    if lit.len() >= 2 {
                        assert(op_token(lit) == Token::ILLEGAL);
                    }
                    assert(lit =~= seq![';']);
                } else if assign_at(code, s) {
                    if lit.len() >= 2 {
                        assert(lit[1] == code[s + 1]);
                        assert(op_token(lit) == Token::ILLEGAL);
                    }
                    assert(lit =~= seq!['=']);
                } else if incdec_at(code, s) {
                    if lit.len() == 1 {
                        assert(lit.push(eff_char(code, s + 1)) =~= seq![code[s], code[s + 1]]);
                    }
                    if lit.len() >= 2 {
                        assert(lit[1] == code[s + 1]);
                    }
                    if lit.len() >= 3 {
                        assert(op_token(lit) == Token::ILLEGAL);
                    }
                    assert(lit.len() == 2);
                    assert(lit =~= code.subrange(s, s + 2));
                } else if binop_len(code, s) > 0 {
                    let k = binop_len(code, s);
                    let w = code.subrange(s, s + k);
                    assert(w[0] == code[s]);
                    assert(!after_operator_char(code[s]));
                    if lit.len() > k {
                        assert(lit[k] == code[s + k]);
                        lemma_op_word_char(lit, k);
                        if is_quote(lit[0]) {
                            lemma_op_word_char(w, 0);
                            assert(false);
                        }
                    }
                    if lit.len() < k {
                        let n = lit.len() as int;
                        assert(lit.push(eff_char(code, s + n)) =~= w.subrange(0, n + 1));
                        if n + 1 < k {
                            lemma_binop_prefix(w, n + 1);
                        } else {
                            assert(w.subrange(0, n + 1) =~= w);
                        }
                    }
                    assert(lit.len() == k);
                    assert(lit =~= w);
                } else if paren_at(code, s, '(') || paren_at(code, s, ')') {
                    if lit.len() >= 2 {
                        assert(op_token(lit) == Token::ILLEGAL);
                    }
                    assert(lit =~= seq![code[s]]);
                } else if keyword_at(code, s, Token::If) || keyword_at(code, s, Token::Else) {
                    lemma_ident_end_bounds(code, s);
                } else {
                    lemma_operand_end_bounds(code, s);
                }
            }
        }
    }

    /// Whether the first character after the current one (after white space,
    /// with `skip_space`) is `check_char`. Reads nothing.
    fn next_is(&self, check_char: char, skip_space: bool) -> (r: bool)
        requires
            self.wf(),
        ensures
            r == ({
                let j = lookahead_index(self.code@, self.cur_char_index + 1, skip_space);
                j < self.length && self.code@[j] == check_char
            }),
    {
        let mut start_index = self.cur_char_index;
        proof {
            lemma_lookahead_bounds(self.code@, start_index + 1, skip_space);
        }
        loop
            invariant
                self.wf(),
                start_index <= self.length,
                lookahead_index(self.code@, self.cur_char_index + 1, skip_space)
                    == lookahead_index(self.code@, start_index + 1, skip_space),
            decreases self.length - start_index,
        {
            if start_index >= self.length {
                return false;
            }
            start_index = start_index + 1;
            if start_index >= self.length {
                return false;
            }
            let c = self.code[start_index];
            if skip_space {
                match c {
                    ' ' | '\n' | '\r' | '\t' => {
                        continue;
                    },
                    _ => {},
                }
            }
            return c == check_char;
        }
    }

    // ------------------------------------------------------------------
    // The parser.
    // ------------------------------------------------------------------

    /// The parser's state is consistent: the lexer has started and the
    /// current token is the one its text stands for.
    pub closed spec fn parsing(self) -> bool {
        &&& self.wf()
        &&& self.started()
        &&& self.token == classify(self.literal@)
        &&& asks_semicolon(self.token) ==> self.pre_token_need_semicolon
    }

    /// `self` follows `old` in parsing: same text, nothing more left to parse.
    pub closed spec fn step(self, old: AST) -> bool {
        &&& self.parsing()
        &&& self.same_text(old)
        &&& self.measure() <= old.measure()
    }

    /// `self` follows `old` with at least one more token consumed, and in
    /// the same enclosing scope.
    pub closed spec fn advanced(self, old: AST) -> bool {
        &&& self.measure() < old.measure()
        &&& self.scope.parent == old.scope.parent
    }

    /// Parses the text into a program. The parse stops at the end of the text
    /// or at a closing brace that no block opened. It succeeds on every
    /// simple program (see `program_at`): statements of words, numbers,
    /// strings, prefix `++` and `--`, binary operators and `=`, one after the other
    /// or separated by semicolons; each statement is the expression at its
    /// start (see `program_form`), and a text without tokens gives an empty
    /// program.
    pub fn parse(&mut self) -> (r: JSIResult<Program>)
        requires
            old(self).wf(),
        ensures
            final(self).wf(),
            final(self).same_text(*old(self)),
            final(self).spec_code() == old(self).spec_code(),
            r is Ok ==> final(self).spec_token() == Token::EOF || final(self).spec_token()
                == Token::RightBrace,
            r matches Ok(p) ==> forall|i: int|
                0 <= i < p.body@.len() ==> statement_ok(#[trigger] p.body@[i]),
            r matches Ok(p) ==> named_functions(p.declarations@),
            r matches Err(e) ==> e.error_type == JSIErrorType::SyntaxError,
            ({
                let code = old(self).spec_code();
                let s = next_start(code, old(self).from_index());
                program_at(code, s) ==> (r matches Ok(p) && program_form(
                    p.body@,
                    code,
                    statement_starts(code, s),
                ) && p.declarations@.len() == 0)
            }),
    {
        let ghost before = *self;
        self.next();
        proof {
            let code = before.code@;
            let s = next_start(code, before.from_index());
            if program_at(code, s) {
                lemma_next_start_bounds(code, before.from_index());
                lemma_program_token(code, s);
                self.lemma_reads_start(s);
            }
        }
        self.parse_program()
    }

    #[verifier::rlimit(100)]
    #[verifier::spinoff_prover]
    fn parse_program(&mut self) -> (r: JSIResult<Program>)
        requires
            old(self).parsing(),
        ensures
            final(self).step(*old(self)),
            r is Ok ==> final(self).token == Token::EOF || final(self).token == Token::RightBrace,
            r matches Ok(p) ==> forall|i: int|
                0 <= i < p.body@.len() ==> statement_ok(#[trigger] p.body@[i]),
            r matches Ok(p) ==> named_functions(p.declarations@),
            r matches Err(e) ==> e.error_type == JSIErrorType::SyntaxError,
            old(self).token == Token::EOF ==> (r matches Ok(p) && p.body@.len() == 0
                && p.declarations@.len() == 0),
            old(self).program_here() ==> (r matches Ok(p) && program_form(
                p.body@,
                old(self).code@,
                statement_starts(old(self).code@, old(self).tok_start()),
            ) && p.declarations@.len() == 0),
    {
        self.new_scope();
        let body = self.parse_statements()?;
        let declarations = self.scope.take_declarations();
        self.close_scope();
        Ok(Program { body, declarations })
    }

    /// Opens a scope for the declarations of a function body.
    fn new_scope(&mut self)
        ensures
            final(self).scope.parent == Some(Box::new(old(self).scope)),
            final(self).scope.declarations@.len() == 0,
            final(self).cur_char == old(self).cur_char,
            final(self).cur_char_index == old(self).cur_char_index,
            final(self).next_char_index == old(self).next_char_index,
            final(self).code == old(self).code,
            final(self).length == old(self).length,
            final(self).token == old(self).token,
            final(self).literal == old(self).literal,
            final(self).pre_token_need_semicolon == old(self).pre_token_need_semicolon,
            final(self).auto_semicolon_when_new_line == old(self).auto_semicolon_when_new_line,
    {
        let mut scope = ASTScope::new();
        std::mem::swap(&mut scope, &mut self.scope);
        self.scope.parent = Some(Box::new(scope));
    }

    /// Closes the current scope, back to the enclosing one.
    fn close_scope(&mut self)
        ensures
            old(self).scope.parent matches Some(p) ==> final(self).scope == *p,
            old(self).scope.parent is None ==> final(self).scope == old(self).scope,
            final(self).cur_char == old(self).cur_char,
            final(self).cur_char_index == old(self).cur_char_index,
            final(self).next_char_index == old(self).next_char_index,
            final(self).code == old(self).code,
            final(self).length == old(self).length,
            final(self).token == old(self).token,
            final(self).literal == old(self).literal,
            final(self).pre_token_need_semicolon == old(self).pre_token_need_semicolon,
            final(self).auto_semicolon_when_new_line == old(self).auto_semicolon_when_new_line,
    {
        let parent = self.scope.parent.take();
        match parent {
            Some(p) => {
                self.scope = *p;
            },
            None => {},
        }
    }

    /// The error for an unexpected current token.
    fn error_unexpected(&self) -> (r: JSIError)
        ensures
            r.error_type == JSIErrorType::SyntaxError,
            r.message@ == unexpected_message(self.token, self.literal@),
    {
        let message = match self.token {
            Token::Identifier => {
                let mut m = String::from_str("Unexpected identifier '");
                m.append(self.literal.as_str());
                m.append("'");
                m
            },
            Token::Number => String::from_str("Unexpected number"),
            Token::String => String::from_str("Unexpected string"),
            _ => {
                let mut m = String::from_str("Unexpected token ");
                let name = self.token.name();
                m.append(name.as_str());
                m
            },
        };
        JSIError::new(JSIErrorType::SyntaxError, message, 0, 0)
    }

    /// Fails unless the current token is `token`.
    fn check_token(&self, token: Token) -> (r: JSIResult<bool>)
        ensures
            r is Ok <==> self.token == token,
            r matches Err(e) ==> e.error_type == JSIErrorType::SyntaxError && e.message@
                == unexpected_message(self.token, self.literal@),
    {
        if token != self.token {
            return Err(self.error_unexpected());
        }
        Ok(true)
    }

    /// Consumes the current token, which must be `token`.
    fn check_token_and_next(&mut self, token: Token) -> (r: JSIResult<bool>)
        requires
            old(self).parsing(),
        ensures
            final(self).step(*old(self)),
            final(self).scope == old(self).scope,
            r is Ok <==> old(self).token == token,
            r is Ok && token != Token::EOF ==> final(self).measure() < old(self).measure(),
            r is Err ==> *final(self) == *old(self),
            r matches Err(e) ==> e.error_type == JSIErrorType::SyntaxError && e.message@
                == unexpected_message(old(self).token, old(self).literal@),
            r is Ok && simple_token_at(old(self).code@, next_start(old(self).code@, old(self).from_index()))
                ==> final(self).reads(next_start(old(self).code@, old(self).from_index())),
    {
        self.check_token(token)?;
        self.next();
        Ok(true)
    }

    /// Ends a statement: with an inserted semicolon, or with a `;` token.
    fn semicolon(&mut self) -> (r: JSIResult<bool>)
        requires
            old(self).parsing(),
        ensures
            final(self).step(*old(self)),
            final(self).scope == old(self).scope,
            r is Ok <==> (old(self).auto_semicolon_when_new_line || old(self).token
                == Token::Semicolon),
            r matches Err(e) ==> e.error_type == JSIErrorType::SyntaxError,
    {
        if self.auto_semicolon_when_new_line {
            self.auto_semicolon_when_new_line = false;
        } else {
            self.check_token_and_next(Token::Semicolon)?;
        }
        Ok(true)
    }

    /// The characters between the quotes of the current string token; an
    /// error when its text is too short to hold two quotes.
    fn string_value(&self) -> (r: JSIResult<String>)
        ensures
            self.literal@.len() >= 2 ==> (r matches Ok(v) && v@ == self.literal@.subrange(
                1,
                self.literal@.len() - 1,
            )),
            self.literal@.len() < 2 ==> (r matches Err(e) && e.error_type
                == JSIErrorType::SyntaxError),
    {
        let chars = str_to_chars(self.literal.as_str());
        let n: usize = chars.len();
        if n < 2 {
            return Err(
                JSIError::new(
                    JSIErrorType::SyntaxError,
                    String::from_str("Invalid or unexpected token"),
                    0,
                    0,
                ),
            );
        }
        Ok(chars_to_string(&chars, 1, n - 1))
    }

    #[verifier::rlimit(100)]
    #[verifier::spinoff_prover]
    fn parse_statements(&mut self) -> (r: JSIResult<Vec<Statement>>)
        requires
            old(self).parsing(),
        ensures
            final(self).step(*old(self)),
            r is Ok ==> final(self).scope.parent == old(self).scope.parent,
            r is Ok ==> final(self).token == Token::EOF || final(self).token == Token::RightBrace,
            r matches Ok(v) ==> forall|i: int|
                0 <= i < v@.len() ==> statement_ok(#[trigger] v@[i]),
            r matches Err(e) ==> e.error_type == JSIErrorType::SyntaxError,
            old(self).token == Token::EOF || old(self).token == Token::RightBrace ==> (r matches Ok(v)
                && v@.len() == 0 && *final(self) == *old(self)),
            old(self).program_here() ==> (r matches Ok(v) && program_form(
                v@,
                old(self).code@,
                statement_starts(old(self).code@, old(self).tok_start()),
            ) && final(self).scope == old(self).scope),
        decreases old(self).measure(), 100nat,
    {
        let mut statements: Vec<Statement> = Vec::new();
        loop
            invariant
                self.step(*old(self)),
                self.scope.parent == old(self).scope.parent,
                forall|i: int| 0 <= i < statements@.len() ==> statement_ok(#[trigger] statements@[i]),
                old(self).token == Token::EOF || old(self).token == Token::RightBrace ==> statements@.len()
                    == 0 && *self == *old(self),
                old(self).program_here() ==> ({
                    let code = old(self).code@;
                    let w = statement_starts(code, old(self).tok_start());
                    let n = statements@.len() as int;
                    &&& self.program_here()
                    &&& self.scope == old(self).scope
                    &&& n <= w.len()
                    &&& statement_starts(code, self.tok_start()) == w.subrange(n, w.len() as int)
                    &&& program_form(statements@, code, w.subrange(0, n))
                }),
            ensures
                self.step(*old(self)),
                self.scope.parent == old(self).scope.parent,
                forall|i: int| 0 <= i < statements@.len() ==> statement_ok(#[trigger] statements@[i]),
                self.token == Token::EOF || self.token == Token::RightBrace,
                old(self).token == Token::EOF || old(self).token == Token::RightBrace ==> statements@.len()
                    == 0 && *self == *old(self),
                old(self).program_here() ==> (self.scope == old(self).scope && program_form(
                    statements@,
                    old(self).code@,
                    statement_starts(old(self).code@, old(self).tok_start()),
                )),
            decreases self.measure(),
        {
            let ghost before = *self;
            let ghost code = old(self).code@;
            let ghost w = statement_starts(code, old(self).tok_start());
            let ghost st = self.tok_start();
            let ghost simple = old(self).program_here();
            proof {
                if simple {
                    lemma_program_token(code, st);
                    if st < code.len() && code[st] != ';' {
                        if expr_ok(code, st) {
                            lemma_after_statement_bounds(code, st);
                            lemma_program_token(code, after_statement(code, st));
                            assert(chain_ok(code, st));
                            assert(unary_ok_c(code, st));
                            lemma_operand_token(code, unary_operand(code, st));
                        } else {
                            assert(if_ok(code, st));
                            lemma_if_bounds(code, st);
                            lemma_program_token(code, if_end(code, st));
                        }
                    }
                }
            }
            if self.token == Token::EOF || self.token == Token::RightBrace {
                // the end of the text or of the block
                proof {
                    if simple {
                        assert(w.subrange(0, statements@.len() as int) =~= w);
                    }
                }
                break;
            }
            if self.token == Token::Semicolon {
                self.next();
                proof {
                    if simple {
                        let x = next_start(code, st + 1);
                        lemma_next_start_bounds(code, st + 1);
                        lemma_program_token(code, x);
                        self.lemma_reads_start(x);
                    }
                }
                continue;
            }
            let ghost t = self.token;
            let statement = self.parse_statement()?;
            proof {
                if simple {
                    let n = statements@.len() as int;
                    let a = if expr_ok(code, st) {
                        after_statement(code, st)
                    } else {
                        if_end(code, st)
                    };
                    self.lemma_reads_start(a);
                    let sub = w.subrange(n, w.len() as int);
                    assert(statement_starts(code, st) == seq![st] + statement_starts(code, a));
                    assert(sub == seq![st] + statement_starts(code, a));
                    assert(sub[0] == st);
                    assert(w[n] == sub[0]);
                    assert(statement_starts(code, a) =~= sub.subrange(1, sub.len() as int));
                    assert(statement_starts(code, a) =~= w.subrange(n + 1, w.len() as int));
                }
            }
            assert(statement_ok(statement)) by {
                assert(statement_form(t, statement));
            }
            if let Statement::Unknown = statement {
                return Err(
                    JSIError::new(
                        JSIErrorType::Unknown,
                        String::from_str("unknown statement ast: Unknown"),
                        0,
                        0,
                    ),
                );
            }
            statements.push(statement);
            proof {
                if simple {
                    let n = statements@.len() as int;
                    let ws = w.subrange(0, n);
                    assert forall|k: int| 0 <= k < n implies statement_form_at(
                        code,
                        ws[k],
                        #[trigger] statements@[k],
                    ) by {
                        if k < n - 1 {
                            assert(ws[k] == w.subrange(0, n - 1)[k]);
                        }
                    }
                }
            }
        }
        Ok(statements)
    }

    #[verifier::rlimit(100)]
    #[verifier::spinoff_prover]
    fn parse_statement(&mut self) -> (r: JSIResult<Statement>)
        requires
            old(self).parsing(),
        ensures
            final(self).step(*old(self)),
            r is Ok ==> final(self).advanced(*old(self)),
            r matches Ok(s) ==> statement_form(old(self).token, s),
            r matches Err(e) ==> e.error_type == JSIErrorType::SyntaxError,
            old(self).expr_here() && simple_token_at(
                old(self).code@,
                after_statement(old(self).code@, old(self).tok_start()),
            ) ==> (r matches Ok(st) && st matches Statement::Expression(x) && expr_form(
                old(self).code@,
                old(self).tok_start(),
                x.expression,
            ) && final(self).reads(after_statement(old(self).code@, old(self).tok_start()))
                && final(self).scope == old(self).scope),
            old(self).here() && if_ok(old(self).code@, old(self).tok_start()) && simple_token_at(
                old(self).code@,
                if_end(old(self).code@, old(self).tok_start()),
            ) ==> (r matches Ok(st) && if_form(old(self).code@, old(self).tok_start(), st) && final(self).reads(if_end(old(self).code@, old(self).tok_start())) && final(self).scope == old(self).scope),
        decreases old(self).measure(), 95nat,
    {
        let ghost before = *self;
        let ghost simple = before.expr_here() && simple_token_at(
            before.code@,
            after_statement(before.code@, before.tok_start()),
        );
        proof {
            if simple {
                assert(chain_ok(before.code@, before.tok_start()));
                assert(unary_ok_c(before.code@, before.tok_start()));
                before.lemma_unary_here();
                lemma_expr_bounds(before.code@, before.tok_start());
            }
        }
        match self.token {
            Token::Var | Token::Let | Token::Const => self.parse_variable_statement(),
            Token::If => self.parse_if_statement(),
            Token::Switch => self.parse_switch_statement(),
            Token::For => self.parse_for_statement(),
            Token::While => self.parse_while_statement(),
            Token::Do => self.parse_do_while_statement(),
            Token::Break => self.parse_break_statement(),
            Token::Continue => self.parse_continue_statement(),
            Token::Function => Ok(Statement::Function(self.parse_function(true)?)),
            Token::Return => self.parse_return_statement(),
            Token::Class => Ok(Statement::Class(self.parse_class()?)),
            Token::Try => self.parse_try_catch_statment(),
            Token::Throw => self.parse_throw_statement(),
            Token::LeftBrace => self.parse_block_statement(),
            _ => {
                let expression = self.parse_expression()?;
                proof {
                    if simple {
                        let code = before.code@;
                        lemma_operand_token(code, unary_operand(code, before.tok_start()));
                    }
                }
                // a label
                if self.token == Token::Colon {
                    if let Expression::Identifier(identifier) = expression {
                        self.next();
                        let statement = self.parse_statement()?;
                        return Ok(
                            Statement::Label(
                                LabeledStatement { label: identifier, statement: Box::new(statement) },
                            ),
                        );
                    }
                }
                match expression {
                    Expression::Unknown => Ok(Statement::Unknown),
                    _ => {
                        // the semicolon that ends the statement, when there is one
                        if self.token == Token::Semicolon {
                            self.next();
                        }
                        Ok(Statement::Expression(ExpressionStatement { expression }))
                    },
                }
            },
        }
    }

    /// Parses `var`, `let` or `const` declarations.
    #[verifier::rlimit(100)]
    #[verifier::spinoff_prover]
    fn parse_variable_statement(&mut self) -> (r: JSIResult<Statement>)
        requires
            old(self).parsing(),
        ensures
            final(self).step(*old(self)),
            r is Ok ==> final(self).advanced(*old(self)),
            r matches Ok(s) ==> s matches Statement::Var(v) && v.flag == variable_flag_of(
                old(self).token,
            ) && v.list@.len() > 0,
            r matches Err(e) ==> e.error_type == JSIErrorType::SyntaxError,
        decreases old(self).measure(), 90nat,
    {
        let mut variable_flag = VariableFlag::Var;
        if self.token == Token::Let {
            self.check_token_and_next(Token::Let)?;
            variable_flag = VariableFlag::Let;
        } else if self.token == Token::Const {
            self.check_token_and_next(Token::Const)?;
            variable_flag = VariableFlag::Const;
        } else {
            self.check_token_and_next(Token::Var)?;
        }
        let list = self.parse_variable_declarations()?;
        let var_statement = VariableDeclarationStatement { list, flag: variable_flag };
        self.semicolon()?;
        Ok(Statement::Var(var_statement))
    }

    #[verifier::rlimit(100)]
    #[verifier::spinoff_prover]
    fn parse_variable_declarations(&mut self) -> (r: JSIResult<Vec<Expression>>)
        requires
            old(self).parsing(),
        ensures
            final(self).step(*old(self)),
            r is Ok ==> final(self).advanced(*old(self)),
            r matches Ok(v) ==> v@.len() > 0 && forall|i: int|
                0 <= i < v@.len() ==> #[trigger] v@[i] is Var,
            r matches Err(e) ==> e.error_type == JSIErrorType::SyntaxError,
        decreases old(self).measure(), 89nat,
    {
        let mut list: Vec<Expression> = Vec::new();
        loop
            invariant
                self.step(*old(self)),
                list@.len() > 0 ==> self.advanced(*old(self)),
                list@.len() == 0 ==> *self == *old(self),
                forall|i: int| 0 <= i < list@.len() ==> #[trigger] list@[i] is Var,
            ensures
                self.step(*old(self)),
                list@.len() > 0,
                self.advanced(*old(self)),
                forall|i: int| 0 <= i < list@.len() ==> #[trigger] list@[i] is Var,
            decreases self.measure(),
        {
            let expression = self.parse_variable_declaration()?;
            list.push(expression);
            // let a = 1, b = 2;
            if self.token != Token::Comma {
                break;
            }
            self.next();
        }
        Ok(list)
    }

    /// Parses a block `{ ... }`.
    #[verifier::rlimit(100)]
    #[verifier::spinoff_prover]
    fn parse_block_statement(&mut self) -> (r: JSIResult<Statement>)
        requires
            old(self).parsing(),
        ensures
            final(self).step(*old(self)),
            r is Ok ==> final(self).advanced(*old(self)),
            r matches Ok(s) ==> s matches Statement::Block(b) && forall|i: int|
                0 <= i < b.statements@.len() ==> statement_ok(#[trigger] b.statements@[i]),
            old(self).token != Token::LeftBrace ==> (r matches Err(e) && e.message@
                == unexpected_message(old(self).token, old(self).literal@)),
            r matches Err(e) ==> e.error_type == JSIErrorType::SyntaxError,
        decreases old(self).measure(), 90nat,
    {
        self.check_token_and_next(Token::LeftBrace)?;
        let statements = self.parse_statements()?;
        self.check_token_and_next(Token::RightBrace)?;
        Ok(Statement::Block(BlockStatement { statements }))
    }

    /// Parses `if (..) .. else ..`.
    #[verifier::rlimit(100)]
    #[verifier::spinoff_prover]
    fn parse_if_statement(&mut self) -> (r: JSIResult<Statement>)
        requires
            old(self).parsing(),
        ensures
            final(self).step(*old(self)),
            r is Ok ==> final(self).advanced(*old(self)),
            r matches Ok(s) ==> s matches Statement::If(i) && !(*i.then_statement is Unknown),
            r matches Err(e) ==> e.error_type == JSIErrorType::SyntaxError,
            old(self).here() && if_ok(old(self).code@, old(self).tok_start()) && simple_token_at(
                old(self).code@,
                if_end(old(self).code@, old(self).tok_start()),
            ) ==> (r matches Ok(st) && if_form(old(self).code@, old(self).tok_start(), st) && final(self).reads(if_end(old(self).code@, old(self).tok_start())) && final(self).scope == old(self).scope),
        decreases old(self).measure(), 90nat,
    {
        let ghost code = self.code@;
        let ghost st = self.tok_start();
        let ghost simple = self.here() && if_ok(code, st) && simple_token_at(code, if_end(code, st));
        proof {
            if simple {
                lemma_if_bounds(code, st);
                lemma_ident_end_bounds(code, st);
                lemma_next_start_bounds(code, ident_end(code, st));
            }
        }
        self.check_token_and_next(Token::If)?;
        proof {
            if simple {
                let p = next_start(code, ident_end(code, st));
                self.lemma_reads_start(p);
                lemma_next_start_bounds(code, p + 1);
                let c = if_condition(code, st);
                assert(chain_ok(code, c));
                assert(unary_ok_c(code, c));
                lemma_operand_token(code, unary_operand(code, c));
            }
        }
        self.check_token_and_next(Token::LeftParenthesis)?;
        proof {
            if simple {
                self.lemma_reads_start(if_condition(code, st));
            }
        }
        let condition = self.parse_expression()?;
        proof {
            if simple {
                let c = if_condition(code, st);
                let q = expr_stop(code, c);
                lemma_expr_bounds(code, c);
                self.lemma_reads_start(q);
                lemma_next_start_bounds(code, q + 1);
                let t = if_then(code, st);
                assert(chain_ok(code, t));
                assert(unary_ok_c(code, t));
                lemma_operand_token(code, unary_operand(code, t));
                lemma_after_statement_bounds(code, t);
            }
        }
        self.check_token_and_next(Token::RightParenthesis)?;
        proof {
            if simple {
                self.lemma_reads_start(if_then(code, st));
            }
        }
        // a block, or a single statement
        let then_statement = if self.token == Token::LeftBrace {
            self.parse_block_statement()?
        } else {
            self.parse_statement()?
        };
        let mut else_statement = Statement::Unknown;
        if self.token == Token::Else {
            proof {
                if simple {
                    let a = if_after_then(code, st);
                    assert(if_has_else(code, st));
                    lemma_ident_end_bounds(code, a);
                    lemma_next_start_bounds(code, ident_end(code, a));
                    let u = if_else(code, st);
                    assert(chain_ok(code, u));
                    assert(unary_ok_c(code, u));
                    lemma_operand_token(code, unary_operand(code, u));
                }
            }
            self.next();
            proof {
                if simple {
                    self.lemma_reads_start(if_else(code, st));
                }
            }
            else_statement = self.parse_statement()?;
        }
        Ok(
            Statement::If(
                IfStatement {
                    condition,
                    then_statement: Box::new(then_statement),
                    else_statement: Box::new(else_statement),
                },
            ),
        )
    }

    /// Parses `switch (..) { case ..: .. default: .. }`.
    #[verifier::rlimit(100)]
    #[verifier::spinoff_prover]
    fn parse_switch_statement(&mut self) -> (r: JSIResult<Statement>)
        requires
            old(self).parsing(),
        ensures
            final(self).step(*old(self)),
            r is Ok ==> final(self).advanced(*old(self)),
            r matches Ok(s) ==> s is Switch,
            r matches Err(e) ==> e.error_type == JSIErrorType::SyntaxError,
        decreases old(self).measure(), 90nat,
    {
        self.check_token_and_next(Token::Switch)?;
        self.check_token_and_next(Token::LeftParenthesis)?;
        let condition = self.parse_expression()?;
        self.check_token_and_next(Token::RightParenthesis)?;
        self.check_token_and_next(Token::LeftBrace)?;
        let mut default_index: i32 = -1;
        let mut clauses: Vec<CaseClause> = Vec::new();
        loop
            invariant
                self.step(*old(self)),
                self.advanced(*old(self)),
            decreases self.measure(),
        {
            if self.token == Token::EOF || self.token == Token::RightBrace {
                break;
            }
            let ghost clause_start = self.measure();
            let mut clause_condition: Option<Expression> = None;
            let mut statements: Vec<Statement> = Vec::new();
            if self.token == Token::Default {
                if default_index != -1 {
                    // a second default clause is refused below, at its ':'
                } else {
                    let index: i32 = #[verifier::truncate] (clauses.len() as i32);
                    default_index = index;
                    self.next();
                }
            } else {
                self.check_token_and_next(Token::Case)?;
                clause_condition = Some(self.parse_expression()?);
            }
            self.check_token_and_next(Token::Colon)?;
            loop
                invariant
                    self.step(*old(self)),
                    self.advanced(*old(self)),
                    self.measure() < clause_start,
                decreases self.measure(),
            {
                if self.token == Token::EOF || self.token == Token::RightBrace || self.token
                    == Token::Case || self.token == Token::Default {
                    break;
                }
                if self.token == Token::Semicolon {
                    self.next();
                    continue;
                }
                let statement = self.parse_statement()?;
                statements.push(statement);
            }
            clauses.push(CaseClause { condition: clause_condition, statements });
        }
        self.check_token_and_next(Token::RightBrace)?;
        Ok(Statement::Switch(SwitchStatement { condition, clauses, default_index }))
    }

    /// Parses `for (init; condition; step) { .. }`.
    #[verifier::rlimit(100)]
    #[verifier::spinoff_prover]
    fn parse_for_statement(&mut self) -> (r: JSIResult<Statement>)
        requires
            old(self).parsing(),
        ensures
            final(self).step(*old(self)),
            r is Ok ==> final(self).advanced(*old(self)),
            r matches Ok(s) ==> s matches Statement::For(f) && !f.post_judgment,
            r matches Err(e) ==> e.error_type == JSIErrorType::SyntaxError,
        decreases old(self).measure(), 90nat,
    {
        self.check_token_and_next(Token::For)?;
        self.check_token_and_next(Token::LeftParenthesis)?;
        // the initializer, a declaration or an expression
        let mut initializer = Statement::Unknown;
        if self.token == Token::Var || self.token == Token::Let || self.token == Token::Const {
            initializer = self.parse_variable_statement()?;
        } else if self.token != Token::Semicolon {
            initializer = Statement::Expression(
                ExpressionStatement { expression: self.parse_expression()? },
            );
            self.check_token_and_next(Token::Semicolon)?;
        }
        let condition = self.parse_expression()?;
        self.check_token_and_next(Token::Semicolon)?;
        let incrementor = self.parse_expression()?;
        self.check_token_and_next(Token::RightParenthesis)?;
        let block = self.parse_block_statement()?;
        let statement = ForStatement {
            initializer: Box::new(initializer),
            condition,
            incrementor,
            statement: Box::new(block),
            post_judgment: false,
        };
        Ok(Statement::For(statement))
    }

    /// Parses `while (..) { .. }`.
    #[verifier::rlimit(100)]
    #[verifier::spinoff_prover]
    fn parse_while_statement(&mut self) -> (r: JSIResult<Statement>)
        requires
            old(self).parsing(),
        ensures
            final(self).step(*old(self)),
            r is Ok ==> final(self).advanced(*old(self)),
            r matches Ok(s) ==> s matches Statement::For(f) && !f.post_judgment
                && *f.initializer is Unknown,
            r matches Err(e) ==> e.error_type == JSIErrorType::SyntaxError,
        decreases old(self).measure(), 90nat,
    {
        self.check_token_and_next(Token::While)?;
        self.check_token_and_next(Token::LeftParenthesis)?;
        let condition = self.parse_expression()?;
        self.check_token_and_next(Token::RightParenthesis)?;
        let block = self.parse_block_statement()?;
        let statement = ForStatement {
            initializer: Box::new(Statement::Unknown),
            condition,
            incrementor: Expression::Unknown,
            statement: Box::new(block),
            post_judgment: false,
        };
        Ok(Statement::For(statement))
    }

    /// Parses `do { .. } while (..)`.
    #[verifier::rlimit(100)]
    #[verifier::spinoff_prover]
    fn parse_do_while_statement(&mut self) -> (r: JSIResult<Statement>)
        requires
            old(self).parsing(),
        ensures
            final(self).step(*old(self)),
            r is Ok ==> final(self).advanced(*old(self)),
            r matches Ok(s) ==> s matches Statement::For(f) && f.post_judgment
                && *f.initializer is Unknown,
            r matches Err(e) ==> e.error_type == JSIErrorType::SyntaxError,
        decreases old(self).measure(), 90nat,
    {
        self.check_token_and_next(Token::Do)?;
        let block = self.parse_block_statement()?;
        self.check_token_and_next(Token::While)?;
        self.check_token_and_next(Token::LeftParenthesis)?;
        let condition = self.parse_expression()?;
        self.check_token_and_next(Token::RightParenthesis)?;
        let statement = ForStatement {
            initializer: Box::new(Statement::Unknown),
            condition,
            incrementor: Expression::Unknown,
            statement: Box::new(block),
            post_judgment: true,
        };
        Ok(Statement::For(statement))
    }

    /// Parses `break`, with an optional label (which stays the current token).
    #[verifier::rlimit(100)]
    #[verifier::spinoff_prover]
    fn parse_break_statement(&mut self) -> (r: JSIResult<Statement>)
        requires
            old(self).parsing(),
        ensures
            final(self).step(*old(self)),
            r is Ok ==> final(self).advanced(*old(self)),
            r matches Ok(s) ==> s matches Statement::Break(b) && (b.label matches Some(l)
                ==> final(self).token == Token::Identifier && l.literal@ == final(self).literal@),
            r matches Err(e) ==> e.error_type == JSIErrorType::SyntaxError,
    {
        self.check_token_and_next(Token::Break)?;
        let mut semicolon = false;
        // break;
        if self.token == Token::Semicolon {
            self.next();
            semicolon = true;
        }
        // for (..) { break }
        if semicolon || self.auto_semicolon_when_new_line || self.token == Token::RightBrace {
            return Ok(Statement::Break(BreakStatement { label: None }));
        }
        self.check_token(Token::Identifier)?;
        Ok(
            Statement::Break(
                BreakStatement { label: Some(IdentifierLiteral { literal: self.literal.clone() }) },
            ),
        )
    }

    /// Parses `continue`, with an optional label (which stays the current token).
    #[verifier::rlimit(100)]
    #[verifier::spinoff_prover]
    fn parse_continue_statement(&mut self) -> (r: JSIResult<Statement>)
        requires
            old(self).parsing(),
        ensures
            final(self).step(*old(self)),
            r is Ok ==> final(self).advanced(*old(self)),
            r matches Ok(s) ==> s matches Statement::Continue(c) && (c.label matches Some(l)
                ==> final(self).token == Token::Identifier && l.literal@ == final(self).literal@),
            r matches Err(e) ==> e.error_type == JSIErrorType::SyntaxError,
    {
        self.check_token_and_next(Token::Continue)?;
        let mut semicolon = false;
        // continue;
        if self.token == Token::Semicolon {
            self.next();
            semicolon = true;
        }
        // for (..) { continue }
        if semicolon || self.token == Token::RightBrace {
            return Ok(Statement::Continue(ContinueStatement { label: None }));
        }
        self.check_token(Token::Identifier)?;
        Ok(
            Statement::Continue(
                ContinueStatement {
                    label: Some(IdentifierLiteral { literal: self.literal.clone() }),
                },
            ),
        )
    }

    /// Parses `throw ..`.
    #[verifier::rlimit(100)]
    #[verifier::spinoff_prover]
    fn parse_throw_statement(&mut self) -> (r: JSIResult<Statement>)
        requires
            old(self).parsing(),
        ensures
            final(self).step(*old(self)),
            r is Ok ==> final(self).advanced(*old(self)),
            r matches Ok(s) ==> s matches Statement::Throw(t) && assignment_form(t.expression),
            r matches Err(e) ==> e.error_type == JSIErrorType::SyntaxError,
        decreases old(self).measure(), 90nat,
    {
        self.check_token_and_next(Token::Throw)?;
        let expression = self.parse_expression()?;
        Ok(Statement::Throw(ThrowStatement { expression }))
    }

    /// Parses `try { .. } catch (..) { .. }`.
    #[verifier::rlimit(100)]
    #[verifier::spinoff_prover]
    fn parse_try_catch_statment(&mut self) -> (r: JSIResult<Statement>)
        requires
            old(self).parsing(),
        ensures
            final(self).step(*old(self)),
            r is Ok ==> final(self).advanced(*old(self)),
            r matches Ok(s) ==> s matches Statement::Try(t) && t.finally is None,
            r matches Err(e) ==> e.error_type == JSIErrorType::SyntaxError,
        decreases old(self).measure(), 90nat,
    {
        self.check_token_and_next(Token::Try)?;
        let body_statement = self.parse_block_statement()?;
        let body = match body_statement {
            Statement::Block(block) => block,
            _ => BlockStatement { statements: Vec::new() },
        };
        let mut catch: Option<CatchClause> = None;
        if self.token == Token::Catch {
            self.check_token_and_next(Token::Catch)?;
            let mut identifier = None;
            if self.token == Token::LeftParenthesis {
                self.check_token_and_next(Token::LeftParenthesis)?;
                let expression = self.parse_expression()?;
                if let Expression::Identifier(idti) = expression {
                    identifier = Some(idti);
                }
                self.check_token_and_next(Token::RightParenthesis)?;
            }
            let catch_statement = self.parse_block_statement()?;
            let catch_body = match catch_statement {
                Statement::Block(block) => block,
                _ => BlockStatement { statements: Vec::new() },
            };
            catch = Some(CatchClause { declaration: identifier, body: catch_body });
        }
        Ok(Statement::Try(TryCatchStatement { body, catch, finally: None }))
    }

    /// Parses `return ..`.
    #[verifier::rlimit(100)]
    #[verifier::spinoff_prover]
    fn parse_return_statement(&mut self) -> (r: JSIResult<Statement>)
        requires
            old(self).parsing(),
        ensures
            final(self).step(*old(self)),
            r is Ok ==> final(self).advanced(*old(self)),
            r matches Ok(s) ==> s is Return,
            r matches Err(e) ==> e.error_type == JSIErrorType::SyntaxError,
        decreases old(self).measure(), 90nat,
    {
        self.check_token_and_next(Token::Return)?;
        let mut expression = Expression::Keyword(Keywords::Undefined);
        if !self.auto_semicolon_when_new_line && self.token != Token::Semicolon && self.token
            != Token::RightBrace && self.token != Token::EOF {
            expression = self.parse_expression()?;
        }
        self.semicolon()?;
        Ok(Statement::Return(ReturnStatement { expression }))
    }

    /// Parses one declaration `name` or `name = value`.
    #[verifier::rlimit(100)]
    #[verifier::spinoff_prover]
    fn parse_variable_declaration(&mut self) -> (r: JSIResult<Expression>)
        requires
            old(self).parsing(),
        ensures
            final(self).step(*old(self)),
            r is Ok ==> final(self).advanced(*old(self)),
            r matches Ok(e) ==> e matches Expression::Var(v) && v.name@ == old(self).literal@,
            old(self).token != Token::Identifier ==> (r matches Err(e) && e.message@
                == unexpected_message(old(self).token, old(self).literal@)),
            r matches Err(e) ==> e.error_type == JSIErrorType::SyntaxError,
        decreases old(self).measure(), 88nat,
    {
        if Token::Identifier != self.token {
            return Err(self.error_unexpected());
        }
        let literal = self.literal.clone();
        self.next();
        let mut initializer = Expression::Keyword(Keywords::Undefined);
        if self.token == Token::Assign {
            self.next();
            initializer = self.parse_expression()?;
        }
        Ok(Expression::Var(VariableDeclaration { name: literal, initializer: Box::new(initializer) }))
    }

    /// Parses a function: `function`, an optional name, the parameters and
    /// the body. With `variable_lifting`, a named function is also declared
    /// in the enclosing scope, to be hoisted to its top.
    #[verifier::rlimit(100)]
    #[verifier::spinoff_prover]
    fn parse_function(&mut self, variable_lifting: bool) -> (r: JSIResult<FunctionDeclaration>)
        requires
            old(self).parsing(),
        ensures
            final(self).step(*old(self)),
            r is Ok ==> final(self).advanced(*old(self)),
            r matches Ok(f) ==> function_form(f),
            old(self).token == Token::Identifier ==> (r matches Ok(f) ==> f.name.literal@ == old(self).literal@),
            r matches Ok(f) ==> if variable_lifting && !f.is_anonymous {
                let before = old(self).scope.declarations@;
                let after = final(self).scope.declarations@;
                &&& after.len() == before.len() + 1
                &&& after.subrange(0, before.len() as int) == before
                &&& after.last() matches Declaration::Function(g) && g.name == f.name
                    && !g.is_anonymous
            } else {
                final(self).scope == old(self).scope
            },
            r matches Err(e) ==> e.error_type == JSIErrorType::SyntaxError,
        decreases old(self).measure(), 30nat,
    {
        // the keyword, when there is one
        if self.token == Token::Function {
            self.next();
        }
        // the name
        let mut is_anonymous = true;
        let mut name = String::new();
        if self.token == Token::Identifier {
            is_anonymous = false;
            name = self.literal.clone();
            self.next();
        }
        // the parameters
        let mut parameters: Vec<Parameter> = Vec::new();
        self.check_token_and_next(Token::LeftParenthesis)?;
        while self.token != Token::RightParenthesis && self.token != Token::EOF
            invariant
                self.step(*old(self)),
                self.measure() < old(self).measure(),
                self.scope == old(self).scope,
                forall|i: int| 0 <= i < parameters@.len() ==> parameter_form(#[trigger] parameters@[i]),
            decreases self.measure(),
        {
            if self.token == Token::Identifier {
                parameters.push(
                    Parameter {
                        name: IdentifierLiteral { literal: self.literal.clone() },
                        initializer: Box::new(Expression::Keyword(Keywords::Undefined)),
                    },
                );
                self.next();
            } else {
                self.check_token(Token::Identifier)?;
            }
            if self.token != Token::RightParenthesis {
                self.check_token_and_next(Token::Comma)?;
            }
        }
        self.check_token_and_next(Token::RightParenthesis)?;
        // the body, in a scope of its own for the declarations it hoists
        self.new_scope();
        let body_statement = self.parse_block_statement()?;
        let body = match body_statement {
            Statement::Block(block) => block,
            _ => BlockStatement { statements: Vec::new() },
        };
        let declarations = self.scope.take_declarations();
        self.close_scope();
        let func = FunctionDeclaration {
            is_anonymous,
            name: IdentifierLiteral { literal: name },
            parameters,
            body,
            declarations,
        };
        if variable_lifting && !is_anonymous {
            self.scope.declare(Declaration::Function(func.deep_copy()));
        }
        Ok(func)
    }

    /// Parses a class: its name and its constructor and methods. The
    /// closing brace stays the current token.
    #[verifier::rlimit(100)]
    #[verifier::spinoff_prover]
    fn parse_class(&mut self) -> (r: JSIResult<ClassDeclaration>)
        requires
            old(self).parsing(),
        ensures
            final(self).step(*old(self)),
            r is Ok ==> final(self).advanced(*old(self)),
            r matches Ok(c) ==> c.heritage is None && forall|i: int|
                0 <= i < c.members@.len() ==> (#[trigger] c.members@[i] is Constructor
                    || c.members@[i] is ClassMethod),
            r matches Err(e) ==> e.error_type == JSIErrorType::SyntaxError,
        decreases old(self).measure(), 90nat,
    {
        self.check_token_and_next(Token::Class)?;
        // the name
        self.check_token(Token::Identifier)?;
        let name = self.literal.clone();
        self.next();
        // a heritage clause is not read: `extends` fails at the brace below
        self.check_token_and_next(Token::LeftBrace)?;
        let mut members: Vec<Expression> = Vec::new();
        while self.token != Token::RightBrace && self.token != Token::EOF
            invariant
                self.step(*old(self)),
                self.advanced(*old(self)),
                forall|i: int|
                    0 <= i < members@.len() ==> (#[trigger] members@[i] is Constructor
                        || members@[i] is ClassMethod),
            decreases self.measure(),
        {
            let ghost start = *self;
            let mut modifiers: Vec<Token> = Vec::new();
            loop
                invariant
                    self.step(start),
                    self.scope.parent == start.scope.parent,
                    start.token != Token::EOF,
                    self.measure() == start.measure() ==> self.token == start.token,
                decreases self.measure(),
            {
                match self.token {
                    Token::Async => {
                        modifiers.push(self.token);
                        self.next();
                        continue;
                    },
                    _ => {
                        break;
                    },
                }
            }
            if self.token == Token::Identifier {
                if self.literal == String::from_str("constructor") {
                    let constructor = self.parse_function(false)?;
                    members.push(Expression::Constructor(constructor));
                } else if self.next_is('(', true) {
                    let method = self.parse_function(false)?;
                    members.push(
                        Expression::ClassMethod(
                            ClassMethodDeclaration {
                                name: method.name.deep_copy(),
                                modifiers,
                                method: Box::new(method),
                            },
                        ),
                    );
                } else {
                    // a property is skipped
                    self.next();
                }
            } else {
                self.next();
            }
        }
        Ok(ClassDeclaration { name: IdentifierLiteral { literal: name }, members, heritage: None })
    }

    /// Parses an expression.
    #[verifier::rlimit(100)]
    #[verifier::spinoff_prover]
    fn parse_expression(&mut self) -> (r: JSIResult<Expression>)
        requires
            old(self).parsing(),
        ensures
            final(self).step(*old(self)),
            r is Ok ==> final(self).advanced(*old(self)),
            r matches Ok(e) ==> assignment_form(e),
            r matches Err(e) ==> e.error_type == JSIErrorType::SyntaxError,
            old(self).expr_here() ==> (r matches Ok(e) && expr_form(
                old(self).code@,
                old(self).tok_start(),
                e,
            ) && final(self).reads(expr_stop(old(self).code@, old(self).tok_start())) && final(self).scope == old(self).scope),
        decreases old(self).measure(), 80nat,
    {
        self.parse_assignment_expression()
    }

    /// Parses an assignment, which groups to the right.
    #[verifier::rlimit(100)]
    #[verifier::spinoff_prover]
    fn parse_assignment_expression(&mut self) -> (r: JSIResult<Expression>)
        requires
            old(self).parsing(),
        ensures
            final(self).step(*old(self)),
            r is Ok ==> final(self).advanced(*old(self)),
            r matches Ok(e) ==> assignment_form(e),
            r matches Err(e) ==> e.error_type == JSIErrorType::SyntaxError,
            old(self).expr_here() ==> (r matches Ok(e) && expr_form(
                old(self).code@,
                old(self).tok_start(),
                e,
            ) && final(self).reads(expr_stop(old(self).code@, old(self).tok_start())) && final(self).scope == old(self).scope),
        decreases old(self).measure(), 79nat,
    {
        let ghost before = *self;
        let ghost code = before.code@;
        let ghost st = before.tok_start();
        proof {
            if before.expr_here() {
                assert(chain_ok(code, st));
                lemma_chain_stop_bounds(code, st, 1);
                lemma_unary_c_bounds(code, st);
                if binop_len(code, after_unary(code, st)) == 0 {
                    assert(unary_ok(code, st));
                }
            }
        }
        let left = self.parse_conditional_expression()?;
        if is_assign_token(self.token) {
            let oper = self.token;
            self.next();
            proof {
                if before.expr_here() {
                    let t = chain_stop(code, st, 1);
                    assert(assign_at(code, t));
                    let s2 = next_start(code, t + 1);
                    lemma_next_start_bounds(code, t + 1);
                    assert(expr_ok(code, s2));
                    assert(chain_ok(code, s2));
                    assert(unary_ok_c(code, s2));
                    lemma_operand_token(code, unary_operand(code, s2));
                    self.lemma_reads_start(s2);
                }
            }
            // from right to left
            let right = self.parse_expression()?;
            return Ok(
                Expression::Assign(
                    AssignExpression { left: Box::new(left), operator: oper, right: Box::new(right) },
                ),
            );
        }
        Ok(left)
    }

    /// Parses a conditional expression `c ? a : b`.
    #[verifier::rlimit(100)]
    #[verifier::spinoff_prover]
    fn parse_conditional_expression(&mut self) -> (r: JSIResult<Expression>)
        requires
            old(self).parsing(),
        ensures
            final(self).step(*old(self)),
            r is Ok ==> final(self).advanced(*old(self)),
            r matches Ok(e) ==> conditional_form(e),
            r matches Err(e) ==> e.error_type == JSIErrorType::SyntaxError,
            old(self).unary_here() ==> (r matches Ok(e) && unary_form(
                old(self).code@,
                old(self).tok_start(),
                e,
            ) && final(self).reads(
                next_start(old(self).code@, unary_end(old(self).code@, old(self).tok_start())),
            ) && final(self).scope == old(self).scope),
            old(self).chain_here() ==> (r is Ok && final(self).reads(
                chain_stop(old(self).code@, old(self).tok_start(), 1),
            ) && final(self).scope == old(self).scope),
        decreases old(self).measure(), 78nat,
    {
        let left = self.parse_binary_logical_expression()?;
        if self.token == Token::QuestionMark {
            self.next();
            let when_true = self.parse_expression()?;
            self.check_token_and_next(Token::Colon)?;
            let when_false = self.parse_expression()?;
            return Ok(
                Expression::Conditional(
                    ConditionalExpression {
                        condition: Box::new(left),
                        when_true: Box::new(when_true),
                        when_false: Box::new(when_false),
                    },
                ),
            );
        }
        Ok(left)
    }

    /// Parses `||` and `??` (level 1).
    #[verifier::rlimit(100)]
    #[verifier::spinoff_prover]
    fn parse_binary_logical_expression(&mut self) -> (r: JSIResult<Expression>)
        requires
            old(self).parsing(),
        ensures
            final(self).step(*old(self)),
            r is Ok ==> final(self).advanced(*old(self)),
            r matches Ok(e) ==> binary_form(e, 1),
            r matches Err(e) ==> e.error_type == JSIErrorType::SyntaxError,
            old(self).unary_here() ==> (r matches Ok(e) && unary_form(
                old(self).code@,
                old(self).tok_start(),
                e,
            ) && final(self).reads(
                next_start(old(self).code@, unary_end(old(self).code@, old(self).tok_start())),
            ) && final(self).scope == old(self).scope),
            old(self).chain_here() ==> (r is Ok && final(self).reads(
                chain_stop(old(self).code@, old(self).tok_start(), 1),
            ) && final(self).scope == old(self).scope),
        decreases old(self).measure(), 67nat,
    {
        self.parse_left_associate_expression(1)
    }

    /// Parses `&&` (level 2).
    #[verifier::rlimit(100)]
    #[verifier::spinoff_prover]
    fn parse_logical_and_expression(&mut self) -> (r: JSIResult<Expression>)
        requires
            old(self).parsing(),
        ensures
            final(self).step(*old(self)),
            r is Ok ==> final(self).advanced(*old(self)),
            r matches Ok(e) ==> binary_form(e, 2),
            r matches Err(e) ==> e.error_type == JSIErrorType::SyntaxError,
            old(self).unary_here() ==> (r matches Ok(e) && unary_form(
                old(self).code@,
                old(self).tok_start(),
                e,
            ) && final(self).reads(
                next_start(old(self).code@, unary_end(old(self).code@, old(self).tok_start())),
            ) && final(self).scope == old(self).scope),
            old(self).chain_here() ==> (r is Ok && final(self).reads(
                chain_stop(old(self).code@, old(self).tok_start(), 2),
            ) && final(self).scope == old(self).scope),
        decreases old(self).measure(), 64nat,
    {
        self.parse_left_associate_expression(2)
    }

    /// Parses `|` (level 3).
    #[verifier::rlimit(100)]
    #[verifier::spinoff_prover]
    fn parse_binary_or_expression(&mut self) -> (r: JSIResult<Expression>)
        requires
            old(self).parsing(),
        ensures
            final(self).step(*old(self)),
            r is Ok ==> final(self).advanced(*old(self)),
            r matches Ok(e) ==> binary_form(e, 3),
            r matches Err(e) ==> e.error_type == JSIErrorType::SyntaxError,
            old(self).unary_here() ==> (r matches Ok(e) && unary_form(
                old(self).code@,
                old(self).tok_start(),
                e,
            ) && final(self).reads(
                next_start(old(self).code@, unary_end(old(self).code@, old(self).tok_start())),
            ) && final(self).scope == old(self).scope),
            old(self).chain_here() ==> (r is Ok && final(self).reads(
                chain_stop(old(self).code@, old(self).tok_start(), 3),
            ) && final(self).scope == old(self).scope),
        decreases old(self).measure(), 61nat,
    {
        self.parse_left_associate_expression(3)
    }

    /// Parses `^` (level 4).
    #[verifier::rlimit(100)]
    #[verifier::spinoff_prover]
    fn parse_binary_exclusive_or_expression(&mut self) -> (r: JSIResult<Expression>)
        requires
            old(self).parsing(),
        ensures
            final(self).step(*old(self)),
            r is Ok ==> final(self).advanced(*old(self)),
            r matches Ok(e) ==> binary_form(e, 4),
            r matches Err(e) ==> e.error_type == JSIErrorType::SyntaxError,
            old(self).unary_here() ==> (r matches Ok(e) && unary_form(
                old(self).code@,
                old(self).tok_start(),
                e,
            ) && final(self).reads(
                next_start(old(self).code@, unary_end(old(self).code@, old(self).tok_start())),
            ) && final(self).scope == old(self).scope),
            old(self).chain_here() ==> (r is Ok && final(self).reads(
                chain_stop(old(self).code@, old(self).tok_start(), 4),
            ) && final(self).scope == old(self).scope),
        decreases old(self).measure(), 58nat,
    {
        self.parse_left_associate_expression(4)
    }

    /// Parses `&` (level 5).
    #[verifier::rlimit(100)]
    #[verifier::spinoff_prover]
    fn parse_binary_and_expression(&mut self) -> (r: JSIResult<Expression>)
        requires
            old(self).parsing(),
        ensures
            final(self).step(*old(self)),
            r is Ok ==> final(self).advanced(*old(self)),
            r matches Ok(e) ==> binary_form(e, 5),
            r matches Err(e) ==> e.error_type == JSIErrorType::SyntaxError,
            old(self).unary_here() ==> (r matches Ok(e) && unary_form(
                old(self).code@,
                old(self).tok_start(),
                e,
            ) && final(self).reads(
                next_start(old(self).code@, unary_end(old(self).code@, old(self).tok_start())),
            ) && final(self).scope == old(self).scope),
            old(self).chain_here() ==> (r is Ok && final(self).reads(
                chain_stop(old(self).code@, old(self).tok_start(), 5),
            ) && final(self).scope == old(self).scope),
        decreases old(self).measure(), 55nat,
    {
        self.parse_left_associate_expression(5)
    }

    /// Parses `==`, `===`, `!=` and `!==` (level 6).
    #[verifier::rlimit(100)]
    #[verifier::spinoff_prover]
    fn parse_equality_expression(&mut self) -> (r: JSIResult<Expression>)
        requires
            old(self).parsing(),
        ensures
            final(self).step(*old(self)),
            r is Ok ==> final(self).advanced(*old(self)),
            r matches Ok(e) ==> binary_form(e, 6),
            r matches Err(e) ==> e.error_type == JSIErrorType::SyntaxError,
            old(self).unary_here() ==> (r matches Ok(e) && unary_form(
                old(self).code@,
                old(self).tok_start(),
                e,
            ) && final(self).reads(
                next_start(old(self).code@, unary_end(old(self).code@, old(self).tok_start())),
            ) && final(self).scope == old(self).scope),
            old(self).chain_here() ==> (r is Ok && final(self).reads(
                chain_stop(old(self).code@, old(self).tok_start(), 6),
            ) && final(self).scope == old(self).scope),
        decreases old(self).measure(), 52nat,
    {
        self.parse_left_associate_expression(6)
    }

    /// Parses `<`, `>`, `<=`, `>=`, `in` and `instanceof` (level 7).
    #[verifier::rlimit(100)]
    #[verifier::spinoff_prover]
    fn parse_relationship_expression(&mut self) -> (r: JSIResult<Expression>)
        requires
            old(self).parsing(),
        ensures
            final(self).step(*old(self)),
            r is Ok ==> final(self).advanced(*old(self)),
            r matches Ok(e) ==> binary_form(e, 7),
            r matches Err(e) ==> e.error_type == JSIErrorType::SyntaxError,
            old(self).unary_here() ==> (r matches Ok(e) && unary_form(
                old(self).code@,
                old(self).tok_start(),
                e,
            ) && final(self).reads(
                next_start(old(self).code@, unary_end(old(self).code@, old(self).tok_start())),
            ) && final(self).scope == old(self).scope),
            old(self).chain_here() ==> (r is Ok && final(self).reads(
                chain_stop(old(self).code@, old(self).tok_start(), 7),
            ) && final(self).scope == old(self).scope),
        decreases old(self).measure(), 49nat,
    {
        self.parse_left_associate_expression(7)
    }

    /// Parses `<<`, `>>` and `>>>` (level 8).
    #[verifier::rlimit(100)]
    #[verifier::spinoff_prover]
    fn parse_shift_expression(&mut self) -> (r: JSIResult<Expression>)
        requires
            old(self).parsing(),
        ensures
            final(self).step(*old(self)),
            r is Ok ==> final(self).advanced(*old(self)),
            r matches Ok(e) ==> binary_form(e, 8),
            r matches Err(e) ==> e.error_type == JSIErrorType::SyntaxError,
            old(self).unary_here() ==> (r matches Ok(e) && unary_form(
                old(self).code@,
                old(self).tok_start(),
                e,
            ) && final(self).reads(
                next_start(old(self).code@, unary_end(old(self).code@, old(self).tok_start())),
            ) && final(self).scope == old(self).scope),
            old(self).chain_here() ==> (r is Ok && final(self).reads(
                chain_stop(old(self).code@, old(self).tok_start(), 8),
            ) && final(self).scope == old(self).scope),
        decreases old(self).measure(), 46nat,
    {
        self.parse_left_associate_expression(8)
    }

    /// Parses `+` and `-` (level 9).
    #[verifier::rlimit(100)]
    #[verifier::spinoff_prover]
    fn parse_additive_expression(&mut self) -> (r: JSIResult<Expression>)
        requires
            old(self).parsing(),
        ensures
            final(self).step(*old(self)),
            r is Ok ==> final(self).advanced(*old(self)),
            r matches Ok(e) ==> binary_form(e, 9),
            r matches Err(e) ==> e.error_type == JSIErrorType::SyntaxError,
            old(self).unary_here() ==> (r matches Ok(e) && unary_form(
                old(self).code@,
                old(self).tok_start(),
                e,
            ) && final(self).reads(
                next_start(old(self).code@, unary_end(old(self).code@, old(self).tok_start())),
            ) && final(self).scope == old(self).scope),
            old(self).chain_here() ==> (r is Ok && final(self).reads(
                chain_stop(old(self).code@, old(self).tok_start(), 9),
            ) && final(self).scope == old(self).scope),
        decreases old(self).measure(), 43nat,
    {
        self.parse_left_associate_expression(9)
    }

    /// Parses `*`, `/` and `%` (level 10).
    #[verifier::rlimit(100)]
    #[verifier::spinoff_prover]
    fn parse_multiplicative_expression(&mut self) -> (r: JSIResult<Expression>)
        requires
            old(self).parsing(),
        ensures
            final(self).step(*old(self)),
            r is Ok ==> final(self).advanced(*old(self)),
            r matches Ok(e) ==> binary_form(e, 10),
            r matches Err(e) ==> e.error_type == JSIErrorType::SyntaxError,
            old(self).unary_here() ==> (r matches Ok(e) && unary_form(
                old(self).code@,
                old(self).tok_start(),
                e,
            ) && final(self).reads(
                next_start(old(self).code@, unary_end(old(self).code@, old(self).tok_start())),
            ) && final(self).scope == old(self).scope),
            old(self).chain_here() ==> (r is Ok && final(self).reads(
                chain_stop(old(self).code@, old(self).tok_start(), 10),
            ) && final(self).scope == old(self).scope),
        decreases old(self).measure(), 40nat,
    {
        self.parse_left_associate_expression(10)
    }

    /// Parses an operand of the operators of level `level - 1`: the
    /// expression of level `level`.
    #[verifier::rlimit(100)]
    #[verifier::spinoff_prover]
    fn parse_binary_operand(&mut self, level: u8) -> (r: JSIResult<Expression>)
        requires
            old(self).parsing(),
            2 <= level <= 11,
        ensures
            final(self).step(*old(self)),
            r is Ok ==> final(self).advanced(*old(self)),
            r matches Ok(e) ==> binary_form(e, level as int),
            r matches Err(e) ==> e.error_type == JSIErrorType::SyntaxError,
            old(self).unary_here() ==> (r matches Ok(e) && unary_form(
                old(self).code@,
                old(self).tok_start(),
                e,
            ) && final(self).reads(
                next_start(old(self).code@, unary_end(old(self).code@, old(self).tok_start())),
            ) && final(self).scope == old(self).scope),
            old(self).chain_here() ==> (r is Ok && final(self).reads(
                chain_stop(old(self).code@, old(self).tok_start(), level as int),
            ) && final(self).scope == old(self).scope),
        decreases old(self).measure(), (71 - 3 * level) as nat,
    {
        match level {
            2 => self.parse_logical_and_expression(),
            3 => self.parse_binary_or_expression(),
            4 => self.parse_binary_exclusive_or_expression(),
            5 => self.parse_binary_and_expression(),
            6 => self.parse_equality_expression(),
            7 => self.parse_relationship_expression(),
            8 => self.parse_shift_expression(),
            9 => self.parse_additive_expression(),
            10 => self.parse_multiplicative_expression(),
            _ => self.parse_exponentiation_expression(),
        }
    }

    /// Parses the operators of level `level`, which group to the left.
    #[verifier::rlimit(100)]
    #[verifier::spinoff_prover]
    fn parse_left_associate_expression(&mut self, level: u8) -> (r: JSIResult<Expression>)
        requires
            old(self).parsing(),
            1 <= level <= 10,
        ensures
            final(self).step(*old(self)),
            r is Ok ==> final(self).advanced(*old(self)),
            r matches Ok(e) ==> binary_form(e, level as int),
            r matches Err(e) ==> e.error_type == JSIErrorType::SyntaxError,
            old(self).unary_here() ==> (r matches Ok(e) && unary_form(
                old(self).code@,
                old(self).tok_start(),
                e,
            ) && final(self).reads(
                next_start(old(self).code@, unary_end(old(self).code@, old(self).tok_start())),
            ) && final(self).scope == old(self).scope),
            old(self).chain_here() ==> (r is Ok && final(self).reads(
                chain_stop(old(self).code@, old(self).tok_start(), level as int),
            ) && final(self).scope == old(self).scope),
        decreases old(self).measure(), (69 - 3 * level) as nat,
    {
        let ghost code = self.code@;
        let ghost st = self.tok_start();
        let ghost chain = self.chain_here();
        let ghost mut p = st;
        let mut left = self.parse_binary_operand(level + 1)?;
        loop
            invariant
                1 <= level <= 10,
                self.step(*old(self)),
                self.advanced(*old(self)),
                binary_form(left, level as int),
                code == old(self).code@,
                st == old(self).tok_start(),
                chain == old(self).chain_here(),
                chain ==> (chain_ok(code, p) && chain_stop(code, p, level as int) == chain_stop(
                    code,
                    st,
                    level as int,
                ) && self.reads(chain_stop(code, p, level + 1)) && self.scope == old(self).scope),
                old(self).unary_here() ==> (unary_form(old(self).code@, old(self).tok_start(), left)
                    && self.reads(
                    next_start(old(self).code@, unary_end(old(self).code@, old(self).tok_start())),
                ) && self.scope == old(self).scope),
            ensures
                1 <= level <= 10,
                self.step(*old(self)),
                self.advanced(*old(self)),
                binary_form(left, level as int),
                old(self).unary_here() ==> (unary_form(old(self).code@, old(self).tok_start(), left)
                    && self.reads(
                    next_start(old(self).code@, unary_end(old(self).code@, old(self).tok_start())),
                ) && self.scope == old(self).scope),
                chain ==> (self.reads(chain_stop(code, st, level as int)) && self.scope == old(self).scope),
            decreases self.measure(),
        {
            if token_level(self.token) == level {
                let operator = self.token;
                let ghost at_operator = *self;
                proof {
                    if chain {
                        at_operator.lemma_stop_advance(code, p, level as int);
                    }
                }
                // the operator
                self.next();
                proof {
                    if chain {
                        let u = next_start(code, at_operator.from_index());
                        self.lemma_reads_start(u);
                        p = u;
                    }
                }
                let right = self.parse_binary_operand(level + 1)?;
                left = Expression::Binary(
                    BinaryExpression { left: Box::new(left), operator, right: Box::new(right) },
                );
            } else {
                proof {
                    if chain {
                        self.lemma_stop_exit(code, p, st, level as int);
                    }
                }
                break;
            }
        }
        Ok(left)
    }

    /// Parses `**`, which groups to the right (level 11).
    #[verifier::rlimit(100)]
    #[verifier::spinoff_prover]
    fn parse_exponentiation_expression(&mut self) -> (r: JSIResult<Expression>)
        requires
            old(self).parsing(),
        ensures
            final(self).step(*old(self)),
            r is Ok ==> final(self).advanced(*old(self)),
            r matches Ok(e) ==> binary_form(e, 11),
            r matches Err(e) ==> e.error_type == JSIErrorType::SyntaxError,
            old(self).unary_here() ==> (r matches Ok(e) && unary_form(
                old(self).code@,
                old(self).tok_start(),
                e,
            ) && final(self).reads(
                next_start(old(self).code@, unary_end(old(self).code@, old(self).tok_start())),
            ) && final(self).scope == old(self).scope),
            old(self).chain_here() ==> (r is Ok && final(self).reads(
                chain_stop(old(self).code@, old(self).tok_start(), 11),
            ) && final(self).scope == old(self).scope),
        decreases old(self).measure(), 37nat,
    {
        let ghost code = self.code@;
        let ghost st = self.tok_start();
        let ghost chain = self.chain_here();
        proof {
            if chain {
                assert(unary_ok_c(code, st));
                lemma_unary_c_bounds(code, st);
            }
        }
        let left = self.parse_prefix_unary_expression()?;
        assert(binary_form(left, 12));
        if self.token == Token::Exponentiation {
            let operator = self.token;
            self.next();
            proof {
                if chain {
                    let t = after_unary(code, st);
                    let u = next_start(code, t + binop_len(code, t));
                    assert(chain_ok(code, u));
                    assert(unary_ok_c(code, u));
                    lemma_unary_c_bounds(code, u);
                    lemma_operand_token(code, unary_operand(code, u));
                    self.lemma_reads_start(u);
                }
            }
            let right = self.parse_exponentiation_expression()?;
            Ok(
                Expression::Binary(
                    BinaryExpression { left: Box::new(left), operator, right: Box::new(right) },
                ),
            )
        } else {
            Ok(left)
        }
    }

    /// Parses a prefix unary operator and its operand.
    #[verifier::rlimit(100)]
    #[verifier::spinoff_prover]
    fn parse_prefix_unary_expression(&mut self) -> (r: JSIResult<Expression>)
        requires
            old(self).parsing(),
        ensures
            final(self).step(*old(self)),
            r is Ok ==> final(self).advanced(*old(self)),
            r matches Ok(e) ==> primary_form(e),
            r matches Ok(e) ==> is_prefix_operator(old(self).token) ==> e is PrefixUnary
                && e->PrefixUnary_0.operator == old(self).token,
            r matches Err(e) ==> e.error_type == JSIErrorType::SyntaxError,
            old(self).unary_c_here() ==> (r matches Ok(e) && unary_form(
                old(self).code@,
                old(self).tok_start(),
                e,
            ) && final(self).reads(
                next_start(old(self).code@, unary_end(old(self).code@, old(self).tok_start())),
            ) && final(self).scope == old(self).scope),
        decreases old(self).measure(), 36nat,
    {
        let ghost before = *self;
        proof {
            if before.unary_c_here() {
                before.lemma_unary_here();
            }
        }
        match self.token {
            Token::Not | Token::BitwiseNot | Token::Plus | Token::Subtract => {
                let operator = self.token;
                self.next();
                Ok(
                    Expression::PrefixUnary(
                        PrefixUnaryExpression {
                            operator,
                            operand: Box::new(self.parse_postfix_unary_expression()?),
                        },
                    ),
                )
            },
            Token::Typeof | Token::Void | Token::Delete | Token::Await => {
                let operator = self.token;
                self.next();
                Ok(
                    Expression::PrefixUnary(
                        PrefixUnaryExpression {
                            operator,
                            operand: Box::new(self.parse_postfix_unary_expression()?),
                        },
                    ),
                )
            },
            Token::Increment | Token::Decrement => {
                let operator = self.token;
                self.next();
                proof {
                    if before.unary_c_here() {
                        let code = before.code@;
                        let o = next_start(code, before.from_index());
                        lemma_next_start_bounds(code, before.from_index());
                        lemma_operand_token(code, o);
                        self.lemma_reads_start(o);
                    }
                }
                let operand = self.parse_postfix_unary_expression()?;
                Ok(Expression::PrefixUnary(PrefixUnaryExpression { operator, operand: Box::new(operand) }))
            },
            _ => self.parse_postfix_unary_expression(),
        }
    }

    /// Parses an operand and a postfix `++` or `--` on the same line.
    #[verifier::rlimit(100)]
    #[verifier::spinoff_prover]
    fn parse_postfix_unary_expression(&mut self) -> (r: JSIResult<Expression>)
        requires
            old(self).parsing(),
        ensures
            final(self).step(*old(self)),
            r is Ok ==> final(self).advanced(*old(self)),
            r matches Ok(e) ==> primary_form(e),
            r matches Err(e) ==> e.error_type == JSIErrorType::SyntaxError,
            old(self).operand_here() ==> (r matches Ok(e) && literal_form(
                old(self).token,
                old(self).literal@,
                e,
            ) && final(self).reads(next_start(old(self).code@, old(self).from_index()))
                && final(self).scope == old(self).scope),
        decreases old(self).measure(), 35nat,
    {
        let left = self.parse_left_hand_side_expression()?;
        if self.token == Token::Increment || self.token == Token::Decrement {
            if self.auto_semicolon_when_new_line {
                return Ok(left);
            }
            let expr = Expression::PostfixUnary(
                PostfixUnaryExpression { operator: self.token, operand: Box::new(left) },
            );
            self.next();
            Ok(expr)
        } else {
            Ok(left)
        }
    }

    /// Parses member accesses `.name` and `[..]`, calls and `new`.
    #[verifier::rlimit(100)]
    #[verifier::spinoff_prover]
    fn parse_left_hand_side_expression(&mut self) -> (r: JSIResult<Expression>)
        requires
            old(self).parsing(),
        ensures
            final(self).step(*old(self)),
            r is Ok ==> final(self).advanced(*old(self)),
            r matches Ok(e) ==> primary_form(e),
            r matches Err(e) ==> e.error_type == JSIErrorType::SyntaxError,
            old(self).operand_here() ==> (r matches Ok(e) && literal_form(
                old(self).token,
                old(self).literal@,
                e,
            ) && final(self).reads(next_start(old(self).code@, old(self).from_index()))
                && final(self).scope == old(self).scope),
            old(self).operand_here() && final(self).token != Token::EOF ==> final(self).auto_semicolon_when_new_line == (old(self).pre_token_need_semicolon && line_break_before(
                old(self).code@,
                old(self).from_index(),
            )),
        decreases old(self).measure(), 34nat,
    {
        let mut left = self.parse_group_expression()?;
        loop
            invariant
                self.step(*old(self)),
                !(left is Unknown) ==> self.advanced(*old(self)),
                left is Unknown ==> *self == *old(self),
                !(left is Binary) && !(left is Assign) && !(left is Conditional),
                old(self).operand_here() ==> (literal_form(old(self).token, old(self).literal@, left)
                    && self.reads(next_start(old(self).code@, old(self).from_index())) && self.scope
                    == old(self).scope && (self.token != Token::EOF ==> self.auto_semicolon_when_new_line
                    == (old(self).pre_token_need_semicolon && line_break_before(
                    old(self).code@,
                    old(self).from_index(),
                )))),
            decreases self.measure(),
        {
            if self.token == Token::Period {
                left = self.parse_property_access_expression(left)?;
            } else if self.token == Token::LeftBracket {
                left = self.parse_element_access_expression(left)?;
            } else if self.token == Token::LeftParenthesis {
                left = self.parse_call_expression(left)?;
            } else if self.token == Token::New {
                left = self.parse_new_expression()?;
            } else {
                break;
            }
        }
        if let Expression::Unknown = left {
            return Err(self.error_unexpected());
        }
        Ok(left)
    }

    /// Parses `.name` after `expression`.
    #[verifier::rlimit(100)]
    #[verifier::spinoff_prover]
    fn parse_property_access_expression(&mut self, expression: Expression) -> (r: JSIResult<
        Expression,
    >)
        requires
            old(self).parsing(),
            old(self).token == Token::Period,
        ensures
            final(self).step(*old(self)),
            r is Ok ==> final(self).advanced(*old(self)),
            r matches Ok(e) ==> e matches Expression::PropertyAccess(x) && *x.expression == expression,
            r matches Err(e) ==> e.error_type == JSIErrorType::SyntaxError,
    {
        self.next();
        if self.token == Token::Number {
            return Err(
                JSIError::new(JSIErrorType::SyntaxError, String::from_str("Unexpected number"), 0, 0),
            );
        }
        let literal = self.literal.clone();
        self.next();
        Ok(
            Expression::PropertyAccess(
                PropertyAccessExpression {
                    expression: Box::new(expression),
                    name: IdentifierLiteral { literal },
                },
            ),
        )
    }

    /// Parses `[..]` after `expression`.
    #[verifier::rlimit(100)]
    #[verifier::spinoff_prover]
    fn parse_element_access_expression(&mut self, expression: Expression) -> (r: JSIResult<
        Expression,
    >)
        requires
            old(self).parsing(),
        ensures
            final(self).step(*old(self)),
            r is Ok ==> final(self).advanced(*old(self)),
            r matches Ok(e) ==> e matches Expression::ElementAccess(x) && *x.expression == expression
                && assignment_form(*x.argument),
            r matches Err(e) ==> e.error_type == JSIErrorType::SyntaxError,
        decreases old(self).measure(), 20nat,
    {
        self.check_token_and_next(Token::LeftBracket)?;
        let expr = self.parse_expression()?;
        self.check_token_and_next(Token::RightBracket)?;
        Ok(
            Expression::ElementAccess(
                ElementAccessExpression { expression: Box::new(expression), argument: Box::new(expr) },
            ),
        )
    }

    /// Parses the arguments of a call of `expression`.
    #[verifier::rlimit(100)]
    #[verifier::spinoff_prover]
    fn parse_call_expression(&mut self, expression: Expression) -> (r: JSIResult<Expression>)
        requires
            old(self).parsing(),
        ensures
            final(self).step(*old(self)),
            r is Ok ==> final(self).advanced(*old(self)),
            r matches Ok(e) ==> e matches Expression::Call(x) && *x.expression == expression && forall|i: int|
                0 <= i < x.arguments@.len() ==> assignment_form(#[trigger] x.arguments@[i]),
            r matches Err(e) ==> e.error_type == JSIErrorType::SyntaxError,
        decreases old(self).measure(), 20nat,
    {
        let arguments = self.parse_arguments()?;
        self.check_token_and_next(Token::RightParenthesis)?;
        Ok(Expression::Call(CallExpression { expression: Box::new(expression), arguments }))
    }

    /// Parses `new`, the constructor (an operand and its member accesses)
    /// and, when they follow, the arguments in parentheses: `new a(1).b`
    /// reads as `(new a(1)).b`.
    #[verifier::rlimit(100)]
    #[verifier::spinoff_prover]
    fn parse_new_expression(&mut self) -> (r: JSIResult<Expression>)
        requires
            old(self).parsing(),
            old(self).token == Token::New,
        ensures
            final(self).step(*old(self)),
            r is Ok ==> final(self).advanced(*old(self)),
            r matches Ok(e) ==> e is New,
            r matches Err(e) ==> e.error_type == JSIErrorType::SyntaxError,
        decreases old(self).measure(), 20nat,
    {
        self.next();
        let mut callee = self.parse_group_expression()?;
        loop
            invariant
                self.step(*old(self)),
                self.advanced(*old(self)),
            decreases self.measure(),
        {
            if self.token == Token::Period {
                callee = self.parse_property_access_expression(callee)?;
            } else if self.token == Token::LeftBracket {
                callee = self.parse_element_access_expression(callee)?;
            } else {
                break;
            }
        }
        if let Expression::Unknown = callee {
            return Err(self.error_unexpected());
        }
        let mut arguments: Vec<Expression> = Vec::new();
        if self.token == Token::LeftParenthesis {
            arguments = self.parse_arguments()?;
            self.check_token_and_next(Token::RightParenthesis)?;
        }
        Ok(Expression::New(NewExpression { expression: Box::new(callee), arguments }))
    }

    /// Parses `( .. )`, with the comma operator inside, or a literal.
    #[verifier::rlimit(100)]
    #[verifier::spinoff_prover]
    fn parse_group_expression(&mut self) -> (r: JSIResult<Expression>)
        requires
            old(self).parsing(),
        ensures
            final(self).step(*old(self)),
            r matches Ok(e) && !(e is Unknown) ==> final(self).advanced(*old(self)),
            r matches Ok(e) && e is Unknown ==> *final(self) == *old(self),
            r matches Ok(e) ==> !(e is Binary) && !(e is Assign) && !(e is Conditional),
            r matches Err(e) ==> e.error_type == JSIErrorType::SyntaxError,
            old(self).operand_here() ==> (r matches Ok(e) && literal_form(
                old(self).token,
                old(self).literal@,
                e,
            ) && final(self).reads(next_start(old(self).code@, old(self).from_index()))
                && final(self).scope == old(self).scope),
            old(self).operand_here() && final(self).token != Token::EOF ==> final(self).auto_semicolon_when_new_line == (old(self).pre_token_need_semicolon && line_break_before(
                old(self).code@,
                old(self).from_index(),
            )),
        decreases old(self).measure(), 33nat,
    {
        if self.token == Token::LeftParenthesis {
            self.next();
            let first = self.parse_expression()?;
            // the comma operator: `(a, b, c)`
            let expr = if self.token == Token::Comma {
                let mut expressions: Vec<Expression> = Vec::new();
                expressions.push(first);
                while self.token == Token::Comma
                    invariant
                        old(self).token == Token::LeftParenthesis,
                        self.step(*old(self)),
                        self.advanced(*old(self)),
                    decreases self.measure(),
                {
                    self.next();
                    expressions.push(self.parse_expression()?);
                }
                Expression::Sequence(SequenceExpression { expressions })
            } else {
                first
            };
            self.check_token_and_next(Token::RightParenthesis)?;
            return Ok(Expression::Group(GroupExpression { expression: Box::new(expr) }));
        }
        self.parse_literal_expression()
    }

    /// Parses a literal; the unknown expression, with nothing consumed, for
    /// a token that starts none.
    #[verifier::rlimit(100)]
    #[verifier::spinoff_prover]
    fn parse_literal_expression(&mut self) -> (r: JSIResult<Expression>)
        requires
            old(self).parsing(),
        ensures
            final(self).step(*old(self)),
            r matches Ok(e) && !(e is Unknown) ==> final(self).advanced(*old(self)),
            r matches Ok(e) && e is Unknown ==> *final(self) == *old(self),
            r matches Ok(e) ==> literal_form(old(self).token, old(self).literal@, e),
            old(self).token == Token::String && old(self).literal@.len() < 2 ==> r is Err,
            old(self).token == Token::String && old(self).literal@.len() >= 2 ==> r is Ok,
            old(self).token == Token::Backtick && !has_substitution(
                old(self).spec_code(),
                old(self).spec_pos(),
                char_index(old(self).spec_code(), '`', old(self).spec_pos()),
            ) ==> r is Ok,
            r is Err ==> old(self).token == Token::String || old(self).token == Token::Backtick
                || old(self).token == Token::LeftBrace || old(self).token == Token::LeftBracket
                || old(self).token == Token::Function,
            r matches Err(e) ==> e.error_type == JSIErrorType::SyntaxError,
            old(self).operand_here() ==> (r matches Ok(e) && literal_form(
                old(self).token,
                old(self).literal@,
                e,
            ) && final(self).reads(next_start(old(self).code@, old(self).from_index()))
                && final(self).scope == old(self).scope),
            old(self).operand_here() && final(self).token != Token::EOF ==> final(self).auto_semicolon_when_new_line == (old(self).pre_token_need_semicolon && line_break_before(
                old(self).code@,
                old(self).from_index(),
            )),
        decreases old(self).measure(), 32nat,
    {
        proof {
            if self.operand_here() && self.token == Token::String {
                lemma_operand_token(self.code@, self.tok_start());
            }
        }
        let literal = self.literal.clone();
        match self.token {
            Token::Identifier => {
                self.next();
                Ok(Expression::Identifier(IdentifierLiteral { literal }))
            },
            Token::Number => {
                self.next();
                Ok(Expression::Number(NumberLiteral { literal }))
            },
            Token::String => {
                let value = self.string_value()?;
                self.next();
                Ok(Expression::String(StringLiteral { literal, value }))
            },
            Token::Backtick => self.parse_template_litreal(),
            Token::False => {
                self.next();
                Ok(Expression::Keyword(Keywords::False))
            },
            Token::True => {
                self.next();
                Ok(Expression::Keyword(Keywords::True))
            },
            Token::Null => {
                self.next();
                Ok(Expression::Keyword(Keywords::Null))
            },
            Token::Undefined => {
                self.next();
                Ok(Expression::Keyword(Keywords::Undefined))
            },
            Token::This => {
                self.next();
                Ok(Expression::Keyword(Keywords::This))
            },
            Token::LeftBrace => self.parse_object_literal(),
            Token::LeftBracket => self.parse_array_literal(),
            Token::Function => Ok(Expression::Function(self.parse_function(true)?)),
            _ => Ok(Expression::Unknown),
        }
    }

    /// Parses an array literal `[a, , b]`; an elision stands for `undefined`.
    #[verifier::rlimit(100)]
    #[verifier::spinoff_prover]
    fn parse_array_literal(&mut self) -> (r: JSIResult<Expression>)
        requires
            old(self).parsing(),
        ensures
            final(self).step(*old(self)),
            r is Ok ==> final(self).advanced(*old(self)),
            r matches Ok(e) ==> e matches Expression::Array(a) && forall|i: int|
                0 <= i < a.elements@.len() ==> element_form(#[trigger] a.elements@[i]),
            r matches Err(e) ==> e.error_type == JSIErrorType::SyntaxError,
        decreases old(self).measure(), 31nat,
    {
        self.check_token_and_next(Token::LeftBracket)?;
        let mut elements: Vec<Expression> = Vec::new();
        while self.token != Token::RightBracket && self.token != Token::EOF
            invariant
                self.step(*old(self)),
                self.advanced(*old(self)),
                forall|i: int| 0 <= i < elements@.len() ==> element_form(#[trigger] elements@[i]),
            decreases self.measure(),
        {
            // [,,1]
            if self.token == Token::Comma {
                elements.push(Expression::Keyword(Keywords::Undefined));
                self.next();
                continue;
            }
            let item = self.parse_expression()?;
            elements.push(item);
            if self.token != Token::RightBracket {
                self.check_token_and_next(Token::Comma)?;
            }
        }
        self.check_token_and_next(Token::RightBracket)?;
        Ok(Expression::Array(ArrayLiteral { elements }))
    }

    /// Parses an object literal; a shorthand `{ a }` stands for `{ a: a }`,
    /// and a name that is an identifier becomes a string.
    #[verifier::rlimit(100)]
    #[verifier::spinoff_prover]
    fn parse_object_literal(&mut self) -> (r: JSIResult<Expression>)
        requires
            old(self).parsing(),
        ensures
            final(self).step(*old(self)),
            r is Ok ==> final(self).advanced(*old(self)),
            r matches Ok(e) ==> e is Object,
            r matches Ok(e) ==> e matches Expression::Object(o) && forall|i: int|
                0 <= i < o.properties@.len() ==> property_form(#[trigger] o.properties@[i]),
            r matches Err(e) ==> e.error_type == JSIErrorType::SyntaxError,
        decreases old(self).measure(), 31nat,
    {
        self.check_token_and_next(Token::LeftBrace)?;
        let mut properties: Vec<PropertyAssignment> = Vec::new();
        while self.token != Token::RightBrace && self.token != Token::EOF
            invariant
                self.step(*old(self)),
                self.advanced(*old(self)),
                forall|i: int| 0 <= i < properties@.len() ==> property_form(#[trigger] properties@[i]),
            decreases self.measure(),
        {
            let property_name = self.parse_object_property_name()?;
            if let Expression::Unknown = property_name {
                break;
            }
            let initializer = if self.token == Token::Colon {
                self.next();
                self.parse_expression()?
            } else {
                // a shorthand property
                match &property_name {
                    Expression::Identifier(property) => Expression::Identifier(
                        IdentifierLiteral { literal: property.literal.clone() },
                    ),
                    _ => Expression::Unknown,
                }
            };
            let name = match property_name {
                Expression::Identifier(property) => {
                    let value = property.literal.clone();
                    Expression::String(StringLiteral { literal: property.literal, value })
                },
                other => other,
            };
            properties.push(
                PropertyAssignment { name: Box::new(name), initializer: Box::new(initializer) },
            );
            if self.token == Token::Comma {
                self.next();
            }
        }
        self.check_token_and_next(Token::RightBrace)?;
        Ok(Expression::Object(ObjectLiteral { properties }))
    }

    /// Parses the name of a property: an identifier, a string, a number, or
    /// a computed name `[..]`; the unknown expression, with nothing
    /// consumed, for any other token.
    #[verifier::rlimit(100)]
    #[verifier::spinoff_prover]
    fn parse_object_property_name(&mut self) -> (r: JSIResult<Expression>)
        requires
            old(self).parsing(),
        ensures
            final(self).step(*old(self)),
            r matches Ok(e) && !(e is Unknown) ==> final(self).advanced(*old(self)),
            r matches Ok(e) && e is Unknown ==> *final(self) == *old(self),
            r matches Ok(e) ==> e is Unknown || e is Identifier || e is String || e is Number || (
            e matches Expression::ComputedPropertyName(c) && assignment_form(*c.expression)),
            r matches Ok(e) ==> (e is Unknown <==> !(old(self).token == Token::Identifier || old(self).token == Token::String || old(self).token == Token::Number || old(self).token
                == Token::LeftBracket)),
            r matches Ok(e) ==> old(self).token == Token::Identifier ==> (e matches Expression::Identifier(
                i,
            ) && i.literal@ == old(self).literal@),
            r matches Ok(e) ==> old(self).token == Token::String ==> (e matches Expression::String(n)
                && n.literal@ == old(self).literal@ && n.value@ == old(self).literal@.subrange(
                1,
                old(self).literal@.len() - 1,
            )),
            r matches Err(e) ==> e.error_type == JSIErrorType::SyntaxError,
        decreases old(self).measure(), 30nat,
    {
        let property_name_literal = self.literal.clone();
        match self.token {
            Token::Identifier => {
                self.next();
                Ok(Expression::Identifier(IdentifierLiteral { literal: property_name_literal }))
            },
            Token::String => {
                let value = self.string_value()?;
                self.next();
                Ok(Expression::String(StringLiteral { literal: property_name_literal, value }))
            },
            Token::Number => {
                self.next();
                Ok(Expression::Number(NumberLiteral { literal: property_name_literal }))
            },
            // a computed name
            Token::LeftBracket => {
                self.next();
                let key = self.parse_expression()?;
                self.check_token_and_next(Token::RightBracket)?;
                Ok(Expression::ComputedPropertyName(ComputedPropertyName { expression: Box::new(key) }))
            },
            _ => Ok(Expression::Unknown),
        }
    }

    /// Parses a template literal: its text spans and its `${..}` expressions.
    /// The text runs from just after the opening backtick to the next
    /// backtick, or to the end of the source; without a `${` in it the
    /// literal is that text as one span.
    #[verifier::rlimit(100)]
    #[verifier::spinoff_prover]
    fn parse_template_litreal(&mut self) -> (r: JSIResult<Expression>)
        requires
            old(self).parsing(),
            old(self).token != Token::EOF,
        ensures
            final(self).step(*old(self)),
            r is Ok ==> final(self).advanced(*old(self)),
            r matches Ok(e) ==> e matches Expression::TemplateLiteral(t) && forall|i: int|
                0 <= i < t.spans@.len() ==> span_form(#[trigger] t.spans@[i]),
            r matches Err(e) ==> e.error_type == JSIErrorType::SyntaxError,
            ({
                let code = old(self).code@;
                let b = old(self).cur_char_index as int;
                let e = char_index(code, '`', b);
                !has_substitution(code, b, e) ==> (r matches Ok(x) && x matches Expression::TemplateLiteral(t)
                    && plain_spans(t.spans@, code, b, e))
            }),
        decreases old(self).measure(), 31nat,
    {
        let ghost code = self.code@;
        let ghost b = self.cur_char_index as int;
        let ghost e = char_index(code, '`', b);
        let ghost plain = !has_substitution(code, b, e);
        proof {
            lemma_char_index_bounds(code, '`', b);
        }
        let mut spans: Vec<Expression> = Vec::new();
        let mut pre_char_start_index: usize = self.cur_char_index;
        while self.cur_char != '`'
            invariant
                old(self).token != Token::EOF,
                self.step(*old(self)),
                self.scope.parent == old(self).scope.parent,
                self.measure() < old(self).measure() || self.token == old(self).token,
                pre_char_start_index <= self.cur_char_index,
                forall|i: int| 0 <= i < spans@.len() ==> span_form(#[trigger] spans@[i]),
                code == self.code@,
                code == old(self).code@,
                b == old(self).cur_char_index as int,
                e == char_index(code, '`', b),
                0 <= b <= e <= code.len(),
                forall|j: int| b <= j < e ==> #[trigger] code[j] != '`',
                e < code.len() ==> code[e] == '`',
                plain == !has_substitution(code, b, e),
                plain ==> (spans@.len() == 0 && pre_char_start_index == b && b <= self.cur_char_index
                    <= e),
            ensures
                plain ==> self.cur_char_index == e,
            decreases self.remaining(),
        {
            if !self.read() {
                break;
            }
            if self.cur_char == '$' && self.next_is('{', false) {
                assert(!plain) by {
                    if plain {
                        let j = self.cur_char_index as int;
                        assert(code[j] == '$' && code[j + 1] == '{');
                        assert(has_substitution(code, b, e));
                    }
                }
                if pre_char_start_index != self.cur_char_index {
                    let literal = chars_to_string(&self.code, pre_char_start_index, self.cur_char_index);
                    pre_char_start_index = self.cur_char_index;
                    let value = literal.clone();
                    spans.push(Expression::String(StringLiteral { literal, value }));
                }
                // '$'
                self.read();
                // '{'
                self.read();
                self.next();
                let expr = self.parse_expression()?;
                spans.push(expr);
                pre_char_start_index = self.cur_char_index;
            }
        }
        if pre_char_start_index != self.cur_char_index {
            let literal = chars_to_string(&self.code, pre_char_start_index, self.cur_char_index);
            let value = literal.clone();
            spans.push(Expression::String(StringLiteral { literal, value }));
        }
        // '`'
        self.read();
        self.next();
        Ok(Expression::TemplateLiteral(TemplateLiteralExpression { spans }))
    }

    /// Parses the arguments of a call, up to the closing parenthesis.
    #[verifier::rlimit(100)]
    #[verifier::spinoff_prover]
    fn parse_arguments(&mut self) -> (r: JSIResult<Vec<Expression>>)
        requires
            old(self).parsing(),
        ensures
            final(self).step(*old(self)),
            r is Ok ==> final(self).advanced(*old(self)),
            r matches Ok(v) ==> forall|i: int| 0 <= i < v@.len() ==> assignment_form(#[trigger] v@[i]),
            r matches Err(e) ==> e.error_type == JSIErrorType::SyntaxError,
        decreases old(self).measure(), 19nat,
    {
        self.check_token_and_next(Token::LeftParenthesis)?;
        let mut arguments: Vec<Expression> = Vec::new();
        while self.token != Token::RightParenthesis && self.token != Token::EOF
            invariant
                self.step(*old(self)),
                self.advanced(*old(self)),
                forall|i: int| 0 <= i < arguments@.len() ==> assignment_form(#[trigger] arguments@[i]),
            decreases self.measure(),
        {
            arguments.push(self.parse_expression()?);
            if self.token != Token::Comma {
                break;
            }
            self.next();
        }
        Ok(arguments)
    }

}

} // verus!
