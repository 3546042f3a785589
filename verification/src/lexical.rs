//! The lexer: from source text to tokens.

use vstd::prelude::*;
use crate::text::{append_chars, fill, is_digit, digit_of, repeat_char, string_of, string_of_range};
use crate::workspace::optional_features::Feature;
use crate::workspace::WorkSpace;
use self::context::{column_at, line_at, overflow_message, position_at, InteriorContext, NumberParts};

pub mod context;

verus! {

pub type LineNumber = u32;

/// Where a token stands in the source: the index of its first character,
/// the byte offset of that character, its line and its column.
#[derive(Clone, Copy, Debug, PartialEq, Eq, Structural)]
pub struct TokenPosition {
    pub n: usize,
    pub index: usize,
    pub line_number: LineNumber,
    pub column: u32,
}

/// The classes of characters the scanner tells apart.
#[derive(Clone, Copy, Debug, PartialEq, Eq, Structural)]
pub enum CharacterClass {
    Bos,
    Alpha,
    Numeric,
    Dot,
    BackSlash,
    Dollar,
    Plus,
    Minus,
    SingleQuote,
    DoubleQuote,
    Punctuation,
    ComposableOperator,
    WhiteSpace,
    Newline,
    Eos,
    Other,
}

/// The class of a character.
pub open spec fn class_of(c: char) -> CharacterClass {
    if ('a' <= c && c <= 'z') || ('A' <= c && c <= 'Z') {
        CharacterClass::Alpha
    } else if '0' <= c && c <= '9' {
        CharacterClass::Numeric
    } else if c == '\\' {
        CharacterClass::BackSlash
    } else if c == '.' {
        CharacterClass::Dot
    } else if c == '$' {
        CharacterClass::Dollar
    } else if c == '+' {
        CharacterClass::Plus
    } else if c == '-' {
        CharacterClass::Minus
    } else if c == '\'' {
        CharacterClass::SingleQuote
    } else if c == '"' {
        CharacterClass::DoubleQuote
    } else if c == '(' || c == ')' || c == '[' || c == ']' || c == ',' || c == ';' || c == '{' || c == '}' {
        CharacterClass::Punctuation
    } else if c == '*' || c == '>' || c == '=' || c == '<' || c == '^' || c == '_' || c == '&' || c
        == '#' || c == '/' || c == '@' || c == ':' || c == '!' || c == '~' || c == '?' || c == '%' {
        CharacterClass::ComposableOperator
    } else if c == ' ' || c == '\t' || c == '\r' {
        CharacterClass::WhiteSpace
    } else if c == '\n' {
        CharacterClass::Newline
    } else {
        CharacterClass::Other
    }
}

pub fn get_character_class(c: char) -> (r: CharacterClass)
    ensures
        r == class_of(c),
{
    match c {
        'a'..='z' => CharacterClass::Alpha,
        'A'..='Z' => CharacterClass::Alpha,
        '0'..='9' => CharacterClass::Numeric,
        '\\' => CharacterClass::BackSlash,
        '.' => CharacterClass::Dot,
        '$' => CharacterClass::Dollar,
        '+' => CharacterClass::Plus,
        '-' => CharacterClass::Minus,
        '\'' => CharacterClass::SingleQuote,
        '"' => CharacterClass::DoubleQuote,
        '(' | ')' | '[' | ']' | ',' | ';' | '{' | '}' => CharacterClass::Punctuation,
        '*' | '>' | '=' | '<' | '^' | '_' | '&' | '#' | '/' | '@' | ':' | '!' | '~' | '?' | '%' => {
            CharacterClass::ComposableOperator
        },
        ' ' | '\t' | '\r' => CharacterClass::WhiteSpace,
        '\n' => CharacterClass::Newline,
        _ => CharacterClass::Other,
    }
}

/// A number with a fraction or an exponent, as it was written: the digits
/// before and behind the decimal point, each as a number, the count of the
/// digits behind it, and the exponent. `bits` is the IEEE-754 form of the
/// value; the lexer leaves it zero, and whoever owns floating-point
/// arithmetic fills it in before the token is parsed.
#[derive(Clone, Copy, Debug, PartialEq, Eq, Structural)]
pub struct NumberLiteral {
    pub is_negative: bool,
    pub integer_value: i64,
    pub fraction_value: i64,
    pub fraction_digits: i32,
    pub exponent: i32,
    pub bits: Option<u64>,
}

/// The kinds of tokens, with what each holds.
#[derive(Debug)]
pub enum TokenType {
    Punctuation(String),
    Integer(i32),
    Double(NumberLiteral),
    Real(NumberLiteral),
    Identifier(String),
    Operator(String),
    Character(char),
    String(String),
    Comment,
    EOL,
    EOS,
}

/// A token.
#[derive(Debug)]
pub struct Token {
    pub token_type: TokenType,
    pub string_value: String,
    pub starting_position: TokenPosition,
}

/// The kinds of tokens, as plain data.
pub enum TokenKind {
    Punctuation(Seq<char>),
    Integer(i32),
    Double(NumberLiteral),
    Real(NumberLiteral),
    Identifier(Seq<char>),
    Operator(Seq<char>),
    Character(char),
    Text(Seq<char>),
    Comment,
    EOL,
    EOS,
}

/// A token as plain data: its kind, its spelling and its position.
pub struct TokenModel {
    pub kind: TokenKind,
    pub text: Seq<char>,
    pub position: TokenPosition,
}

impl TokenType {
    pub open spec fn kind(&self) -> TokenKind {
        match self {
            TokenType::Punctuation(p) => TokenKind::Punctuation(p@),
            TokenType::Integer(v) => TokenKind::Integer(*v),
            TokenType::Double(v) => TokenKind::Double(*v),
            TokenType::Real(v) => TokenKind::Real(*v),
            TokenType::Identifier(i) => TokenKind::Identifier(i@),
            TokenType::Operator(o) => TokenKind::Operator(o@),
            TokenType::Character(c) => TokenKind::Character(*c),
            TokenType::String(t) => TokenKind::Text(t@),
            TokenType::Comment => TokenKind::Comment,
            TokenType::EOL => TokenKind::EOL,
            TokenType::EOS => TokenKind::EOS,
        }
    }
}

impl Clone for TokenType {
    fn clone(&self) -> (r: Self)
        ensures
            r.kind() == self.kind(),
    {
        match self {
            TokenType::Punctuation(p) => TokenType::Punctuation(p.clone()),
            TokenType::Integer(v) => TokenType::Integer(*v),
            TokenType::Double(v) => TokenType::Double(*v),
            TokenType::Real(v) => TokenType::Real(*v),
            TokenType::Identifier(i) => TokenType::Identifier(i.clone()),
            TokenType::Operator(o) => TokenType::Operator(o.clone()),
            TokenType::Character(c) => TokenType::Character(*c),
            TokenType::String(t) => TokenType::String(t.clone()),
            TokenType::Comment => TokenType::Comment,
            TokenType::EOL => TokenType::EOL,
            TokenType::EOS => TokenType::EOS,
        }
    }
}

impl Token {
    pub open spec fn model(&self) -> TokenModel {
        TokenModel {
            kind: self.token_type.kind(),
            text: self.string_value@,
            position: self.starting_position,
        }
    }
}

impl Clone for Token {
    fn clone(&self) -> (r: Self)
        ensures
            r.model() == self.model(),
    {
        Token {
            token_type: self.token_type.clone(),
            string_value: self.string_value.clone(),
            starting_position: self.starting_position,
        }
    }
}

/// The models of a list of tokens.
pub open spec fn models(tokens: Seq<Token>) -> Seq<TokenModel> {
    Seq::new(tokens.len(), |i: int| tokens[i].model())
}

/// The class of the character at index `k`; `Eos` behind the text.
pub open spec fn class_at(s: Seq<char>, k: int) -> CharacterClass {
    if 0 <= k < s.len() {
        class_of(s[k])
    } else {
        CharacterClass::Eos
    }
}

/// Whether a character of this class may stand inside an identifier.
pub open spec fn is_word_class(c: CharacterClass) -> bool {
    c == CharacterClass::Alpha || c == CharacterClass::Numeric
}

/// Whether a character of this class may stand in an operator.
pub open spec fn is_operator_class(c: CharacterClass) -> bool {
    c == CharacterClass::Dollar || c == CharacterClass::Minus || c == CharacterClass::Plus || c
        == CharacterClass::BackSlash || c == CharacterClass::ComposableOperator
}

/// Where the identifier that is being read at index `k` ends. A dot
/// belongs to it only if a letter or a digit follows.
pub open spec fn identifier_end(s: Seq<char>, k: int) -> int
    decreases s.len() - k,
{
    if k < 0 || k >= s.len() {
        k
    } else if is_word_class(class_at(s, k)) {
        identifier_end(s, k + 1)
    } else if class_at(s, k) == CharacterClass::Dot && is_word_class(class_at(s, k + 1)) {
        identifier_end(s, k + 1)
    } else {
        k
    }
}

/// Reads the digits from index `k` on into the integer part. Hands back
/// where they end and the number; no number where it outgrows 64 bits.
pub open spec fn integer_run(s: Seq<char>, k: int, p: NumberParts) -> (int, Option<NumberParts>)
    decreases s.len() - k,
{
    if 0 <= k < s.len() && class_at(s, k) == CharacterClass::Numeric {
        match p.with_integer_digit(digit_of(s[k])) {
            Some(q) => integer_run(s, k + 1, q),
            None => (k, None),
        }
    } else {
        (k, Some(p))
    }
}

/// Reads the digits from index `k` on into the fraction. Hands back
/// where they end and the number.
pub open spec fn fraction_run(s: Seq<char>, k: int, p: NumberParts) -> (int, NumberParts)
    decreases s.len() - k,
{
    if 0 <= k < s.len() && class_at(s, k) == CharacterClass::Numeric {
        fraction_run(s, k + 1, p.with_fractional_digit(digit_of(s[k])))
    } else {
        (k, p)
    }
}

/// Reads the digits from index `k` on into the exponent. Hands back
/// where they end and the number; no number where the exponent outgrows 32 bits.
pub open spec fn exponent_run(s: Seq<char>, k: int, p: NumberParts) -> (int, Option<NumberParts>)
    decreases s.len() - k,
{
    if 0 <= k < s.len() && class_at(s, k) == CharacterClass::Numeric {
        match p.with_exponent_digit(digit_of(s[k])) {
            Some(q) => exponent_run(s, k + 1, q),
            None => (k, None),
        }
    } else {
        (k, Some(p))
    }
}

/// The literal that the parts of a number make.
pub open spec fn literal_of(p: NumberParts) -> NumberLiteral {
    NumberLiteral {
        is_negative: false,
        integer_value: p.integer_value,
        fraction_value: p.fractions_integer_value,
        fraction_digits: p.fractional_digit_count,
        exponent: if p.exponent_sign > 0 {
            p.exponent_value
        } else {
            (-p.exponent_value) as i32
        },
        bits: None,
    }
}

/// The kind of token a number with a fraction or an exponent makes.
pub open spec fn float_kind(p: NumberParts) -> TokenKind {
    if p.is_double {
        TokenKind::Double(literal_of(p))
    } else {
        TokenKind::Real(literal_of(p))
    }
}

/// Where the line that starts at index `from` ends: at its newline, or at
/// the end of the text.
pub open spec fn line_end(s: Seq<char>, from: int) -> int
    decreases s.len() - from,
{
    if from < 0 || from >= s.len() {
        s.len() as int
    } else if s[from] == '\n' {
        from
    } else {
        line_end(s, from + 1)
    }
}

/// The line that starts at index `from`, without its newline and
/// without the carriage return before that newline.
pub open spec fn line_text(s: Seq<char>, from: int) -> Seq<char> {
    let e = line_end(s, from);
    let raw = s.subrange(from, e);
    if e < s.len() && raw.len() > 0 && raw.last() == '\r' {
        raw.drop_last()
    } else {
        raw
    }
}

/// The line that is `remaining` lines on from the line that starts at
/// index `from`, counting that line as the first; the last line of the
/// text if there are fewer.
pub open spec fn picked_line(s: Seq<char>, from: int, remaining: int) -> Seq<char>
    decreases s.len() - from,
{
    let e = line_end(s, from);
    if remaining <= 1 || e + 1 >= s.len() || e < from {
        line_text(s, from)
    } else {
        picked_line(s, e + 1, remaining - 1)
    }
}

/// The line of the source on which the character at index `k` stands.
pub open spec fn source_line(s: Seq<char>, k: int) -> Seq<char> {
    if s.len() == 0 {
        s
    } else {
        picked_line(s, 0, line_at(s, k))
    }
}

/// An error message with its context: an empty line, the line of the
/// source on which the character at index `k` stands, a caret under that
/// character, and the message.
pub open spec fn error_text(s: Seq<char>, k: int, message: Seq<char>) -> Seq<char> {
    seq!['\n'] + source_line(s, k) + seq!['\n'] + fill(' ', column_at(s, k) - 1) + seq!['^', '\n']
        + message
}

/// What reading one token comes to.
pub enum Scanned {
    /// A token of the given kind that ends before the given index.
    Token(TokenKind, int),
    /// No token; the message says why.
    Fail(Seq<char>),
}

/// The message for an integer that does not fit 32 bits.
pub open spec fn integer_overflow_message() -> Seq<char> {
    "integer overflow"@
}

/// Reads the digits of an exponent, of which the first stands at index `k`.
pub open spec fn scan_exponent_value(s: Seq<char>, k: int, p: NumberParts) -> Scanned {
    if class_at(s, k) == CharacterClass::Numeric {
        match exponent_run(s, k, p) {
            (e, Some(q)) => Scanned::Token(float_kind(q), e),
            (e, None) => Scanned::Fail(overflow_message()),
        }
    } else {
        Scanned::Fail(error_text(s, k, "Invalid exponent value, expected a number"@))
    }
}

/// Reads an exponent behind its letter: a sign, if there is one, and digits.
pub open spec fn scan_exponent(s: Seq<char>, k: int, p: NumberParts) -> Scanned {
    let c = class_at(s, k);
    if c == CharacterClass::Numeric {
        scan_exponent_value(s, k, p)
    } else if c == CharacterClass::Minus {
        scan_exponent_value(s, k + 1, NumberParts { exponent_sign: -1i32, ..p })
    } else if c == CharacterClass::Plus {
        scan_exponent_value(s, k + 1, p)
    } else {
        Scanned::Fail(error_text(s, k, "Invalid exponent, expected a sign or a number"@))
    }
}

/// Whether the character at index `k` is one of two letters.
pub open spec fn letter_at(s: Seq<char>, k: int, small: char, capital: char) -> bool {
    0 <= k < s.len() && (s[k] == small || s[k] == capital)
}

/// Reads a fraction, of which the first digit, if there is one, stands at
/// index `k`, and the exponent that may follow it.
pub open spec fn scan_fraction(s: Seq<char>, k: int, p: NumberParts) -> Scanned {
    let (e, q) = fraction_run(s, k, p);
    if letter_at(s, e, 'd', 'D') {
        scan_exponent(s, e + 1, NumberParts { is_double: true, ..q })
    } else if letter_at(s, e, 'e', 'E') {
        scan_exponent(s, e + 1, q)
    } else {
        Scanned::Token(float_kind(q), e)
    }
}

/// The integer token that ends before index `e`; fails where the value
/// does not fit 32 bits.
pub open spec fn integer_token(p: NumberParts, e: int) -> Scanned {
    if p.integer_value > i32::MAX {
        Scanned::Fail(integer_overflow_message())
    } else {
        Scanned::Token(TokenKind::Integer(p.integer_value as i32), e)
    }
}

/// Reads a number that starts with a digit at index `k`.
pub open spec fn scan_integer(s: Seq<char>, k: int) -> Scanned {
    match integer_run(s, k, NumberParts::blank()) {
        (e, None) => Scanned::Fail(overflow_message()),
        (e, Some(p)) => {
            if letter_at(s, e, 'd', 'D') {
                scan_exponent(s, e + 1, NumberParts { is_double: true, ..p })
            } else if letter_at(s, e, 'e', 'E') {
                scan_exponent(s, e + 1, p)
            } else if class_at(s, e) == CharacterClass::Dot {
                scan_fraction(s, e + 1, p)
            } else {
                integer_token(p, e)
            }
        },
    }
}

/// Where the string ends whose inside is being read at index `k`: behind
/// its closing quote. Two quotes in a row are one quote of the string.
/// `-1` where the text ends before the string does.
pub open spec fn string_end(s: Seq<char>, k: int) -> int
    decreases s.len() - k,
{
    if k < 0 || k >= s.len() {
        -1
    } else if s[k] == '"' {
        if k + 1 < s.len() && s[k + 1] == '"' {
            string_end(s, k + 2)
        } else {
            k + 1
        }
    } else {
        string_end(s, k + 1)
    }
}

/// The text with each pair of quotes made one quote.
pub open spec fn undoubled(t: Seq<char>) -> Seq<char>
    decreases t.len(),
{
    if t.len() == 0 {
        t
    } else if t.len() >= 2 && t[0] == '"' && t[1] == '"' {
        seq!['"'] + undoubled(t.skip(2))
    } else {
        seq![t[0]] + undoubled(t.skip(1))
    }
}

/// Where the comment ends that is being read at index `k`: behind the
/// next newline, or at the end of the text.
pub open spec fn comment_end(s: Seq<char>, k: int) -> int
    decreases s.len() - k,
{
    if k < 0 || k >= s.len() {
        k
    } else if s[k] == '\n' {
        k + 1
    } else {
        comment_end(s, k + 1)
    }
}

/// Where the run of operator characters ends that began at index `start`
/// and is being read at index `k`, and whether it is the start of a
/// comment: three dots.
pub open spec fn operator_run(s: Seq<char>, start: int, k: int) -> (int, bool)
    decreases s.len() - k,
{
    if k < 0 || k >= s.len() {
        (k, false)
    } else if is_operator_class(class_at(s, k)) {
        operator_run(s, start, k + 1)
    } else if class_at(s, k) == CharacterClass::Dot {
        if s.subrange(start, k + 1) == seq!['.', '.', '.'] {
            (k + 1, true)
        } else {
            operator_run(s, start, k + 1)
        }
    } else {
        (k, false)
    }
}

/// Where the operator ends that begins at index `start`: the run of
/// operator characters up to index `e` is cut back, one character at a
/// time, until it is the name of a function or a single character.
pub open spec fn operator_end(s: Seq<char>, ws: WorkSpace, start: int, e: int) -> int
    decreases e - start,
{
    if e - start > 1 && !ws.knows_function(s.subrange(start, e)) {
        operator_end(s, ws, start, e - 1)
    } else {
        e
    }
}

/// Reads an operator, or the comment that three dots start.
pub open spec fn scan_operator(s: Seq<char>, ws: WorkSpace, k: int) -> Scanned {
    let (e, comment) = operator_run(s, k, k);
    if comment {
        Scanned::Token(TokenKind::Comment, comment_end(s, e))
    } else {
        let end = operator_end(s, ws, k, e);
        Scanned::Token(TokenKind::Operator(s.subrange(k, end)), end)
    }
}

/// Reads the token that starts at index `k`, which holds a character that
/// is no white space.
pub open spec fn token_at(s: Seq<char>, ws: WorkSpace, k: int) -> Scanned {
    let c = class_at(s, k);
    if c == CharacterClass::Alpha {
        let e = identifier_end(s, k);
        Scanned::Token(TokenKind::Identifier(s.subrange(k, e)), e)
    } else if c == CharacterClass::Numeric {
        scan_integer(s, k)
    } else if c == CharacterClass::Dot {
        if class_at(s, k + 1) == CharacterClass::Numeric {
            scan_fraction(s, k + 1, NumberParts::blank())
        } else {
            scan_operator(s, ws, k)
        }
    } else if c == CharacterClass::SingleQuote {
        if k + 1 < s.len() {
            Scanned::Token(TokenKind::Character(s[k + 1]), k + 2)
        } else {
            Scanned::Fail(error_text(s, s.len() as int, "Missing character following single quote"@))
        }
    } else if c == CharacterClass::DoubleQuote {
        let e = string_end(s, k + 1);
        if e < 0 {
            Scanned::Fail(error_text(s, s.len() as int, "Expected double-quote"@))
        } else {
            Scanned::Token(TokenKind::Text(undoubled(s.subrange(k + 1, e - 1))), e)
        }
    } else if c == CharacterClass::Punctuation || c == CharacterClass::Other {
        Scanned::Token(TokenKind::Punctuation(s.subrange(k, k + 1)), k + 1)
    } else if is_operator_class(c) {
        scan_operator(s, ws, k)
    } else {
        Scanned::Token(TokenKind::EOL, k + 1)
    }
}

/// The tokens of the text from index `k` on, the last of them the end of
/// the text; or the message of the first token that cannot be read.
pub open spec fn lex_from(s: Seq<char>, ws: WorkSpace, k: int) -> Result<Seq<TokenModel>, Seq<char>>
    decreases s.len() - k,
{
    if k < 0 || k >= s.len() {
        Ok(seq![TokenModel { kind: TokenKind::EOS, text: Seq::empty(), position: position_at(s, k) }])
    } else if class_at(s, k) == CharacterClass::WhiteSpace {
        lex_from(s, ws, k + 1)
    } else {
        match token_at(s, ws, k) {
            Scanned::Token(kind, end) => {
                if k < end <= s.len() {
                    match lex_from(s, ws, end) {
                        Ok(rest) => Ok(
                            seq![
                                TokenModel {
                                    kind: kind,
                                    text: s.subrange(k, end),
                                    position: position_at(s, k),
                                },
                            ] + rest,
                        ),
                        Err(m) => Err(m),
                    }
                } else {
                    Err(Seq::empty())
                }
            },
            Scanned::Fail(m) => Err(m),
        }
    }
}

/// The lexer: a scanner over the source, and the workspace whose
/// functions decide where an operator ends.
pub struct Lexer<'a> {
    pub context: InteriorContext,
    pub workspace: &'a WorkSpace,
}

/// The tokens `older`, followed by one token of the given kind, spelling and position.
pub open spec fn one_more(
    older: Seq<Token>,
    newer: Seq<Token>,
    kind: TokenKind,
    text: Seq<char>,
    position: TokenPosition,
) -> bool {
    &&& newer.len() == older.len() + 1
    &&& newer.drop_last() == older
    &&& newer.last().model() == (TokenModel { kind: kind, text: text, position: position })
}

/// What a scanning routine owes: the scanner stays in order over the same
/// text; where a token is wanted, the token is added, its spelling
/// reaching from the start of the lexeme to where the token ends, and the
/// scanner stands where the token ends; where a failure is wanted, the
/// routine fails with its message.
pub open spec fn scanned_as(
    before: Lexer,
    after: Lexer,
    older: Seq<Token>,
    newer: Seq<Token>,
    r: Result<bool, String>,
    want: Scanned,
) -> bool {
    &&& after.context.wf()
    &&& after.context.text() == before.context.text()
    &&& after.workspace == before.workspace
    &&& match want {
        Scanned::Token(kind, end) => {
            &&& r is Ok
            &&& after.context.place() == end
            &&& end > before.context.lexeme_place()
            &&& one_more(
                older,
                newer,
                kind,
                before.context.text().subrange(before.context.lexeme_place(), end),
                before.context.lexeme_position(),
            )
        },
        Scanned::Fail(m) => r is Err && r->Err_0@ == m,
    }
}

/// The text `t[from..to]` with each pair of quotes made one quote.
fn undouble(t: &Vec<char>, from: usize, to: usize) -> (r: String)
    requires
        from <= to <= t.len(),
    ensures
        r@ == undoubled(t@.subrange(from as int, to as int)),
{
    let mut out: Vec<char> = Vec::new();
    let mut i: usize = from;
    let ghost whole = t@.subrange(from as int, to as int);
    assert(whole.skip(0) =~= whole);
    while i < to
        invariant
            from <= i <= to <= t.len(),
            whole == t@.subrange(from as int, to as int),
            undoubled(whole) == out@ + undoubled(whole.skip(i - from)),
        decreases to - i,
    {
        let ghost rest = whole.skip(i - from);
        assert(rest[0] == t@[i as int]);
        if t[i] == '"' && i + 1 < to && t[i + 1] == '"' {
            assert(rest[1] == t@[i + 1]);
            assert(rest.skip(2) =~= whole.skip(i + 2 - from));
            out.push('"');
            i += 2;
        } else {
            assert(rest.skip(1) =~= whole.skip(i + 1 - from));
            out.push(t[i]);
            i += 1;
        }
        assert(undoubled(whole) =~= out@ + undoubled(whole.skip(i - from)));
    }
    assert(undoubled(whole) =~= out@);
    string_of(&out)
}

/// The index at which the line that starts at `from` ends.
fn find_line_end(s: &Vec<char>, from: usize) -> (e: usize)
    requires
        from <= s.len(),
    ensures
        e == line_end(s@, from as int),
        from <= e <= s.len(),
{
    let mut e: usize = from;
    while e < s.len() && s[e] != '\n'
        invariant
            from <= e <= s.len(),
            line_end(s@, from as int) == line_end(s@, e as int),
        decreases s.len() - e,
    {
        e += 1;
    }
    e
}

/// The line of the source that an error at a position of the given line
/// number is shown with.
pub fn pick_line(s: &Vec<char>, line_number: u32) -> (r: Vec<char>)
    ensures
        r@ == if s@.len() == 0 {
            s@
        } else {
            picked_line(s@, 0, line_number as int)
        },
{
    let mut out: Vec<char> = Vec::new();
    if s.len() == 0 {
        assert(out@ =~= s@);
        return out;
    }
    let mut from: usize = 0;
    let mut remaining: u32 = line_number;
    loop
        invariant
            from < s.len(),
            out@.len() == 0,
            picked_line(s@, 0, line_number as int) == picked_line(s@, from as int, remaining as int),
        decreases s.len() - from,
    {
        let e = find_line_end(s, from);
        if remaining <= 1 || e >= s.len() - 1 {
            let mut end = e;
            if e < s.len() && end > from && s[end - 1] == '\r' {
                end = end - 1;
            }
            let mut i: usize = from;
            assert(out@ =~= s@.subrange(from as int, i as int));
            while i < end
                invariant
                    from <= i <= end <= s.len(),
                    out@ == s@.subrange(from as int, i as int),
                decreases end - i,
            {
                out.push(s[i]);
                i += 1;
                assert(out@ =~= s@.subrange(from as int, i as int));
            }
            proof {
                let raw = s@.subrange(from as int, e as int);
                if e < s.len() && raw.len() > 0 && raw.last() == '\r' {
                    assert(raw.drop_last() =~= s@.subrange(from as int, end as int));
                }
            }
            return out;
        }
        from = e + 1;
        remaining = remaining - 1;
    }
}

impl<'a> Lexer<'a> {
    /// Whether the lexer is in order.
    pub open spec fn ready(&self) -> bool {
        self.context.wf() && self.workspace.tables_wf()
    }

    /// Adds the token of the current lexeme.
    fn push_token(&self, tokens: &mut Vec<Token>, token_type: TokenType)
        requires
            self.context.wf(),
        ensures
            one_more(
                old(tokens)@,
                final(tokens)@,
                token_type.kind(),
                self.context.lexeme(),
                self.context.lexeme_position(),
            ),
    {
        tokens.push(
            Token {
                token_type: token_type,
                string_value: self.context.get_lexeme_source(),
                starting_position: self.context.get_starting_position(),
            },
        );
        assert(tokens@.drop_last() =~= old(tokens)@);
    }

    /// The failure to report at the current character.
    fn error(&self, message: &str) -> (r: Result<bool, String>)
        requires
            self.context.wf(),
        ensures
            r is Err,
            r->Err_0@ == error_text(self.context.text(), self.context.place(), message@),
    {
        let current_position = self.context.get_current_position();
        let line = pick_line(self.context.as_source(), current_position.line_number);
        let column: u32 = if current_position.column > 0 {
            current_position.column - 1
        } else {
            0
        };
        let mut out: Vec<char> = Vec::new();
        out.push('\n');
        append_chars(&mut out, &line);
        out.push('\n');
        let blanks = repeat_char(' ', column as usize);
        append_chars(&mut out, &blanks);
        out.push('^');
        out.push('\n');
        append_chars(&mut out, &crate::text::chars_of(message));
        proof {
            self.context.lemma_in_order();
            crate::lexical::context::lemma_position_bounds(self.context.text(), self.context.place());
            assert(blanks@ =~= fill(' ', column_at(self.context.text(), self.context.place()) - 1));
            assert(out@ =~= error_text(self.context.text(), self.context.place(), message@));
        }
        Err(string_of(&out))
    }

    /// Adds the token of a number with a fraction or an exponent.
    fn push_float_token(&self, tokens: &mut Vec<Token>)
        requires
            self.context.wf(),
        ensures
            one_more(
                old(tokens)@,
                final(tokens)@,
                float_kind(self.context.number()),
                self.context.lexeme(),
                self.context.lexeme_position(),
            ),
    {
        let p = self.context.get_number();
        proof {
            self.context.lemma_in_order();
        }
        let literal = NumberLiteral {
            is_negative: false,
            integer_value: p.integer_value,
            fraction_value: p.fractions_integer_value,
            fraction_digits: p.fractional_digit_count,
            exponent: if p.exponent_sign > 0 {
                p.exponent_value
            } else {
                -p.exponent_value
            },
            bits: None,
        };
        if self.context.is_double() {
            self.push_token(tokens, TokenType::Double(literal));
        } else {
            self.push_token(tokens, TokenType::Real(literal));
        }
    }

    #[verifier::loop_isolation(false)]
    fn exponent_value(&mut self, tokens: &mut Vec<Token>) -> (r: Result<bool, String>)
        requires
            old(self).ready(),
        ensures
            scanned_as(
                *old(self),
                *final(self),
                old(tokens)@,
                final(tokens)@,
                r,
                scan_exponent_value(old(self).context.text(), old(self).context.place(), old(self).context.number()),
            ),
    {
        let ghost s = self.context.text();
        let ghost k = self.context.place();
        let ghost p = self.context.number();
        proof {
            self.context.lemma_in_order();
        }
        if self.context.get_current_character_class() != CharacterClass::Numeric {
            return self.error("Invalid exponent value, expected a number");
        }
        loop
            invariant
                self.context.wf(),
                self.context.text() == s,
                self.workspace == old(self).workspace,
                self.context.lexeme_place() == old(self).context.lexeme_place(),
                self.context.lexeme_position() == old(self).context.lexeme_position(),
                k <= self.context.place() <= s.len(),
                self.context.place() > k || self.context.class_here() == CharacterClass::Numeric,
                exponent_run(s, k, p) == exponent_run(s, self.context.place(), self.context.number()),
                tokens@ == old(tokens)@,
            decreases s.len() - self.context.place(),
        {
            proof {
                self.context.lemma_in_order();
            }
            if self.context.get_current_character_class() == CharacterClass::Numeric {
                match self.context.add_exponential_digit() {
                    Ok(()) => {},
                    Err(e) => {
                        return Err(e);
                    },
                }
                self.context.next();
            } else {
                self.push_float_token(tokens);
                return Ok(true);
            }
        }
    }

    #[verifier::loop_isolation(false)]
    fn exponent(&mut self, tokens: &mut Vec<Token>) -> (r: Result<bool, String>)
        requires
            old(self).ready(),
        ensures
            scanned_as(
                *old(self),
                *final(self),
                old(tokens)@,
                final(tokens)@,
                r,
                scan_exponent(old(self).context.text(), old(self).context.place(), old(self).context.number()),
            ),
    {
        proof {
            self.context.lemma_in_order();
        }
        let c = self.context.get_current_character_class();
        if c == CharacterClass::Numeric {
            self.exponent_value(tokens)
        } else if c == CharacterClass::Minus {
            self.context.next();
            self.context.set_exponent_sign(-1);
            self.exponent_value(tokens)
        } else if c == CharacterClass::Plus {
            self.context.next();
            self.exponent_value(tokens)
        } else {
            self.error("Invalid exponent, expected a sign or a number")
        }
    }

    #[verifier::loop_isolation(false)]
    fn fraction(&mut self, tokens: &mut Vec<Token>) -> (r: Result<bool, String>)
        requires
            old(self).ready(),
            old(self).context.number().fractional_digit_count <= old(self).context.place(),
            old(self).context.place() > old(self).context.lexeme_place(),
        ensures
            scanned_as(
                *old(self),
                *final(self),
                old(tokens)@,
                final(tokens)@,
                r,
                scan_fraction(old(self).context.text(), old(self).context.place(), old(self).context.number()),
            ),
    {
        let ghost s = self.context.text();
        let ghost k = self.context.place();
        let ghost p = self.context.number();
        proof {
            self.context.lemma_in_order();
        }
        loop
            invariant
                self.context.wf(),
                self.context.text() == s,
                self.workspace == old(self).workspace,
                self.context.lexeme_place() == old(self).context.lexeme_place(),
                self.context.lexeme_position() == old(self).context.lexeme_position(),
                k <= self.context.place() <= s.len(),
                self.context.number().fractional_digit_count <= self.context.place(),
                fraction_run(s, k, p) == fraction_run(s, self.context.place(), self.context.number()),
                tokens@ == old(tokens)@,
            decreases s.len() - self.context.place(),
        {
            let c = self.context.get_current_character_class();
            if c == CharacterClass::Alpha {
                let ch = self.context.get_current_character();
                if ch == 'd' || ch == 'D' {
                    self.context.set_is_double();
                    self.context.next();
                    return self.exponent(tokens);
                } else if ch == 'e' || ch == 'E' {
                    self.context.next();
                    return self.exponent(tokens);
                } else {
                    self.push_float_token(tokens);
                    return Ok(true);
                }
            } else if c == CharacterClass::Numeric {
                self.context.add_fractional_digit();
                self.context.next();
            } else {
                self.push_float_token(tokens);
                return Ok(true);
            }
        }
    }

    #[verifier::loop_isolation(false)]
    fn identifier(&mut self, tokens: &mut Vec<Token>) -> (r: Result<bool, String>)
        requires
            old(self).ready(),
            old(self).context.place() == old(self).context.lexeme_place(),
            old(self).context.class_here() == CharacterClass::Alpha,
        ensures
            scanned_as(
                *old(self),
                *final(self),
                old(tokens)@,
                final(tokens)@,
                r,
                token_at(old(self).context.text(), *old(self).workspace, old(self).context.place()),
            ),
    {
        let ghost s = self.context.text();
        let ghost k = self.context.place();
        proof {
            self.context.lemma_in_order();
        }
        loop
            invariant
                self.context.wf(),
                self.context.text() == s,
                self.workspace == old(self).workspace,
                self.context.lexeme_place() == k,
                self.context.lexeme_position() == old(self).context.lexeme_position(),
                k <= self.context.place() <= s.len(),
                self.context.place() > k || self.context.class_here() == CharacterClass::Alpha,
                identifier_end(s, k) == identifier_end(s, self.context.place()),
                tokens@ == old(tokens)@,
            decreases s.len() - self.context.place(),
        {
            let c = self.context.get_current_character_class();
            if c == CharacterClass::Alpha || c == CharacterClass::Numeric {
                self.context.next();
            } else if c == CharacterClass::Dot {
                let n = self.context.peek();
                if n == CharacterClass::Alpha || n == CharacterClass::Numeric {
                    self.context.next();
                } else {
                    let name = self.context.get_lexeme_source();
                    self.push_token(tokens, TokenType::Identifier(name));
                    return Ok(true);
                }
            } else {
                let name = self.context.get_lexeme_source();
                self.push_token(tokens, TokenType::Identifier(name));
                return Ok(true);
            }
        }
    }

    /// Adds the token of an integer; fails where it does not fit 32 bits.
    fn push_integer_token(&self, tokens: &mut Vec<Token>) -> (r: Result<bool, String>)
        requires
            self.context.wf(),
        ensures
            match integer_token(self.context.number(), self.context.place()) {
                Scanned::Token(kind, end) => r is Ok && one_more(
                    old(tokens)@,
                    final(tokens)@,
                    kind,
                    self.context.lexeme(),
                    self.context.lexeme_position(),
                ),
                Scanned::Fail(m) => r is Err && r->Err_0@ == m,
            },
    {
        let v = self.context.get_integer_value();
        proof {
            self.context.lemma_in_order();
        }
        if v > i32::MAX as i64 || v < i32::MIN as i64 {
            return Err(String::from_str("integer overflow"));
        }
        self.push_token(tokens, TokenType::Integer(v as i32));
        Ok(true)
    }

    #[verifier::loop_isolation(false)]
    fn integer(&mut self, tokens: &mut Vec<Token>) -> (r: Result<bool, String>)
        requires
            old(self).ready(),
            old(self).context.place() == old(self).context.lexeme_place(),
            old(self).context.class_here() == CharacterClass::Numeric,
        ensures
            scanned_as(
                *old(self),
                *final(self),
                old(tokens)@,
                final(tokens)@,
                r,
                token_at(old(self).context.text(), *old(self).workspace, old(self).context.place()),
            ),
    {
        let ghost s = self.context.text();
        let ghost k = self.context.place();
        self.context.clear_number();
        proof {
            self.context.lemma_in_order();
        }
        loop
            invariant
                self.context.wf(),
                self.context.text() == s,
                self.workspace == old(self).workspace,
                self.context.lexeme_place() == k,
                self.context.lexeme_position() == old(self).context.lexeme_position(),
                k <= self.context.place() <= s.len(),
                self.context.place() > k || self.context.class_here() == CharacterClass::Numeric,
                self.context.number().fractional_digit_count == 0,
                integer_run(s, k, NumberParts::blank()) == integer_run(
                    s,
                    self.context.place(),
                    self.context.number(),
                ),
                tokens@ == old(tokens)@,
            decreases s.len() - self.context.place(),
        {
            let c = self.context.get_current_character_class();
            if c == CharacterClass::Alpha {
                let ch = self.context.get_current_character();
                if ch == 'd' || ch == 'D' {
                    self.context.set_is_double();
                    self.context.next();
                    return self.exponent(tokens);
                } else if ch == 'e' || ch == 'E' {
                    self.context.next();
                    return self.exponent(tokens);
                } else {
                    return self.push_integer_token(tokens);
                }
            } else if c == CharacterClass::Numeric {
                match self.context.add_integer_digit() {
                    Ok(()) => {},
                    Err(e) => {
                        return Err(e);
                    },
                }
                self.context.next();
            } else if c == CharacterClass::Dot {
                self.context.next();
                return self.fraction(tokens);
            } else {
                return self.push_integer_token(tokens);
            }
        }
    }

    fn character(&mut self, tokens: &mut Vec<Token>) -> (r: Result<bool, String>)
        requires
            old(self).ready(),
            old(self).context.place() == old(self).context.lexeme_place(),
            old(self).context.class_here() == CharacterClass::SingleQuote,
        ensures
            scanned_as(
                *old(self),
                *final(self),
                old(tokens)@,
                final(tokens)@,
                r,
                token_at(old(self).context.text(), *old(self).workspace, old(self).context.place()),
            ),
    {
        proof {
            self.context.lemma_in_order();
        }
        self.context.literal_next();
        if self.context.get_current_character_class() == CharacterClass::Eos {
            return self.error("Missing character following single quote");
        }
        let c = self.context.get_current_character();
        self.context.next();
        self.push_token(tokens, TokenType::Character(c));
        Ok(true)
    }

    /// Reads a comment to its end. The scanner stands behind the three
    /// dots that started it.
    fn comment(&mut self, tokens: &mut Vec<Token>) -> (r: Result<bool, String>)
        requires
            old(self).ready(),
            old(self).context.place() > old(self).context.lexeme_place(),
        ensures
            scanned_as(
                *old(self),
                *final(self),
                old(tokens)@,
                final(tokens)@,
                r,
                Scanned::Token(
                    TokenKind::Comment,
                    comment_end(old(self).context.text(), old(self).context.place()),
                ),
            ),
    {
        let ghost s = self.context.text();
        let ghost k = self.context.place();
        proof {
            self.context.lemma_in_order();
        }
        loop
            invariant_except_break
                comment_end(s, k) == comment_end(s, self.context.place()),
            invariant
                self.context.wf(),
                self.context.text() == s,
                s == old(self).context.text(),
                0 <= k,
                k == old(self).context.place(),
                self.workspace == old(self).workspace,
                self.context.lexeme_place() == old(self).context.lexeme_place(),
                self.context.lexeme_position() == old(self).context.lexeme_position(),
                k <= self.context.place() <= s.len(),
                tokens@ == old(tokens)@,
            ensures
                comment_end(s, k) == self.context.place(),
            decreases s.len() - self.context.place(),
        {
            let c = self.context.get_current_character_class();
            let ghost p = self.context.place();
            proof {
                if p < s.len() {
                    assert((class_of(s[p]) == CharacterClass::Newline) == (s[p] == '\n'));
                    assert(comment_end(s, p) == if s[p] == '\n' {
                        p + 1
                    } else {
                        comment_end(s, p + 1)
                    });
                } else {
                    assert(comment_end(s, p) == p);
                }
            }
            if c == CharacterClass::Newline {
                self.context.next();
                break ;
            } else if c == CharacterClass::Eos {
                break ;
            } else {
                self.context.next();
            }
        }
        self.push_token(tokens, TokenType::Comment);
        Ok(true)
    }

    /// Reads an operator: the longest run of operator characters whose
    /// start is the name of a function, or one character.
    fn operator(&mut self, tokens: &mut Vec<Token>) -> (r: Result<bool, String>)
        requires
            old(self).ready(),
            old(self).context.place() == old(self).context.lexeme_place(),
            is_operator_class(old(self).context.class_here()) || old(self).context.class_here()
                == CharacterClass::Dot,
        ensures
            scanned_as(
                *old(self),
                *final(self),
                old(tokens)@,
                final(tokens)@,
                r,
                scan_operator(old(self).context.text(), *old(self).workspace, old(self).context.place()),
            ),
    {
        let ghost s = self.context.text();
        let ghost k = self.context.place();
        let start: usize = self.context.get_place();
        let position = self.context.get_starting_position();
        proof {
            self.context.lemma_in_order();
            reveal_strlit("...");
        }
        assert("..."@ =~= seq!['.', '.', '.']);
        loop
            invariant_except_break
                operator_run(s, k, k) == operator_run(s, k, self.context.place()),
            invariant
                self.context.wf(),
                self.context.text() == s,
                s == old(self).context.text(),
                0 <= k,
                k == old(self).context.place(),
                k == old(self).context.lexeme_place(),
                old(self).ready(),
                "..."@ == seq!['.', '.', '.'],
                self.workspace == old(self).workspace,
                self.context.lexeme_place() == k,
                self.context.lexeme_position() == old(self).context.lexeme_position(),
                position == old(self).context.lexeme_position(),
                start == k,
                k <= self.context.place() <= s.len(),
                self.context.place() > k || is_operator_class(self.context.class_here())
                    || self.context.class_here() == CharacterClass::Dot,
                tokens@ == old(tokens)@,
            ensures
                operator_run(s, k, k) == (self.context.place(), false),
                self.context.place() > k,
            decreases s.len() - self.context.place(),
        {
            let c = self.context.get_current_character_class();
            if c == CharacterClass::Dollar || c == CharacterClass::Minus || c == CharacterClass::Plus || c
                == CharacterClass::BackSlash || c == CharacterClass::ComposableOperator {
                self.context.next();
            } else if c == CharacterClass::Dot {
                self.context.next();
                let lexeme = self.context.get_lexeme_source();
                if crate::text::string_is(&lexeme, "...") {
                    return self.comment(tokens);
                }
            } else {
                break ;
            }
        }
        let mut end: usize = self.context.get_place();
        loop
            invariant_except_break
                operator_end(s, *self.workspace, k, operator_run(s, k, k).0) == operator_end(
                    s,
                    *self.workspace,
                    k,
                    end as int,
                ),
            invariant
                start == k,
                0 <= k,
                start < end <= s.len(),
                self.context.wf(),
                self.context.text() == s,
                old(self).ready(),
                self.workspace == old(self).workspace,
                self.context.lexeme_position() == old(self).context.lexeme_position(),
                tokens@ == old(tokens)@,
            ensures
                operator_end(s, *self.workspace, k, operator_run(s, k, k).0) == end,
            decreases end - start,
        {
            if end - start <= 1 {
                break ;
            }
            let candidate = string_of_range(self.context.as_source(), start, end);
            if self.workspace.try_get_function(candidate.as_str()).is_some() {
                break ;
            }
            end = end - 1;
        }
        let candidate = string_of_range(self.context.as_source(), start, end);
        tokens.push(
            Token {
                token_type: TokenType::Operator(candidate.clone()),
                string_value: candidate,
                starting_position: position,
            },
        );
        assert(tokens@.drop_last() =~= old(tokens)@);
        self.context.set_iterator_to_nth(end);
        Ok(true)
    }

    fn dot(&mut self, tokens: &mut Vec<Token>) -> (r: Result<bool, String>)
        requires
            old(self).ready(),
            old(self).context.place() == old(self).context.lexeme_place(),
            old(self).context.class_here() == CharacterClass::Dot,
        ensures
            scanned_as(
                *old(self),
                *final(self),
                old(tokens)@,
                final(tokens)@,
                r,
                token_at(old(self).context.text(), *old(self).workspace, old(self).context.place()),
            ),
    {
        proof {
            self.context.lemma_in_order();
        }
        if self.context.peek() == CharacterClass::Numeric {
            self.context.clear_number();
            self.context.next();
            self.fraction(tokens)
        } else {
            self.operator(tokens)
        }
    }

    fn newline(&mut self, tokens: &mut Vec<Token>) -> (r: Result<bool, String>)
        requires
            old(self).ready(),
            old(self).context.place() == old(self).context.lexeme_place(),
            old(self).context.class_here() == CharacterClass::Newline,
        ensures
            scanned_as(
                *old(self),
                *final(self),
                old(tokens)@,
                final(tokens)@,
                r,
                token_at(old(self).context.text(), *old(self).workspace, old(self).context.place()),
            ),
    {
        proof {
            self.context.lemma_in_order();
        }
        self.context.next();
        self.push_token(tokens, TokenType::EOL);
        Ok(true)
    }

    fn punctuation(&mut self, tokens: &mut Vec<Token>) -> (r: Result<bool, String>)
        requires
            old(self).ready(),
            old(self).context.place() == old(self).context.lexeme_place(),
            old(self).context.class_here() == CharacterClass::Punctuation || old(self).context.class_here() == CharacterClass::Other,
        ensures
            scanned_as(
                *old(self),
                *final(self),
                old(tokens)@,
                final(tokens)@,
                r,
                token_at(old(self).context.text(), *old(self).workspace, old(self).context.place()),
            ),
    {
        proof {
            self.context.lemma_in_order();
        }
        self.context.next();
        let p = self.context.get_lexeme_source();
        self.push_token(tokens, TokenType::Punctuation(p));
        Ok(true)
    }

    #[verifier::loop_isolation(false)]
    fn string(&mut self, tokens: &mut Vec<Token>) -> (r: Result<bool, String>)
        requires
            old(self).ready(),
            old(self).context.place() == old(self).context.lexeme_place(),
            old(self).context.class_here() == CharacterClass::DoubleQuote,
        ensures
            scanned_as(
                *old(self),
                *final(self),
                old(tokens)@,
                final(tokens)@,
                r,
                token_at(old(self).context.text(), *old(self).workspace, old(self).context.place()),
            ),
    {
        let ghost s = self.context.text();
        let ghost k = self.context.place();
        let start: usize = self.context.get_place();
        proof {
            self.context.lemma_in_order();
        }
        self.context.literal_next();
        loop
            invariant
                self.context.wf(),
                self.context.text() == s,
                self.context.lexeme_place() == k,
                self.context.lexeme_position() == old(self).context.lexeme_position(),
                k < self.context.place() <= s.len(),
                self.workspace == old(self).workspace,
                string_end(s, k + 1) == string_end(s, self.context.place()),
                tokens@ == old(tokens)@,
            decreases s.len() - self.context.place(),
        {
            let c = self.context.get_current_character_class();
            if c == CharacterClass::DoubleQuote {
                self.context.literal_next();
                if self.context.get_current_character_class() == CharacterClass::DoubleQuote {
                    self.context.literal_next();
                } else {
                    let end: usize = self.context.get_place();
                    let value = undouble(self.context.as_source(), start + 1, end - 1);
                    self.push_token(tokens, TokenType::String(value));
                    return Ok(true);
                }
            } else if c == CharacterClass::Eos {
                return self.error("Expected double-quote");
            } else {
                self.context.literal_next();
            }
        }
    }

    /// Reads the tokens from the current character to the end of the text.
    #[verifier::loop_isolation(false)]
    #[verifier::rlimit(60)]
    fn start(&mut self, tokens: &mut Vec<Token>) -> (r: Result<bool, String>)
        requires
            old(self).ready(),
        ensures
            final(self).context.wf(),
            match lex_from(old(self).context.text(), *old(self).workspace, old(self).context.place()) {
                Ok(rest) => r is Ok && models(final(tokens)@) == models(old(tokens)@) + rest,
                Err(m) => r is Err && r->Err_0@ == m,
            },
    {
        let ghost s = self.context.text();
        let ghost k0 = self.context.place();
        let ghost ws = *self.workspace;
        proof {
            self.context.lemma_in_order();
            assert(models(tokens@) =~= models(old(tokens)@) + Seq::<TokenModel>::empty());
        }
        loop
            invariant
                self.context.wf(),
                self.context.text() == s,
                *self.workspace == ws,
                k0 <= self.context.place() <= s.len(),
                models(tokens@).len() >= models(old(tokens)@).len(),
                models(tokens@).take(old(tokens)@.len() as int) == models(old(tokens)@),
                lex_from(s, ws, k0) == match lex_from(s, ws, self.context.place()) {
                    Ok(rest) => Ok::<Seq<TokenModel>, Seq<char>>(
                        models(tokens@).skip(old(tokens)@.len() as int) + rest,
                    ),
                    Err(m) => Err::<Seq<TokenModel>, Seq<char>>(m),
                },
            decreases s.len() - self.context.place(),
        {
            self.context.set_lexeme_start();
            proof {
                self.context.lemma_in_order();
            }
            let ghost k = self.context.place();
            let ghost before = tokens@;
            let ghost acc = models(tokens@).skip(old(tokens)@.len() as int);
            let c = self.context.get_current_character_class();
            let step = if c == CharacterClass::Alpha {
                self.identifier(tokens)
            } else if c == CharacterClass::Numeric {
                self.integer(tokens)
            } else if c == CharacterClass::Dot {
                self.dot(tokens)
            } else if c == CharacterClass::SingleQuote {
                self.character(tokens)
            } else if c == CharacterClass::DoubleQuote {
                self.string(tokens)
            } else if c == CharacterClass::Punctuation || c == CharacterClass::Other {
                self.punctuation(tokens)
            } else if c == CharacterClass::Dollar || c == CharacterClass::Minus || c
                == CharacterClass::Plus || c == CharacterClass::BackSlash || c
                == CharacterClass::ComposableOperator {
                self.operator(tokens)
            } else if c == CharacterClass::Newline {
                self.newline(tokens)
            } else if c == CharacterClass::WhiteSpace {
                self.context.next();
                continue ;
            } else {
                let position = self.context.get_starting_position();
                tokens.push(
                    Token {
                        token_type: TokenType::EOS,
                        string_value: String::new(),
                        starting_position: position,
                    },
                );
                proof {
                    let rest = lex_from(s, ws, k)->Ok_0;
                    assert(models(tokens@) =~= models(before).push(tokens@.last().model()));
                    assert(models(tokens@) =~= models(old(tokens)@) + (acc + rest));
                }
                return Ok(true);
            };
            match step {
                Ok(_) => {
                    proof {
                        self.context.lemma_in_order();
                        assert(tokens@.drop_last() == before);
                        assert(models(tokens@) =~= models(before).push(tokens@.last().model()));
                        let t = tokens@.last().model();
                        match lex_from(s, ws, self.context.place()) {
                            Ok(rest) => {
                                assert(models(tokens@).skip(old(tokens)@.len() as int) + rest =~= acc + (
                                seq![t] + rest));
                            },
                            Err(m) => {},
                        }
                        assert(models(tokens@).take(old(tokens)@.len() as int) =~= models(old(tokens)@));
                    }
                },
                Err(e) => {
                    return Err(e);
                },
            }
        }
    }

    /// The longest source text the lexer takes, in characters.
    pub open spec fn max_source() -> int {
        crate::lexical::context::MAX_SOURCE as int
    }

    /// The tokens of a source text as they are read, before any of them
    /// are merged or converted.
    pub fn scan(input_string: &str, workspace: &'a WorkSpace) -> (r: Result<Vec<Token>, String>)
        requires
            workspace.tables_wf(),
            input_string@.len() <= Self::max_source(),
        ensures
            match lex_from(input_string@, *workspace, 0) {
                Ok(ms) => r is Ok && models(r->Ok_0@) == ms,
                Err(m) => r is Err && r->Err_0@ == m,
            },
    {
        let context = InteriorContext::new(input_string);
        let mut lexer = Lexer { context: context, workspace: workspace };
        let mut tokens: Vec<Token> = Vec::new();
        match lexer.start(&mut tokens) {
            Ok(_) => {
                proof {
                    let ms = lex_from(input_string@, *workspace, 0)->Ok_0;
                    assert(models(Seq::<Token>::empty()) =~= Seq::<TokenModel>::empty());
                    assert(models(tokens@) =~= ms);
                }
                Ok(tokens)
            },
            Err(e) => Err(e),
        }
    }
}

/// How the sign merging sees a token.
#[derive(Clone, Copy, Debug, PartialEq, Eq, Structural)]
pub enum PostProcessTokenClass {
    Number,
    Minus,
    Plus,
    OperatorOrPunctuation,
    Other,
}

/// How the sign merging sees a token of the given kind.
pub open spec fn token_class(kind: TokenKind) -> PostProcessTokenClass {
    match kind {
        TokenKind::Real(_) | TokenKind::Double(_) | TokenKind::Integer(_) => PostProcessTokenClass::Number,
        TokenKind::Operator(op) => if op == seq!['-'] {
            PostProcessTokenClass::Minus
        } else if op == seq!['+'] {
            PostProcessTokenClass::Plus
        } else {
            PostProcessTokenClass::OperatorOrPunctuation
        },
        TokenKind::Punctuation(p) => if p == seq!['('] || p == seq!['['] || p == seq![','] || p == seq![
            ':',
        ] || p == seq![';'] {
            PostProcessTokenClass::OperatorOrPunctuation
        } else {
            PostProcessTokenClass::Other
        },
        _ => PostProcessTokenClass::Other,
    }
}

/// A number token with a sign in front: the spelling gets the sign, and a
/// minus sign turns the value around.
pub open spec fn signed(t: TokenModel, sign: char) -> TokenModel {
    let kind = if sign == '-' {
        match t.kind {
            TokenKind::Real(l) => TokenKind::Real(NumberLiteral { is_negative: !l.is_negative, ..l }),
            TokenKind::Double(l) => TokenKind::Double(NumberLiteral { is_negative: !l.is_negative, ..l }),
            TokenKind::Integer(v) => TokenKind::Integer((-v) as i32),
            other => other,
        }
    } else {
        t.kind
    };
    TokenModel { kind: kind, text: seq![sign] + t.text, position: t.position }
}

/// How far the sign merging has come: the tokens made so far, and how it
/// saw the last two tokens.
pub struct SignState {
    pub out: Seq<TokenModel>,
    pub penultimate: PostProcessTokenClass,
    pub ultimate: PostProcessTokenClass,
}

/// The sign merging after one more token. A sign that follows an operator
/// or an opening punctuation, or starts the text, and is followed by a
/// number, becomes part of that number.
pub open spec fn sign_step(st: SignState, t: TokenModel) -> SignState {
    let c = token_class(t.kind);
    if st.penultimate == PostProcessTokenClass::OperatorOrPunctuation && c
        == PostProcessTokenClass::Number && st.out.len() > 0 && (st.ultimate
        == PostProcessTokenClass::Minus || st.ultimate == PostProcessTokenClass::Plus) {
        SignState {
            out: st.out.drop_last().push(
                signed(
                    t,
                    if st.ultimate == PostProcessTokenClass::Minus {
                        '-'
                    } else {
                        '+'
                    },
                ),
            ),
            penultimate: PostProcessTokenClass::Other,
            ultimate: PostProcessTokenClass::Number,
        }
    } else {
        SignState { out: st.out.push(t), penultimate: st.ultimate, ultimate: c }
    }
}

/// The sign merging after all of the given tokens.
pub open spec fn sign_fold(tokens: Seq<TokenModel>) -> SignState
    decreases tokens.len(),
{
    if tokens.len() == 0 {
        SignState {
            out: Seq::empty(),
            penultimate: PostProcessTokenClass::OperatorOrPunctuation,
            ultimate: PostProcessTokenClass::OperatorOrPunctuation,
        }
    } else {
        sign_step(sign_fold(tokens.drop_last()), tokens.last())
    }
}

/// The tokens with the signs of numbers merged into the numbers.
pub open spec fn merged_signs(tokens: Seq<TokenModel>) -> Seq<TokenModel> {
    sign_fold(tokens).out
}

/// The text with the escapes `\r`, `\n` and `\t` turned into the control
/// characters they stand for.
pub open spec fn unescaped(t: Seq<char>) -> Seq<char>
    decreases t.len(),
{
    if t.len() == 0 {
        t
    } else if t.len() >= 2 && t[0] == '\\' && (t[1] == 'r' || t[1] == 'n' || t[1] == 't') {
        seq![
            if t[1] == 'r' {
                '\r'
            } else if t[1] == 'n' {
                '\n'
            } else {
                '\t'
            },
        ] + unescaped(t.skip(2))
    } else {
        seq![t[0]] + unescaped(t.skip(1))
    }
}

/// Whether a text spells a character: an escape, or a quote and the character.
pub open spec fn spells_character(t: Seq<char>) -> bool {
    t == seq!['\\', 'n'] || t == seq!['\\', 'r'] || t == seq!['\\', 't'] || (t.len() >= 2 && t[0]
        == '\'')
}

/// The character that a text spells.
pub open spec fn escaped_character(t: Seq<char>) -> char
    recommends
        spells_character(t),
{
    if t == seq!['\\', 'n'] {
        '\n'
    } else if t == seq!['\\', 'r'] {
        '\r'
    } else if t == seq!['\\', 't'] {
        '\t'
    } else {
        t[1]
    }
}

/// A token with its escapes converted.
pub open spec fn unescaped_token(t: TokenModel) -> TokenModel {
    match t.kind {
        TokenKind::Character(_) => TokenModel {
            kind: TokenKind::Character(escaped_character(t.text)),
            text: unescaped(t.text),
            position: t.position,
        },
        TokenKind::Text(v) => TokenModel {
            kind: TokenKind::Text(unescaped(v)),
            text: unescaped(t.text),
            position: t.position,
        },
        _ => t,
    }
}

/// The tokens with their escapes converted.
pub open spec fn unescaped_tokens(tokens: Seq<TokenModel>) -> Seq<TokenModel> {
    Seq::new(tokens.len(), |i: int| unescaped_token(tokens[i]))
}

/// Whether the character tokens among the tokens spell a character.
pub open spec fn characters_spelled(tokens: Seq<TokenModel>) -> bool {
    forall|i: int|
        0 <= i < tokens.len() && (#[trigger] tokens[i]).kind is Character ==> spells_character(
            tokens[i].text,
        )
}

/// Whether no integer token among the tokens holds the least integer,
/// which has no opposite.
pub open spec fn integers_have_opposites(tokens: Seq<TokenModel>) -> bool {
    forall|i: int|
        0 <= i < tokens.len() ==> ((#[trigger] tokens[i]).kind matches TokenKind::Integer(v) ==> v
            > i32::MIN)
}

/// The character that a text spells.
pub fn convert_escape_sequence(input: &str) -> (c: char)
    requires
        spells_character(input@),
    ensures
        c == escaped_character(input@),
{
    let v = crate::text::chars_of(input);
    if v.len() == 2 && v[0] == '\\' && (v[1] == 'n' || v[1] == 'r' || v[1] == 't') {
        let c = if v[1] == 'n' {
            '\n'
        } else if v[1] == 'r' {
            '\r'
        } else {
            '\t'
        };
        assert(v@ =~= seq!['\\', v@[1]]);
        c
    } else {
        proof {
            if v@ == seq!['\\', 'n'] || v@ == seq!['\\', 'r'] || v@ == seq!['\\', 't'] {
                assert(v@.len() == 2 && v@[0] == '\\');
            }
        }
        v[1]
    }
}

/// The text with its escapes turned into control characters.
pub fn convert_escape_sequences(input_string: &str) -> (r: String)
    ensures
        r@ == unescaped(input_string@),
{
    let t = crate::text::chars_of(input_string);
    let mut out: Vec<char> = Vec::new();
    let mut i: usize = 0;
    assert(t@.skip(0) =~= t@);
    while i < t.len()
        invariant
            i <= t.len(),
            unescaped(t@) == out@ + unescaped(t@.skip(i as int)),
        decreases t.len() - i,
    {
        let ghost rest = t@.skip(i as int);
        assert(rest[0] == t@[i as int]);
        if t[i] == '\\' && i + 1 < t.len() && (t[i + 1] == 'r' || t[i + 1] == 'n' || t[i + 1] == 't') {
            assert(rest[1] == t@[i + 1]);
            assert(rest.skip(2) =~= t@.skip(i + 2));
            let c = if t[i + 1] == 'r' {
                '\r'
            } else if t[i + 1] == 'n' {
                '\n'
            } else {
                '\t'
            };
            out.push(c);
            i += 2;
        } else {
            assert(rest.skip(1) =~= t@.skip(i + 1));
            out.push(t[i]);
            i += 1;
        }
        assert(unescaped(t@) =~= out@ + unescaped(t@.skip(i as int)));
    }
    assert(unescaped(t@) =~= out@);
    string_of(&out)
}

/// How a character is spelled where control characters must show.
pub open spec fn sanitized_char(c: char) -> Seq<char> {
    if c == '\r' {
        seq!['\\', 'r']
    } else if c == '\n' {
        seq!['\\', 'n']
    } else if c == '\t' {
        seq!['\\', 't']
    } else {
        seq![c]
    }
}

/// A text spelled so that its control characters show.
pub open spec fn sanitized(t: Seq<char>) -> Seq<char>
    decreases t.len(),
{
    if t.len() == 0 {
        t
    } else {
        sanitized(t.drop_last()) + sanitized_char(t.last())
    }
}

/// Spells a text so that carriage return, newline and tab show.
pub fn sanitize_for_display(s: &str) -> (r: String)
    ensures
        r@ == sanitized(s@),
{
    let t = crate::text::chars_of(s);
    let mut out: Vec<char> = Vec::new();
    let mut i: usize = 0;
    assert(t@.take(0) =~= Seq::<char>::empty());
    while i < t.len()
        invariant
            i <= t.len(),
            out@ == sanitized(t@.take(i as int)),
        decreases t.len() - i,
    {
        proof {
            let u = t@.take(i as int + 1);
            assert(u.drop_last() =~= t@.take(i as int));
            assert(u.last() == t@[i as int]);
        }
        let c = t[i];
        if c == '\r' {
            out.push('\\');
            out.push('r');
        } else if c == '\n' {
            out.push('\\');
            out.push('n');
        } else if c == '\t' {
            out.push('\\');
            out.push('t');
        } else {
            out.push(c);
        }
        i += 1;
        assert(out@ =~= sanitized(t@.take(i as int)));
    }
    assert(t@.take(t.len() as int) =~= t@);
    string_of(&out)
}

impl<'a> Lexer<'a> {
    /// Merges the sign in front of a number into the number.
    pub fn post_process_numeric_signs(tokens: &Vec<Token>) -> (processed_tokens: Vec<Token>)
        requires
            integers_have_opposites(models(tokens@)),
        ensures
            models(processed_tokens@) == merged_signs(models(tokens@)),
    {
        proof {
            reveal_strlit("-");
            reveal_strlit("+");
            reveal_strlit("(");
            reveal_strlit("[");
            reveal_strlit(",");
            reveal_strlit(":");
            reveal_strlit(";");
        }
        assert("-"@ =~= seq!['-'] && "+"@ =~= seq!['+'] && "("@ =~= seq!['('] && "["@ =~= seq!['[']
            && ","@ =~= seq![','] && ":"@ =~= seq![':'] && ";"@ =~= seq![';']);
        let mut processed_tokens: Vec<Token> = Vec::new();
        let mut penultimate_token_class = PostProcessTokenClass::OperatorOrPunctuation;
        let mut ultimate_token_class = PostProcessTokenClass::OperatorOrPunctuation;
        let ghost all = models(tokens@);
        let mut i: usize = 0;
        assert(all.take(0) =~= Seq::<TokenModel>::empty());
        assert(models(processed_tokens@) =~= Seq::<TokenModel>::empty());
        while i < tokens.len()
            invariant
                i <= tokens.len(),
                all == models(tokens@),
                integers_have_opposites(all),
                "-"@ == seq!['-'] && "+"@ == seq!['+'] && "("@ == seq!['('] && "["@ == seq!['['] && ","@
                    == seq![','] && ":"@ == seq![':'] && ";"@ == seq![';'],
                sign_fold(all.take(i as int)) == (SignState {
                    out: models(processed_tokens@),
                    penultimate: penultimate_token_class,
                    ultimate: ultimate_token_class,
                }),
            decreases tokens.len() - i,
        {
            let token = &tokens[i];
            proof {
                let u = all.take(i as int + 1);
                assert(u.drop_last() =~= all.take(i as int));
                assert(u.last() == token.model());
                assert(all[i as int] == token.model());
            }
            let current_token_class = match &token.token_type {
                TokenType::Real(_) | TokenType::Double(_) | TokenType::Integer(_) => {
                    PostProcessTokenClass::Number
                },
                TokenType::Operator(op) => {
                    if crate::text::string_is(op, "-") {
                        PostProcessTokenClass::Minus
                    } else if crate::text::string_is(op, "+") {
                        PostProcessTokenClass::Plus
                    } else {
                        PostProcessTokenClass::OperatorOrPunctuation
                    }
                },
                TokenType::Punctuation(p) => {
                    if crate::text::string_is(p, "(") || crate::text::string_is(p, "[")
                        || crate::text::string_is(p, ",") || crate::text::string_is(p, ":")
                        || crate::text::string_is(p, ";") {
                        PostProcessTokenClass::OperatorOrPunctuation
                    } else {
                        PostProcessTokenClass::Other
                    }
                },
                _ => PostProcessTokenClass::Other,
            };
            assert(current_token_class == token_class(token.model().kind));
            let ghost before = processed_tokens@;
            if penultimate_token_class == PostProcessTokenClass::OperatorOrPunctuation
                && current_token_class == PostProcessTokenClass::Number && processed_tokens.len() > 0 && (
            ultimate_token_class == PostProcessTokenClass::Minus || ultimate_token_class
                == PostProcessTokenClass::Plus) {
                let minus = ultimate_token_class == PostProcessTokenClass::Minus;
                let token_type = match &token.token_type {
                    TokenType::Real(l) => TokenType::Real(
                        NumberLiteral {
                            is_negative: if minus {
                                !l.is_negative
                            } else {
                                l.is_negative
                            },
                            integer_value: l.integer_value,
                            fraction_value: l.fraction_value,
                            fraction_digits: l.fraction_digits,
                            exponent: l.exponent,
                            bits: l.bits,
                        },
                    ),
                    TokenType::Double(l) => TokenType::Double(
                        NumberLiteral {
                            is_negative: if minus {
                                !l.is_negative
                            } else {
                                l.is_negative
                            },
                            integer_value: l.integer_value,
                            fraction_value: l.fraction_value,
                            fraction_digits: l.fraction_digits,
                            exponent: l.exponent,
                            bits: l.bits,
                        },
                    ),
                    TokenType::Integer(v) => TokenType::Integer(
                        if minus {
                            -*v
                        } else {
                            *v
                        },
                    ),
                    other => other.clone(),
                };
                let mut text = String::from_str(
                    if minus {
                        "-"
                    } else {
                        "+"
                    },
                );
                text.append(token.string_value.as_str());
                processed_tokens.pop();
                processed_tokens.push(
                    Token {
                        token_type: token_type,
                        string_value: text,
                        starting_position: token.starting_position,
                    },
                );
                proof {
                    let sign = if minus {
                        '-'
                    } else {
                        '+'
                    };
                    assert(processed_tokens@.last().model() == signed(token.model(), sign));
                    assert(models(processed_tokens@) =~= models(before).drop_last().push(
                        signed(token.model(), sign),
                    ));
                }
                penultimate_token_class = PostProcessTokenClass::Other;
                ultimate_token_class = PostProcessTokenClass::Number;
            } else {
                processed_tokens.push(token.clone());
                proof {
                    assert(models(processed_tokens@) =~= models(before).push(token.model()));
                }
                penultimate_token_class = ultimate_token_class;
                ultimate_token_class = current_token_class;
            }
            i += 1;
        }
        assert(all.take(tokens.len() as int) =~= all);
        processed_tokens
    }

    /// Turns the escapes in strings and characters into the control
    /// characters they stand for.
    pub fn post_process_strings(tokens: &Vec<Token>) -> (processed_tokens: Vec<Token>)
        requires
            characters_spelled(models(tokens@)),
        ensures
            models(processed_tokens@) == unescaped_tokens(models(tokens@)),
    {
        let mut processed_tokens: Vec<Token> = Vec::new();
        let mut i: usize = 0;
        while i < tokens.len()
            invariant
                i <= tokens.len(),
                characters_spelled(models(tokens@)),
                processed_tokens@.len() == i,
                forall|k: int|
                    0 <= k < i ==> (#[trigger] processed_tokens@[k]).model() == unescaped_token(
                        tokens@[k].model(),
                    ),
            decreases tokens.len() - i,
        {
            let token = &tokens[i];
            assert(models(tokens@)[i as int] == token.model());
            match &token.token_type {
                TokenType::Character(_) => {
                    processed_tokens.push(
                        Token {
                            token_type: TokenType::Character(
                                convert_escape_sequence(token.string_value.as_str()),
                            ),
                            string_value: convert_escape_sequences(token.string_value.as_str()),
                            starting_position: token.starting_position,
                        },
                    );
                },
                TokenType::String(v) => {
                    processed_tokens.push(
                        Token {
                            token_type: TokenType::String(convert_escape_sequences(v.as_str())),
                            string_value: convert_escape_sequences(token.string_value.as_str()),
                            starting_position: token.starting_position,
                        },
                    );
                },
                _ => {
                    processed_tokens.push(token.clone());
                },
            }
            i += 1;
        }
        assert(models(processed_tokens@) =~= unescaped_tokens(models(tokens@)));
        processed_tokens
    }
}

/// The tokens of a source text: read, their escapes converted where the
/// workspace has that feature switched on, and the signs of numbers merged
/// into the numbers; or the message of the first token that cannot be read.
pub open spec fn tokenized(s: Seq<char>, ws: WorkSpace) -> Result<Seq<TokenModel>, Seq<char>> {
    match lex_from(s, ws, 0) {
        Ok(raw) => Ok(
            merged_signs(
                if ws.feature_switches().on(Feature::StringEscapes) {
                    unescaped_tokens(raw)
                } else {
                    raw
                },
            ),
        ),
        Err(m) => Err(m),
    }
}

/// Whether the tokens are spelled as the lexer spells them: an operator
/// by its name, a character by a quote and the character, and no integer
/// is negative.
pub open spec fn as_lexed(tokens: Seq<TokenModel>) -> bool {
    forall|i: int|
        0 <= i < tokens.len() ==> match (#[trigger] tokens[i]).kind {
            TokenKind::Operator(op) => tokens[i].text == op,
            TokenKind::Character(c) => tokens[i].text == seq!['\'', c],
            TokenKind::Integer(v) => v >= 0,
            _ => true,
        }
}

/// Reading digits into the integer part keeps the number in order.
pub proof fn lemma_integer_run_in_order(s: Seq<char>, k: int, p: NumberParts)
    requires
        0 <= p.integer_value,
    ensures
        integer_run(s, k, p).1 matches Some(q) ==> 0 <= q.integer_value,
    decreases s.len() - k,
{
    if 0 <= k < s.len() && class_at(s, k) == CharacterClass::Numeric {
        match p.with_integer_digit(digit_of(s[k])) {
            Some(q) => {
                lemma_integer_run_in_order(s, k + 1, q);
            },
            None => {},
        }
    }
}

/// The tokens the lexer reads are spelled as the lexer spells them.
#[verifier::rlimit(60)]
pub proof fn lemma_lexed_as_lexed(s: Seq<char>, ws: WorkSpace, k: int)
    requires
        0 <= k,
    ensures
        lex_from(s, ws, k) matches Ok(ts) ==> as_lexed(ts),
    decreases s.len() - k,
{
    if k >= s.len() {
    } else if class_at(s, k) == CharacterClass::WhiteSpace {
        lemma_lexed_as_lexed(s, ws, k + 1);
    } else {
        match token_at(s, ws, k) {
            Scanned::Token(kind, end) => {
                if k < end <= s.len() {
                    lemma_lexed_as_lexed(s, ws, end);
                    lemma_integer_run_in_order(s, k, NumberParts::blank());
                    match lex_from(s, ws, end) {
                        Ok(rest) => {
                            let t = TokenModel {
                                kind: kind,
                                text: s.subrange(k, end),
                                position: position_at(s, k),
                            };
                            let ts = seq![t] + rest;
                            if kind is Character {
                                assert(s.subrange(k, end) =~= seq!['\'', s[k + 1]]);
                            }
                            assert forall|i: int| 0 <= i < ts.len() implies match (#[trigger] ts[i]).kind {
                                TokenKind::Operator(op) => ts[i].text == op,
                                TokenKind::Character(c) => ts[i].text == seq!['\'', c],
                                TokenKind::Integer(v) => v >= 0,
                                _ => true,
                            } by {
                                if i > 0 {
                                    assert(ts[i] == rest[i - 1]);
                                }
                            }
                        },
                        Err(m) => {},
                    }
                }
            },
            Scanned::Fail(m) => {},
        }
    }
}

/// Converting escapes leaves integers as they are.
pub proof fn lemma_unescaped_keeps_integers(tokens: Seq<TokenModel>)
    requires
        as_lexed(tokens),
    ensures
        integers_have_opposites(unescaped_tokens(tokens)),
        integers_have_opposites(tokens),
        characters_spelled(tokens),
{
    assert forall|i: int| 0 <= i < tokens.len() implies ((#[trigger] unescaped_tokens(
        tokens,
    )[i]).kind matches TokenKind::Integer(v) ==> v > i32::MIN) by {
        assert(tokens[i].kind is Integer ==> tokens[i].kind->Integer_0 >= 0);
    }
    assert forall|i: int| 0 <= i < tokens.len() implies ((#[trigger] tokens[i]).kind matches TokenKind::Integer(
        v,
    ) ==> v > i32::MIN) by {}
    assert forall|i: int|
        0 <= i < tokens.len() && (#[trigger] tokens[i]).kind is Character implies spells_character(
        tokens[i].text,
    ) by {}
}

impl<'a> Lexer<'a> {
    /// The tokens of a source text.
    pub fn tokenize(input_string: &str, workspace: &'a WorkSpace) -> (r: Result<Vec<Token>, String>)
        requires
            workspace.tables_wf(),
            input_string@.len() <= Self::max_source(),
        ensures
            match tokenized(input_string@, *workspace) {
                Ok(ms) => r is Ok && models(r->Ok_0@) == ms,
                Err(m) => r is Err && r->Err_0@ == m,
            },
    {
        let mut tokens = match Lexer::scan(input_string, workspace) {
            Ok(tokens) => tokens,
            Err(e) => {
                return Err(e);
            },
        };
        proof {
            lemma_lexed_as_lexed(input_string@, *workspace, 0);
            lemma_unescaped_keeps_integers(models(tokens@));
        }
        if workspace.is_feature_set(Feature::StringEscapes) {
            tokens = Lexer::post_process_strings(&tokens);
        }
        tokens = Lexer::post_process_numeric_signs(&tokens);
        Ok(tokens)
    }
}

/// The spellings of the tokens, one behind the other.
pub open spec fn spelled(tokens: Seq<TokenModel>) -> Seq<char>
    decreases tokens.len(),
{
    if tokens.len() == 0 {
        Seq::empty()
    } else {
        spelled(tokens.drop_last()) + tokens.last().text
    }
}

/// The text without its blanks, tabs and carriage returns.
pub open spec fn without_blanks(s: Seq<char>) -> Seq<char>
    decreases s.len(),
{
    if s.len() == 0 {
        Seq::empty()
    } else if class_of(s.last()) == CharacterClass::WhiteSpace {
        without_blanks(s.drop_last())
    } else {
        without_blanks(s.drop_last()).push(s.last())
    }
}

pub proof fn lemma_without_blanks_of_sum(a: Seq<char>, b: Seq<char>)
    ensures
        without_blanks(a + b) == without_blanks(a) + without_blanks(b),
    decreases b.len(),
{
    if b.len() == 0 {
        assert(a + b =~= a);
        assert(without_blanks(a) + without_blanks(b) =~= without_blanks(a));
    } else {
        assert((a + b).drop_last() =~= a + b.drop_last());
        assert((a + b).last() == b.last());
        lemma_without_blanks_of_sum(a, b.drop_last());
        assert(without_blanks(a + b) =~= without_blanks(a) + without_blanks(b));
    }
}

pub proof fn lemma_spelled_of_sum(a: Seq<TokenModel>, b: Seq<TokenModel>)
    ensures
        spelled(a + b) == spelled(a) + spelled(b),
    decreases b.len(),
{
    if b.len() == 0 {
        assert(a + b =~= a);
        assert(spelled(a) + spelled(b) =~= spelled(a));
    } else {
        assert((a + b).drop_last() =~= a + b.drop_last());
        assert((a + b).last() == b.last());
        lemma_spelled_of_sum(a, b.drop_last());
        assert(spelled(a + b) =~= spelled(a) + spelled(b));
    }
}

/// The tokens that are read from index `k` on spell the text from there
/// on, but for its blanks.
pub proof fn lemma_lexed_spells(s: Seq<char>, ws: WorkSpace, k: int)
    requires
        0 <= k <= s.len(),
    ensures
        lex_from(s, ws, k) matches Ok(ts) ==> without_blanks(spelled(ts)) == without_blanks(
            s.subrange(k, s.len() as int),
        ),
    decreases s.len() - k,
{
    let tail = s.subrange(k, s.len() as int);
    if k >= s.len() {
        let ts = lex_from(s, ws, k)->Ok_0;
        reveal_with_fuel(spelled, 2);
        assert(ts.len() == 1);
        assert(ts.drop_last() =~= Seq::<TokenModel>::empty());
        assert(ts.last().text =~= Seq::<char>::empty());
        assert(spelled(ts) =~= Seq::<char>::empty());
        assert(tail =~= Seq::<char>::empty());
    } else if class_at(s, k) == CharacterClass::WhiteSpace {
        lemma_lexed_spells(s, ws, k + 1);
        assert(tail =~= seq![s[k]] + s.subrange(k + 1, s.len() as int));
        lemma_without_blanks_of_sum(seq![s[k]], s.subrange(k + 1, s.len() as int));
        lemma_without_blanks_of_one(s[k]);
        assert(without_blanks(tail) =~= without_blanks(s.subrange(k + 1, s.len() as int)));
    } else {
        match token_at(s, ws, k) {
            Scanned::Token(kind, end) => {
                if k < end <= s.len() {
                    lemma_lexed_spells(s, ws, end);
                    match lex_from(s, ws, end) {
                        Ok(rest) => {
                            let t = TokenModel {
                                kind: kind,
                                text: s.subrange(k, end),
                                position: position_at(s, k),
                            };
                            lemma_spelled_step(s, k, end, t, rest);
                        },
                        Err(m) => {},
                    }
                }
            },
            Scanned::Fail(m) => {},
        }
    }
}

/// A text of one character, without its blanks.
pub proof fn lemma_without_blanks_of_one(c: char)
    ensures
        without_blanks(seq![c]) == if class_of(c) == CharacterClass::WhiteSpace {
            Seq::<char>::empty()
        } else {
            seq![c]
        },
{
    reveal_with_fuel(without_blanks, 2);
    assert(seq![c].drop_last() =~= Seq::<char>::empty());
    assert(seq![c].last() == c);
    assert(Seq::<char>::empty().push(c) =~= seq![c]);
}

/// One token more in front: if the tokens behind it spell the text behind
/// it, all of them spell the text from the token on.
pub proof fn lemma_spelled_step(s: Seq<char>, k: int, end: int, t: TokenModel, rest: Seq<TokenModel>)
    requires
        0 <= k < end <= s.len(),
        t.text == s.subrange(k, end),
        without_blanks(spelled(rest)) == without_blanks(s.subrange(end, s.len() as int)),
    ensures
        without_blanks(spelled(seq![t] + rest)) == without_blanks(s.subrange(k, s.len() as int)),
{
    lemma_spelled_of_sum(seq![t], rest);
    assert(seq![t].drop_last() =~= Seq::<TokenModel>::empty());
    assert(seq![t].last() == t);
    reveal_with_fuel(spelled, 2);
    assert(spelled(seq![t]) =~= t.text);
    assert(s.subrange(k, s.len() as int) =~= s.subrange(k, end) + s.subrange(end, s.len() as int));
    lemma_without_blanks_of_sum(t.text, spelled(rest));
    lemma_without_blanks_of_sum(s.subrange(k, end), s.subrange(end, s.len() as int));
}

/// Merging the signs keeps the spelling: the merged tokens spell what the
/// tokens spelled.
pub proof fn lemma_merged_spells(tokens: Seq<TokenModel>)
    requires
        as_lexed(tokens),
    ensures
        spelled(merged_signs(tokens)) == spelled(tokens),
        sign_fold(tokens).out.len() > 0 ==> sign_fold(tokens).ultimate == token_class(
            sign_fold(tokens).out.last().kind,
        ) && (sign_fold(tokens).out.last().kind matches TokenKind::Operator(op) ==> sign_fold(
            tokens,
        ).out.last().text == op),
    decreases tokens.len(),
{
    if tokens.len() > 0 {
        let st = sign_fold(tokens.drop_last());
        let t = tokens.last();
        assert forall|i: int| 0 <= i < tokens.drop_last().len() implies match (
        #[trigger] tokens.drop_last()[i]).kind {
            TokenKind::Operator(op) => tokens.drop_last()[i].text == op,
            TokenKind::Character(c) => tokens.drop_last()[i].text == seq!['\'', c],
            TokenKind::Integer(v) => v >= 0,
            _ => true,
        } by {
            assert(tokens.drop_last()[i] == tokens[i]);
        }
        lemma_merged_spells(tokens.drop_last());
        let c = token_class(t.kind);
        let after = sign_step(st, t);
        assert(tokens[tokens.len() - 1] == t);
        if st.penultimate == PostProcessTokenClass::OperatorOrPunctuation && c
            == PostProcessTokenClass::Number && st.out.len() > 0 && (st.ultimate
            == PostProcessTokenClass::Minus || st.ultimate == PostProcessTokenClass::Plus) {
            let sign = if st.ultimate == PostProcessTokenClass::Minus {
                '-'
            } else {
                '+'
            };
            assert(st.out.last().text == seq![sign]);
            assert(after.out.drop_last() =~= st.out.drop_last());
            assert(spelled(after.out) =~= spelled(st.out.drop_last()) + (seq![sign] + t.text));
            assert(spelled(st.out) =~= spelled(st.out.drop_last()) + seq![sign]);
            assert(spelled(after.out) =~= spelled(st.out) + t.text);
        } else {
            assert(after.out.drop_last() =~= st.out);
        }
    }
}

/// A source text and its tokens spell the same, but for blanks: the
/// spellings of the tokens, put one behind the other, are the text without
/// its blanks, tabs and carriage returns. This holds where escapes are
/// left as they are written.
pub proof fn law_tokens_spell_the_source(s: Seq<char>, ws: WorkSpace)
    requires
        !ws.feature_switches().on(Feature::StringEscapes),
    ensures
        tokenized(s, ws) matches Ok(ts) ==> without_blanks(spelled(ts)) == without_blanks(s),
{
    lemma_lexed_spells(s, ws, 0);
    lemma_lexed_as_lexed(s, ws, 0);
    assert(s.subrange(0, s.len() as int) =~= s);
    match lex_from(s, ws, 0) {
        Ok(raw) => {
            lemma_merged_spells(raw);
        },
        Err(m) => {},
    }
}

/// The number that decimal digits spell.
pub open spec fn number_spelled(digits: Seq<char>) -> int
    decreases digits.len(),
{
    if digits.len() == 0 {
        0
    } else {
        number_spelled(digits.drop_last()) * 10 + digit_of(digits.last())
    }
}

/// Reading a text of digits only gives the number the digits spell, or
/// fails.
pub proof fn lemma_integer_run_of_digits(s: Seq<char>, k: int, p: NumberParts)
    requires
        0 <= k <= s.len(),
        forall|i: int| 0 <= i < s.len() ==> is_digit(#[trigger] s[i]),
        p.integer_value == number_spelled(s.take(k)),
        0 <= p.integer_value,
    ensures
        integer_run(s, k, p).1 matches Some(q) ==> integer_run(s, k, p).0 == s.len() && q.integer_value
            == number_spelled(s),
    decreases s.len() - k,
{
    if k < s.len() {
        assert(is_digit(s[k]));
        assert(class_at(s, k) == CharacterClass::Numeric);
        assert(s.take(k + 1).drop_last() =~= s.take(k));
        assert(s.take(k + 1).last() == s[k]);
        match p.with_integer_digit(digit_of(s[k])) {
            Some(q) => {
                lemma_integer_run_of_digits(s, k + 1, q);
            },
            None => {},
        }
    } else {
        assert(s.take(k) =~= s);
    }
}

/// An integer that does not fit 32 bits is no token: a source text of
/// digits only that spell such a number is rejected.
pub proof fn law_integer_overflow_is_rejected(s: Seq<char>, ws: WorkSpace)
    requires
        s.len() > 0,
        forall|i: int| 0 <= i < s.len() ==> is_digit(#[trigger] s[i]),
        number_spelled(s) > i32::MAX,
    ensures
        tokenized(s, ws) is Err,
{
    assert(is_digit(s[0]));
    assert(class_at(s, 0) == CharacterClass::Numeric);
    assert(s.take(0) =~= Seq::<char>::empty());
    lemma_integer_run_of_digits(s, 0, NumberParts::blank());
    let run = integer_run(s, 0, NumberParts::blank());
    match run.1 {
        Some(q) => {
            assert(class_at(s, s.len() as int) == CharacterClass::Eos);
            assert(scan_integer(s, 0) == integer_token(q, s.len() as int));
        },
        None => {},
    }
    assert(token_at(s, ws, 0) is Fail);
}

} // verus!
