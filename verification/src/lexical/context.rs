//! The scanner's place in the source text, and the number being read.

use vstd::prelude::*;
use crate::text::{chars_of, digit_of, digit_value, is_digit, string_of_range};
use super::{class_of, get_character_class, CharacterClass, LineNumber, TokenPosition};

verus! {

/// How many bytes a character takes in UTF-8.
pub open spec fn utf8_size(c: char) -> int {
    let u = c as u32;
    if u < 0x80 {
        1
    } else if u < 0x800 {
        2
    } else if u < 0x10000 {
        3
    } else {
        4
    }
}

/// How many bytes the first `k` characters of a text take in UTF-8.
pub open spec fn byte_offset(s: Seq<char>, k: int) -> int
    decreases k,
{
    if k <= 0 {
        0
    } else {
        byte_offset(s, k - 1) + utf8_size(s[k - 1])
    }
}

/// The line on which the character at index `k` stands; lines count from one.
pub open spec fn line_at(s: Seq<char>, k: int) -> int
    decreases k,
{
    if k <= 0 {
        1
    } else if s[k - 1] == '\n' {
        line_at(s, k - 1) + 1
    } else {
        line_at(s, k - 1)
    }
}

/// The column of the character at index `k`. Columns count from zero on the
/// first line and from one on every later line.
pub open spec fn column_at(s: Seq<char>, k: int) -> int
    decreases k,
{
    if k <= 0 {
        0
    } else if s[k - 1] == '\n' {
        1
    } else {
        column_at(s, k - 1) + 1
    }
}

/// The position of the character at index `k`, or of the end of the text
/// for `k` equal to its length.
pub open spec fn position_at(s: Seq<char>, k: int) -> TokenPosition {
    TokenPosition {
        n: k as usize,
        index: byte_offset(s, k) as usize,
        line_number: line_at(s, k) as u32,
        column: column_at(s, k) as u32,
    }
}

pub proof fn lemma_position_bounds(s: Seq<char>, k: int)
    requires
        0 <= k <= s.len(),
    ensures
        0 <= byte_offset(s, k) <= 4 * k,
        1 <= line_at(s, k) <= k + 1,
        0 <= column_at(s, k) <= k,
    decreases k,
{
    if k > 0 {
        lemma_position_bounds(s, k - 1);
    }
}

/// The message for a number that outgrows the scanner's arithmetic.
pub open spec fn overflow_message() -> Seq<char> {
    "arithmetic overflow"@
}

/// How many decimal digits a number has; zero has none.
pub open spec fn digit_count(v: int) -> int
    decreases v,
{
    if v <= 0 {
        0
    } else {
        1 + digit_count(v / 10)
    }
}

pub proof fn lemma_digit_count_small(v: int)
    requires
        0 <= v <= i64::MAX,
    ensures
        0 <= digit_count(v) <= 19,
{
    reveal_with_fuel(digit_count, 21);
}

/// The number that is being read, part by part.
#[derive(Clone, Copy, Debug, PartialEq, Eq, Structural)]
pub struct NumberParts {
    /// The digits before the decimal point, as a number.
    pub integer_value: i64,
    /// How many of them are significant.
    pub integer_digit_count: i32,
    /// The digits behind the decimal point, as a number.
    pub fractions_integer_value: i64,
    /// How many digits behind the decimal point were taken.
    pub fractional_digit_count: i32,
    /// The exponent, without its sign.
    pub exponent_value: i32,
    /// The sign of the exponent: one or minus one.
    pub exponent_sign: i32,
    /// Whether the number is of double precision.
    pub is_double: bool,
}

impl NumberParts {
    /// A number of which nothing has been read.
    pub open spec fn blank() -> NumberParts {
        NumberParts {
            integer_value: 0,
            integer_digit_count: 0,
            fractions_integer_value: 0,
            fractional_digit_count: 0,
            exponent_value: 0,
            exponent_sign: 1,
            is_double: false,
        }
    }

    /// The parts after one more digit before the decimal point; `None`
    /// where the value outgrows 64 bits.
    pub open spec fn with_integer_digit(self, d: int) -> Option<NumberParts> {
        let v = self.integer_value * 10 + d;
        if v > i64::MAX {
            None
        } else {
            let count = if v != 0 {
                self.integer_digit_count + 1
            } else {
                self.integer_digit_count as int
            };
            Some(
                NumberParts {
                    integer_value: v as i64,
                    integer_digit_count: count as i32,
                    is_double: self.is_double || (v != 0 && count > 8),
                    ..self
                },
            )
        }
    }

    /// The parts after one more digit behind the decimal point. A digit
    /// that would make the value outgrow 64 bits is passed over.
    pub open spec fn with_fractional_digit(self, d: int) -> NumberParts {
        let v = self.fractions_integer_value * 10 + d;
        if v > i64::MAX {
            self
        } else {
            NumberParts {
                fractions_integer_value: v as i64,
                fractional_digit_count: (self.fractional_digit_count + 1) as i32,
                is_double: self.is_double || self.integer_digit_count + self.fractional_digit_count
                    + 1 > 8,
                ..self
            }
        }
    }

    /// The parts after one more digit of the exponent; `None` where the
    /// exponent outgrows 32 bits.
    pub open spec fn with_exponent_digit(self, d: int) -> Option<NumberParts> {
        let v = self.exponent_value * 10 + d;
        if v > i32::MAX {
            None
        } else {
            Some(NumberParts { exponent_value: v as i32, ..self })
        }
    }

    /// The invariant of a number that is being read.
    pub open spec fn wf(self) -> bool {
        &&& 0 <= self.integer_value
        &&& self.integer_digit_count == digit_count(self.integer_value as int)
        &&& 0 <= self.fractions_integer_value
        &&& 0 <= self.fractional_digit_count
        &&& 0 <= self.exponent_value
    }
}

/// The scanner's place in the source: the current character, where the
/// current lexeme began, and the number that is being read.
#[derive(Debug)]
pub struct InteriorContext {
    source: Vec<char>,
    source_length: usize,
    cursor: usize,
    current_n: usize,
    current_index: usize,
    current_character: char,
    current_character_class: CharacterClass,
    next_line_number: LineNumber,
    current_line_number: Option<LineNumber>,
    next_n: usize,
    next_index: usize,
    next_column: u32,
    current_column: Option<u32>,
    lexeme_start: usize,
    lexeme_starting_n: usize,
    lexeme_starting_index: usize,
    lexeme_starting_line_number: LineNumber,
    lexeme_starting_column: u32,
    number: NumberParts,
}

/// The longest source the scanner takes, in characters.
pub const MAX_SOURCE: usize = 0x0fff_ffff;

fn utf8_len(c: char) -> (r: usize)
    ensures
        r as int == utf8_size(c),
{
    let u: u32 = c as u32;
    if u < 0x80 {
        1
    } else if u < 0x800 {
        2
    } else if u < 0x10000 {
        3
    } else {
        4
    }
}

impl InteriorContext {
    /// The source text.
    pub closed spec fn text(&self) -> Seq<char> {
        self.source@
    }

    /// The index of the current character; the length of the text at its end.
    pub closed spec fn place(&self) -> int {
        self.cursor as int
    }

    /// The index at which the current lexeme began.
    pub closed spec fn lexeme_place(&self) -> int {
        self.lexeme_start as int
    }

    /// Where the current lexeme began, as handed out with its token.
    pub closed spec fn lexeme_position(&self) -> TokenPosition {
        TokenPosition {
            n: self.lexeme_starting_n,
            index: self.lexeme_starting_index,
            line_number: self.lexeme_starting_line_number,
            column: self.lexeme_starting_column,
        }
    }

    /// The number that is being read.
    pub closed spec fn number(&self) -> NumberParts {
        self.number
    }

    /// The invariant: the scanner stands on a character of the text or at
    /// its end, having read everything before it.
    pub closed spec fn wf(&self) -> bool {
        let s = self.source@;
        let k = self.cursor as int;
        &&& s.len() <= MAX_SOURCE
        &&& self.source_length == byte_offset(s, s.len() as int)
        &&& k <= s.len()
        &&& self.lexeme_start <= k
        &&& self.current_index == byte_offset(s, k)
        &&& self.current_line_number == Some(line_at(s, k) as u32)
        &&& self.current_column == Some(column_at(s, k) as u32)
        &&& self.number.wf()
        &&& if k < s.len() {
            &&& self.current_n == k
            &&& self.next_n == k + 1
            &&& self.next_index == byte_offset(s, k + 1)
            &&& self.current_character == s[k]
            &&& self.current_character_class == class_of(s[k])
            &&& self.next_line_number == line_at(s, k + 1)
            &&& self.next_column == column_at(s, k + 1)
        } else {
            &&& self.next_n == k
            &&& self.current_character_class == CharacterClass::Eos
            &&& self.next_line_number == line_at(s, k)
            &&& self.next_column == column_at(s, k)
        }
    }

    /// What the invariant says of the places and of the number.
    pub proof fn lemma_in_order(&self)
        requires
            self.wf(),
        ensures
            0 <= self.lexeme_place() <= self.place() <= self.text().len() <= MAX_SOURCE,
            self.number().wf(),
    {
    }

    /// The class of the current character; `Eos` at the end of the text.
    pub open spec fn class_here(&self) -> CharacterClass {
        if self.place() < self.text().len() {
            class_of(self.text()[self.place()])
        } else {
            CharacterClass::Eos
        }
    }

    /// The text of the current lexeme: from where it began up to, and
    /// without, the current character.
    pub open spec fn lexeme(&self) -> Seq<char> {
        self.text().subrange(self.lexeme_place(), self.place())
    }

    /// A scanner that stands on the first character of the text. A text
    /// longer than [`MAX_SOURCE`] characters is cut off there.
    pub fn new(source_string: &str) -> (r: InteriorContext)
        ensures
            r.wf(),
            source_string@.len() <= MAX_SOURCE ==> r.text() == source_string@,
            r.text() == source_string@.take(
                if source_string@.len() <= MAX_SOURCE {
                    source_string@.len() as int
                } else {
                    MAX_SOURCE as int
                },
            ),
            r.place() == 0,
            r.lexeme_place() == 0,
            r.number() == NumberParts::blank(),
    {
        let mut source = chars_of(source_string);
        if source.len() > MAX_SOURCE {
            source.truncate(MAX_SOURCE);
        }
        assert(source@ =~= source_string@.take(
            if source_string@.len() <= MAX_SOURCE {
                source_string@.len() as int
            } else {
                MAX_SOURCE as int
            },
        ));
        assert(source_string@.take(source_string@.len() as int) =~= source_string@);
        let mut total: usize = 0;
        let mut i: usize = 0;
        while i < source.len()
            invariant
                i <= source.len() <= MAX_SOURCE,
                total == byte_offset(source@, i as int),
                total <= 4 * i,
            decreases source.len() - i,
        {
            total = total + utf8_len(source[i]);
            i += 1;
        }
        let mut context = InteriorContext {
            source: source,
            source_length: total,
            cursor: 0,
            next_n: 0,
            next_index: 0,
            lexeme_start: 0,
            lexeme_starting_n: 0,
            lexeme_starting_index: 0,
            lexeme_starting_line_number: 0,
            lexeme_starting_column: 1,
            current_n: 0,
            current_index: 0,
            current_character: 'a',
            current_character_class: CharacterClass::Bos,
            next_line_number: 1,
            current_line_number: None,
            next_column: 0,
            current_column: None,
            number: NumberParts {
                integer_value: 0,
                integer_digit_count: 0,
                fractions_integer_value: 0,
                fractional_digit_count: 0,
                exponent_value: 0,
                exponent_sign: 1,
                is_double: false,
            },
        };
        context.first();
        context
    }

    /// Steps from before the text onto its first character.
    fn first(&mut self)
        requires
            old(self).source@.len() <= MAX_SOURCE,
            old(self).source_length == byte_offset(old(self).source@, old(self).source@.len() as int),
            old(self).cursor == 0,
            old(self).lexeme_start == 0,
            old(self).next_n == 0,
            old(self).next_index == 0,
            old(self).next_line_number == 1,
            old(self).next_column == 0,
            old(self).number.wf(),
        ensures
            final(self).wf(),
            final(self).source@ == old(self).source@,
            final(self).cursor == 0,
            final(self).lexeme_start == 0,
            final(self).lexeme_position() == old(self).lexeme_position(),
            final(self).number == old(self).number,
    {
        self.current_line_number = Some(self.next_line_number);
        self.current_column = Some(self.next_column);
        if self.next_n >= self.source.len() {
            self.current_index = self.source_length;
            self.current_character_class = CharacterClass::Eos;
        } else {
            let c = self.source[self.next_n];
            self.current_n = self.next_n;
            self.next_n = self.next_n + 1;
            self.current_index = self.next_index;
            self.next_index = self.next_index + utf8_len(c);
            self.current_character = c;
            self.current_character_class = get_character_class(c);
            if let CharacterClass::Newline = self.current_character_class {
                self.next_line_number = self.next_line_number + 1;
                self.next_column = 1;
            } else {
                self.next_column = self.next_column + 1;
            }
            proof {
                reveal_with_fuel(byte_offset, 2);
                reveal_with_fuel(line_at, 2);
                reveal_with_fuel(column_at, 2);
            }
        }
    }

    /// Takes the current character, a digit, into the exponent.
    pub fn add_exponential_digit(&mut self) -> (r: Result<(), String>)
        requires
            old(self).wf(),
            old(self).place() < old(self).text().len(),
            is_digit(old(self).text()[old(self).place()]),
        ensures
            final(self).wf(),
            final(self).text() == old(self).text(),
            final(self).place() == old(self).place(),
            final(self).lexeme_place() == old(self).lexeme_place(),
            final(self).lexeme_position() == old(self).lexeme_position(),
            match old(self).number().with_exponent_digit(digit_of(old(self).text()[old(self).place()])) {
                Some(p) => r is Ok && final(self).number() == p,
                None => r is Err && r->Err_0@ == overflow_message() && final(self).number() == old(self).number(),
            },
    {
        let d = digit_value(self.current_character) as i32;
        if self.number.exponent_value > (i32::MAX - d) / 10 {
            return Err(String::from_str("arithmetic overflow"));
        }
        self.number.exponent_value = self.number.exponent_value * 10 + d;
        Ok(())
    }

    /// Takes the current character, a digit, into the fraction.
    pub fn add_fractional_digit(&mut self)
        requires
            old(self).wf(),
            old(self).place() < old(self).text().len(),
            is_digit(old(self).text()[old(self).place()]),
            old(self).number().fractional_digit_count < i32::MAX,
        ensures
            final(self).wf(),
            final(self).text() == old(self).text(),
            final(self).place() == old(self).place(),
            final(self).lexeme_place() == old(self).lexeme_place(),
            final(self).lexeme_position() == old(self).lexeme_position(),
            final(self).number() == old(self).number().with_fractional_digit(
                digit_of(old(self).text()[old(self).place()]),
            ),
    {
        let d = digit_value(self.current_character) as i64;
        if self.number.fractions_integer_value <= (i64::MAX - d) / 10 {
            self.number.fractions_integer_value = self.number.fractions_integer_value * 10 + d;
            self.number.fractional_digit_count = self.number.fractional_digit_count + 1;
            proof {
                lemma_digit_count_small(self.number.integer_value as int);
            }
            if self.number.integer_digit_count as i64 + self.number.fractional_digit_count as i64 > 8 {
                self.number.is_double = true;
            }
        }
    }

    /// Takes the current character, a digit, into the integer part.
    pub fn add_integer_digit(&mut self) -> (r: Result<(), String>)
        requires
            old(self).wf(),
            old(self).place() < old(self).text().len(),
            is_digit(old(self).text()[old(self).place()]),
        ensures
            final(self).wf(),
            final(self).text() == old(self).text(),
            final(self).place() == old(self).place(),
            final(self).lexeme_place() == old(self).lexeme_place(),
            final(self).lexeme_position() == old(self).lexeme_position(),
            match old(self).number().with_integer_digit(digit_of(old(self).text()[old(self).place()])) {
                Some(p) => r is Ok && final(self).number() == p,
                None => r is Err && r->Err_0@ == overflow_message() && final(self).number() == old(self).number(),
            },
    {
        let d = digit_value(self.current_character) as i64;
        if self.number.integer_value > (i64::MAX - d) / 10 {
            return Err(String::from_str("arithmetic overflow"));
        }
        let ghost before = self.number.integer_value as int;
        self.number.integer_value = self.number.integer_value * 10 + d;
        if self.number.integer_value != 0 {
            proof {
                lemma_digit_count_small(before);
                assert((before * 10 + d) / 10 == before);
            }
            self.number.integer_digit_count = self.number.integer_digit_count + 1;
            if self.number.integer_digit_count > 8 {
                self.number.is_double = true;
            }
        }
        Ok(())
    }

    /// Forgets the number read so far.
    pub fn clear_number(&mut self)
        requires
            old(self).wf(),
        ensures
            final(self).wf(),
            final(self).text() == old(self).text(),
            final(self).place() == old(self).place(),
            final(self).lexeme_place() == old(self).lexeme_place(),
            final(self).lexeme_position() == old(self).lexeme_position(),
            final(self).number() == NumberParts::blank(),
    {
        self.number.integer_value = 0;
        self.number.integer_digit_count = 0;
        self.number.fractions_integer_value = 0;
        self.number.fractional_digit_count = 0;
        self.number.exponent_value = 0;
        self.number.exponent_sign = 1;
        self.number.is_double = false;
    }

    pub fn get_current_character(&self) -> (c: char)
        requires
            self.wf(),
        ensures
            self.place() < self.text().len() ==> c == self.text()[self.place()],
    {
        self.current_character
    }

    pub fn get_current_character_class(&self) -> (c: CharacterClass)
        requires
            self.wf(),
        ensures
            c == self.class_here(),
    {
        self.current_character_class
    }

    /// The index of the current character.
    pub fn get_place(&self) -> (r: usize)
        requires
            self.wf(),
        ensures
            r == self.place(),
            r <= self.text().len() <= MAX_SOURCE,
    {
        self.cursor
    }

    /// The index at which the current lexeme began.
    pub fn get_lexeme_place(&self) -> (r: usize)
        requires
            self.wf(),
        ensures
            r == self.lexeme_place(),
            r <= self.place(),
    {
        self.lexeme_start
    }

    pub fn get_current_position(&self) -> (r: TokenPosition)
        requires
            self.wf(),
        ensures
            r == position_at(self.text(), self.place()),
    {
        proof {
            lemma_position_bounds(self.source@, self.cursor as int);
        }
        TokenPosition {
            n: self.cursor,
            index: self.current_index,
            line_number: self.current_line_number.unwrap(),
            column: self.current_column.unwrap(),
        }
    }

    pub fn get_starting_position(&self) -> (r: TokenPosition)
        ensures
            r == self.lexeme_position(),
    {
        TokenPosition {
            n: self.lexeme_starting_n,
            index: self.lexeme_starting_index,
            line_number: self.lexeme_starting_line_number,
            column: self.lexeme_starting_column,
        }
    }

    pub fn get_integer_value(&self) -> (r: i64)
        ensures
            r == self.number().integer_value,
    {
        self.number.integer_value
    }

    /// The number read so far.
    pub fn get_number(&self) -> (r: NumberParts)
        ensures
            r == self.number(),
    {
        self.number
    }

    pub fn is_double(&self) -> (r: bool)
        ensures
            r == self.number().is_double,
    {
        self.number.is_double
    }

    /// The text of the current lexeme.
    pub fn get_lexeme_source(&self) -> (r: String)
        requires
            self.wf(),
        ensures
            r@ == self.lexeme(),
    {
        string_of_range(&self.source, self.lexeme_start, self.cursor)
    }

    /// Steps to the next character, whatever it is. Says whether there was one.
    pub fn literal_next(&mut self) -> (r: bool)
        requires
            old(self).wf(),
        ensures
            final(self).wf(),
            final(self).text() == old(self).text(),
            final(self).lexeme_place() == old(self).lexeme_place(),
            final(self).lexeme_position() == old(self).lexeme_position(),
            final(self).number() == old(self).number(),
            final(self).place() == if old(self).place() < old(self).text().len() {
                old(self).place() + 1
            } else {
                old(self).place()
            },
            r == (final(self).place() < final(self).text().len()),
    {
        self.next()
    }

    /// Steps to the next character. Says whether there was one; at the end
    /// of the text the scanner stays where it is.
    pub fn next(&mut self) -> (r: bool)
        requires
            old(self).wf(),
        ensures
            final(self).wf(),
            final(self).text() == old(self).text(),
            final(self).lexeme_place() == old(self).lexeme_place(),
            final(self).lexeme_position() == old(self).lexeme_position(),
            final(self).number() == old(self).number(),
            final(self).place() == if old(self).place() < old(self).text().len() {
                old(self).place() + 1
            } else {
                old(self).place()
            },
            r == (final(self).place() < final(self).text().len()),
    {
        proof {
            lemma_position_bounds(self.source@, self.cursor as int);
            if self.cursor + 1 <= self.source@.len() {
                lemma_position_bounds(self.source@, self.cursor as int + 1);
            }
            if self.cursor + 2 <= self.source@.len() {
                lemma_position_bounds(self.source@, self.cursor as int + 2);
            }
            lemma_position_bounds(self.source@, self.source@.len() as int);
        }
        self.current_line_number = Some(self.next_line_number);
        self.current_column = Some(self.next_column);
        if self.cursor < self.source.len() {
            self.cursor = self.cursor + 1;
        }
        if self.next_n >= self.source.len() {
            self.current_index = self.source_length;
            self.current_character_class = CharacterClass::Eos;
            false
        } else {
            let c = self.source[self.next_n];
            self.current_n = self.next_n;
            self.next_n = self.next_n + 1;
            self.current_index = self.next_index;
            self.next_index = self.next_index + utf8_len(c);
            self.current_character = c;
            self.current_character_class = get_character_class(c);
            if let CharacterClass::Newline = self.current_character_class {
                self.next_line_number = self.next_line_number + 1;
                self.next_column = 1;
            } else {
                self.next_column = self.next_column + 1;
            }
            true
        }
    }

    /// The class of the character behind the current one; `Eos` if there is none.
    pub fn peek(&self) -> (c: CharacterClass)
        requires
            self.wf(),
        ensures
            c == if self.place() + 1 < self.text().len() {
                class_of(self.text()[self.place() + 1])
            } else {
                CharacterClass::Eos
            },
    {
        if self.next_n >= self.source.len() {
            CharacterClass::Eos
        } else {
            get_character_class(self.source[self.next_n])
        }
    }

    pub fn set_exponent_sign(&mut self, s: i32)
        requires
            old(self).wf(),
        ensures
            final(self).wf(),
            final(self).text() == old(self).text(),
            final(self).place() == old(self).place(),
            final(self).lexeme_place() == old(self).lexeme_place(),
            final(self).lexeme_position() == old(self).lexeme_position(),
            final(self).number() == (NumberParts { exponent_sign: s, ..old(self).number() }),
    {
        self.number.exponent_sign = s;
    }

    pub fn set_is_double(&mut self)
        requires
            old(self).wf(),
        ensures
            final(self).wf(),
            final(self).text() == old(self).text(),
            final(self).place() == old(self).place(),
            final(self).lexeme_place() == old(self).lexeme_place(),
            final(self).lexeme_position() == old(self).lexeme_position(),
            final(self).number() == (NumberParts { is_double: true, ..old(self).number() }),
    {
        self.number.is_double = true;
    }

    /// Puts the scanner on the character at index `n`, or at the end of the
    /// text if there is no such character. Unless the scanner stands there
    /// already, the lexeme and the number are forgotten.
    pub fn set_iterator_to_nth(&mut self, n: usize)
        requires
            old(self).wf(),
        ensures
            final(self).wf(),
            final(self).text() == old(self).text(),
            final(self).place() == if n <= old(self).text().len() {
                n as int
            } else {
                old(self).text().len() as int
            },
            old(self).place() == n ==> final(self).lexeme_place() == old(self).lexeme_place()
                && final(self).lexeme_position() == old(self).lexeme_position() && final(self).number() == old(self).number(),
            old(self).place() != n ==> final(self).lexeme_place() == 0 && final(self).number()
                == NumberParts::blank(),
    {
        if self.cursor != n {
            self.cursor = 0;
            self.next_n = 0;
            self.next_index = 0;
            self.lexeme_start = 0;
            self.lexeme_starting_n = 0;
            self.lexeme_starting_index = 0;
            self.lexeme_starting_line_number = 0;
            self.lexeme_starting_column = 1;
            self.current_n = 0;
            self.current_index = 0;
            self.current_character = 'a';
            self.current_character_class = CharacterClass::Bos;
            self.next_line_number = 1;
            self.current_line_number = None;
            self.next_column = 0;
            self.current_column = None;
            self.number = NumberParts {
                integer_value: 0,
                integer_digit_count: 0,
                fractions_integer_value: 0,
                fractional_digit_count: 0,
                exponent_value: 0,
                exponent_sign: 1,
                is_double: false,
            };
            self.first();
            let mut i: usize = 0;
            while i < n && self.cursor < self.source.len()
                invariant
                    self.wf(),
                    self.source@ == old(self).source@,
                    self.lexeme_start == 0,
                    self.number == NumberParts::blank(),
                    self.cursor == i,
                    i <= n,
                decreases n - i,
            {
                self.next();
                i += 1;
            }
        }
    }

    /// Makes the current character the start of the lexeme.
    pub fn set_lexeme_start(&mut self)
        requires
            old(self).wf(),
        ensures
            final(self).wf(),
            final(self).text() == old(self).text(),
            final(self).place() == old(self).place(),
            final(self).number() == old(self).number(),
            final(self).lexeme_place() == old(self).place(),
            final(self).lexeme_position() == position_at(old(self).text(), old(self).place()),
    {
        proof {
            lemma_position_bounds(self.source@, self.cursor as int);
        }
        self.lexeme_start = self.cursor;
        self.lexeme_starting_n = self.cursor;
        self.lexeme_starting_index = self.current_index;
        self.lexeme_starting_line_number = self.current_line_number.unwrap();
        self.lexeme_starting_column = self.current_column.unwrap();
    }

    /// The character at index `k` of the source.
    pub fn char_at(&self, k: usize) -> (c: char)
        requires
            k < self.text().len(),
        ensures
            c == self.text()[k as int],
    {
        self.source[k]
    }

    /// The source text.
    pub fn as_source(&self) -> (r: &Vec<char>)
        ensures
            r@ == self.text(),
    {
        &self.source
    }
}

} // verus!
