//! Numeric formatting: what a format specification asks for, and how a
//! number is laid out under it.

use vstd::prelude::*;
use crate::text::{append_chars, decimal, decimal_chars, fill, repeat_char, string_of};

pub mod floating_point;
pub mod format_parser;
pub mod plan;
pub mod state_machine;

verus! {

/// The digit counts and marks of one format specification.
#[derive(Clone, Copy, Debug, PartialEq, Eq, Structural)]
pub struct FormatControl {
    pub integer_zero_suppression_digits: usize,
    pub integer_non_suppressed_digits: usize,
    pub decimal_required: bool,
    pub fractional_non_suppressed_digits: usize,
    pub fractional_zero_suppressed_digits: usize,
    pub exponent_symbol: Option<char>,
}

/// The kind of layout a format specification selects.
#[derive(Clone, Copy, Debug, PartialEq, Eq, Structural)]
pub enum FormatType {
    Default(FormatControl),
    FixedPoint(FormatControl),
    Real(FormatControl),
    Double(FormatControl),
    Free,
}

impl FormatControl {
    /// The format control that asks for nothing.
    pub open spec fn blank() -> FormatControl {
        FormatControl {
            integer_zero_suppression_digits: 0,
            integer_non_suppressed_digits: 0,
            decimal_required: false,
            fractional_non_suppressed_digits: 0,
            fractional_zero_suppressed_digits: 0,
            exponent_symbol: None,
        }
    }

    pub fn new() -> (r: FormatControl)
        ensures
            r == FormatControl::blank(),
    {
        FormatControl {
            integer_zero_suppression_digits: 0,
            integer_non_suppressed_digits: 0,
            decimal_required: false,
            fractional_non_suppressed_digits: 0,
            fractional_zero_suppressed_digits: 0,
            exponent_symbol: None,
        }
    }
}

/// A number taken apart into its sign, its digits without leading zeros, and
/// the count of those digits that stand behind the decimal point.
#[derive(Debug)]
pub struct ParsedF64 {
    pub is_negative: bool,
    pub digits: Vec<char>,
    pub fractional_digits: i32,
}

impl ParsedF64 {
    /// Sign, digits and fraction digits as plain data.
    pub open spec fn parts(&self) -> (bool, Seq<char>, int) {
        (self.is_negative, self.digits@, self.fractional_digits as int)
    }

    pub fn new() -> (r: ParsedF64)
        ensures
            r.parts() == (false, Seq::<char>::empty(), 0int),
    {
        ParsedF64 { is_negative: false, digits: Vec::new(), fractional_digits: 0 }
    }
}

impl Clone for ParsedF64 {
    fn clone(&self) -> (r: Self)
        ensures
            r.parts() == self.parts(),
    {
        ParsedF64 {
            is_negative: self.is_negative,
            digits: self.digits.clone(),
            fractional_digits: self.fractional_digits,
        }
    }
}

/// A count and its letter as they stand in a format specification; nothing
/// for a count of zero.
pub open spec fn counted(count: usize, letter: char) -> Seq<char> {
    if count > 0 {
        decimal(count as nat).push(letter)
    } else {
        Seq::empty()
    }
}

impl FormatControl {
    /// The format specification that asks for exactly this control.
    pub open spec fn text(&self) -> Seq<char> {
        let head = match self.exponent_symbol {
            Some(e) => seq![e],
            None => Seq::empty(),
        };
        let whole = counted(self.integer_zero_suppression_digits, 'z') + counted(
            self.integer_non_suppressed_digits,
            'd',
        );
        let fraction = if self.decimal_required {
            seq!['.'] + counted(self.fractional_non_suppressed_digits, 'd') + counted(
                self.fractional_zero_suppressed_digits,
                'z',
            )
        } else {
            Seq::empty()
        };
        head + whole + fraction
    }

    /// Spells the control as a format specification.
    pub fn to_chars(&self) -> (r: Vec<char>)
        ensures
            r@ == self.text(),
    {
        let mut r: Vec<char> = Vec::new();
        match self.exponent_symbol {
            None => {},
            Some(e) => {
                r.push(e);
            },
        }
        assert(r@ =~= match self.exponent_symbol {
            Some(e) => seq![e],
            None => Seq::empty(),
        });
        let ghost head = r@;
        push_counted(&mut r, self.integer_zero_suppression_digits, 'z');
        push_counted(&mut r, self.integer_non_suppressed_digits, 'd');
        if self.decimal_required {
            r.push('.');
            push_counted(&mut r, self.fractional_non_suppressed_digits, 'd');
            push_counted(&mut r, self.fractional_zero_suppressed_digits, 'z');
        }
        assert(r@ =~= self.text());
        r
    }

    /// Whether the digit counts are small enough to be added up.
    pub open spec fn fits(&self) -> bool {
        &&& self.integer_zero_suppression_digits <= 0x0fff_ffff
        &&& self.integer_non_suppressed_digits <= 0x0fff_ffff
        &&& self.fractional_non_suppressed_digits <= 0x0fff_ffff
        &&& self.fractional_zero_suppressed_digits <= 0x0fff_ffff
    }

    /// Whether the digit counts are small enough to be added up.
    pub fn is_fit(&self) -> (r: bool)
        ensures
            r == self.fits(),
    {
        self.integer_zero_suppression_digits <= 0x0fff_ffff && self.integer_non_suppressed_digits
            <= 0x0fff_ffff && self.fractional_non_suppressed_digits <= 0x0fff_ffff
            && self.fractional_zero_suppressed_digits <= 0x0fff_ffff
    }
}

fn push_counted(r: &mut Vec<char>, count: usize, letter: char)
    ensures
        final(r)@ == old(r)@ + counted(count, letter),
{
    if count > 0 {
        let d = decimal_chars(count as u64);
        append_chars(r, &d);
        r.push(letter);
        assert(r@ =~= old(r)@ + counted(count, letter));
    } else {
        assert(r@ =~= old(r)@ + counted(count, letter));
    }
}

/// The message for a number whose leading digits do not fit the format.
pub open spec fn lost_message() -> Seq<char> {
    "Significant high-order digits lost"@
}

/// The message for a negative number under a format without room for a sign.
pub open spec fn no_negative_message(f: FormatControl) -> Seq<char> {
    "Format \""@ + f.text() + "\" does not support negative numbers"@
}

fn no_negative_error(f: &FormatControl) -> (r: String)
    ensures
        r@ == no_negative_message(*f),
{
    let mut r = String::from_str("Format \"");
    let t = string_of(&f.to_chars());
    r.append(t.as_str());
    r.append("\" does not support negative numbers");
    r
}

/// How many leading positions of the integer part may be blank: the
/// zero-suppressed digits, less one for the sign of a negative number.
pub open spec fn blank_positions(f: FormatControl, negative: bool) -> int {
    if negative {
        f.integer_zero_suppression_digits - 1
    } else {
        f.integer_zero_suppression_digits as int
    }
}

/// The sign as it is printed: a minus for a negative number, else nothing.
pub open spec fn sign_text(negative: bool) -> Seq<char> {
    if negative {
        seq!['-']
    } else {
        Seq::empty()
    }
}

/// An integer laid out under a format: the digits padded with zeros to the
/// plain digit count, the sign, and blanks in front up to the full width;
/// then, where a decimal point is asked for, the point with its padding.
/// `Err` holds the message where the number does not fit.
pub open spec fn internal_layout(
    negative: bool,
    int_part: Seq<char>,
    has_fraction: bool,
    f: FormatControl,
) -> Result<Seq<char>, Seq<char>> {
    let blanks = blank_positions(f, negative);
    let plain = f.integer_non_suppressed_digits as int;
    if negative && f.integer_zero_suppression_digits == 0 {
        Err(no_negative_message(f))
    } else if int_part.len() > plain + blanks {
        Err(lost_message())
    } else {
        let body = fill('0', plain - int_part.len()) + int_part;
        let whole = fill(' ', blanks + plain - body.len()) + sign_text(negative) + body;
        let fraction = if f.decimal_required || has_fraction {
            seq!['.'] + fill('0', f.fractional_non_suppressed_digits as int) + fill(
                ' ',
                f.fractional_zero_suppressed_digits + plain - f.fractional_non_suppressed_digits,
            )
        } else {
            Seq::empty()
        };
        Ok(whole + fraction)
    }
}

/// What a result holds, as plain text on either side.
pub open spec fn text_of(r: Result<String, String>) -> Result<Seq<char>, Seq<char>> {
    match r {
        Ok(s) => Ok(s@),
        Err(e) => Err(e@),
    }
}

/// Lays out the digits of an integer under a format. `sign` is `-` for a
/// negative number; of `float_part` only matters whether it is empty.
pub fn format_internal(sign: &str, int_part: &Vec<char>, float_part: &Vec<char>, f: &FormatControl) -> (r:
    Result<String, String>)
    requires
        f.fits(),
    ensures
        text_of(r) == internal_layout(sign@ == seq!['-'], int_part@, float_part@.len() > 0, *f),
{
    proof {
        reveal_strlit("-");
    }
    assert("-"@ =~= seq!['-']);
    let negative = crate::text::string_is(&String::from_str(sign), "-");
    let available: usize;
    if negative {
        if f.integer_zero_suppression_digits > 0 {
            available = f.integer_zero_suppression_digits - 1;
        } else {
            return Err(no_negative_error(f));
        }
    } else {
        available = f.integer_zero_suppression_digits;
    }
    if int_part.len() > f.integer_non_suppressed_digits + available {
        return Err(String::from_str("Significant high-order digits lost"));
    }
    let zeros: usize = if int_part.len() < f.integer_non_suppressed_digits {
        f.integer_non_suppressed_digits - int_part.len()
    } else {
        0
    };
    let ghost plain = f.integer_non_suppressed_digits as int;
    let ghost body = fill('0', plain - int_part@.len()) + int_part@;
    let body_len: usize = zeros + int_part.len();
    assert(body.len() == body_len);
    let mut out = repeat_char(' ', available + f.integer_non_suppressed_digits - body_len);
    let ghost blanks = out@;
    if negative {
        out.push('-');
    }
    assert(out@ =~= blanks + sign_text(negative));
    let z = repeat_char('0', zeros);
    assert(z@ =~= fill('0', plain - int_part@.len()));
    append_chars(&mut out, &z);
    append_chars(&mut out, int_part);
    assert(out@ =~= blanks + sign_text(negative) + body);
    let ghost whole = out@;
    if f.decimal_required || float_part.len() > 0 {
        out.push('.');
        let z = repeat_char('0', f.fractional_non_suppressed_digits);
        append_chars(&mut out, &z);
        let room: usize = f.fractional_zero_suppressed_digits + f.integer_non_suppressed_digits;
        let b = repeat_char(
            ' ',
            if room > f.fractional_non_suppressed_digits {
                room - f.fractional_non_suppressed_digits
            } else {
                0
            },
        );
        assert(b@ =~= fill(
            ' ',
            f.fractional_zero_suppressed_digits + plain - f.fractional_non_suppressed_digits,
        ));
        append_chars(&mut out, &b);
        assert(out@ =~= whole + (seq!['.'] + fill('0', f.fractional_non_suppressed_digits as int)
            + fill(
            ' ',
            f.fractional_zero_suppressed_digits + plain - f.fractional_non_suppressed_digits,
        )));
    } else {
        assert(out@ =~= whole + Seq::<char>::empty());
    }
    Ok(string_of(&out))
}

/// An integer laid out under a format.
pub open spec fn int_layout(number: int, f: FormatControl) -> Result<Seq<char>, Seq<char>> {
    internal_layout(
        number < 0,
        decimal(
            (if number < 0 {
                -number
            } else {
                number
            }) as nat,
        ),
        false,
        f,
    )
}

/// Lays out an integer under a format.
pub fn format_int(number: i32, f: &FormatControl) -> (r: Result<String, String>)
    requires
        f.fits(),
    ensures
        text_of(r) == int_layout(number as int, *f),
{
    proof {
        reveal_strlit("-");
        reveal_strlit(" ");
    }
    assert("-"@ =~= seq!['-']);
    assert(" "@ =~= seq![' ']);
    let wide: i64 = number as i64;
    let magnitude: u64 = if wide < 0 {
        (-wide) as u64
    } else {
        wide as u64
    };
    let sign = if number < 0 {
        "-"
    } else {
        " "
    };
    let digits = decimal_chars(magnitude);
    let none: Vec<char> = Vec::new();
    assert(" "@[0] == ' ' && seq!['-'][0] == '-');
    assert((sign@ == seq!['-']) == (number < 0));
    format_internal(sign, &digits, &none, f)
}

/// Where the decimal point of a number stands among its digits, and the
/// power of ten that makes up for having moved it.
pub struct Layout {
    pub digits: Seq<char>,
    pub integer_digits: int,
    pub fractional_digits: int,
    pub exponent: int,
}

/// Moves the decimal point to the left until at most `room` digits stand
/// before it.
pub open spec fn shifted(l: Layout, room: int) -> Layout {
    if l.integer_digits > room {
        let by = l.integer_digits - room;
        Layout {
            integer_digits: room,
            fractional_digits: l.fractional_digits + by,
            exponent: l.exponent + by,
            ..l
        }
    } else {
        l
    }
}

/// Moves the decimal point to the right, one digit at a time, while fewer
/// than `wanted` digits stand before it and digits stand behind it. A
/// leading zero that comes to stand before the point is dropped.
pub open spec fn borrowed(l: Layout, wanted: int) -> Layout
    decreases l.fractional_digits,
{
    if l.integer_digits < wanted && l.fractional_digits > 0 && l.digits.len() > 0 {
        if l.digits[0] != '0' {
            borrowed(
                Layout {
                    integer_digits: l.integer_digits + 1,
                    fractional_digits: l.fractional_digits - 1,
                    exponent: l.exponent - 1,
                    ..l
                },
                wanted,
            )
        } else {
            borrowed(
                Layout {
                    digits: l.digits.drop_first(),
                    fractional_digits: l.fractional_digits - 1,
                    exponent: l.exponent - 1,
                    ..l
                },
                wanted,
            )
        }
    } else {
        l
    }
}

/// How many zeros end a text.
pub open spec fn trailing_zeros(s: Seq<char>) -> int
    decreases s.len(),
{
    if s.len() > 0 && s.last() == '0' {
        1 + trailing_zeros(s.drop_last())
    } else {
        0
    }
}

/// A text whose last zeros, at most `limit` of them, are blanked.
pub open spec fn zeros_blanked(s: Seq<char>, limit: int) -> Seq<char> {
    let k = if trailing_zeros(s) > limit {
        limit
    } else {
        trailing_zeros(s)
    };
    s.subrange(0, s.len() - k) + fill(' ', k)
}

/// The exponent as it is printed: the letter, a minus or a blank, and two
/// digits. `None` where the exponent needs more than two digits.
pub open spec fn exponent_text(symbol: char, exponent: int) -> Option<Seq<char>> {
    let magnitude = if exponent < 0 {
        -exponent
    } else {
        exponent
    };
    let sign = if exponent < 0 {
        '-'
    } else {
        ' '
    };
    if magnitude < 10 {
        Some(seq![symbol, sign, '0'] + decimal(magnitude as nat))
    } else if magnitude < 100 {
        Some(seq![symbol, sign] + decimal(magnitude as nat))
    } else {
        None
    }
}

/// What laying out a floating-point number comes to.
pub enum FloatLayout {
    /// The finished text.
    Text(Seq<char>),
    /// The digit behind the last printed one calls for rounding: ten to the
    /// given power is to be added to the number, away from zero, and the sum
    /// laid out without further rounding.
    Round { power: int, negative: bool },
    /// The number does not fit the format; the message says why.
    Failed(Seq<char>),
}

/// Whether the digit behind the last printed one makes the number round
/// away from zero: a five does so for positive numbers only, a larger digit always.
pub open spec fn rounds_up(next: char, negative: bool) -> bool {
    (next == '5' && !negative) || ('6' <= next && next <= '9')
}

/// Where the decimal point comes to stand: as given where the format has no
/// exponent; else moved until the digits before it fit the format and, where
/// digits are left behind it, fill the plain digit positions.
pub open spec fn placed(parts: (bool, Seq<char>, int), f: FormatControl) -> Layout {
    let given = Layout {
        digits: parts.1,
        integer_digits: parts.1.len() - parts.2,
        fractional_digits: parts.2,
        exponent: 0,
    };
    if f.exponent_symbol is Some {
        borrowed(
            shifted(given, f.integer_non_suppressed_digits + blank_positions(f, parts.0)),
            f.integer_non_suppressed_digits as int,
        )
    } else {
        given
    }
}

/// What stands before the digits: blanks up to the full width of the
/// integer part, the sign, and zeros up to the plain digit count.
pub open spec fn head_text(integer_digits: int, negative: bool, f: FormatControl) -> Seq<char> {
    let signed = sign_text(negative) + fill('0', f.integer_non_suppressed_digits - integer_digits);
    fill(
        ' ',
        f.integer_non_suppressed_digits + f.integer_zero_suppression_digits - signed.len()
            - integer_digits,
    ) + signed
}

/// How many fraction digits are printed.
pub open spec fn taken_digits(fractional_digits: int, f: FormatControl) -> int {
    let fraction_room = f.fractional_non_suppressed_digits + f.fractional_zero_suppressed_digits;
    if !f.decimal_required {
        0
    } else if fractional_digits < fraction_room {
        fractional_digits
    } else {
        fraction_room
    }
}

/// The decimal point and what follows it: the fraction digits, zeros up to
/// the plain digit count, and blanks up to the full width of the fraction.
pub open spec fn fraction_text(fraction: Seq<char>, f: FormatControl) -> Seq<char> {
    let plain = f.fractional_non_suppressed_digits as int;
    let shown = if fraction.len() < plain {
        plain
    } else {
        fraction.len() as int
    };
    seq!['.'] + fraction + fill('0', plain - fraction.len()) + fill(
        ' ',
        plain + f.fractional_zero_suppressed_digits - shown,
    )
}

/// A floating-point number laid out under a format. `parts` are the sign,
/// the digits and the count of fraction digits of the number.
pub open spec fn float_layout(
    parts: (bool, Seq<char>, int),
    is_rounded: bool,
    exponent_symbol: char,
    f: FormatControl,
) -> FloatLayout {
    let negative = parts.0;
    let l = placed(parts, f);
    if negative && f.integer_zero_suppression_digits == 0 {
        FloatLayout::Failed(no_negative_message(f))
    } else if l.integer_digits > f.integer_non_suppressed_digits + blank_positions(f, negative) {
        FloatLayout::Failed(lost_message())
    } else {
        let taken = taken_digits(l.fractional_digits, f);
        let next = l.integer_digits + taken;
        if !is_rounded && next < l.digits.len() && rounds_up(l.digits[next], negative) {
            FloatLayout::Round { power: l.exponent - taken, negative: negative }
        } else {
            let whole = head_text(l.integer_digits, negative, f) + l.digits.subrange(
                0,
                l.integer_digits,
            );
            let number = if f.decimal_required {
                zeros_blanked(
                    whole + fraction_text(l.digits.subrange(l.integer_digits, next), f),
                    f.fractional_zero_suppressed_digits as int,
                )
            } else {
                whole
            };
            if f.exponent_symbol is Some {
                match exponent_text(exponent_symbol, l.exponent) {
                    Some(e) => FloatLayout::Text(number + e),
                    None => FloatLayout::Failed(lost_message()),
                }
            } else {
                FloatLayout::Text(number)
            }
        }
    }
}

/// What [`format_float`] hands back where the number fits the format.
#[derive(Debug)]
pub enum FloatFormat {
    /// The finished text.
    Done(String),
    /// Ten to the power `power` is to be added to the number, away from
    /// zero, and the sum laid out again as already rounded.
    Round { power: i32, is_negative: bool },
}

/// What a result of [`format_float`] holds, as a layout.
pub open spec fn layout_of(r: Result<FloatFormat, String>) -> FloatLayout {
    match r {
        Ok(FloatFormat::Done(s)) => FloatLayout::Text(s@),
        Ok(FloatFormat::Round { power, is_negative }) => FloatLayout::Round {
            power: power as int,
            negative: is_negative,
        },
        Err(e) => FloatLayout::Failed(e@),
    }
}

/// Appends `v[from..to]` to `out`.
fn append_range(out: &mut Vec<char>, v: &Vec<char>, from: usize, to: usize)
    requires
        from <= to <= v.len(),
    ensures
        final(out)@ == old(out)@ + v@.subrange(from as int, to as int),
{
    let mut i: usize = from;
    assert(out@ =~= old(out)@ + v@.subrange(from as int, i as int));
    while i < to
        invariant
            from <= i <= to <= v.len(),
            out@ == old(out)@ + v@.subrange(from as int, i as int),
        decreases to - i,
    {
        out.push(v[i]);
        i += 1;
        assert(out@ =~= old(out)@ + v@.subrange(from as int, i as int));
    }
}

/// Blanks the zeros that end `out`, at most `limit` of them.
fn blank_trailing_zeros(out: &mut Vec<char>, limit: usize)
    ensures
        final(out)@ == zeros_blanked(old(out)@, limit as int),
{
    let ghost s = out@;
    let n: usize = out.len();
    let mut k: usize = 0;
    assert(s.subrange(0, n as int) =~= s);
    while k < n && out[n - 1 - k] == '0'
        invariant
            k <= n == out.len(),
            out@ == s,
            trailing_zeros(s) == k + trailing_zeros(s.subrange(0, n - k)),
        decreases n - k,
    {
        proof {
            let t = s.subrange(0, n - k);
            assert(t.last() == '0');
            assert(t.drop_last() =~= s.subrange(0, n - k - 1));
        }
        k += 1;
    }
    proof {
        let t = s.subrange(0, n - k);
        assert(t.len() > 0 ==> t.last() == s[n - k - 1]);
        assert(trailing_zeros(t) == 0);
    }
    if k > limit {
        k = limit;
    }
    let mut j: usize = 0;
    assert(out@ =~= s.subrange(0, n - j) + fill(' ', j as int));
    while j < k
        invariant
            j <= k <= n == out.len(),
            s.len() == n,
            out@ == s.subrange(0, n - k) + s.subrange(n - k, n - j) + fill(' ', j as int),
        decreases k - j,
    {
        out.set(n - 1 - j, ' ');
        j += 1;
        assert(out@ =~= s.subrange(0, n - k) + s.subrange(n - k, n - j) + fill(' ', j as int));
    }
    assert(out@ =~= s.subrange(0, n - k) + fill(' ', k as int));
}

/// Appends the exponent to `out`; fails where it needs more than two digits.
fn push_exponent(out: &mut Vec<char>, symbol: char, exponent: i64) -> (ok: bool)
    requires
        -0x7fff_ffff <= exponent <= 0x7fff_ffff,
    ensures
        match exponent_text(symbol, exponent as int) {
            Some(e) => ok && final(out)@ == old(out)@ + e,
            None => !ok,
        },
{
    let magnitude: u64 = if exponent < 0 {
        (-exponent) as u64
    } else {
        exponent as u64
    };
    if magnitude >= 100 {
        return false;
    }
    out.push(symbol);
    out.push(
        if exponent < 0 {
            '-'
        } else {
            ' '
        },
    );
    if magnitude < 10 {
        out.push('0');
    }
    let d = decimal_chars(magnitude);
    append_chars(out, &d);
    assert(out@ =~= old(out)@ + exponent_text(symbol, exponent as int)->0);
    true
}

/// Finds where the decimal point comes to stand. Hands back how many
/// leading digits were dropped, the counts of digits before and behind the
/// point, and the exponent.
fn place_point(parsed: &ParsedF64, f: &FormatControl) -> (r: (usize, i64, i64, i64))
    requires
        f.fits(),
        parsed.digits.len() <= 0x0fff_ffff,
        0 <= parsed.fractional_digits <= parsed.digits.len(),
        !(parsed.is_negative && f.integer_zero_suppression_digits == 0),
    ensures
        r.0 <= parsed.digits.len(),
        0 <= r.1,
        0 <= r.2,
        r.0 + r.1 + r.2 == parsed.digits.len(),
        -0x1fff_ffff <= r.3 <= 0x1fff_ffff,
        placed(parsed.parts(), *f) == (Layout {
            digits: parsed.digits@.skip(r.0 as int),
            integer_digits: r.1 as int,
            fractional_digits: r.2 as int,
            exponent: r.3 as int,
        }),
{
    let plain: i64 = f.integer_non_suppressed_digits as i64;
    let room: i64 = plain + f.integer_zero_suppression_digits as i64 - if parsed.is_negative {
        1
    } else {
        0
    };
    let len: i64 = parsed.digits.len() as i64;
    let mut start: usize = 0;
    let mut integer_digits: i64 = len - parsed.fractional_digits as i64;
    let mut fractional_digits: i64 = parsed.fractional_digits as i64;
    let mut exponent: i64 = 0;
    assert(parsed.digits@.skip(0) =~= parsed.digits@);
    if f.exponent_symbol.is_some() {
        if integer_digits > room {
            let by = integer_digits - room;
            integer_digits = room;
            fractional_digits = fractional_digits + by;
            exponent = exponent + by;
        }
        while integer_digits < plain && fractional_digits > 0
            invariant
                0 <= start <= parsed.digits.len() <= 0x0fff_ffff,
                len == parsed.digits.len(),
                0 <= integer_digits,
                0 <= fractional_digits,
                integer_digits + fractional_digits == len - start,
                -len <= exponent + start + integer_digits <= len,
                placed(parsed.parts(), *f) == borrowed(
                    Layout {
                        digits: parsed.digits@.skip(start as int),
                        integer_digits: integer_digits as int,
                        fractional_digits: fractional_digits as int,
                        exponent: exponent as int,
                    },
                    plain as int,
                ),
            decreases fractional_digits,
        {
            fractional_digits = fractional_digits - 1;
            exponent = exponent - 1;
            assert(parsed.digits@.skip(start as int)[0] == parsed.digits@[start as int]);
            if parsed.digits[start] != '0' {
                integer_digits = integer_digits + 1;
            } else {
                assert(parsed.digits@.skip(start as int).drop_first() =~= parsed.digits@.skip(
                    start as int + 1,
                ));
                start = start + 1;
            }
        }
    }
    (start, integer_digits, fractional_digits, exponent)
}

/// The blanks, the sign and the zeros that stand before the digits.
fn make_head(integer_digits: i64, negative: bool, f: &FormatControl) -> (out: Vec<char>)
    requires
        f.fits(),
        0 <= integer_digits <= 0x0fff_ffff,
    ensures
        out@ == head_text(integer_digits as int, negative, *f),
{
    let plain: i64 = f.integer_non_suppressed_digits as i64;
    let width: i64 = plain + f.integer_zero_suppression_digits as i64;
    let zeros_count: i64 = if integer_digits < plain {
        plain - integer_digits
    } else {
        0
    };
    let signed_len: i64 = zeros_count + if negative {
        1
    } else {
        0
    };
    let blanks_count: i64 = if width > signed_len + integer_digits {
        width - signed_len - integer_digits
    } else {
        0
    };
    let mut out = repeat_char(' ', blanks_count as usize);
    let ghost blanks = out@;
    if negative {
        out.push('-');
    }
    assert(out@ =~= blanks + sign_text(negative));
    let zeros = repeat_char('0', zeros_count as usize);
    assert(zeros@ =~= fill('0', plain - integer_digits));
    append_chars(&mut out, &zeros);
    assert(out@ =~= blanks + (sign_text(negative) + zeros@));
    out
}

/// Appends the decimal point, the fraction digits `digits[from..to]` and
/// their padding.
fn push_fraction(out: &mut Vec<char>, digits: &Vec<char>, from: usize, to: usize, f: &FormatControl)
    requires
        f.fits(),
        from <= to <= digits.len() <= 0x0fff_ffff,
        to - from <= f.fractional_non_suppressed_digits + f.fractional_zero_suppressed_digits,
    ensures
        final(out)@ == old(out)@ + fraction_text(digits@.subrange(from as int, to as int), *f),
{
    let ghost fraction = digits@.subrange(from as int, to as int);
    let taken: usize = to - from;
    let plain: usize = f.fractional_non_suppressed_digits;
    let mut tail: Vec<char> = Vec::new();
    tail.push('.');
    append_range(&mut tail, digits, from, to);
    let z = repeat_char(
        '0',
        if taken < plain {
            plain - taken
        } else {
            0
        },
    );
    assert(z@ =~= fill('0', plain - fraction.len()));
    append_chars(&mut tail, &z);
    let shown: usize = if taken < plain {
        plain
    } else {
        taken
    };
    let b = repeat_char(' ', plain + f.fractional_zero_suppressed_digits - shown);
    append_chars(&mut tail, &b);
    assert(tail@ =~= fraction_text(fraction, *f));
    append_chars(out, &tail);
}

/// Lays out a floating-point number, given by its sign and digits, under a
/// format. Where the digit behind the last printed one calls for rounding
/// and `is_rounded` is not set, no text is made: the caller adds the stated
/// power of ten to the number and lays out the sum with `is_rounded` set.
pub fn format_float(parsed: &ParsedF64, is_rounded: bool, exponent_symbol: char, f: &FormatControl) -> (r:
    Result<FloatFormat, String>)
    requires
        f.fits(),
        parsed.digits.len() <= 0x0fff_ffff,
        0 <= parsed.fractional_digits <= parsed.digits.len(),
    ensures
        layout_of(r) == float_layout(parsed.parts(), is_rounded, exponent_symbol, *f),
{
    let negative = parsed.is_negative;
    if negative && f.integer_zero_suppression_digits == 0 {
        return Err(no_negative_error(f));
    }
    let (start, integer_digits, fractional_digits, exponent) = place_point(parsed, f);
    let ghost l = placed(parsed.parts(), *f);
    let room: i64 = f.integer_non_suppressed_digits as i64 + f.integer_zero_suppression_digits as i64
        - if negative {
        1
    } else {
        0
    };
    if integer_digits > room {
        return Err(String::from_str("Significant high-order digits lost"));
    }
    let fraction_room: i64 = f.fractional_non_suppressed_digits as i64
        + f.fractional_zero_suppressed_digits as i64;
    let taken: i64 = if !f.decimal_required {
        0
    } else if fractional_digits < fraction_room {
        fractional_digits
    } else {
        fraction_room
    };
    let first: usize = start + integer_digits as usize;
    let next: usize = first + taken as usize;
    if !is_rounded && next < parsed.digits.len() {
        let c = parsed.digits[next];
        assert(l.digits[integer_digits + taken] == c);
        if (c == '5' && !negative) || ('6' <= c && c <= '9') {
            return Ok(FloatFormat::Round { power: (exponent - taken) as i32, is_negative: negative });
        }
    }
    let mut out = make_head(integer_digits, negative, f);
    append_range(&mut out, &parsed.digits, start, first);
    assert(l.digits.subrange(0, integer_digits as int) =~= parsed.digits@.subrange(
        start as int,
        first as int,
    ));
    if f.decimal_required {
        push_fraction(&mut out, &parsed.digits, first, next, f);
        assert(l.digits.subrange(integer_digits as int, integer_digits + taken)
            =~= parsed.digits@.subrange(first as int, next as int));
        blank_trailing_zeros(&mut out, f.fractional_zero_suppressed_digits);
    }
    if f.exponent_symbol.is_some() {
        if !push_exponent(&mut out, exponent_symbol, exponent) {
            return Err(String::from_str("Significant high-order digits lost"));
        }
    }
    Ok(FloatFormat::Done(string_of(&out)))
}

/// An integer as text: a minus sign for a negative number, and the digits.
pub open spec fn int_text(number: int) -> Seq<char> {
    if number < 0 {
        seq!['-'] + decimal((-number) as nat)
    } else {
        decimal(number as nat)
    }
}

/// An integer as text.
pub fn int_string(number: i32) -> (r: String)
    ensures
        r@ == int_text(number as int),
{
    let wide: i64 = number as i64;
    let mut out: Vec<char> = Vec::new();
    if wide < 0 {
        out.push('-');
        let d = decimal_chars((-wide) as u64);
        append_chars(&mut out, &d);
        assert(out@ =~= int_text(number as int));
    } else {
        let d = decimal_chars(wide as u64);
        append_chars(&mut out, &d);
        assert(out@ =~= int_text(number as int));
    }
    string_of(&out)
}

/// A wide integer as text.
pub fn wide_string(number: i64) -> (r: String)
    ensures
        r@ == int_text(number as int),
{
    let mut out: Vec<char> = Vec::new();
    if number < 0 {
        out.push('-');
        let magnitude: u64 = if number == i64::MIN {
            0x8000_0000_0000_0000
        } else {
            (-number) as u64
        };
        let d = decimal_chars(magnitude);
        append_chars(&mut out, &d);
        assert(out@ =~= int_text(number as int));
    } else {
        let d = decimal_chars(number as u64);
        append_chars(&mut out, &d);
        assert(out@ =~= int_text(number as int));
    }
    string_of(&out)
}

/// A count as text.
pub fn count_string(number: usize) -> (r: String)
    ensures
        r@ == int_text(number as int),
{
    let d = decimal_chars(number as u64);
    let mut out: Vec<char> = Vec::new();
    append_chars(&mut out, &d);
    assert(out@ =~= int_text(number as int));
    string_of(&out)
}

} // verus!
