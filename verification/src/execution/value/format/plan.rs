//! The formatting of a list of values.
//!
//! The values are gone through in order. A character string among them
//! is a format specification for the numbers that follow it. Integers
//! are laid out here; for a number with a fraction what is to be laid
//! out is stated, with the format and the letter of the exponent, and
//! the text is made where the digits of the number can be had.

use vstd::prelude::*;
use crate::execution::value::ieee::{double_to_int, int_of_double, int_to_double, double_of_int, real_to_double, widen};
use crate::execution::value::{Store, Value};
use crate::text::lower;
use super::format_parser::{parsed, Parser};
use super::state_machine::invalid_message;
use super::{format_int, int_layout, int_string, int_text, FormatControl, FormatType};

verus! {

/// A part of what a list of values is formatted to.
#[derive(Debug)]
pub enum Formatted {
    /// A finished text.
    Text(String),
    /// A double precision number, by its bits, that is to be laid out
    /// under a format with a letter for the exponent.
    Float { bits: u64, exponent_symbol: char, control: FormatControl },
    /// A single precision number, by its bits, that is to be shown as it is.
    FreeReal(u32),
    /// A double precision number, by its bits, that is to be shown as it is.
    FreeDouble(u64),
}

/// A part as plain data.
pub enum FormattedModel {
    Text(Seq<char>),
    Float { bits: u64, exponent_symbol: char, control: FormatControl },
    FreeReal(u32),
    FreeDouble(u64),
}

impl Formatted {
    pub open spec fn model(&self) -> FormattedModel {
        match self {
            Formatted::Text(t) => FormattedModel::Text(t@),
            Formatted::Float { bits, exponent_symbol, control } => FormattedModel::Float {
                bits: *bits,
                exponent_symbol: *exponent_symbol,
                control: *control,
            },
            Formatted::FreeReal(b) => FormattedModel::FreeReal(*b),
            Formatted::FreeDouble(b) => FormattedModel::FreeDouble(*b),
        }
    }
}

/// The models of a list of parts.
pub open spec fn models(parts: Seq<Formatted>) -> Seq<FormattedModel> {
    Seq::new(parts.len(), |i: int| parts[i].model())
}

/// The message for a value that is no number and no format.
pub open spec fn not_formattable_message() -> Seq<char> {
    "Value cannot be formatted"@
}

/// The letter of the exponent of a format, `fallback` where it has none.
pub open spec fn symbol_of(f: FormatControl, fallback: char) -> char {
    match f.exponent_symbol {
        Some(c) => c,
        None => fallback,
    }
}

/// The text of a character string: the characters in its cells, in
/// order; nothing where a cell holds no character.
pub open spec fn characters(store: &Store, cells: Seq<usize>, i: int) -> Option<Seq<char>>
    decreases cells.len() - i,
{
    if i < 0 || i >= cells.len() {
        Some(Seq::empty())
    } else if cells[i] < store.cells().len() && store.value_at(cells[i]) is Char {
        match characters(store, cells, i + 1) {
            Some(rest) => Some(seq![store.value_at(cells[i])->Char_0] + rest),
            None => None,
        }
    } else {
        None
    }
}

/// What one number is formatted to under a format.
#[verifier::opaque]
pub open spec fn formatted_number(v: Value, format: FormatType) -> Result<FormattedModel, Seq<char>> {
    match (v, format) {
        (Value::Int(i), FormatType::Default(f)) | (Value::Int(i), FormatType::FixedPoint(f)) => if f.fits() {
            match int_layout(i as int, f) {
                Ok(t) => Ok(FormattedModel::Text(t)),
                Err(e) => Err(e),
            }
        } else {
            Err(invalid_message())
        },
        (Value::Int(i), FormatType::Double(f)) | (Value::Int(i), FormatType::Real(f)) => Ok(
            FormattedModel::Float { bits: int_to_double(i), exponent_symbol: symbol_of(f, 'E'), control: f },
        ),
        (Value::Int(i), FormatType::Free) => Ok(FormattedModel::Text(int_text(i as int))),
        (Value::Real(r), FormatType::Default(f)) => Ok(
            FormattedModel::Float { bits: real_to_double(r), exponent_symbol: 'E', control: f },
        ),
        (Value::Real(r), FormatType::Double(f)) | (Value::Real(r), FormatType::Real(f)) => Ok(
            FormattedModel::Float { bits: real_to_double(r), exponent_symbol: symbol_of(f, 'E'), control: f },
        ),
        (Value::Real(r), FormatType::FixedPoint(f)) => if f.fits() {
            match int_layout(double_to_int(real_to_double(r)) as int, f) {
                Ok(t) => Ok(FormattedModel::Text(t)),
                Err(e) => Err(e),
            }
        } else {
            Err(invalid_message())
        },
        (Value::Real(r), FormatType::Free) => Ok(FormattedModel::FreeReal(r)),
        (Value::Double(d), FormatType::Default(f)) => Ok(
            FormattedModel::Float { bits: d, exponent_symbol: 'D', control: f },
        ),
        (Value::Double(d), FormatType::Double(f)) | (Value::Double(d), FormatType::Real(f)) => Ok(
            FormattedModel::Float { bits: d, exponent_symbol: symbol_of(f, 'D'), control: f },
        ),
        (Value::Double(d), FormatType::FixedPoint(f)) => if f.fits() {
            match int_layout(double_to_int(d) as int, f) {
                Ok(t) => Ok(FormattedModel::Text(t)),
                Err(e) => Err(e),
            }
        } else {
            Err(invalid_message())
        },
        (Value::Double(d), FormatType::Free) => Ok(FormattedModel::FreeDouble(d)),
        _ => Err(not_formattable_message()),
    }
}

/// What the values of a list from index `i` on are formatted to, under
/// the format that the values before them left.
pub open spec fn formatted(store: &Store, args: Seq<Value>, i: int, format: FormatType) -> Result<
    Seq<FormattedModel>,
    Seq<char>,
>
    decreases args.len() - i,
{
    if i < 0 || i >= args.len() {
        Ok(Seq::empty())
    } else {
        match args[i] {
            Value::Sequence(s) => if lower(s.datatype()) == lower("string"@) {
                match characters(store, s.cells(), 0) {
                    Some(t) => match parsed(t) {
                        Some(next) => formatted(store, args, i + 1, next),
                        None => Err(invalid_message()),
                    },
                    None => Err(invalid_message()),
                }
            } else {
                Err(not_formattable_message())
            },
            v => match formatted_number(v, format) {
                Ok(part) => match formatted(store, args, i + 1, format) {
                    Ok(rest) => Ok(seq![part] + rest),
                    Err(e) => Err(e),
                },
                Err(e) => Err(e),
            },
        }
    }
}

fn symbol(f: &FormatControl, fallback: char) -> (r: char)
    ensures
        r == symbol_of(*f, fallback),
{
    match f.exponent_symbol {
        Some(c) => c,
        None => fallback,
    }
}

fn laid_out(number: i32, f: &FormatControl) -> (r: Result<Formatted, String>)
    ensures
        match (
            r,
            if f.fits() {
                int_layout(number as int, *f)
            } else {
                Err(invalid_message())
            },
        ) {
            (Ok(p), Ok(t)) => p.model() == FormattedModel::Text(t),
            (Err(e), Err(m)) => e@ == m,
            _ => false,
        },
{
    if !f.is_fit() {
        return Err(String::from_str("Invalid format specification"));
    }
    match format_int(number, f) {
        Ok(t) => Ok(Formatted::Text(t)),
        Err(e) => Err(e),
    }
}

/// Formats one number under a format.
pub fn format_number(v: &Value, format: &FormatType) -> (r: Result<Formatted, String>)
    ensures
        match (r, formatted_number(*v, *format)) {
            (Ok(p), Ok(m)) => p.model() == m,
            (Err(e), Err(m)) => e@ == m,
            _ => false,
        },
{
    reveal(formatted_number);
    match (v, format) {
        (Value::Int(i), FormatType::Default(f)) => laid_out(*i, f),
        (Value::Int(i), FormatType::FixedPoint(f)) => laid_out(*i, f),
        (Value::Int(i), FormatType::Double(f)) => Ok(
            Formatted::Float { bits: double_of_int(*i), exponent_symbol: symbol(f, 'E'), control: *f },
        ),
        (Value::Int(i), FormatType::Real(f)) => Ok(
            Formatted::Float { bits: double_of_int(*i), exponent_symbol: symbol(f, 'E'), control: *f },
        ),
        (Value::Int(i), FormatType::Free) => Ok(Formatted::Text(int_string(*i))),
        (Value::Real(x), FormatType::Default(f)) => Ok(
            Formatted::Float { bits: widen(*x), exponent_symbol: 'E', control: *f },
        ),
        (Value::Real(x), FormatType::Double(f)) => Ok(
            Formatted::Float { bits: widen(*x), exponent_symbol: symbol(f, 'E'), control: *f },
        ),
        (Value::Real(x), FormatType::Real(f)) => Ok(
            Formatted::Float { bits: widen(*x), exponent_symbol: symbol(f, 'E'), control: *f },
        ),
        (Value::Real(x), FormatType::FixedPoint(f)) => laid_out(int_of_double(widen(*x)), f),
        (Value::Real(x), FormatType::Free) => Ok(Formatted::FreeReal(*x)),
        (Value::Double(x), FormatType::Default(f)) => Ok(
            Formatted::Float { bits: *x, exponent_symbol: 'D', control: *f },
        ),
        (Value::Double(x), FormatType::Double(f)) => Ok(
            Formatted::Float { bits: *x, exponent_symbol: symbol(f, 'D'), control: *f },
        ),
        (Value::Double(x), FormatType::Real(f)) => Ok(
            Formatted::Float { bits: *x, exponent_symbol: symbol(f, 'D'), control: *f },
        ),
        (Value::Double(x), FormatType::FixedPoint(f)) => laid_out(int_of_double(*x), f),
        (Value::Double(x), FormatType::Free) => Ok(Formatted::FreeDouble(*x)),
        _ => Err(String::from_str("Value cannot be formatted")),
    }
}

/// The characters in the cells of a character string.
pub fn characters_of(store: &Store, cells: &Vec<usize>) -> (r: Option<Vec<char>>)
    requires
        store.wf(),
    ensures
        match (r, characters(store, cells@, 0)) {
            (Some(t), Some(m)) => t@ == m,
            (None, None) => true,
            _ => false,
        },
{
    let mut text: Vec<char> = Vec::new();
    let mut i: usize = cells.len();
    // The text is built from the last cell back, and then turned round.
    while i > 0
        invariant
            i <= cells.len(),
            store.wf(),
            characters(store, cells@, i as int) matches Some(t) && t.len() == text@.len() && forall|k: int|
                0 <= k < t.len() ==> #[trigger] text@[t.len() - 1 - k] == t[k],
        decreases i,
    {
        i -= 1;
        if cells[i] >= store.cell_count() {
            proof {
                lemma_no_characters(store, cells@, i as int, 0);
            }
            return None;
        }
        match store.get(cells[i]) {
            Value::Char(c) => {
                let ghost before = characters(store, cells@, i as int + 1)->0;
                let ghost sofar = text@;
                text.push(*c);
                proof {
                    let t = characters(store, cells@, i as int)->0;
                    assert(t =~= seq![*c] + before);
                    assert forall|k: int| 0 <= k < t.len() implies #[trigger] text@[t.len() - 1 - k] == t[k] by {
                        if k > 0 {
                            assert(sofar[before.len() - 1 - (k - 1)] == before[k - 1]);
                        }
                    }
                }
            },
            _ => {
                proof {
                    lemma_no_characters(store, cells@, i as int, 0);
                }
                return None;
            },
        }
    }
    let ghost t = characters(store, cells@, 0)->0;
    let mut result: Vec<char> = Vec::new();
    let mut left: usize = text.len();
    while left > 0
        invariant
            left <= text.len(),
            t.len() == text@.len(),
            result@.len() == text@.len() - left,
            forall|k: int| 0 <= k < t.len() ==> #[trigger] text@[t.len() - 1 - k] == t[k],
            forall|k: int| 0 <= k < result@.len() ==> #[trigger] result@[k] == t[k],
        decreases left,
    {
        left -= 1;
        let ghost k = result@.len() as int;
        assert(text@[t.len() - 1 - k] == t[k]);
        result.push(text[left]);
    }
    assert(result@ =~= t);
    Some(result)
}

/// Where a cell holds no character, the cells from any place before it hold no text.
pub proof fn lemma_no_characters(store: &Store, cells: Seq<usize>, bad: int, from: int)
    requires
        0 <= from <= bad < cells.len(),
        !(cells[bad] < store.cells().len() && store.value_at(cells[bad]) is Char),
    ensures
        characters(store, cells, from) is None,
    decreases bad - from,
{
    if from < bad {
        lemma_no_characters(store, cells, bad, from + 1);
    }
}

/// Formats a list of values.
pub fn format(args: &Vec<Value>, store: &Store) -> (r: Result<Vec<Formatted>, String>)
    requires
        store.wf(),
    ensures
        match (r, formatted(store, args@, 0, FormatType::Default(FormatControl::blank()))) {
            (Ok(parts), Ok(m)) => models(parts@) == m,
            (Err(e), Err(m)) => e@ == m,
            _ => false,
        },
{
    let ghost start = FormatType::Default(FormatControl::blank());
    let mut parser = Parser::new();
    let mut last_format = FormatType::Default(FormatControl::new());
    let mut result: Vec<Formatted> = Vec::new();
    let mut i: usize = 0;
    assert(models(result@) =~= Seq::<FormattedModel>::empty());
    while i < args.len()
        invariant
            i <= args.len(),
            store.wf(),
            parser.wf(),
            start == FormatType::Default(FormatControl::blank()),
            match formatted(store, args@, i as int, last_format) {
                Ok(rest) => formatted(store, args@, 0, start) == Ok::<Seq<FormattedModel>, Seq<char>>(
                    models(result@) + rest,
                ),
                Err(e) => formatted(store, args@, 0, start) == Err::<Seq<FormattedModel>, Seq<char>>(e),
            },
        decreases args.len() - i,
    {
        let ghost here = formatted(store, args@, i as int, last_format);
        let ghost whole = formatted(store, args@, 0, start);
        match &args[i] {
            Value::Sequence(s) => {
                assert(args@[i as int] == Value::Sequence(*s));
                if !crate::text::same_text_ignoring_case(s.as_string().as_str(), "string") {
                    assert(here == Err::<Seq<FormattedModel>, Seq<char>>(not_formattable_message()));
                    return Err(String::from_str("Value cannot be formatted"));
                }
                let text = match characters_of(store, s.as_values()) {
                    Some(t) => t,
                    None => {
                        assert(here == Err::<Seq<FormattedModel>, Seq<char>>(invalid_message()));
                        return Err(String::from_str("Invalid format specification"));
                    },
                };
                match parser.parse(&text) {
                    Ok(next) => {
                        assert(here == formatted(store, args@, i as int + 1, next));
                        last_format = next;
                    },
                    Err(e) => {
                        assert(here == Err::<Seq<FormattedModel>, Seq<char>>(invalid_message()));
                        return Err(e);
                    },
                }
            },
            v => {
                let ghost before = models(result@);
                assert(args@[i as int] == *v);
                assert(here == match formatted_number(*v, last_format) {
                    Ok(part) => match formatted(store, args@, i as int + 1, last_format) {
                        Ok(rest) => Ok(seq![part] + rest),
                        Err(e) => Err(e),
                    },
                    Err(e) => Err(e),
                });
                match format_number(v, &last_format) {
                    Ok(part) => {
                        result.push(part);
                        proof {
                            let rest = formatted(store, args@, i as int + 1, last_format);
                            assert(models(result@) =~= before + seq![part.model()]);
                            if rest is Ok {
                                assert(models(result@) + rest->Ok_0 =~= before + (seq![part.model()] + rest->Ok_0));
                            }
                        }
                    },
                    Err(e) => {
                        return Err(e);
                    },
                }
            },
        }
        i += 1;
    }
    assert(models(result@) + Seq::<FormattedModel>::empty() =~= models(result@));
    Ok(result)
}

} // verus!
