//! How a value turns into a truth value, a character or a number.

use vstd::prelude::*;
use crate::text::{digit_of, is_digit, lower_char};
use super::ieee::{double_is_zero, double_of_int, double_to_int, double_to_long, double_to_natural,
    double_to_real, int_of_double, int_to_double, int_to_real, is_double_zero, long_of_double,
    narrow, natural_of_double, real_of_int, real_to_double, widen};
use super::{GeneralSymbol, Store, Value};

verus! {

/// What a value comes down to where it is asked for a truth value, a
/// character or a number.
pub enum Atom {
    Bool(bool),
    Int(i32),
    Real(u32),
    Double(u64),
    Char(char),
    /// A name that stands for no variable, by its spelling.
    Name(Seq<char>),
    /// Anything else.
    Other,
}

/// What a conversion can be asked to make.
#[derive(Clone, Copy, Debug, PartialEq, Eq, Structural)]
pub enum Target {
    Bool,
    Char,
    Real,
    Dbl,
    Int,
    Usize,
}

/// The name of what a conversion makes, as the messages spell it.
pub open spec fn target_name(t: Target) -> Seq<char> {
    match t {
        Target::Bool => "bool"@,
        Target::Char => "CHAR"@,
        Target::Real => "REAL"@,
        Target::Dbl => "DBL"@,
        Target::Int => "INT"@,
        Target::Usize => "usize"@,
    }
}

/// The message for a value of a kind that cannot be converted.
pub open spec fn unable_message(t: Target) -> Seq<char> {
    match t {
        Target::Bool => "Invalid BOOL"@,
        Target::Char => "Invalid CHAR"@,
        Target::Real => "Unable to cast to REAL"@,
        Target::Dbl => "Unable to cast to DBL"@,
        Target::Int => "Unable to cast to INT"@,
        Target::Usize => "Unable to cast to INT"@,
    }
}

/// The message for a name that stands for no variable.
pub open spec fn cannot_convert_message(name: Seq<char>, t: Target) -> Seq<char> {
    "Cannot convert "@ + name + " to "@ + target_name(t)
}

/// The message for a character that is no digit.
pub open spec fn not_a_digit_message(c: char) -> Seq<char> {
    seq!['\'', c] + " is not a digit"@
}

/// The message for a character that is no truth value.
pub open spec fn not_a_bool_message(c: char) -> Seq<char> {
    seq![c] + " is not a valid BOOL"@
}

impl Store {
    /// What a value comes down to: the value itself, or, for a reference
    /// to a cell and for the name of a variable, what the value in the
    /// cell comes down to.
    pub open spec fn atom(&self, v: Value) -> Atom
        decreases self.reach(v),
    {
        match v {
            Value::Bool(b) => Atom::Bool(b),
            Value::Int(i) => Atom::Int(i),
            Value::Real(r) => Atom::Real(r),
            Value::Double(d) => Atom::Double(d),
            Value::Char(c) => Atom::Char(c),
            Value::Symbol(s) => match s.resolution {
                GeneralSymbol::Variable(d) => if self.wf() && d.cell < self.cells().len() {
                    self.atom(self.value_at(d.cell))
                } else {
                    Atom::Other
                },
                _ => Atom::Name(s.referred_name@),
            },
            Value::ValueByReference(r) => if self.wf() && r.cell < self.cells().len() {
                self.atom(self.value_at(r.cell))
            } else {
                Atom::Other
            },
            _ => Atom::Other,
        }
    }
}

/// A truth value, a character or a number, or why there is none.
pub enum Plain {
    Bool(bool),
    Int(i32),
    Real(u32),
    Double(u64),
    Char(char),
    Name(String),
    Other,
}

impl Plain {
    pub open spec fn atom(self) -> Atom {
        match self {
            Plain::Bool(b) => Atom::Bool(b),
            Plain::Int(i) => Atom::Int(i),
            Plain::Real(r) => Atom::Real(r),
            Plain::Double(d) => Atom::Double(d),
            Plain::Char(c) => Atom::Char(c),
            Plain::Name(n) => Atom::Name(n@),
            Plain::Other => Atom::Other,
        }
    }
}

/// The truth value of an atom.
pub open spec fn atom_to_bool(a: Atom) -> Result<bool, Seq<char>> {
    match a {
        Atom::Bool(v) => Ok(v),
        Atom::Int(v) => Ok(v != 0),
        Atom::Real(v) => Ok(!double_is_zero(real_to_double(v))),
        Atom::Double(v) => Ok(!double_is_zero(v)),
        Atom::Char(c) => if lower_char(c) == 'f' {
            Ok(false)
        } else if lower_char(c) == 't' {
            Ok(true)
        } else {
            Err(not_a_bool_message(c))
        },
        Atom::Name(n) => Err(cannot_convert_message(n, Target::Bool)),
        Atom::Other => Err(unable_message(Target::Bool)),
    }
}

/// The character of an atom.
pub open spec fn atom_to_char(a: Atom) -> Result<char, Seq<char>> {
    match a {
        Atom::Char(c) => Ok(c),
        Atom::Name(n) => Err(cannot_convert_message(n, Target::Char)),
        _ => Err(unable_message(Target::Char)),
    }
}

/// The integer of 32 bits of an atom.
pub open spec fn atom_to_int(a: Atom) -> Result<i32, Seq<char>> {
    match a {
        Atom::Bool(v) => Ok(
            if v {
                1i32
            } else {
                0i32
            },
        ),
        Atom::Int(v) => Ok(v),
        Atom::Real(v) => Ok(double_to_int(real_to_double(v))),
        Atom::Double(v) => Ok(double_to_int(v)),
        Atom::Char(c) => if is_digit(c) {
            Ok(digit_of(c) as i32)
        } else {
            Err(not_a_digit_message(c))
        },
        Atom::Name(n) => Err(cannot_convert_message(n, Target::Int)),
        Atom::Other => Err(unable_message(Target::Int)),
    }
}

/// The integer of 64 bits of an atom.
pub open spec fn atom_to_long(a: Atom) -> Result<i64, Seq<char>> {
    match a {
        Atom::Bool(v) => Ok(
            if v {
                1i64
            } else {
                0i64
            },
        ),
        Atom::Int(v) => Ok(v as i64),
        Atom::Real(v) => Ok(double_to_long(real_to_double(v))),
        Atom::Double(v) => Ok(double_to_long(v)),
        Atom::Char(c) => if is_digit(c) {
            Ok(digit_of(c) as i64)
        } else {
            Err(not_a_digit_message(c))
        },
        Atom::Name(n) => Err(cannot_convert_message(n, Target::Int)),
        Atom::Other => Err(unable_message(Target::Int)),
    }
}

/// The natural number of an atom, as an index needs it. A negative
/// integer wraps round.
pub open spec fn atom_to_natural(a: Atom) -> Result<u64, Seq<char>> {
    match a {
        Atom::Bool(v) => Ok(
            if v {
                1u64
            } else {
                0u64
            },
        ),
        Atom::Int(v) => Ok(
            if v >= 0 {
                v as u64
            } else {
                (0x1_0000_0000_0000_0000 + v) as u64
            },
        ),
        Atom::Real(v) => Ok(double_to_natural(real_to_double(v))),
        Atom::Double(v) => Ok(double_to_natural(v)),
        Atom::Char(c) => if is_digit(c) {
            Ok(digit_of(c) as u64)
        } else {
            Err(not_a_digit_message(c))
        },
        Atom::Name(n) => Err(cannot_convert_message(n, Target::Usize)),
        Atom::Other => Err(unable_message(Target::Usize)),
    }
}

/// The single precision number of an atom, by its bits.
pub open spec fn atom_to_real(a: Atom) -> Result<u32, Seq<char>> {
    match a {
        Atom::Bool(v) => Ok(
            if v {
                0x3f80_0000u32
            } else {
                0u32
            },
        ),
        Atom::Int(v) => Ok(int_to_real(v)),
        Atom::Real(v) => Ok(v),
        Atom::Double(v) => Ok(double_to_real(v)),
        Atom::Char(c) => if is_digit(c) {
            Ok(int_to_real(digit_of(c) as i32))
        } else {
            Err(not_a_digit_message(c))
        },
        Atom::Name(n) => Err(cannot_convert_message(n, Target::Real)),
        Atom::Other => Err(unable_message(Target::Real)),
    }
}

/// The double precision number of an atom, by its bits.
pub open spec fn atom_to_double(a: Atom) -> Result<u64, Seq<char>> {
    match a {
        Atom::Bool(v) => Ok(
            if v {
                0x3ff0_0000_0000_0000u64
            } else {
                0u64
            },
        ),
        Atom::Int(v) => Ok(int_to_double(v)),
        Atom::Real(v) => Ok(real_to_double(v)),
        Atom::Double(v) => Ok(v),
        Atom::Char(c) => if is_digit(c) {
            Ok(int_to_double(digit_of(c) as i32))
        } else {
            Err(not_a_digit_message(c))
        },
        Atom::Name(n) => Err(cannot_convert_message(n, Target::Dbl)),
        Atom::Other => Err(unable_message(Target::Dbl)),
    }
}

/// Whether an outcome and its model agree.
pub open spec fn agrees<T>(r: Result<T, String>, want: Result<T, Seq<char>>) -> bool {
    match want {
        Ok(v) => r == Ok::<T, String>(v),
        Err(m) => r is Err && r->Err_0@ == m,
    }
}

fn cannot_convert(name: &String, target: &str) -> (r: String)
    ensures
        r@ == "Cannot convert "@ + name@ + " to "@ + target@,
{
    let mut m = String::from_str("Cannot convert ");
    m.append(name.as_str());
    m.append(" to ");
    m.append(target);
    assert(m@ =~= "Cannot convert "@ + name@ + " to "@ + target@);
    m
}

fn not_a_digit(c: char) -> (r: String)
    ensures
        r@ == not_a_digit_message(c),
{
    let mut m = String::new();
    m.push('\'');
    m.push(c);
    m.append(" is not a digit");
    assert(m@ =~= not_a_digit_message(c));
    m
}

impl Value {
    /// What the value comes down to.
    pub fn as_plain(&self, store: &Store) -> (r: Plain)
        requires
            store.wf(),
            store.holds(*self),
        ensures
            r.atom() == store.atom(*self),
        decreases store.reach(*self),
    {
        match self {
            Value::Bool(b) => Plain::Bool(*b),
            Value::Int(i) => Plain::Int(*i),
            Value::Real(r) => Plain::Real(*r),
            Value::Double(d) => Plain::Double(*d),
            Value::Char(c) => Plain::Char(*c),
            Value::Symbol(s) => match &s.resolution {
                GeneralSymbol::Variable(d) => {
                    assert(self.cells()[0] == d.cell);
                    store.get(d.cell).as_plain(store)
                },
                _ => Plain::Name(s.referred_name.as_string()),
            },
            Value::ValueByReference(r) => {
                assert(self.cells()[0] == r.cell);
                store.get(r.cell).as_plain(store)
            },
            _ => Plain::Other,
        }
    }

    pub fn as_bool(&self, store: &Store) -> (r: Result<bool, String>)
        requires
            store.wf(),
            store.holds(*self),
        ensures
            agrees(r, atom_to_bool(store.atom(*self))),
    {
        match self.as_plain(store) {
            Plain::Bool(v) => Ok(v),
            Plain::Int(v) => Ok(v != 0),
            Plain::Real(v) => Ok(!is_double_zero(widen(v))),
            Plain::Double(v) => Ok(!is_double_zero(v)),
            Plain::Char(c) => {
                let l = crate::text::to_lower_char(c);
                if l == 'f' {
                    Ok(false)
                } else if l == 't' {
                    Ok(true)
                } else {
                    let mut m = String::new();
                    m.push(c);
                    m.append(" is not a valid BOOL");
                    assert(m@ =~= not_a_bool_message(c));
                    Err(m)
                }
            },
            Plain::Name(n) => Err(cannot_convert(&n, "bool")),
            Plain::Other => Err(String::from_str("Invalid BOOL")),
        }
    }

    pub fn as_char(&self, store: &Store) -> (r: Result<char, String>)
        requires
            store.wf(),
            store.holds(*self),
        ensures
            agrees(r, atom_to_char(store.atom(*self))),
    {
        match self.as_plain(store) {
            Plain::Char(c) => Ok(c),
            Plain::Name(n) => Err(cannot_convert(&n, "CHAR")),
            _ => Err(String::from_str("Invalid CHAR")),
        }
    }

    /// The value as a single precision number, by its bits.
    pub fn as_real(&self, store: &Store) -> (r: Result<u32, String>)
        requires
            store.wf(),
            store.holds(*self),
        ensures
            agrees(r, atom_to_real(store.atom(*self))),
    {
        match self.as_plain(store) {
            Plain::Bool(v) => Ok(
                if v {
                    0x3f80_0000
                } else {
                    0
                },
            ),
            Plain::Int(v) => Ok(real_of_int(v)),
            Plain::Real(v) => Ok(v),
            Plain::Double(v) => Ok(narrow(v)),
            Plain::Char(c) => {
                if crate::text::is_digit_char(c) {
                    Ok(real_of_int(crate::text::digit_value(c) as i32))
                } else {
                    Err(not_a_digit(c))
                }
            },
            Plain::Name(n) => Err(cannot_convert(&n, "REAL")),
            Plain::Other => Err(String::from_str("Unable to cast to REAL")),
        }
    }

    /// The value as a double precision number, by its bits.
    pub fn as_double(&self, store: &Store) -> (r: Result<u64, String>)
        requires
            store.wf(),
            store.holds(*self),
        ensures
            agrees(r, atom_to_double(store.atom(*self))),
    {
        match self.as_plain(store) {
            Plain::Bool(v) => Ok(
                if v {
                    0x3ff0_0000_0000_0000
                } else {
                    0
                },
            ),
            Plain::Int(v) => Ok(double_of_int(v)),
            Plain::Real(v) => Ok(widen(v)),
            Plain::Double(v) => Ok(v),
            Plain::Char(c) => {
                if crate::text::is_digit_char(c) {
                    Ok(double_of_int(crate::text::digit_value(c) as i32))
                } else {
                    Err(not_a_digit(c))
                }
            },
            Plain::Name(n) => Err(cannot_convert(&n, "DBL")),
            Plain::Other => Err(String::from_str("Unable to cast to DBL")),
        }
    }

    pub fn as_i32(&self, store: &Store) -> (r: Result<i32, String>)
        requires
            store.wf(),
            store.holds(*self),
        ensures
            agrees(r, atom_to_int(store.atom(*self))),
    {
        match self.as_plain(store) {
            Plain::Bool(v) => Ok(
                if v {
                    1
                } else {
                    0
                },
            ),
            Plain::Int(v) => Ok(v),
            Plain::Real(v) => Ok(int_of_double(widen(v))),
            Plain::Double(v) => Ok(int_of_double(v)),
            Plain::Char(c) => {
                if crate::text::is_digit_char(c) {
                    Ok(crate::text::digit_value(c) as i32)
                } else {
                    Err(not_a_digit(c))
                }
            },
            Plain::Name(n) => Err(cannot_convert(&n, "INT")),
            Plain::Other => Err(String::from_str("Unable to cast to INT")),
        }
    }

    pub fn as_i64(&self, store: &Store) -> (r: Result<i64, String>)
        requires
            store.wf(),
            store.holds(*self),
        ensures
            agrees(r, atom_to_long(store.atom(*self))),
    {
        match self.as_plain(store) {
            Plain::Bool(v) => Ok(
                if v {
                    1
                } else {
                    0
                },
            ),
            Plain::Int(v) => Ok(v as i64),
            Plain::Real(v) => Ok(long_of_double(widen(v))),
            Plain::Double(v) => Ok(long_of_double(v)),
            Plain::Char(c) => {
                if crate::text::is_digit_char(c) {
                    Ok(crate::text::digit_value(c) as i64)
                } else {
                    Err(not_a_digit(c))
                }
            },
            Plain::Name(n) => Err(cannot_convert(&n, "INT")),
            Plain::Other => Err(String::from_str("Unable to cast to INT")),
        }
    }

    /// The value as a natural number of 64 bits.
    pub fn as_natural(&self, store: &Store) -> (r: Result<u64, String>)
        requires
            store.wf(),
            store.holds(*self),
        ensures
            agrees(r, atom_to_natural(store.atom(*self))),
    {
        match self.as_plain(store) {
            Plain::Bool(v) => Ok(
                if v {
                    1
                } else {
                    0
                },
            ),
            Plain::Int(v) => {
                if v >= 0 {
                    Ok(v as u64)
                } else {
                    Ok((0x1_0000_0000_0000_0000i128 + v as i128) as u64)
                }
            },
            Plain::Real(v) => Ok(natural_of_double(widen(v))),
            Plain::Double(v) => Ok(natural_of_double(v)),
            Plain::Char(c) => {
                if crate::text::is_digit_char(c) {
                    Ok(crate::text::digit_value(c) as u64)
                } else {
                    Err(not_a_digit(c))
                }
            },
            Plain::Name(n) => Err(cannot_convert(&n, "usize")),
            Plain::Other => Err(String::from_str("Unable to cast to INT")),
        }
    }
}

} // verus!
