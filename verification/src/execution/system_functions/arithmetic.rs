//! Arithmetic.
//!
//! Two numbers are worked on as numbers of the stronger of their kinds.
//! On integers the work is done here. On numbers with a fraction it is
//! not: what is handed back says which operation is to be done on which
//! numbers, each given by its bits.

use vstd::prelude::*;
use crate::execution::value::conversion::{atom_to_bool, atom_to_double, atom_to_int, atom_to_real};
use crate::execution::value::{Store, Value};
use crate::symbols::datatype::{promote, promoted, DataClass};
use crate::symbols::metadata::MetaDataType;
use crate::symbols::SymbolTable;
use super::comparison::{class_of_value, value_class};

verus! {

/// An operation of arithmetic.
#[derive(Clone, Copy, Debug, PartialEq, Eq, Structural)]
pub enum Operation {
    Add,
    Subtract,
    Multiply,
    Divide,
    Power,
    Minus,
    Plus,
}

/// What an operation of arithmetic comes to.
#[derive(Debug)]
pub enum Computed {
    /// The value.
    Value(Value),
    /// The operation is to be done on single precision numbers. An
    /// operation on one number has it as the first, and zero as the second.
    Real { operation: Operation, left: u32, right: u32 },
    /// The operation is to be done on double precision numbers.
    Double { operation: Operation, left: u64, right: u64 },
}

/// The message for a datatype that arithmetic does not know.
pub open spec fn unsupported_message() -> Seq<char> {
    "unsupported datatype for arithmetic"@
}

/// An integer brought into the range of 32 bits by wrapping round.
pub open spec fn wrapped(v: int) -> i32 {
    let m = v % 0x1_0000_0000;
    if m >= 0x8000_0000 {
        (m - 0x1_0000_0000) as i32
    } else {
        m as i32
    }
}

/// An integer raised to a power, each product wrapped round to 32 bits.
pub open spec fn wrapped_power(base: i32, exponent: nat) -> i32
    decreases exponent,
{
    if exponent == 0 {
        1
    } else {
        wrapped(wrapped_power(base, (exponent - 1) as nat) * base)
    }
}

/// The quotient of two integers. A quotient by zero is the greatest
/// integer for a positive dividend and the least for any other; a
/// quotient that does not fit is the greatest integer.
pub open spec fn quotient(l: i32, r: i32) -> i32 {
    if r == 0 {
        if l > 0 {
            i32::MAX
        } else {
            i32::MIN
        }
    } else if l == i32::MIN && r == -1 {
        i32::MAX
    } else if (l < 0) == (r < 0) {
        ((if l < 0 {
            -l
        } else {
            l as int
        }) / (if r < 0 {
            -r
        } else {
            r as int
        })) as i32
    } else {
        (-((if l < 0 {
            -l
        } else {
            l as int
        }) / (if r < 0 {
            -r
        } else {
            r as int
        }))) as i32
    }
}

/// What an operation on two integers comes to.
pub open spec fn on_integers(operation: Operation, l: i32, r: i32) -> i32 {
    match operation {
        Operation::Add => wrapped(l + r),
        Operation::Subtract => wrapped(l - r),
        Operation::Multiply => wrapped(l * r),
        Operation::Divide => quotient(l, r),
        Operation::Power => wrapped_power(
            l,
            (if r >= 0 {
                r as int
            } else {
                0x1_0000_0000 + r
            }) as nat,
        ),
        Operation::Minus => wrapped(-l),
        Operation::Plus => l,
    }
}

/// What an operation on two values comes to, as plain data.
pub enum Outcome {
    Int(i32),
    Bool(bool),
    Real(Operation, u32, u32),
    Double(Operation, u64, u64),
    Failed(Seq<char>),
}

/// What an operation of arithmetic on a class of numbers comes to.
pub open spec fn on_class(store: &Store, operation: Operation, class: DataClass, l: Value, r: Value) -> Outcome {
    match class {
        DataClass::Int => match atom_to_int(store.atom(l)) {
            Err(m) => Outcome::Failed(m),
            Ok(a) => match atom_to_int(store.atom(r)) {
                Err(m) => Outcome::Failed(m),
                Ok(b) => Outcome::Int(on_integers(operation, a, b)),
            },
        },
        DataClass::Real => match atom_to_real(store.atom(l)) {
            Err(m) => Outcome::Failed(m),
            Ok(a) => match atom_to_real(store.atom(r)) {
                Err(m) => Outcome::Failed(m),
                Ok(b) => Outcome::Real(operation, a, b),
            },
        },
        DataClass::Dbl => match atom_to_double(store.atom(l)) {
            Err(m) => Outcome::Failed(m),
            Ok(a) => match atom_to_double(store.atom(r)) {
                Err(m) => Outcome::Failed(m),
                Ok(b) => Outcome::Double(operation, a, b),
            },
        },
        DataClass::Bool => if operation == Operation::Minus {
            match atom_to_bool(store.atom(l)) {
                Err(m) => Outcome::Failed(m),
                Ok(a) => Outcome::Bool(!a),
            }
        } else {
            Outcome::Failed(unsupported_message())
        },
        _ => Outcome::Failed(unsupported_message()),
    }
}

/// What an operation of arithmetic on two values comes to. An operation
/// on one value is given that value twice.
pub open spec fn computed(
    store: &Store,
    types: &SymbolTable<MetaDataType>,
    operation: Operation,
    l: Value,
    r: Value,
) -> Outcome {
    let links = store.envelopes().len();
    match value_class(store, types, l, links) {
        Err(m) => Outcome::Failed(m),
        Ok(lc) => match value_class(store, types, r, links) {
            Err(m) => Outcome::Failed(m),
            Ok(rc) => match promoted(lc, rc) {
                Err(m) => Outcome::Failed(m),
                Ok(class) => on_class(store, operation, class, l, r),
            },
        },
    }
}

/// Whether what was computed and its model agree.
pub open spec fn computes(r: Result<Computed, String>, want: Outcome) -> bool {
    match want {
        Outcome::Int(v) => r is Ok && r->Ok_0 == Computed::Value(Value::Int(v)),
        Outcome::Bool(v) => r is Ok && r->Ok_0 == Computed::Value(Value::Bool(v)),
        Outcome::Real(o, a, b) => r is Ok && r->Ok_0 == (Computed::Real { operation: o, left: a, right: b }),
        Outcome::Double(o, a, b) => r is Ok && r->Ok_0 == (Computed::Double {
            operation: o,
            left: a,
            right: b,
        }),
        Outcome::Failed(m) => r is Err && r->Err_0@ == m,
    }
}

proof fn lemma_shifted_residue(v: int, k: int, n: int)
    requires
        n == (v + k * 0x1_0000_0000) % 0x1_0000_0000,
    ensures
        n == v % 0x1_0000_0000,
{
    vstd::arithmetic::div_mod::lemma_mod_multiples_vanish(k, v, 0x1_0000_0000);
}

fn wrap(v: i64) -> (r: i32)
    requires
        -0x1_0000_0000_0000 <= v <= 0x1_0000_0000_0000,
    ensures
        r == wrapped(v as int),
{
    let u: u64 = (v + 0x1_0000_0000_0000) as u64;
    let n: u64 = u % 0x1_0000_0000;
    proof {
        lemma_shifted_residue(v as int, 0x1_0000, n as int);
    }
    if n >= 0x8000_0000 {
        (n as i64 - 0x1_0000_0000) as i32
    } else {
        n as i32
    }
}

fn wrapping_product(a: i32, b: i32) -> (r: i32)
    ensures
        r == wrapped(a * b),
{
    proof {
        assert((a as int) * (b as int) <= 0x4000_0000_0000_0000 && (a as int) * (b as int)
            >= -0x4000_0000_0000_0000) by (nonlinear_arith)
            requires
                -0x8000_0000 <= a <= 0x7fff_ffff,
                -0x8000_0000 <= b <= 0x7fff_ffff,
        {
        }
    }
    let wide: i64 = a as i64 * b as i64;
    let u: u64 = (wide as i128 + 0x4000_0000_0000_0000) as u64;
    let n: u64 = u % 0x1_0000_0000;
    proof {
        lemma_shifted_residue(wide as int, 0x4000_0000, n as int);
    }
    if n >= 0x8000_0000 {
        (n as i64 - 0x1_0000_0000) as i32
    } else {
        n as i32
    }
}

fn power_of(base: i32, exponent: u32) -> (r: i32)
    ensures
        r == wrapped_power(base, exponent as nat),
{
    let mut r: i32 = 1;
    let mut i: u32 = 0;
    while i < exponent
        invariant
            i <= exponent,
            r == wrapped_power(base, i as nat),
        decreases exponent - i,
    {
        r = wrapping_product(r, base);
        i += 1;
    }
    r
}

fn divide_integers(l: i32, r: i32) -> (q: i32)
    ensures
        q == quotient(l, r),
{
    if r == 0 {
        if l > 0 {
            i32::MAX
        } else {
            i32::MIN
        }
    } else if l == i32::MIN && r == -1 {
        i32::MAX
    } else {
        let a: i64 = if l < 0 {
            -(l as i64)
        } else {
            l as i64
        };
        let b: i64 = if r < 0 {
            -(r as i64)
        } else {
            r as i64
        };
        let q: i64 = a / b;
        proof {
            assert(0 <= q <= a) by (nonlinear_arith)
                requires
                    q == a / b,
                    a >= 0,
                    b >= 1,
            {
            }
            if l == i32::MIN && r < 0 {
                assert(q < 0x8000_0000) by (nonlinear_arith)
                    requires
                        q == a / b,
                        a == 0x8000_0000,
                        b >= 2,
                {
                }
            }
        }
        if (l < 0) == (r < 0) {
            q as i32
        } else {
            (-q) as i32
        }
    }
}

fn compute_integers(operation: Operation, l: i32, r: i32) -> (v: i32)
    ensures
        v == on_integers(operation, l, r),
{
    match operation {
        Operation::Add => wrap(l as i64 + r as i64),
        Operation::Subtract => wrap(l as i64 - r as i64),
        Operation::Multiply => wrapping_product(l, r),
        Operation::Divide => divide_integers(l, r),
        Operation::Power => {
            let e: u32 = if r >= 0 {
                r as u32
            } else {
                (0x1_0000_0000i64 + r as i64) as u32
            };
            power_of(l, e)
        },
        Operation::Minus => wrap(-(l as i64)),
        Operation::Plus => l,
    }
}

/// Does an operation of arithmetic on two values. An operation on one
/// value is given that value twice.
pub fn compute(
    operation: Operation,
    left: &Value,
    right: &Value,
    store: &Store,
    types: &SymbolTable<MetaDataType>,
) -> (r: Result<Computed, String>)
    requires
        store.wf(),
        types.wf(),
        store.holds(*left),
        store.holds(*right),
    ensures
        computes(r, computed(store, types, operation, *left, *right)),
{
    let links = store.envelope_count();
    let lc = match class_of_value(store, types, left, links) {
        Ok(c) => c,
        Err(e) => {
            return Err(e);
        },
    };
    let rc = match class_of_value(store, types, right, links) {
        Ok(c) => c,
        Err(e) => {
            return Err(e);
        },
    };
    let class = match promote(lc, rc) {
        Ok(c) => c,
        Err(e) => {
            return Err(e);
        },
    };
    match class {
        DataClass::Int => {
            let a = match left.as_i32(store) {
                Ok(a) => a,
                Err(e) => {
                    return Err(e);
                },
            };
            let b = match right.as_i32(store) {
                Ok(b) => b,
                Err(e) => {
                    return Err(e);
                },
            };
            Ok(Computed::Value(Value::Int(compute_integers(operation, a, b))))
        },
        DataClass::Real => {
            let a = match left.as_real(store) {
                Ok(a) => a,
                Err(e) => {
                    return Err(e);
                },
            };
            let b = match right.as_real(store) {
                Ok(b) => b,
                Err(e) => {
                    return Err(e);
                },
            };
            Ok(Computed::Real { operation: operation, left: a, right: b })
        },
        DataClass::Dbl => {
            let a = match left.as_double(store) {
                Ok(a) => a,
                Err(e) => {
                    return Err(e);
                },
            };
            let b = match right.as_double(store) {
                Ok(b) => b,
                Err(e) => {
                    return Err(e);
                },
            };
            Ok(Computed::Double { operation: operation, left: a, right: b })
        },
        DataClass::Bool => {
            if operation == Operation::Minus {
                match left.as_bool(store) {
                    Ok(a) => Ok(Computed::Value(Value::Bool(!a))),
                    Err(e) => Err(e),
                }
            } else {
                Err(String::from_str("unsupported datatype for arithmetic"))
            }
        },
        _ => Err(String::from_str("unsupported datatype for arithmetic")),
    }
}

/// Adds two values.
pub fn add(left: &Value, right: &Value, store: &Store, types: &SymbolTable<MetaDataType>) -> (r: Result<
    Computed,
    String,
>)
    requires
        store.wf(),
        types.wf(),
        store.holds(*left),
        store.holds(*right),
    ensures
        computes(r, computed(store, types, Operation::Add, *left, *right)),
{
    compute(Operation::Add, left, right, store, types)
}

/// Subtracts the second value from the first.
pub fn subtract(left: &Value, right: &Value, store: &Store, types: &SymbolTable<MetaDataType>) -> (r: Result<
    Computed,
    String,
>)
    requires
        store.wf(),
        types.wf(),
        store.holds(*left),
        store.holds(*right),
    ensures
        computes(r, computed(store, types, Operation::Subtract, *left, *right)),
{
    compute(Operation::Subtract, left, right, store, types)
}

/// Multiplies two values.
pub fn multiply(left: &Value, right: &Value, store: &Store, types: &SymbolTable<MetaDataType>) -> (r: Result<
    Computed,
    String,
>)
    requires
        store.wf(),
        types.wf(),
        store.holds(*left),
        store.holds(*right),
    ensures
        computes(r, computed(store, types, Operation::Multiply, *left, *right)),
{
    compute(Operation::Multiply, left, right, store, types)
}

/// Divides the first value by the second.
pub fn divide(left: &Value, right: &Value, store: &Store, types: &SymbolTable<MetaDataType>) -> (r: Result<
    Computed,
    String,
>)
    requires
        store.wf(),
        types.wf(),
        store.holds(*left),
        store.holds(*right),
    ensures
        computes(r, computed(store, types, Operation::Divide, *left, *right)),
{
    compute(Operation::Divide, left, right, store, types)
}

/// Raises the first value to the power of the second.
pub fn power(left: &Value, right: &Value, store: &Store, types: &SymbolTable<MetaDataType>) -> (r: Result<
    Computed,
    String,
>)
    requires
        store.wf(),
        types.wf(),
        store.holds(*left),
        store.holds(*right),
    ensures
        computes(r, computed(store, types, Operation::Power, *left, *right)),
{
    compute(Operation::Power, left, right, store, types)
}

/// The opposite of a number; of a truth value the other truth value.
pub fn minus(operand: &Value, store: &Store, types: &SymbolTable<MetaDataType>) -> (r: Result<Computed, String>)
    requires
        store.wf(),
        types.wf(),
        store.holds(*operand),
    ensures
        computes(r, computed(store, types, Operation::Minus, *operand, *operand)),
{
    compute(Operation::Minus, operand, operand, store, types)
}

/// The number itself.
pub fn plus(operand: &Value, store: &Store, types: &SymbolTable<MetaDataType>) -> (r: Result<Computed, String>)
    requires
        store.wf(),
        types.wf(),
        store.holds(*operand),
    ensures
        computes(r, computed(store, types, Operation::Plus, *operand, *operand)),
{
    compute(Operation::Plus, operand, operand, store, types)
}

/// An integer divided by zero is the greatest integer where the dividend
/// is positive, and the least integer where it is not.
pub proof fn law_division_by_zero_saturates(dividend: i32)
    ensures
        on_integers(Operation::Divide, dividend, 0) == if dividend > 0 {
            i32::MAX
        } else {
            i32::MIN
        },
{
}

} // verus!
