//! What a datatype is made of, and how datatypes combine in arithmetic.

use vstd::prelude::*;
use crate::execution::value::conversion::agrees;
use crate::execution::value::ieee::{double_equal, doubles_equal, real_equal, reals_equal};
use crate::execution::value::Value;
use crate::text::{is_digit, is_digit_char, lower_char, string_is, to_lower_char};
use super::metadata::{BuiltAlternates, MetaAlternate, MetaDataType, MetaDataTypeName, MetaSequence, MetaStructure};
use super::SymbolTable;

verus! {

/// What a datatype is made of.
#[derive(Debug)]
pub enum RootDataType {
    Int,
    Real,
    Dbl,
    Bool,
    Char,
    Structure(MetaStructure),
    Sequence(MetaSequence),
    Alternate(MetaAlternate),
    BuiltinAlternate(BuiltAlternates),
}

/// How a datatype counts in arithmetic and in comparisons.
#[derive(Clone, Copy, Debug, PartialEq, Eq, Structural)]
pub enum DataClass {
    Int,
    Real,
    Dbl,
    Bool,
    Char,
    /// The character string.
    Text,
    /// A sequence that is no character string.
    Sequence,
    Structure,
    Alternate,
}

impl RootDataType {
    /// How the datatype counts in arithmetic.
    pub open spec fn class(&self) -> DataClass {
        match self {
            RootDataType::Int => DataClass::Int,
            RootDataType::Real => DataClass::Real,
            RootDataType::Dbl => DataClass::Dbl,
            RootDataType::Bool => DataClass::Bool,
            RootDataType::Char => DataClass::Char,
            RootDataType::Structure(_) => DataClass::Structure,
            RootDataType::Sequence(s) => if s.name@ == "string"@ {
                DataClass::Text
            } else {
                DataClass::Sequence
            },
            RootDataType::Alternate(_) => DataClass::Alternate,
            RootDataType::BuiltinAlternate(_) => DataClass::Alternate,
        }
    }

    /// How the datatype counts in arithmetic.
    pub fn classify(&self) -> (r: DataClass)
        ensures
            r == self.class(),
    {
        match self {
            RootDataType::Int => DataClass::Int,
            RootDataType::Real => DataClass::Real,
            RootDataType::Dbl => DataClass::Dbl,
            RootDataType::Bool => DataClass::Bool,
            RootDataType::Char => DataClass::Char,
            RootDataType::Structure(_) => DataClass::Structure,
            RootDataType::Sequence(s) => {
                if crate::text::string_is(&s.name.as_string(), "string") {
                    DataClass::Text
                } else {
                    DataClass::Sequence
                }
            },
            RootDataType::Alternate(_) => DataClass::Alternate,
            RootDataType::BuiltinAlternate(_) => DataClass::Alternate,
        }
    }
}

/// The name of a class as the messages about arithmetic spell it.
pub open spec fn class_name(c: DataClass) -> Seq<char> {
    match c {
        DataClass::Int => "INT"@,
        DataClass::Real => "REAL"@,
        DataClass::Dbl => "DOUBLE"@,
        DataClass::Bool => "BOOL"@,
        _ => "CHAR"@,
    }
}

/// The message for two datatypes that do not go together in arithmetic.
pub open spec fn incompatible_message(strongest: DataClass, next: DataClass) -> Seq<char> {
    class_name(strongest) + " is arithmetically incompatble with "@ + (match next {
        DataClass::Sequence => "Sequence"@,
        DataClass::Structure => "Structure"@,
        _ => "Alternate"@,
    })
}

/// The stronger of two datatypes, as arithmetic on a value of the one
/// and a value of the other is done: integers give way to single
/// precision, and both to double precision; a truth value, a character
/// and a character string count as an integer beside a number. A
/// structure, and a sequence that is no character string, go with no number.
pub open spec fn promoted(strongest: DataClass, next: DataClass) -> Result<DataClass, Seq<char>> {
    match strongest {
        DataClass::Int | DataClass::Real | DataClass::Dbl => match next {
            DataClass::Int | DataClass::Bool | DataClass::Char | DataClass::Text => Ok(strongest),
            DataClass::Real => Ok(
                if strongest == DataClass::Dbl {
                    DataClass::Dbl
                } else {
                    DataClass::Real
                },
            ),
            DataClass::Dbl => Ok(DataClass::Dbl),
            _ => Err(incompatible_message(strongest, next)),
        },
        DataClass::Bool => match next {
            DataClass::Int => Ok(DataClass::Int),
            DataClass::Real => Ok(DataClass::Real),
            DataClass::Dbl => Ok(DataClass::Dbl),
            DataClass::Bool | DataClass::Char | DataClass::Text => Ok(DataClass::Bool),
            _ => Err(incompatible_message(strongest, next)),
        },
        DataClass::Char => match next {
            DataClass::Int => Ok(DataClass::Int),
            DataClass::Real => Ok(DataClass::Real),
            DataClass::Dbl => Ok(DataClass::Dbl),
            DataClass::Bool => Ok(DataClass::Bool),
            DataClass::Char => Ok(DataClass::Char),
            DataClass::Text => Ok(DataClass::Text),
            _ => Err(incompatible_message(strongest, next)),
        },
        _ => Ok(strongest),
    }
}

/// The strongest of the datatypes of a list that is not empty, found
/// from the left.
pub open spec fn strongest_of(classes: Seq<DataClass>) -> Result<DataClass, Seq<char>>
    decreases classes.len(),
{
    if classes.len() <= 1 {
        Ok(classes[0])
    } else {
        match strongest_of(classes.drop_last()) {
            Ok(s) => promoted(s, classes.last()),
            Err(m) => Err(m),
        }
    }
}

fn incompatible(strongest: DataClass, next: DataClass) -> (r: String)
    ensures
        r@ == incompatible_message(strongest, next),
{
    let mut m = String::from_str(
        match strongest {
            DataClass::Int => "INT",
            DataClass::Real => "REAL",
            DataClass::Dbl => "DOUBLE",
            DataClass::Bool => "BOOL",
            _ => "CHAR",
        },
    );
    m.append(" is arithmetically incompatble with ");
    m.append(
        match next {
            DataClass::Sequence => "Sequence",
            DataClass::Structure => "Structure",
            _ => "Alternate",
        },
    );
    assert(m@ =~= incompatible_message(strongest, next));
    m
}

/// The stronger of two datatypes.
pub fn promote(strongest: DataClass, next: DataClass) -> (r: Result<DataClass, String>)
    ensures
        match promoted(strongest, next) {
            Ok(c) => r == Ok::<DataClass, String>(c),
            Err(m) => r is Err && r->Err_0@ == m,
        },
{
    match strongest {
        DataClass::Int | DataClass::Real | DataClass::Dbl => match next {
            DataClass::Int | DataClass::Bool | DataClass::Char | DataClass::Text => Ok(strongest),
            DataClass::Real => Ok(
                if strongest == DataClass::Dbl {
                    DataClass::Dbl
                } else {
                    DataClass::Real
                },
            ),
            DataClass::Dbl => Ok(DataClass::Dbl),
            _ => Err(incompatible(strongest, next)),
        },
        DataClass::Bool => match next {
            DataClass::Int => Ok(DataClass::Int),
            DataClass::Real => Ok(DataClass::Real),
            DataClass::Dbl => Ok(DataClass::Dbl),
            DataClass::Bool | DataClass::Char | DataClass::Text => Ok(DataClass::Bool),
            _ => Err(incompatible(strongest, next)),
        },
        DataClass::Char => match next {
            DataClass::Int => Ok(DataClass::Int),
            DataClass::Real => Ok(DataClass::Real),
            DataClass::Dbl => Ok(DataClass::Dbl),
            DataClass::Bool => Ok(DataClass::Bool),
            DataClass::Char => Ok(DataClass::Char),
            DataClass::Text => Ok(DataClass::Text),
            _ => Err(incompatible(strongest, next)),
        },
        _ => Ok(strongest),
    }
}

/// The strongest of the datatypes of a list that is not empty.
pub fn strongest_datatype(args: &Vec<DataClass>) -> (r: Result<DataClass, String>)
    requires
        args@.len() > 0,
    ensures
        match strongest_of(args@) {
            Ok(c) => r == Ok::<DataClass, String>(c),
            Err(m) => r is Err && r->Err_0@ == m,
        },
{
    let mut strongest = args[0];
    let mut i: usize = 1;
    assert(args@.take(1).drop_last() =~= Seq::<DataClass>::empty());
    assert(strongest_of(args@.take(1)) == Ok::<DataClass, Seq<char>>(args@[0]));
    while i < args.len()
        invariant
            1 <= i <= args.len(),
            strongest_of(args@.take(i as int)) == Ok::<DataClass, Seq<char>>(strongest),
        decreases args.len() - i,
    {
        proof {
            let t = args@.take(i as int + 1);
            assert(t.drop_last() =~= args@.take(i as int));
            assert(t.last() == args@[i as int]);
        }
        match promote(strongest, args[i]) {
            Ok(c) => {
                strongest = c;
            },
            Err(e) => {
                proof {
                    lemma_strongest_stays_failed(args@, i as int + 1);
                }
                return Err(e);
            },
        }
        i += 1;
    }
    assert(args@.take(args.len() as int) =~= args@);
    Ok(strongest)
}

/// Once the datatypes of the front of a list do not go together, those
/// of the whole list do not, and for the same reason.
pub proof fn lemma_strongest_stays_failed(classes: Seq<DataClass>, k: int)
    requires
        1 <= k <= classes.len(),
        strongest_of(classes.take(k)) is Err,
    ensures
        strongest_of(classes) == strongest_of(classes.take(k)),
    decreases classes.len() - k,
{
    if k < classes.len() {
        assert(classes.take(k + 1).drop_last() =~= classes.take(k));
        lemma_strongest_stays_failed(classes, k + 1);
    } else {
        assert(classes.take(k) =~= classes);
    }
}

/// Whether a class is one of the three kinds of numbers.
pub open spec fn is_number(c: DataClass) -> bool {
    c == DataClass::Int || c == DataClass::Real || c == DataClass::Dbl
}

/// Among integers, single precision and double precision numbers the
/// stronger of two datatypes does not depend on their order.
pub proof fn law_strongest_is_commutative(a: DataClass, b: DataClass)
    requires
        is_number(a),
        is_number(b),
    ensures
        promoted(a, b) == promoted(b, a),
        promoted(a, b) is Ok,
        is_number(promoted(a, b)->Ok_0),
{
}

/// Among integers, single precision and double precision numbers the
/// strongest of three datatypes does not depend on how they are paired.
pub proof fn law_strongest_is_associative(a: DataClass, b: DataClass, c: DataClass)
    requires
        is_number(a),
        is_number(b),
        is_number(c),
    ensures
        promoted(promoted(a, b)->Ok_0, c) == promoted(a, promoted(b, c)->Ok_0),
{
}

/// How strong a kind of number is: an integer is the weakest, a double
/// precision number the strongest.
pub open spec fn strength(c: DataClass) -> int {
    match c {
        DataClass::Int => 0,
        DataClass::Real => 1,
        _ => 2,
    }
}

/// Among the three kinds of numbers the stronger of two is the one of
/// the greater strength.
pub proof fn law_strongest_is_the_greater(a: DataClass, b: DataClass)
    requires
        is_number(a),
        is_number(b),
    ensures
        promoted(a, b) == Ok::<DataClass, Seq<char>>(
            if strength(a) >= strength(b) {
                a
            } else {
                b
            },
        ),
{
}

/// The message for the name of a datatype that there is not.
pub open spec fn datatype_not_found_message(name: Seq<char>) -> Seq<char> {
    "Datatype "@ + name + " not found"@
}

/// The message for a sequence whose datatype is not one of a sequence.
pub open spec fn not_a_sequence_message(name: Seq<char>) -> Seq<char> {
    name + " is not a sequence"@
}

/// The bits of the single precision number one.
pub const REAL_ONE: u32 = 0x3f80_0000;

/// The bits of the double precision number one.
pub const DOUBLE_ONE: u64 = 0x3ff0_0000_0000_0000;

/// Whether a value is of a datatype that is no alternate, or, with
/// `loose`, may be given to a variable of that datatype. A number may be
/// given to a variable of any kind of number, and so may a truth value
/// and a digit; a number that is zero or one, and one of the letters t
/// and f, to a variable for a truth value; a truth value to a variable
/// for a character. A sequence and a structure go by the name of their
/// datatype.
pub open spec fn plainly_accepts(v: Value, t: RootDataType, loose: bool) -> bool {
    match t {
        RootDataType::Int | RootDataType::Real | RootDataType::Dbl => match v {
            Value::Int(_) => loose || t is Int,
            Value::Real(_) => loose || t is Real,
            Value::Double(_) => loose || t is Dbl,
            Value::Bool(_) => loose,
            Value::Char(c) => loose && is_digit(c),
            _ => false,
        },
        RootDataType::Bool => match v {
            Value::Bool(_) => true,
            Value::Int(i) => loose && (i == 0 || i == 1),
            Value::Real(r) => loose && (real_equal(r, 0) || real_equal(r, REAL_ONE)),
            Value::Double(d) => loose && (double_equal(d, 0) || double_equal(d, DOUBLE_ONE)),
            Value::Char(c) => loose && (lower_char(c) == 't' || lower_char(c) == 'f'),
            _ => false,
        },
        RootDataType::Char => match v {
            Value::Char(_) => true,
            Value::Bool(_) => loose,
            _ => false,
        },
        RootDataType::Sequence(d) => match v {
            Value::Sequence(s) => s.datatype() == d.name@,
            _ => false,
        },
        RootDataType::Structure(d) => match v {
            Value::Structure(s) => s.datatype() == d.name@,
            _ => false,
        },
        _ => false,
    }
}

/// Whether a value is one of a built-in alternate: any structure, any
/// sequence, a sequence of a datatype without an upper bound, or
/// anything at all.
pub open spec fn builtin_accepts(types: &SymbolTable<MetaDataType>, v: Value, alternate: BuiltAlternates) -> Result<
    bool,
    Seq<char>,
> {
    match alternate {
        BuiltAlternates::Structure => Ok(v is Structure),
        BuiltAlternates::Sequence => Ok(v is Sequence),
        BuiltAlternates::VSequence => match v {
            Value::Sequence(s) => if types.has(s.datatype()) {
                match types.item(s.datatype()).root() {
                    RootDataType::Sequence(d) => Ok(d.upper_index_bound is None),
                    _ => Err(not_a_sequence_message(s.datatype())),
                }
            } else {
                Err(not_a_sequence_message(s.datatype()))
            },
            _ => Ok(false),
        },
        BuiltAlternates::General => Ok(true),
    }
}

/// Whether a value is of a datatype, or, with `loose`, may be given to a
/// variable of that datatype. An alternate accepts what one of its
/// members accepts; the members are asked in their order, and a member
/// that names no datatype is an error. Alternates are followed `fuel`
/// deep.
pub open spec fn accepts(types: &SymbolTable<MetaDataType>, v: Value, t: RootDataType, loose: bool, fuel: nat) -> Result<
    bool,
    Seq<char>,
>
    decreases fuel, 1nat, 0nat,
{
    match t {
        RootDataType::Alternate(a) => some_accepts(types, v, a.members@, 0, loose, fuel),
        RootDataType::BuiltinAlternate(b) => builtin_accepts(types, v, b),
        _ => Ok(plainly_accepts(v, t, loose)),
    }
}

/// Whether one of the members of an alternate from index `i` on accepts a value.
pub open spec fn some_accepts(
    types: &SymbolTable<MetaDataType>,
    v: Value,
    members: Seq<MetaDataTypeName>,
    i: int,
    loose: bool,
    fuel: nat,
) -> Result<bool, Seq<char>>
    decreases fuel, 0nat, members.len() - i,
{
    if i < 0 || i >= members.len() || fuel == 0 {
        Ok(false)
    } else if !types.has(members[i]@) {
        Err(datatype_not_found_message(members[i]@))
    } else {
        match accepts(types, v, types.item(members[i]@).root(), loose, (fuel - 1) as nat) {
            Err(e) => Err(e),
            Ok(true) => Ok(true),
            Ok(false) => some_accepts(types, v, members, i + 1, loose, fuel),
        }
    }
}

fn about(head: &str, name: &str, tail: &str) -> (r: String)
    ensures
        r@ == head@ + name@ + tail@,
{
    let mut m = String::from_str(head);
    m.append(name);
    m.append(tail);
    m
}

proof fn lemma_nothing()
    ensures
        ""@ == Seq::<char>::empty(),
{
    reveal_strlit("");
    assert(""@ =~= Seq::<char>::empty());
}

fn is_plainly_accepted(v: &Value, t: &RootDataType, loose: bool) -> (r: bool)
    ensures
        r == plainly_accepts(*v, *t, loose),
{
    match t {
        RootDataType::Int => match v {
            Value::Int(_) => true,
            Value::Real(_) => loose,
            Value::Double(_) => loose,
            Value::Bool(_) => loose,
            Value::Char(c) => loose && is_digit_char(*c),
            _ => false,
        },
        RootDataType::Real => match v {
            Value::Int(_) => loose,
            Value::Real(_) => true,
            Value::Double(_) => loose,
            Value::Bool(_) => loose,
            Value::Char(c) => loose && is_digit_char(*c),
            _ => false,
        },
        RootDataType::Dbl => match v {
            Value::Int(_) => loose,
            Value::Real(_) => loose,
            Value::Double(_) => true,
            Value::Bool(_) => loose,
            Value::Char(c) => loose && is_digit_char(*c),
            _ => false,
        },
        RootDataType::Bool => match v {
            Value::Bool(_) => true,
            Value::Int(i) => loose && (*i == 0 || *i == 1),
            Value::Real(r) => loose && (reals_equal(*r, 0) || reals_equal(*r, REAL_ONE)),
            Value::Double(d) => loose && (doubles_equal(*d, 0) || doubles_equal(*d, DOUBLE_ONE)),
            Value::Char(c) => loose && (to_lower_char(*c) == 't' || to_lower_char(*c) == 'f'),
            _ => false,
        },
        RootDataType::Char => match v {
            Value::Char(_) => true,
            Value::Bool(_) => loose,
            _ => false,
        },
        RootDataType::Sequence(d) => match v {
            Value::Sequence(s) => string_is(&s.as_string(), d.name.as_str()),
            _ => false,
        },
        RootDataType::Structure(d) => match v {
            Value::Structure(s) => string_is(&s.as_string(), d.name.as_str()),
            _ => false,
        },
        _ => false,
    }
}

fn is_a_builtin_alternate(types: &SymbolTable<MetaDataType>, v: &Value, alternate: &BuiltAlternates) -> (r: Result<
    bool,
    String,
>)
    requires
        types.wf(),
    ensures
        agrees(r, builtin_accepts(types, *v, *alternate)),
{
    proof {
        lemma_nothing();
    }
    match alternate {
        BuiltAlternates::Structure => Ok(
            match v {
                Value::Structure(_) => true,
                _ => false,
            },
        ),
        BuiltAlternates::Sequence => Ok(
            match v {
                Value::Sequence(_) => true,
                _ => false,
            },
        ),
        BuiltAlternates::VSequence => match v {
            Value::Sequence(s) => {
                let name = s.as_string();
                match types.try_get(name.as_str()) {
                    Some(found) => match found.root_data_type() {
                        RootDataType::Sequence(d) => Ok(d.upper_index_bound.is_none()),
                        _ => Err(about(name.as_str(), " is not a sequence", "")),
                    },
                    None => Err(about(name.as_str(), " is not a sequence", "")),
                }
            },
            _ => Ok(false),
        },
        BuiltAlternates::General => Ok(true),
    }
}

/// Whether a value is of a datatype, or, with `loose`, may be given to a
/// variable of that datatype.
#[verifier::loop_isolation(false)]
pub fn is_accepted(types: &SymbolTable<MetaDataType>, v: &Value, t: &RootDataType, loose: bool, fuel: usize) -> (r:
    Result<bool, String>)
    requires
        types.wf(),
    ensures
        agrees(r, accepts(types, *v, *t, loose, fuel as nat)),
    decreases fuel, 1nat,
{
    match t {
        RootDataType::Alternate(a) => {
            let mut i: usize = 0;
            while i < a.members.len()
                invariant
                    i <= a.members.len(),
                    types.wf(),
                    some_accepts(types, *v, a.members@, i as int, loose, fuel as nat) == some_accepts(
                        types,
                        *v,
                        a.members@,
                        0,
                        loose,
                        fuel as nat,
                    ),
                decreases a.members.len() - i,
            {
                let ghost here = some_accepts(types, *v, a.members@, i as int, loose, fuel as nat);
                let ghost next = some_accepts(types, *v, a.members@, i as int + 1, loose, fuel as nat);
                if fuel == 0 {
                    assert(here == Ok::<bool, Seq<char>>(false));
                    return Ok(false);
                }
                proof {
                    if types.has(a.members@[i as int]@) {
                        let inner = accepts(
                            types,
                            *v,
                            types.item(a.members@[i as int]@).root(),
                            loose,
                            (fuel - 1) as nat,
                        );
                        assert(here == match inner {
                            Err(e) => Err(e),
                            Ok(true) => Ok(true),
                            Ok(false) => next,
                        });
                    } else {
                        assert(here == Err::<bool, Seq<char>>(datatype_not_found_message(a.members@[i as int]@)));
                    }
                }
                match types.try_get(a.members[i].as_str()) {
                    Some(found) => {
                        match is_accepted(types, v, found.root_data_type(), loose, fuel - 1) {
                            Err(e) => {
                                return Err(e);
                            },
                            Ok(true) => {
                                return Ok(true);
                            },
                            Ok(false) => {},
                        }
                    },
                    None => {
                        return Err(about("Datatype ", a.members[i].as_str(), " not found"));
                    },
                }
                i += 1;
            }
            Ok(false)
        },
        RootDataType::BuiltinAlternate(b) => is_a_builtin_alternate(types, v, b),
        _ => Ok(is_plainly_accepted(v, t, loose)),
    }
}

/// How deep alternates are followed in a table of datatypes: no chain
/// of alternates that comes to an end is longer than the table.
pub open spec fn depth(types: &SymbolTable<MetaDataType>) -> nat {
    if types.keys().len() < usize::MAX {
        types.keys().len() + 1
    } else {
        usize::MAX as nat
    }
}

fn depth_of(types: &SymbolTable<MetaDataType>) -> (r: usize)
    requires
        types.wf(),
    ensures
        r == depth(types),
{
    let n = types.len();
    if n < usize::MAX {
        n + 1
    } else {
        usize::MAX
    }
}

/// Whether a value is of a datatype.
pub fn is_an_instance_of(v: &Value, datatype: &RootDataType, types: &SymbolTable<MetaDataType>) -> (r: Result<
    bool,
    String,
>)
    requires
        types.wf(),
    ensures
        agrees(r, accepts(types, *v, *datatype, false, depth(types))),
{
    is_accepted(types, v, datatype, false, depth_of(types))
}

/// Whether a value may be given to a variable of a datatype.
pub fn is_assignable_to(v: &Value, receiving_datatype: &RootDataType, types: &SymbolTable<MetaDataType>) -> (r:
    Result<bool, String>)
    requires
        types.wf(),
    ensures
        agrees(r, accepts(types, *v, *receiving_datatype, true, depth(types))),
{
    is_accepted(types, v, receiving_datatype, true, depth_of(types))
}

/// What is of a datatype may be given to a variable of that datatype,
/// where neither question ends in an error.
pub proof fn law_an_instance_is_assignable(types: &SymbolTable<MetaDataType>, v: Value, t: RootDataType, fuel: nat)
    requires
        accepts(types, v, t, false, fuel) == Ok::<bool, Seq<char>>(true),
        accepts(types, v, t, true, fuel) is Ok,
    ensures
        accepts(types, v, t, true, fuel) == Ok::<bool, Seq<char>>(true),
    decreases fuel, 1nat, 0nat,
{
    match t {
        RootDataType::Alternate(a) => {
            lemma_some_instance_is_assignable(types, v, a.members@, 0, fuel);
        },
        _ => {},
    }
}

proof fn lemma_some_instance_is_assignable(
    types: &SymbolTable<MetaDataType>,
    v: Value,
    members: Seq<MetaDataTypeName>,
    i: int,
    fuel: nat,
)
    requires
        some_accepts(types, v, members, i, false, fuel) == Ok::<bool, Seq<char>>(true),
        some_accepts(types, v, members, i, true, fuel) is Ok,
    ensures
        some_accepts(types, v, members, i, true, fuel) == Ok::<bool, Seq<char>>(true),
    decreases fuel, 0nat, members.len() - i,
{
    if 0 <= i < members.len() && fuel > 0 && types.has(members[i]@) {
        let t = types.item(members[i]@).root();
        let strict = accepts(types, v, t, false, (fuel - 1) as nat);
        let loose = accepts(types, v, t, true, (fuel - 1) as nat);
        if strict == Ok::<bool, Seq<char>>(true) {
            law_an_instance_is_assignable(types, v, t, (fuel - 1) as nat);
        } else if loose == Ok::<bool, Seq<char>>(false) {
            lemma_some_instance_is_assignable(types, v, members, i + 1, fuel);
        }
    }
}

} // verus!
