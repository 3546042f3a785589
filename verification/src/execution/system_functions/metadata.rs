//! The built-in functions on values, datatypes and names.

use vstd::prelude::*;
use crate::execution::construction::keep_all;
use crate::execution::value::coercion::not_found_message;
use crate::execution::value::conversion::{atom_to_int, atom_to_natural};
use crate::execution::value::copy::{copies, DEPTH};
use crate::execution::value::display::{display, piece_models, say, shown, text, whole, Piece, PieceModel};
use crate::execution::value::sequence::{spells, SequenceInstance};
use crate::execution::value::{GeneralSymbol, Store, Value};
use crate::symbols::datatype::{accepts, datatype_not_found_message, depth, is_an_instance_of as is_of};
use crate::text::lower;
use crate::workspace::options::OptionKey;
use crate::workspace::{Flag, WorkSpace};
use super::control::as_line;

verus! {

/// The text of pieces that are all text; nothing where a number with a
/// fraction is among them.
pub open spec fn flattened(pieces: Seq<PieceModel>, i: int) -> Option<Seq<char>>
    decreases pieces.len() - i,
{
    if i < 0 || i >= pieces.len() {
        Some(Seq::empty())
    } else {
        match (pieces[i], flattened(pieces, i + 1)) {
            (PieceModel::Text(t), Some(rest)) => Some(t + rest),
            (PieceModel::Function(n), Some(rest)) => Some(n + rest),
            _ => None,
        }
    }
}

/// What a value names: a name names itself, a reference to a cell
/// names what the value in the cell names, and any other value what it
/// is shown as. A number with a fraction names nothing here.
pub open spec fn named(store: &Store, v: Value) -> Option<Seq<char>>
    decreases store.reach(v),
{
    match v {
        Value::Symbol(symbol) => Some(
            match symbol.resolution {
                GeneralSymbol::Datatype(n) => n@,
                GeneralSymbol::Function(n) => n@,
                GeneralSymbol::Selector(n) => n@,
                _ => symbol.referred_name@,
            },
        ),
        Value::ValueByReference(r) => if store.wf() && r.cell < store.cells().len() {
            named(store, store.value_at(r.cell))
        } else {
            None
        },
        _ => flattened(shown(store, v, Seq::empty(), whole(store)), 0),
    }
}

fn flatten(pieces: &Vec<Piece>) -> (r: Option<String>)
    ensures
        match (r, flattened(piece_models(pieces@), 0)) {
            (Some(t), Some(m)) => t@ == m,
            (None, None) => true,
            _ => false,
        },
{
    let ghost models = piece_models(pieces@);
    let mut out = String::new();
    let mut i: usize = 0;
    while i < pieces.len()
        invariant
            i <= pieces.len(),
            models == piece_models(pieces@),
            match flattened(models, i as int) {
                Some(rest) => flattened(models, 0) == Some(out@ + rest),
                None => flattened(models, 0) is None,
            },
        decreases pieces.len() - i,
    {
        let ghost before = out@;
        assert(models[i as int] == pieces@[i as int].model());
        match &pieces[i] {
            Piece::Text(t) => {
                out.append(t.as_str());
                proof {
                    if flattened(models, i as int + 1) is Some {
                        let rest = flattened(models, i as int + 1)->0;
                        assert(before + (t@ + rest) =~= out@ + rest);
                    }
                }
            },
            Piece::Function(n) => {
                out.append(n.as_str());
                proof {
                    if flattened(models, i as int + 1) is Some {
                        let rest = flattened(models, i as int + 1)->0;
                        assert(before + (n@ + rest) =~= out@ + rest);
                    }
                }
            },
            _ => {
                return None;
            },
        }
        i += 1;
    }
    assert(out@ + Seq::<char>::empty() =~= out@);
    Some(out)
}

/// What a value names.
pub fn as_text(store: &Store, v: &Value) -> (r: Option<String>)
    requires
        store.wf(),
        store.holds(*v),
    ensures
        match (r, named(store, *v)) {
            (Some(t), Some(m)) => t@ == m,
            (None, None) => true,
            _ => false,
        },
    decreases store.reach(*v),
{
    match v {
        Value::Symbol(symbol) => Some(
            match &symbol.resolution {
                GeneralSymbol::Datatype(n) => n.as_string(),
                GeneralSymbol::Function(n) => n.as_string(),
                GeneralSymbol::Selector(n) => n.as_string(),
                _ => symbol.as_string(),
            },
        ),
        Value::ValueByReference(r) => {
            assert(v.cells()[0] == r.cell);
            as_text(store, store.get(r.cell))
        },
        _ => flatten(&display(store, v)),
    }
}

/// The length of a value: the number of its cells or fields; nothing
/// for the empty value, and one for any other. A selector has none.
pub open spec fn length_of(v: Value) -> Result<int, Seq<char>> {
    match v {
        Value::Empty => Ok(0),
        Value::Structure(s) => Ok(s.members().len() as int),
        Value::Sequence(s) => Ok(s.cells().len() as int),
        Value::Selector(_) => Err("Length is undefined for selectors"@),
        _ => Ok(1),
    }
}

/// A count as an integer: the greatest integer where it is greater.
pub open spec fn clamped(n: int) -> i32 {
    if n > i32::MAX {
        i32::MAX
    } else {
        n as i32
    }
}

/// The length of a value.
pub fn length(operand: &Value) -> (r: Result<Value, String>)
    ensures
        match (r, length_of(*operand)) {
            (Ok(v), Ok(n)) => v == Value::Int(clamped(n)),
            (Err(e), Err(m)) => e@ == m,
            _ => false,
        },
{
    match operand {
        Value::Empty => Ok(Value::Int(0)),
        Value::Structure(s) => {
            let n = s.length();
            Ok(
                Value::Int(
                    if n > 0x7fff_ffff {
                        0x7fff_ffff
                    } else {
                        n as i32
                    },
                ),
            )
        },
        Value::Sequence(s) => {
            let n = s.as_values().len();
            Ok(
                Value::Int(
                    if n > 0x7fff_ffff {
                        0x7fff_ffff
                    } else {
                        n as i32
                    },
                ),
            )
        },
        Value::Selector(_) => Err(String::from_str("Length is undefined for selectors")),
        _ => Ok(Value::Int(1)),
    }
}

/// The index of the first cell of a sequence; one for any other value.
pub fn lower_bound(operand: &Value) -> (r: Result<Value, String>)
    ensures
        r is Ok,
        r->Ok_0 == Value::Int(
            match *operand {
                Value::Sequence(s) => s.lower(),
                _ => 1,
            },
        ),
{
    match operand {
        Value::Sequence(s) => Ok(Value::Int(s.lower_bound())),
        _ => Ok(Value::Int(1)),
    }
}

/// The truth value true.
pub fn true_value() -> (r: Result<Value, String>)
    ensures
        r is Ok,
        r->Ok_0 == Value::Bool(true),
{
    Ok(Value::Bool(true))
}

/// The truth value false.
pub fn false_value() -> (r: Result<Value, String>)
    ensures
        r is Ok,
        r->Ok_0 == Value::Bool(false),
{
    Ok(Value::Bool(false))
}

/// The name of the kind of a value, or of the datatype of a sequence or
/// structure. The name of a variable and a reference to a cell stand
/// for what the cell holds, a link for what it links to; at most
/// `fuel` links are followed.
pub open spec fn kind_name(store: &Store, v: Value, fuel: nat) -> Result<Seq<char>, Seq<char>>
    decreases fuel, store.reach(v),
{
    match v {
        Value::Empty => Ok("Null"@),
        Value::Bool(_) => Ok("Bool"@),
        Value::Int(_) => Ok("Int"@),
        Value::Real(_) => Ok("Real"@),
        Value::Double(_) => Ok("Dbl"@),
        Value::Char(_) => Ok("Char"@),
        Value::Sequence(s) => Ok(s.datatype()),
        Value::Structure(s) => Ok(s.datatype()),
        Value::Symbol(symbol) => match symbol.resolution {
            GeneralSymbol::Variable(d) => if store.wf() && d.cell < store.cells().len() {
                kind_name(store, store.value_at(d.cell), fuel)
            } else {
                Err("Not a user datatype"@)
            },
            _ => Err("Not a user datatype"@),
        },
        Value::ValueByReference(r) => if store.wf() && r.cell < store.cells().len() {
            kind_name(store, store.value_at(r.cell), fuel)
        } else {
            Err("Not a user datatype"@)
        },
        Value::LogicalLink(e) => if fuel > 0 && store.wf() && e < store.envelopes().len() {
            kind_name(store, store.envelopes()[e as int].value, (fuel - 1) as nat)
        } else {
            Err("Not a user datatype"@)
        },
        Value::Selector(_) => Err("Not a user datatype"@),
    }
}

/// The name of the kind of a value.
pub fn as_datatype(store: &Store, v: &Value, fuel: usize) -> (r: Result<String, String>)
    requires
        store.wf(),
        store.holds(*v),
    ensures
        match (r, kind_name(store, *v, fuel as nat)) {
            (Ok(t), Ok(m)) => t@ == m,
            (Err(e), Err(m)) => e@ == m,
            _ => false,
        },
    decreases fuel, store.reach(*v),
{
    match v {
        Value::Empty => Ok(String::from_str("Null")),
        Value::Bool(_) => Ok(String::from_str("Bool")),
        Value::Int(_) => Ok(String::from_str("Int")),
        Value::Real(_) => Ok(String::from_str("Real")),
        Value::Double(_) => Ok(String::from_str("Dbl")),
        Value::Char(_) => Ok(String::from_str("Char")),
        Value::Sequence(s) => Ok(s.as_string()),
        Value::Structure(s) => Ok(s.as_string()),
        Value::Symbol(symbol) => match &symbol.resolution {
            GeneralSymbol::Variable(d) => {
                assert(v.cells()[0] == d.cell);
                as_datatype(store, store.get(d.cell), fuel)
            },
            _ => Err(String::from_str("Not a user datatype")),
        },
        Value::ValueByReference(r) => {
            assert(v.cells()[0] == r.cell);
            as_datatype(store, store.get(r.cell), fuel)
        },
        Value::LogicalLink(e) => {
            if fuel > 0 {
                as_datatype(store, store.get_envelope(*e), fuel - 1)
            } else {
                Err(String::from_str("Not a user datatype"))
            }
        },
        Value::Selector(_) => Err(String::from_str("Not a user datatype")),
    }
}

fn links_of(store: &Store) -> (r: usize)
    ensures
        r == whole(store),
{
    let n = store.envelope_count();
    if n < usize::MAX {
        n + 1
    } else {
        usize::MAX
    }
}

/// The name of the kind of a value, as a character string.
pub fn get_type(operand: &Value, workspace: &mut WorkSpace) -> (r: Result<Value, String>)
    requires
        old(workspace).wf(),
        old(workspace).store().holds(*operand),
    ensures
        final(workspace).wf(),
        final(workspace).store().extends(&old(workspace).store()),
        final(workspace).same_but_store(old(workspace)),
        match (r, kind_name(&old(workspace).store(), *operand, whole(&old(workspace).store()))) {
            (Ok(v), Ok(name)) => spells(&final(workspace).store(), v, name) && final(workspace).store().holds(v),
            (Err(e), Err(m)) => e@ == m && final(workspace).store() == old(workspace).store(),
            _ => false,
        },
{
    let fuel = links_of(workspace.as_store());
    match as_datatype(workspace.as_store(), operand, fuel) {
        Ok(name) => Ok(workspace.make_string(name.as_str())),
        Err(e) => Err(e),
    }
}

/// The version of the language, as a character string.
pub fn version(workspace: &mut WorkSpace) -> (r: Result<Value, String>)
    requires
        old(workspace).wf(),
    ensures
        final(workspace).wf(),
        final(workspace).store().extends(&old(workspace).store()),
        final(workspace).same_but_store(old(workspace)),
        r matches Ok(v) && spells(&final(workspace).store(), v, "PPL T0.0"@) && final(workspace).store().holds(v),
{
    Ok(workspace.make_string("PPL T0.0"))
}

/// Forgets every frame.
pub fn reset(workspace: &mut WorkSpace) -> (r: Result<(), String>)
    requires
        old(workspace).wf(),
    ensures
        r is Ok,
        final(workspace).wf(),
        final(workspace).frames().len() == 0,
        final(workspace).same_but_frames(old(workspace)),
{
    workspace.reset_function_state();
    Ok(())
}

/// Whether a value is of the datatype that another value names.
pub fn is_an_instance_of(v: &Value, data_type: &Value, workspace: &WorkSpace) -> (r: Result<Value, String>)
    requires
        workspace.wf(),
        workspace.store().holds(*v),
        workspace.store().holds(*data_type),
    ensures
        match named(&workspace.store(), *data_type) {
            Some(name) => if workspace.datatypes().has(name) {
                match accepts(
                    &workspace.datatypes(),
                    *v,
                    workspace.datatypes().item(name).root(),
                    false,
                    depth(&workspace.datatypes()),
                ) {
                    Ok(b) => r == Ok::<Value, String>(Value::Bool(b)),
                    Err(m) => r matches Err(e) && e@ == m,
                }
            } else {
                r matches Err(e) && e@ == datatype_not_found_message(name)
            },
            None => r matches Err(e) && e@ == "Datatype not found"@,
        },
{
    let name = match as_text(workspace.as_store(), data_type) {
        Some(name) => name,
        None => {
            return Err(String::from_str("Datatype not found"));
        },
    };
    match workspace.try_get_datatype(name.as_str()) {
        Some(t) => match is_of(v, t.root_data_type(), workspace.as_datatypes()) {
            Ok(b) => Ok(Value::Bool(b)),
            Err(e) => Err(e),
        },
        None => {
            let mut m = String::from_str("Datatype ");
            m.append(name.as_str());
            m.append(" not found");
            Err(m)
        },
    }
}

/// Whether none of the values before index `upto` names what goes by
/// a name, whatever the case of the letters.
pub open spec fn unnamed_by(store: &Store, args: Seq<Value>, upto: int, name: Seq<char>) -> bool {
    forall|k: int| 0 <= k < upto && k < args.len() ==> (named(store, #[trigger] args[k]) matches Some(n) ==> lower(n) != lower(name))
}

/// Forgets what the values name, each in its turn; everything, where
/// there are no values. What goes by a name that no value names stays
/// as it is.
pub fn erase(args: &Vec<Value>, workspace: &mut WorkSpace) -> (r: Result<(), String>)
    requires
        old(workspace).wf(),
        forall|i: int| 0 <= i < args@.len() ==> old(workspace).store().holds(#[trigger] args@[i]),
    ensures
        r is Ok,
        final(workspace).wf(),
        final(workspace).frames().len() == 0,
        final(workspace).store() == old(workspace).store(),
        final(workspace).values() == old(workspace).values(),
        args@.len() > 0 ==> final(workspace).system_functions() == old(workspace).system_functions(),
        args@.len() == 0 ==> final(workspace).variables().keys().len() == 0 && final(workspace).user_functions().keys().len() == 0 && final(workspace).selectors().keys().len() == 0
            && crate::symbols::metadata::has_system_datatypes(final(workspace).datatypes()) && forall|k: int|
            0 <= k < crate::execution::system_functions::table::BUILTINS ==> crate::execution::system_functions::table::registered(
                final(workspace),
                #[trigger] crate::execution::system_functions::table::builtin(k)->0,
            ),
        forall|i: int|
            0 <= i < args@.len() ==> (named(&old(workspace).store(), #[trigger] args@[i]) matches Some(name)
                ==> !final(workspace).defines(name)),
        args@.len() > 0 ==> final(workspace).last_value() == old(workspace).last_value() && final(workspace).debug_switches()
            == old(workspace).debug_switches() && final(workspace).feature_switches() == old(workspace).feature_switches()
            && final(workspace).sentinal() == old(workspace).sentinal(),
        args@.len() > 0 ==> forall|other: Seq<char>|
            unnamed_by(&old(workspace).store(), args@, args@.len() as int, other) ==> #[trigger] final(workspace).keeps(
                old(workspace),
                other,
            ),
{
    if args.len() == 0 {
        workspace.remove_all();
        return Ok(());
    }
    workspace.reset_function_state();
    let mut i: usize = 0;
    while i < args.len()
        invariant
            i <= args.len(),
            args@.len() > 0,
            workspace.wf(),
            workspace.frames().len() == 0,
            workspace.store() == old(workspace).store(),
            workspace.values() == old(workspace).values(),
            workspace.system_functions() == old(workspace).system_functions(),
            workspace.last_value() == old(workspace).last_value(),
            workspace.debug_switches() == old(workspace).debug_switches(),
            workspace.feature_switches() == old(workspace).feature_switches(),
            workspace.sentinal() == old(workspace).sentinal(),
            forall|other: Seq<char>|
                unnamed_by(&old(workspace).store(), args@, i as int, other) ==> #[trigger] workspace.keeps(
                    old(workspace),
                    other,
                ),
            forall|k: int| 0 <= k < args@.len() ==> old(workspace).store().holds(#[trigger] args@[k]),
            forall|k: int|
                0 <= k < i ==> (named(&old(workspace).store(), #[trigger] args@[k]) matches Some(name)
                    ==> !workspace.defines(name)),
        decreases args.len() - i,
    {
        let ghost before = *workspace;
        match as_text(workspace.as_store(), &args[i]) {
            Some(name) => {
                remove_whatever(workspace, name.as_str());
                proof {
                    assert forall|other: Seq<char>|
                        unnamed_by(&old(workspace).store(), args@, i + 1, other) implies #[trigger] workspace.keeps(
                        old(workspace),
                        other,
                    ) by {
                        assert(unnamed_by(&old(workspace).store(), args@, i as int, other));
                        assert(before.keeps(old(workspace), other));
                        assert(lower(other) != lower(name@));
                        assert(workspace.keeps(&before, other));
                    }
                    assert forall|k: int| 0 <= k < i implies (named(&old(workspace).store(), #[trigger] args@[k]) matches Some(
                        other,
                    ) ==> !workspace.defines(other)) by {
                        if named(&old(workspace).store(), args@[k]) is Some {
                            let other = named(&old(workspace).store(), args@[k])->0;
                            assert(!before.defines(other));
                            lemma_still_undefined(&before, workspace, other);
                        }
                    }
                }
            },
            None => {},
        }
        i += 1;
    }
    Ok(())
}

/// Whether a workspace defines no name that another did not define.
pub open spec fn defines_no_more(after: &WorkSpace, before: &WorkSpace) -> bool {
    forall|name: Seq<char>| !before.defines(name) ==> !#[trigger] after.defines(name)
}

/// What was not defined before a removal is not defined after it.
pub proof fn lemma_still_undefined(before: &WorkSpace, after: &WorkSpace, name: Seq<char>)
    requires
        defines_no_more(after, before),
        !before.defines(name),
    ensures
        !after.defines(name),
{
}

/// Removes what goes by a name, whatever it is, until nothing that can
/// be removed goes by it.
fn remove_whatever(workspace: &mut WorkSpace, name: &str)
    requires
        old(workspace).wf(),
        old(workspace).frames().len() == 0,
    ensures
        final(workspace).wf(),
        final(workspace).frames().len() == 0,
        final(workspace).store() == old(workspace).store(),
        final(workspace).values() == old(workspace).values(),
        final(workspace).system_functions() == old(workspace).system_functions(),
        !final(workspace).defines(name@),
        defines_no_more(final(workspace), old(workspace)),
        forall|other: Seq<char>| lower(other) != lower(name@) ==> #[trigger] final(workspace).keeps(old(workspace), other),
        final(workspace).last_value() == old(workspace).last_value(),
        final(workspace).debug_switches() == old(workspace).debug_switches(),
        final(workspace).feature_switches() == old(workspace).feature_switches(),
        final(workspace).sentinal() == old(workspace).sentinal(),
{
    workspace.remove_named(name);
}

/// The lines that values from index `i` on name, or the message of
/// the first of them that names no number.
pub open spec fn line_numbers(store: &Store, args: Seq<Value>, i: int) -> Result<Seq<u32>, Seq<char>>
    decreases args.len() - i,
{
    if i < 0 || i >= args.len() {
        Ok(Seq::empty())
    } else {
        match atom_to_natural(store.atom(args[i])) {
            Err(m) => Err(m),
            Ok(n) => match line_numbers(store, args, i + 1) {
                Err(m) => Err(m),
                Ok(rest) => Ok(seq![as_line(n)] + rest),
            },
        }
    }
}

/// Whether a workspace is what another becomes, and a result what
/// comes of it, when a flag of statements of a function is set or
/// cleared: the first value names the function, the others its lines.
pub open spec fn marks(
    before: &WorkSpace,
    after: &WorkSpace,
    r: Result<(), String>,
    args: Seq<Value>,
    flag: Flag,
    value: bool,
) -> bool {
    if args.len() == 0 {
        &&& r matches Err(e)
        &&& e@ == "Stop requires a function name"@
        &&& after.user_functions() == before.user_functions()
    } else {
        match named(&before.store(), args[0]) {
            None => {
                &&& r matches Err(e)
                &&& e@ == "Function not found"@
                &&& after.user_functions() == before.user_functions()
            },
            Some(name) => match line_numbers(&before.store(), args, 1) {
                Err(m) => {
                    &&& r matches Err(e)
                    &&& e@ == m
                    &&& after.user_functions() == before.user_functions()
                },
                Ok(lines) => match before.marked_body(name) {
                    Err(m) => {
                        &&& r matches Err(e)
                        &&& e@ == m
                        &&& after.user_functions() == before.user_functions()
                    },
                    Ok(body) => {
                        &&& after.marked_body(name) matches Ok(changed)
                        &&& crate::workspace::marked(
                            body,
                            changed,
                            lines,
                            flag,
                            value,
                            crate::workspace::first_missing_line(body, lines, 0),
                        )
                        &&& match crate::workspace::first_missing_line(body, lines, 0) {
                            Some(k) => r matches Err(e) && e@ == crate::workspace::invalid_line_message(lines[k]),
                            None => r is Ok,
                        }
                    },
                },
            },
        }
    }
}

/// Sets or clears a flag of statements of a function: the first value
/// names the function, the others are lines.
#[verifier::loop_isolation(false)]
pub fn statement_internal(args: &Vec<Value>, flag: Flag, value: bool, workspace: &mut WorkSpace) -> (r: Result<
    (),
    String,
>)
    requires
        old(workspace).wf(),
        forall|i: int| 0 <= i < args@.len() ==> old(workspace).store().holds(#[trigger] args@[i]),
    ensures
        final(workspace).wf(),
        final(workspace).same_but_tables(old(workspace)),
        final(workspace).datatypes() == old(workspace).datatypes(),
        final(workspace).system_functions() == old(workspace).system_functions(),
        final(workspace).selectors() == old(workspace).selectors(),
        marks(old(workspace), final(workspace), r, args@, flag, value),
{
    if args.len() == 0 {
        return Err(String::from_str("Stop requires a function name"));
    }
    let name = match as_text(workspace.as_store(), &args[0]) {
        Some(name) => name,
        None => {
            return Err(String::from_str("Function not found"));
        },
    };
    let mut reversed: Vec<u32> = Vec::new();
    let mut i: usize = args.len();
    while i > 1
        invariant
            1 <= i <= args.len(),
            workspace.wf(),
            *workspace == *old(workspace),
            forall|k: int| 0 <= k < args@.len() ==> old(workspace).store().holds(#[trigger] args@[k]),
            match line_numbers(&workspace.store(), args@, i as int) {
                Ok(rest) => rest.len() == reversed@.len() && forall|k: int|
                    0 <= k < rest.len() ==> #[trigger] reversed@[rest.len() - 1 - k] == rest[k],
                Err(_) => false,
            },
        decreases i,
    {
        i -= 1;
        let ghost rest = line_numbers(&workspace.store(), args@, i as int + 1)->Ok_0;
        let ghost sofar = reversed@;
        match args[i].as_natural(workspace.as_store()) {
            Ok(n) => {
                reversed.push((n % 0x1_0000_0000) as u32);
                proof {
                    let here = line_numbers(&workspace.store(), args@, i as int)->Ok_0;
                    assert(here =~= seq![as_line(n)] + rest);
                    assert forall|k: int| 0 <= k < here.len() implies #[trigger] reversed@[here.len() - 1 - k] == here[k] by {
                        if k > 0 {
                            assert(sofar[rest.len() - 1 - (k - 1)] == rest[k - 1]);
                        }
                    }
                }
            },
            Err(e) => {
                proof {
                    lemma_line_error(&workspace.store(), args@, 1, i as int);
                }
                return Err(first_line_error(workspace.as_store(), args));
            },
        }
    }
    let ghost wanted = line_numbers(&workspace.store(), args@, 1)->Ok_0;
    let mut lines: Vec<u32> = Vec::new();
    let mut left: usize = reversed.len();
    while left > 0
        invariant
            left <= reversed.len(),
            wanted.len() == reversed@.len(),
            lines@.len() == reversed@.len() - left,
            forall|k: int| 0 <= k < wanted.len() ==> #[trigger] reversed@[wanted.len() - 1 - k] == wanted[k],
            forall|k: int| 0 <= k < lines@.len() ==> #[trigger] lines@[k] == wanted[k],
        decreases left,
    {
        left -= 1;
        let ghost k = lines@.len() as int;
        assert(reversed@[wanted.len() - 1 - k] == wanted[k]);
        lines.push(reversed[left]);
    }
    assert(lines@ =~= wanted);
    workspace.mark_statements(name.as_str(), &lines, flag, value)
}

/// Where a value names no number, the values from a place before it name no lines.
pub proof fn lemma_line_error(store: &Store, args: Seq<Value>, from: int, bad: int)
    requires
        0 <= from <= bad < args.len(),
        atom_to_natural(store.atom(args[bad])) is Err,
    ensures
        line_numbers(store, args, from) is Err,
    decreases bad - from,
{
    if from < bad {
        lemma_line_error(store, args, from + 1, bad);
    }
}

/// The message of the first of the values behind the first that names no number.
fn first_line_error(store: &Store, args: &Vec<Value>) -> (e: String)
    requires
        store.wf(),
        args@.len() > 0,
        forall|k: int| 0 <= k < args@.len() ==> store.holds(#[trigger] args@[k]),
        line_numbers(store, args@, 1) is Err,
    ensures
        line_numbers(store, args@, 1) == Err::<Seq<u32>, Seq<char>>(e@),
{
    let mut i: usize = 1;
    while i < args.len()
        invariant
            1 <= i <= args.len(),
            store.wf(),
            forall|k: int| 0 <= k < args@.len() ==> store.holds(#[trigger] args@[k]),
            line_numbers(store, args@, i as int) is Err,
            line_numbers(store, args@, i as int) == line_numbers(store, args@, 1),
        decreases args.len() - i,
    {
        match args[i].as_natural(store) {
            Ok(_) => {},
            Err(e) => {
                return e;
            },
        }
        i += 1;
    }
    proof {
        assert(false);
    }
    String::new()
}

/// Sets the stop flag of statements of a function.
pub fn stop(args: &Vec<Value>, workspace: &mut WorkSpace) -> (r: Result<(), String>)
    requires
        old(workspace).wf(),
        forall|i: int| 0 <= i < args@.len() ==> old(workspace).store().holds(#[trigger] args@[i]),
    ensures
        final(workspace).wf(),
        final(workspace).same_but_tables(old(workspace)),
        marks(old(workspace), final(workspace), r, args@, Flag::Stop, true),
{
    statement_internal(args, Flag::Stop, true, workspace)
}

/// Clears the stop flag of statements of a function.
pub fn unstop(args: &Vec<Value>, workspace: &mut WorkSpace) -> (r: Result<(), String>)
    requires
        old(workspace).wf(),
        forall|i: int| 0 <= i < args@.len() ==> old(workspace).store().holds(#[trigger] args@[i]),
    ensures
        final(workspace).wf(),
        final(workspace).same_but_tables(old(workspace)),
        marks(old(workspace), final(workspace), r, args@, Flag::Stop, false),
{
    statement_internal(args, Flag::Stop, false, workspace)
}

/// Sets the trace flag of statements of a function.
pub fn trace(args: &Vec<Value>, workspace: &mut WorkSpace) -> (r: Result<(), String>)
    requires
        old(workspace).wf(),
        forall|i: int| 0 <= i < args@.len() ==> old(workspace).store().holds(#[trigger] args@[i]),
    ensures
        final(workspace).wf(),
        final(workspace).same_but_tables(old(workspace)),
        marks(old(workspace), final(workspace), r, args@, Flag::Trace, true),
{
    statement_internal(args, Flag::Trace, true, workspace)
}

/// Clears the trace flag of statements of a function.
pub fn untrace(args: &Vec<Value>, workspace: &mut WorkSpace) -> (r: Result<(), String>)
    requires
        old(workspace).wf(),
        forall|i: int| 0 <= i < args@.len() ==> old(workspace).store().holds(#[trigger] args@[i]),
    ensures
        final(workspace).wf(),
        final(workspace).same_but_tables(old(workspace)),
        marks(old(workspace), final(workspace), r, args@, Flag::Trace, false),
{
    statement_internal(args, Flag::Trace, false, workspace)
}

/// Whether a text asks for a switch to be set, or to be cleared, or for neither.
pub open spec fn asks(operation: Seq<char>) -> Option<bool> {
    if lower(operation) == "on"@ || lower(operation) == "set"@ {
        Some(true)
    } else if lower(operation) == "off"@ || lower(operation) == "clear"@ {
        Some(false)
    } else {
        None
    }
}

fn asked(operation: &str) -> (r: Option<bool>)
    ensures
        r == asks(operation@),
{
    let low = crate::text::string_of(&crate::text::to_lower(&crate::text::chars_of(operation)));
    if crate::text::string_is(&low, "on") || crate::text::string_is(&low, "set") {
        Some(true)
    } else if crate::text::string_is(&low, "off") || crate::text::string_is(&low, "clear") {
        Some(false)
    } else {
        None
    }
}

/// Switches a feature on or off: the first value names what is to be
/// done, the second the feature. Returns the empty character string.
pub fn feature(operation: &Value, option: &Value, workspace: &mut WorkSpace) -> (r: Result<Value, String>)
    requires
        old(workspace).wf(),
        old(workspace).store().holds(*operation),
        old(workspace).store().holds(*option),
    ensures
        final(workspace).wf(),
        final(workspace).store().extends(&old(workspace).store()),
        final(workspace).debug_switches() == old(workspace).debug_switches(),
        match (named(&old(workspace).store(), *operation), named(&old(workspace).store(), *option)) {
            (Some(what), Some(which)) => match asks(what) {
                Some(on) => match crate::workspace::optional_features::Feature::named(which) {
                    Some(k) => r matches Ok(v) && spells(&final(workspace).store(), v, Seq::empty()) && final(workspace).feature_switches().on(k) == on,
                    None => r matches Err(e) && e@ == crate::workspace::options::no_variant_message(),
                },
                None => r matches Err(e) && e@ == what + " is not a valid feature operation"@,
            },
            _ => r matches Err(e) && e@ == " is not a valid feature operation"@,
        },
{
    let (what, which) = match (as_text(workspace.as_store(), operation), as_text(workspace.as_store(), option)) {
        (Some(what), Some(which)) => (what, which),
        _ => {
            return Err(String::from_str(" is not a valid feature operation"));
        },
    };
    match asked(what.as_str()) {
        Some(on) => match workspace.switch_feature(on, which.as_str()) {
            Ok(()) => {
                proof {
                    reveal_strlit("");
                    assert(""@ =~= Seq::<char>::empty());
                }
                Ok(workspace.make_string(""))
            },
            Err(e) => Err(e),
        },
        None => {
            let mut m = what;
            m.append(" is not a valid feature operation");
            Err(m)
        },
    }
}

/// Switches a debug option on or off: the first value names what is
/// to be done, the second the option.
pub fn debug(operation: &Value, option: &Value, workspace: &mut WorkSpace) -> (r: Result<(), String>)
    requires
        old(workspace).wf(),
        old(workspace).store().holds(*operation),
        old(workspace).store().holds(*option),
    ensures
        final(workspace).wf(),
        final(workspace).store() == old(workspace).store(),
        final(workspace).feature_switches() == old(workspace).feature_switches(),
        match (named(&old(workspace).store(), *operation), named(&old(workspace).store(), *option)) {
            (Some(what), Some(which)) => match asks(what) {
                Some(on) => match crate::workspace::debug::DebugOption::named(which) {
                    Some(k) => r is Ok && final(workspace).debug_switches().on(k) == on,
                    None => r matches Err(e) && e@ == crate::workspace::options::no_variant_message(),
                },
                None => r matches Err(e) && e@ == what + " is not a valid debug operation"@,
            },
            _ => r matches Err(e) && e@ == " is not a valid debug operation"@,
        },
{
    let (what, which) = match (as_text(workspace.as_store(), operation), as_text(workspace.as_store(), option)) {
        (Some(what), Some(which)) => (what, which),
        _ => {
            return Err(String::from_str(" is not a valid debug operation"));
        },
    };
    match asked(what.as_str()) {
        Some(on) => workspace.switch_debug(on, which.as_str()),
        None => {
            let mut m = what;
            m.append(" is not a valid debug operation");
            Err(m)
        },
    }
}

/// The settings of the features, as a character string.
pub fn show_features(workspace: &mut WorkSpace) -> (r: Result<Value, String>)
    requires
        old(workspace).wf(),
    ensures
        final(workspace).wf(),
        final(workspace).store().extends(&old(workspace).store()),
        final(workspace).same_but_store(old(workspace)),
        r matches Ok(v) && spells(
            &final(workspace).store(),
            v,
            crate::workspace::options::shown(old(workspace).feature_switches().entries()),
        ),
{
    let text = workspace.features_text();
    Ok(workspace.make_string(text.as_str()))
}

/// The settings of the debug options, as a character string.
pub fn show_debug(workspace: &mut WorkSpace) -> (r: Result<Value, String>)
    requires
        old(workspace).wf(),
    ensures
        final(workspace).wf(),
        final(workspace).store().extends(&old(workspace).store()),
        final(workspace).same_but_store(old(workspace)),
        r matches Ok(v) && spells(
            &final(workspace).store(),
            v,
            crate::workspace::options::shown(old(workspace).debug_switches().entries()),
        ),
{
    let text = workspace.debug_text();
    Ok(workspace.make_string(text.as_str()))
}

/// Copies of the values in cells, without cells of their own.
fn held_in(store: &Store, cells: &Vec<usize>, out: &mut Vec<Value>)
    requires
        store.wf(),
        forall|i: int| 0 <= i < cells@.len() ==> (#[trigger] cells@[i]) < store.cells().len(),
        forall|i: int| 0 <= i < old(out)@.len() ==> store.holds(#[trigger] old(out)@[i]),
    ensures
        final(out)@.len() == old(out)@.len() + cells@.len(),
        forall|i: int| 0 <= i < old(out)@.len() ==> #[trigger] final(out)@[i] == old(out)@[i],
        forall|i: int|
            0 <= i < cells@.len() ==> (#[trigger] final(out)@[old(out)@.len() + i]).alike(store.value_at(cells@[i])),
        forall|i: int| 0 <= i < final(out)@.len() ==> store.holds(#[trigger] final(out)@[i]),
{
    let ghost start = out@;
    let mut i: usize = 0;
    while i < cells.len()
        invariant
            i <= cells.len(),
            store.wf(),
            start == old(out)@,
            out@.len() == start.len() + i,
            forall|k: int| 0 <= k < cells@.len() ==> (#[trigger] cells@[k]) < store.cells().len(),
            forall|k: int| 0 <= k < start.len() ==> #[trigger] out@[k] == start[k],
            forall|k: int| 0 <= k < i ==> (#[trigger] out@[start.len() + k]).alike(store.value_at(cells@[k])),
            forall|k: int| 0 <= k < out@.len() ==> store.holds(#[trigger] out@[k]),
        decreases cells.len() - i,
    {
        let v = store.get(cells[i]).duplicate();
        proof {
            crate::execution::value::lemma_alike_cells(v, store.value_at(cells@[i as int]));
        }
        out.push(v);
        i += 1;
    }
}

/// What is said of a value that is no sequence.
pub open spec fn not_variadic(store: &Store, v: Value) -> Seq<PieceModel> {
    shown(store, v, Seq::empty(), whole(store)) + text(" is not a variadic sequence"@)
}

/// Whether a store is what another becomes, and a result what comes
/// of it, when two sequences are joined.
pub open spec fn joined(before: &Store, after: &Store, left: Value, right: Value, r: Result<Value, Vec<Piece>>) -> bool {
    match (left, right) {
            (Value::Sequence(a), Value::Sequence(b)) => if lower(a.datatype()) == lower(b.datatype()) {
                &&& r matches Ok(v)
                &&& after.holds(v)
                &&& v matches Value::Sequence(s)
                &&& s.wf()
                &&& s.datatype() == a.datatype()
                &&& s.lower() == a.lower()
                &&& s.upper() is None
                &&& s.cells().len() == a.cells().len() + b.cells().len()
                &&& forall|i: int|
                    0 <= i < s.cells().len() ==> before.cells().len() <= (#[trigger] s.cells()[i]) < after.cells().len() && copies(
                        before,
                        after,
                        before.cells().len() as nat,
                        before.value_at(
                            if i < a.cells().len() {
                                a.cells()[i]
                            } else {
                                b.cells()[i - a.cells().len()]
                            },
                        ),
                        after.value_at(s.cells()[i]),
                        DEPTH as nat,
                    )
            } else {
                r matches Err(e) && piece_models(e@) == text("Both sequences must be of the same type"@) && after == before
            },
            (Value::Sequence(_), _) => r matches Err(e) && piece_models(e@) == not_variadic(before, right)
                && after == before,
            _ => r matches Err(e) && piece_models(e@) == not_variadic(before, left) && after == before,
        }
}

/// Joins two sequences of the same datatype: a sequence of that
/// datatype, counted as the first, of cells of its own with copies of
/// what the cells of the first and then those of the second hold.
pub fn concat(left: &Value, right: &Value, store: &mut Store) -> (r: Result<Value, Vec<Piece>>)
    requires
        old(store).wf(),
        old(store).holds(*left),
        old(store).holds(*right),
    ensures
        final(store).wf(),
        final(store).extends(old(store)),
        joined(old(store), final(store), *left, *right, r),
{
    let a = match left {
        Value::Sequence(a) => a,
        _ => {
            return Err(not_a_sequence(store, left));
        },
    };
    let b = match right {
        Value::Sequence(b) => b,
        _ => {
            return Err(not_a_sequence(store, right));
        },
    };
    if !a.as_datatype().is_same(&b.as_datatype()) {
        return Err(say(String::from_str("Both sequences must be of the same type")));
    }
    proof {
        assert forall|i: int| 0 <= i < a.cells().len() implies (#[trigger] a.cells()[i]) < store.cells().len() by {
            assert(left.cells()[i] == a.cells()[i]);
        }
        assert forall|i: int| 0 <= i < b.cells().len() implies (#[trigger] b.cells()[i]) < store.cells().len() by {
            assert(right.cells()[i] == b.cells()[i]);
        }
    }
    let mut values: Vec<Value> = Vec::new();
    held_in(store, a.as_values(), &mut values);
    let ghost first = values@;
    held_in(store, b.as_values(), &mut values);
    let cells = keep_all(store, &values);
    let v = Value::Sequence(SequenceInstance::new(a.as_datatype(), a.lower_bound(), cells));
    proof {
        let s = v->Sequence_0;
        assert(v.cells() =~= cells@);
        assert forall|i: int| 0 <= i < s.cells().len() implies old(store).cells().len() <= (#[trigger] s.cells()[i])
            < store.cells().len() && copies(
            old(store),
            store,
            old(store).cells().len() as nat,
            old(store).value_at(
                if i < a.cells().len() {
                    a.cells()[i]
                } else {
                    b.cells()[i - a.cells().len()]
                },
            ),
            store.value_at(s.cells()[i]),
            DEPTH as nat,
        ) by {
            let source = old(store).value_at(
                if i < a.cells().len() {
                    a.cells()[i]
                } else {
                    b.cells()[i - a.cells().len()]
                },
            );
            assert(cells@[i] == s.cells()[i]);
            if i < a.cells().len() {
                assert(first[0 + i].alike(source));
                assert(values@[i] == first[i]);
            } else {
                assert(values@[a.cells().len() + (i - a.cells().len())].alike(source));
            }
            crate::execution::value::copy::lemma_copies_of_alike(
                old(store),
                store,
                old(store).cells().len() as nat,
                values@[i],
                source,
                store.value_at(cells@[i]),
                DEPTH as nat,
            );
        }
        assert forall|i: int| 0 <= i < v.cells().len() implies (#[trigger] v.cells()[i]) < store.cells().len() by {
            assert(v.cells()[i] == s.cells()[i]);
        }
    }
    Ok(v)
}

fn not_a_sequence(store: &Store, v: &Value) -> (e: Vec<Piece>)
    requires
        store.wf(),
        store.holds(*v),
    ensures
        piece_models(e@) == not_variadic(store, *v),
{
    let mut e = display(store, v);
    let ghost before = piece_models(e@);
    e.push(Piece::Text(String::from_str(" is not a variadic sequence")));
    assert(piece_models(e@) =~= before + text(" is not a variadic sequence"@));
    e
}

/// What a name must be the name of to be given as an operator: a
/// function that takes the given number of arguments, and a fixed list
/// of them. The function of the user goes before a built-in one, and
/// among the built-in ones only the first is looked at.
pub open spec fn operator_for(workspace: &WorkSpace, name: Seq<char>, count: nat) -> Result<
    crate::symbols::metadata::FunctionDescription,
    Seq<char>,
> {
    if !workspace.knows_function(name) {
        Err(not_found_message(name))
    } else {
        let f = workspace.function_named(name);
        if f.arguments is Fixed && f.arguments.arity() == Some(count) && (workspace.user_functions().has(name)
            || f.implementation_class is System) {
            Ok(f)
        } else {
            Err(
                name + (if count == 1 {
                    " is not a unary function"@
                } else {
                    " is not a binary function"@
                }),
            )
        }
    }
}

fn make_operator(operator: &Value, function: &Value, count: usize, workspace: &mut WorkSpace) -> (r: Result<
    (),
    String,
>)
    requires
        old(workspace).wf(),
        old(workspace).store().holds(*operator),
        old(workspace).store().holds(*function),
        count == 1 || count == 2,
    ensures
        final(workspace).wf(),
        final(workspace).same_but_tables(old(workspace)),
        final(workspace).system_functions() == old(workspace).system_functions(),
        final(workspace).datatypes() == old(workspace).datatypes(),
        final(workspace).selectors() == old(workspace).selectors(),
        match (named(&old(workspace).store(), *operator), named(&old(workspace).store(), *function)) {
            (Some(sign), Some(name)) => match operator_for(old(workspace), name, count as nat) {
                Ok(f) => {
                    &&& r is Ok
                    &&& final(workspace).user_functions().has(sign)
                    &&& crate::execution::definition::same_function(final(workspace).user_functions().item(sign), f)
                    &&& forall|other: Seq<char>|
                        lower(other) != lower(sign) ==> final(workspace).user_functions().has(other) == old(workspace).user_functions().has(other) && (old(workspace).user_functions().has(other) ==> final(workspace).user_functions().item(other) == old(workspace).user_functions().item(other))
                },
                Err(m) => r matches Err(e) && e@ == m && final(workspace).user_functions() == old(workspace).user_functions(),
            },
            _ => r matches Err(e) && e@ == not_found_message(Seq::empty()) && final(workspace).user_functions()
                == old(workspace).user_functions(),
        },
{
    let (sign, name) = match (as_text(workspace.as_store(), operator), as_text(workspace.as_store(), function)) {
        (Some(sign), Some(name)) => (sign, name),
        _ => {
            proof {
                reveal_strlit("");
                assert(""@ + " not found"@ =~= not_found_message(Seq::empty()));
            }
            let mut m = String::from_str("");
            m.append(" not found");
            return Err(m);
        },
    };
    let copy = match workspace.try_get_function(name.as_str()) {
        Some(f) => {
            let built_in = match &f.implementation_class {
                crate::symbols::metadata::FunctionImplementation::System(_) => true,
                _ => false,
            };
            let fits = match &f.arguments {
                crate::symbols::metadata::FunctionArgumentList::Fixed(list) => list.len() == count && (built_in
                    || workspace.try_get_user_function(name.as_str()).is_some()),
                _ => false,
            };
            if !fits {
                let mut m = name;
                m.append(
                    if count == 1 {
                        " is not a unary function"
                    } else {
                        " is not a binary function"
                    },
                );
                return Err(m);
            }
            proof {
                if workspace.user_functions().has(name@) {
                    workspace.lemma_function_wf(name@);
                }
            }
            crate::execution::definition::copy_function(f)
        },
        None => {
            let mut m = name;
            m.append(" not found");
            return Err(m);
        },
    };
    workspace.add_user_function(sign.as_str(), copy);
    Ok(())
}

/// Makes an operator of a function of two arguments: the first value
/// names the operator, the second the function.
pub fn binary(operator: &Value, function: &Value, workspace: &mut WorkSpace) -> (r: Result<(), String>)
    requires
        old(workspace).wf(),
        old(workspace).store().holds(*operator),
        old(workspace).store().holds(*function),
    ensures
        final(workspace).wf(),
        final(workspace).same_but_tables(old(workspace)),
        match (named(&old(workspace).store(), *operator), named(&old(workspace).store(), *function)) {
            (Some(sign), Some(name)) => match operator_for(old(workspace), name, 2) {
                Ok(f) => r is Ok && final(workspace).user_functions().has(sign)
                    && crate::execution::definition::same_function(final(workspace).user_functions().item(sign), f),
                Err(m) => r matches Err(e) && e@ == m && final(workspace).user_functions() == old(workspace).user_functions(),
            },
            _ => r is Err && final(workspace).user_functions() == old(workspace).user_functions(),
        },
{
    make_operator(operator, function, 2, workspace)
}

/// Makes an operator of a function of one argument: the first value
/// names the operator, the second the function.
pub fn unary(operator: &Value, function: &Value, workspace: &mut WorkSpace) -> (r: Result<(), String>)
    requires
        old(workspace).wf(),
        old(workspace).store().holds(*operator),
        old(workspace).store().holds(*function),
    ensures
        final(workspace).wf(),
        final(workspace).same_but_tables(old(workspace)),
        match (named(&old(workspace).store(), *operator), named(&old(workspace).store(), *function)) {
            (Some(sign), Some(name)) => match operator_for(old(workspace), name, 1) {
                Ok(f) => r is Ok && final(workspace).user_functions().has(sign)
                    && crate::execution::definition::same_function(final(workspace).user_functions().item(sign), f),
                Err(m) => r matches Err(e) && e@ == m && final(workspace).user_functions() == old(workspace).user_functions(),
            },
            _ => r is Err && final(workspace).user_functions() == old(workspace).user_functions(),
        },
{
    make_operator(operator, function, 1, workspace)
}

/// What a sequence is made of by the built-in function that makes one
/// of a number of copies of a value: the first value names the
/// datatype, the second is the number.
pub open spec fn making(workspace: &WorkSpace, sequence_type: Value, count: Value, value: Value) -> Result<
    (Seq<char>, i32, Value),
    Seq<PieceModel>,
> {
    match named(&workspace.store(), sequence_type) {
        None => Err(text(not_found_message(Seq::empty()))),
        Some(name) => if !workspace.datatypes().has(name) {
            Err(text(not_found_message(name)))
        } else {
            match atom_to_int(workspace.store().atom(count)) {
                Err(m) => Err(text(m)),
                Ok(n) => match crate::execution::construction::filling(
                    &workspace.store(),
                    &workspace.datatypes(),
                    workspace.datatypes().item(name),
                    n,
                    value,
                ) {
                    Err(m) => Err(m),
                    Ok(w) => Ok((name, n, w)),
                },
            }
        },
    }
}

/// Makes a sequence of a number of copies of a value: the first value
/// names the datatype of the sequence, the second is the number.
pub fn make(sequence_type: &Value, count: &Value, value: &Value, workspace: &mut WorkSpace) -> (r: Result<
    Value,
    Vec<Piece>,
>)
    requires
        old(workspace).wf(),
        old(workspace).store().holds(*sequence_type),
        old(workspace).store().holds(*count),
        old(workspace).store().holds(*value),
    ensures
        final(workspace).wf(),
        final(workspace).store().extends(&old(workspace).store()),
        final(workspace).same_but_store(old(workspace)),
        match (r, making(old(workspace), *sequence_type, *count, *value)) {
            (Ok(v), Ok(m)) => {
                &&& final(workspace).store().holds(v)
                &&& v matches Value::Sequence(s)
                &&& s.wf()
                &&& s.cells().len() == crate::execution::construction::many(m.1)
                &&& forall|i: int|
                    0 <= i < s.cells().len() ==> old(workspace).store().cells().len() <= (#[trigger] s.cells()[i])
                        < final(workspace).store().cells().len() && copies(
                        &old(workspace).store(),
                        &final(workspace).store(),
                        old(workspace).store().cells().len() as nat,
                        m.2,
                        final(workspace).store().value_at(s.cells()[i]),
                        DEPTH as nat,
                    )
            },
            (Err(e), Err(m)) => piece_models(e@) == m && final(workspace).store() == old(workspace).store(),
            _ => false,
        },
{
    let name = match as_text(workspace.as_store(), sequence_type) {
        Some(name) => name,
        None => {
            proof {
                reveal_strlit("");
                assert(""@ + " not found"@ =~= not_found_message(Seq::empty()));
            }
            let mut m = String::from_str("");
            m.append(" not found");
            return Err(say(m));
        },
    };
    if workspace.try_get_datatype(name.as_str()).is_none() {
        let mut m = name;
        m.append(" not found");
        return Err(say(m));
    }
    let n = match count.as_i32(workspace.as_store()) {
        Ok(n) => n,
        Err(e) => {
            return Err(say(e));
        },
    };
    workspace.make_value(name.as_str(), n, value)
}

} // verus!
