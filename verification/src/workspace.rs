//! The workspace: everything that lasts from one input to the next.

use vstd::prelude::*;
use crate::execution::runtime::executable::Executable;
use crate::execution::runtime::invocation::{ExecutionState, Invocation};
use crate::execution::sentinal::ExecutionSentinal;
use crate::execution::value::coercion::{coerce, coerced};
use crate::execution::system_functions::table::{builtin, describes, occurrences, registered, BUILTINS};
use crate::execution::construction::{atomic, construct, filling, first_unfit, is_atomic, made, many, one_argument_message, wanted};
use crate::execution::value::copy::{copies, copy, DEPTH};
use crate::symbols::metadata::has_system_datatypes;
use crate::execution::value::display::{marks_of, passed, piece_models, say, text, walked, walked_all, whole, Piece, PieceModel};
use crate::execution::value::sequence::{spells, SequenceInstance};
use crate::execution::value::{GeneralSymbol, Store, Value};
use crate::symbols::datatype::RootDataType;
use crate::execution::runtime::statement::Statement;
use crate::execution::value::format::int_text;
use crate::lexical::LineNumber;
use crate::symbols::metadata::{ArgumentMechanism, FunctionBody, FunctionClass, SystemFunction};
use crate::symbols::metadata::{FunctionArgumentList, FunctionDescription, FunctionImplementation, MetaDataType, SelectorDescription,
    VariableDescription};
use crate::symbols::name::Name;
use crate::symbols::SymbolTable;
use crate::text::lower;
use self::debug::DebugOption;
use self::optional_features::Feature;
use self::options::{OptionKey, Options};

pub mod debug;
pub mod optional_features;
pub mod options;

verus! {

/// Whether one of the functions takes exactly `n` arguments.
pub open spec fn some_takes(functions: Seq<FunctionDescription>, n: nat) -> bool {
    exists|i: int| 0 <= i < functions.len() && (#[trigger] functions[i]).arguments.arity() == Some(n)
}

/// The workspace: the symbol tables, the switches, and the state of execution.
pub struct WorkSpace {
    datatype_symbol_table: SymbolTable<MetaDataType>,
    system_function_symbol_table: SymbolTable<Vec<FunctionDescription>>,
    user_function_symbol_table: SymbolTable<FunctionDescription>,
    selector_symbol_table: SymbolTable<SelectorDescription>,
    variable_symbol_table: SymbolTable<VariableDescription>,
    invocation_stack: Vec<Invocation>,
    value_stack: Vec<Value>,
    last_statement_value: Option<Value>,
    store: Store,
    pub debug_options: Options<DebugOption>,
    pub features: Options<Feature>,
    pub execution_sentinal: ExecutionSentinal,
}

/// What a name can stand for.
pub enum Resolution {
    Variable(VariableDescription),
    Datatype,
    Selector,
    Function,
    Unresolved,
}

/// Whether a symbol says of a name what the name stands for.
pub open spec fn resolves_as(symbol: GeneralSymbol, resolution: Resolution, name: Seq<char>) -> bool {
    match resolution {
        Resolution::Variable(v) => symbol == GeneralSymbol::Variable(v),
        Resolution::Datatype => symbol matches GeneralSymbol::Datatype(n) && n@ == name,
        Resolution::Selector => symbol matches GeneralSymbol::Selector(n) && n@ == name,
        Resolution::Function => symbol matches GeneralSymbol::Function(n) && n@ == name,
        Resolution::Unresolved => symbol matches GeneralSymbol::Unresolved(n) && n@ == name,
    }
}

/// Whether the cells of the variables of a table are cells of a store.
pub open spec fn variables_in(table: &SymbolTable<VariableDescription>, store: &Store) -> bool {
    table.wf() && forall|i: int| 0 <= i < table.items().len() ==> (#[trigger] table.items()[i]).cell < store.cells().len()
}

/// A flag of a statement.
#[derive(Clone, Copy, Debug, PartialEq, Eq, Structural)]
pub enum Flag {
    /// Execution stops before the statement.
    Stop,
    /// The statement is told when it has been run.
    Trace,
}

/// The message for a line without a statement.
pub open spec fn invalid_line_message(line: LineNumber) -> Seq<char> {
    "Invalid line number "@ + int_text(line as int)
}

/// The flag of a statement.
pub open spec fn flag_of(statement: Statement, flag: Flag) -> bool {
    match flag {
        Flag::Stop => statement.stops(),
        Flag::Trace => statement.traced(),
    }
}

/// The first of the lines from index `k` on that no statement stands on.
/// Where the statements stand in the order of their lines, a line that
/// a statement stands on is found.
pub open spec fn first_missing_line(executable: Executable, lines: Seq<LineNumber>, k: int) -> Option<int>
    decreases lines.len() - k,
{
    if k < 0 || k >= lines.len() {
        None
    } else if !found_line(executable, lines[k]) {
        Some(k)
    } else {
        first_missing_line(executable, lines, k + 1)
    }
}

/// Whether the statement on a line is found by bisection.
pub open spec fn found_line(executable: Executable, line: LineNumber) -> bool {
    bisected(executable.statements(), line, 0, executable.statements().len() as int) is Some
}

/// The statement on a line that bisection between two indices finds.
pub open spec fn bisected(statements: Seq<Statement>, line: LineNumber, low: int, high: int) -> Option<int>
    decreases high - low,
{
    if low < 0 || high > statements.len() || low >= high {
        None
    } else {
        let target = low + (high - low) / 2;
        if statements[target].line() == line {
            Some(target)
        } else if statements[target].line() > line {
            bisected(statements, line, low, target)
        } else {
            bisected(statements, line, target + 1, high)
        }
    }
}

/// Whether an executable is another with a flag set or cleared: of
/// every statement, where no lines are given, and else of the statement
/// found on each of the lines before the one that is missing. Nothing
/// else is changed.
pub open spec fn marked(
    before: Executable,
    after: Executable,
    lines: Seq<LineNumber>,
    flag: Flag,
    value: bool,
    missing: Option<int>,
) -> bool {
    let done = match missing {
        Some(k) => k,
        None => lines.len() as int,
    };
    &&& after.wf()
    &&& after.nodes() == before.nodes()
    &&& after.owners() == before.owners()
    &&& after.text() == before.text()
    &&& after.return_line() == before.return_line()
    &&& after.statements().len() == before.statements().len()
    &&& forall|i: int|
        0 <= i < before.statements().len() ==> {
            let s = #[trigger] after.statements()[i];
            let o = before.statements()[i];
            &&& s.indices() == o.indices()
            &&& s.line() == o.line()
            &&& s.source() == o.source()
            &&& flag_of(s, other_flag(flag)) == flag_of(o, other_flag(flag))
            &&& flag_of(s, flag) == if lines.len() == 0 || exists|k: int|
                0 <= k < done && bisected(before.statements(), #[trigger] lines[k], 0, before.statements().len() as int)
                    == Some(i) {
                value
            } else {
                flag_of(o, flag)
            }
        }
}

/// The other flag.
pub open spec fn other_flag(flag: Flag) -> Flag {
    match flag {
        Flag::Stop => Flag::Trace,
        Flag::Trace => Flag::Stop,
    }
}

/// Sets or clears a flag of one statement.
fn mark_one(executable: &mut Executable, statement: usize, flag: Flag, value: bool)
    requires
        old(executable).wf(),
        statement < old(executable).statements().len(),
    ensures
        final(executable).wf(),
        final(executable).nodes() == old(executable).nodes(),
        final(executable).owners() == old(executable).owners(),
        final(executable).text() == old(executable).text(),
        final(executable).return_line() == old(executable).return_line(),
        final(executable).statements().len() == old(executable).statements().len(),
        forall|i: int|
            0 <= i < old(executable).statements().len() ==> {
                let s = #[trigger] final(executable).statements()[i];
                let o = old(executable).statements()[i];
                &&& s.indices() == o.indices()
                &&& s.line() == o.line()
                &&& s.source() == o.source()
                &&& flag_of(s, other_flag(flag)) == flag_of(o, other_flag(flag))
                &&& flag_of(s, flag) == if i == statement {
                    value
                } else {
                    flag_of(o, flag)
                }
            },
{
    match flag {
        Flag::Stop => executable.set_stop(statement, value),
        Flag::Trace => executable.set_trace(statement, value),
    }
}

/// The statement on a line, found by bisection.
fn bisect(executable: &Executable, line: LineNumber) -> (r: Option<usize>)
    ensures
        match r {
            Some(i) => i < executable.statements().len() && bisected(
                executable.statements(),
                line,
                0,
                executable.statements().len() as int,
            ) == Some(i as int),
            None => bisected(executable.statements(), line, 0, executable.statements().len() as int) is None,
        },
{
    let mut low: usize = 0;
    let mut high: usize = executable.get_statement_count();
    while low < high
        invariant
            low <= high <= executable.statements().len(),
            bisected(executable.statements(), line, low as int, high as int) == bisected(
                executable.statements(),
                line,
                0,
                executable.statements().len() as int,
            ),
        decreases high - low,
    {
        let target: usize = low + (high - low) / 2;
        let found = executable.get_statement(target + 1).unwrap().as_line_number();
        if found == line {
            return Some(target);
        } else if found > line {
            high = target;
        } else {
            low = target + 1;
        }
    }
    None
}

/// Sets or clears a flag of statements of an executable.
fn mark(executable: &mut Executable, lines: &Vec<LineNumber>, flag: Flag, value: bool) -> (r: Result<(), String>)
    requires
        old(executable).wf(),
    ensures
        marked(*old(executable), *final(executable), lines@, flag, value, first_missing_line(*old(executable), lines@, 0)),
        match first_missing_line(*old(executable), lines@, 0) {
            Some(k) => r matches Err(e) && e@ == invalid_line_message(lines@[k]),
            None => r is Ok,
        },
{
    if lines.len() == 0 {
        let mut i: usize = 0;
        while i < executable.get_statement_count()
            invariant
                i <= executable.statements().len(),
                executable.wf(),
                executable.nodes() == old(executable).nodes(),
                executable.owners() == old(executable).owners(),
                executable.text() == old(executable).text(),
                executable.return_line() == old(executable).return_line(),
                executable.statements().len() == old(executable).statements().len(),
                forall|k: int|
                    0 <= k < old(executable).statements().len() ==> {
                        let s = #[trigger] executable.statements()[k];
                        let o = old(executable).statements()[k];
                        &&& s.indices() == o.indices()
                        &&& s.line() == o.line()
                        &&& s.source() == o.source()
                        &&& flag_of(s, other_flag(flag)) == flag_of(o, other_flag(flag))
                        &&& flag_of(s, flag) == if k < i {
                            value
                        } else {
                            flag_of(o, flag)
                        }
                    },
            decreases executable.statements().len() - i,
        {
            mark_one(executable, i, flag, value);
            i += 1;
        }
        return Ok(());
    }
    let ghost original = *old(executable);
    let mut k: usize = 0;
    while k < lines.len()
        invariant
            k <= lines.len(),
            lines@.len() > 0,
            original == *old(executable),
            first_missing_line(original, lines@, k as int) == first_missing_line(original, lines@, 0),
            marked(original, *executable, lines@, flag, value, Some(k as int)),
        decreases lines.len() - k,
    {
        let ghost before = *executable;
        proof {
            lemma_same_lines(original.statements(), executable.statements(), lines@[k as int], 0, original.statements().len() as int);
        }
        match bisect(executable, lines[k]) {
            Some(i) => {
                mark_one(executable, i, flag, value);
                proof {
                    assert forall|j: int| 0 <= j < original.statements().len() implies {
                        let s = #[trigger] executable.statements()[j];
                        let o = original.statements()[j];
                        &&& s.indices() == o.indices()
                        &&& s.line() == o.line()
                        &&& s.source() == o.source()
                        &&& flag_of(s, other_flag(flag)) == flag_of(o, other_flag(flag))
                        &&& flag_of(s, flag) == if lines@.len() == 0 || exists|x: int|
                            0 <= x < k + 1 && bisected(original.statements(), #[trigger] lines@[x], 0, original.statements().len() as int)
                                == Some(j) {
                            value
                        } else {
                            flag_of(o, flag)
                        }
                    } by {
                        let m = before.statements()[j];
                        if j == i {
                            assert(bisected(original.statements(), lines@[k as int], 0, original.statements().len() as int) == Some(j));
                        } else if exists|x: int|
                            0 <= x < k + 1 && bisected(original.statements(), #[trigger] lines@[x], 0, original.statements().len() as int)
                                == Some(j) {
                            let x = choose|x: int|
                                0 <= x < k + 1 && bisected(original.statements(), #[trigger] lines@[x], 0, original.statements().len() as int)
                                    == Some(j);
                            assert(x != k);
                            assert(0 <= x < k);
                        }
                    }
                }
            },
            None => {
                let mut m = String::from_str("Invalid line number ");
                m.append(crate::execution::value::format::wide_string(lines[k] as i64).as_str());
                return Err(m);
            },
        }
        k += 1;
    }
    Ok(())
}

/// Bisection goes by the lines of the statements alone.
pub proof fn lemma_same_lines(a: Seq<Statement>, b: Seq<Statement>, line: LineNumber, low: int, high: int)
    requires
        a.len() == b.len(),
        forall|i: int| 0 <= i < a.len() ==> (#[trigger] a[i]).line() == b[i].line(),
    ensures
        bisected(a, line, low, high) == bisected(b, line, low, high),
    decreases high - low,
{
    if !(low < 0 || high > a.len() || low >= high) {
        let target = low + (high - low) / 2;
        if a[target].line() != line {
            if a[target].line() > line {
                lemma_same_lines(a, b, line, low, target);
            } else {
                lemma_same_lines(a, b, line, target + 1, high);
            }
        }
    }
}

/// Whether the body of a function, if it is one of the user, is in order.
pub open spec fn function_wf(f: FunctionDescription) -> bool {
    f.implementation_class matches FunctionImplementation::User(body) ==> body.executable.wf()
}

/// Whether the bodies of the functions of a table are in order.
pub open spec fn functions_wf(table: &SymbolTable<FunctionDescription>) -> bool {
    forall|i: int| 0 <= i < table.items().len() ==> function_wf(#[trigger] table.items()[i])
}

/// Whether the local variables of a frame have cells of a store.
pub open spec fn frame_in(frame: &Invocation, store: &Store) -> bool {
    frame.wf() && (frame.block() matches Some(b) ==> variables_in(&b.variable_symbol_table, store))
}

impl WorkSpace {
    /// The datatypes.
    pub closed spec fn datatypes(&self) -> SymbolTable<MetaDataType> {
        self.datatype_symbol_table
    }

    /// The built-in functions: for each name those that go by it.
    pub closed spec fn system_functions(&self) -> SymbolTable<Vec<FunctionDescription>> {
        self.system_function_symbol_table
    }

    /// The functions the user defined.
    pub closed spec fn user_functions(&self) -> SymbolTable<FunctionDescription> {
        self.user_function_symbol_table
    }

    /// The selectors.
    pub closed spec fn selectors(&self) -> SymbolTable<SelectorDescription> {
        self.selector_symbol_table
    }

    /// The global variables.
    pub closed spec fn variables(&self) -> SymbolTable<VariableDescription> {
        self.variable_symbol_table
    }

    /// The debugging aids.
    pub closed spec fn debug_switches(&self) -> Options<DebugOption> {
        self.debug_options
    }

    /// The optional features.
    pub closed spec fn feature_switches(&self) -> Options<Feature> {
        self.features
    }

    /// Whether a feature is switched on.
    pub fn is_feature_set(&self, feature: Feature) -> (r: bool)
        requires
            self.tables_wf(),
        ensures
            r == self.feature_switches().on(feature),
    {
        self.features.is_set(&feature)
    }

    /// Whether a debugging aid is switched on.
    pub fn is_debug_set(&self, option: DebugOption) -> (r: bool)
        requires
            self.tables_wf(),
        ensures
            r == self.debug_switches().on(option),
    {
        self.debug_options.is_set(&option)
    }

    /// The invariant of the symbol tables and switches.
    pub open spec fn tables_wf(&self) -> bool {
        &&& self.datatypes().wf()
        &&& self.system_functions().wf()
        &&& self.user_functions().wf()
        &&& self.selectors().wf()
        &&& self.variables().wf()
        &&& self.debug_switches().wf()
        &&& self.feature_switches().wf()
    }

    /// Whether a function goes by `name`: one the user defined, or a built-in one.
    pub open spec fn knows_function(&self, name: Seq<char>) -> bool {
        self.user_functions().has(name) || (self.system_functions().has(name)
            && self.system_functions().item(name)@.len() > 0)
    }

    /// The function that goes by `name`: the one the user defined, else the
    /// first built-in one.
    pub open spec fn function_named(&self, name: Seq<char>) -> FunctionDescription
        recommends
            self.knows_function(name),
    {
        if self.user_functions().has(name) {
            self.user_functions().item(name)
        } else {
            self.system_functions().item(name)@[0]
        }
    }

    /// Whether a function that goes by `name` takes exactly `n` arguments.
    pub open spec fn has_arity(&self, name: Seq<char>, n: nat) -> bool {
        (self.user_functions().has(name) && self.user_functions().item(name).arguments.arity() == Some(n))
            || (self.system_functions().has(name) && some_takes(self.system_functions().item(name)@, n))
    }

    pub fn try_get_function(&self, name: &str) -> (r: Option<&FunctionDescription>)
        requires
            self.tables_wf(),
        ensures
            match r {
                Some(f) => self.knows_function(name@) && *f == self.function_named(name@),
                None => !self.knows_function(name@),
            },
    {
        match self.user_function_symbol_table.try_get(name) {
            Some(func) => Some(func),
            None => match self.system_function_symbol_table.try_get(name) {
                Some(v) => {
                    if v.len() > 0 {
                        Some(&v[0])
                    } else {
                        None
                    }
                },
                None => None,
            },
        }
    }

    /// Whether a function that goes by `name` takes exactly `n` arguments.
    #[verifier::loop_isolation(false)]
    pub fn is_n_ary(&self, name: &str, n: usize) -> (r: bool)
        requires
            self.tables_wf(),
        ensures
            r == self.has_arity(name@, n as nat),
    {
        match self.user_function_symbol_table.try_get(name) {
            Some(f) => {
                if let FunctionArgumentList::Fixed(args) = &f.arguments {
                    if args.len() == n {
                        return true;
                    }
                }
            },
            None => {},
        }
        match self.system_function_symbol_table.try_get(name) {
            Some(v) => {
                let mut i: usize = 0;
                while i < v.len()
                    invariant
                        i <= v.len(),
                        forall|k: int| 0 <= k < i ==> (#[trigger] v@[k]).arguments.arity() != Some(n as nat),
                    decreases v.len() - i,
                {
                    if let FunctionArgumentList::Fixed(args) = &v[i].arguments {
                        if args.len() == n {
                            assert(v@[i as int].arguments.arity() == Some(n as nat));
                            assert(some_takes(v@, n as nat));
                            return true;
                        }
                    }
                    i += 1;
                }
                false
            },
            None => false,
        }
    }

    /// The frames of execution, the one that is run last.
    pub closed spec fn frames(&self) -> Seq<Invocation> {
        self.invocation_stack@
    }

    /// The value stack, its top last.
    pub closed spec fn values(&self) -> Seq<Value> {
        self.value_stack@
    }

    /// The value of the statement that was run last.
    pub closed spec fn last_value(&self) -> Option<Value> {
        self.last_statement_value
    }

    /// The store.
    pub closed spec fn store(&self) -> Store {
        self.store
    }

    /// The flag by which execution is interrupted.
    pub closed spec fn sentinal(&self) -> ExecutionSentinal {
        self.execution_sentinal
    }

    /// The invariant: the tables and the store are in order, and every
    /// value on the stack, every variable and every frame is at home in
    /// the store.
    pub open spec fn wf(&self) -> bool {
        &&& self.tables_wf()
        &&& functions_wf(&self.user_functions())
        &&& self.store().wf()
        &&& forall|i: int| 0 <= i < self.values().len() ==> self.store().holds(#[trigger] self.values()[i])
        &&& self.last_value() matches Some(v) ==> self.store().holds(v)
        &&& variables_in(&self.variables(), &self.store())
        &&& forall|f: int| 0 <= f < self.frames().len() ==> frame_in(&#[trigger] self.frames()[f], &self.store())
    }

    /// A workspace with nothing in it: no datatype, no function, no
    /// variable, and every switch off.
    pub fn empty() -> (r: WorkSpace)
        ensures
            r.wf(),
            r.values().len() == 0,
            r.frames().len() == 0,
            r.last_value() is None,
            forall|name: Seq<char>| !r.knows_function(name),
            r.datatypes().keys().len() == 0,
            r.system_functions().keys().len() == 0,
            r.user_functions().keys().len() == 0,
            r.selectors().keys().len() == 0,
            r.variables().keys().len() == 0,
            r.store().cells().len() == 0,
    {
        WorkSpace {
            datatype_symbol_table: SymbolTable::new(),
            system_function_symbol_table: SymbolTable::new(),
            user_function_symbol_table: SymbolTable::new(),
            selector_symbol_table: SymbolTable::new(),
            variable_symbol_table: SymbolTable::new(),
            invocation_stack: Vec::new(),
            value_stack: Vec::new(),
            last_statement_value: None,
            store: Store::new(),
            debug_options: DebugOption::new(),
            features: Feature::new(),
            execution_sentinal: ExecutionSentinal::new(),
        }
    }

    /// The store.
    pub fn as_store(&self) -> (r: &Store)
        ensures
            *r == self.store(),
    {
        &self.store
    }

    /// The datatypes.
    pub fn as_datatypes(&self) -> (r: &SymbolTable<MetaDataType>)
        ensures
            *r == self.datatypes(),
    {
        &self.datatype_symbol_table
    }

    pub fn get_value_stack_size(&self) -> (r: usize)
        ensures
            r == self.values().len(),
    {
        self.value_stack.len()
    }

    /// Whether everything but the value stack is as it was.
    pub open spec fn same_but_values(&self, before: &WorkSpace) -> bool {
        &&& self.datatypes() == before.datatypes()
        &&& self.system_functions() == before.system_functions()
        &&& self.user_functions() == before.user_functions()
        &&& self.selectors() == before.selectors()
        &&& self.variables() == before.variables()
        &&& self.frames() == before.frames()
        &&& self.last_value() == before.last_value()
        &&& self.store() == before.store()
        &&& self.debug_switches() == before.debug_switches()
        &&& self.feature_switches() == before.feature_switches()
        &&& self.sentinal() == before.sentinal()
    }

    /// A workspace that differs from one in order at most in values that
    /// are at home in the store is in order.
    pub proof fn lemma_same_rest(&self, before: &WorkSpace)
        requires
            before.wf(),
            self.datatypes() == before.datatypes(),
            self.system_functions() == before.system_functions(),
            self.user_functions() == before.user_functions(),
            self.selectors() == before.selectors(),
            self.variables() == before.variables(),
            self.frames() == before.frames(),
            self.store() == before.store(),
            self.debug_switches() == before.debug_switches(),
            self.feature_switches() == before.feature_switches(),
            forall|i: int| 0 <= i < self.values().len() ==> self.store().holds(#[trigger] self.values()[i]),
            self.last_value() matches Some(v) ==> self.store().holds(v),
        ensures
            self.wf(),
    {
        assert forall|f: int| 0 <= f < self.frames().len() implies frame_in(
            &#[trigger] self.frames()[f],
            &self.store(),
        ) by {
            assert(frame_in(&before.frames()[f], &before.store()));
        }
        assert(variables_in(&self.variables(), &self.store())) by {
            assert(variables_in(&before.variables(), &before.store()));
        }
    }

    /// Pushes a value onto the stack.
    pub fn push_value(&mut self, value: Value)
        requires
            old(self).wf(),
            old(self).store().holds(value),
        ensures
            final(self).wf(),
            final(self).values() == old(self).values().push(value),
            final(self).same_but_values(old(self)),
    {
        self.value_stack.push(value);
        proof {
            assert forall|i: int| 0 <= i < self.values().len() implies self.store().holds(
                #[trigger] self.values()[i],
            ) by {
                if i < old(self).values().len() {
                    assert(self.values()[i] == old(self).values()[i]);
                }
            }
            self.lemma_same_rest(old(self));
        }
    }

    /// Takes the top of the stack, which must not be empty.
    pub fn pop_value(&mut self) -> (r: Value)
        requires
            old(self).wf(),
            old(self).values().len() > 0,
        ensures
            final(self).wf(),
            r == old(self).values().last(),
            final(self).values() == old(self).values().drop_last(),
            final(self).same_but_values(old(self)),
            final(self).store().holds(r),
    {
        let r = self.value_stack.pop().unwrap();
        proof {
            assert(old(self).store().holds(old(self).values()[old(self).values().len() - 1]));
            assert forall|i: int| 0 <= i < self.values().len() implies self.store().holds(
                #[trigger] self.values()[i],
            ) by {
                assert(self.values()[i] == old(self).values()[i]);
            }
            self.lemma_same_rest(old(self));
        }
        r
    }

    /// The top of the stack, if the stack is not empty.
    pub fn try_peek_value(&self) -> (r: Option<&Value>)
        ensures
            match r {
                Some(v) => self.values().len() > 0 && *v == self.values().last(),
                None => self.values().len() == 0,
            },
    {
        if self.value_stack.len() == 0 {
            None
        } else {
            Some(&self.value_stack[self.value_stack.len() - 1])
        }
    }

    /// Takes the top of the stack down to a depth: nothing where the
    /// stack is no deeper; else the top, and what lies between it and
    /// the depth is dropped.
    pub fn try_pop_value(&mut self, min_stack_size: usize) -> (r: Option<Value>)
        requires
            old(self).wf(),
        ensures
            final(self).wf(),
            final(self).same_but_values(old(self)),
            match r {
                Some(v) => old(self).values().len() > min_stack_size && v == old(self).values().last()
                    && final(self).values() == old(self).values().take(min_stack_size as int) && final(self).store().holds(v),
                None => old(self).values().len() <= min_stack_size && final(self).values() == old(self).values(),
            },
    {
        if self.value_stack.len() <= min_stack_size {
            return None;
        }
        let ghost before = self.value_stack@;
        let result = self.value_stack.pop().unwrap();
        self.value_stack.truncate(min_stack_size);
        proof {
            assert(old(self).store().holds(before[before.len() - 1]));
            assert(self.values() =~= before.take(min_stack_size as int));
            assert forall|i: int| 0 <= i < self.values().len() implies self.store().holds(
                #[trigger] self.values()[i],
            ) by {
                assert(self.values()[i] == before[i]);
            }
            self.lemma_same_rest(old(self));
        }
        Some(result)
    }

    pub fn get_last_statement_value(&self) -> (r: Option<Value>)
        ensures
            match r {
                Some(v) => self.last_value() is Some && v.alike(self.last_value()->0),
                None => self.last_value() is None,
            },
    {
        match &self.last_statement_value {
            Some(value) => Some(value.duplicate()),
            None => None,
        }
    }

    pub fn set_last_statement_value(&mut self, value: Value)
        requires
            old(self).wf(),
            old(self).store().holds(value),
        ensures
            final(self).wf(),
            final(self).last_value() == Some(value),
            final(self).values() == old(self).values(),
            final(self).frames() == old(self).frames(),
            final(self).store() == old(self).store(),
            final(self).variables() == old(self).variables(),
            final(self).datatypes() == old(self).datatypes(),
            final(self).user_functions() == old(self).user_functions(),
            final(self).system_functions() == old(self).system_functions(),
            final(self).selectors() == old(self).selectors(),
            final(self).feature_switches() == old(self).feature_switches(),
            final(self).debug_switches() == old(self).debug_switches(),
    {
        self.last_statement_value = Some(value);
        proof {
            assert forall|i: int| 0 <= i < self.values().len() implies self.store().holds(
                #[trigger] self.values()[i],
            ) by {
                assert(old(self).store().holds(old(self).values()[i]));
            }
            self.lemma_same_rest(old(self));
        }
    }

    /// The frame that is run, if there is one.
    pub fn current_invocation(&self) -> (r: Option<&Invocation>)
        ensures
            match r {
                Some(f) => self.frames().len() > 0 && *f == self.frames().last(),
                None => self.frames().len() == 0,
            },
    {
        if self.invocation_stack.len() == 0 {
            None
        } else {
            Some(&self.invocation_stack[self.invocation_stack.len() - 1])
        }
    }

    /// The local variables of the frame that is run, if it is the frame
    /// of a function.
    pub open spec fn locals(&self) -> Option<SymbolTable<VariableDescription>> {
        if self.frames().len() > 0 {
            match self.frames().last().block() {
                Some(b) => Some(b.variable_symbol_table),
                None => None,
            }
        } else {
            None
        }
    }

    /// The variable that goes by a name: the local one of the function
    /// that is run, else the global one.
    pub open spec fn variable_named(&self, name: Seq<char>) -> Option<VariableDescription> {
        if self.locals() is Some && self.locals()->0.has(name) {
            Some(self.locals()->0.item(name))
        } else if self.variables().has(name) {
            Some(self.variables().item(name))
        } else {
            None
        }
    }

    pub fn try_get_variable(&self, name: &str) -> (r: Option<VariableDescription>)
        requires
            self.wf(),
        ensures
            r == self.variable_named(name@),
            r matches Some(v) ==> v.cell < self.store().cells().len(),
    {
        if self.invocation_stack.len() > 0 {
            let frame = &self.invocation_stack[self.invocation_stack.len() - 1];
            assert(frame_in(&self.frames()[self.frames().len() - 1], &self.store()));
            if let Some(b) = frame.get_fib() {
                if let Some(i) = b.variable_symbol_table.index_of(name) {
                    return Some(*b.variable_symbol_table.at(i));
                }
            }
        }
        match self.variable_symbol_table.index_of(name) {
            Some(i) => Some(*self.variable_symbol_table.at(i)),
            None => None,
        }
    }

    pub fn try_get_datatype(&self, name: &str) -> (r: Option<&MetaDataType>)
        requires
            self.tables_wf(),
        ensures
            match r {
                Some(t) => self.datatypes().has(name@) && *t == self.datatypes().item(name@),
                None => !self.datatypes().has(name@),
            },
    {
        self.datatype_symbol_table.try_get(name)
    }

    pub fn try_get_selector(&self, name: &str) -> (r: Option<&SelectorDescription>)
        requires
            self.tables_wf(),
        ensures
            match r {
                Some(t) => self.selectors().has(name@) && *t == self.selectors().item(name@),
                None => !self.selectors().has(name@),
            },
    {
        self.selector_symbol_table.try_get(name)
    }

    pub fn try_get_user_function(&self, name: &str) -> (r: Option<&FunctionDescription>)
        requires
            self.tables_wf(),
        ensures
            match r {
                Some(t) => self.user_functions().has(name@) && *t == self.user_functions().item(name@),
                None => !self.user_functions().has(name@),
            },
    {
        self.user_function_symbol_table.try_get(name)
    }

    /// What the datatype of a name is made of.
    pub fn resolve_datatype(&self, datatype_name: &str) -> (r: Result<&RootDataType, String>)
        requires
            self.tables_wf(),
        ensures
            match r {
                Ok(t) => self.datatypes().has(datatype_name@) && *t == self.datatypes().item(
                    datatype_name@,
                ).root(),
                Err(e) => !self.datatypes().has(datatype_name@) && e@ == datatype_name@ + " not found"@,
            },
    {
        match self.datatype_symbol_table.try_get(datatype_name) {
            Some(t) => Ok(t.root_data_type()),
            None => {
                let mut m = String::from_str(datatype_name);
                m.append(" not found");
                Err(m)
            },
        }
    }

    /// Whether a datatype, a function of the user, a selector or a
    /// global variable goes by a name.
    pub open spec fn defines(&self, name: Seq<char>) -> bool {
        self.datatypes().has(name) || self.user_functions().has(name) || self.selectors().has(name)
            || self.variables().has(name)
    }

    pub fn contains_any(&self, name: &str) -> (r: bool)
        requires
            self.tables_wf(),
        ensures
            r == self.defines(name@),
    {
        self.datatype_symbol_table.contains_any(name) || self.user_function_symbol_table.contains_any(name)
            || self.selector_symbol_table.contains_any(name) || self.variable_symbol_table.contains_any(
            name,
        )
    }

    /// What a name stands for: a variable, local before global; else a
    /// datatype; else a selector; else a function, the user's before a
    /// built-in one; else nothing.
    pub open spec fn resolved(&self, name: Seq<char>) -> Resolution {
        if self.variable_named(name) is Some {
            Resolution::Variable(self.variable_named(name)->0)
        } else if self.datatypes().has(name) {
            Resolution::Datatype
        } else if self.selectors().has(name) {
            Resolution::Selector
        } else if self.knows_function(name) {
            Resolution::Function
        } else {
            Resolution::Unresolved
        }
    }

    pub fn try_get_any(&self, name: &str) -> (r: GeneralSymbol)
        requires
            self.wf(),
        ensures
            resolves_as(r, self.resolved(name@), name@),
            r matches GeneralSymbol::Variable(v) ==> v.cell < self.store().cells().len(),
    {
        if let Some(v) = self.try_get_variable(name) {
            return GeneralSymbol::Variable(v);
        }
        if self.datatype_symbol_table.contains_any(name) {
            return GeneralSymbol::Datatype(Name::from_str(name));
        }
        if self.selector_symbol_table.contains_any(name) {
            return GeneralSymbol::Selector(Name::from_str(name));
        }
        if self.try_get_function(name).is_some() {
            return GeneralSymbol::Function(Name::from_str(name));
        }
        GeneralSymbol::Unresolved(Name::from_str(name))
    }

    /// Makes a global variable with a cell of its own for a value, in
    /// place of the global variable of that name, if there is one.
    pub fn add_variable(&mut self, name: &str, value: Value) -> (cell: usize)
        requires
            old(self).wf(),
            old(self).store().holds(value),
        ensures
            final(self).wf(),
            cell == old(self).store().cells().len(),
            final(self).store().cells().len() == cell + 1,
            final(self).store().extends(&old(self).store()),
            final(self).store().value_at(cell) == value,
            final(self).variables().has(name@),
            final(self).variables().item(name@).cell == cell,
            forall|other: Seq<char>|
                lower(other) != lower(name@) ==> final(self).variables().has(other) == old(self).variables().has(other) && (old(self).variables().has(other) ==> final(self).variables().item(other) == old(self).variables().item(other)),
            final(self).values() == old(self).values(),
            final(self).frames() == old(self).frames(),
            final(self).last_value() == old(self).last_value(),
            final(self).datatypes() == old(self).datatypes(),
            final(self).user_functions() == old(self).user_functions(),
            final(self).system_functions() == old(self).system_functions(),
            final(self).selectors() == old(self).selectors(),
    {
        let cell = self.store.new_cell(value);
        let ghost middle = *self;
        self.variable_symbol_table.add(Name::from_str(name), VariableDescription { cell: cell });
        proof {
            self.lemma_store_grew(old(self));
            assert forall|i: int| 0 <= i < self.variables().items().len() implies (
            #[trigger] self.variables().items()[i]).cell < self.store().cells().len() by {
                self.variables().lemma_item_origin(&old(self).variables(), name@, i);
            }
        }
        cell
    }

    /// Whatever was at home in the store before it grew is at home in it still.
    pub proof fn lemma_store_grew(&self, before: &WorkSpace)
        requires
            before.wf(),
            self.store().wf(),
            self.store().extends(&before.store()),
            self.values() == before.values(),
            self.frames() == before.frames(),
            self.last_value() == before.last_value(),
        ensures
            forall|i: int| 0 <= i < self.values().len() ==> self.store().holds(#[trigger] self.values()[i]),
            self.last_value() matches Some(v) ==> self.store().holds(v),
            forall|f: int| 0 <= f < self.frames().len() ==> frame_in(&#[trigger] self.frames()[f], &self.store()),
            forall|i: int|
                0 <= i < before.variables().items().len() ==> (#[trigger] before.variables().items()[i]).cell
                    < self.store().cells().len(),
    {
        assert forall|i: int| 0 <= i < self.values().len() implies self.store().holds(
            #[trigger] self.values()[i],
        ) by {
            assert(before.store().holds(before.values()[i]));
        }
        assert forall|f: int| 0 <= f < self.frames().len() implies frame_in(
            &#[trigger] self.frames()[f],
            &self.store(),
        ) by {
            assert(frame_in(&before.frames()[f], &before.store()));
        }
    }

    /// Whether everything but the frames is as it was.
    pub open spec fn same_but_frames(&self, before: &WorkSpace) -> bool {
        &&& self.datatypes() == before.datatypes()
        &&& self.system_functions() == before.system_functions()
        &&& self.user_functions() == before.user_functions()
        &&& self.selectors() == before.selectors()
        &&& self.variables() == before.variables()
        &&& self.values() == before.values()
        &&& self.last_value() == before.last_value()
        &&& self.store() == before.store()
        &&& self.debug_switches() == before.debug_switches()
        &&& self.feature_switches() == before.feature_switches()
    }

    proof fn lemma_same_but_frames(&self, before: &WorkSpace)
        requires
            before.wf(),
            self.same_but_frames(before),
            forall|f: int| 0 <= f < self.frames().len() ==> frame_in(&#[trigger] self.frames()[f], &self.store()),
        ensures
            self.wf(),
    {
        assert forall|i: int| 0 <= i < self.values().len() implies self.store().holds(
            #[trigger] self.values()[i],
        ) by {
            assert(before.store().holds(before.values()[i]));
        }
        assert(variables_in(&self.variables(), &self.store())) by {
            assert(variables_in(&before.variables(), &before.store()));
        }
    }

    /// Enters a frame.
    pub fn push_frame(&mut self, frame: Invocation)
        requires
            old(self).wf(),
            frame_in(&frame, &old(self).store()),
        ensures
            final(self).wf(),
            final(self).frames() == old(self).frames().push(frame),
            final(self).same_but_frames(old(self)),
            final(self).sentinal() == old(self).sentinal(),
    {
        self.invocation_stack.push(frame);
        proof {
            assert forall|f: int| 0 <= f < self.frames().len() implies frame_in(
                &#[trigger] self.frames()[f],
                &self.store(),
            ) by {
                if f < old(self).frames().len() {
                    assert(frame_in(&old(self).frames()[f], &old(self).store()));
                }
            }
            self.lemma_same_but_frames(old(self));
        }
    }

    /// Leaves the frame that is run, and hands it back.
    pub fn pop_frame(&mut self) -> (frame: Invocation)
        requires
            old(self).wf(),
            old(self).frames().len() > 0,
        ensures
            final(self).wf(),
            frame == old(self).frames().last(),
            frame_in(&frame, &final(self).store()),
            final(self).frames() == old(self).frames().drop_last(),
            final(self).same_but_frames(old(self)),
            final(self).sentinal() == old(self).sentinal(),
    {
        let frame = self.invocation_stack.pop().unwrap();
        proof {
            assert(frame_in(&old(self).frames()[old(self).frames().len() - 1], &old(self).store()));
            assert forall|f: int| 0 <= f < self.frames().len() implies frame_in(
                &#[trigger] self.frames()[f],
                &self.store(),
            ) by {
                assert(frame_in(&old(self).frames()[f], &old(self).store()));
            }
            self.lemma_same_but_frames(old(self));
        }
        frame
    }

    /// Starts the execution of an executable that is no function body.
    pub fn start_immediate_mode(&mut self, executable: Executable)
        requires
            old(self).wf(),
            executable.wf(),
        ensures
            final(self).wf(),
            final(self).frames().len() == old(self).frames().len() + 1,
            final(self).frames().drop_last() == old(self).frames(),
            final(self).frames().last().executable() == executable,
            final(self).frames().last().block() is None,
            final(self).frames().last().base() == old(self).values().len(),
            final(self).frames().last().state() == ExecutionState::NotExecuting,
            final(self).frames().last().next() == 0,
            final(self).same_but_frames(old(self)),
    {
        let invocation = Invocation::new(executable, self.value_stack.len());
        self.push_frame(invocation);
        assert(self.frames().drop_last() =~= old(self).frames());
    }

    /// Starts the execution of the body of a user function.
    pub fn start_user_function(&mut self, name: Name, executable: Executable)
        requires
            old(self).wf(),
            executable.wf(),
        ensures
            final(self).wf(),
            final(self).frames().len() == old(self).frames().len() + 1,
            final(self).frames().drop_last() == old(self).frames(),
            final(self).frames().last().executable() == executable,
            final(self).frames().last().block() is Some,
            final(self).frames().last().block()->0.function_name@ == name@,
            final(self).frames().last().block()->0.variable_symbol_table.keys().len() == 0,
            final(self).frames().last().base() == old(self).values().len(),
            final(self).frames().last().state() == ExecutionState::NotExecuting,
            final(self).frames().last().next() == 0,
            final(self).same_but_frames(old(self)),
    {
        let invocation = Invocation::new_with_fib(name, executable, self.value_stack.len());
        self.push_frame(invocation);
        assert(self.frames().drop_last() =~= old(self).frames());
    }

    /// Ends the frame that is run, if there is one.
    pub fn end_invocation(&mut self)
        requires
            old(self).wf(),
        ensures
            final(self).wf(),
            final(self).frames() == if old(self).frames().len() > 0 {
                old(self).frames().drop_last()
            } else {
                old(self).frames()
            },
            final(self).same_but_frames(old(self)),
            final(self).sentinal() == old(self).sentinal(),
    {
        if self.invocation_stack.len() > 0 {
            self.pop_frame();
        }
    }

    /// Forgets every frame, every value on the stack, and the value of
    /// the last statement.
    pub fn reset(&mut self)
        requires
            old(self).wf(),
        ensures
            final(self).wf(),
            final(self).frames().len() == 0,
            final(self).values().len() == 0,
            final(self).last_value() is None,
            final(self).store() == old(self).store(),
            final(self).variables() == old(self).variables(),
            final(self).datatypes() == old(self).datatypes(),
            final(self).user_functions() == old(self).user_functions(),
            final(self).system_functions() == old(self).system_functions(),
            final(self).selectors() == old(self).selectors(),
    {
        self.invocation_stack.clear();
        self.value_stack.clear();
        self.last_statement_value = None;
        proof {
            assert(variables_in(&self.variables(), &self.store())) by {
                assert(variables_in(&old(self).variables(), &old(self).store()));
            }
        }
    }

    /// Forgets every frame.
    pub fn reset_function_state(&mut self)
        requires
            old(self).wf(),
        ensures
            final(self).wf(),
            final(self).frames().len() == 0,
            final(self).same_but_frames(old(self)),
            final(self).sentinal() == old(self).sentinal(),
    {
        self.invocation_stack.clear();
        proof {
            self.lemma_same_but_frames(old(self));
        }
    }

    /// Makes a cell for a value.
    pub fn new_cell(&mut self, value: Value) -> (cell: usize)
        requires
            old(self).wf(),
            old(self).store().holds(value),
        ensures
            final(self).wf(),
            cell == old(self).store().cells().len(),
            final(self).store().extends(&old(self).store()),
            final(self).store().cells().len() == cell + 1,
            final(self).store().value_at(cell) == value,
            final(self).same_but_store(old(self)),
    {
        let cell = self.store.new_cell(value);
        proof {
            self.lemma_store_grew(old(self));
            assert(variables_in(&self.variables(), &self.store()));
        }
        cell
    }

    /// Makes a copy of a value, of cells of its own.
    pub fn copy_value(&mut self, value: &Value) -> (r: Value)
        requires
            old(self).wf(),
            old(self).store().holds(*value),
        ensures
            final(self).wf(),
            final(self).store().extends(&old(self).store()),
            final(self).store().holds(r),
            Store::referent(r) == Store::referent(*value),
            copies(&old(self).store(), &final(self).store(), old(self).store().cells().len() as nat, *value, r, DEPTH as nat),
            final(self).same_but_store(old(self)),
    {
        let r = copy(&mut self.store, value);
        proof {
            self.lemma_store_grew(old(self));
            assert(variables_in(&self.variables(), &self.store()));
        }
        r
    }

    /// Makes a value fit the datatype of a name. Where there is no such
    /// datatype, or the value does not fit, the workspace is left as it was.
    pub fn coerce_value(&mut self, datatype_name: &str, value: &Value) -> (r: Result<Value, Vec<Piece>>)
        requires
            old(self).wf(),
            old(self).store().holds(*value),
        ensures
            final(self).wf(),
            final(self).store().extends(&old(self).store()),
            final(self).same_but_store(old(self)),
            match r {
                Ok(w) => {
                    &&& old(self).datatypes().has(datatype_name@)
                    &&& coerced(
                        &old(self).store(),
                        &old(self).datatypes(),
                        old(self).datatypes().item(datatype_name@).root(),
                        *value,
                    ) matches Ok(want)
                    &&& final(self).store().holds(w)
                    &&& Store::referent(w) is None
                    &&& copies(
                        &old(self).store(),
                        &final(self).store(),
                        old(self).store().cells().len() as nat,
                        want,
                        w,
                        DEPTH as nat,
                    )
                },
                Err(e) => {
                    &&& final(self).store() == old(self).store()
                    &&& if old(self).datatypes().has(datatype_name@) {
                        coerced(
                            &old(self).store(),
                            &old(self).datatypes(),
                            old(self).datatypes().item(datatype_name@).root(),
                            *value,
                        ) == Err::<Value, Seq<PieceModel>>(piece_models(e@))
                    } else {
                        piece_models(e@) == text(datatype_name@ + " not found"@)
                    }
                },
            },
    {
        match self.datatype_symbol_table.try_get(datatype_name) {
            Some(t) => {
                let r = coerce(t.root_data_type(), value, &mut self.store, &self.datatype_symbol_table);
                proof {
                    self.lemma_store_grew(old(self));
                    assert(variables_in(&self.variables(), &self.store()));
                }
                r
            },
            None => {
                let mut m = String::from_str(datatype_name);
                m.append(" not found");
                Err(say(m))
            },
        }
    }

    /// Makes the character string of a text, of cells of its own.
    pub fn make_string(&mut self, text: &str) -> (r: Value)
        requires
            old(self).wf(),
        ensures
            final(self).wf(),
            final(self).store().extends(&old(self).store()),
            final(self).store().holds(r),
            spells(&final(self).store(), r, text@),
            final(self).same_but_store(old(self)),
    {
        let r = SequenceInstance::construct_string_sequence(text, &mut self.store);
        proof {
            self.lemma_store_grew(old(self));
            assert(variables_in(&self.variables(), &self.store()));
        }
        r
    }

    /// Whether everything but the store is as it was.
    pub open spec fn same_but_store(&self, before: &WorkSpace) -> bool {
        &&& self.datatypes() == before.datatypes()
        &&& self.system_functions() == before.system_functions()
        &&& self.user_functions() == before.user_functions()
        &&& self.selectors() == before.selectors()
        &&& self.variables() == before.variables()
        &&& self.values() == before.values()
        &&& self.frames() == before.frames()
        &&& self.last_value() == before.last_value()
        &&& self.debug_switches() == before.debug_switches()
        &&& self.feature_switches() == before.feature_switches()
        &&& self.sentinal() == before.sentinal()
    }

    /// Puts a value into the envelope of a cell. The value must stand
    /// for itself: it is no reference to a cell and no name of a variable.
    pub fn set_cell(&mut self, cell: usize, value: Value)
        requires
            old(self).wf(),
            cell < old(self).store().cells().len(),
            old(self).store().holds(value),
            Store::referent(value) is None,
        ensures
            final(self).wf(),
            final(self).store().cells() == old(self).store().cells(),
            final(self).store().envelopes().len() == old(self).store().envelopes().len(),
            final(self).store().value_at(cell) == value,
            forall|other: usize|
                other < old(self).store().cells().len() ==> #[trigger] final(self).store().value_at(other)
                    == if old(self).store().cells()[other as int].contents == old(self).store().cells()[cell as int].contents {
                    value
                } else {
                    old(self).store().value_at(other)
                },
            forall|e: int|
                0 <= e < old(self).store().envelopes().len() && e != old(self).store().cells()[cell as int].contents ==> (
                #[trigger] final(self).store().envelopes()[e]).value == old(self).store().envelopes()[e].value,
            final(self).same_but_store(old(self)),
    {
        self.store.set(cell, value);
        proof {
            assert forall|i: int| 0 <= i < self.values().len() implies self.store().holds(
                #[trigger] self.values()[i],
            ) by {
                assert(old(self).store().holds(old(self).values()[i]));
            }
            assert forall|f: int| 0 <= f < self.frames().len() implies frame_in(
                &#[trigger] self.frames()[f],
                &self.store(),
            ) by {
                assert(frame_in(&old(self).frames()[f], &old(self).store()));
            }
            assert(variables_in(&self.variables(), &self.store())) by {
                assert(variables_in(&old(self).variables(), &old(self).store()));
            }
        }
    }

    /// Makes a local variable of the function that is run, for a cell
    /// there is; in place of the local variable of that name, if there
    /// is one. Nothing is done where no function is run.
    pub fn add_local(&mut self, name: Name, cell: usize)
        requires
            old(self).wf(),
            cell < old(self).store().cells().len(),
        ensures
            final(self).wf(),
            final(self).same_but_frames(old(self)),
            final(self).frames().len() == old(self).frames().len(),
            old(self).locals() is Some ==> final(self).locals() is Some && final(self).locals()->0.has(name@)
                && final(self).locals()->0.item(name@).cell == cell && forall|other: Seq<char>|
                lower(other) != lower(name@) ==> final(self).locals()->0.has(other) == old(self).locals()->0.has(other) && (old(self).locals()->0.has(other) ==> final(self).locals()->0.item(other) == old(self).locals()->0.item(other)),
            old(self).locals() is None ==> final(self).frames() == old(self).frames(),
            old(self).locals() is Some ==> final(self).frames().last().block()->0.function_name == old(self).frames().last().block()->0.function_name,
            final(self).sentinal() == old(self).sentinal(),
            final(self).frames().len() > 0 ==> final(self).frames().last().executable() == old(self).frames().last().executable() && final(self).frames().last().base() == old(self).frames().last().base() && final(self).frames().last().state() == old(self).frames().last().state() && final(self).frames().last().next() == old(self).frames().last().next() && final(self).frames().drop_last() == old(self).frames().drop_last(),
    {
        if self.invocation_stack.len() == 0 {
            return ;
        }
        let mut frame = self.pop_frame();
        let ghost middle = *self;
        let ghost original = frame;
        frame.add_local(name, cell);
        proof {
            if original.block() is Some {
                let table = frame.block()->0.variable_symbol_table;
                let before = original.block()->0.variable_symbol_table;
                assert forall|i: int| 0 <= i < table.items().len() implies (#[trigger] table.items()[i]).cell
                    < self.store().cells().len() by {
                    table.lemma_item_origin(&before, name@, i);
                }
            }
        }
        self.push_frame(frame);
        proof {
            assert(self.frames().drop_last() =~= old(self).frames().drop_last());
            if old(self).locals() is None {
                assert(self.frames() =~= old(self).frames());
            }
        }
    }

    /// Whether the frame that is run is as it was but for the node that
    /// comes next and the node that a jump is to be made to.
    pub open spec fn same_but_course(&self, before: &WorkSpace) -> bool {
        &&& self.same_but_frames(before)
        &&& self.sentinal() == before.sentinal()
        &&& self.frames().len() == before.frames().len()
        &&& self.frames().len() > 0
        &&& self.frames().drop_last() == before.frames().drop_last()
        &&& self.frames().last().executable() == before.frames().last().executable()
        &&& self.frames().last().base() == before.frames().last().base()
        &&& self.frames().last().state() == before.frames().last().state()
        &&& self.frames().last().block() == before.frames().last().block()
        &&& self.frames().last().current() == before.frames().last().current()
    }

    /// Sets, in the frame that is run, the node that comes next and the
    /// node that a jump is to be made to at the end of the statement.
    pub fn redirect(&mut self, next_node_index: usize, pending: Option<usize>)
        requires
            old(self).wf(),
            old(self).frames().len() > 0,
        ensures
            final(self).wf(),
            final(self).same_but_course(old(self)),
            final(self).frames().last().next() == next_node_index,
            final(self).frames().last().pending() == pending,
    {
        let mut frame = self.pop_frame();
        frame.set_next_node(next_node_index);
        frame.set_pending_goto_index(pending);
        self.push_frame(frame);
        assert(self.frames().drop_last() =~= old(self).frames().drop_last());
    }

    /// Resumes the frame that is run at a node: the node comes next,
    /// and no jump is asked for any more.
    pub fn resume(&mut self, node: usize)
        requires
            old(self).wf(),
            old(self).frames().len() > 0,
        ensures
            final(self).wf(),
            final(self).same_but_frames(old(self)),
            final(self).sentinal() == old(self).sentinal(),
            final(self).frames().len() == old(self).frames().len(),
            final(self).frames().drop_last() == old(self).frames().drop_last(),
            final(self).frames().last().executable() == old(self).frames().last().executable(),
            final(self).frames().last().base() == old(self).frames().last().base(),
            final(self).frames().last().block() == old(self).frames().last().block(),
            final(self).frames().last().current() == old(self).frames().last().current(),
            final(self).frames().last().state() == ExecutionState::Resumed,
            final(self).frames().last().next() == node,
            final(self).frames().last().pending() is None,
    {
        let mut frame = self.pop_frame();
        frame.set_execution_state(ExecutionState::Resumed);
        frame.set_next_node(node);
        frame.set_pending_goto_index(None);
        self.push_frame(frame);
        assert(self.frames().drop_last() =~= old(self).frames().drop_last());
    }

    /// Whether everything but the tables of names is as it was.
    pub open spec fn same_but_tables(&self, before: &WorkSpace) -> bool {
        &&& self.variables() == before.variables()
        &&& self.values() == before.values()
        &&& self.frames() == before.frames()
        &&& self.last_value() == before.last_value()
        &&& self.store() == before.store()
        &&& self.debug_switches() == before.debug_switches()
        &&& self.feature_switches() == before.feature_switches()
        &&& self.sentinal() == before.sentinal()
    }

    proof fn lemma_same_but_tables(&self, before: &WorkSpace)
        requires
            before.wf(),
            self.same_but_tables(before),
            self.datatypes().wf(),
            self.system_functions().wf(),
            self.user_functions().wf(),
            functions_wf(&self.user_functions()),
            self.selectors().wf(),
        ensures
            self.wf(),
    {
        assert forall|i: int| 0 <= i < self.values().len() implies self.store().holds(
            #[trigger] self.values()[i],
        ) by {
            assert(before.store().holds(before.values()[i]));
        }
        assert(variables_in(&self.variables(), &self.store())) by {
            assert(variables_in(&before.variables(), &before.store()));
        }
        assert forall|f: int| 0 <= f < self.frames().len() implies frame_in(
            &#[trigger] self.frames()[f],
            &self.store(),
        ) by {
            assert(frame_in(&before.frames()[f], &before.store()));
        }
    }

    /// Puts a datatype under a name, in place of the datatype of that
    /// name, if there is one.
    pub fn add_datatype(&mut self, name: &str, datatype: MetaDataType)
        requires
            old(self).wf(),
        ensures
            final(self).wf(),
            final(self).same_but_tables(old(self)),
            final(self).datatypes().has(name@),
            final(self).datatypes().item(name@) == datatype,
            forall|other: Seq<char>|
                lower(other) != lower(name@) ==> final(self).datatypes().has(other) == old(self).datatypes().has(
                    other,
                ) && (old(self).datatypes().has(other) ==> final(self).datatypes().item(other) == old(self).datatypes().item(other)),
            final(self).system_functions() == old(self).system_functions(),
            final(self).user_functions() == old(self).user_functions(),
            final(self).selectors() == old(self).selectors(),
    {
        self.datatype_symbol_table.add(Name::from_str(name), datatype);
        proof {
            self.lemma_same_but_tables(old(self));
        }
    }

    /// Puts a selector under a name, in place of the selector of that
    /// name, if there is one.
    pub fn add_selector(&mut self, name: &str, selector: SelectorDescription)
        requires
            old(self).wf(),
        ensures
            final(self).wf(),
            final(self).same_but_tables(old(self)),
            final(self).selectors().has(name@),
            final(self).selectors().item(name@) == selector,
            forall|other: Seq<char>|
                lower(other) != lower(name@) ==> final(self).selectors().has(other) == old(self).selectors().has(
                    other,
                ) && (old(self).selectors().has(other) ==> final(self).selectors().item(other) == old(self).selectors().item(other)),
            final(self).system_functions() == old(self).system_functions(),
            final(self).user_functions() == old(self).user_functions(),
            final(self).datatypes() == old(self).datatypes(),
    {
        self.selector_symbol_table.add(Name::from_str(name), selector);
        proof {
            self.lemma_same_but_tables(old(self));
        }
    }

    /// Puts a function of the user under a name, in place of the
    /// function of that name, if there is one.
    pub fn add_user_function(&mut self, name: &str, f: FunctionDescription)
        requires
            old(self).wf(),
            function_wf(f),
        ensures
            final(self).wf(),
            final(self).same_but_tables(old(self)),
            final(self).user_functions().has(name@),
            final(self).user_functions().item(name@) == f,
            forall|other: Seq<char>|
                lower(other) != lower(name@) ==> final(self).user_functions().has(other) == old(self).user_functions().has(other) && (old(self).user_functions().has(other) ==> final(self).user_functions().item(other) == old(self).user_functions().item(other)),
            final(self).system_functions() == old(self).system_functions(),
            final(self).selectors() == old(self).selectors(),
            final(self).datatypes() == old(self).datatypes(),
    {
        self.user_function_symbol_table.add(Name::from_str(name), f);
        proof {
            assert forall|i: int| 0 <= i < self.user_functions().items().len() implies function_wf(
                #[trigger] self.user_functions().items()[i],
            ) by {
                self.user_functions().lemma_item_origin(&old(self).user_functions(), name@, i);
            }
            self.lemma_same_but_tables(old(self));
        }
    }

    /// The built-in functions of a name, in the order in which they were added.
    pub open spec fn homonyms(&self, name: Seq<char>) -> Seq<FunctionDescription> {
        if self.system_functions().has(name) {
            self.system_functions().item(name)@
        } else {
            Seq::empty()
        }
    }

    /// Adds a built-in function under a name, behind the built-in
    /// functions that go by that name already.
    pub fn add_system_function(&mut self, name: &str, f: FunctionDescription)
        requires
            old(self).wf(),
        ensures
            final(self).wf(),
            final(self).same_but_tables(old(self)),
            final(self).homonyms(name@) == old(self).homonyms(name@).push(f),
            forall|other: Seq<char>|
                lower(other) != lower(name@) ==> #[trigger] final(self).homonyms(other) == old(self).homonyms(other),
            final(self).user_functions() == old(self).user_functions(),
            final(self).selectors() == old(self).selectors(),
            final(self).datatypes() == old(self).datatypes(),
    {
        match self.system_function_symbol_table.index_of(name) {
            Some(i) => {
                let mut list = self.system_function_symbol_table.exchange_at(i, Vec::new());
                list.push(f);
                self.system_function_symbol_table.set_at(i, list);
                proof {
                    let before = old(self).system_functions();
                    let after = self.system_functions();
                    assert(after.keys() == before.keys());
                    assert(after.items() =~= before.items().update(i as int, after.items()[i as int]));
                    assert forall|other: Seq<char>| lower(other) != lower(name@) implies #[trigger] self.homonyms(
                        other,
                    ) == old(self).homonyms(other) by {
                        crate::symbols::lemma_key_index(before.keys(), lower(other));
                        crate::symbols::lemma_key_index(before.keys(), lower(name@));
                    }
                }
            },
            None => {
                let mut list: Vec<FunctionDescription> = Vec::new();
                list.push(f);
                self.system_function_symbol_table.add(Name::from_str(name), list);
                proof {
                    assert(self.homonyms(name@) =~= old(self).homonyms(name@).push(f));
                }
            },
        }
        proof {
            self.lemma_same_but_tables(old(self));
        }
    }

    /// Forgets every frame, and what goes by a name: the variable, local
    /// before global, else the datatype, else the selector, else the
    /// function of the user. A built-in function stays.
    pub fn remove(&mut self, name: &str)
        requires
            old(self).wf(),
        ensures
            final(self).wf(),
            final(self).frames().len() == 0,
            final(self).values() == old(self).values(),
            final(self).store() == old(self).store(),
            final(self).system_functions() == old(self).system_functions(),
            match old(self).resolved(name@) {
                Resolution::Variable(_) => !final(self).variables().has(name@) && final(self).datatypes() == old(self).datatypes() && final(self).selectors() == old(self).selectors() && final(self).user_functions()
                    == old(self).user_functions(),
                Resolution::Datatype => !final(self).datatypes().has(name@) && final(self).variables() == old(self).variables() && final(self).selectors() == old(self).selectors() && final(self).user_functions()
                    == old(self).user_functions(),
                Resolution::Selector => !final(self).selectors().has(name@) && final(self).variables() == old(self).variables() && final(self).datatypes() == old(self).datatypes() && final(self).user_functions()
                    == old(self).user_functions(),
                Resolution::Function => !final(self).user_functions().has(name@) && final(self).variables() == old(self).variables() && final(self).datatypes() == old(self).datatypes() && final(self).selectors()
                    == old(self).selectors(),
                Resolution::Unresolved => final(self).variables() == old(self).variables() && final(self).datatypes()
                    == old(self).datatypes() && final(self).selectors() == old(self).selectors() && final(self).user_functions() == old(self).user_functions(),
            },
    {
        let found = self.try_get_any(name);
        self.reset_function_state();
        let ghost middle = *self;
        match found {
            GeneralSymbol::Datatype(_) => {
                self.datatype_symbol_table.remove(name);
            },
            GeneralSymbol::Function(_) => {
                self.user_function_symbol_table.remove(name);
            },
            GeneralSymbol::Selector(_) => {
                self.selector_symbol_table.remove(name);
            },
            GeneralSymbol::Variable(_) => {
                self.variable_symbol_table.remove(name);
                proof {
                    assert forall|i: int| 0 <= i < self.variables().items().len() implies (
                    #[trigger] self.variables().items()[i]).cell < self.store().cells().len() by {
                        let item = self.variables().items()[i];
                        assert(middle.variables().items().contains(item));
                        let j = choose|j: int| 0 <= j < middle.variables().items().len() && middle.variables().items()[j] == item;
                        assert(middle.variables().items()[j].cell < middle.store().cells().len());
                    }
                }
            },
            GeneralSymbol::Unresolved(_) => {},
        }
        proof {
            assert forall|i: int| 0 <= i < self.values().len() implies self.store().holds(
                #[trigger] self.values()[i],
            ) by {
                assert(old(self).store().holds(old(self).values()[i]));
            }
        }
    }

    /// Switches the features on that a workspace starts with, and adds
    /// the built-in functions and the datatypes that it starts with.
    fn init(&mut self)
        requires
            old(self).wf(),
        ensures
            final(self).wf(),
            final(self).variables() == old(self).variables(),
            final(self).values() == old(self).values(),
            final(self).frames() == old(self).frames(),
            final(self).last_value() == old(self).last_value(),
            final(self).store() == old(self).store(),
            final(self).user_functions() == old(self).user_functions(),
            final(self).selectors() == old(self).selectors(),
            final(self).feature_switches().on(Feature::LineNames),
            final(self).feature_switches().on(Feature::StringEscapes),
            forall|k: int| 0 <= k < BUILTINS ==> registered(final(self), #[trigger] builtin(k)->0),
            forall|name: Seq<char>| #[trigger]
                final(self).homonyms(name).len() == old(self).homonyms(name).len() + occurrences(
                    name,
                    BUILTINS as int,
                ),
            has_system_datatypes(final(self).datatypes()),
    {
        self.features.set(Feature::LineNames);
        self.features.set(Feature::StringEscapes);
        proof {
            assert forall|i: int| 0 <= i < self.values().len() implies self.store().holds(
                #[trigger] self.values()[i],
            ) by {
                assert(old(self).store().holds(old(self).values()[i]));
            }
            assert(variables_in(&self.variables(), &self.store())) by {
                assert(variables_in(&old(self).variables(), &old(self).store()));
            }
            assert forall|f: int| 0 <= f < self.frames().len() implies frame_in(
                &#[trigger] self.frames()[f],
                &self.store(),
            ) by {
                assert(frame_in(&old(self).frames()[f], &old(self).store()));
            }
        }
        let ghost switched = *self;
        crate::execution::system_functions::table::init(self);
        let ghost filled = *self;
        crate::symbols::metadata::init(self);
        proof {
            assert forall|name: Seq<char>| #[trigger]
                self.homonyms(name).len() == old(self).homonyms(name).len() + occurrences(
                    name,
                    BUILTINS as int,
                ) by {
                assert(self.homonyms(name) == filled.homonyms(name));
                assert(switched.homonyms(name) == old(self).homonyms(name));
            }
            assert forall|k: int| 0 <= k < BUILTINS implies registered(self, #[trigger] builtin(k)->0) by {
                assert(registered(&filled, builtin(k)->0));
                let m = builtin(k)->0;
                let j = choose|j: int|
                    0 <= j < filled.homonyms(m.operator).len() && describes(
                        #[trigger] filled.homonyms(m.operator)[j],
                        m.operator,
                        m,
                    );
                assert(self.homonyms(m.operator)[j] == filled.homonyms(m.operator)[j]);
            }
        }
    }

    /// A workspace as it is at the start: with the built-in functions
    /// and datatypes, the features switched on, and nothing else.
    pub fn new() -> (r: WorkSpace)
        ensures
            r.wf(),
            r.values().len() == 0,
            r.frames().len() == 0,
            r.last_value() is None,
            r.variables().keys().len() == 0,
            r.user_functions().keys().len() == 0,
            r.selectors().keys().len() == 0,
            r.feature_switches().on(Feature::LineNames),
            r.feature_switches().on(Feature::StringEscapes),
            forall|k: int| 0 <= k < BUILTINS ==> registered(&r, #[trigger] builtin(k)->0),
            forall|name: Seq<char>| #[trigger] r.homonyms(name).len() == occurrences(name, BUILTINS as int),
            has_system_datatypes(r.datatypes()),
    {
        let mut workspace = WorkSpace::empty();
        let ghost blank = workspace;
        proof {
            assert forall|name: Seq<char>| #[trigger] blank.homonyms(name).len() == 0 by {
                crate::symbols::lemma_key_index(blank.system_functions().keys(), lower(name));
            }
        }
        workspace.init();
        workspace
    }

    /// Forgets every frame and everything that goes by a name, and
    /// starts over with what a workspace starts with.
    pub fn remove_all(&mut self)
        requires
            old(self).wf(),
        ensures
            final(self).wf(),
            final(self).frames().len() == 0,
            final(self).values() == old(self).values(),
            final(self).store() == old(self).store(),
            final(self).variables().keys().len() == 0,
            final(self).user_functions().keys().len() == 0,
            final(self).selectors().keys().len() == 0,
            final(self).feature_switches().on(Feature::LineNames),
            final(self).feature_switches().on(Feature::StringEscapes),
            forall|k: int| 0 <= k < BUILTINS ==> registered(final(self), #[trigger] builtin(k)->0),
            forall|name: Seq<char>| #[trigger] final(self).homonyms(name).len() == occurrences(name, BUILTINS as int),
            has_system_datatypes(final(self).datatypes()),
    {
        self.reset_function_state();
        self.datatype_symbol_table.clear();
        self.system_function_symbol_table.clear();
        self.user_function_symbol_table.clear();
        self.selector_symbol_table.clear();
        self.variable_symbol_table.clear();
        let ghost blank = *self;
        proof {
            assert forall|i: int| 0 <= i < self.values().len() implies self.store().holds(
                #[trigger] self.values()[i],
            ) by {
                assert(old(self).store().holds(old(self).values()[i]));
            }
            assert forall|name: Seq<char>| #[trigger] blank.homonyms(name).len() == 0 by {
                crate::symbols::lemma_key_index(blank.system_functions().keys(), lower(name));
            }
        }
        self.init();
    }

    /// Makes a sequence of a datatype of the workspace of a number of
    /// cells, each with a copy of one value.
    pub fn make_value(&mut self, datatype_name: &str, count: i32, value: &Value) -> (r: Result<Value, Vec<Piece>>)
        requires
            old(self).wf(),
            old(self).datatypes().has(datatype_name@),
            old(self).store().holds(*value),
        ensures
            final(self).wf(),
            final(self).store().extends(&old(self).store()),
            final(self).same_but_store(old(self)),
            ({
                let t = old(self).datatypes().item(datatype_name@);
                match (r, filling(&old(self).store(), &old(self).datatypes(), t, count, *value)) {
                    (Ok(v), Ok(w)) => {
                        &&& final(self).store().holds(v)
                        &&& t.root() matches RootDataType::Sequence(d)
                        &&& v matches Value::Sequence(s)
                        &&& s.wf()
                        &&& s.datatype() == d.name@
                        &&& s.lower() == d.lower_index_bound
                        &&& s.upper() == d.upper_index_bound
                        &&& s.cells().len() == many(count)
                        &&& forall|i: int|
                            0 <= i < s.cells().len() ==> old(self).store().cells().len() <= (#[trigger] s.cells()[i])
                                < final(self).store().cells().len() && copies(
                                &old(self).store(),
                                &final(self).store(),
                                old(self).store().cells().len() as nat,
                                w,
                                final(self).store().value_at(s.cells()[i]),
                                DEPTH as nat,
                            )
                    },
                    (Err(e), Err(m)) => piece_models(e@) == m && final(self).store() == old(self).store(),
                    _ => false,
                }
            }),
    {
        let t = self.datatype_symbol_table.try_get(datatype_name).unwrap();
        let r = crate::execution::construction::make(t, count, value, &mut self.store, &self.datatype_symbol_table);
        proof {
            self.lemma_store_grew(old(self));
            assert(variables_in(&self.variables(), &self.store()));
        }
        r
    }

    /// Joins two sequences of the same datatype.
    pub fn concat_values(&mut self, left: &Value, right: &Value) -> (r: Result<Value, Vec<Piece>>)
        requires
            old(self).wf(),
            old(self).store().holds(*left),
            old(self).store().holds(*right),
        ensures
            final(self).wf(),
            final(self).store().extends(&old(self).store()),
            final(self).same_but_store(old(self)),
            crate::execution::system_functions::metadata::joined(
                &old(self).store(),
                &final(self).store(),
                *left,
                *right,
                r,
            ),
    {
        let r = crate::execution::system_functions::metadata::concat(left, right, &mut self.store);
        proof {
            self.lemma_store_grew(old(self));
            assert(variables_in(&self.variables(), &self.store()));
        }
        r
    }

    /// Starts a pass over the values of the store: what was marked as
    /// seen in an earlier pass counts as not seen.
    pub fn start_pass(&mut self)
        requires
            old(self).wf(),
        ensures
            final(self).wf(),
            final(self).same_but_store(old(self)),
            final(self).store().cells() == old(self).store().cells(),
            final(self).store().envelopes() == old(self).store().envelopes(),
            final(self).store().pass() == old(self).store().pass().wrapping_add(1),
    {
        self.store.start_pass();
        proof {
            assert forall|i: int| 0 <= i < self.values().len() implies self.store().holds(
                #[trigger] self.values()[i],
            ) by {
                assert(old(self).store().holds(old(self).values()[i]));
            }
            assert forall|f: int| 0 <= f < self.frames().len() implies frame_in(
                &#[trigger] self.frames()[f],
                &self.store(),
            ) by {
                assert(frame_in(&old(self).frames()[f], &old(self).store()));
            }
            assert(variables_in(&self.variables(), &self.store())) by {
                assert(variables_in(&old(self).variables(), &old(self).store()));
            }
        }
    }

    /// Shows a value in the pass that is under way: a sequence or a
    /// structure that the pass has shown already is shown as three
    /// dots, and what is shown is marked.
    pub fn display_value(&mut self, v: &Value) -> (out: Vec<Piece>)
        requires
            old(self).wf(),
            old(self).store().holds(*v),
        ensures
            final(self).wf(),
            final(self).same_but_store(old(self)),
            piece_models(out@) == walked(
                &old(self).store(),
                *v,
                marks_of(&old(self).store()),
                whole(&old(self).store()),
            ).pieces,
            passed(
                &old(self).store(),
                &final(self).store(),
                walked(&old(self).store(), *v, marks_of(&old(self).store()), whole(&old(self).store())).seen,
            ),
    {
        let out = crate::execution::value::display::display_in_pass(&mut self.store, v);
        proof {
            self.lemma_passed(old(self));
        }
        out
    }

    /// Shows values one after the other in the pass that is under way,
    /// as they are printed.
    pub fn display_values(&mut self, args: &Vec<Value>) -> (out: Vec<Piece>)
        requires
            old(self).wf(),
            forall|i: int| 0 <= i < args@.len() ==> old(self).store().holds(#[trigger] args@[i]),
        ensures
            final(self).wf(),
            final(self).same_but_store(old(self)),
            piece_models(out@) == walked_all(&old(self).store(), args@, 0, marks_of(&old(self).store())).pieces,
            passed(
                &old(self).store(),
                &final(self).store(),
                walked_all(&old(self).store(), args@, 0, marks_of(&old(self).store())).seen,
            ),
    {
        let out = crate::execution::value::display::display_all_in_pass(&mut self.store, args);
        proof {
            self.lemma_passed(old(self));
        }
        out
    }

    /// A workspace whose store differs from that of a workspace in
    /// order in the marks of a pass only is in order.
    proof fn lemma_passed(&self, before: &WorkSpace)
        requires
            before.wf(),
            self.same_but_store(before),
            self.store().wf(),
            self.store().cells() == before.store().cells(),
            self.store().envelopes().len() == before.store().envelopes().len(),
        ensures
            self.wf(),
    {
        assert forall|i: int| 0 <= i < self.values().len() implies self.store().holds(
            #[trigger] self.values()[i],
        ) by {
            assert(before.store().holds(before.values()[i]));
        }
        assert forall|f: int| 0 <= f < self.frames().len() implies frame_in(
            &#[trigger] self.frames()[f],
            &self.store(),
        ) by {
            assert(frame_in(&before.frames()[f], &before.store()));
        }
        assert(variables_in(&self.variables(), &self.store())) by {
            assert(variables_in(&before.variables(), &before.store()));
        }
    }

    /// The global variables.
    pub fn as_variables(&self) -> (r: &SymbolTable<VariableDescription>)
        ensures
            *r == self.variables(),
    {
        &self.variable_symbol_table
    }

    /// The functions of the user.
    pub fn as_user_functions(&self) -> (r: &SymbolTable<FunctionDescription>)
        ensures
            *r == self.user_functions(),
    {
        &self.user_function_symbol_table
    }

    /// The built-in functions, under each name the functions that go by it.
    pub fn as_system_functions(&self) -> (r: &SymbolTable<Vec<FunctionDescription>>)
        ensures
            *r == self.system_functions(),
    {
        &self.system_function_symbol_table
    }

    /// The selectors.
    pub fn as_selectors(&self) -> (r: &SymbolTable<SelectorDescription>)
        ensures
            *r == self.selectors(),
    {
        &self.selector_symbol_table
    }

    /// The built-in functions that go by a name.
    pub fn try_get_system_functions(&self, name: &str) -> (r: Option<&Vec<FunctionDescription>>)
        requires
            self.tables_wf(),
        ensures
            match r {
                Some(list) => self.system_functions().has(name@) && list@ == self.homonyms(name@),
                None => !self.system_functions().has(name@) && self.homonyms(name@).len() == 0,
            },
    {
        self.system_function_symbol_table.try_get(name)
    }

    /// Makes a value fit a datatype of the workspace and copies it.
    pub fn construct_value(&mut self, datatype_name: &str, args: &Vec<Value>) -> (r: Result<Value, Vec<Piece>>)
        requires
            old(self).wf(),
            old(self).datatypes().has(datatype_name@),
            forall|i: int| 0 <= i < args@.len() ==> old(self).store().holds(#[trigger] args@[i]),
        ensures
            final(self).wf(),
            final(self).store().extends(&old(self).store()),
            final(self).same_but_store(old(self)),
            r matches Ok(v) ==> final(self).store().holds(v),
            r is Err ==> final(self).store() == old(self).store(),
            ({
                let t = old(self).datatypes().item(datatype_name@);
                let types = old(self).datatypes();
                if is_atomic(t.root()) {
                    if args@.len() != 1 {
                        r matches Err(e) && piece_models(e@) == text(one_argument_message(t.name()))
                    } else {
                        match (r, atomic(&old(self).store(), t.root(), args@[0])) {
                            (Ok(a), Ok(b)) => a == b && final(self).store() == old(self).store(),
                            (Err(e), Err(m)) => piece_models(e@) == text(m),
                            _ => false,
                        }
                    }
                } else {
                    match wanted(&types, t, args@.len() as int) {
                        Err(m) => r matches Err(e) && piece_models(e@) == text(m),
                        Ok(datatypes) => match first_unfit(&old(self).store(), &types, datatypes, args@, 0) {
                            Some(m) => r matches Err(e) && piece_models(e@) == m,
                            None => r matches Ok(v) && made(
                                &old(self).store(),
                                &final(self).store(),
                                &types,
                                t,
                                datatypes,
                                args@,
                                v,
                            ),
                        },
                    }
                }
            }),
    {
        let t = self.datatype_symbol_table.try_get(datatype_name).unwrap();
        let r = construct(t, args, &mut self.store, &self.datatype_symbol_table);
        proof {
            self.lemma_store_grew(old(self));
            assert(variables_in(&self.variables(), &self.store()));
        }
        r
    }

    /// Sets or clears a flag of statements of a function of the user:
    /// of every statement, where no lines are given, and else of the
    /// statement on each of the lines, in their order. The first line
    /// without a statement is an error, and the lines behind it are not
    /// looked at. Frames that run the function already are left as they are.
    pub fn mark_statements(&mut self, name: &str, lines: &Vec<LineNumber>, flag: Flag, value: bool) -> (r: Result<
        (),
        String,
    >)
        requires
            old(self).wf(),
        ensures
            final(self).wf(),
            final(self).same_but_tables(old(self)),
            final(self).datatypes() == old(self).datatypes(),
            final(self).system_functions() == old(self).system_functions(),
            final(self).selectors() == old(self).selectors(),
            final(self).user_functions().keys() == old(self).user_functions().keys(),
            forall|other: Seq<char>|
                lower(other) != lower(name@) && old(self).user_functions().has(other) ==> final(self).user_functions().item(other) == old(self).user_functions().item(other),
            match old(self).marked_body(name@) {
                Err(m) => r matches Err(e) && e@ == m && final(self).user_functions() == old(self).user_functions(),
                Ok(before) => {
                    &&& final(self).marked_body(name@) matches Ok(after)
                    &&& marked(before, after, lines@, flag, value, first_missing_line(before, lines@, 0))
                    &&& match first_missing_line(before, lines@, 0) {
                        Some(k) => r matches Err(e) && e@ == invalid_line_message(lines@[k]),
                        None => r is Ok,
                    }
                },
            },
    {
        let i = match self.user_function_symbol_table.index_of(name) {
            Some(i) => i,
            None => {
                return if self.try_get_function(name).is_some() {
                    Err(String::from_str("System functions cannot be stopped"))
                } else {
                    let mut m = String::from_str("Function ");
                    m.append(name);
                    m.append(" not found");
                    Err(m)
                };
            },
        };
        let is_user = match &self.user_function_symbol_table.at(i).implementation_class {
            FunctionImplementation::User(_) => true,
            FunctionImplementation::System(_) => false,
        };
        if !is_user {
            return Err(String::from_str("System functions cannot be stopped"));
        }
        let ghost table = old(self).user_functions();
        let placeholder = FunctionDescription {
            name: Name::from_str(""),
            arguments: FunctionArgumentList::Varying(ArgumentMechanism::ByValue),
            local_variables: None,
            return_value: None,
            implementation_class: FunctionImplementation::System(FunctionClass::Nullary(SystemFunction::Version)),
            help_text: String::new(),
        };
        let f = self.user_function_symbol_table.exchange_at(i, placeholder);
        assert(function_wf(f)) by {
            assert(f == table.items()[i as int]);
        }
        let FunctionDescription { name: f_name, arguments, local_variables, return_value, implementation_class, help_text } = f;
        let mut body = match implementation_class {
            FunctionImplementation::User(body) => body,
            FunctionImplementation::System(_) => {
                proof {
                    assert(false);
                }
                FunctionBody { executable: Executable::new(""), labels: Vec::new() }
            },
        };
        let ghost before = body;
        let result = mark(&mut body.executable, lines, flag, value);
        let changed = FunctionDescription {
            name: f_name,
            arguments: arguments,
            local_variables: local_variables,
            return_value: return_value,
            implementation_class: FunctionImplementation::User(body),
            help_text: help_text,
        };
        self.user_function_symbol_table.set_at(i, changed);
        proof {
            let after = self.user_functions();
            assert(after.keys() == table.keys());
            assert(after.items() =~= table.items().update(i as int, changed));
            assert forall|k: int| 0 <= k < after.items().len() implies function_wf(#[trigger] after.items()[k]) by {
                if k != i {
                    assert(after.items()[k] == table.items()[k]);
                    assert(function_wf(table.items()[k]));
                }
            }
            assert forall|other: Seq<char>| lower(other) != lower(name@) && table.has(other) implies after.item(
                other,
            ) == table.item(other) by {
                crate::symbols::lemma_key_index(table.keys(), lower(other));
                crate::symbols::lemma_key_index(table.keys(), lower(name@));
            }
            self.lemma_same_but_tables(old(self));
        }
        result
    }

    /// The body of the function of a name whose statements can be
    /// marked: the function must be one of the user.
    pub open spec fn marked_body(&self, name: Seq<char>) -> Result<Executable, Seq<char>> {
        if self.user_functions().has(name) {
            match self.user_functions().item(name).implementation_class {
                FunctionImplementation::User(body) => Ok(body.executable),
                FunctionImplementation::System(_) => Err("System functions cannot be stopped"@),
            }
        } else if self.knows_function(name) {
            Err("System functions cannot be stopped"@)
        } else {
            Err("Function "@ + name + " not found"@)
        }
    }

    /// Whether what goes by a name is what went by it before: the same
    /// datatype, function of the user, selector and global variable,
    /// or none where there was none.
    pub open spec fn keeps(&self, before: &WorkSpace, name: Seq<char>) -> bool {
        &&& self.datatypes().has(name) == before.datatypes().has(name)
        &&& before.datatypes().has(name) ==> self.datatypes().item(name) == before.datatypes().item(name)
        &&& self.user_functions().has(name) == before.user_functions().has(name)
        &&& before.user_functions().has(name) ==> self.user_functions().item(name) == before.user_functions().item(
            name,
        )
        &&& self.selectors().has(name) == before.selectors().has(name)
        &&& before.selectors().has(name) ==> self.selectors().item(name) == before.selectors().item(name)
        &&& self.variables().has(name) == before.variables().has(name)
        &&& before.variables().has(name) ==> self.variables().item(name) == before.variables().item(name)
    }

    /// Forgets every frame and whatever goes by a name: the global
    /// variable, the datatype, the selector and the function of the
    /// user of that name. A built-in function stays, and so does
    /// whatever goes by another name.
    pub fn remove_named(&mut self, name: &str)
        requires
            old(self).wf(),
        ensures
            final(self).wf(),
            final(self).frames().len() == 0,
            final(self).values() == old(self).values(),
            final(self).store() == old(self).store(),
            final(self).system_functions() == old(self).system_functions(),
            !final(self).defines(name@),
            forall|other: Seq<char>| !old(self).defines(other) ==> !#[trigger] final(self).defines(other),
            forall|other: Seq<char>|
                lower(other) != lower(name@) ==> #[trigger] final(self).defines(other) == old(self).defines(other),
            forall|other: Seq<char>| lower(other) != lower(name@) ==> #[trigger] final(self).keeps(old(self), other),
            final(self).last_value() == old(self).last_value(),
            final(self).debug_switches() == old(self).debug_switches(),
            final(self).feature_switches() == old(self).feature_switches(),
            final(self).sentinal() == old(self).sentinal(),
    {
        self.reset_function_state();
        let ghost middle = *self;
        self.datatype_symbol_table.remove(name);
        self.user_function_symbol_table.remove(name);
        self.selector_symbol_table.remove(name);
        self.variable_symbol_table.remove(name);
        proof {
            assert forall|i: int| 0 <= i < self.variables().items().len() implies (
            #[trigger] self.variables().items()[i]).cell < self.store().cells().len() by {
                let item = self.variables().items()[i];
                assert(middle.variables().items().contains(item));
                let j = choose|j: int| 0 <= j < middle.variables().items().len() && middle.variables().items()[j] == item;
                assert(middle.variables().items()[j].cell < middle.store().cells().len());
            }
            assert forall|i: int| 0 <= i < self.user_functions().items().len() implies function_wf(
                #[trigger] self.user_functions().items()[i],
            ) by {
                let item = self.user_functions().items()[i];
                assert(middle.user_functions().items().contains(item));
                let j = choose|j: int|
                    0 <= j < middle.user_functions().items().len() && middle.user_functions().items()[j] == item;
                assert(function_wf(middle.user_functions().items()[j]));
            }
            assert forall|i: int| 0 <= i < self.values().len() implies self.store().holds(
                #[trigger] self.values()[i],
            ) by {
                assert(old(self).store().holds(old(self).values()[i]));
            }
            assert forall|other: Seq<char>| !old(self).defines(other) implies !#[trigger] self.defines(other) by {
                if lower(other) == lower(name@) {
                    assert(self.datatypes().has(other) == self.datatypes().has(name@));
                    assert(self.user_functions().has(other) == self.user_functions().has(name@));
                    assert(self.selectors().has(other) == self.selectors().has(name@));
                    assert(self.variables().has(other) == self.variables().has(name@));
                }
            }
        }
    }

    /// Switches a feature on or off by its name.
    pub fn switch_feature(&mut self, on: bool, option: &str) -> (r: Result<(), String>)
        requires
            old(self).wf(),
        ensures
            final(self).wf(),
            final(self).frames() == old(self).frames(),
            final(self).store() == old(self).store(),
            final(self).values() == old(self).values(),
            final(self).variables() == old(self).variables(),
            final(self).datatypes() == old(self).datatypes(),
            final(self).user_functions() == old(self).user_functions(),
            final(self).system_functions() == old(self).system_functions(),
            final(self).selectors() == old(self).selectors(),
            final(self).last_value() == old(self).last_value(),
            final(self).debug_switches() == old(self).debug_switches(),
            match Feature::named(option@) {
                Some(k) => r is Ok && final(self).feature_switches().on(k) == on && forall|other: Feature|
                    other != k ==> final(self).feature_switches().on(other) == old(self).feature_switches().on(other),
                None => r is Err && r->Err_0@ == crate::workspace::options::no_variant_message() && final(self).feature_switches().entries() == old(self).feature_switches().entries(),
            },
    {
        let r = if on {
            self.features.set_str(option)
        } else {
            self.features.clear_str(option)
        };
        proof {
            self.lemma_switched(old(self));
        }
        r
    }

    /// Switches a debug option on or off by its name.
    pub fn switch_debug(&mut self, on: bool, option: &str) -> (r: Result<(), String>)
        requires
            old(self).wf(),
        ensures
            final(self).wf(),
            final(self).frames() == old(self).frames(),
            final(self).store() == old(self).store(),
            final(self).values() == old(self).values(),
            final(self).variables() == old(self).variables(),
            final(self).datatypes() == old(self).datatypes(),
            final(self).user_functions() == old(self).user_functions(),
            final(self).system_functions() == old(self).system_functions(),
            final(self).selectors() == old(self).selectors(),
            final(self).last_value() == old(self).last_value(),
            final(self).feature_switches() == old(self).feature_switches(),
            match DebugOption::named(option@) {
                Some(k) => r is Ok && final(self).debug_switches().on(k) == on && forall|other: DebugOption|
                    other != k ==> final(self).debug_switches().on(other) == old(self).debug_switches().on(other),
                None => r is Err && r->Err_0@ == crate::workspace::options::no_variant_message() && final(self).debug_switches().entries() == old(self).debug_switches().entries(),
            },
    {
        let r = if on {
            self.debug_options.set_str(option)
        } else {
            self.debug_options.clear_str(option)
        };
        proof {
            self.lemma_switched(old(self));
        }
        r
    }

    /// The settings of the features, as text.
    pub fn features_text(&self) -> (r: String)
        ensures
            r@ == crate::workspace::options::shown(self.feature_switches().entries()),
    {
        self.features.show()
    }

    /// The settings of the debug options, as text.
    pub fn debug_text(&self) -> (r: String)
        ensures
            r@ == crate::workspace::options::shown(self.debug_switches().entries()),
    {
        self.debug_options.show()
    }

    /// The body of the function of the user that goes by a name is in order.
    pub proof fn lemma_function_wf(&self, name: Seq<char>)
        requires
            self.wf(),
            self.user_functions().has(name),
        ensures
            function_wf(self.user_functions().item(name)),
    {
        crate::symbols::lemma_key_index(self.user_functions().keys(), lower(name));
    }

    proof fn lemma_switched(&self, before: &WorkSpace)
        requires
            before.wf(),
            self.datatypes() == before.datatypes(),
            self.system_functions() == before.system_functions(),
            self.user_functions() == before.user_functions(),
            self.selectors() == before.selectors(),
            self.variables() == before.variables(),
            self.values() == before.values(),
            self.frames() == before.frames(),
            self.last_value() == before.last_value(),
            self.store() == before.store(),
            self.debug_switches().wf(),
            self.feature_switches().wf(),
        ensures
            self.wf(),
    {
        assert forall|i: int| 0 <= i < self.values().len() implies self.store().holds(
            #[trigger] self.values()[i],
        ) by {
            assert(before.store().holds(before.values()[i]));
        }
        assert(variables_in(&self.variables(), &self.store())) by {
            assert(variables_in(&before.variables(), &before.store()));
        }
        assert forall|f: int| 0 <= f < self.frames().len() implies frame_in(
            &#[trigger] self.frames()[f],
            &self.store(),
        ) by {
            assert(frame_in(&before.frames()[f], &before.store()));
        }
    }

    /// How many frames there are.
    pub fn frame_count(&self) -> (r: usize)
        ensures
            r == self.frames().len(),
    {
        self.invocation_stack.len()
    }

    /// Settles the frame that ran a node when the node has been run:
    /// the frame at the given depth, counted from one at the bottom. It
    /// is no longer executing where the node succeeded, and stopped where
    /// it failed. Nothing is done where there is no frame at that depth
    /// any more. Hands back the line of the statement of the node where
    /// the statement is traced and the node was its last.
    pub fn finish_frame(&mut self, depth: usize, succeeded: bool) -> (traced: Option<LineNumber>)
        requires
            old(self).wf(),
        ensures
            final(self).wf(),
            final(self).same_but_frames(old(self)),
            final(self).sentinal() == old(self).sentinal(),
            final(self).frames().len() == old(self).frames().len(),
            forall|i: int|
                0 <= i < old(self).frames().len() && i != depth - 1 ==> #[trigger] final(self).frames()[i] == old(self).frames()[i],
            0 < depth <= old(self).frames().len() ==> {
                let before = old(self).frames()[depth - 1];
                let after = final(self).frames()[depth - 1];
                &&& after.executable() == before.executable()
                &&& after.block() == before.block()
                &&& after.base() == before.base()
                &&& after.pending() == before.pending()
                &&& after.current() == before.current()
                &&& after.next() == before.next()
                &&& after.state() == if succeeded {
                    ExecutionState::NotExecuting
                } else {
                    ExecutionState::Stopped
                }
            },
            !(0 < depth <= old(self).frames().len()) ==> traced is None && final(self).frames() == old(self).frames(),
            0 < depth <= old(self).frames().len() ==> traced == crate::sequencer::traced_line(
                &old(self).frames()[depth - 1],
                succeeded,
            ),
    {
        if depth == 0 || depth > self.invocation_stack.len() {
            return None;
        }
        assert(frame_in(&old(self).frames()[depth - 1], &old(self).store()));
        let mut frame = self.invocation_stack.remove(depth - 1);
        let traced = crate::sequencer::finish(&mut frame, succeeded);
        self.invocation_stack.insert(depth - 1, frame);
        proof {
            assert forall|f: int| 0 <= f < self.frames().len() implies frame_in(
                &#[trigger] self.frames()[f],
                &self.store(),
            ) by {
                assert(frame_in(&old(self).frames()[f], &old(self).store()));
            }
            self.lemma_same_but_frames(old(self));
        }
        traced
    }

    /// Whether execution was interrupted.
    pub fn is_interrupted(&self) -> (r: bool)
        ensures
            r == self.sentinal().requested(),
    {
        self.execution_sentinal.is_stop_requested()
    }

    /// Takes an interrupt back.
    pub fn clear_interrupt(&mut self)
        requires
            old(self).wf(),
        ensures
            final(self).wf(),
            !final(self).sentinal().requested(),
            final(self).same_but_frames(old(self)),
            final(self).frames() == old(self).frames(),
    {
        self.execution_sentinal.clear_stop_requested();
        proof {
            assert forall|f: int| 0 <= f < self.frames().len() implies frame_in(
                &#[trigger] self.frames()[f],
                &self.store(),
            ) by {
                assert(frame_in(&old(self).frames()[f], &old(self).store()));
            }
            self.lemma_same_but_frames(old(self));
        }
    }

    /// Asks for execution to be interrupted.
    pub fn interrupt(&mut self)
        requires
            old(self).wf(),
        ensures
            final(self).wf(),
            final(self).sentinal().requested(),
            final(self).same_but_frames(old(self)),
            final(self).frames() == old(self).frames(),
    {
        self.execution_sentinal.set_stop_requested(true);
        proof {
            assert forall|f: int| 0 <= f < self.frames().len() implies frame_in(
                &#[trigger] self.frames()[f],
                &self.store(),
            ) by {
                assert(frame_in(&old(self).frames()[f], &old(self).store()));
            }
            self.lemma_same_but_frames(old(self));
        }
    }
}

} // verus!
