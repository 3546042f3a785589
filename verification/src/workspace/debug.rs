//! The debugging aids that can be switched on and off.

use vstd::prelude::*;
use crate::text::{lower, same_text_ignoring_case};
use super::options::{OptionKey, Options};

verus! {

/// What the interpreter can be asked to show of its own working.
#[derive(Clone, Copy, Debug, PartialEq, Eq, Structural)]
pub enum DebugOption {
    BuiltinFunctions,
    DataConversion,
    Execution,
    Format,
    Function,
    Lex,
    NodeInvocation,
    Parse,
    StackUsage,
    ValueStack,
}

impl OptionKey for DebugOption {
    open spec fn all() -> Seq<DebugOption> {
        seq![
            DebugOption::BuiltinFunctions,
            DebugOption::DataConversion,
            DebugOption::Execution,
            DebugOption::Format,
            DebugOption::Function,
            DebugOption::Lex,
            DebugOption::NodeInvocation,
            DebugOption::Parse,
            DebugOption::StackUsage,
            DebugOption::ValueStack,
        ]
    }

    open spec fn label(self) -> Seq<char> {
        match self {
            DebugOption::BuiltinFunctions => "BuiltinFunctions"@,
            DebugOption::DataConversion => "DataConversion"@,
            DebugOption::Execution => "Execution"@,
            DebugOption::Format => "Format"@,
            DebugOption::Function => "Function"@,
            DebugOption::Lex => "Lex"@,
            DebugOption::NodeInvocation => "NodeInvocation"@,
            DebugOption::Parse => "Parse"@,
            DebugOption::StackUsage => "StackUsage"@,
            DebugOption::ValueStack => "ValueStack"@,
        }
    }

    open spec fn named(text: Seq<char>) -> Option<DebugOption> {
        if lower(text) == lower("BuiltinFunctions"@) {
            Some(DebugOption::BuiltinFunctions)
        } else if lower(text) == lower("DataConversion"@) {
            Some(DebugOption::DataConversion)
        } else if lower(text) == lower("Execution"@) {
            Some(DebugOption::Execution)
        } else if lower(text) == lower("Format"@) {
            Some(DebugOption::Format)
        } else if lower(text) == lower("Function"@) {
            Some(DebugOption::Function)
        } else if lower(text) == lower("Lex"@) {
            Some(DebugOption::Lex)
        } else if lower(text) == lower("NodeInvocation"@) {
            Some(DebugOption::NodeInvocation)
        } else if lower(text) == lower("Parse"@) {
            Some(DebugOption::Parse)
        } else if lower(text) == lower("StackUsage"@) {
            Some(DebugOption::StackUsage)
        } else if lower(text) == lower("ValueStack"@) {
            Some(DebugOption::ValueStack)
        } else {
            None
        }
    }

    fn same(&self, other: &DebugOption) -> (r: bool) {
        *self == *other
    }

    fn to_text(&self) -> (r: String) {
        match self {
            DebugOption::BuiltinFunctions => String::from_str("BuiltinFunctions"),
            DebugOption::DataConversion => String::from_str("DataConversion"),
            DebugOption::Execution => String::from_str("Execution"),
            DebugOption::Format => String::from_str("Format"),
            DebugOption::Function => String::from_str("Function"),
            DebugOption::Lex => String::from_str("Lex"),
            DebugOption::NodeInvocation => String::from_str("NodeInvocation"),
            DebugOption::Parse => String::from_str("Parse"),
            DebugOption::StackUsage => String::from_str("StackUsage"),
            DebugOption::ValueStack => String::from_str("ValueStack"),
        }
    }

    fn from_text(text: &str) -> (r: Result<DebugOption, String>) {
        if same_text_ignoring_case(text, "BuiltinFunctions") {
            Ok(DebugOption::BuiltinFunctions)
        } else if same_text_ignoring_case(text, "DataConversion") {
            Ok(DebugOption::DataConversion)
        } else if same_text_ignoring_case(text, "Execution") {
            Ok(DebugOption::Execution)
        } else if same_text_ignoring_case(text, "Format") {
            Ok(DebugOption::Format)
        } else if same_text_ignoring_case(text, "Function") {
            Ok(DebugOption::Function)
        } else if same_text_ignoring_case(text, "Lex") {
            Ok(DebugOption::Lex)
        } else if same_text_ignoring_case(text, "NodeInvocation") {
            Ok(DebugOption::NodeInvocation)
        } else if same_text_ignoring_case(text, "Parse") {
            Ok(DebugOption::Parse)
        } else if same_text_ignoring_case(text, "StackUsage") {
            Ok(DebugOption::StackUsage)
        } else if same_text_ignoring_case(text, "ValueStack") {
            Ok(DebugOption::ValueStack)
        } else {
            Err(String::from_str("Matching variant not found"))
        }
    }

    fn every() -> (r: Vec<DebugOption>) {
        let r = vec![
            DebugOption::BuiltinFunctions,
            DebugOption::DataConversion,
            DebugOption::Execution,
            DebugOption::Format,
            DebugOption::Function,
            DebugOption::Lex,
            DebugOption::NodeInvocation,
            DebugOption::Parse,
            DebugOption::StackUsage,
            DebugOption::ValueStack,
        ];
        assert(r@ =~= DebugOption::all());
        r
    }
}

impl DebugOption {
    /// The debugging aids, all switched off.
    pub fn new() -> (r: Options<DebugOption>)
        ensures
            r.wf(),
            forall|o: DebugOption| !r.on(o),
            r.entries() == super::options::recorded_all(Seq::empty(), DebugOption::all(), false),
            forall|o: DebugOption| super::options::setting_of(r.entries(), o) == Some(false),
    {
        let mut options = Options::new();
        assert(options.entries() =~= Seq::<(DebugOption, bool)>::empty());
        options.init(&DebugOption::every());
        proof {
            assert forall|o: DebugOption| super::options::setting_of(options.entries(), o) == Some(false) by {
                let all = DebugOption::all();
                assert(all[0] == DebugOption::BuiltinFunctions);
                assert(all[1] == DebugOption::DataConversion);
                assert(all[2] == DebugOption::Execution);
                assert(all[3] == DebugOption::Format);
                assert(all[4] == DebugOption::Function);
                assert(all[5] == DebugOption::Lex);
                assert(all[6] == DebugOption::NodeInvocation);
                assert(all[7] == DebugOption::Parse);
                assert(all[8] == DebugOption::StackUsage);
                assert(all[9] == DebugOption::ValueStack);
            }
        }
        options
    }
}

} // verus!
