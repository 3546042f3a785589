//! The optional features of the language.

use vstd::prelude::*;
use crate::text::{lower, same_text_ignoring_case};
use super::options::{OptionKey, Options};

verus! {

/// A feature that can be switched on and off.
#[derive(Clone, Copy, Debug, PartialEq, Eq, Structural)]
pub enum Feature {
    /// Statements may start with a label.
    LineNames,
    /// Backslash escapes in strings stand for control characters.
    StringEscapes,
}

impl OptionKey for Feature {
    open spec fn all() -> Seq<Feature> {
        seq![Feature::LineNames, Feature::StringEscapes]
    }

    open spec fn label(self) -> Seq<char> {
        match self {
            Feature::LineNames => "LineNames"@,
            Feature::StringEscapes => "StringEscapes"@,
        }
    }

    open spec fn named(text: Seq<char>) -> Option<Feature> {
        if lower(text) == lower("LineNames"@) {
            Some(Feature::LineNames)
        } else if lower(text) == lower("StringEscapes"@) {
            Some(Feature::StringEscapes)
        } else {
            None
        }
    }

    fn same(&self, other: &Feature) -> (r: bool) {
        *self == *other
    }

    fn to_text(&self) -> (r: String) {
        match self {
            Feature::LineNames => String::from_str("LineNames"),
            Feature::StringEscapes => String::from_str("StringEscapes"),
        }
    }

    fn from_text(text: &str) -> (r: Result<Feature, String>) {
        if same_text_ignoring_case(text, "LineNames") {
            Ok(Feature::LineNames)
        } else if same_text_ignoring_case(text, "StringEscapes") {
            Ok(Feature::StringEscapes)
        } else {
            Err(String::from_str("Matching variant not found"))
        }
    }

    fn every() -> (r: Vec<Feature>) {
        let r = vec![Feature::LineNames, Feature::StringEscapes];
        assert(r@ =~= Feature::all());
        r
    }
}

impl Feature {
    /// The features, all switched off.
    pub fn new() -> (r: Options<Feature>)
        ensures
            r.wf(),
            forall|f: Feature| !r.on(f),
            r.entries() == super::options::recorded_all(Seq::empty(), Feature::all(), false),
            forall|f: Feature| super::options::setting_of(r.entries(), f) == Some(false),
    {
        let mut options = Options::new();
        assert(options.entries() =~= Seq::<(Feature, bool)>::empty());
        options.init(&Feature::every());
        proof {
            assert forall|f: Feature| super::options::setting_of(options.entries(), f) == Some(false) by {
                let all = Feature::all();
                assert(all[0] == Feature::LineNames && all[1] == Feature::StringEscapes);
            }
        }
        options
    }
}

} // verus!
