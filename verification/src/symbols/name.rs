//! Identifiers. Two names are the same when they differ at most in the case
//! of their letters; a name may hold dots.

use vstd::prelude::*;
use vstd::std_specs::cmp::PartialEqSpecImpl;
use crate::text::{chars_of, lower, same_chars, to_lower};

verus! {

/// What `char::is_alphabetic` answers for a character.
pub uninterp spec fn alphabetic(c: char) -> bool;

/// What `char::is_alphanumeric` answers for a character.
pub uninterp spec fn alphanumeric(c: char) -> bool;

/// Calls `char::is_alphabetic`, which decides by the Unicode tables whether
/// a character has the Alphabetic property. The answer is named, not stated.
#[verifier::external_body]
fn is_alphabetic(c: char) -> (r: bool)
    ensures
        r == alphabetic(c),
{
    c.is_alphabetic()
}

/// Calls `char::is_alphanumeric`, which decides by the Unicode tables whether
/// a character is alphabetic or numeric. The answer is named, not stated.
#[verifier::external_body]
fn is_alphanumeric(c: char) -> (r: bool)
    ensures
        r == alphanumeric(c),
{
    c.is_alphanumeric()
}

/// Whether a character may stand in an identifier.
pub open spec fn is_identifier_char(c: char) -> bool {
    alphabetic(c) || alphanumeric(c) || c == '.'
}

/// Whether a text is a legal identifier: letters, digits and dots only, and
/// not a dot alone.
pub open spec fn is_legal_identifier(s: Seq<char>) -> bool {
    (forall|i: int| 0 <= i < s.len() ==> is_identifier_char(#[trigger] s[i])) && s != seq!['.']
}

/// A case-insensitive identifier that remembers how it was spelled.
#[derive(Debug)]
pub struct Name {
    value: String,
}

impl View for Name {
    type V = Seq<char>;

    /// The spelling.
    closed spec fn view(&self) -> Seq<char> {
        self.value@
    }
}

impl Clone for Name {
    fn clone(&self) -> (r: Self)
        ensures
            r@ == self@,
    {
        Name { value: self.value.clone() }
    }
}

impl PartialEq for Name {
    fn eq(&self, other: &Self) -> (r: bool) {
        let a = to_lower(&chars_of(self.value.as_str()));
        let b = to_lower(&chars_of(other.value.as_str()));
        same_chars(&a, &b)
    }
}

impl PartialEqSpecImpl for Name {
    open spec fn obeys_eq_spec() -> bool {
        true
    }

    open spec fn eq_spec(&self, other: &Self) -> bool {
        lower(self@) == lower(other@)
    }
}

impl Name {
    /// The lower-case form, by which names are compared and looked up.
    pub open spec fn key(&self) -> Seq<char> {
        lower(self@)
    }

    pub fn as_str<'a>(&'a self) -> (r: &'a str)
        ensures
            r@ == self@,
    {
        self.value.as_str()
    }

    pub fn as_string(&self) -> (r: String)
        ensures
            r@ == self@,
    {
        self.value.clone()
    }

    /// The spelling as characters.
    pub fn as_chars(&self) -> (r: Vec<char>)
        ensures
            r@ == self@,
    {
        chars_of(self.value.as_str())
    }

    /// The lower-case form as characters.
    pub fn as_key(&self) -> (r: Vec<char>)
        ensures
            r@ == self.key(),
    {
        to_lower(&chars_of(self.value.as_str()))
    }

    pub fn from_str(s: &str) -> (r: Name)
        ensures
            r@ == s@,
    {
        Name { value: String::from_str(s) }
    }

    pub fn from_string(s: &String) -> (r: Name)
        ensures
            r@ == s@,
    {
        Name { value: s.clone() }
    }

    pub fn from_name(n: &Name) -> (r: Name)
        ensures
            r@ == n@,
    {
        n.clone()
    }

    /// Whether `other` is the same name, whatever the case of its letters.
    pub fn is_same(&self, other: &Name) -> (r: bool)
        ensures
            r == (self.key() == other.key()),
    {
        *self == *other
    }

    /// Whether `name` is spelled `text`, whatever the case of its letters.
    pub fn is_named(&self, text: &str) -> (r: bool)
        ensures
            r == (self.key() == lower(text@)),
    {
        let a = to_lower(&chars_of(self.value.as_str()));
        let b = to_lower(&chars_of(text));
        same_chars(&a, &b)
    }

    pub fn is_name_a_legal_identifier(name: &str) -> (r: bool)
        ensures
            r == is_legal_identifier(name@),
    {
        let v = chars_of(name);
        let mut i: usize = 0;
        while i < v.len()
            invariant
                i <= v.len(),
                v@ == name@,
                forall|k: int| 0 <= k < i ==> is_identifier_char(#[trigger] v@[k]),
            decreases v.len() - i,
        {
            let c = v[i];
            if !(is_alphabetic(c) || is_alphanumeric(c) || c == '.') {
                return false;
            }
            i += 1;
        }
        let alone = v.len() == 1 && v[0] == '.';
        proof {
            if alone {
                assert(v@ =~= seq!['.']);
            }
        }
        !alone
    }
}

} // verus!
