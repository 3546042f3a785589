//! A cursor over the tokens of a source text.

use vstd::prelude::*;
use crate::lexical::{Token, TokenKind, TokenModel, TokenPosition, TokenType};
use crate::text::{lower, same_text_ignoring_case, string_is};

verus! {

/// A cursor over tokens. A comment reads as the end of a line, and so
/// does the end of the tokens.
pub struct TokenScanner<'a> {
    tokens: &'a Vec<Token>,
    index: usize,
    saved_index: Option<usize>,
    position: TokenPosition,
}

/// The end of a line at a position, as a token.
pub open spec fn end_of_line(position: TokenPosition) -> TokenModel {
    TokenModel { kind: TokenKind::EOL, text: Seq::empty(), position: position }
}

/// The position before any token.
pub open spec fn no_position() -> TokenPosition {
    TokenPosition { n: 0, index: 0, line_number: 0, column: 0 }
}

impl<'a> TokenScanner<'a> {
    /// The tokens.
    pub closed spec fn tokens(&self) -> Seq<Token> {
        self.tokens@
    }

    /// How many tokens have been taken.
    pub closed spec fn taken(&self) -> int {
        self.index as int
    }

    /// The place that was saved to come back to, if one was.
    pub closed spec fn saved(&self) -> Option<int> {
        match self.saved_index {
            Some(i) => Some(i as int),
            None => None,
        }
    }

    /// The position of the token that was taken last.
    pub closed spec fn position(&self) -> TokenPosition {
        self.position
    }

    /// The invariant: the cursor stands among the tokens or behind them.
    pub closed spec fn wf(&self) -> bool {
        self.index <= self.tokens@.len() && (self.saved_index matches Some(i) ==> i <= self.index)
    }

    pub proof fn lemma_in_order(&self)
        requires
            self.wf(),
        ensures
            0 <= self.taken() <= self.tokens().len(),
            self.saved() matches Some(i) ==> 0 <= i <= self.taken(),
    {
    }

    /// How many tokens are left.
    pub open spec fn remaining(&self) -> nat {
        (self.tokens().len() - self.taken()) as nat
    }

    /// The token that comes next, as the parser sees it.
    pub open spec fn upcoming(&self) -> TokenModel {
        if self.taken() < self.tokens().len() {
            let t = self.tokens()[self.taken()].model();
            if t.kind is Comment {
                end_of_line(t.position)
            } else {
                t
            }
        } else {
            end_of_line(self.position())
        }
    }

    /// Whether the tokens are at their end: the end of the source comes
    /// next, or nothing does.
    pub open spec fn at_end(&self) -> bool {
        self.taken() >= self.tokens().len() || self.tokens()[self.taken()].model().kind is EOS
    }

    /// The cursor after the next token was taken.
    pub open spec fn stepped(&self, after: &TokenScanner<'a>) -> bool {
        &&& after.wf()
        &&& after.tokens() == self.tokens()
        &&& after.saved() == self.saved()
        &&& after.taken() == if self.taken() < self.tokens().len() {
            self.taken() + 1
        } else {
            self.taken()
        }
        &&& after.position() == if self.taken() < self.tokens().len() && !(
        self.tokens()[self.taken()].model().kind is Comment) {
            self.tokens()[self.taken()].model().position
        } else {
            self.position()
        }
    }

    /// The cursor as it was: nothing was taken.
    pub open spec fn same(&self, after: &TokenScanner<'a>) -> bool {
        &&& after.wf()
        &&& after.tokens() == self.tokens()
        &&& after.saved() == self.saved()
        &&& after.taken() == self.taken()
        &&& after.position() == self.position()
    }

    /// What taking the next token on a condition comes to: where the
    /// condition holds of the token that comes next, the token is taken;
    /// else nothing is.
    pub open spec fn taken_if(&self, after: &TokenScanner<'a>, wanted: bool, ok: bool) -> bool {
        if wanted {
            ok && self.stepped(after)
        } else {
            !ok && self.same(after)
        }
    }

    fn make_eol(position: TokenPosition) -> (r: Token)
        ensures
            r.model() == end_of_line(position),
    {
        Token { token_type: TokenType::EOL, string_value: String::new(), starting_position: position }
    }

    pub fn new(tokens: &'a Vec<Token>) -> (r: Self)
        ensures
            r.wf(),
            r.tokens() == tokens@,
            r.taken() == 0,
            r.saved() is None,
            r.position() == no_position(),
    {
        TokenScanner {
            tokens: tokens,
            index: 0,
            saved_index: None,
            position: TokenPosition { n: 0, index: 0, line_number: 0, column: 0 },
        }
    }

    /// The token that comes next, without taking it.
    pub fn peek(&self) -> (r: Token)
        requires
            self.wf(),
        ensures
            r.model() == self.upcoming(),
    {
        if self.index < self.tokens.len() {
            let t = &self.tokens[self.index];
            if let TokenType::Comment = t.token_type {
                Self::make_eol(t.starting_position)
            } else {
                t.clone()
            }
        } else {
            Self::make_eol(self.position)
        }
    }

    /// Takes the token that comes next.
    pub fn next(&mut self) -> (r: Token)
        requires
            old(self).wf(),
        ensures
            r.model() == old(self).upcoming(),
            old(self).stepped(final(self)),
    {
        if self.index < self.tokens.len() {
            let t = &self.tokens[self.index];
            self.index = self.index + 1;
            if let TokenType::Comment = t.token_type {
                Self::make_eol(t.starting_position)
            } else {
                self.position = t.starting_position;
                t.clone()
            }
        } else {
            Self::make_eol(self.position)
        }
    }

    pub fn consume_any_operator(&mut self) -> (r: Result<String, String>)
        requires
            old(self).wf(),
        ensures
            old(self).taken_if(final(self), old(self).upcoming().kind is Operator, r is Ok),
            r matches Ok(text) ==> text@ == old(self).upcoming().text,
            r is Ok ==> final(self).taken() == old(self).taken() + 1,
            r matches Err(e) ==> e@ == "operator not found"@,
    {
        let t = self.peek();
        if let TokenType::Operator(_) = t.token_type {
            let token = self.next();
            return Ok(token.string_value);
        }
        Err(String::from_str("operator not found"))
    }

    pub fn consume_identifier(&mut self) -> (r: Result<String, String>)
        requires
            old(self).wf(),
        ensures
            old(self).taken_if(final(self), old(self).upcoming().kind is Identifier, r is Ok),
            r matches Ok(text) ==> text@ == old(self).upcoming().text,
            r is Ok ==> final(self).taken() == old(self).taken() + 1,
            r matches Err(e) ==> e@ == "identifier not found"@,
    {
        let t = self.peek();
        if let TokenType::Identifier(_) = t.token_type {
            let token = self.next();
            return Ok(token.string_value);
        }
        Err(String::from_str("identifier not found"))
    }

    pub fn consume_integer(&mut self) -> (r: Result<i32, String>)
        requires
            old(self).wf(),
        ensures
            old(self).taken_if(final(self), old(self).upcoming().kind is Integer, r is Ok),
            r matches Ok(v) ==> old(self).upcoming().kind == TokenKind::Integer(v),
            r is Ok ==> final(self).taken() == old(self).taken() + 1,
            r matches Err(e) ==> e@ == "integer not found"@,
    {
        let t = self.peek();
        if let TokenType::Integer(i) = t.token_type {
            self.next();
            return Ok(i);
        }
        Err(String::from_str("integer not found"))
    }

    /// Whether a token is the given word, whatever the case of its letters.
    pub open spec fn is_keyword(t: TokenModel, expected: Seq<char>) -> bool {
        t.kind matches TokenKind::Identifier(i) && lower(i) == lower(expected)
    }

    pub fn consume_keyword(&mut self, expected: &str) -> (r: Result<String, String>)
        requires
            old(self).wf(),
        ensures
            old(self).taken_if(final(self), Self::is_keyword(old(self).upcoming(), expected@), r is Ok),
            r matches Ok(text) ==> text@ == old(self).upcoming().text,
            r is Ok ==> final(self).taken() == old(self).taken() + 1,
            r matches Err(e) ==> e@ == "keyword not found"@,
    {
        let t = self.peek();
        if let TokenType::Identifier(i) = &t.token_type {
            if same_text_ignoring_case(i.as_str(), expected) {
                let token = self.next();
                return Ok(token.string_value);
            }
        }
        Err(String::from_str("keyword not found"))
    }

    /// Takes the end of a line. At the end of the tokens there is nothing
    /// to take, and that is no failure.
    pub fn consume_newline(&mut self) -> (r: Result<(), String>)
        requires
            old(self).wf(),
        ensures
            old(self).taken_if(final(self), old(self).upcoming().kind is EOL, r is Ok),
            r matches Err(e) ==> e@ == "newline not found"@,
    {
        let t = self.peek();
        if let TokenType::EOL = t.token_type {
            self.next();
            return Ok(());
        }
        Err(String::from_str("newline not found"))
    }

    /// Whether a token is the given operator.
    pub open spec fn is_operator(t: TokenModel, expected: Seq<char>) -> bool {
        t.kind == TokenKind::Operator(expected)
    }

    pub fn consume_operator(&mut self, expected: &str) -> (r: Result<String, String>)
        requires
            old(self).wf(),
        ensures
            old(self).taken_if(final(self), Self::is_operator(old(self).upcoming(), expected@), r is Ok),
            r matches Ok(text) ==> text@ == old(self).upcoming().text,
            r is Ok ==> final(self).taken() == old(self).taken() + 1,
            r matches Err(e) ==> e@ == "operator not found"@,
    {
        let t = self.peek();
        if let TokenType::Operator(op) = &t.token_type {
            if string_is(op, expected) {
                let token = self.next();
                return Ok(token.string_value);
            }
        }
        Err(String::from_str("operator not found"))
    }

    /// Whether a token is the given punctuation.
    pub open spec fn is_punctuation(t: TokenModel, expected: Seq<char>) -> bool {
        t.kind == TokenKind::Punctuation(expected)
    }

    pub fn consume_punctuation(&mut self, expected: &str) -> (r: Result<String, String>)
        requires
            old(self).wf(),
        ensures
            old(self).taken_if(final(self), Self::is_punctuation(old(self).upcoming(), expected@), r is Ok),
            r matches Ok(text) ==> text@ == old(self).upcoming().text,
            r is Ok ==> final(self).taken() == old(self).taken() + 1,
            r matches Err(e) ==> e@ == "punctuation not found"@,
    {
        let t = self.peek();
        if let TokenType::Punctuation(p) = &t.token_type {
            if string_is(p, expected) {
                let token = self.next();
                return Ok(token.string_value);
            }
        }
        Err(String::from_str("punctuation not found"))
    }

    /// Forgets the place that was saved.
    pub fn discard_saved_iterator(&mut self)
        requires
            old(self).wf(),
            old(self).saved() is Some,
        ensures
            final(self).wf(),
            final(self).tokens() == old(self).tokens(),
            final(self).taken() == old(self).taken(),
            final(self).position() == old(self).position(),
            final(self).saved() is None,
    {
        self.saved_index = None;
    }

    pub fn get_position(&self) -> (r: TokenPosition)
        ensures
            r == self.position(),
    {
        self.position
    }

    pub fn is_eos(&self) -> (r: bool)
        requires
            self.wf(),
        ensures
            r == self.at_end(),
    {
        if self.index < self.tokens.len() {
            match self.tokens[self.index].token_type {
                TokenType::EOS => true,
                _ => false,
            }
        } else {
            true
        }
    }

    pub fn peek_identifier(&self) -> (r: bool)
        requires
            self.wf(),
        ensures
            r == (self.upcoming().kind is Identifier),
    {
        let t = self.peek();
        if let TokenType::Identifier(_) = t.token_type {
            true
        } else {
            false
        }
    }

    pub fn peek_operator(&self, expected: &str) -> (r: bool)
        requires
            self.wf(),
        ensures
            r == Self::is_operator(self.upcoming(), expected@),
    {
        let t = self.peek();
        if let TokenType::Operator(op) = &t.token_type {
            if string_is(op, expected) {
                return true;
            }
        }
        false
    }

    pub fn peek_punctuation(&self, expected: &str) -> (r: bool)
        requires
            self.wf(),
        ensures
            r == Self::is_punctuation(self.upcoming(), expected@),
    {
        let t = self.peek();
        if let TokenType::Punctuation(p) = &t.token_type {
            if string_is(p, expected) {
                return true;
            }
        }
        false
    }

    /// Goes back to the place that was saved, and forgets it.
    pub fn pop_iterator(&mut self)
        requires
            old(self).wf(),
            old(self).saved() is Some,
        ensures
            final(self).wf(),
            final(self).tokens() == old(self).tokens(),
            final(self).taken() == old(self).saved()->0,
            final(self).position() == old(self).position(),
            final(self).saved() is None,
    {
        match self.saved_index {
            Some(i) => {
                self.index = i;
                self.saved_index = None;
            },
            None => {},
        }
    }

    /// Saves the place to come back to.
    pub fn push_iterator(&mut self)
        requires
            old(self).wf(),
            old(self).saved() is None,
        ensures
            final(self).wf(),
            final(self).tokens() == old(self).tokens(),
            final(self).taken() == old(self).taken(),
            final(self).position() == old(self).position(),
            final(self).saved() == Some(old(self).taken()),
    {
        self.saved_index = Some(self.index);
    }

    /// How many tokens are left.
    pub fn left(&self) -> (r: usize)
        requires
            self.wf(),
        ensures
            r == self.remaining(),
    {
        self.tokens.len() - self.index
    }
}

} // verus!
