//! Takes the decimal text of a number apart: its sign, its digits without
//! leading zeros, and how many of the digits stand behind the decimal point.

use vstd::prelude::*;
use super::format_parser::lemma_hit_is_a_rule;
use super::state_machine::{invalid_message, rule_hit, rule_models, Rule, State, StateModel};
use super::ParsedF64;

verus! {

/// What a rule of the number machine does with the character it matched.
#[derive(Clone, Copy, Debug, PartialEq, Eq, Structural)]
pub enum NumberAction {
    /// Nothing.
    Skip,
    /// One more digit behind the decimal point.
    FractionDigit,
    /// One more digit before the decimal point.
    IntegerDigit,
    /// The first significant digit.
    FirstDigit,
    /// A zero behind the sign.
    ZeroAfterSign,
    /// A decimal point behind zeros only.
    PointAfterZeros,
    /// A decimal point behind the sign.
    PointAfterSign,
    /// The text was zeros only: the number is zero, which has no sign.
    AllZeros,
    /// A minus sign.
    Minus,
    /// The first significant digit of a number without sign.
    PlainFirstDigit,
    /// A zero at the start of a number without sign.
    PlainZero,
    /// A decimal point at the start of a number without sign.
    PlainPoint,
}

pub const STOP: usize = 0;

pub const FP: usize = 1;

pub const IP: usize = 2;

pub const LEADING_ZEROES: usize = 3;

pub const SIGN_DONE: usize = 4;

pub const START: usize = 5;

pub open spec fn all_digits() -> Seq<char> {
    seq!['0', '1', '2', '3', '4', '5', '6', '7', '8', '9']
}

pub open spec fn nonzero_digits() -> Seq<char> {
    seq!['1', '2', '3', '4', '5', '6', '7', '8', '9']
}

/// The number machine. The end of the text is fed to it as a newline.
pub open spec fn number_states() -> Seq<StateModel<NumberAction>> {
    seq![
        (true, seq![]),
        (
            false,
            seq![(all_digits(), NumberAction::FractionDigit, FP), (seq!['\n'], NumberAction::Skip, STOP)],
        ),
        (
            false,
            seq![
                (all_digits(), NumberAction::IntegerDigit, IP),
                (seq!['.'], NumberAction::Skip, FP),
                (seq!['\n'], NumberAction::Skip, STOP),
            ],
        ),
        (
            false,
            seq![
                (nonzero_digits(), NumberAction::FirstDigit, IP),
                (seq!['0'], NumberAction::Skip, LEADING_ZEROES),
                (seq!['.'], NumberAction::PointAfterZeros, FP),
                (seq!['\n'], NumberAction::AllZeros, STOP),
            ],
        ),
        (
            false,
            seq![
                (nonzero_digits(), NumberAction::FirstDigit, IP),
                (seq!['0'], NumberAction::ZeroAfterSign, LEADING_ZEROES),
                (seq!['.'], NumberAction::PointAfterSign, FP),
            ],
        ),
        (
            false,
            seq![
                (seq!['-'], NumberAction::Minus, SIGN_DONE),
                (nonzero_digits(), NumberAction::PlainFirstDigit, IP),
                (seq!['0'], NumberAction::PlainZero, LEADING_ZEROES),
                (seq!['.'], NumberAction::PlainPoint, FP),
            ],
        ),
    ]
}

/// A number taken apart so far, as plain data: sign, digits, fraction digits.
pub type Parts = (bool, Seq<char>, int);

/// The parts after `action` was performed on `c`.
pub open spec fn act(p: Parts, action: NumberAction, c: char) -> Parts {
    match action {
        NumberAction::Skip => p,
        NumberAction::FractionDigit => (p.0, p.1.push(c), p.2 + 1),
        NumberAction::IntegerDigit => (p.0, p.1.push(c), p.2),
        NumberAction::FirstDigit => (p.0, seq![c], 0),
        NumberAction::ZeroAfterSign => (p.0, p.1, 0),
        NumberAction::PointAfterZeros => (p.0, Seq::empty(), p.2),
        NumberAction::PointAfterSign => (p.0, Seq::empty(), 0),
        NumberAction::AllZeros => (false, seq!['0'], p.2),
        NumberAction::Minus => (true, p.1, p.2),
        NumberAction::PlainFirstDigit => (false, seq![c], 0),
        NumberAction::PlainZero => (false, p.1, 0),
        NumberAction::PlainPoint => (false, Seq::empty(), 0),
    }
}

/// State and parts after a whole text, read from the left; `None` where
/// the machine rejects a character.
pub open spec fn run(s: Seq<char>) -> Option<(usize, Parts)>
    decreases s.len(),
{
    if s.len() == 0 {
        Some((START, (false, Seq::empty(), 0)))
    } else {
        match run(s.drop_last()) {
            Some((state, p)) => if state < number_states().len() {
                match rule_hit(number_states()[state as int].1, s.last()) {
                    Some(hit) => Some((hit.1, act(p, hit.0, s.last()))),
                    None => None,
                }
            } else {
                None
            },
            None => None,
        }
    }
}

/// The parts of a number given by its decimal text; `None` where the text
/// is no number.
pub open spec fn decomposed(text: Seq<char>) -> Option<Parts> {
    match run(text.push('\n')) {
        Some((state, p)) => if state == STOP {
            Some(p)
        } else {
            None
        },
        None => None,
    }
}

pub open spec fn state_models(states: Seq<State<NumberAction>>) -> Seq<StateModel<NumberAction>> {
    Seq::new(states.len(), |i: int| states[i].model())
}

/// The number parser: the machine and what it has taken apart.
pub struct Parser {
    parse_result: ParsedF64,
    states: Vec<State<NumberAction>>,
}

fn chars_of_digits(with_zero: bool) -> (r: Vec<char>)
    ensures
        r@ == if with_zero {
            all_digits()
        } else {
            nonzero_digits()
        },
{
    if with_zero {
        let r = vec!['0', '1', '2', '3', '4', '5', '6', '7', '8', '9'];
        assert(r@ =~= all_digits());
        r
    } else {
        let r = vec!['1', '2', '3', '4', '5', '6', '7', '8', '9'];
        assert(r@ =~= nonzero_digits());
        r
    }
}

fn one(a: char) -> (r: Vec<char>)
    ensures
        r@ == seq![a],
{
    let r = vec![a];
    assert(r@ =~= seq![a]);
    r
}

fn rule(chars: Vec<char>, action: NumberAction, next: usize) -> (r: Rule<NumberAction>)
    ensures
        r.model() == (chars@, action, next),
{
    Rule::new(&chars, action, next)
}

fn state_of(name: &str, rules: Vec<Rule<NumberAction>>) -> (r: State<NumberAction>)
    ensures
        r.model() == (false, rule_models(rules@)),
{
    let mut state = State::new(name, false);
    state.set_rules(&rules);
    assert(state.model().1 =~= rule_models(rules@));
    state
}

impl Parser {
    /// Builds the number machine, state by state.
    fn init_states() -> (states: Vec<State<NumberAction>>)
        ensures
            state_models(states@) == number_states(),
    {
        let mut states: Vec<State<NumberAction>> = Vec::new();

        let stop: State<NumberAction> = State::new("FP", true);
        states.push(stop);

        let fp = state_of(
            "FP",
            vec![
                rule(chars_of_digits(true), NumberAction::FractionDigit, FP),
                rule(one('\n'), NumberAction::Skip, STOP),
            ],
        );
        states.push(fp);

        let ip = state_of(
            "IP",
            vec![
                rule(chars_of_digits(true), NumberAction::IntegerDigit, IP),
                rule(one('.'), NumberAction::Skip, FP),
                rule(one('\n'), NumberAction::Skip, STOP),
            ],
        );
        states.push(ip);

        let leading_zeroes = state_of(
            "LEADING_ZEROES",
            vec![
                rule(chars_of_digits(false), NumberAction::FirstDigit, IP),
                rule(one('0'), NumberAction::Skip, LEADING_ZEROES),
                rule(one('.'), NumberAction::PointAfterZeros, FP),
                rule(one('\n'), NumberAction::AllZeros, STOP),
            ],
        );
        states.push(leading_zeroes);

        let sign_done = state_of(
            "SIGN_DONE",
            vec![
                rule(chars_of_digits(false), NumberAction::FirstDigit, IP),
                rule(one('0'), NumberAction::ZeroAfterSign, LEADING_ZEROES),
                rule(one('.'), NumberAction::PointAfterSign, FP),
            ],
        );
        states.push(sign_done);

        let start = state_of(
            "START",
            vec![
                rule(one('-'), NumberAction::Minus, SIGN_DONE),
                rule(chars_of_digits(false), NumberAction::PlainFirstDigit, IP),
                rule(one('0'), NumberAction::PlainZero, LEADING_ZEROES),
                rule(one('.'), NumberAction::PlainPoint, FP),
            ],
        );
        states.push(start);

        proof {
            assert(states@[0].model().1 =~= number_states()[0].1);
            assert(states@[1].model().1 =~= number_states()[1].1);
            assert(states@[2].model().1 =~= number_states()[2].1);
            assert(states@[3].model().1 =~= number_states()[3].1);
            assert(states@[4].model().1 =~= number_states()[4].1);
            assert(states@[5].model().1 =~= number_states()[5].1);
        }
        assert(state_models(states@) =~= number_states());
        states
    }

    /// The invariant: the states are the number machine.
    pub closed spec fn wf(&self) -> bool {
        state_models(self.states@) == number_states()
    }

    pub fn new() -> (r: Parser)
        ensures
            r.wf(),
    {
        Parser { parse_result: ParsedF64::new(), states: Parser::init_states() }
    }

    spec fn parts(&self) -> Parts {
        (self.parse_result.is_negative, self.parse_result.digits@, self.parse_result.fractional_digits as int)
    }

    /// Performs one action of the machine.
    fn perform(&mut self, action: NumberAction, c: char)
        requires
            old(self).parts().2 < i32::MAX,
        ensures
            final(self).states == old(self).states,
            final(self).parts() == act(old(self).parts(), action, c),
    {
        match action {
            NumberAction::Skip => {},
            NumberAction::FractionDigit => {
                self.parse_result.digits.push(c);
                self.parse_result.fractional_digits += 1;
            },
            NumberAction::IntegerDigit => {
                self.parse_result.digits.push(c);
            },
            NumberAction::FirstDigit => {
                self.parse_result.digits = one(c);
                self.parse_result.fractional_digits = 0;
            },
            NumberAction::ZeroAfterSign => {
                self.parse_result.fractional_digits = 0;
            },
            NumberAction::PointAfterZeros => {
                self.parse_result.digits = Vec::new();
                assert(self.parse_result.digits@ =~= Seq::<char>::empty());
            },
            NumberAction::PointAfterSign => {
                self.parse_result.digits = Vec::new();
                self.parse_result.fractional_digits = 0;
                assert(self.parse_result.digits@ =~= Seq::<char>::empty());
            },
            NumberAction::AllZeros => {
                self.parse_result.digits = one('0');
                self.parse_result.is_negative = false;
            },
            NumberAction::Minus => {
                self.parse_result.is_negative = true;
            },
            NumberAction::PlainFirstDigit => {
                self.parse_result.is_negative = false;
                self.parse_result.digits = one(c);
                self.parse_result.fractional_digits = 0;
            },
            NumberAction::PlainZero => {
                self.parse_result.is_negative = false;
                self.parse_result.fractional_digits = 0;
            },
            NumberAction::PlainPoint => {
                self.parse_result.is_negative = false;
                self.parse_result.digits = Vec::new();
                self.parse_result.fractional_digits = 0;
                assert(self.parse_result.digits@ =~= Seq::<char>::empty());
            },
        }
    }

    /// Takes apart the decimal text of a number, as the standard rendering
    /// of a floating-point number gives it.
    pub fn parse(&mut self, text: &Vec<char>) -> (r: Result<ParsedF64, String>)
        requires
            old(self).wf(),
            text.len() < i32::MAX,
        ensures
            final(self).wf(),
            match decomposed(text@) {
                Some(p) => r is Ok && r->Ok_0.parts() == p,
                None => r is Err && r->Err_0@ == invalid_message(),
            },
    {
        self.parse_result = ParsedF64::new();
        assert(number_states().len() == 6);
        assert(state_models(self.states@).len() == self.states@.len());
        let mut current_state: usize = self.states.len() - 1;
        let mut i: usize = 0;
        let ghost full = text@.push('\n');
        assert(full.take(0) =~= Seq::<char>::empty());
        while i <= text.len()
            invariant
                i <= text.len() < i32::MAX,
                full == text@.push('\n'),
                self.wf(),
                current_state < self.states.len(),
                run(full.take(i as int)) == Some((current_state, self.parts())),
                0 <= self.parts().2 <= i,
            decreases text.len() + 1 - i,
        {
            let c = if i < text.len() {
                text[i]
            } else {
                '\n'
            };
            proof {
                assert(full.take(i as int + 1).drop_last() =~= full.take(i as int));
                assert(full.take(i as int + 1).last() == c);
                assert(state_models(self.states@)[current_state as int]
                    == self.states@[current_state as int].model());
                lemma_next_in_range(current_state, c);
            }
            let hit = match self.states[current_state].execute(c) {
                Ok(hit) => hit,
                Err(e) => {
                    proof {
                        lemma_run_stays_none(full, i as int + 1);
                    }
                    return Err(e);
                },
            };
            self.perform(hit.0, c);
            current_state = hit.1;
            if i == text.len() {
                assert(full.take(i as int + 1) =~= full);
                if current_state == STOP {
                    return Ok(self.parse_result.clone());
                } else {
                    return Err(String::from_str("Invalid format specification"));
                }
            }
            i += 1;
        }
        Err(String::from_str("Invalid format specification"))
    }
}

/// Every rule of the number machine leads to a state of the machine.
proof fn lemma_next_in_range(state: usize, c: char)
    requires
        state < number_states().len(),
    ensures
        rule_hit(number_states()[state as int].1, c) matches Some(hit) ==> hit.1 < number_states().len(),
{
    let rules = number_states()[state as int].1;
    lemma_hit_is_a_rule(rules, c);
    assert(number_states().len() == 6);
    if rule_hit(rules, c) is Some {
        let j = choose|j: int|
            0 <= j < rules.len() && rule_hit(rules, c) == Some((rules[j].1, rules[j].2));
        assert(rules[j].2 < 6);
    }
}

/// Once the machine has rejected a prefix, it rejects the whole text.
proof fn lemma_run_stays_none(s: Seq<char>, k: int)
    requires
        0 <= k <= s.len(),
        run(s.take(k)) is None,
    ensures
        run(s) is None,
    decreases s.len() - k,
{
    if k < s.len() {
        assert(s.take(k + 1).drop_last() =~= s.take(k));
        lemma_run_stays_none(s, k + 1);
    } else {
        assert(s.take(k) =~= s);
    }
}

} // verus!
