//! The parser of format specifications such as `e3z1d.2d`: an optional
//! exponent letter, counts of zero-suppressed and of plain integer digits,
//! and behind a decimal point the counts of plain and of zero-suppressed
//! fraction digits; or `ff` for free format.

use vstd::prelude::*;
use crate::text::{digit_of, digit_value, is_digit, is_digit_char};
use super::state_machine::{invalid_message, rule_hit, rule_models, Rule, RuleModel, State, StateModel};
use super::{FormatControl, FormatType};

verus! {

/// What a rule of the format machine does with the character it matched.
#[derive(Clone, Copy, Debug, PartialEq, Eq, Structural)]
pub enum FormatAction {
    /// Nothing.
    Skip,
    /// Selects free format.
    SelectFree,
    /// Selects double precision and keeps the character as exponent letter.
    SelectDouble,
    /// Selects single precision and keeps the character as exponent letter.
    SelectReal,
    /// Starts a count with the digit.
    FirstDigit,
    /// Appends the digit to the count.
    NextDigit,
    /// The count is the number of zero-suppressed integer digits.
    IntegerZeroSuppression,
    /// The count is the number of plain integer digits.
    IntegerDigits,
    /// A decimal point is asked for.
    DecimalPoint,
    /// The count is the number of plain fraction digits.
    FractionDigits,
    /// The count is the number of zero-suppressed fraction digits.
    FractionZeroSuppression,
}

/// How far a format specification has been read.
pub struct Progress {
    pub state: usize,
    pub kind: FormatType,
    pub control: FormatControl,
    pub number: usize,
}

pub open spec fn digits() -> Seq<char> {
    seq!['0', '1', '2', '3', '4', '5', '6', '7', '8', '9']
}

pub const STOP: usize = 0;

pub const IS_FULL: usize = 1;

pub const CHECKING_FULL: usize = 2;

pub const Z_DONE2: usize = 3;

pub const CHECKING_Z2: usize = 4;

pub const D_DONE2: usize = 5;

pub const CHECKING_D2: usize = 6;

pub const DECIMAL: usize = 7;

pub const D_DONE: usize = 8;

pub const CHECKING_D: usize = 9;

pub const Z_DONE: usize = 10;

pub const EDNUM: usize = 11;

pub const CHECKING_ED: usize = 12;

pub const START_STATE: usize = 13;

/// The format machine: for each state whether a specification may end in
/// it, and its rules in the order in which they are tried.
pub open spec fn format_states() -> Seq<StateModel<FormatAction>> {
    seq![
        (true, seq![]),
        (true, seq![]),
        (false, seq![(seq!['f', 'F'], FormatAction::SelectFree, IS_FULL)]),
        (true, seq![]),
        (
            false,
            seq![
                (digits(), FormatAction::NextDigit, CHECKING_Z2),
                (seq!['z', 'Z'], FormatAction::FractionZeroSuppression, Z_DONE2),
            ],
        ),
        (true, seq![(digits(), FormatAction::FirstDigit, CHECKING_Z2)]),
        (
            false,
            seq![
                (digits(), FormatAction::NextDigit, CHECKING_D2),
                (seq!['d', 'D'], FormatAction::FractionDigits, D_DONE2),
                (seq!['z', 'Z'], FormatAction::FractionZeroSuppression, Z_DONE2),
            ],
        ),
        (true, seq![(digits(), FormatAction::FirstDigit, CHECKING_D2)]),
        (true, seq![(seq!['.'], FormatAction::DecimalPoint, DECIMAL)]),
        (
            false,
            seq![
                (digits(), FormatAction::NextDigit, CHECKING_D),
                (seq!['d', 'D'], FormatAction::IntegerDigits, D_DONE),
                (seq!['.'], FormatAction::DecimalPoint, DECIMAL),
            ],
        ),
        (
            true,
            seq![
                (digits(), FormatAction::FirstDigit, CHECKING_D),
                (seq!['.'], FormatAction::DecimalPoint, DECIMAL),
            ],
        ),
        (
            false,
            seq![
                (digits(), FormatAction::NextDigit, EDNUM),
                (seq!['z', 'Z'], FormatAction::IntegerZeroSuppression, Z_DONE),
                (seq!['d', 'D'], FormatAction::IntegerDigits, D_DONE),
            ],
        ),
        (
            true,
            seq![
                (digits(), FormatAction::FirstDigit, EDNUM),
                (seq!['.'], FormatAction::DecimalPoint, DECIMAL),
            ],
        ),
        (
            false,
            seq![
                (seq!['f', 'F'], FormatAction::Skip, CHECKING_FULL),
                (seq!['d', 'D'], FormatAction::SelectDouble, CHECKING_ED),
                (seq!['e', 'E'], FormatAction::SelectReal, CHECKING_ED),
                (digits(), FormatAction::FirstDigit, EDNUM),
                (seq!['.'], FormatAction::DecimalPoint, DECIMAL),
            ],
        ),
    ]
}

/// The progress after `action` was performed on `c`; `None` where the
/// action needs a digit and `c` is none, or a count outgrows the machine word.
pub open spec fn act(p: Progress, action: FormatAction, c: char, next: usize) -> Option<Progress> {
    let ctl = p.control;
    match action {
        FormatAction::Skip => Some(Progress { state: next, ..p }),
        FormatAction::SelectFree => Some(Progress { state: next, kind: FormatType::Free, ..p }),
        FormatAction::SelectDouble => Some(
            Progress {
                state: next,
                kind: FormatType::Double(FormatControl::blank()),
                control: FormatControl { exponent_symbol: Some(c), ..ctl },
                ..p
            },
        ),
        FormatAction::SelectReal => Some(
            Progress {
                state: next,
                kind: FormatType::Real(FormatControl::blank()),
                control: FormatControl { exponent_symbol: Some(c), ..ctl },
                ..p
            },
        ),
        FormatAction::FirstDigit => if is_digit(c) {
            Some(Progress { state: next, number: digit_of(c) as usize, ..p })
        } else {
            None
        },
        FormatAction::NextDigit => if is_digit(c) && p.number * 10 + digit_of(c) <= usize::MAX {
            Some(Progress { state: next, number: (p.number * 10 + digit_of(c)) as usize, ..p })
        } else {
            None
        },
        FormatAction::IntegerZeroSuppression => Some(
            Progress {
                state: next,
                control: FormatControl { integer_zero_suppression_digits: p.number, ..ctl },
                ..p
            },
        ),
        FormatAction::IntegerDigits => Some(
            Progress {
                state: next,
                control: FormatControl { integer_non_suppressed_digits: p.number, ..ctl },
                ..p
            },
        ),
        FormatAction::DecimalPoint => Some(
            Progress { state: next, control: FormatControl { decimal_required: true, ..ctl }, ..p },
        ),
        FormatAction::FractionDigits => Some(
            Progress {
                state: next,
                control: FormatControl { fractional_non_suppressed_digits: p.number, ..ctl },
                ..p
            },
        ),
        FormatAction::FractionZeroSuppression => Some(
            Progress {
                state: next,
                control: FormatControl { fractional_zero_suppressed_digits: p.number, ..ctl },
                ..p
            },
        ),
    }
}

/// The progress after one more character; `None` where the machine rejects it.
pub open spec fn feed(table: Seq<StateModel<FormatAction>>, p: Progress, c: char) -> Option<Progress> {
    if p.state < table.len() {
        match rule_hit(table[p.state as int].1, c) {
            Some(hit) => act(p, hit.0, c, hit.1),
            None => None,
        }
    } else {
        None
    }
}

/// The progress after a whole text, read from the left.
pub open spec fn run(table: Seq<StateModel<FormatAction>>, p: Progress, s: Seq<char>) -> Option<Progress>
    decreases s.len(),
{
    if s.len() == 0 {
        Some(p)
    } else {
        match run(table, p, s.drop_last()) {
            Some(q) => feed(table, q, s.last()),
            None => None,
        }
    }
}

/// Where reading starts.
pub open spec fn start() -> Progress {
    Progress {
        state: START_STATE,
        kind: FormatType::Default(FormatControl::blank()),
        control: FormatControl::blank(),
        number: 0,
    }
}

/// What a format specification means; `None` where it is not one.
pub open spec fn parsed(s: Seq<char>) -> Option<FormatType> {
    match run(format_states(), start(), s) {
        Some(p) => if p.state < format_states().len() && format_states()[p.state as int].0 {
            Some(
                match p.kind {
                    FormatType::Default(_) => FormatType::Default(p.control),
                    FormatType::FixedPoint(_) => FormatType::FixedPoint(p.control),
                    FormatType::Real(_) => FormatType::Real(p.control),
                    FormatType::Double(_) => FormatType::Double(p.control),
                    FormatType::Free => FormatType::Free,
                },
            )
        } else {
            None
        },
        None => None,
    }
}

/// The models of a list of states.
pub open spec fn state_models(states: Seq<State<FormatAction>>) -> Seq<StateModel<FormatAction>> {
    Seq::new(states.len(), |i: int| states[i].model())
}

/// The parser of format specifications: the machine and what it has read.
pub struct Parser {
    format_type: FormatType,
    format_control: FormatControl,
    states: Vec<State<FormatAction>>,
    number: usize,
}

fn digit_chars() -> (r: Vec<char>)
    ensures
        r@ == digits(),
{
    let r = vec!['0', '1', '2', '3', '4', '5', '6', '7', '8', '9'];
    assert(r@ =~= digits());
    r
}

fn pair(a: char, b: char) -> (r: Vec<char>)
    ensures
        r@ == seq![a, b],
{
    let r = vec![a, b];
    assert(r@ =~= seq![a, b]);
    r
}

fn single(a: char) -> (r: Vec<char>)
    ensures
        r@ == seq![a],
{
    let r = vec![a];
    assert(r@ =~= seq![a]);
    r
}

fn state_with(name: &str, is_stoppable: bool, rules: Vec<Rule<FormatAction>>) -> (r: State<
    FormatAction,
>)
    ensures
        r.model() == (is_stoppable, rule_models(rules@)),
{
    let mut state = State::new(name, is_stoppable);
    state.set_rules(&rules);
    assert(state.model().1 =~= rule_models(rules@));
    state
}

fn rules1(a: Rule<FormatAction>) -> (r: Vec<Rule<FormatAction>>)
    ensures
        rule_models(r@) == seq![a.model()],
{
    let r = vec![a];
    assert(rule_models(r@) =~= seq![a.model()]);
    r
}

fn rules2(a: Rule<FormatAction>, b: Rule<FormatAction>) -> (r: Vec<Rule<FormatAction>>)
    ensures
        rule_models(r@) == seq![a.model(), b.model()],
{
    let r = vec![a, b];
    assert(rule_models(r@) =~= seq![a.model(), b.model()]);
    r
}

fn rules3(a: Rule<FormatAction>, b: Rule<FormatAction>, c: Rule<FormatAction>) -> (r: Vec<
    Rule<FormatAction>,
>)
    ensures
        rule_models(r@) == seq![a.model(), b.model(), c.model()],
{
    let r = vec![a, b, c];
    assert(rule_models(r@) =~= seq![a.model(), b.model(), c.model()]);
    r
}

fn rules5(
    a: Rule<FormatAction>,
    b: Rule<FormatAction>,
    c: Rule<FormatAction>,
    d: Rule<FormatAction>,
    e: Rule<FormatAction>,
) -> (r: Vec<Rule<FormatAction>>)
    ensures
        rule_models(r@) == seq![a.model(), b.model(), c.model(), d.model(), e.model()],
{
    let r = vec![a, b, c, d, e];
    assert(rule_models(r@) =~= seq![a.model(), b.model(), c.model(), d.model(), e.model()]);
    r
}

impl Parser {
    /// Builds the format machine, state by state.
    fn init_states() -> (states: Vec<State<FormatAction>>)
        ensures
            state_models(states@) == format_states(),
    {
        let mut states: Vec<State<FormatAction>> = Vec::new();

        let stop = state_with("STOP", true, Vec::new());
        states.push(stop);

        let is_full = state_with("IS_FULL", true, Vec::new());
        states.push(is_full);

        let checking_full = state_with(
            "CHECKING_FULL",
            false,
            rules1(Rule::new(&pair('f', 'F'), FormatAction::SelectFree, IS_FULL)),
        );
        states.push(checking_full);

        let z_done2 = state_with("Z_DONE2", true, Vec::new());
        states.push(z_done2);

        let checking_z2 = state_with(
            "CHECKING_Z2",
            false,
            rules2(
                Rule::new(&digit_chars(), FormatAction::NextDigit, CHECKING_Z2),
                Rule::new(&pair('z', 'Z'), FormatAction::FractionZeroSuppression, Z_DONE2),
            ),
        );
        states.push(checking_z2);

        let d_done2 = state_with(
            "D_DONE",
            true,
            rules1(Rule::new(&digit_chars(), FormatAction::FirstDigit, CHECKING_Z2)),
        );
        states.push(d_done2);

        let checking_d2 = state_with(
            "CHECKING_D2",
            false,
            rules3(
                Rule::new(&digit_chars(), FormatAction::NextDigit, CHECKING_D2),
                Rule::new(&pair('d', 'D'), FormatAction::FractionDigits, D_DONE2),
                Rule::new(&pair('z', 'Z'), FormatAction::FractionZeroSuppression, Z_DONE2),
            ),
        );
        states.push(checking_d2);

        let decimal = state_with(
            "DECIMAL",
            true,
            rules1(Rule::new(&digit_chars(), FormatAction::FirstDigit, CHECKING_D2)),
        );
        states.push(decimal);

        let d_done = state_with(
            "D_DONE",
            true,
            rules1(Rule::new(&single('.'), FormatAction::DecimalPoint, DECIMAL)),
        );
        states.push(d_done);

        let checking_d = state_with(
            "CHECKING_D",
            false,
            rules3(
                Rule::new(&digit_chars(), FormatAction::NextDigit, CHECKING_D),
                Rule::new(&pair('d', 'D'), FormatAction::IntegerDigits, D_DONE),
                Rule::new(&single('.'), FormatAction::DecimalPoint, DECIMAL),
            ),
        );
        states.push(checking_d);

        let z_done = state_with(
            "Z_DONE",
            true,
            rules2(
                Rule::new(&digit_chars(), FormatAction::FirstDigit, CHECKING_D),
                Rule::new(&single('.'), FormatAction::DecimalPoint, DECIMAL),
            ),
        );
        states.push(z_done);

        let ednum = state_with(
            "EDNUM",
            false,
            rules3(
                Rule::new(&digit_chars(), FormatAction::NextDigit, EDNUM),
                Rule::new(&pair('z', 'Z'), FormatAction::IntegerZeroSuppression, Z_DONE),
                Rule::new(&pair('d', 'D'), FormatAction::IntegerDigits, D_DONE),
            ),
        );
        states.push(ednum);

        let checking_ed = state_with(
            "CHECKING_ED",
            true,
            rules2(
                Rule::new(&digit_chars(), FormatAction::FirstDigit, EDNUM),
                Rule::new(&single('.'), FormatAction::DecimalPoint, DECIMAL),
            ),
        );
        states.push(checking_ed);

        let start_rules = rules5(
            Rule::new(&pair('f', 'F'), FormatAction::Skip, CHECKING_FULL),
            Rule::new(&pair('d', 'D'), FormatAction::SelectDouble, CHECKING_ED),
            Rule::new(&pair('e', 'E'), FormatAction::SelectReal, CHECKING_ED),
            Rule::new(&digit_chars(), FormatAction::FirstDigit, EDNUM),
            Rule::new(&single('.'), FormatAction::DecimalPoint, DECIMAL),
        );
        let start_state = state_with("START_STATE", false, start_rules);
        states.push(start_state);

        proof {
            assert(states@[0].model().1 =~= format_states()[0].1);
            assert(states@[1].model().1 =~= format_states()[1].1);
            assert(states@[2].model().1 =~= format_states()[2].1);
            assert(states@[3].model().1 =~= format_states()[3].1);
            assert(states@[4].model().1 =~= format_states()[4].1);
            assert(states@[5].model().1 =~= format_states()[5].1);
            assert(states@[6].model().1 =~= format_states()[6].1);
            assert(states@[7].model().1 =~= format_states()[7].1);
            assert(states@[8].model().1 =~= format_states()[8].1);
            assert(states@[9].model().1 =~= format_states()[9].1);
            assert(states@[10].model().1 =~= format_states()[10].1);
            assert(states@[11].model().1 =~= format_states()[11].1);
            assert(states@[12].model().1 =~= format_states()[12].1);
            assert(states@[13].model().1 =~= format_states()[13].1);
        }
        assert(state_models(states@) =~= format_states());
        states
    }

    /// The invariant: the states are the format machine.
    pub closed spec fn wf(&self) -> bool {
        state_models(self.states@) == format_states()
    }

    pub fn new() -> (r: Parser)
        ensures
            r.wf(),
    {
        Parser {
            format_type: FormatType::Default(FormatControl::new()),
            format_control: FormatControl::new(),
            states: Parser::init_states(),
            number: 0,
        }
    }

    spec fn progress(&self, state: usize) -> Progress {
        Progress {
            state: state,
            kind: self.format_type,
            control: self.format_control,
            number: self.number,
        }
    }

    /// Performs one action of the machine on the character that selected it.
    fn perform(&mut self, action: FormatAction, c: char, state: usize, next: usize) -> (r: Result<
        (),
        String,
    >)
        ensures
            final(self).states == old(self).states,
            match act(old(self).progress(state), action, c, next) {
                Some(q) => r is Ok && q == final(self).progress(next),
                None => r is Err && r->Err_0@ == invalid_message(),
            },
    {
        match action {
            FormatAction::Skip => {},
            FormatAction::SelectFree => {
                self.format_type = FormatType::Free;
            },
            FormatAction::SelectDouble => {
                self.format_type = FormatType::Double(FormatControl::new());
                self.format_control.exponent_symbol = Some(c);
            },
            FormatAction::SelectReal => {
                self.format_type = FormatType::Real(FormatControl::new());
                self.format_control.exponent_symbol = Some(c);
            },
            FormatAction::FirstDigit => {
                if !is_digit_char(c) {
                    return Err(String::from_str("Invalid format specification"));
                }
                self.number = digit_value(c) as usize;
            },
            FormatAction::NextDigit => {
                if !is_digit_char(c) {
                    return Err(String::from_str("Invalid format specification"));
                }
                let d = digit_value(c) as usize;
                if self.number > (usize::MAX - d) / 10 {
                    return Err(String::from_str("Invalid format specification"));
                }
                self.number = self.number * 10 + d;
            },
            FormatAction::IntegerZeroSuppression => {
                self.format_control.integer_zero_suppression_digits = self.number;
            },
            FormatAction::IntegerDigits => {
                self.format_control.integer_non_suppressed_digits = self.number;
            },
            FormatAction::DecimalPoint => {
                self.format_control.decimal_required = true;
            },
            FormatAction::FractionDigits => {
                self.format_control.fractional_non_suppressed_digits = self.number;
            },
            FormatAction::FractionZeroSuppression => {
                self.format_control.fractional_zero_suppressed_digits = self.number;
            },
        }
        Ok(())
    }

    /// Reads a format specification.
    pub fn parse(&mut self, s: &Vec<char>) -> (r: Result<FormatType, String>)
        requires
            old(self).wf(),
        ensures
            final(self).wf(),
            match parsed(s@) {
                Some(t) => r == Ok::<FormatType, String>(t),
                None => r is Err && r->Err_0@ == invalid_message(),
            },
    {
        self.format_type = FormatType::Default(FormatControl::new());
        self.format_control = FormatControl::new();
        self.number = 0;
        let mut current_state: usize = self.states.len() - 1;
        let mut i: usize = 0;
        assert(s@.take(0) =~= Seq::<char>::empty());
        while i < s.len()
            invariant
                i <= s.len(),
                self.wf(),
                current_state < self.states.len(),
                run(format_states(), start(), s@.take(i as int)) == Some(self.progress(current_state)),
            decreases s.len() - i,
        {
            let c = s[i];
            proof {
                assert(s@.take(i as int + 1).drop_last() =~= s@.take(i as int));
                assert(s@.take(i as int + 1).last() == c);
                assert(state_models(self.states@)[current_state as int]
                    == self.states@[current_state as int].model());
                lemma_next_in_range(current_state, c);
            }
            let hit = match self.states[current_state].execute(c) {
                Ok(hit) => hit,
                Err(e) => {
                    proof {
                        lemma_run_stays_none(format_states(), start(), s@, i as int + 1);
                    }
                    return Err(e);
                },
            };
            match self.perform(hit.0, c, current_state, hit.1) {
                Ok(()) => {},
                Err(e) => {
                    proof {
                        lemma_run_stays_none(format_states(), start(), s@, i as int + 1);
                    }
                    return Err(e);
                },
            }
            current_state = hit.1;
            i += 1;
        }
        assert(s@.take(s.len() as int) =~= s@);
        assert(state_models(self.states@)[current_state as int]
            == self.states@[current_state as int].model());
        if self.states[current_state].is_stoppable {
            match self.format_type {
                FormatType::Default(_) => Ok(FormatType::Default(self.format_control)),
                FormatType::FixedPoint(_) => Ok(FormatType::FixedPoint(self.format_control)),
                FormatType::Real(_) => Ok(FormatType::Real(self.format_control)),
                FormatType::Double(_) => Ok(FormatType::Double(self.format_control)),
                FormatType::Free => Ok(FormatType::Free),
            }
        } else {
            Err(String::from_str("Invalid format specification"))
        }
    }
}

/// Every rule of the format machine leads to a state of the machine.
proof fn lemma_next_in_range(state: usize, c: char)
    requires
        state < format_states().len(),
    ensures
        rule_hit(format_states()[state as int].1, c) matches Some(hit) ==> hit.1 < format_states().len(),
{
    let rules = format_states()[state as int].1;
    lemma_hit_is_a_rule(rules, c);
    assert(format_states().len() == 14);
    if rule_hit(rules, c) is Some {
        let j = choose|j: int|
            0 <= j < rules.len() && rule_hit(rules, c) == Some((rules[j].1, rules[j].2));
        assert(rules[j].2 < 14);
    }
}

/// What `rule_hit` finds comes from one of the rules.
pub proof fn lemma_hit_is_a_rule<A>(rules: Seq<RuleModel<A>>, c: char)
    ensures
        rule_hit(rules, c) is Some ==> exists|j: int|
            0 <= j < rules.len() && rule_hit(rules, c) == Some((#[trigger] rules[j].1, rules[j].2)),
    decreases rules.len(),
{
    if rules.len() > 0 {
        if rules[0].0.contains(c) {
            assert(rule_hit(rules, c) == Some((rules[0].1, rules[0].2)));
        } else {
            lemma_hit_is_a_rule(rules.drop_first(), c);
            if rule_hit(rules, c) is Some {
                let rest = rules.drop_first();
                let j = choose|j: int|
                    0 <= j < rest.len() && rule_hit(rest, c) == Some((#[trigger] rest[j].1, rest[j].2));
                assert(rules[j + 1] == rest[j]);
                assert(rule_hit(rules, c) == Some((rules[j + 1].1, rules[j + 1].2)));
            }
        }
    }
}

/// Once the machine has rejected a prefix, it rejects the whole text.
pub proof fn lemma_run_stays_none(
    table: Seq<StateModel<FormatAction>>,
    p: Progress,
    s: Seq<char>,
    k: int,
)
    requires
        0 <= k <= s.len(),
        run(table, p, s.take(k)) is None,
    ensures
        run(table, p, s) is None,
    decreases s.len() - k,
{
    if k < s.len() {
        assert(s.take(k + 1).drop_last() =~= s.take(k));
        lemma_run_stays_none(table, p, s, k + 1);
    } else {
        assert(s.take(k) =~= s);
    }
}

} // verus!
