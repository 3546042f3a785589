//! A table-driven state machine over characters. A state is a list of
//! rules; the first rule that lists the character at hand names the action
//! to perform and the state to go to.

use vstd::prelude::*;

verus! {

/// One rule of a state: the characters it answers to, what to do, and the
/// index of the state that follows.
#[derive(Debug)]
pub struct Rule<A> {
    pub matching_characters: Vec<char>,
    pub action: A,
    pub next_state: usize,
}

/// A rule as plain data: its characters, its action, its next state.
pub type RuleModel<A> = (Seq<char>, A, usize);

/// A state as plain data: whether input may end here, and its rules.
pub type StateModel<A> = (bool, Seq<RuleModel<A>>);

impl<A: Copy> Rule<A> {
    pub open spec fn model(&self) -> RuleModel<A> {
        (self.matching_characters@, self.action, self.next_state)
    }

    pub fn new(matching_characters: &Vec<char>, action: A, next_state: usize) -> (r: Rule<A>)
        ensures
            r.model() == (matching_characters@, action, next_state),
    {
        Rule { matching_characters: copy_chars(matching_characters), action: action, next_state: next_state }
    }
}

impl<A: Copy> Clone for Rule<A> {
    fn clone(&self) -> (r: Self)
        ensures
            r.model() == self.model(),
    {
        Rule::new(&self.matching_characters, self.action, self.next_state)
    }
}

fn copy_chars(v: &Vec<char>) -> (r: Vec<char>)
    ensures
        r@ == v@,
{
    let mut r: Vec<char> = Vec::new();
    let mut i: usize = 0;
    while i < v.len()
        invariant
            i <= v.len(),
            r@ == v@.subrange(0, i as int),
        decreases v.len() - i,
    {
        r.push(v[i]);
        i += 1;
        assert(r@ =~= v@.subrange(0, i as int));
    }
    assert(v@.subrange(0, v.len() as int) =~= v@);
    r
}

/// The models of a list of rules.
pub open spec fn rule_models<A: Copy>(rules: Seq<Rule<A>>) -> Seq<RuleModel<A>> {
    Seq::new(rules.len(), |i: int| rules[i].model())
}

/// What the first rule that lists `c` asks for, if there is one.
pub open spec fn rule_hit<A>(rules: Seq<RuleModel<A>>, c: char) -> Option<(A, usize)>
    decreases rules.len(),
{
    if rules.len() == 0 {
        None
    } else if rules[0].0.contains(c) {
        Some((rules[0].1, rules[0].2))
    } else {
        rule_hit(rules.drop_first(), c)
    }
}

/// The message for a character that no rule of the state lists, and for
/// input that ends where it may not.
pub open spec fn invalid_message() -> Seq<char> {
    "Invalid format specification"@
}

#[derive(Debug)]
pub struct State<A> {
    pub name: String,
    pub rules: Vec<Rule<A>>,
    pub is_stoppable: bool,
}

impl<A: Copy> State<A> {
    pub open spec fn model(&self) -> StateModel<A> {
        (self.is_stoppable, rule_models(self.rules@))
    }

    /// Finds the first rule that lists `c` and hands back its action and
    /// next state; fails when no rule does.
    #[verifier::loop_isolation(false)]
    pub fn execute(&self, c: char) -> (r: Result<(A, usize), String>)
        ensures
            match rule_hit(self.model().1, c) {
                Some(hit) => r == Ok::<(A, usize), String>(hit),
                None => r is Err && r->Err_0@ == invalid_message(),
            },
    {
        let ghost all = rule_models(self.rules@);
        let mut i: usize = 0;
        assert(all.skip(0) =~= all);
        while i < self.rules.len()
            invariant
                i <= self.rules.len(),
                all == rule_models(self.rules@),
                rule_hit(all, c) == rule_hit(all.skip(i as int), c),
            decreases self.rules.len() - i,
        {
            let rule = &self.rules[i];
            let mut k: usize = 0;
            while k < rule.matching_characters.len()
                invariant
                    k <= rule.matching_characters.len(),
                    forall|j: int| 0 <= j < k ==> rule.matching_characters@[j] != c,
                decreases rule.matching_characters.len() - k,
            {
                if rule.matching_characters[k] == c {
                    proof {
                        assert(all.skip(i as int)[0] == rule.model());
                        assert(rule.matching_characters@.contains(c));
                    }
                    return Ok((rule.action, rule.next_state));
                }
                k += 1;
            }
            proof {
                assert(all.skip(i as int)[0] == rule.model());
                assert(!rule.matching_characters@.contains(c));
                assert(all.skip(i as int).drop_first() =~= all.skip(i as int + 1));
            }
            i += 1;
        }
        Err(String::from_str("Invalid format specification"))
    }

    pub fn new(name: &str, is_stoppable: bool) -> (r: State<A>)
        ensures
            r.name@ == name@,
            r.model() == (is_stoppable, Seq::<RuleModel<A>>::empty()),
    {
        let r = State { name: String::from_str(name), rules: Vec::new(), is_stoppable: is_stoppable };
        assert(rule_models(r.rules@) =~= Seq::<RuleModel<A>>::empty());
        r
    }

    /// Adds the given rules, in order, behind those the state has.
    #[verifier::loop_isolation(false)]
    pub fn set_rules(&mut self, rules: &Vec<Rule<A>>)
        ensures
            final(self).name == old(self).name,
            final(self).model() == (old(self).is_stoppable, old(self).model().1 + rule_models(rules@)),
    {
        let mut i: usize = 0;
        assert(rule_models(self.rules@) =~= rule_models(old(self).rules@) + rule_models(
            rules@.subrange(0, 0),
        ));
        while i < rules.len()
            invariant
                i <= rules.len(),
                self.name == old(self).name,
                self.is_stoppable == old(self).is_stoppable,
                rule_models(self.rules@) == rule_models(old(self).rules@) + rule_models(
                    rules@.subrange(0, i as int),
                ),
            decreases rules.len() - i,
        {
            let ghost before = self.rules@;
            let copy = rules[i].clone();
            self.rules.push(copy);
            i += 1;
            proof {
                let a = rule_models(self.rules@);
                let b = rule_models(old(self).rules@) + rule_models(rules@.subrange(0, i as int));
                assert(a.len() == b.len());
                assert forall|k: int| 0 <= k < a.len() implies a[k] == b[k] by {
                    if k < before.len() {
                        assert(self.rules@[k] == before[k]);
                        assert(rule_models(before)[k] == before[k].model());
                    } else {
                        assert(rules@.subrange(0, i as int)[i - 1] == rules@[i - 1]);
                    }
                }
            }
            assert(rule_models(self.rules@) =~= rule_models(old(self).rules@) + rule_models(
                rules@.subrange(0, i as int),
            ));
        }
        assert(rules@.subrange(0, rules.len() as int) =~= rules@);
    }
}

} // verus!
