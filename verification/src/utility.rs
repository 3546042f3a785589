//! Small utilities: display escaping and a compact set of indices.

use vstd::prelude::*;
use crate::text::{chars_of, string_of};

verus! {

/// White space as `char::is_whitespace` knows it.
pub open spec fn is_white(c: char) -> bool {
    let u = c as u32;
    (0x09 <= u && u <= 0x0D) || u == 0x20 || u == 0x85 || u == 0xA0 || u == 0x1680 || (0x2000 <= u
        && u <= 0x200A) || u == 0x2028 || u == 0x2029 || u == 0x202F || u == 0x205F || u == 0x3000
}

/// The text without its trailing white space.
pub open spec fn trimmed_end(s: Seq<char>) -> Seq<char>
    decreases s.len(),
{
    if s.len() > 0 && is_white(s.last()) {
        trimmed_end(s.drop_last())
    } else {
        s
    }
}

/// How one character is shown on a single display line.
pub open spec fn escaped_char(c: char) -> Seq<char> {
    if c == '\r' {
        seq!['\\', 'r']
    } else if c == '\n' {
        seq!['\\', 'n']
    } else if c == '"' {
        seq!['"', '"']
    } else {
        seq![c]
    }
}

/// The display form of a text: each character escaped, in order.
pub open spec fn escaped(s: Seq<char>) -> Seq<char>
    decreases s.len(),
{
    if s.len() == 0 {
        Seq::empty()
    } else {
        escaped(s.drop_last()) + escaped_char(s.last())
    }
}

fn is_white_char(c: char) -> (r: bool)
    ensures
        r == is_white(c),
{
    let u: u32 = c as u32;
    (0x09 <= u && u <= 0x0D) || u == 0x20 || u == 0x85 || u == 0xA0 || u == 0x1680 || (0x2000 <= u
        && u <= 0x200A) || u == 0x2028 || u == 0x2029 || u == 0x202F || u == 0x205F || u == 0x3000
}

/// Prepares a text for display on one line: trailing white space is dropped,
/// carriage return and newline are spelled `\r` and `\n`, and a double quote
/// is doubled.
pub fn convert_escape_sequences(input_string: &str) -> (result: String)
    ensures
        result@ == escaped(trimmed_end(input_string@)),
{
    let v = chars_of(input_string);
    let mut end: usize = v.len();
    assert(v@.subrange(0, end as int) =~= v@);
    while end > 0 && is_white_char(v[end - 1])
        invariant
            end <= v.len(),
            trimmed_end(v@) == trimmed_end(v@.subrange(0, end as int)),
        decreases end,
    {
        proof {
            let s = v@.subrange(0, end as int);
            assert(s.drop_last() =~= v@.subrange(0, end as int - 1));
        }
        end -= 1;
    }
    let mut out: Vec<char> = Vec::new();
    let mut i: usize = 0;
    while i < end
        invariant
            i <= end <= v.len(),
            out@ == escaped(v@.subrange(0, i as int)),
        decreases end - i,
    {
        let c = v[i];
        proof {
            let s = v@.subrange(0, i as int + 1);
            assert(s.drop_last() =~= v@.subrange(0, i as int));
            assert(s.last() == c);
        }
        if c == '\r' {
            out.push('\\');
            out.push('r');
        } else if c == '\n' {
            out.push('\\');
            out.push('n');
        } else if c == '"' {
            out.push('"');
            out.push('"');
        } else {
            out.push(c);
        }
        i += 1;
        assert(out@ =~= escaped(v@.subrange(0, i as int)));
    }
    string_of(&out)
}


/// One run of consecutive indices, `first` to `last` inclusive.
#[derive(Clone, Copy, Debug)]
pub struct SetMember {
    first: usize,
    last: usize,
}

impl SetMember {
    pub closed spec fn spec_first(&self) -> usize {
        self.first
    }

    pub closed spec fn spec_last(&self) -> usize {
        self.last
    }

    pub fn get_first(&self) -> (r: usize)
        ensures
            r == self.spec_first(),
    {
        self.first
    }

    pub fn get_last(&self) -> (r: usize)
        ensures
            r == self.spec_last(),
    {
        self.last
    }

    pub fn is_in(&self, test_value: usize) -> (r: bool)
        ensures
            r == (self.spec_first() <= test_value <= self.spec_last()),
    {
        test_value >= self.first && test_value <= self.last
    }

    pub fn new(first: usize) -> (r: SetMember)
        ensures
            r.spec_first() == first,
            r.spec_last() == first,
    {
        SetMember { first: first, last: first }
    }

    pub fn set_first(&mut self, new_first: usize)
        ensures
            final(self).spec_first() == new_first,
            final(self).spec_last() == old(self).spec_last(),
    {
        self.first = new_first;
    }

    pub fn set_last(&mut self, new_last: usize)
        ensures
            final(self).spec_last() == new_last,
            final(self).spec_first() == old(self).spec_first(),
    {
        self.last = new_last;
    }
}

/// Whether the runs are well formed, in ascending order and pairwise apart.
pub open spec fn runs_ordered(m: Seq<SetMember>) -> bool {
    &&& forall|i: int| 0 <= i < m.len() ==> (#[trigger] m[i]).spec_first() <= m[i].spec_last()
    &&& forall|i: int| 0 <= i < m.len() ==> (#[trigger] m[i]).spec_last() < usize::MAX
    &&& forall|i: int, j: int|
        0 <= i < j < m.len() ==> (#[trigger] m[i]).spec_last() < (#[trigger] m[j]).spec_first()
}

/// Whether some run holds `x`.
pub open spec fn runs_hold(m: Seq<SetMember>, x: usize) -> bool {
    exists|i: int| 0 <= i < m.len() && (#[trigger] m[i]).spec_first() <= x <= m[i].spec_last()
}

/// A set of indices kept as runs of consecutive values, in ascending order.
///
/// Statements use it to remember which nodes they produced: a statement's
/// nodes mostly follow one another, so a handful of runs describes them.
#[derive(Debug)]
pub struct IndexSet {
    members: Vec<SetMember>,
}

/// A position inside an [`IndexSet`] that can be kept apart from the set,
/// to walk its values in ascending order.
#[derive(Clone, Copy, Debug)]
pub struct SetIterationToken {
    current_member_index: Option<usize>,
    next_value: Option<usize>,
}

impl SetIterationToken {
    pub closed spec fn spec_index(&self) -> Option<usize> {
        self.current_member_index
    }

    pub closed spec fn spec_next_value(&self) -> Option<usize> {
        self.next_value
    }

    pub fn get_current_member_index(&self) -> (r: Option<usize>)
        ensures
            r == self.spec_index(),
    {
        self.current_member_index
    }

    pub fn get_next_value(&self) -> (r: Option<usize>)
        ensures
            r == self.spec_next_value(),
    {
        self.next_value
    }

    pub fn new() -> (r: SetIterationToken)
        ensures
            r.spec_index() is None,
            r.spec_next_value() is None,
    {
        SetIterationToken { current_member_index: None, next_value: None }
    }

    pub fn set_current_member_index(&mut self, new_index: Option<usize>)
        ensures
            final(self).spec_index() == new_index,
            final(self).spec_next_value() == old(self).spec_next_value(),
    {
        self.current_member_index = new_index;
    }

    pub fn set_next_value(&mut self, new_value: Option<usize>)
        ensures
            final(self).spec_next_value() == new_value,
            final(self).spec_index() == old(self).spec_index(),
    {
        self.next_value = new_value;
    }
}

impl IndexSet {
    /// The runs, in order.
    pub closed spec fn runs(&self) -> Seq<SetMember> {
        self.members@
    }

    /// The invariant: runs are non-empty, ascending and disjoint, and leave
    /// room above the largest value.
    pub open spec fn wf(&self) -> bool {
        runs_ordered(self.runs())
    }

    /// The values held.
    pub open spec fn view(&self) -> Set<usize> {
        Set::new(|x: usize| runs_hold(self.runs(), x))
    }

    /// Nothing below this bound is still to come from a walk with `token`.
    pub open spec fn floor(&self, token: SetIterationToken) -> int {
        match token.spec_index() {
            None => 0,
            Some(i) => if i < self.runs().len() {
                match token.spec_next_value() {
                    Some(v) => v as int,
                    None => 0,
                }
            } else {
                usize::MAX as int + 1
            },
        }
    }

    /// Whether `token` is a position of a walk over this set.
    pub open spec fn token_fits(&self, token: SetIterationToken) -> bool {
        match token.spec_index() {
            None => true,
            Some(i) => i < self.runs().len() ==> (token.spec_next_value() matches Some(v)
                && self.runs()[i as int].spec_first() <= v <= self.runs()[i as int].spec_last() + 1),
        }
    }

    pub fn new() -> (r: IndexSet)
        ensures
            r.wf(),
            r@ == Set::<usize>::empty(),
    {
        let r = IndexSet { members: Vec::new() };
        assert(r@ =~= Set::<usize>::empty());
        r
    }

    pub fn new_with_elem(initial_member: usize) -> (r: IndexSet)
        requires
            initial_member < usize::MAX,
        ensures
            r.wf(),
            r@ == Set::<usize>::empty().insert(initial_member),
    {
        let r = IndexSet { members: vec![SetMember::new(initial_member)] };
        assert(r@ =~= Set::<usize>::empty().insert(initial_member)) by {
            assert(r.runs()[0].spec_first() == initial_member);
            assert forall|x: usize| r@.contains(x) == (x == initial_member) by {
                if x == initial_member {
                    assert(runs_hold(r.runs(), x));
                }
            }
        }
        r
    }

    pub fn as_members(&self) -> (r: &Vec<SetMember>)
        ensures
            r@ == self.runs(),
    {
        &self.members
    }

    pub fn clear(&mut self)
        ensures
            final(self).wf(),
            final(self)@ == Set::<usize>::empty(),
    {
        self.members.clear();
        assert(self@ =~= Set::<usize>::empty());
    }

    pub fn is_empty(&self) -> (r: bool)
        requires
            self.wf(),
        ensures
            r == (self@ == Set::<usize>::empty()),
    {
        let r = self.members.len() == 0;
        proof {
            if r {
                assert(self@ =~= Set::<usize>::empty());
            } else {
                let x = self.runs()[0].spec_first();
                assert(runs_hold(self.runs(), x));
                assert(self@.contains(x));
            }
        }
        r
    }

    /// The next value of a walk in ascending order: the least value of the
    /// set that is not below the token's bound. The token then stands just
    /// behind that value; when nothing is left it stands behind everything.
    pub fn next(&self, token: &mut SetIterationToken) -> (r: Option<usize>)
        requires
            self.wf(),
            self.token_fits(*old(token)),
        ensures
            self.token_fits(*final(token)),
            match r {
                Some(v) => {
                    &&& self@.contains(v)
                    &&& self.floor(*old(token)) <= v
                    &&& forall|x: usize| self@.contains(x) && self.floor(*old(token)) <= x ==> v <= x
                    &&& self.floor(*final(token)) == v + 1
                },
                None => {
                    &&& forall|x: usize| self@.contains(x) ==> x < self.floor(*old(token))
                    &&& self.floor(*final(token)) == usize::MAX + 1
                },
            },
    {
        let ghost runs = self.runs();
        match token.get_current_member_index() {
            Some(index) => {
                if index >= self.members.len() {
                    assert forall|x: usize| self@.contains(x) implies x < self.floor(*old(token)) by {}
                    return None;
                }
                let next_value = token.get_next_value().unwrap();
                if next_value > self.members[index].get_last() {
                    token.set_current_member_index(Some(index + 1));
                    if index + 1 >= self.members.len() {
                        assert forall|x: usize| self@.contains(x) implies x < next_value by {
                            let i = choose|i: int|
                                0 <= i < runs.len() && (#[trigger] runs[i]).spec_first() <= x
                                    <= runs[i].spec_last();
                            if i < index {
                                assert(runs[i].spec_last() < runs[index as int].spec_first());
                            }
                        }
                        return None;
                    }
                    let current_value = self.members[index + 1].get_first();
                    token.set_next_value(Some(current_value + 1));
                    proof {
                        assert(runs[index as int].spec_last() < runs[index + 1].spec_first());
                        assert(runs_hold(runs, current_value));
                        assert forall|x: usize| self@.contains(x) && next_value <= x implies current_value
                            <= x by {
                            let i = choose|i: int|
                                0 <= i < runs.len() && (#[trigger] runs[i]).spec_first() <= x
                                    <= runs[i].spec_last();
                            if i < index {
                                assert(runs[i].spec_last() < runs[index as int].spec_first());
                            } else if i > index + 1 {
                                assert(runs[index + 1].spec_last() < runs[i].spec_first());
                            }
                        }
                    }
                    return Some(current_value);
                } else {
                    let current_value = next_value;
                    token.set_next_value(Some(current_value + 1));
                    proof {
                        assert(runs_hold(runs, current_value));
                    }
                    return Some(current_value);
                }
            },
            None => {
                token.set_current_member_index(Some(0));
                if self.members.len() > 0 {
                    let current_value = self.members[0].get_first();
                    token.set_next_value(Some(current_value + 1));
                    proof {
                        assert(runs_hold(runs, current_value));
                        assert forall|x: usize| self@.contains(x) implies current_value <= x by {
                            let i = choose|i: int|
                                0 <= i < runs.len() && (#[trigger] runs[i]).spec_first() <= x
                                    <= runs[i].spec_last();
                            if i > 0 {
                                assert(runs[0].spec_last() < runs[i].spec_first());
                            }
                        }
                    }
                    return Some(current_value);
                } else {
                    assert forall|x: usize| self@.contains(x) implies x < 0 by {}
                    return None;
                }
            },
        }
    }

    /// Steps a walk back by one value, so that the value handed out last
    /// comes again. A walk that has not started, or that stands before the
    /// least value, cannot step back. A walk that stands behind everything
    /// only has its next value set to the greatest value of the set.
    pub fn repeat(&self, token: &mut SetIterationToken)
        requires
            self.wf(),
            self.token_fits(*old(token)),
            old(token).spec_index() is Some,
            self.runs().len() > 0,
            !(old(token).spec_index() == Some(0usize) && self.floor(*old(token))
                == self.runs()[0].spec_first()),
        ensures
            final(token).spec_next_value() is Some,
            self@.contains(final(token).spec_next_value()->0),
            forall|x: usize|
                self@.contains(x) && x < self.floor(*old(token)) ==> x <= final(token).spec_next_value()->0,
            final(token).spec_next_value()->0 < self.floor(*old(token)),
            old(token).spec_index()->0 >= self.runs().len() ==> final(token).spec_index() == old(token).spec_index(),
            old(token).spec_index()->0 < self.runs().len() ==> self.token_fits(*final(token))
                && self.floor(*final(token)) == final(token).spec_next_value()->0,
    {
        let ghost runs = self.runs();
        let index = token.get_current_member_index().unwrap();
        if index >= self.members.len() {
            let last_index = self.members.len() - 1;
            let v = self.members[last_index].get_last();
            token.set_next_value(Some(v));
            proof {
                assert(runs_hold(runs, v));
                assert forall|x: usize| self@.contains(x) implies x <= v by {
                    let i = choose|i: int|
                        0 <= i < runs.len() && (#[trigger] runs[i]).spec_first() <= x
                            <= runs[i].spec_last();
                    if i < last_index {
                        assert(runs[i].spec_last() < runs[last_index as int].spec_first());
                    }
                }
            }
        } else if token.get_next_value().unwrap() > self.members[index].get_first() {
            let v = token.get_next_value().unwrap() - 1;
            token.set_next_value(Some(v));
            proof {
                assert(runs[index as int].spec_first() <= v <= runs[index as int].spec_last());
                assert(runs_hold(runs, v));
            }
        } else {
            token.set_current_member_index(Some(index - 1));
            let v = self.members[index - 1].get_last();
            token.set_next_value(Some(v));
            proof {
                assert(runs_hold(runs, v));
                assert(runs[index - 1].spec_last() < runs[index as int].spec_first());
                assert forall|x: usize| self@.contains(x) && x < self.floor(*old(token)) implies x
                    <= v by {
                    let i = choose|i: int|
                        0 <= i < runs.len() && (#[trigger] runs[i]).spec_first() <= x
                            <= runs[i].spec_last();
                    if i > index {
                        assert(runs[index as int].spec_last() < runs[i].spec_first());
                    } else if i < index - 1 {
                        assert(runs[i].spec_last() < runs[index - 1].spec_first());
                    }
                }
            }
        }
    }

    /// The least value of a set that is not empty.
    pub fn least(&self) -> (r: usize)
        requires
            self.wf(),
            self.runs().len() > 0,
        ensures
            self@.contains(r),
            forall|x: usize| self@.contains(x) ==> r <= x,
            r == self.runs()[0].spec_first(),
    {
        let r = self.members[0].get_first();
        proof {
            let runs = self.runs();
            assert(runs_hold(runs, r));
            assert forall|x: usize| self@.contains(x) implies r <= x by {
                let i = choose|i: int|
                    0 <= i < runs.len() && (#[trigger] runs[i]).spec_first() <= x <= runs[i].spec_last();
                if i > 0 {
                    assert(runs[0].spec_last() < runs[i].spec_first());
                }
            }
        }
        r
    }

    /// The greatest value of a set that is not empty.
    pub fn greatest(&self) -> (r: usize)
        requires
            self.wf(),
            self.runs().len() > 0,
        ensures
            self@.contains(r),
            forall|x: usize| self@.contains(x) ==> x <= r,
            r == self.runs().last().spec_last(),
    {
        let n = self.members.len();
        let r = self.members[n - 1].get_last();
        proof {
            let runs = self.runs();
            assert(runs_hold(runs, r));
            assert forall|x: usize| self@.contains(x) implies x <= r by {
                let i = choose|i: int|
                    0 <= i < runs.len() && (#[trigger] runs[i]).spec_first() <= x <= runs[i].spec_last();
                if i < n - 1 {
                    assert(runs[i].spec_last() < runs[n - 1].spec_first());
                }
            }
        }
        r
    }

    /// How many runs the set is kept as.
    pub fn run_count(&self) -> (r: usize)
        ensures
            r == self.runs().len(),
    {
        self.members.len()
    }

    /// Whether `test_value` is in the set, found by bisection over the runs.
    pub fn contains(&self, test_value: usize) -> (r: bool)
        requires
            self.wf(),
        ensures
            r == self@.contains(test_value),
    {
        let mut low: usize = 0;
        let mut high: usize = self.members.len();
        while low < high
            invariant
                self.wf(),
                low <= high <= self.members.len(),
                forall|i: int| 0 <= i < low ==> (#[trigger] self.runs()[i]).spec_last() < test_value,
                forall|i: int|
                    high <= i < self.runs().len() ==> test_value < (#[trigger] self.runs()[i]).spec_first(),
            decreases high - low,
        {
            let target: usize = low + (high - low) / 2;
            let m = self.members[target];
            if test_value >= m.get_first() && test_value <= m.get_last() {
                assert(runs_hold(self.runs(), test_value));
                return true;
            }
            if test_value < m.get_first() {
                high = target;
            } else {
                low = target + 1;
            }
        }
        false
    }

    /// Puts `new_member` into the set. A value next to an existing run
    /// lengthens that run; any other value starts a run of its own.
    pub fn add(&mut self, new_member: usize)
        requires
            old(self).wf(),
            !old(self)@.contains(new_member),
            new_member < usize::MAX,
        ensures
            final(self).wf(),
            final(self)@ == old(self)@.insert(new_member),
    {
        let mut low: usize = 0;
        let mut high: usize = self.members.len();
        while low < high
            invariant
                self.wf(),
                new_member < usize::MAX,
                !old(self)@.contains(new_member),
                self.runs() == old(self).runs(),
                low <= high <= self.members.len(),
                forall|i: int| 0 <= i < low ==> (#[trigger] self.runs()[i]).spec_last() < new_member,
                forall|i: int|
                    high <= i < self.runs().len() ==> new_member < (#[trigger] self.runs()[i]).spec_first(),
            decreases high - low,
        {
            let target: usize = low + (high - low) / 2;
            let m = self.members[target];
            proof {
                if m.spec_first() <= new_member <= m.spec_last() {
                    assert(runs_hold(old(self).runs(), new_member));
                }
            }
            if new_member + 1 == m.get_first() {
                let mut changed = m;
                changed.set_first(new_member);
                self.members.set(target, changed);
                proof {
                    let before = old(self).runs();
                    let after = self.runs();
                    assert forall|i: int, j: int| 0 <= i < j < after.len() implies (
                    #[trigger] after[i]).spec_last() < (#[trigger] after[j]).spec_first() by {
                        if j == target {
                            assert(before[i].spec_last() < before[j].spec_first());
                            if before[i].spec_last() == new_member {
                                assert(runs_hold(before, new_member));
                            }
                        } else {
                            assert(before[i].spec_last() < before[j].spec_first());
                        }
                    }
                    assert forall|x: usize| self@.contains(x) == old(self)@.insert(
                        new_member,
                    ).contains(x) by {
                        if runs_hold(after, x) {
                            let i = choose|i: int|
                                0 <= i < after.len() && (#[trigger] after[i]).spec_first() <= x
                                    <= after[i].spec_last();
                            if x != new_member {
                                assert(before[i].spec_first() <= x <= before[i].spec_last());
                            }
                        }
                        if runs_hold(before, x) {
                            let i = choose|i: int|
                                0 <= i < before.len() && (#[trigger] before[i]).spec_first() <= x
                                    <= before[i].spec_last();
                            assert(after[i].spec_first() <= x <= after[i].spec_last());
                        }
                        if x == new_member {
                            assert(after[target as int].spec_first() <= x <= after[target as int].spec_last());
                        }
                    }
                    assert(self@ =~= old(self)@.insert(new_member));
                }
                return ;
            }
            if new_member > 0 && new_member - 1 == m.get_last() {
                let mut changed = m;
                changed.set_last(new_member);
                self.members.set(target, changed);
                proof {
                    let before = old(self).runs();
                    let after = self.runs();
                    assert forall|i: int, j: int| 0 <= i < j < after.len() implies (
                    #[trigger] after[i]).spec_last() < (#[trigger] after[j]).spec_first() by {
                        if i == target {
                            assert(before[i].spec_last() < before[j].spec_first());
                            if before[j].spec_first() == new_member {
                                assert(runs_hold(before, new_member));
                            }
                        } else {
                            assert(before[i].spec_last() < before[j].spec_first());
                        }
                    }
                    assert forall|x: usize| self@.contains(x) == old(self)@.insert(
                        new_member,
                    ).contains(x) by {
                        if runs_hold(after, x) {
                            let i = choose|i: int|
                                0 <= i < after.len() && (#[trigger] after[i]).spec_first() <= x
                                    <= after[i].spec_last();
                            if x != new_member {
                                assert(before[i].spec_first() <= x <= before[i].spec_last());
                            }
                        }
                        if runs_hold(before, x) {
                            let i = choose|i: int|
                                0 <= i < before.len() && (#[trigger] before[i]).spec_first() <= x
                                    <= before[i].spec_last();
                            assert(after[i].spec_first() <= x <= after[i].spec_last());
                        }
                        if x == new_member {
                            assert(after[target as int].spec_first() <= x <= after[target as int].spec_last());
                        }
                    }
                    assert(self@ =~= old(self)@.insert(new_member));
                }
                return ;
            }
            if new_member < m.get_first() {
                high = target;
            } else {
                low = target + 1;
            }
        }
        let insertion_point: usize = high;
        self.members.insert(insertion_point, SetMember::new(new_member));
        proof {
            let before = old(self).runs();
            let after = self.runs();
            let p = insertion_point as int;
            assert forall|i: int, j: int| 0 <= i < j < after.len() implies (#[trigger] after[i]).spec_last()
                < (#[trigger] after[j]).spec_first() by {
                if i < p && j > p {
                    assert(after[i] == before[i]);
                    assert(after[j] == before[j - 1]);
                } else if i == p {
                    assert(after[j] == before[j - 1]);
                } else if j == p {
                    assert(after[i] == before[i]);
                } else if j < p {
                    assert(after[i] == before[i] && after[j] == before[j]);
                } else {
                    assert(after[i] == before[i - 1] && after[j] == before[j - 1]);
                }
            }
            assert forall|i: int| 0 <= i < after.len() implies (#[trigger] after[i]).spec_first()
                <= after[i].spec_last() && after[i].spec_last() < usize::MAX by {
                if i < p {
                    assert(after[i] == before[i]);
                } else if i > p {
                    assert(after[i] == before[i - 1]);
                }
            }
            assert forall|x: usize| self@.contains(x) == old(self)@.insert(new_member).contains(
                x,
            ) by {
                if runs_hold(after, x) {
                    let i = choose|i: int|
                        0 <= i < after.len() && (#[trigger] after[i]).spec_first() <= x
                            <= after[i].spec_last();
                    if i < p {
                        assert(before[i].spec_first() <= x <= before[i].spec_last());
                    } else if i > p {
                        assert(before[i - 1].spec_first() <= x <= before[i - 1].spec_last());
                    }
                }
                if runs_hold(before, x) {
                    let i = choose|i: int|
                        0 <= i < before.len() && (#[trigger] before[i]).spec_first() <= x
                            <= before[i].spec_last();
                    if i < p {
                        assert(after[i].spec_first() <= x <= after[i].spec_last());
                    } else {
                        assert(after[i + 1].spec_first() <= x <= after[i + 1].spec_last());
                    }
                }
                if x == new_member {
                    assert(after[p].spec_first() <= x <= after[p].spec_last());
                }
            }
            assert(self@ =~= old(self)@.insert(new_member));
        }
    }
}

impl Clone for IndexSet {
    fn clone(&self) -> (r: Self)
        ensures
            r.runs() == self.runs(),
    {
        let mut members: Vec<SetMember> = Vec::new();
        let mut i: usize = 0;
        while i < self.members.len()
            invariant
                i <= self.members.len(),
                members@ == self.members@.subrange(0, i as int),
            decreases self.members.len() - i,
        {
            members.push(self.members[i]);
            i += 1;
            assert(members@ =~= self.members@.subrange(0, i as int));
        }
        assert(self.members@.subrange(0, self.members.len() as int) =~= self.members@);
        IndexSet { members: members }
    }
}

} // verus!
