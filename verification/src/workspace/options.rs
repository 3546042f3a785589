//! Switches that can be set and cleared by name.

use vstd::prelude::*;
use crate::text::{append_chars, chars_of, string_of};

verus! {

/// A kind of switch: a handful of named values.
pub trait OptionKey: Copy + Sized {
    /// All the switches of this kind, in the order in which they are shown.
    spec fn all() -> Seq<Self>;

    /// The name of the switch.
    spec fn label(self) -> Seq<char>;

    /// The switch that a text names; `None` if it names none.
    spec fn named(text: Seq<char>) -> Option<Self>;

    /// Whether two switches are the same.
    fn same(&self, other: &Self) -> (r: bool)
        ensures
            r == (*self == *other),
    ;

    /// The name of the switch.
    fn to_text(&self) -> (r: String)
        ensures
            r@ == self.label(),
    ;

    /// The switch that a text names. Letters match whatever their case.
    fn from_text(text: &str) -> (r: Result<Self, String>)
        ensures
            match Self::named(text@) {
                Some(k) => r == Ok::<Self, String>(k),
                None => r is Err && r->Err_0@ == no_variant_message(),
            },
    ;

    /// All the switches of this kind.
    fn every() -> (r: Vec<Self>)
        ensures
            r@ == Self::all(),
    ;
}

/// The message for a text that names no switch.
pub open spec fn no_variant_message() -> Seq<char> {
    "Matching variant not found"@
}

/// The setting of a switch among recorded settings: that of the entry
/// for it that stands last; `None` if there is no entry for it.
pub open spec fn setting_of<T>(entries: Seq<(T, bool)>, option: T) -> Option<bool>
    decreases entries.len(),
{
    if entries.len() == 0 {
        None
    } else if entries.last().0 == option {
        Some(entries.last().1)
    } else {
        setting_of(entries.drop_last(), option)
    }
}

/// Whether there is an entry for a switch among recorded settings.
pub open spec fn has_entry<T>(entries: Seq<(T, bool)>, option: T) -> bool {
    exists|i: int| 0 <= i < entries.len() && (#[trigger] entries[i]).0 == option
}

/// Where the entry for a switch stands among recorded settings.
pub open spec fn entry_of<T>(entries: Seq<(T, bool)>, option: T) -> int {
    choose|i: int| 0 <= i < entries.len() && (#[trigger] entries[i]).0 == option
}

/// The recorded settings when a setting of a switch has been recorded:
/// it stands in the place of the entry for the switch, or behind all
/// entries where there was none.
pub open spec fn recorded<T>(entries: Seq<(T, bool)>, option: T, setting: bool) -> Seq<(T, bool)> {
    if has_entry(entries, option) {
        entries.update(entry_of(entries, option), (option, setting))
    } else {
        entries.push((option, setting))
    }
}

/// The recorded settings when one setting has been recorded for each
/// of the given switches, in their order.
pub open spec fn recorded_all<T>(entries: Seq<(T, bool)>, options: Seq<T>, setting: bool) -> Seq<(T, bool)>
    decreases options.len(),
{
    if options.len() == 0 {
        entries
    } else {
        recorded(recorded_all(entries, options.drop_last(), setting), options.last(), setting)
    }
}

/// A switch has a setting exactly if there is an entry for it, and
/// then it is shown.
pub proof fn law_a_switch_with_a_setting_is_recorded<T>(entries: Seq<(T, bool)>, option: T)
    ensures
        setting_of(entries, option) is Some <==> has_entry(entries, option),
    decreases entries.len(),
{
    if entries.len() > 0 {
        let rest = entries.drop_last();
        law_a_switch_with_a_setting_is_recorded(rest, option);
        if entries.last().0 == option {
            assert(entries[entries.len() - 1].0 == option);
        } else {
            if has_entry(rest, option) {
                let i = choose|i: int| 0 <= i < rest.len() && (#[trigger] rest[i]).0 == option;
                assert(entries[i].0 == option);
            }
            if has_entry(entries, option) {
                let i = choose|i: int| 0 <= i < entries.len() && (#[trigger] entries[i]).0 == option;
                assert(rest[i].0 == option);
            }
        }
    }
}

/// How the settings are shown: one line for each, the name, a dash, and
/// `ON` or `OFF`.
pub open spec fn shown<T: OptionKey>(entries: Seq<(T, bool)>) -> Seq<char>
    decreases entries.len(),
{
    if entries.len() == 0 {
        Seq::empty()
    } else {
        let line = entries.last().0.label() + seq![' ', '-', ' '] + if entries.last().1 {
            seq!['O', 'N']
        } else {
            seq!['O', 'F', 'F']
        };
        if entries.len() == 1 {
            line
        } else {
            shown(entries.drop_last()) + seq!['\n'] + line
        }
    }
}

/// A set of named switches. A switch that was never set or cleared is off.
pub struct Options<T> {
    options: Vec<(T, bool)>,
}

impl<T: OptionKey> Options<T> {
    /// The recorded settings, one for each switch that was ever set or
    /// cleared, in the order in which the switches first came.
    pub closed spec fn entries(&self) -> Seq<(T, bool)> {
        self.options@
    }

    /// The invariant: no switch has two entries.
    pub open spec fn wf(&self) -> bool {
        forall|i: int, j: int|
            0 <= i < j < self.entries().len() ==> (#[trigger] self.entries()[i]).0 != (
            #[trigger] self.entries()[j]).0
    }

    /// Whether a switch is on.
    pub open spec fn on(&self, option: T) -> bool {
        setting_of(self.entries(), option) == Some(true)
    }

    fn put(&mut self, option: T, setting: bool)
        requires
            old(self).wf(),
        ensures
            final(self).wf(),
            final(self).entries() == recorded(old(self).entries(), option, setting),
            setting_of(final(self).entries(), option) == Some(setting),
            forall|other: T|
                other != option ==> setting_of(final(self).entries(), other) == setting_of(
                    old(self).entries(),
                    other,
                ),
            final(self).entries().len() >= old(self).entries().len(),
    {
        let mut i: usize = 0;
        while i < self.options.len()
            invariant
                i <= self.options.len(),
                self.wf(),
                self.options@ == old(self).options@,
                forall|k: int| 0 <= k < i ==> (#[trigger] self.options@[k]).0 != option,
            decreases self.options.len() - i,
        {
            if self.options[i].0.same(&option) {
                let ghost before = self.options@;
                proof {
                    assert forall|a: int, b: int| 0 <= a < b < before.len() implies (
                    #[trigger] before[a]).0 != (#[trigger] before[b]).0 by {
                        assert(self.entries()[a].0 != self.entries()[b].0);
                    }
                }
                self.options.set(i, (option, setting));
                proof {
                    assert(has_entry(before, option)) by {
                        assert(before[i as int].0 == option);
                    }
                    assert(entry_of(before, option) == i) by {
                        let j = entry_of(before, option);
                        if j < i {
                            assert(before[j].0 != before[i as int].0);
                        } else if i < j {
                            assert(before[i as int].0 != before[j].0);
                        }
                    }
                    lemma_setting_update(before, i as int, option, setting);
                    assert forall|a: int, b: int| 0 <= a < b < self.options@.len() implies (
                    #[trigger] self.options@[a]).0 != (#[trigger] self.options@[b]).0 by {
                        assert(before[a].0 != before[b].0);
                    }
                }
                return ;
            }
            i += 1;
        }
        let ghost before = self.options@;
        proof {
            assert forall|a: int, b: int| 0 <= a < b < before.len() implies (#[trigger] before[a]).0 != (
            #[trigger] before[b]).0 by {
                assert(self.entries()[a].0 != self.entries()[b].0);
            }
        }
        self.options.push((option, setting));
        proof {
            assert(!has_entry(before, option));
            assert(self.options@.drop_last() =~= before);
            assert forall|a: int, b: int| 0 <= a < b < self.options@.len() implies (
            #[trigger] self.options@[a]).0 != (#[trigger] self.options@[b]).0 by {
                if b < before.len() {
                    assert(before[a].0 != before[b].0);
                } else {
                    assert(self.options@[a] == before[a]);
                }
            }
        }
    }

    pub fn clear(&mut self, option: T)
        requires
            old(self).wf(),
        ensures
            final(self).wf(),
            !final(self).on(option),
            forall|other: T| other != option ==> final(self).on(other) == old(self).on(other),
            final(self).entries() == recorded(old(self).entries(), option, false),
            setting_of(final(self).entries(), option) == Some(false),
            forall|other: T|
                other != option ==> setting_of(final(self).entries(), other) == setting_of(
                    old(self).entries(),
                    other,
                ),
    {
        self.put(option, false);
    }

    pub fn clear_str(&mut self, option: &str) -> (r: Result<(), String>)
        requires
            old(self).wf(),
        ensures
            final(self).wf(),
            match T::named(option@) {
                Some(k) => r is Ok && !final(self).on(k) && (forall|other: T|
                    other != k ==> final(self).on(other) == old(self).on(other)) && final(self).entries()
                    == recorded(old(self).entries(), k, false) && setting_of(final(self).entries(), k) == Some(false)
                    && (forall|other: T|
                    other != k ==> setting_of(final(self).entries(), other) == setting_of(
                        old(self).entries(),
                        other,
                    )),
                None => r is Err && r->Err_0@ == no_variant_message() && final(self).entries() == old(self).entries(),
            },
    {
        match T::from_text(option) {
            Ok(k) => {
                self.put(k, false);
                Ok(())
            },
            Err(e) => Err(e),
        }
    }

    /// Records every given switch as off: each of them is then known
    /// and shown, whatever it was before, and every other switch is as
    /// it was.
    pub fn init(&mut self, all: &Vec<T>)
        requires
            old(self).wf(),
        ensures
            final(self).wf(),
            final(self).entries() == recorded_all(old(self).entries(), all@, false),
            forall|k: int| 0 <= k < all@.len() ==> !final(self).on(#[trigger] all@[k]),
            forall|k: int| 0 <= k < all@.len() ==> setting_of(final(self).entries(), #[trigger] all@[k]) == Some(false),
            forall|k: int| 0 <= k < all@.len() ==> has_entry(final(self).entries(), #[trigger] all@[k]),
            forall|other: T| !all@.contains(other) ==> final(self).on(other) == old(self).on(other),
            forall|other: T|
                !all@.contains(other) ==> setting_of(final(self).entries(), other) == setting_of(
                    old(self).entries(),
                    other,
                ),
    {
        let mut i: usize = 0;
        assert(all@.take(0) =~= Seq::<T>::empty());
        while i < all.len()
            invariant
                i <= all.len(),
                self.wf(),
                self.entries() == recorded_all(old(self).entries(), all@.take(i as int), false),
                forall|k: int| 0 <= k < i ==> setting_of(self.entries(), #[trigger] all@[k]) == Some(false),
                forall|other: T|
                    !all@.contains(other) ==> setting_of(self.entries(), other) == setting_of(
                        old(self).entries(),
                        other,
                    ),
            decreases all.len() - i,
        {
            let ghost before = *self;
            self.put(all[i], false);
            proof {
                assert(all@.contains(all@[i as int]));
                assert(all@.take(i as int + 1).drop_last() =~= all@.take(i as int));
                assert(all@.take(i as int + 1).last() == all@[i as int]);
                assert forall|k: int| 0 <= k < i + 1 implies setting_of(self.entries(), #[trigger] all@[k]) == Some(
                    false,
                ) by {
                    if all@[k] != all@[i as int] {
                        assert(setting_of(before.entries(), all@[k]) == Some(false));
                    }
                }
            }
            i += 1;
        }
        assert(all@.take(all@.len() as int) =~= all@);
        proof {
            assert forall|k: int| 0 <= k < all@.len() implies has_entry(self.entries(), #[trigger] all@[k]) by {
                law_a_switch_with_a_setting_is_recorded(self.entries(), all@[k]);
            }
        }
    }

    pub fn is_set(&self, option: &T) -> (r: bool)
        requires
            self.wf(),
        ensures
            r == self.on(*option),
    {
        let mut i: usize = self.options.len();
        assert(self.options@.take(i as int) =~= self.options@);
        while i > 0
            invariant
                i <= self.options.len(),
                setting_of(self.options@, *option) == setting_of(self.options@.take(i as int), *option),
            decreases i,
        {
            i -= 1;
            proof {
                let t = self.options@.take(i as int + 1);
                assert(t.last() == self.options@[i as int]);
                assert(t.drop_last() =~= self.options@.take(i as int));
            }
            if self.options[i].0.same(option) {
                return self.options[i].1;
            }
        }
        false
    }

    pub fn is_set_str(&self, option: &str) -> (r: Result<bool, String>)
        requires
            self.wf(),
        ensures
            match T::named(option@) {
                Some(k) => r == Ok::<bool, String>(self.on(k)),
                None => r is Err && r->Err_0@ == no_variant_message(),
            },
    {
        match T::from_text(option) {
            Ok(k) => Ok(self.is_set(&k)),
            Err(e) => Err(e),
        }
    }

    pub fn new() -> (r: Options<T>)
        ensures
            r.wf(),
            r.entries().len() == 0,
            forall|option: T| !r.on(option),
    {
        Options { options: Vec::new() }
    }

    pub fn set(&mut self, option: T)
        requires
            old(self).wf(),
        ensures
            final(self).wf(),
            final(self).on(option),
            forall|other: T| other != option ==> final(self).on(other) == old(self).on(other),
            final(self).entries() == recorded(old(self).entries(), option, true),
            forall|other: T|
                other != option ==> setting_of(final(self).entries(), other) == setting_of(
                    old(self).entries(),
                    other,
                ),
    {
        self.put(option, true);
    }

    pub fn set_str(&mut self, option: &str) -> (r: Result<(), String>)
        requires
            old(self).wf(),
        ensures
            final(self).wf(),
            match T::named(option@) {
                Some(k) => r is Ok && final(self).on(k) && (forall|other: T|
                    other != k ==> final(self).on(other) == old(self).on(other)) && final(self).entries()
                    == recorded(old(self).entries(), k, true) && (forall|other: T|
                    other != k ==> setting_of(final(self).entries(), other) == setting_of(
                        old(self).entries(),
                        other,
                    )),
                None => r is Err && r->Err_0@ == no_variant_message() && final(self).entries() == old(self).entries(),
            },
    {
        match T::from_text(option) {
            Ok(k) => {
                self.put(k, true);
                Ok(())
            },
            Err(e) => Err(e),
        }
    }

    /// The settings as text, one line for each recorded switch.
    pub fn show(&self) -> (r: String)
        ensures
            r@ == shown(self.entries()),
    {
        let mut out: Vec<char> = Vec::new();
        let mut i: usize = 0;
        assert(self.options@.take(0) =~= Seq::<(T, bool)>::empty());
        while i < self.options.len()
            invariant
                i <= self.options.len(),
                out@ == shown(self.options@.take(i as int)),
            decreases self.options.len() - i,
        {
            proof {
                let t = self.options@.take(i as int + 1);
                assert(t.last() == self.options@[i as int]);
                assert(t.drop_last() =~= self.options@.take(i as int));
            }
            let ghost before = out@;
            if i > 0 {
                out.push('\n');
            }
            let label = self.options[i].0.to_text();
            append_chars(&mut out, &chars_of(label.as_str()));
            out.push(' ');
            out.push('-');
            out.push(' ');
            out.push('O');
            if self.options[i].1 {
                out.push('N');
            } else {
                out.push('F');
                out.push('F');
            }
            i += 1;
            assert(out@ =~= shown(self.options@.take(i as int)));
        }
        assert(self.options@.take(self.options.len() as int) =~= self.options@);
        string_of(&out)
    }
}

/// Replacing the one entry of a switch replaces its setting and no other.
proof fn lemma_setting_update<T>(entries: Seq<(T, bool)>, i: int, option: T, setting: bool)
    requires
        0 <= i < entries.len(),
        entries[i].0 == option,
        forall|a: int, b: int|
            0 <= a < b < entries.len() ==> (#[trigger] entries[a]).0 != (#[trigger] entries[b]).0,
    ensures
        setting_of(entries.update(i, (option, setting)), option) == Some(setting),
        forall|other: T|
            other != option ==> setting_of(entries.update(i, (option, setting)), other) == setting_of(
                entries,
                other,
            ),
    decreases entries.len(),
{
    let after = entries.update(i, (option, setting));
    if i == entries.len() - 1 {
        assert(after.drop_last() =~= entries.drop_last());
        assert(after.last() == (option, setting));
        assert forall|other: T| other != option implies setting_of(after, other) == setting_of(
            entries,
            other,
        ) by {
            assert(setting_of(after, other) == setting_of(after.drop_last(), other));
            assert(setting_of(entries, other) == setting_of(entries.drop_last(), other));
        }
    } else {
        assert(after.last() == entries.last());
        assert(after.drop_last() =~= entries.drop_last().update(i, (option, setting)));
        assert(entries.last().0 != option);
        assert forall|a: int, b: int| 0 <= a < b < entries.drop_last().len() implies (
        #[trigger] entries.drop_last()[a]).0 != (#[trigger] entries.drop_last()[b]).0 by {
            assert(entries.drop_last()[a] == entries[a]);
            assert(entries.drop_last()[b] == entries[b]);
        }
        lemma_setting_update(entries.drop_last(), i, option, setting);
        assert forall|other: T| other != option implies setting_of(after, other) == setting_of(
            entries,
            other,
        ) by {
            if entries.last().0 != other {
                assert(setting_of(after, other) == setting_of(after.drop_last(), other));
                assert(setting_of(entries, other) == setting_of(entries.drop_last(), other));
            }
        }
    }
}

} // verus!
