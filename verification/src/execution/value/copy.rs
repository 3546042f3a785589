//! Copies of values.
//!
//! A value that is given to a variable is copied: the copy of a sequence
//! or a structure is made of cells of its own, each with a copy of what
//! the cell of the original holds. A cell that holds a reference to
//! another cell is not copied: the copy shares its envelope.

use vstd::prelude::*;
use super::{Store, Value, lemma_alike_cells};

verus! {

/// Whether a value is another but for its cells: of the same kind, the
/// same datatype and bounds, with as many cells and fields, each field
/// with the same name and datatype.
pub open spec fn reshaped(v: Value, r: Value) -> bool {
    match (v, r) {
        (Value::Sequence(a), Value::Sequence(b)) => {
            &&& a.datatype() == b.datatype()
            &&& a.lower() == b.lower()
            &&& a.upper() == b.upper()
            &&& a.cells().len() == b.cells().len()
        },
        (Value::Structure(a), Value::Structure(b)) => {
            &&& a.datatype() == b.datatype()
            &&& a.members().len() == b.members().len()
            &&& forall|i: int|
                0 <= i < a.members().len() ==> (#[trigger] a.members()[i]).name@ == b.members()[i].name@
                    && a.members()[i].datatype@ == b.members()[i].datatype@
        },
        _ => !(v is Sequence) && !(v is Structure) && r.alike(v),
    }
}

/// Whether `r`, in the store `to`, is a copy of `v`, in the store
/// `of`, made since there were `from` cells: the same but for its
/// cells, and each cell a copy of the cell of `v` in its place. Cells
/// within cells are compared `fuel` deep.
pub open spec fn copies(of: &Store, to: &Store, from: nat, v: Value, r: Value, fuel: nat) -> bool
    decreases fuel, 1nat,
{
    &&& reshaped(v, r)
    &&& (v is Sequence || v is Structure) ==> forall|i: int|
        0 <= i < v.cells().len() ==> cell_copies(of, to, from, #[trigger] v.cells()[i], r.cells()[i], fuel)
}

/// Whether the cell `d`, in the store `to`, is a copy of the cell `c`,
/// in the store `of`, made since there were `from` cells: it shares the
/// envelope of `c` where `c` holds a reference to a cell, and else it
/// has an envelope that `of` has not, with a copy of what `c` holds.
/// Where the fuel is used up, the copy is empty.
pub open spec fn cell_copies(of: &Store, to: &Store, from: nat, c: usize, d: usize, fuel: nat) -> bool
    decreases fuel, 0nat,
{
    &&& c < of.cells().len()
    &&& from <= d < to.cells().len()
    &&& if of.value_at(c) is ValueByReference {
        to.cells()[d as int].contents == of.cells()[c as int].contents
    } else {
        &&& to.cells()[d as int].contents >= of.envelopes().len()
        &&& if fuel == 0 {
            to.value_at(d) is Empty
        } else {
            copies(of, to, from, of.value_at(c), to.value_at(d), (fuel - 1) as nat)
        }
    }
}

/// What is in a cell of a store is in that cell of a store that extends it.
pub proof fn lemma_value_kept(before: &Store, after: &Store, c: usize)
    requires
        before.wf(),
        after.extends(before),
        c < before.cells().len(),
    ensures
        after.value_at(c) == before.value_at(c),
        after.cells()[c as int] == before.cells()[c as int],
{
}

/// Whether a store has the cells of another, and maybe more, and in the
/// envelopes of that other from number `floor` on what that other has.
pub open spec fn keeps(after: &Store, before: &Store, floor: nat) -> bool {
    &&& before.cells().len() <= after.cells().len()
    &&& before.envelopes().len() <= after.envelopes().len()
    &&& forall|c: int| 0 <= c < before.cells().len() ==> #[trigger] after.cells()[c] == before.cells()[c]
    &&& forall|e: int|
        floor <= e < before.envelopes().len() ==> (#[trigger] after.envelopes()[e]).value
            == before.envelopes()[e].value
}

/// A copy stays a copy while the store it is in grows, and while
/// envelopes that the original's store had are given other values; it
/// is a copy made since any earlier time, and a copy of the value in
/// any earlier store that holds the value.
pub proof fn lemma_copies_kept(
    of: &Store,
    earliest: &Store,
    to: &Store,
    after: &Store,
    from: nat,
    earlier: nat,
    v: Value,
    r: Value,
    fuel: nat,
)
    requires
        earliest.wf(),
        of.extends(earliest),
        earliest.holds(v),
        to.wf(),
        keeps(after, to, earliest.envelopes().len()),
        earlier <= from,
        copies(of, to, from, v, r, fuel),
    ensures
        copies(earliest, after, earlier, v, r, fuel),
    decreases fuel, 1nat,
{
    if v is Sequence || v is Structure {
        assert forall|i: int| 0 <= i < v.cells().len() implies cell_copies(
            earliest,
            after,
            earlier,
            #[trigger] v.cells()[i],
            r.cells()[i],
            fuel,
        ) by {
            assert(cell_copies(of, to, from, v.cells()[i], r.cells()[i], fuel));
            lemma_cell_copies_kept(of, earliest, to, after, from, earlier, v.cells()[i], r.cells()[i], fuel);
        }
    }
}

/// The copy of a cell stays one, as the copy of a value does.
pub proof fn lemma_cell_copies_kept(
    of: &Store,
    earliest: &Store,
    to: &Store,
    after: &Store,
    from: nat,
    earlier: nat,
    c: usize,
    d: usize,
    fuel: nat,
)
    requires
        earliest.wf(),
        of.extends(earliest),
        c < earliest.cells().len(),
        to.wf(),
        keeps(after, to, earliest.envelopes().len()),
        earlier <= from,
        cell_copies(of, to, from, c, d, fuel),
    ensures
        cell_copies(earliest, after, earlier, c, d, fuel),
    decreases fuel, 0nat,
{
    lemma_value_kept(earliest, of, c);
    assert(after.cells()[d as int] == to.cells()[d as int]);
    if !(of.value_at(c) is ValueByReference) {
        assert(after.value_at(d) == to.value_at(d));
        if fuel > 0 {
            assert(earliest.holds(earliest.value_at(c)));
            lemma_copies_kept(
                of,
                earliest,
                to,
                after,
                from,
                earlier,
                of.value_at(c),
                to.value_at(d),
                (fuel - 1) as nat,
            );
        }
    }
}

/// A store that extends another keeps what that other has.
pub proof fn lemma_extends_keeps(after: &Store, before: &Store, floor: nat)
    requires
        after.extends(before),
    ensures
        keeps(after, before, floor),
{
}

/// A copy of a value is a copy of any value that is the same but for
/// where it is kept.
pub proof fn lemma_copies_of_alike(of: &Store, to: &Store, from: nat, v: Value, w: Value, r: Value, fuel: nat)
    requires
        v.alike(w),
        copies(of, to, from, v, r, fuel),
    ensures
        copies(of, to, from, w, r, fuel),
{
    lemma_alike_cells(v, w);
    match (v, w) {
        (Value::Structure(a), Value::Structure(b)) => {
            assert forall|i: int| 0 <= i < b.members().len() implies (#[trigger] b.members()[i]).name@
                == r->Structure_0.members()[i].name@ && b.members()[i].datatype@
                == r->Structure_0.members()[i].datatype@ by {
                assert(a.members()[i].alike(b.members()[i]));
            }
            assert forall|i: int| 0 <= i < w.cells().len() implies cell_copies(
                of,
                to,
                from,
                #[trigger] w.cells()[i],
                r.cells()[i],
                fuel,
            ) by {
                assert(cell_copies(of, to, from, v.cells()[i], r.cells()[i], fuel));
            }
        },
        (Value::Sequence(a), Value::Sequence(b)) => {
            assert forall|i: int| 0 <= i < w.cells().len() implies cell_copies(
                of,
                to,
                from,
                #[trigger] w.cells()[i],
                r.cells()[i],
                fuel,
            ) by {
                assert(cell_copies(of, to, from, v.cells()[i], r.cells()[i], fuel));
            }
        },
        _ => {},
    }
}

/// Makes a copy of a cell.
pub fn copy_cell(store: &mut Store, c: usize, fuel: usize) -> (d: usize)
    requires
        old(store).wf(),
        c < old(store).cells().len(),
    ensures
        final(store).wf(),
        final(store).extends(old(store)),
        final(store).pass() == old(store).pass(),
        cell_copies(old(store), final(store), old(store).cells().len() as nat, c, d, fuel as nat),
    decreases fuel, 0nat, 0nat,
{
    let ghost from = old(store).cells().len() as nat;
    let v = store.get(c).duplicate();
    proof {
        lemma_alike_cells(v, store.value_at(c));
    }
    match v {
        Value::ValueByReference(_) => {
            let d = store.new_cell_sharing(c);
            d
        },
        _ => {
            if fuel == 0 {
                let d = store.new_cell(Value::Empty);
                d
            } else {
                let r = copy_value(store, &v, fuel - 1);
                let ghost middle = *store;
                let d = store.new_cell(r);
                proof {
                    lemma_extends_keeps(store, &middle, old(store).envelopes().len() as nat);
                    lemma_copies_kept(old(store), old(store), &middle, store, from, from, v, r, (fuel - 1) as nat);
                    lemma_copies_of_alike(old(store), store, from, v, old(store).value_at(c), r, (fuel - 1) as nat);
                    crate::execution::functions::lemma_extends_twice(old(store), &middle, store);
                }
                d
            }
        },
    }
}

/// Makes copies of the cells of a list.
fn copy_cells(store: &mut Store, cells: &Vec<usize>, fuel: usize) -> (fresh: Vec<usize>)
    requires
        old(store).wf(),
        forall|i: int| 0 <= i < cells@.len() ==> (#[trigger] cells@[i]) < old(store).cells().len(),
    ensures
        final(store).wf(),
        final(store).extends(old(store)),
        final(store).pass() == old(store).pass(),
        fresh@.len() == cells@.len(),
        forall|i: int|
            0 <= i < cells@.len() ==> cell_copies(
                old(store),
                final(store),
                old(store).cells().len() as nat,
                #[trigger] cells@[i],
                fresh@[i],
                fuel as nat,
            ),
    decreases fuel, 0nat, 1nat,
{
    let ghost from = old(store).cells().len() as nat;
    let mut fresh: Vec<usize> = Vec::new();
    let mut i: usize = 0;
    while i < cells.len()
        invariant
            i <= cells.len(),
            fresh@.len() == i,
            old(store).wf(),
            store.wf(),
            store.extends(old(store)),
            store.pass() == old(store).pass(),
            from == old(store).cells().len(),
            forall|k: int| 0 <= k < cells@.len() ==> (#[trigger] cells@[k]) < old(store).cells().len(),
            forall|k: int|
                0 <= k < i ==> cell_copies(old(store), store, from, #[trigger] cells@[k], fresh@[k], fuel as nat),
        decreases cells.len() - i,
    {
        let ghost before = *store;
        let ghost sofar = fresh@;
        let d = copy_cell(store, cells[i], fuel);
        fresh.push(d);
        proof {
            crate::execution::functions::lemma_extends_twice(old(store), &before, store);
            lemma_extends_keeps(store, &before, old(store).envelopes().len() as nat);
            lemma_extends_keeps(store, store, old(store).envelopes().len() as nat);
            assert forall|k: int| 0 <= k < i + 1 implies cell_copies(
                old(store),
                store,
                from,
                #[trigger] cells@[k],
                fresh@[k],
                fuel as nat,
            ) by {
                if k < i {
                    assert(cell_copies(old(store), &before, from, cells@[k], sofar[k], fuel as nat));
                    lemma_cell_copies_kept(
                        old(store),
                        old(store),
                        &before,
                        store,
                        from,
                        from,
                        cells@[k],
                        sofar[k],
                        fuel as nat,
                    );
                } else {
                    lemma_cell_copies_kept(
                        &before,
                        old(store),
                        store,
                        store,
                        before.cells().len() as nat,
                        from,
                        cells@[k],
                        d,
                        fuel as nat,
                    );
                }
            }
        }
        i += 1;
    }
    fresh
}

/// Makes a copy of a value.
pub fn copy_value(store: &mut Store, v: &Value, fuel: usize) -> (r: Value)
    requires
        old(store).wf(),
        old(store).holds(*v),
    ensures
        final(store).wf(),
        final(store).extends(old(store)),
        final(store).pass() == old(store).pass(),
        final(store).holds(r),
        Store::referent(r) == Store::referent(*v),
        copies(old(store), final(store), old(store).cells().len() as nat, *v, r, fuel as nat),
    decreases fuel, 1nat, 0nat,
{
    match v {
        Value::Sequence(s) => {
            assert forall|i: int| 0 <= i < s.cells().len() implies (#[trigger] s.cells()[i]) < old(store).cells().len() by {
                assert(v.cells()[i] == s.cells()[i]);
            }
            let fresh = copy_cells(store, s.as_values(), fuel);
            let r = Value::Sequence(s.with_cells(fresh));
            proof {
                assert forall|i: int| 0 <= i < v.cells().len() implies cell_copies(
                    old(store),
                    store,
                    old(store).cells().len() as nat,
                    #[trigger] v.cells()[i],
                    r.cells()[i],
                    fuel as nat,
                ) by {
                    assert(cell_copies(
                        old(store),
                        store,
                        old(store).cells().len() as nat,
                        s.cells()[i],
                        fresh@[i],
                        fuel as nat,
                    ));
                }
                assert forall|i: int| 0 <= i < r.cells().len() implies (#[trigger] r.cells()[i]) < store.cells().len() by {
                    assert(cell_copies(
                        old(store),
                        store,
                        old(store).cells().len() as nat,
                        s.cells()[i],
                        fresh@[i],
                        fuel as nat,
                    ));
                }
            }
            r
        },
        Value::Structure(s) => {
            let mut cells: Vec<usize> = Vec::new();
            let mut i: usize = 0;
            while i < s.as_values().len()
                invariant
                    i <= s.members().len(),
                    cells@.len() == i,
                    forall|k: int| 0 <= k < i ==> cells@[k] == (#[trigger] s.members()[k]).cell,
                decreases s.members().len() - i,
            {
                cells.push(s.as_values()[i].cell);
                i += 1;
            }
            assert(cells@ =~= s.cells());
            assert forall|i: int| 0 <= i < cells@.len() implies (#[trigger] cells@[i]) < old(store).cells().len() by {
                assert(v.cells()[i] == cells@[i]);
            }
            let fresh = copy_cells(store, &cells, fuel);
            let r = Value::Structure(s.with_cells(&fresh));
            proof {
                assert forall|i: int| 0 <= i < v.cells().len() implies cell_copies(
                    old(store),
                    store,
                    old(store).cells().len() as nat,
                    #[trigger] v.cells()[i],
                    r.cells()[i],
                    fuel as nat,
                ) by {
                    assert(cell_copies(
                        old(store),
                        store,
                        old(store).cells().len() as nat,
                        cells@[i],
                        fresh@[i],
                        fuel as nat,
                    ));
                }
                assert forall|i: int| 0 <= i < r.cells().len() implies (#[trigger] r.cells()[i]) < store.cells().len() by {
                    assert(cell_copies(
                        old(store),
                        store,
                        old(store).cells().len() as nat,
                        cells@[i],
                        fresh@[i],
                        fuel as nat,
                    ));
                }
            }
            r
        },
        _ => {
            let r = v.duplicate();
            proof {
                lemma_alike_cells(r, *v);
            }
            r
        },
    }
}

/// How deep a copy goes. No value is made of cells within cells as deep as this.
pub const DEPTH: usize = usize::MAX;

/// Makes a copy of a value.
pub fn copy(store: &mut Store, v: &Value) -> (r: Value)
    requires
        old(store).wf(),
        old(store).holds(*v),
    ensures
        final(store).wf(),
        final(store).extends(old(store)),
        final(store).pass() == old(store).pass(),
        final(store).holds(r),
        Store::referent(r) == Store::referent(*v),
        copies(old(store), final(store), old(store).cells().len() as nat, *v, r, DEPTH as nat),
{
    copy_value(store, v, DEPTH)
}

} // verus!
