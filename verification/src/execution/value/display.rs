//! How a value is shown.
//!
//! A value is shown as pieces: texts, and numbers with a fraction, each
//! given by its bits, for which the text is made where floating-point
//! arithmetic is at home. A pass over values marks the envelope of
//! every sequence and structure that it shows; where one comes again in
//! the same pass, be it inside itself or beside itself, three dots are
//! shown in its place.

use vstd::prelude::*;
use crate::text::lower;
use super::format::{int_string, int_text};
use super::{GeneralSymbol, Store, Value};

verus! {

/// A piece of what is shown of a value.
#[derive(Debug)]
pub enum Piece {
    Text(String),
    /// A single precision number, by its bits.
    Real(u32),
    /// A double precision number, by its bits.
    Double(u64),
    /// A function, by its name.
    Function(String),
}

/// A piece as plain data.
pub enum PieceModel {
    Text(Seq<char>),
    Real(u32),
    Double(u64),
    Function(Seq<char>),
}

impl Piece {
    pub open spec fn model(&self) -> PieceModel {
        match self {
            Piece::Text(t) => PieceModel::Text(t@),
            Piece::Real(b) => PieceModel::Real(*b),
            Piece::Double(b) => PieceModel::Double(*b),
            Piece::Function(n) => PieceModel::Function(n@),
        }
    }
}

/// The models of a list of pieces.
pub open spec fn piece_models(pieces: Seq<Piece>) -> Seq<PieceModel> {
    Seq::new(pieces.len(), |i: int| pieces[i].model())
}

/// What stands in the place of a value that comes again.
pub open spec fn again() -> Seq<PieceModel> {
    seq![PieceModel::Text("..."@)]
}

/// The text of a piece of text.
pub open spec fn text(t: Seq<char>) -> Seq<PieceModel> {
    seq![PieceModel::Text(t)]
}

/// Whether a value is made of cells that are shown with it.
pub open spec fn is_compound(v: Value) -> bool {
    v is Sequence || v is Structure
}

/// What a pass over values comes to: the pieces that are shown, and
/// the envelopes that are marked as seen.
pub struct Walk {
    pub pieces: Seq<PieceModel>,
    pub seen: Seq<usize>,
}

/// A walk with pieces before and after what it shows.
pub open spec fn framed(head: Seq<PieceModel>, w: Walk, tail: Seq<PieceModel>) -> Walk {
    Walk { pieces: head + w.pieces + tail, seen: w.seen }
}

/// What showing a value comes to in a pass that has marked the
/// envelopes `seen`; `fuel` bounds how many envelopes deep the showing
/// goes.
pub open spec fn walked(store: &Store, v: Value, seen: Seq<usize>, fuel: nat) -> Walk
    decreases fuel, 4nat, 0nat,
{
    match v {
        Value::Empty => Walk { pieces: Seq::empty(), seen: seen },
        Value::Bool(b) => Walk {
            pieces: text(
                if b {
                    "true"@
                } else {
                    "false"@
                },
            ),
            seen: seen,
        },
        Value::Int(i) => Walk { pieces: text(int_text(i as int)), seen: seen },
        Value::Real(r) => Walk { pieces: seq![PieceModel::Real(r)], seen: seen },
        Value::Double(d) => Walk { pieces: seq![PieceModel::Double(d)], seen: seen },
        Value::Char(c) => Walk { pieces: text(seq![c]), seen: seen },
        Value::Sequence(s) => if lower(s.datatype()) == lower("string"@) {
            walked_cells(store, s.cells(), 0, Seq::empty(), Seq::empty(), seen, fuel)
        } else {
            framed(text("["@), walked_cells(store, s.cells(), 0, ", "@, Seq::empty(), seen, fuel), text("]"@))
        },
        Value::Structure(s) => framed(
            text("["@),
            walked_cells(
                store,
                s.cells(),
                0,
                ", "@,
                Seq::new(s.members().len(), |i: int| s.members()[i].name@ + ":"@),
                seen,
                fuel,
            ),
            text("]"@),
        ),
        Value::Selector(s) => Walk {
            pieces: text(s.member@ + " from {"@) + shown_names(
                Seq::new(s.structures@.len(), |i: int| s.structures@[i]@),
                0,
            ) + text("}"@),
            seen: seen,
        },
        Value::Symbol(s) => match s.resolution {
            GeneralSymbol::Variable(d) => walked_envelope(store, envelope_of_cell(store, d.cell), seen, fuel),
            GeneralSymbol::Function(n) => Walk { pieces: seq![PieceModel::Function(n@)], seen: seen },
            GeneralSymbol::Datatype(n) => Walk { pieces: text(n@), seen: seen },
            GeneralSymbol::Selector(n) => Walk { pieces: text(n@), seen: seen },
            GeneralSymbol::Unresolved(n) => Walk { pieces: text(n@), seen: seen },
        },
        Value::ValueByReference(c) => walked_envelope(store, envelope_of_cell(store, c.cell), seen, fuel),
        Value::LogicalLink(e) => walked_envelope(store, e as int, seen, fuel),
    }
}

/// The envelope of a cell; `-1` for what is no cell of the store.
pub open spec fn envelope_of_cell(store: &Store, cell: usize) -> int {
    if cell < store.cells().len() {
        store.cells()[cell as int].contents as int
    } else {
        -1
    }
}

/// What showing the value in an envelope comes to. A sequence or a
/// structure whose envelope is marked comes again, and three dots are
/// shown in its place; so they are where the fuel is used up. One that
/// is shown is marked, and stays marked for the rest of the pass.
pub open spec fn walked_envelope(store: &Store, e: int, seen: Seq<usize>, fuel: nat) -> Walk
    decreases fuel, 1nat, 0nat,
{
    if fuel == 0 || !(0 <= e < store.envelopes().len()) {
        Walk { pieces: again(), seen: seen }
    } else {
        let v = store.envelopes()[e].value;
        if is_compound(v) {
            if seen.contains(e as usize) {
                Walk { pieces: again(), seen: seen }
            } else {
                walked(store, v, seen.push(e as usize), (fuel - 1) as nat)
            }
        } else {
            walked(store, v, seen, (fuel - 1) as nat)
        }
    }
}

/// What showing the values in the cells of a list from index `i` on
/// comes to: each with its label in front, if there are labels, and the
/// separator between one and the next. What one cell marks is marked
/// for the cells behind it.
pub open spec fn walked_cells(
    store: &Store,
    cells: Seq<usize>,
    i: int,
    separator: Seq<char>,
    labels: Seq<Seq<char>>,
    seen: Seq<usize>,
    fuel: nat,
) -> Walk
    decreases fuel, 2nat, cells.len() - i,
{
    if i < 0 || i >= cells.len() {
        Walk { pieces: Seq::empty(), seen: seen }
    } else {
        let lead = (if i > 0 {
            separator
        } else {
            Seq::empty()
        }) + (if i < labels.len() {
            labels[i]
        } else {
            Seq::empty()
        });
        let here = walked_envelope(store, envelope_of_cell(store, cells[i]), seen, fuel);
        let rest = walked_cells(store, cells, i + 1, separator, labels, here.seen, fuel);
        Walk {
            pieces: (if lead.len() > 0 {
                text(lead)
            } else {
                Seq::empty()
            }) + here.pieces + rest.pieces,
            seen: rest.seen,
        }
    }
}

/// What is shown of a value in a pass that has marked the envelopes `seen`.
pub open spec fn shown(store: &Store, v: Value, seen: Seq<usize>, fuel: nat) -> Seq<PieceModel> {
    walked(store, v, seen, fuel).pieces
}

/// What is shown of the value in an envelope in a pass that has marked
/// the envelopes `seen`.
pub open spec fn shown_envelope(store: &Store, e: int, seen: Seq<usize>, fuel: nat) -> Seq<PieceModel> {
    walked_envelope(store, e, seen, fuel).pieces
}

/// Names with a comma and a blank between one and the next.
pub open spec fn shown_names(names: Seq<Seq<char>>, i: int) -> Seq<PieceModel>
    decreases names.len() - i,
{
    if i < 0 || i >= names.len() {
        Seq::empty()
    } else {
        text(
            (if i > 0 {
                ", "@
            } else {
                Seq::empty()
            }) + names[i],
        ) + shown_names(names, i + 1)
    }
}

/// A value that comes again is shown as three dots: so is a sequence or
/// a structure in an envelope that the pass has marked, and nothing
/// more is marked for it.
pub proof fn law_value_that_comes_again_is_three_dots(store: &Store, e: usize, seen: Seq<usize>, fuel: nat)
    requires
        e < store.envelopes().len(),
        is_compound(store.envelopes()[e as int].value),
        seen.contains(e),
    ensures
        shown_envelope(store, e as int, seen, fuel) == again(),
        walked_envelope(store, e as int, seen, fuel).seen == seen,
{
}

/// A sequence or a structure that is shown is marked from then on, so
/// that it is shown once in a pass: where the value of an envelope is
/// shown, the envelope is marked when the showing is done.
pub proof fn law_shown_value_is_marked(store: &Store, e: usize, seen: Seq<usize>, fuel: nat)
    requires
        e < store.envelopes().len(),
        is_compound(store.envelopes()[e as int].value),
        fuel > 0,
    ensures
        walked_envelope(store, e as int, seen, fuel).seen.contains(e),
{
    if !seen.contains(e) {
        let v = store.envelopes()[e as int].value;
        assert(seen.push(e).contains(e)) by {
            assert(seen.push(e)[seen.len() as int] == e);
        }
        lemma_marks_stay(store, v, seen.push(e), (fuel - 1) as nat, e);
    }
}

/// What a pass has marked stays marked.
pub proof fn lemma_marks_stay(store: &Store, v: Value, seen: Seq<usize>, fuel: nat, e: usize)
    requires
        seen.contains(e),
    ensures
        walked(store, v, seen, fuel).seen.contains(e),
    decreases fuel, 4nat, 0nat,
{
    match v {
        Value::Sequence(s) => {
            if lower(s.datatype()) == lower("string"@) {
                lemma_marks_stay_cells(store, s.cells(), 0, Seq::empty(), Seq::empty(), seen, fuel, e);
            } else {
                lemma_marks_stay_cells(store, s.cells(), 0, ", "@, Seq::empty(), seen, fuel, e);
            }
        },
        Value::Structure(s) => {
            lemma_marks_stay_cells(
                store,
                s.cells(),
                0,
                ", "@,
                Seq::new(s.members().len(), |i: int| s.members()[i].name@ + ":"@),
                seen,
                fuel,
                e,
            );
        },
        Value::Symbol(s) => match s.resolution {
            GeneralSymbol::Variable(d) => {
                lemma_marks_stay_envelope(store, envelope_of_cell(store, d.cell), seen, fuel, e);
            },
            _ => {},
        },
        Value::ValueByReference(c) => {
            lemma_marks_stay_envelope(store, envelope_of_cell(store, c.cell), seen, fuel, e);
        },
        Value::LogicalLink(l) => {
            lemma_marks_stay_envelope(store, l as int, seen, fuel, e);
        },
        _ => {},
    }
}

/// What a pass has marked stays marked.
pub proof fn lemma_marks_stay_envelope(store: &Store, at: int, seen: Seq<usize>, fuel: nat, e: usize)
    requires
        seen.contains(e),
    ensures
        walked_envelope(store, at, seen, fuel).seen.contains(e),
    decreases fuel, 1nat, 0nat,
{
    if fuel == 0 || !(0 <= at < store.envelopes().len()) {
    } else {
        let v = store.envelopes()[at].value;
        if is_compound(v) {
            if !seen.contains(at as usize) {
                let more = seen.push(at as usize);
                let k = choose|k: int| 0 <= k < seen.len() && seen[k] == e;
                assert(more[k] == e);
                lemma_marks_stay(store, v, more, (fuel - 1) as nat, e);
            }
        } else {
            lemma_marks_stay(store, v, seen, (fuel - 1) as nat, e);
        }
    }
}

/// What a pass has marked stays marked.
pub proof fn lemma_marks_stay_cells(
    store: &Store,
    cells: Seq<usize>,
    i: int,
    separator: Seq<char>,
    labels: Seq<Seq<char>>,
    seen: Seq<usize>,
    fuel: nat,
    e: usize,
)
    requires
        seen.contains(e),
    ensures
        walked_cells(store, cells, i, separator, labels, seen, fuel).seen.contains(e),
    decreases fuel, 2nat, cells.len() - i,
{
    if i < 0 || i >= cells.len() {
    } else {
        lemma_marks_stay_envelope(store, envelope_of_cell(store, cells[i]), seen, fuel, e);
        let here = walked_envelope(store, envelope_of_cell(store, cells[i]), seen, fuel);
        lemma_marks_stay_cells(store, cells, i + 1, separator, labels, here.seen, fuel, e);
    }
}

fn push_text(out: &mut Vec<Piece>, t: &str)
    ensures
        piece_models(final(out)@) == piece_models(old(out)@) + text(t@),
{
    out.push(Piece::Text(String::from_str(t)));
    assert(piece_models(out@) =~= piece_models(old(out)@) + text(t@));
}

fn push_string(out: &mut Vec<Piece>, t: String)
    ensures
        piece_models(final(out)@) == piece_models(old(out)@) + text(t@),
{
    out.push(Piece::Text(t));
    assert(piece_models(out@) =~= piece_models(old(out)@) + text(t@));
}

fn is_marked(seen: &Vec<usize>, e: usize) -> (r: bool)
    ensures
        r == seen@.contains(e),
{
    let mut i: usize = 0;
    while i < seen.len()
        invariant
            i <= seen.len(),
            forall|k: int| 0 <= k < i ==> seen@[k] != e,
        decreases seen.len() - i,
    {
        if seen[i] == e {
            return true;
        }
        i += 1;
    }
    false
}

/// Shows the value in an envelope, and marks the envelope where the
/// value is a sequence or a structure.
pub fn show_envelope(store: &Store, e: usize, seen: &mut Vec<usize>, fuel: usize, out: &mut Vec<Piece>)
    requires
        store.wf(),
        e < store.envelopes().len(),
    ensures
        final(seen)@ == walked_envelope(store, e as int, old(seen)@, fuel as nat).seen,
        piece_models(final(out)@) == piece_models(old(out)@) + walked_envelope(
            store,
            e as int,
            old(seen)@,
            fuel as nat,
        ).pieces,
    decreases fuel, 1nat, 0nat,
{
    if fuel == 0 {
        push_text(out, "...");
        return ;
    }
    let v = store.get_envelope(e);
    let compound = match v {
        Value::Sequence(_) => true,
        Value::Structure(_) => true,
        _ => false,
    };
    if compound {
        if is_marked(seen, e) {
            push_text(out, "...");
        } else {
            seen.push(e);
            show(store, v, seen, fuel - 1, out);
        }
    } else {
        show(store, v, seen, fuel - 1, out);
    }
}

/// Shows the values in the cells of a list.
pub fn show_cells(
    store: &Store,
    cells: &Vec<usize>,
    separator: &str,
    labels: &Vec<String>,
    seen: &mut Vec<usize>,
    fuel: usize,
    out: &mut Vec<Piece>,
)
    requires
        store.wf(),
        forall|k: int| 0 <= k < cells@.len() ==> (#[trigger] cells@[k]) < store.cells().len(),
    ensures
        final(seen)@ == walked_cells(
            store,
            cells@,
            0,
            separator@,
            Seq::new(labels@.len(), |i: int| labels@[i]@),
            old(seen)@,
            fuel as nat,
        ).seen,
        piece_models(final(out)@) == piece_models(old(out)@) + walked_cells(
            store,
            cells@,
            0,
            separator@,
            Seq::new(labels@.len(), |i: int| labels@[i]@),
            old(seen)@,
            fuel as nat,
        ).pieces,
    decreases fuel, 2nat, cells@.len(),
{
    let ghost names = Seq::new(labels@.len(), |i: int| labels@[i]@);
    let ghost done = piece_models(out@);
    let ghost all = walked_cells(store, cells@, 0, separator@, names, old(seen)@, fuel as nat);
    let mut i: usize = 0;
    assert(piece_models(out@) =~= done + Seq::<PieceModel>::empty());
    while i < cells.len()
        invariant
            i <= cells.len(),
            store.wf(),
            done == piece_models(old(out)@),
            names == Seq::new(labels@.len(), |k: int| labels@[k]@),
            all == walked_cells(store, cells@, 0, separator@, names, old(seen)@, fuel as nat),
            forall|k: int| 0 <= k < cells@.len() ==> (#[trigger] cells@[k]) < store.cells().len(),
            walked_cells(store, cells@, i as int, separator@, names, seen@, fuel as nat).seen == all.seen,
            piece_models(out@) + walked_cells(store, cells@, i as int, separator@, names, seen@, fuel as nat).pieces
                == done + all.pieces,
        decreases cells.len() - i,
    {
        let ghost before = piece_models(out@);
        let ghost marked = seen@;
        let mut lead = String::new();
        if i > 0 {
            lead.append(separator);
        }
        if i < labels.len() {
            lead.append(labels[i].as_str());
        }
        let ghost lead_text = lead@;
        proof {
            assert(lead_text =~= (if i > 0 {
                separator@
            } else {
                Seq::empty()
            }) + (if i < names.len() {
                names[i as int]
            } else {
                Seq::empty()
            }));
        }
        if chars_count(&lead) > 0 {
            push_string(out, lead);
        }
        let e = store.envelope_of(cells[i]);
        show_envelope(store, e, seen, fuel, out);
        proof {
            let one = walked_envelope(store, e as int, marked, fuel as nat);
            let rest = walked_cells(store, cells@, i as int + 1, separator@, names, one.seen, fuel as nat);
            let here = (if lead_text.len() > 0 {
                text(lead_text)
            } else {
                Seq::empty()
            }) + one.pieces;
            assert(piece_models(out@) =~= before + here);
            assert(walked_cells(store, cells@, i as int, separator@, names, marked, fuel as nat).pieces =~= here
                + rest.pieces);
            assert(piece_models(out@) + rest.pieces =~= before + walked_cells(
                store,
                cells@,
                i as int,
                separator@,
                names,
                marked,
                fuel as nat,
            ).pieces);
        }
        i += 1;
    }
    assert(piece_models(out@) + Seq::<PieceModel>::empty() =~= piece_models(out@));
}

fn chars_count(s: &String) -> (n: usize)
    ensures
        n == s@.len(),
{
    s.as_str().unicode_len()
}

fn show_names(names: &Vec<crate::symbols::name::Name>, out: &mut Vec<Piece>)
    ensures
        piece_models(final(out)@) == piece_models(old(out)@) + shown_names(
            Seq::new(names@.len(), |i: int| names@[i]@),
            0,
        ),
{
    let ghost all = Seq::new(names@.len(), |i: int| names@[i]@);
    let ghost done = piece_models(out@);
    let mut i: usize = 0;
    assert(piece_models(out@) =~= done + Seq::<PieceModel>::empty());
    while i < names.len()
        invariant
            i <= names.len(),
            all == Seq::new(names@.len(), |k: int| names@[k]@),
            done == piece_models(old(out)@),
            piece_models(out@) + shown_names(all, i as int) == done + shown_names(all, 0),
        decreases names.len() - i,
    {
        let ghost before = piece_models(out@);
        let mut t = String::new();
        if i > 0 {
            t.append(", ");
        }
        t.append(names[i].as_str());
        proof {
            assert(t@ =~= (if i > 0 {
                ", "@
            } else {
                Seq::empty()
            }) + all[i as int]);
        }
        push_string(out, t);
        proof {
            let rest = shown_names(all, i as int + 1);
            assert(shown_names(all, i as int) =~= text(
                (if i > 0 {
                    ", "@
                } else {
                    Seq::empty()
                }) + all[i as int],
            ) + rest);
            assert(piece_models(out@) + rest =~= before + shown_names(all, i as int));
        }
        i += 1;
    }
    assert(piece_models(out@) + Seq::<PieceModel>::empty() =~= piece_models(out@));
}

/// Shows a value, and marks the envelopes of the sequences and
/// structures that are shown with it.
pub fn show(store: &Store, v: &Value, seen: &mut Vec<usize>, fuel: usize, out: &mut Vec<Piece>)
    requires
        store.wf(),
        store.holds(*v),
    ensures
        final(seen)@ == walked(store, *v, old(seen)@, fuel as nat).seen,
        piece_models(final(out)@) == piece_models(old(out)@) + walked(store, *v, old(seen)@, fuel as nat).pieces,
    decreases fuel, 4nat, 0nat,
{
    match v {
        Value::Empty => {
            assert(piece_models(out@) =~= piece_models(old(out)@) + Seq::<PieceModel>::empty());
        },
        Value::Bool(b) => {
            push_text(
                out,
                if *b {
                    "true"
                } else {
                    "false"
                },
            );
        },
        Value::Int(i) => {
            push_string(out, int_string(*i));
        },
        Value::Real(r) => {
            out.push(Piece::Real(*r));
            assert(piece_models(out@) =~= piece_models(old(out)@) + seq![PieceModel::Real(*r)]);
        },
        Value::Double(d) => {
            out.push(Piece::Double(*d));
            assert(piece_models(out@) =~= piece_models(old(out)@) + seq![PieceModel::Double(*d)]);
        },
        Value::Char(c) => {
            let mut t = String::new();
            t.push(*c);
            assert(t@ =~= seq![*c]);
            push_string(out, t);
        },
        Value::Sequence(s) => {
            let cells = s.as_values();
            proof {
                assert forall|k: int| 0 <= k < cells@.len() implies (#[trigger] cells@[k]) < store.cells().len() by {
                    assert(v.cells()[k] == cells@[k]);
                }
            }
            let none: Vec<String> = Vec::new();
            assert(Seq::new(none@.len(), |i: int| none@[i]@) =~= Seq::<Seq<char>>::empty());
            if s.is_string() {
                proof {
                    reveal_strlit("");
                }
                assert(""@ =~= Seq::<char>::empty());
                show_cells(store, cells, "", &none, seen, fuel, out);
            } else {
                let ghost start = piece_models(out@);
                push_text(out, "[");
                show_cells(store, cells, ", ", &none, seen, fuel, out);
                push_text(out, "]");
                assert(piece_models(out@) =~= start + (text("["@) + walked_cells(
                    store,
                    s.cells(),
                    0,
                    ", "@,
                    Seq::empty(),
                    old(seen)@,
                    fuel as nat,
                ).pieces + text("]"@)));
            }
        },
        Value::Structure(s) => {
            let members = s.as_values();
            let mut cells: Vec<usize> = Vec::new();
            let mut labels: Vec<String> = Vec::new();
            let mut i: usize = 0;
            while i < members.len()
                invariant
                    i <= members.len(),
                    cells@.len() == i,
                    labels@.len() == i,
                    forall|k: int| 0 <= k < i ==> cells@[k] == (#[trigger] members@[k]).cell,
                    forall|k: int| 0 <= k < i ==> (#[trigger] labels@[k])@ == members@[k].name@ + ":"@,
                decreases members.len() - i,
            {
                cells.push(members[i].cell);
                let mut label = members[i].name.as_string();
                label.append(":");
                labels.push(label);
                i += 1;
            }
            proof {
                assert(cells@ =~= s.cells());
                assert forall|k: int| 0 <= k < cells@.len() implies (#[trigger] cells@[k]) < store.cells().len() by {
                    assert(v.cells()[k] == cells@[k]);
                }
                assert(Seq::new(labels@.len(), |i: int| labels@[i]@) =~= Seq::new(
                    s.members().len(),
                    |i: int| s.members()[i].name@ + ":"@,
                ));
            }
            let ghost start = piece_models(out@);
            push_text(out, "[");
            show_cells(store, &cells, ", ", &labels, seen, fuel, out);
            push_text(out, "]");
            assert(piece_models(out@) =~= start + (text("["@) + walked_cells(
                store,
                s.cells(),
                0,
                ", "@,
                Seq::new(s.members().len(), |i: int| s.members()[i].name@ + ":"@),
                old(seen)@,
                fuel as nat,
            ).pieces + text("]"@)));
        },
        Value::Selector(s) => {
            let ghost start = piece_models(out@);
            let mut head = s.member.as_string();
            head.append(" from {");
            push_string(out, head);
            show_names(&s.structures, out);
            push_text(out, "}");
            assert(piece_models(out@) =~= start + (text(s.member@ + " from {"@) + shown_names(
                Seq::new(s.structures@.len(), |i: int| s.structures@[i]@),
                0,
            ) + text("}"@)));
        },
        Value::Symbol(s) => match &s.resolution {
            GeneralSymbol::Variable(d) => {
                assert(v.cells()[0] == d.cell);
                let e = store.envelope_of(d.cell);
                show_envelope(store, e, seen, fuel, out);
            },
            GeneralSymbol::Function(n) => {
                out.push(Piece::Function(n.as_string()));
                assert(piece_models(out@) =~= piece_models(old(out)@) + seq![PieceModel::Function(n@)]);
            },
            GeneralSymbol::Datatype(n) => {
                push_string(out, n.as_string());
            },
            GeneralSymbol::Selector(n) => {
                push_string(out, n.as_string());
            },
            GeneralSymbol::Unresolved(n) => {
                push_string(out, n.as_string());
            },
        },
        Value::ValueByReference(c) => {
            assert(v.cells()[0] == c.cell);
            let e = store.envelope_of(c.cell);
            show_envelope(store, e, seen, fuel, out);
        },
        Value::LogicalLink(e) => {
            show_envelope(store, *e, seen, fuel, out);
        },
    }
}

/// How deep the showing of a value goes in a store: one more than the
/// store has envelopes, so that the fuel runs out only for a value that
/// comes again.
pub open spec fn whole(store: &Store) -> nat {
    if store.envelopes().len() < usize::MAX {
        store.envelopes().len() + 1
    } else {
        usize::MAX as nat
    }
}

/// The pieces that show a value in a pass of its own.
pub fn display(store: &Store, v: &Value) -> (out: Vec<Piece>)
    requires
        store.wf(),
        store.holds(*v),
    ensures
        piece_models(out@) == shown(store, *v, Seq::empty(), whole(store)),
{
    let mut out: Vec<Piece> = Vec::new();
    let mut seen: Vec<usize> = Vec::new();
    assert(piece_models(out@) =~= Seq::<PieceModel>::empty());
    assert(seen@ =~= Seq::<usize>::empty());
    let n = store.envelope_count();
    let fuel = if n < usize::MAX {
        n + 1
    } else {
        usize::MAX
    };
    show(store, v, &mut seen, fuel, &mut out);
    assert(piece_models(out@) =~= shown(store, *v, Seq::empty(), whole(store)));
    out
}

/// The envelopes among the first `n` that bear the mark of the pass
/// that is under way, in their order.
pub open spec fn marked_before(store: &Store, n: int) -> Seq<usize>
    decreases n,
{
    if n <= 0 {
        Seq::empty()
    } else if store.marked(n - 1) {
        marked_before(store, n - 1).push((n - 1) as usize)
    } else {
        marked_before(store, n - 1)
    }
}

/// The envelopes that bear the mark of the pass that is under way.
pub open spec fn marks_of(store: &Store) -> Seq<usize> {
    marked_before(store, store.envelopes().len() as int)
}

/// The envelopes that bear the mark are those that are listed.
pub proof fn lemma_marked_before(store: &Store, n: int, e: usize)
    requires
        n <= store.envelopes().len() <= usize::MAX,
    ensures
        marked_before(store, n).contains(e) <==> e < n && store.marked(e as int),
    decreases n,
{
    if n > 0 {
        lemma_marked_before(store, n - 1, e);
        let rest = marked_before(store, n - 1);
        if store.marked(n - 1) {
            let all = rest.push((n - 1) as usize);
            assert(all == marked_before(store, n));
            if rest.contains(e) {
                let k = choose|k: int| 0 <= k < rest.len() && rest[k] == e;
                assert(all[k] == e);
                assert(all.contains(e));
            }
            if e == n - 1 {
                assert(all[rest.len() as int] == e);
                assert(all.contains(e));
            }
            if all.contains(e) {
                let k = choose|k: int| 0 <= k < all.len() && all[k] == e;
                if k < rest.len() {
                    assert(rest[k] == e);
                    assert(rest.contains(e));
                } else {
                    assert(e == n - 1);
                }
            }
        } else {
            assert(rest == marked_before(store, n));
        }
    } else {
        assert(marked_before(store, n).len() == 0);
    }
}

/// Where no envelope bears the mark of the pass, none is listed.
pub proof fn lemma_no_marks(store: &Store, n: int)
    requires
        forall|e: int| 0 <= e < n ==> !store.marked(e),
    ensures
        marked_before(store, n) == Seq::<usize>::empty(),
    decreases n,
{
    if n > 0 {
        lemma_no_marks(store, n - 1);
    }
}

/// In a pass that has marked nothing yet a value is shown as it is
/// shown in a pass of its own.
pub proof fn law_first_in_a_pass_is_shown_whole(store: &Store, v: Value)
    requires
        forall|e: int| 0 <= e < store.envelopes().len() ==> !store.marked(e),
    ensures
        walked(store, v, marks_of(store), whole(store)).pieces == shown(store, v, Seq::empty(), whole(store)),
{
    lemma_no_marks(store, store.envelopes().len() as int);
}

/// Nothing is marked but envelopes of the store.
pub proof fn lemma_marks_in_store(store: &Store, v: Value, seen: Seq<usize>, fuel: nat)
    requires
        store.envelopes().len() <= usize::MAX,
        forall|k: int| 0 <= k < seen.len() ==> (#[trigger] seen[k]) < store.envelopes().len(),
    ensures
        forall|k: int|
            0 <= k < walked(store, v, seen, fuel).seen.len() ==> (#[trigger] walked(store, v, seen, fuel).seen[k])
                < store.envelopes().len(),
    decreases fuel, 4nat, 0nat,
{
    let w = walked(store, v, seen, fuel);
    match v {
        Value::Sequence(s) => {
            if lower(s.datatype()) == lower("string"@) {
                lemma_marks_in_store_cells(store, s.cells(), 0, Seq::empty(), Seq::empty(), seen, fuel);
                assert(w.seen == walked_cells(store, s.cells(), 0, Seq::empty(), Seq::empty(), seen, fuel).seen);
            } else {
                lemma_marks_in_store_cells(store, s.cells(), 0, ", "@, Seq::empty(), seen, fuel);
                assert(w.seen == walked_cells(store, s.cells(), 0, ", "@, Seq::empty(), seen, fuel).seen);
            }
        },
        Value::Structure(s) => {
            let labels = Seq::new(s.members().len(), |i: int| s.members()[i].name@ + ":"@);
            lemma_marks_in_store_cells(store, s.cells(), 0, ", "@, labels, seen, fuel);
            assert(w.seen == walked_cells(store, s.cells(), 0, ", "@, labels, seen, fuel).seen);
        },
        Value::Symbol(s) => match s.resolution {
            GeneralSymbol::Variable(d) => {
                lemma_marks_in_store_envelope(store, envelope_of_cell(store, d.cell), seen, fuel);
                assert(w.seen == walked_envelope(store, envelope_of_cell(store, d.cell), seen, fuel).seen);
            },
            GeneralSymbol::Function(_) => {
                assert(w.seen == seen);
            },
            GeneralSymbol::Datatype(_) => {
                assert(w.seen == seen);
            },
            GeneralSymbol::Selector(_) => {
                assert(w.seen == seen);
            },
            GeneralSymbol::Unresolved(_) => {
                assert(w.seen == seen);
            },
        },
        Value::ValueByReference(c) => {
            lemma_marks_in_store_envelope(store, envelope_of_cell(store, c.cell), seen, fuel);
            assert(w.seen == walked_envelope(store, envelope_of_cell(store, c.cell), seen, fuel).seen);
        },
        Value::LogicalLink(l) => {
            lemma_marks_in_store_envelope(store, l as int, seen, fuel);
            assert(w.seen == walked_envelope(store, l as int, seen, fuel).seen);
        },
        Value::Empty => {
            assert(w.seen == seen);
        },
        Value::Bool(_) => {
            assert(w.seen == seen);
        },
        Value::Int(_) => {
            assert(w.seen == seen);
        },
        Value::Real(_) => {
            assert(w.seen == seen);
        },
        Value::Double(_) => {
            assert(w.seen == seen);
        },
        Value::Char(_) => {
            assert(w.seen == seen);
        },
        Value::Selector(_) => {
            assert(w.seen == seen);
        },
    }
}

/// Nothing is marked but envelopes of the store.
pub proof fn lemma_marks_in_store_envelope(store: &Store, at: int, seen: Seq<usize>, fuel: nat)
    requires
        store.envelopes().len() <= usize::MAX,
        forall|k: int| 0 <= k < seen.len() ==> (#[trigger] seen[k]) < store.envelopes().len(),
    ensures
        forall|k: int|
            0 <= k < walked_envelope(store, at, seen, fuel).seen.len() ==> (#[trigger] walked_envelope(
                store,
                at,
                seen,
                fuel,
            ).seen[k]) < store.envelopes().len(),
    decreases fuel, 1nat, 0nat,
{
    if fuel == 0 || !(0 <= at < store.envelopes().len()) {
    } else {
        let v = store.envelopes()[at].value;
        if is_compound(v) {
            if !seen.contains(at as usize) {
                let more = seen.push(at as usize);
                assert forall|k: int| 0 <= k < more.len() implies (#[trigger] more[k]) < store.envelopes().len() by {
                    if k < seen.len() {
                        assert(more[k] == seen[k]);
                    }
                }
                lemma_marks_in_store(store, v, more, (fuel - 1) as nat);
                assert(walked_envelope(store, at, seen, fuel) == walked(store, v, more, (fuel - 1) as nat));
            }
        } else {
            lemma_marks_in_store(store, v, seen, (fuel - 1) as nat);
            assert(walked_envelope(store, at, seen, fuel) == walked(store, v, seen, (fuel - 1) as nat));
        }
    }
}

/// Nothing is marked but envelopes of the store.
pub proof fn lemma_marks_in_store_cells(
    store: &Store,
    cells: Seq<usize>,
    i: int,
    separator: Seq<char>,
    labels: Seq<Seq<char>>,
    seen: Seq<usize>,
    fuel: nat,
)
    requires
        store.envelopes().len() <= usize::MAX,
        forall|k: int| 0 <= k < seen.len() ==> (#[trigger] seen[k]) < store.envelopes().len(),
    ensures
        forall|k: int|
            0 <= k < walked_cells(store, cells, i, separator, labels, seen, fuel).seen.len() ==> (#[trigger] walked_cells(
                store,
                cells,
                i,
                separator,
                labels,
                seen,
                fuel,
            ).seen[k]) < store.envelopes().len(),
    decreases fuel, 2nat, cells.len() - i,
{
    if i < 0 || i >= cells.len() {
    } else {
        lemma_marks_in_store_envelope(store, envelope_of_cell(store, cells[i]), seen, fuel);
        let here = walked_envelope(store, envelope_of_cell(store, cells[i]), seen, fuel);
        lemma_marks_in_store_cells(store, cells, i + 1, separator, labels, here.seen, fuel);
        assert(walked_cells(store, cells, i, separator, labels, seen, fuel).seen == walked_cells(
            store,
            cells,
            i + 1,
            separator,
            labels,
            here.seen,
            fuel,
        ).seen);
    }
}

/// The envelopes that bear the mark of the pass that is under way.
fn collect_marks(store: &Store) -> (r: Vec<usize>)
    ensures
        r@ == marks_of(store),
{
    let mut r: Vec<usize> = Vec::new();
    let n = store.envelope_count();
    let mut e: usize = 0;
    while e < n
        invariant
            e <= n,
            n == store.envelopes().len(),
            r@ == marked_before(store, e as int),
        decreases n - e,
    {
        if store.is_marked(e) {
            r.push(e);
        }
        e += 1;
    }
    r
}

/// Marks the envelopes that a pass has seen.
fn mark_all(store: &mut Store, seen: &Vec<usize>)
    requires
        old(store).wf(),
        forall|k: int| 0 <= k < seen@.len() ==> (#[trigger] seen@[k]) < old(store).envelopes().len(),
    ensures
        passed(old(store), final(store), seen@),
{
    let n = store.envelope_count();
    let mut i: usize = 0;
    assert(seen@.take(0).len() == 0);
    while i < seen.len()
        invariant
            i <= seen.len(),
            store.wf(),
            n == old(store).envelopes().len(),
            forall|k: int| 0 <= k < seen@.len() ==> (#[trigger] seen@[k]) < old(store).envelopes().len(),
            passed(old(store), store, seen@.take(i as int)),
        decreases seen.len() - i,
    {
        let ghost before = *store;
        let e = seen[i];
        store.visit(e);
        proof {
            let done = seen@.take(i as int);
            let more = seen@.take(i as int + 1);
            assert(more =~= done.push(e));
            assert forall|k: int| 0 <= k < store.envelopes().len() implies (store.marked(k) <==> old(store).marked(k)
                || more.contains(k as usize)) by {
                assert(before.marked(k) <==> old(store).marked(k) || done.contains(k as usize));
                if k == e {
                    assert(more[i as int] == e);
                    assert(more.contains(k as usize));
                } else {
                    assert(store.envelopes()[k] == before.envelopes()[k]);
                    assert(store.marked(k) == before.marked(k));
                    if done.contains(k as usize) {
                        let j = choose|j: int| 0 <= j < done.len() && done[j] == k as usize;
                        assert(more[j] == k as usize);
                        assert(more.contains(k as usize));
                    }
                    if more.contains(k as usize) {
                        let j = choose|j: int| 0 <= j < more.len() && more[j] == k as usize;
                        assert(j < done.len());
                        assert(done[j] == k as usize);
                        assert(done.contains(k as usize));
                    }
                }
            }
            assert forall|k: int| 0 <= k < store.envelopes().len() implies (#[trigger] store.envelopes()[k]).value
                == old(store).envelopes()[k].value by {
                assert(before.envelopes()[k].value == old(store).envelopes()[k].value);
            }
        }
        i += 1;
    }
    assert(seen@.take(seen@.len() as int) =~= seen@);
}

/// Whether a store is what another becomes when a pass has seen
/// envelopes: the envelopes that were seen bear the mark of the pass,
/// with those that bore it before, and every value is as it was.
pub open spec fn passed(before: &Store, after: &Store, seen: Seq<usize>) -> bool {
    &&& after.wf()
    &&& after.cells() == before.cells()
    &&& after.pass() == before.pass()
    &&& after.envelopes().len() == before.envelopes().len()
    &&& forall|k: int|
        0 <= k < before.envelopes().len() ==> (#[trigger] after.envelopes()[k]).value == before.envelopes()[k].value
    &&& forall|k: int|
        0 <= k < before.envelopes().len() ==> (after.marked(k) <==> before.marked(k) || seen.contains(k as usize))
}

/// The pieces that show a value in the pass that is under way. A
/// sequence or a structure in an envelope that the pass has marked is
/// shown as three dots, and the envelopes of those that are shown are
/// marked, so that what comes again in the same pass, also when
/// another value is shown, is shown as three dots.
pub fn display_in_pass(store: &mut Store, v: &Value) -> (out: Vec<Piece>)
    requires
        old(store).wf(),
        old(store).holds(*v),
    ensures
        piece_models(out@) == walked(old(store), *v, marks_of(old(store)), whole(old(store))).pieces,
        passed(old(store), final(store), walked(old(store), *v, marks_of(old(store)), whole(old(store))).seen),
{
    let mut out: Vec<Piece> = Vec::new();
    let mut seen = collect_marks(store);
    assert(piece_models(out@) =~= Seq::<PieceModel>::empty());
    let n = store.envelope_count();
    let fuel = if n < usize::MAX {
        n + 1
    } else {
        usize::MAX
    };
    proof {
        assert forall|k: int| 0 <= k < seen@.len() implies (#[trigger] seen@[k]) < store.envelopes().len() by {
            assert(seen@.contains(seen@[k]));
            lemma_marked_before(store, store.envelopes().len() as int, seen@[k]);
        }
        lemma_marks_in_store(store, *v, seen@, fuel as nat);
    }
    show(store, v, &mut seen, fuel, &mut out);
    assert(piece_models(out@) =~= walked(old(store), *v, marks_of(old(store)), whole(old(store))).pieces);
    mark_all(store, &seen);
    out
}

/// The pieces that show the values of a list, one after the other, in
/// the pass that is under way, as they are printed.
pub fn display_all_in_pass(store: &mut Store, args: &Vec<Value>) -> (out: Vec<Piece>)
    requires
        old(store).wf(),
        forall|i: int| 0 <= i < args@.len() ==> old(store).holds(#[trigger] args@[i]),
    ensures
        piece_models(out@) == walked_all(old(store), args@, 0, marks_of(old(store))).pieces,
        passed(old(store), final(store), walked_all(old(store), args@, 0, marks_of(old(store))).seen),
{
    let mut out: Vec<Piece> = Vec::new();
    let mut seen = collect_marks(store);
    let n = store.envelope_count();
    let fuel = if n < usize::MAX {
        n + 1
    } else {
        usize::MAX
    };
    let ghost all = walked_all(store, args@, 0, seen@);
    let mut i: usize = 0;
    assert(piece_models(out@) =~= Seq::<PieceModel>::empty());
    proof {
        assert forall|k: int| 0 <= k < seen@.len() implies (#[trigger] seen@[k]) < store.envelopes().len() by {
            assert(seen@.contains(seen@[k]));
            lemma_marked_before(store, store.envelopes().len() as int, seen@[k]);
        }
    }
    while i < args.len()
        invariant
            i <= args.len(),
            store.wf(),
            *store == *old(store),
            n == store.envelopes().len(),
            fuel == whole(store),
            forall|k: int| 0 <= k < args@.len() ==> store.holds(#[trigger] args@[k]),
            forall|k: int| 0 <= k < seen@.len() ==> (#[trigger] seen@[k]) < store.envelopes().len(),
            walked_all(store, args@, i as int, seen@).seen == all.seen,
            piece_models(out@) + walked_all(store, args@, i as int, seen@).pieces == all.pieces,
        decreases args.len() - i,
    {
        let ghost before = piece_models(out@);
        let ghost marked = seen@;
        proof {
            lemma_marks_in_store(store, args@[i as int], marked, fuel as nat);
        }
        show(store, &args[i], &mut seen, fuel, &mut out);
        proof {
            let here = walked(store, args@[i as int], marked, whole(store));
            let rest = walked_all(store, args@, i as int + 1, here.seen);
            assert(piece_models(out@) + rest.pieces =~= before + (here.pieces + rest.pieces));
        }
        i += 1;
    }
    assert(piece_models(out@) + Seq::<PieceModel>::empty() =~= piece_models(out@));
    mark_all(store, &seen);
    out
}

/// A message as pieces.
pub fn say(message: String) -> (out: Vec<Piece>)
    ensures
        piece_models(out@) == text(message@),
{
    let mut out: Vec<Piece> = Vec::new();
    out.push(Piece::Text(message));
    assert(piece_models(out@) =~= text(message@));
    out
}

/// A message about a value: a text, what shows the value, and a text.
pub fn say_about(head: &str, store: &Store, v: &Value, tail: String) -> (out: Vec<Piece>)
    requires
        store.wf(),
        store.holds(*v),
    ensures
        piece_models(out@) == text(head@) + shown(store, *v, Seq::empty(), whole(store)) + text(tail@),
{
    let mut out: Vec<Piece> = Vec::new();
    assert(piece_models(out@) =~= Seq::<PieceModel>::empty());
    push_text(&mut out, head);
    let mut seen: Vec<usize> = Vec::new();
    assert(seen@ =~= Seq::<usize>::empty());
    let n = store.envelope_count();
    let fuel = if n < usize::MAX {
        n + 1
    } else {
        usize::MAX
    };
    show(store, v, &mut seen, fuel, &mut out);
    push_string(&mut out, tail);
    assert(piece_models(out@) =~= text(head@) + shown(store, *v, Seq::empty(), whole(store)) + text(tail@));
    out
}

/// What showing the values of a list from index `i` on comes to, one
/// after the other in one pass: what one value marks is marked for the
/// values behind it.
pub open spec fn walked_all(store: &Store, args: Seq<Value>, i: int, seen: Seq<usize>) -> Walk
    decreases args.len() - i,
{
    if i < 0 || i >= args.len() {
        Walk { pieces: Seq::empty(), seen: seen }
    } else {
        let here = walked(store, args[i], seen, whole(store));
        let rest = walked_all(store, args, i + 1, here.seen);
        Walk { pieces: here.pieces + rest.pieces, seen: rest.seen }
    }
}

/// What is shown of the values of a list from index `i` on, one after
/// the other in one pass.
pub open spec fn shown_all(store: &Store, args: Seq<Value>, i: int) -> Seq<PieceModel> {
    walked_all(store, args, i, Seq::empty()).pieces
}

/// The pieces that show the values of a list, one after the other, as
/// they are printed in one pass.
pub fn display_all(store: &Store, args: &Vec<Value>) -> (out: Vec<Piece>)
    requires
        store.wf(),
        forall|i: int| 0 <= i < args@.len() ==> store.holds(#[trigger] args@[i]),
    ensures
        piece_models(out@) == shown_all(store, args@, 0),
{
    let mut out: Vec<Piece> = Vec::new();
    let mut seen: Vec<usize> = Vec::new();
    let n = store.envelope_count();
    let fuel = if n < usize::MAX {
        n + 1
    } else {
        usize::MAX
    };
    let mut i: usize = 0;
    assert(piece_models(out@) =~= Seq::<PieceModel>::empty());
    assert(seen@ =~= Seq::<usize>::empty());
    while i < args.len()
        invariant
            i <= args.len(),
            store.wf(),
            fuel == whole(store),
            forall|k: int| 0 <= k < args@.len() ==> store.holds(#[trigger] args@[k]),
            piece_models(out@) + walked_all(store, args@, i as int, seen@).pieces == shown_all(store, args@, 0),
        decreases args.len() - i,
    {
        let ghost before = piece_models(out@);
        let ghost marked = seen@;
        show(store, &args[i], &mut seen, fuel, &mut out);
        proof {
            let here = walked(store, args@[i as int], marked, whole(store));
            let rest = walked_all(store, args@, i as int + 1, here.seen);
            assert(piece_models(out@) + rest.pieces =~= before + (here.pieces + rest.pieces));
        }
        i += 1;
    }
    assert(piece_models(out@) + Seq::<PieceModel>::empty() =~= piece_models(out@));
    out
}

} // verus!
