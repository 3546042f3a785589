//! What can stand in the window of the display.

use vstd::prelude::*;

verus! {

/// A dot at the place of the beam.
#[derive(Debug)]
pub struct Dot {
    pub radius: i32,
}

impl Dot {
    /// A dot of two points across.
    pub fn new() -> (r: Dot)
        ensures
            r.radius == 2,
    {
        Dot { radius: 2 }
    }
}

/// How a line is drawn.
#[derive(Clone, Copy, Debug, PartialEq, Eq, Structural)]
pub enum LineType {
    Dotted,
    Solid,
}

/// A line from the place of the beam through a displacement.
#[derive(Debug)]
pub struct Line {
    pub delta: (i32, i32),
    pub format: LineType,
    pub width: i32,
}

impl Line {
    pub fn new(delta: (i32, i32), format: LineType, width: i32) -> (r: Line)
        ensures
            r.delta == delta,
            r.format == format,
            r.width == width,
    {
        Line { delta: delta, format: format, width: width }
    }
}

/// The beam is set to a place.
#[derive(Debug)]
pub struct MoveTo {
    pub position: (i32, i32),
}

impl MoveTo {
    pub fn new(x: i32, y: i32) -> (r: MoveTo)
        ensures
            r.position == (x, y),
    {
        MoveTo { position: (x, y) }
    }
}

/// A text at the place of the beam.
#[derive(Debug)]
pub struct Text {
    pub s: String,
}

impl Text {
    pub fn new(s: &String) -> (r: Text)
        ensures
            r.s@ == s@,
    {
        Text { s: s.clone() }
    }
}

/// One thing that stands in the window.
#[derive(Debug)]
pub enum Drawing {
    Move(MoveTo),
    Line(Line),
    Dot(Dot),
    Text(Text),
}

/// One thing that stands in the window, as plain data.
pub enum DrawingModel {
    Move(int, int),
    Line { dx: int, dy: int, format: LineType, width: int },
    Dot(int),
    Text(Seq<char>),
}

impl Drawing {
    pub open spec fn model(&self) -> DrawingModel {
        match self {
            Drawing::Move(m) => DrawingModel::Move(m.position.0 as int, m.position.1 as int),
            Drawing::Line(l) => DrawingModel::Line {
                dx: l.delta.0 as int,
                dy: l.delta.1 as int,
                format: l.format,
                width: l.width as int,
            },
            Drawing::Dot(d) => DrawingModel::Dot(d.radius as int),
            Drawing::Text(t) => DrawingModel::Text(t.s@),
        }
    }
}

/// The models of what stands in the window.
pub open spec fn drawing_models(contents: Seq<Drawing>) -> Seq<DrawingModel> {
    Seq::new(contents.len(), |i: int| contents[i].model())
}

} // verus!
