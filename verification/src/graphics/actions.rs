//! The requests that are made of the display.

use vstd::prelude::*;
use super::draw::LineType;

verus! {

/// A displacement.
#[derive(Debug)]
pub struct DeltaPosition {
    pub dx: i32,
    pub dy: i32,
}

/// A place in the window.
#[derive(Debug)]
pub struct Position {
    pub x: i32,
    pub y: i32,
}

/// How a window is to be made.
#[derive(Debug)]
pub struct WindowConfiguration {
    pub window_width: i32,
    pub window_height: i32,
    pub title: String,
}

/// The window is to be emptied.
#[derive(Debug)]
pub struct Clear {}

impl Clear {
    pub fn new() -> (r: Clear) {
        Clear {  }
    }
}

/// The window is to be closed.
#[derive(Debug)]
pub struct Close {}

impl Close {
    pub fn new() -> (r: Close) {
        Close {  }
    }
}

/// A window is to be made.
#[derive(Debug)]
pub struct Prepare {
    pub window_width: i32,
    pub window_height: i32,
    pub title: String,
}

impl Prepare {
    pub fn new(window_width: i32, window_height: i32, title: &str) -> (r: Prepare)
        ensures
            r.window_width == window_width,
            r.window_height == window_height,
            r.title@ == title@,
    {
        Prepare { window_height: window_height, window_width: window_width, title: String::from_str(title) }
    }
}

/// A text is to be shown at the place of the beam.
#[derive(Debug)]
pub struct Print {
    pub s: String,
}

impl Print {
    pub fn new(s: &str) -> (r: Print)
        ensures
            r.s@ == s@,
    {
        Print { s: String::from_str(s) }
    }
}

/// Lines are to be drawn with a width from now on.
#[derive(Debug)]
pub struct SetLineWidth {
    pub width: i32,
}

impl SetLineWidth {
    pub fn new(width: i32) -> (r: SetLineWidth)
        ensures
            r.width == width,
    {
        SetLineWidth { width: width }
    }
}

/// The beam is to be set to a place.
#[derive(Debug)]
pub struct SetPoint {
    pub x: i32,
    pub y: i32,
}

impl SetPoint {
    pub fn new(x: i32, y: i32) -> (r: SetPoint)
        ensures
            r.x == x,
            r.y == y,
    {
        SetPoint { x: x, y: y }
    }
}

/// A line is to be drawn from the place of the beam through a displacement.
#[derive(Debug)]
pub struct Vector {
    pub dx: i32,
    pub dy: i32,
    pub format: LineType,
}

impl Vector {
    pub fn as_dotted(dx: i32, dy: i32) -> (r: Vector)
        ensures
            r.dx == dx,
            r.dy == dy,
            r.format == LineType::Dotted,
    {
        Vector { dx: dx, dy: dy, format: LineType::Dotted }
    }

    pub fn as_solid(dx: i32, dy: i32) -> (r: Vector)
        ensures
            r.dx == dx,
            r.dy == dy,
            r.format == LineType::Solid,
    {
        Vector { dx: dx, dy: dy, format: LineType::Solid }
    }
}

/// A request to the display.
#[derive(Debug)]
pub enum Request {
    Prepare(Prepare),
    Close(Close),
    Clear(Clear),
    SetLineWidth(SetLineWidth),
    SetPoint(SetPoint),
    Vector(Vector),
    Print(Print),
}

/// A request to the display, as plain data.
pub enum RequestModel {
    Prepare { width: int, height: int, title: Seq<char> },
    Close,
    Clear,
    SetLineWidth(int),
    SetPoint(int, int),
    Vector { dx: int, dy: int, format: LineType },
    Print(Seq<char>),
}

impl Request {
    pub open spec fn model(&self) -> RequestModel {
        match self {
            Request::Prepare(p) => RequestModel::Prepare {
                width: p.window_width as int,
                height: p.window_height as int,
                title: p.title@,
            },
            Request::Close(_) => RequestModel::Close,
            Request::Clear(_) => RequestModel::Clear,
            Request::SetLineWidth(w) => RequestModel::SetLineWidth(w.width as int),
            Request::SetPoint(p) => RequestModel::SetPoint(p.x as int, p.y as int),
            Request::Vector(v) => RequestModel::Vector { dx: v.dx as int, dy: v.dy as int, format: v.format },
            Request::Print(p) => RequestModel::Print(p.s@),
        }
    }
}

} // verus!
