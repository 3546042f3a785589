//! The display, as far as the built-in functions decide about it: the
//! mode it is in, the request that each function makes of it, and what
//! a request does to the contents of the window. The drawing itself is
//! done elsewhere.

use vstd::prelude::*;
use crate::execution::value::conversion::atom_to_int;
use crate::execution::value::{Store, Value};
use crate::text::string_is;
use self::actions::{Clear, Prepare, Request, RequestModel, SetLineWidth, SetPoint, Vector};
use self::draw::{drawing_models, Dot, Drawing, DrawingModel, Line, LineType, MoveTo, Text};

pub mod actions;
pub mod draw;

verus! {

/// The modes of the display: no window yet, drawing, and text only
/// with the window kept.
#[derive(Clone, Copy, Debug, PartialEq, Eq, Structural)]
pub enum GraphicsStates {
    Idle,
    Ardmode,
    Ttymode,
}

/// What a built-in function asks of the display: the request that is
/// to be sent, if any, and the mode that the display is in when the
/// request has been carried out.
#[derive(Debug)]
pub struct Asked {
    pub state: GraphicsStates,
    pub request: Option<Request>,
}

/// What is asked of the display, as plain data.
pub struct AskedModel {
    pub state: GraphicsStates,
    pub request: Option<RequestModel>,
}

impl Asked {
    pub open spec fn model(&self) -> AskedModel {
        AskedModel {
            state: self.state,
            request: match self.request {
                Some(r) => Some(r.model()),
                None => None,
            },
        }
    }
}

/// The message for drawing where the display is not in the mode for it.
pub open spec fn not_graphical_message() -> Seq<char> {
    "Not in graphical mode"@
}

/// The message for setting the width of lines where the display is
/// not in the mode for drawing.
pub open spec fn no_width_message() -> Seq<char> {
    "Not in graphiscal mode"@
}

/// What entering the mode for drawing asks for: a window of 1200 by
/// 1200 with the title `PPL` where there is none yet.
pub open spec fn asked_by_ardmode(state: GraphicsStates) -> AskedModel {
    AskedModel {
        state: GraphicsStates::Ardmode,
        request: if state is Idle {
            Some(RequestModel::Prepare { width: 1200, height: 1200, title: "PPL"@ })
        } else {
            None
        },
    }
}

/// Enters the mode for drawing.
pub fn ardmode(state: GraphicsStates) -> (r: Asked)
    ensures
        r.model() == asked_by_ardmode(state),
{
    match state {
        GraphicsStates::Idle => Asked {
            state: GraphicsStates::Ardmode,
            request: Some(Request::Prepare(Prepare::new(1200, 1200, "PPL"))),
        },
        _ => Asked { state: GraphicsStates::Ardmode, request: None },
    }
}

/// Leaves the mode for drawing. The window stays.
pub fn ttymode(state: GraphicsStates) -> (r: Asked)
    ensures
        r.request is None,
        r.state == if state is Ardmode {
            GraphicsStates::Ttymode
        } else {
            state
        },
{
    match state {
        GraphicsStates::Ardmode => Asked { state: GraphicsStates::Ttymode, request: None },
        other => Asked { state: other, request: None },
    }
}

/// What a function that draws asks for: nothing but in the mode for
/// drawing; there the request it makes of its two numbers.
pub open spec fn asked_of_two(
    state: GraphicsStates,
    x: Result<i32, Seq<char>>,
    y: Result<i32, Seq<char>>,
    dotted: Option<LineType>,
) -> Result<AskedModel, Seq<char>> {
    if !(state is Ardmode) {
        Err(not_graphical_message())
    } else {
        match x {
            Err(m) => Err(m),
            Ok(a) => match y {
                Err(m) => Err(m),
                Ok(b) => Ok(
                    AskedModel {
                        state: GraphicsStates::Ardmode,
                        request: Some(
                            match dotted {
                                Some(format) => RequestModel::Vector { dx: a as int, dy: b as int, format: format },
                                None => RequestModel::SetPoint(a as int, b as int),
                            },
                        ),
                    },
                ),
            },
        }
    }
}

/// Whether a result is what is to be asked of the display.
pub open spec fn asks(r: Result<Asked, String>, want: Result<AskedModel, Seq<char>>) -> bool {
    match (r, want) {
        (Ok(a), Ok(m)) => a.model() == m,
        (Err(e), Err(m)) => e@ == m,
        _ => false,
    }
}

/// Empties the window.
pub fn clearscreen(state: GraphicsStates) -> (r: Result<Asked, String>)
    ensures
        asks(
            r,
            if state is Ardmode {
                Ok(AskedModel { state: GraphicsStates::Ardmode, request: Some(RequestModel::Clear) })
            } else {
                Err(not_graphical_message())
            },
        ),
{
    match state {
        GraphicsStates::Ardmode => Ok(Asked { state: GraphicsStates::Ardmode, request: Some(Request::Clear(Clear::new())) }),
        _ => Err(String::from_str("Not in graphical mode")),
    }
}

/// Draws a dotted line through a displacement.
pub fn dottedvec(state: GraphicsStates, x: &Value, y: &Value, store: &Store) -> (r: Result<Asked, String>)
    requires
        store.wf(),
        store.holds(*x),
        store.holds(*y),
    ensures
        asks(
            r,
            asked_of_two(state, atom_to_int(store.atom(*x)), atom_to_int(store.atom(*y)), Some(LineType::Dotted)),
        ),
{
    match state {
        GraphicsStates::Ardmode => {},
        _ => {
            return Err(String::from_str("Not in graphical mode"));
        },
    }
    let dx = match x.as_i32(store) {
        Ok(v) => v,
        Err(e) => {
            return Err(e);
        },
    };
    let dy = match y.as_i32(store) {
        Ok(v) => v,
        Err(e) => {
            return Err(e);
        },
    };
    Ok(Asked { state: GraphicsStates::Ardmode, request: Some(Request::Vector(Vector::as_dotted(dx, dy))) })
}

/// Draws a solid line through a displacement.
pub fn solidvec(state: GraphicsStates, x: &Value, y: &Value, store: &Store) -> (r: Result<Asked, String>)
    requires
        store.wf(),
        store.holds(*x),
        store.holds(*y),
    ensures
        asks(
            r,
            asked_of_two(state, atom_to_int(store.atom(*x)), atom_to_int(store.atom(*y)), Some(LineType::Solid)),
        ),
{
    match state {
        GraphicsStates::Ardmode => {},
        _ => {
            return Err(String::from_str("Not in graphical mode"));
        },
    }
    let dx = match x.as_i32(store) {
        Ok(v) => v,
        Err(e) => {
            return Err(e);
        },
    };
    let dy = match y.as_i32(store) {
        Ok(v) => v,
        Err(e) => {
            return Err(e);
        },
    };
    Ok(Asked { state: GraphicsStates::Ardmode, request: Some(Request::Vector(Vector::as_solid(dx, dy))) })
}

/// Sets the beam to a place.
pub fn setpoint(state: GraphicsStates, x: &Value, y: &Value, store: &Store) -> (r: Result<Asked, String>)
    requires
        store.wf(),
        store.holds(*x),
        store.holds(*y),
    ensures
        asks(r, asked_of_two(state, atom_to_int(store.atom(*x)), atom_to_int(store.atom(*y)), None)),
{
    match state {
        GraphicsStates::Ardmode => {},
        _ => {
            return Err(String::from_str("Not in graphical mode"));
        },
    }
    let px = match x.as_i32(store) {
        Ok(v) => v,
        Err(e) => {
            return Err(e);
        },
    };
    let py = match y.as_i32(store) {
        Ok(v) => v,
        Err(e) => {
            return Err(e);
        },
    };
    Ok(Asked { state: GraphicsStates::Ardmode, request: Some(Request::SetPoint(SetPoint::new(px, py))) })
}

/// Sets the width of the lines that are drawn from now on.
pub fn setlinewidth(state: GraphicsStates, width: &Value, store: &Store) -> (r: Result<Asked, String>)
    requires
        store.wf(),
        store.holds(*width),
    ensures
        asks(
            r,
            if !(state is Ardmode) {
                Err(no_width_message())
            } else {
                match atom_to_int(store.atom(*width)) {
                    Ok(w) => Ok(
                        AskedModel {
                            state: GraphicsStates::Ardmode,
                            request: Some(RequestModel::SetLineWidth(w as int)),
                        },
                    ),
                    Err(m) => Err(m),
                }
            },
        ),
{
    match state {
        GraphicsStates::Ardmode => {},
        _ => {
            return Err(String::from_str("Not in graphiscal mode"));
        },
    }
    let w = match width.as_i32(store) {
        Ok(v) => v,
        Err(e) => {
            return Err(e);
        },
    };
    Ok(Asked { state: GraphicsStates::Ardmode, request: Some(Request::SetLineWidth(SetLineWidth::new(w))) })
}

/// What stands in the window, and the width of the lines that are
/// drawn next.
#[derive(Debug)]
pub struct Window {
    pub contents: Vec<Drawing>,
    pub line_width: i32,
}

/// A window as plain data.
pub struct WindowModel {
    pub contents: Seq<DrawingModel>,
    pub line_width: int,
}

/// The window when a request has been carried out: emptied; with
/// another width for the lines to come; with the beam set; with a line
/// of the width of the window behind what stands in it; with a text
/// behind it, or a dot for the text that is one full stop. Making and
/// closing the window leave what stands in it.
pub open spec fn performed(window: WindowModel, request: RequestModel) -> WindowModel {
    match request {
        RequestModel::Prepare { .. } => window,
        RequestModel::Close => window,
        RequestModel::Clear => WindowModel { contents: Seq::empty(), line_width: window.line_width },
        RequestModel::SetLineWidth(w) => WindowModel { contents: window.contents, line_width: w },
        RequestModel::SetPoint(x, y) => WindowModel {
            contents: window.contents.push(DrawingModel::Move(x, y)),
            line_width: window.line_width,
        },
        RequestModel::Vector { dx, dy, format } => WindowModel {
            contents: window.contents.push(
                DrawingModel::Line { dx: dx, dy: dy, format: format, width: window.line_width },
            ),
            line_width: window.line_width,
        },
        RequestModel::Print(s) => WindowModel {
            contents: window.contents.push(
                if s == "."@ {
                    DrawingModel::Dot(2)
                } else {
                    DrawingModel::Text(s)
                },
            ),
            line_width: window.line_width,
        },
    }
}

impl Window {
    pub open spec fn model(&self) -> WindowModel {
        WindowModel { contents: drawing_models(self.contents@), line_width: self.line_width as int }
    }

    /// A window with the beam in its middle and lines one point wide.
    pub fn new() -> (r: Window)
        ensures
            r.model() == (WindowModel { contents: seq![DrawingModel::Move(0, 0)], line_width: 1 }),
    {
        let mut contents: Vec<Drawing> = Vec::new();
        contents.push(Drawing::Move(MoveTo::new(0, 0)));
        let r = Window { contents: contents, line_width: 1 };
        assert(drawing_models(r.contents@) =~= seq![DrawingModel::Move(0, 0)]);
        r
    }

    /// Carries out a request on what stands in the window.
    pub fn perform(&mut self, request: &Request)
        ensures
            final(self).model() == performed(old(self).model(), request.model()),
    {
        let ghost before = drawing_models(self.contents@);
        match request {
            Request::Prepare(_) => {},
            Request::Close(_) => {},
            Request::Clear(_) => {
                self.contents.clear();
                assert(drawing_models(self.contents@) =~= Seq::<DrawingModel>::empty());
            },
            Request::SetLineWidth(w) => {
                self.line_width = w.width;
            },
            Request::SetPoint(p) => {
                self.contents.push(Drawing::Move(MoveTo::new(p.x, p.y)));
                assert(drawing_models(self.contents@) =~= before.push(DrawingModel::Move(p.x as int, p.y as int)));
            },
            Request::Vector(v) => {
                let width = self.line_width;
                self.contents.push(Drawing::Line(Line::new((v.dx, v.dy), v.format, width)));
                assert(drawing_models(self.contents@) =~= before.push(
                    DrawingModel::Line { dx: v.dx as int, dy: v.dy as int, format: v.format, width: width as int },
                ));
            },
            Request::Print(p) => {
                if string_is(&p.s, ".") {
                    self.contents.push(Drawing::Dot(Dot::new()));
                    assert(drawing_models(self.contents@) =~= before.push(DrawingModel::Dot(2)));
                } else {
                    self.contents.push(Drawing::Text(Text::new(&p.s)));
                    assert(drawing_models(self.contents@) =~= before.push(DrawingModel::Text(p.s@)));
                }
            },
        }
    }
}

} // verus!
