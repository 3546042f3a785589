use ppl::execution::value::{Store, Value};
use ppl::graphics::actions::{Clear, Close, Prepare, Print, Request, SetLineWidth, SetPoint, Vector};
use ppl::graphics::draw::{Dot, Drawing, Line, LineType, MoveTo, Text};
use ppl::graphics::{ardmode, clearscreen, dottedvec, setlinewidth, setpoint, solidvec, ttymode, GraphicsStates, Window};

#[test]
fn the_mode_for_drawing_is_entered_and_left() {
    let asked = ardmode(GraphicsStates::Idle);
    assert_eq!(GraphicsStates::Ardmode, asked.state);
    match asked.request {
        Some(Request::Prepare(p)) => {
            assert_eq!(1200, p.window_width);
            assert_eq!(1200, p.window_height);
            assert_eq!("PPL", p.title);
        },
        other => panic!("{:?}", other),
    }
    let asked = ardmode(GraphicsStates::Ttymode);
    assert_eq!(GraphicsStates::Ardmode, asked.state);
    assert!(asked.request.is_none());
    let asked = ardmode(GraphicsStates::Ardmode);
    assert_eq!(GraphicsStates::Ardmode, asked.state);
    assert!(asked.request.is_none());
    assert_eq!(GraphicsStates::Ttymode, ttymode(GraphicsStates::Ardmode).state);
    assert_eq!(GraphicsStates::Idle, ttymode(GraphicsStates::Idle).state);
    assert_eq!(GraphicsStates::Ttymode, ttymode(GraphicsStates::Ttymode).state);
    assert!(ttymode(GraphicsStates::Ardmode).request.is_none());
}

#[test]
fn nothing_is_drawn_but_in_the_mode_for_drawing() {
    let store = Store::new();
    let (three, four) = (Value::Int(3), Value::Int(-4));
    for state in [GraphicsStates::Idle, GraphicsStates::Ttymode] {
        assert_eq!(Some(String::from("Not in graphical mode")), clearscreen(state).err());
        assert_eq!(Some(String::from("Not in graphical mode")), dottedvec(state, &three, &four, &store).err());
        assert_eq!(Some(String::from("Not in graphical mode")), solidvec(state, &three, &four, &store).err());
        assert_eq!(Some(String::from("Not in graphical mode")), setpoint(state, &three, &four, &store).err());
        assert_eq!(Some(String::from("Not in graphiscal mode")), setlinewidth(state, &three, &store).err());
    }
    let state = GraphicsStates::Ardmode;
    assert!(matches!(clearscreen(state).unwrap().request, Some(Request::Clear(_))));
    match dottedvec(state, &three, &four, &store).unwrap().request {
        Some(Request::Vector(v)) => {
            assert_eq!((3, -4), (v.dx, v.dy));
            assert_eq!(LineType::Dotted, v.format);
        },
        other => panic!("{:?}", other),
    }
    match solidvec(state, &Value::Bool(true), &Value::Char('7'), &store).unwrap().request {
        Some(Request::Vector(v)) => {
            assert_eq!((1, 7), (v.dx, v.dy));
            assert_eq!(LineType::Solid, v.format);
        },
        other => panic!("{:?}", other),
    }
    match setpoint(state, &three, &four, &store).unwrap().request {
        Some(Request::SetPoint(p)) => assert_eq!((3, -4), (p.x, p.y)),
        other => panic!("{:?}", other),
    }
    match setlinewidth(state, &four, &store).unwrap().request {
        Some(Request::SetLineWidth(w)) => assert_eq!(-4, w.width),
        other => panic!("{:?}", other),
    }
    assert_eq!(Some(String::from("Unable to cast to INT")), setpoint(state, &Value::Empty, &four, &store).err());
    assert_eq!(Some(String::from("Unable to cast to INT")), setpoint(state, &three, &Value::Empty, &store).err());
    assert_eq!(Some(String::from("Unable to cast to INT")), setlinewidth(state, &Value::Empty, &store).err());
    assert_eq!(GraphicsStates::Ardmode, setpoint(state, &three, &four, &store).unwrap().state);
}

#[test]
fn a_request_changes_what_stands_in_the_window() {
    let mut window = Window::new();
    assert_eq!(1, window.line_width);
    assert!(matches!(&window.contents[..], [Drawing::Move(m)] if m.position == (0, 0)));
    window.perform(&Request::SetLineWidth(SetLineWidth::new(3)));
    assert_eq!(3, window.line_width);
    assert_eq!(1, window.contents.len());
    window.perform(&Request::Vector(Vector::as_dotted(5, 6)));
    match &window.contents[1] {
        Drawing::Line(l) => {
            assert_eq!((5, 6), l.delta);
            assert_eq!(LineType::Dotted, l.format);
            assert_eq!(3, l.width);
        },
        other => panic!("{:?}", other),
    }
    window.perform(&Request::SetPoint(SetPoint::new(-1, 2)));
    assert!(matches!(&window.contents[2], Drawing::Move(m) if m.position == (-1, 2)));
    window.perform(&Request::Print(Print::new(".")));
    assert!(matches!(&window.contents[3], Drawing::Dot(d) if d.radius == 2));
    window.perform(&Request::Print(Print::new("..")));
    assert!(matches!(&window.contents[4], Drawing::Text(t) if t.s == ".."));
    window.perform(&Request::Prepare(Prepare::new(10, 20, "w")));
    window.perform(&Request::Close(Close::new()));
    assert_eq!(5, window.contents.len());
    assert_eq!(3, window.line_width);
    window.perform(&Request::Clear(Clear::new()));
    assert_eq!(0, window.contents.len());
    assert_eq!(3, window.line_width);
    assert_eq!(2, Dot::new().radius);
    assert_eq!((1, 2), MoveTo::new(1, 2).position);
    assert_eq!("abc", Text::new(&String::from("abc")).s);
    let line = Line::new((1, 2), LineType::Solid, 4);
    assert_eq!(((1, 2), LineType::Solid, 4), (line.delta, line.format, line.width));
}
