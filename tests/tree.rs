use prism::event::{Event, MouseEvent, MouseState};
use prism::drawable::{Content, Node, Paint, Policy};
use prism::emitters::{Button, Handler, Slider};
use prism::event::Button as ButtonEvent;
use prism::layout::{Offset, Padding, Size, SizeRequest};
use prism::policy::{Column, Row, Stack};

fn item(w: u32, h: u32, id: u64) -> Node {
    Node { handler: Handler::Pass, content: Content::Item((w, h), id), children: vec![] }
}

fn row(children: Vec<Node>) -> Node {
    Node { handler: Handler::Pass, content: Content::Layout(Policy::Row(Row::start(2))), children }
}

#[test]
fn request_tree_mirrors_nodes() {
    let n = row(vec![item(10, 5, 1), item(20, 8, 2)]);
    let rt = n.request_size();
    assert_eq!(rt.0, SizeRequest::new(32, 8, 32, 8));
    assert_eq!(rt.1.len(), 2);
    assert_eq!(rt.1[1].0, SizeRequest::fixed((20, 8)));
    let empty = Node { handler: Handler::Pass, content: Content::Nothing, children: vec![item(1, 1, 9)] };
    let rt = empty.request_size();
    assert_eq!(rt.0, SizeRequest::new(0, 0, 0, 0));
    assert!(rt.1.is_empty());
}

#[test]
fn sized_tree_has_one_entry_per_child() {
    let mut n = Node {
        handler: Handler::Pass,
        content: Content::Layout(Policy::Stack(Stack::new(Offset::Start, Offset::Start, Size::Fill, Size::Fill, Padding::default()))),
        children: vec![item(10, 5, 1), row(vec![item(3, 3, 2), item(4, 4, 3), item(5, 5, 4)]), item(1, 1, 5)],
    };
    let rt = n.request_size();
    let st = n.build((50, 40), rt);
    assert_eq!(st.0, (50, 40));
    assert_eq!(st.1.len(), 3);
    assert_eq!((st.1[0].1).0, (10, 5));
    assert_eq!((st.1[1].1).1.len(), 3);
    assert_eq!(((st.1[1].1).1[1].1).0, (4, 4));
    assert_eq!((st.1[1].1).1[1].0, (5, 0));
    assert!((st.1[2].1).1.is_empty());
}

#[test]
fn draw_accumulates_offsets_and_skips_empty_bounds() {
    let mut n = Node {
        handler: Handler::Pass,
        content: Content::Layout(Policy::Column(Column::start(0))),
        children: vec![item(10, 5, 1), item(0, 5, 2), item(10, 5, 3)],
    };
    let rt = n.request_size();
    let st = n.build((10, 15), rt);
    let paints = n.draw(&st, (100, 200), (0, 0, 1000, 1000));
    assert_eq!(
        paints,
        vec![
            Paint { offset: (100, 200), bound: (100, 200, 10, 5), item: 1 },
            Paint { offset: (100, 210), bound: (100, 210, 10, 5), item: 3 },
        ]
    );
}

#[test]
fn scrolled_column_moves_children() {
    let mut n = Node {
        handler: Handler::Pass,
        content: Content::Layout(Policy::Column(Column::new(0, Offset::Start, Size::Fit, Padding::default(), true))),
        children: vec![item(10, 10, 1), item(10, 10, 2), item(10, 10, 3)],
    };
    if let Content::Layout(Policy::Column(c)) = &mut n.content {
        c.set_scroll(15);
    }
    let rt = n.request_size();
    let st = n.build((10, 10), rt);
    assert_eq!(st.1[0].0, (0, -15));
    assert_eq!(st.1[2].0, (0, 5));
    match n.content {
        Content::Layout(Policy::Column(c)) => assert_eq!(c.4, Some(15)),
        _ => unreachable!(),
    }
}

#[test]
fn routing_delivers_pointer_to_topmost_child() {
    let n = Node {
        handler: Handler::Pass,
        content: Content::Layout(Policy::Stack(Stack::start())),
        children: vec![item(20, 20, 1), item(10, 10, 2), row(vec![item(1, 1, 3)])],
    };
    let rt = n.request_size();
    let mut n = n;
    let st = n.build((20, 20), rt);
    let e = Event::Mouse(MouseEvent { position: Some((5, 5)), state: MouseState::Pressed });
    let (d, requests) = n.route(&st, e.clone(), false);
    assert!(requests.is_empty());
    let got: Vec<(Vec<usize>, Event)> = d.into_iter().map(|x| (x.path, x.event)).collect();
    let at = |p: Option<(i64, i64)>| Event::Mouse(MouseEvent { position: p, state: MouseState::Pressed });
    assert_eq!(
        got,
        vec![
            (vec![], e),
            (vec![0], at(None)),
            (vec![1], at(Some((5, 5)))),
            (vec![2], at(None)),
            (vec![2, 0], at(None)),
        ]
    );
}

#[test]
fn handler_translates_before_children_receive() {
    let mut n = Node {
        handler: Handler::Button(Button::new()),
        content: Content::Layout(Policy::Stack(Stack::start())),
        children: vec![item(20, 20, 1), item(10, 10, 2)],
    };
    let rt = n.request_size();
    let st = n.build((20, 20), rt);
    let e = Event::Mouse(MouseEvent { position: Some((5, 5)), state: MouseState::Pressed });
    let (d, requests) = n.route(&st, e.clone(), false);
    assert!(requests.is_empty());
    let got: Vec<(Vec<usize>, Event)> = d.into_iter().map(|x| (x.path, x.event)).collect();
    let b = Event::Button(ButtonEvent::Pressed(true));
    assert_eq!(got, vec![(vec![], e), (vec![0], b.clone()), (vec![1], b)]);
}

#[test]
fn stateful_handlers_keep_their_state_across_routes() {
    let mut n = Node {
        handler: Handler::Pass,
        content: Content::Layout(Policy::Stack(Stack::start())),
        children: vec![Node { handler: Handler::Slider(Slider::new()), content: Content::Item((10, 10), 1), children: vec![] }],
    };
    let rt = n.request_size();
    let st = n.build((10, 10), rt);
    let press = Event::Mouse(MouseEvent { position: Some((4, 4)), state: MouseState::Pressed });
    let (d, _) = n.route(&st, press, false);
    assert_eq!(d.len(), 2);
    assert_eq!(n.children[0].handler, Handler::Slider(Slider(true)));
    let moved = Event::Mouse(MouseEvent { position: Some((6, 4)), state: MouseState::Moved });
    let (d, _) = n.route(&st, moved, false);
    assert_eq!(d[1].path, vec![0]);
    assert_eq!(n.children[0].handler, Handler::Slider(Slider(true)));
}

#[test]
fn draw_culls_children_outside_the_bound() {
    let mut n = Node {
        handler: Handler::Pass,
        content: Content::Layout(Policy::Column(Column::start(0))),
        children: vec![item(10, 5, 1), item(10, 5, 2)],
    };
    let rt = n.request_size();
    let st = n.build((10, 10), rt);
    let paints = n.draw(&st, (0, 0), (2, 0, 6, 7));
    assert_eq!(
        paints,
        vec![
            Paint { offset: (0, 0), bound: (2, 0, 6, 5), item: 1 },
            Paint { offset: (0, 5), bound: (2, 5, 6, 2), item: 2 },
        ]
    );
    assert!(n.draw(&st, (0, 0), (20, 0, 5, 5)).is_empty());
}
