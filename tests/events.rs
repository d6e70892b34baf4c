use prism::event::{Button, Event, Key, KeyboardEvent, KeyboardState, MouseEvent, MouseState, NamedKey, TickEvent};
use prism::layout::Area;

fn area(x: i64, y: i64, w: u32, h: u32) -> Area {
    Area { offset: (x, y), size: (w, h) }
}

fn positions(r: &[Option<Event>]) -> Vec<Option<(i64, i64)>> {
    r.iter()
        .map(|e| match e {
            Some(Event::Mouse(m)) => m.position,
            _ => panic!("expected a pointer event"),
        })
        .collect()
}

#[test]
fn pointer_goes_to_topmost_child_only() {
    let children = vec![area(0, 0, 100, 100), area(10, 10, 50, 50), area(20, 20, 10, 10)];
    let e = MouseEvent { position: Some((25, 25)), state: MouseState::Pressed };
    let r = e.pass(&children);
    assert_eq!(positions(&r), vec![None, None, Some((5, 5))]);
    let e = MouseEvent { position: Some((40, 40)), state: MouseState::Moved };
    let r = e.pass(&children);
    assert_eq!(positions(&r), vec![None, Some((30, 30)), None]);
    assert!(r.iter().all(|x| matches!(x, Some(Event::Mouse(m)) if m.state == MouseState::Moved)));
}

#[test]
fn pointer_position_is_translated() {
    let children = vec![area(-5, 7, 20, 20)];
    let e = MouseEvent { position: Some((3, 10)), state: MouseState::Released };
    assert_eq!(positions(&e.pass(&children)), vec![Some((8, 3))]);
}

#[test]
fn pointer_on_edge_or_outside_hits_nothing() {
    let children = vec![area(0, 0, 10, 10), area(20, 0, 10, 10)];
    let e = MouseEvent { position: Some((10, 5)), state: MouseState::Pressed };
    assert_eq!(positions(&e.pass(&children)), vec![None, None]);
    let e = MouseEvent { position: None, state: MouseState::Released };
    assert_eq!(positions(&e.pass(&children)), vec![None, None]);
    let e = MouseEvent { position: Some((5, 5)), state: MouseState::Scroll(0, 3) };
    assert_eq!(positions(&e.pass(&vec![])), Vec::<Option<(i64, i64)>>::new());
}

#[test]
fn at_most_one_child_sees_a_position() {
    let children = vec![area(0, 0, 30, 30), area(0, 0, 30, 30), area(5, 5, 30, 30)];
    for p in [(1, 1), (10, 10), (31, 31), (50, 50)] {
        let r = MouseEvent { position: Some(p), state: MouseState::Moved }.pass(&children);
        assert!(positions(&r).iter().filter(|x| x.is_some()).count() <= 1);
    }
}

#[test]
fn keys_and_ticks_go_to_every_child() {
    let children = vec![area(0, 0, 1, 1), area(5, 5, 1, 1)];
    let k = Event::Keyboard(KeyboardEvent { key: Key::Character("a".to_string()), state: KeyboardState::Pressed });
    assert_eq!(k.clone().pass(&children), vec![Some(k.clone()), Some(k)]);
    let k = Event::Keyboard(KeyboardEvent { key: Key::Named(NamedKey::Enter), state: KeyboardState::Released });
    assert_eq!(k.clone().pass(&children), vec![Some(k.clone()), Some(k)]);
    let t = Event::Tick(TickEvent);
    assert_eq!(t.clone().pass(&children), vec![Some(t.clone()), Some(t)]);
    let b = Event::Button(Button::Pressed(true));
    assert_eq!(b.clone().pass(&children), vec![Some(b.clone()), Some(b)]);
}

#[test]
fn event_pass_hit_tests_pointer_events() {
    let children = vec![area(0, 0, 10, 10)];
    let e = Event::Mouse(MouseEvent { position: Some((2, 3)), state: MouseState::Pressed });
    assert_eq!(e.clone().duplicate(), e);
    assert_eq!(positions(&e.pass(&children)), vec![Some((2, 3))]);
}
