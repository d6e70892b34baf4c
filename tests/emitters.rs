use prism::emitters::{Button, NumericalInput, Scrollable, Selectable, Slider, TextInput};
use prism::event::{
    Button as ButtonEvent, Event, Key, KeyboardEvent, KeyboardState, MouseEvent, MouseState, NamedKey,
    NumericalInput as NumericalEvent,
    Selectable as SelectableEvent, Slider as SliderEvent, TextInput as TextInputEvent, TickEvent,
};
use prism::Request;

fn mouse(position: Option<(i64, i64)>, state: MouseState) -> Event {
    Event::Mouse(MouseEvent { position, state })
}

fn key_press() -> Event {
    Event::Keyboard(KeyboardEvent { key: Key::Character("x".to_string()), state: KeyboardState::Pressed })
}

#[test]
fn button_translates_pointer_input() {
    let b = Button::new();
    assert_eq!(b.on_event(mouse(Some((1, 1)), MouseState::Pressed), false), vec![Event::Button(ButtonEvent::Pressed(true))]);
    assert_eq!(b.on_event(mouse(None, MouseState::Moved), false), vec![Event::Button(ButtonEvent::Hover(false))]);
    assert_eq!(b.on_event(mouse(Some((1, 1)), MouseState::Scroll(0, 1)), false), vec![Event::Button(ButtonEvent::Hover(true))]);
    assert_eq!(b.on_event(mouse(Some((1, 1)), MouseState::Released), false), vec![Event::Button(ButtonEvent::Hover(true))]);
    assert_eq!(b.on_event(mouse(Some((1, 1)), MouseState::Released), true), vec![Event::Button(ButtonEvent::Pressed(false))]);
    assert_eq!(b.on_event(mouse(None, MouseState::Pressed), false), vec![mouse(None, MouseState::Pressed)]);
    assert_eq!(b.on_event(mouse(None, MouseState::Moved), true), vec![mouse(None, MouseState::Moved)]);
    assert_eq!(b.on_event(Event::Tick(TickEvent), false), vec![Event::Tick(TickEvent)]);
}

#[test]
fn slider_tracks_between_press_and_release() {
    let mut s = Slider::new();
    assert_eq!(s.on_event(mouse(Some((5, 1)), MouseState::Moved)), vec![]);
    assert_eq!(s.on_event(mouse(Some((7, 1)), MouseState::Pressed)), vec![Event::Slider(SliderEvent::Start(7))]);
    assert!(s.0);
    assert_eq!(s.on_event(mouse(Some((9, 1)), MouseState::Moved)), vec![Event::Slider(SliderEvent::Moved(9))]);
    assert_eq!(s.on_event(mouse(None, MouseState::Moved)), vec![]);
    assert_eq!(s.on_event(mouse(None, MouseState::Released)), vec![]);
    assert!(!s.0);
    assert_eq!(s.on_event(key_press()), vec![key_press()]);
}

#[test]
fn text_input_focus_and_keys() {
    let mut t = TextInput::new();
    assert_eq!(t.on_event(key_press(), false), vec![]);
    assert_eq!(
        t.on_event(mouse(None, MouseState::Moved), false),
        vec![Event::TextInput(TextInputEvent::Hover(false)), mouse(None, MouseState::Moved)]
    );
    let press = mouse(Some((1, 1)), MouseState::Pressed);
    assert_eq!(t.on_event(press.clone(), false), vec![Event::TextInput(TextInputEvent::Focused(true)), press]);
    assert!(t.0);
    assert_eq!(t.on_event(key_press(), false), vec![key_press()]);
    assert_eq!(t.on_event(mouse(None, MouseState::Moved), false), vec![mouse(None, MouseState::Moved)]);
    let outside = mouse(None, MouseState::Pressed);
    assert_eq!(t.on_event(outside.clone(), true), vec![outside.clone()]);
    assert!(t.0);
    assert_eq!(t.on_event(outside.clone(), false), vec![Event::TextInput(TextInputEvent::Focused(false)), outside]);
    assert!(!t.0);
}

#[test]
fn scrollable_turns_short_drags_into_presses() {
    let mut s = Scrollable::new();
    assert_eq!(s.on_event(mouse(Some((3, 10)), MouseState::Pressed)), vec![]);
    assert_eq!(s.0, (3, 10));
    assert_eq!(
        s.on_event(mouse(Some((8, 14)), MouseState::Released)),
        vec![mouse(Some((8, 14)), MouseState::Pressed)]
    );
    s.on_event(mouse(Some((3, 10)), MouseState::Pressed));
    assert_eq!(s.on_event(mouse(Some((3, 15)), MouseState::Released)), vec![]);
    assert_eq!(s.on_event(mouse(Some((3, 15)), MouseState::Moved)), vec![mouse(Some((3, 15)), MouseState::Moved)]);
    assert_eq!(s.on_event(mouse(None, MouseState::Released)), vec![mouse(None, MouseState::Released)]);
}

#[test]
fn selectable_announces_and_resolves() {
    let a = Selectable::new(7);
    let b = Selectable::new(7);
    assert_eq!(a.group, 7);
    assert_ne!(a.id, b.id);
    let press = mouse(Some((1, 1)), MouseState::Pressed);
    let (events, request) = a.on_event(press.clone());
    assert_eq!(events, vec![press]);
    let announced = Event::Selectable(SelectableEvent::Pressed(a.id, 7));
    assert_eq!(request, Some(Request::Event(announced.clone())));
    assert_eq!(a.on_event(announced.clone()).0, vec![Event::Selectable(SelectableEvent::Selected(true))]);
    assert_eq!(b.on_event(announced.clone()).0, vec![Event::Selectable(SelectableEvent::Selected(false))]);
    let other = Selectable { id: 1, group: 8 };
    assert_eq!(other.on_event(announced.clone()), (vec![announced], None));
}

#[test]
fn numerical_input_reads_digits_and_separators() {
    let n = NumericalInput::new();
    let press = |k: Key| Event::Keyboard(KeyboardEvent { key: k, state: KeyboardState::Pressed });
    assert_eq!(n.on_event(press(Key::Named(NamedKey::Delete))), vec![Event::NumericalInput(NumericalEvent::Delete)]);
    assert_eq!(n.on_event(press(Key::Character("7".to_string()))), vec![Event::NumericalInput(NumericalEvent::Digit('7'))]);
    assert_eq!(n.on_event(press(Key::Character("0x".to_string()))), vec![Event::NumericalInput(NumericalEvent::Digit('0'))]);
    assert_eq!(n.on_event(press(Key::Character(":".to_string()))), vec![Event::NumericalInput(NumericalEvent::Char(':'))]);
    for other in [Key::Character("a".to_string()), Key::Character(String::new()), Key::Named(NamedKey::Enter)] {
        assert_eq!(n.on_event(press(other.clone())), vec![press(other)]);
    }
    let release = Event::Keyboard(KeyboardEvent { key: Key::Character("7".to_string()), state: KeyboardState::Released });
    assert_eq!(n.on_event(release.clone()), vec![release]);
}
