//! Emitters: stateful translators that turn raw pointer and key events
//! into semantic events for the subtree they wrap. Each takes one event and
//! returns the events that continue down the tree, in order.
use vstd::prelude::*;
use crate::event::{
    Button as ButtonEvent, Event, Key, KeyboardEvent, KeyboardState, MouseEvent, MouseState,
    NamedKey, NumericalInput as NumericalEvent,
    Selectable as SelectableEvent, Slider as SliderEvent, TextInput as TextInputEvent,
};
use crate::Request;

verus! {

/// Relies on uuid's `Uuid::new_v4` for a random identifier, read as its
/// 128-bit value.
#[verifier::external_body]
fn random_id() -> (r: u128) {
    uuid::Uuid::new_v4().as_u128()
}

/// The pointer moved or scrolled.
pub open spec fn is_hover_move(s: MouseState) -> bool {
    s is Moved || s is Scroll
}

/// What a button lets through for `event`.
pub open spec fn button_events(event: Event, mobile: bool) -> Seq<Event> {
    match event {
        Event::Mouse(m) => if m.state is Pressed && m.position is Some {
            seq![Event::Button(ButtonEvent::Pressed(true))]
        } else if is_hover_move(m.state) && !mobile {
            seq![Event::Button(ButtonEvent::Hover(m.position is Some))]
        } else if m.state is Released {
            if !mobile && m.position is Some {
                seq![Event::Button(ButtonEvent::Hover(true))]
            } else {
                seq![Event::Button(ButtonEvent::Pressed(false))]
            }
        } else {
            seq![event]
        },
        _ => seq![event],
    }
}

/// Pointer input seen as a button.
#[derive(Clone, Copy, Debug, PartialEq, Eq)]
pub struct Button;

impl Button {
    pub fn new() -> (r: Self)
        ensures
            r == Button,
    {
        Button
    }

    /// A press over the button, hover changes (not on touch devices) and
    /// releases become button events; anything else goes on unchanged.
    pub fn on_event(&self, event: Event, mobile: bool) -> (r: Vec<Event>)
        ensures
            r@ == button_events(event, mobile),
    {
        let out = match &event {
            Event::Mouse(m) => {
                let moved = match m.state {
                    MouseState::Moved | MouseState::Scroll(..) => true,
                    _ => false,
                };
                if m.state == MouseState::Pressed && m.position.is_some() {
                    Event::Button(ButtonEvent::Pressed(true))
                } else if moved && !mobile {
                    Event::Button(ButtonEvent::Hover(m.position.is_some()))
                } else if m.state == MouseState::Released {
                    if !mobile && m.position.is_some() {
                        Event::Button(ButtonEvent::Hover(true))
                    } else {
                        Event::Button(ButtonEvent::Pressed(false))
                    }
                } else {
                    event
                }
            },
            _ => event,
        };
        let mut r: Vec<Event> = Vec::new();
        r.push(out);
        assert(r@ =~= seq![out]);
        r
    }
}

/// Whether a slider tracks after `event`, and what it lets through.
pub open spec fn slider_events(tracking: bool, event: Event) -> (bool, Seq<Event>) {
    match event {
        Event::Mouse(m) => match m.position {
            Some(p) if m.state is Pressed => (true, seq![Event::Slider(SliderEvent::Start(p.0))]),
            _ => if m.state is Released {
                (false, seq![])
            } else if is_hover_move(m.state) && tracking && m.position is Some {
                (tracking, seq![Event::Slider(SliderEvent::Moved(crate::event::pointer(m).0))])
            } else {
                (tracking, seq![])
            },
        },
        _ => (tracking, seq![event]),
    }
}

/// Pointer input seen as a slider: a press starts tracking, moves while
/// tracking report the pointer's horizontal position, a release stops.
#[derive(Clone, Copy, Debug, PartialEq, Eq)]
pub struct Slider(pub bool);

impl Slider {
    pub fn new() -> (r: Self)
        ensures
            r == Slider(false),
    {
        Slider(false)
    }

    /// Pointer events become slider events, or nothing; others go on.
    pub fn on_event(&mut self, event: Event) -> (r: Vec<Event>)
        ensures
            (final(self).0, r@) == slider_events(old(self).0, event),
    {
        let mut r: Vec<Event> = Vec::new();
        match &event {
            Event::Mouse(m) => {
                let moved = match m.state {
                    MouseState::Moved | MouseState::Scroll(..) => true,
                    _ => false,
                };
                match m.position {
                    Some(p) if m.state == MouseState::Pressed => {
                        self.0 = true;
                        r.push(Event::Slider(SliderEvent::Start(p.0)));
                    },
                    _ => {
                        if m.state == MouseState::Released {
                            self.0 = false;
                        } else if moved && self.0 && m.position.is_some() {
                            match m.position {
                                Some(p) => r.push(Event::Slider(SliderEvent::Moved(p.0))),
                                None => {},
                            }
                        }
                    },
                }
            },
            _ => r.push(event),
        }
        assert(r@ =~= slider_events(old(self).0, event).1);
        r
    }
}

/// Whether a text field is focused after `event`, and what it lets through.
pub open spec fn text_input_events(focused: bool, event: Event, mobile: bool) -> (bool, Seq<Event>) {
    match event {
        Event::Mouse(m) => if m.state is Pressed && m.position is Some {
            (true, seq![Event::TextInput(TextInputEvent::Focused(true)), event])
        } else if m.state is Pressed {
            if !mobile {
                (false, seq![Event::TextInput(TextInputEvent::Focused(false)), event])
            } else {
                (focused, seq![event])
            }
        } else if is_hover_move(m.state) && !mobile && !focused {
            (focused, seq![Event::TextInput(TextInputEvent::Hover(m.position is Some)), event])
        } else {
            (focused, seq![event])
        },
        Event::Keyboard(k) => if k.state is Pressed && !focused {
            (focused, seq![])
        } else {
            (focused, seq![event])
        },
        _ => (focused, seq![event]),
    }
}

/// Pointer and key input seen as a text field: a press inside focuses it,
/// a press outside unfocuses it (not on touch devices), hover changes are
/// reported while unfocused, and key presses go on only while focused.
#[derive(Clone, Copy, Debug, PartialEq, Eq)]
pub struct TextInput(pub bool);

impl TextInput {
    pub fn new() -> (r: Self)
        ensures
            r == TextInput(false),
    {
        TextInput(false)
    }

    pub fn on_event(&mut self, event: Event, mobile: bool) -> (r: Vec<Event>)
        ensures
            (final(self).0, r@) == text_input_events(old(self).0, event, mobile),
    {
        let mut r: Vec<Event> = Vec::new();
        match &event {
            Event::Mouse(m) => {
                let moved = match m.state {
                    MouseState::Moved | MouseState::Scroll(..) => true,
                    _ => false,
                };
                if m.state == MouseState::Pressed && m.position.is_some() {
                    self.0 = true;
                    r.push(Event::TextInput(TextInputEvent::Focused(true)));
                } else if m.state == MouseState::Pressed {
                    if !mobile {
                        self.0 = false;
                        r.push(Event::TextInput(TextInputEvent::Focused(false)));
                    }
                } else if moved && !mobile && !self.0 {
                    r.push(Event::TextInput(TextInputEvent::Hover(m.position.is_some())));
                }
                r.push(event);
            },
            Event::Keyboard(k) => {
                if !(k.state == KeyboardState::Pressed && !self.0) {
                    r.push(event);
                }
            },
            _ => r.push(event),
        }
        assert(r@ =~= text_input_events(old(self).0, event, mobile).1);
        r
    }
}

/// How far apart two positions are vertically.
pub open spec fn vertical_gap(a: (i64, i64), b: (i64, i64)) -> int {
    if a.1 >= b.1 {
        a.1 - b.1
    } else {
        b.1 - a.1
    }
}

/// Where a press started after `event`, and what a scrolling area lets through.
pub open spec fn scroll_events(start: (i64, i64), event: Event) -> ((i64, i64), Seq<Event>) {
    match event {
        Event::Mouse(MouseEvent { position: Some(p), state }) => if state is Pressed {
            (p, seq![])
        } else if state is Released {
            if vertical_gap(p, start) < 5 {
                (start, seq![Event::Mouse(MouseEvent { position: Some(p), state: MouseState::Pressed })])
            } else {
                (start, seq![])
            }
        } else {
            (start, seq![event])
        },
        _ => (start, seq![event]),
    }
}

/// Pointer input over a scrolling area: a press is held back, and turned
/// into a press at release only if the pointer stayed within a few units
/// vertically, so that a drag scrolls instead of pressing.
#[derive(Clone, Copy, Debug, PartialEq, Eq)]
pub struct Scrollable(pub (i64, i64));

impl Scrollable {
    pub fn new() -> (r: Self)
        ensures
            r == Scrollable((0, 0)),
    {
        Scrollable((0, 0))
    }

    pub fn on_event(&mut self, event: Event) -> (r: Vec<Event>)
        ensures
            (final(self).0, r@) == scroll_events(old(self).0, event),
    {
        let mut r: Vec<Event> = Vec::new();
        match &event {
            Event::Mouse(MouseEvent { position: Some(p), state }) => {
                if *state == MouseState::Pressed {
                    self.0 = *p;
                } else if *state == MouseState::Released {
                    let d = p.1 as i128 - self.0.1 as i128;
                    let gap = if d >= 0 {
                        d
                    } else {
                        -d
                    };
                    if gap < 5 {
                        r.push(Event::Mouse(MouseEvent { position: Some(*p), state: MouseState::Pressed }));
                    }
                } else {
                    r.push(event);
                }
            },
            _ => r.push(event),
        }
        assert(r@ =~= scroll_events(old(self).0, event).1);
        r
    }
}

/// What a member of a group lets through for `event`, and what it asks the host to send.
pub open spec fn selectable_events(s: Selectable, event: Event) -> (Seq<Event>, Option<Request>) {
    match event {
        Event::Mouse(MouseEvent { position: Some(_), state: MouseState::Pressed }) => (
            seq![event],
            Some(Request::Event(Event::Selectable(SelectableEvent::Pressed(s.id, s.group)))),
        ),
        Event::Selectable(SelectableEvent::Pressed(id, group)) => if group == s.group {
            (seq![Event::Selectable(SelectableEvent::Selected(id == s.id))], None)
        } else {
            (seq![event], None)
        },
        _ => (seq![event], None),
    }
}

/// One item of a group of which one is selected at a time. A press over it
/// asks the host to announce `Pressed(id, group)`; when that announcement
/// comes back, each member of the group learns whether it is the one.
#[derive(Clone, Copy, Debug, PartialEq, Eq)]
pub struct Selectable {
    pub id: u128,
    pub group: u128,
}

impl Selectable {
    /// A member of `group` with a fresh random identifier.
    pub fn new(group: u128) -> (r: Self)
        ensures
            r.group == group,
    {
        Selectable { id: random_id(), group }
    }

    /// The events that go on, and the request to send to the host, if any.
    pub fn on_event(&self, event: Event) -> (r: (Vec<Event>, Option<Request>))
        ensures
            (r.0@, r.1) == selectable_events(*self, event),
    {
        let mut r: Vec<Event> = Vec::new();
        let mut request: Option<Request> = None;
        match &event {
            Event::Mouse(MouseEvent { position: Some(_), state: MouseState::Pressed }) => {
                request = Some(Request::Event(Event::Selectable(SelectableEvent::Pressed(self.id, self.group))));
                r.push(event);
            },
            Event::Selectable(SelectableEvent::Pressed(id, group)) => {
                if *group == self.group {
                    r.push(Event::Selectable(SelectableEvent::Selected(*id == self.id)));
                } else {
                    r.push(event);
                }
            },
            _ => r.push(event),
        }
        assert(r@ =~= selectable_events(*self, event).0);
        (r, request)
    }
}

/// What a numeric field lets through for `event`.
pub open spec fn numerical_events(event: Event) -> Seq<Event> {
    match event {
        Event::Keyboard(KeyboardEvent { key, state: KeyboardState::Pressed }) => match key {
            Key::Named(NamedKey::Delete) => seq![Event::NumericalInput(NumericalEvent::Delete)],
            Key::Character(s) => if s@.len() > 0 && '0' <= s@[0] <= '9' {
                seq![Event::NumericalInput(NumericalEvent::Digit(s@[0]))]
            } else if s@.len() > 0 && (s@[0] == '.' || s@[0] == '/' || s@[0] == ':') {
                seq![Event::NumericalInput(NumericalEvent::Char(s@[0]))]
            } else {
                seq![event]
            },
            _ => seq![event],
        },
        _ => seq![event],
    }
}

/// Key input seen as a numeric field: delete, digits, and the separators
/// `.`, `/` and `:` are read from key presses; anything else goes on.
#[derive(Clone, Copy, Debug, PartialEq, Eq)]
pub struct NumericalInput;

impl NumericalInput {
    pub fn new() -> (r: Self)
        ensures
            r == NumericalInput,
    {
        NumericalInput
    }

    pub fn on_event(&self, event: Event) -> (r: Vec<Event>)
        ensures
            r@ == numerical_events(event),
    {
        let mut out: Option<Event> = None;
        match &event {
            Event::Keyboard(k) => {
                if k.state == KeyboardState::Pressed {
                    match &k.key {
                        Key::Named(NamedKey::Delete) => {
                            out = Some(Event::NumericalInput(NumericalEvent::Delete));
                        },
                        Key::Character(s) => {
                            let st: &str = s.as_str();
                            let mut chars = st.chars();
                            let ghost c0 = chars;
                            let first = chars.next();
                            proof {
                                vstd::string::axiom_spec_iter(st);
                                vstd::string::next_postcondition(&c0, &chars, first);
                            }
                            match first {
                                Some(ch) => {
                                    if '0' <= ch && ch <= '9' {
                                        out = Some(Event::NumericalInput(NumericalEvent::Digit(ch)));
                                    } else if ch == '.' || ch == '/' || ch == ':' {
                                        out = Some(Event::NumericalInput(NumericalEvent::Char(ch)));
                                    }
                                },
                                None => {},
                            }
                        },
                        _ => {},
                    }
                }
            },
            _ => {},
        }
        let mut r: Vec<Event> = Vec::new();
        match out {
            Some(e) => r.push(e),
            None => r.push(event),
        }
        assert(r@ =~= numerical_events(event));
        r
    }
}

/// The input handler of a node: which emitter, if any, translates the
/// events the node receives before they pass on to its children.
#[derive(Clone, Copy, Debug, PartialEq, Eq)]
pub enum Handler {
    /// Events go on unchanged.
    Pass,
    Button(Button),
    Slider(Slider),
    TextInput(TextInput),
    Scrollable(Scrollable),
    Selectable(Selectable),
    NumericalInput(NumericalInput),
}

/// What handler `h` makes of `event`: its state afterwards, the events that
/// go on, and the requests for the host.
pub open spec fn handle(h: Handler, event: Event, mobile: bool) -> (Handler, Seq<Event>, Seq<Request>) {
    match h {
        Handler::Pass => (h, seq![event], seq![]),
        Handler::Button(_) => (h, button_events(event, mobile), seq![]),
        Handler::Slider(s) => {
            let o = slider_events(s.0, event);
            (Handler::Slider(Slider(o.0)), o.1, seq![])
        },
        Handler::TextInput(t) => {
            let o = text_input_events(t.0, event, mobile);
            (Handler::TextInput(TextInput(o.0)), o.1, seq![])
        },
        Handler::Scrollable(s) => {
            let o = scroll_events(s.0, event);
            (Handler::Scrollable(Scrollable(o.0)), o.1, seq![])
        },
        Handler::Selectable(s) => {
            let o = selectable_events(s, event);
            (h, o.0, match o.1 {
                Some(q) => seq![q],
                None => seq![],
            })
        },
        Handler::NumericalInput(_) => (h, numerical_events(event), seq![]),
    }
}

impl Handler {
    /// Runs the emitter on `event`: the events that go on, and the requests
    /// for the host.
    pub fn on_event(&mut self, event: Event, mobile: bool) -> (r: (Vec<Event>, Vec<Request>))
        ensures
            (*final(self), r.0@, r.1@) == handle(*old(self), event, mobile),
    {
        let mut requests: Vec<Request> = Vec::new();
        let events = match self {
            Handler::Pass => {
                let mut v: Vec<Event> = Vec::new();
                v.push(event);
                assert(v@ =~= seq![event]);
                v
            },
            Handler::Button(b) => b.on_event(event, mobile),
            Handler::Slider(s) => s.on_event(event),
            Handler::TextInput(t) => t.on_event(event, mobile),
            Handler::Scrollable(s) => s.on_event(event),
            Handler::Selectable(s) => {
                let (v, q) = s.on_event(event);
                match q {
                    Some(q) => requests.push(q),
                    None => {},
                }
                v
            },
            Handler::NumericalInput(n) => n.on_event(event),
        };
        assert(requests@ =~= handle(*old(self), event, mobile).2);
        (events, requests)
    }
}

} // verus!
