//! Input events and how each one passes from a node to its children.
use vstd::prelude::*;
use crate::layout::Area;

verus! {

/// What the pointer did.
#[derive(Clone, Copy, Debug, PartialEq, Eq, Structural)]
pub enum MouseState {
    Pressed,
    Moved,
    Released,
    /// Horizontal and vertical scroll amounts.
    Scroll(i64, i64),
}

/// What a key did.
#[derive(Clone, Copy, Debug, PartialEq, Eq, Structural)]
pub enum KeyboardState {
    Pressed,
    Repeated,
    Released,
}

/// A pointer event. A node sees `Some(position)`, in its own coordinates,
/// only when the pointer is over it.
#[derive(Clone, Copy, Debug, PartialEq, Eq)]
pub struct MouseEvent {
    pub position: Option<(i64, i64)>,
    pub state: MouseState,
}

#[non_exhaustive]
#[derive(Clone, Copy, Debug, PartialEq, Eq, Hash, PartialOrd, Ord)]
pub enum NamedKey {
    Enter,
    Tab,
    Space,
    ArrowDown,
    ArrowLeft,
    ArrowRight,
    ArrowUp,
    Delete,
}

#[derive(Clone, Debug, PartialEq, Eq, Hash, PartialOrd, Ord)]
pub enum Key {
    Named(NamedKey),
    Character(String),
}

/// A key event, delivered to every node.
#[derive(Clone, Debug, PartialEq, Eq)]
pub struct KeyboardEvent {
    pub key: Key,
    pub state: KeyboardState,
}

/// Emitted once per frame, delivered to every node.
#[derive(Clone, Copy, Debug, PartialEq, Eq)]
pub struct TickEvent;

/// Pointer input seen as a button.
#[derive(Clone, Copy, Debug, PartialEq, Eq)]
pub enum Button {
    Pressed(bool),
    Hover(bool),
}

/// One of a group of items chosen: `Pressed(id, group)`, then `Selected`.
#[derive(Clone, Copy, Debug, PartialEq, Eq)]
pub enum Selectable {
    Pressed(u128, u128),
    Selected(bool),
}

/// Pointer input seen as a slider, with the pointer's horizontal position.
#[derive(Clone, Copy, Debug, PartialEq, Eq)]
pub enum Slider {
    Start(i64),
    Moved(i64),
}

/// Pointer input seen as a text field.
#[derive(Clone, Copy, Debug, PartialEq, Eq)]
pub enum TextInput {
    Hover(bool),
    Focused(bool),
}

/// Key input seen as a numeric field.
#[derive(Clone, Copy, Debug, PartialEq, Eq)]
pub enum NumericalInput {
    Delete,
    Digit(char),
    Char(char),
}

/// Any event that travels through the tree.
#[derive(Clone, Debug, PartialEq, Eq)]
pub enum Event {
    Mouse(MouseEvent),
    Keyboard(KeyboardEvent),
    Tick(TickEvent),
    Button(Button),
    Selectable(Selectable),
    Slider(Slider),
    TextInput(TextInput),
    NumericalInput(NumericalInput),
}

/// `p` lies strictly inside area `a`.
pub open spec fn contains(a: Area, p: (i64, i64)) -> bool {
    &&& a.offset.0 < p.0 < a.offset.0 + a.size.0
    &&& a.offset.1 < p.1 < a.offset.1 + a.size.1
}

/// Index of the topmost (last) area that contains `p`, or `-1`.
pub open spec fn top_hit(cs: Seq<Area>, p: (i64, i64)) -> int
    decreases cs.len(),
{
    if cs.len() == 0 {
        -1
    } else if contains(cs.last(), p) {
        cs.len() - 1
    } else {
        top_hit(cs.drop_last(), p)
    }
}

/// The position that child `i` of areas `cs` sees for pointer position `pos`.
pub open spec fn local_position(pos: Option<(i64, i64)>, cs: Seq<Area>, i: int) -> Option<(i64, i64)> {
    match pos {
        Some(p) => if top_hit(cs, p) == i {
            Some(((p.0 - cs[i].offset.0) as i64, (p.1 - cs[i].offset.1) as i64))
        } else {
            None
        },
        None => None,
    }
}

/// What a pointer event hands each child.
pub open spec fn mouse_pass(e: MouseEvent, cs: Seq<Area>) -> Seq<Option<Event>> {
    Seq::new(
        cs.len(),
        |i: int| Some(Event::Mouse(MouseEvent { position: local_position(e.position, cs, i), state: e.state })),
    )
}

/// What an event handed to every child unchanged gives.
pub open spec fn broadcast(e: Event, n: int) -> Seq<Option<Event>> {
    Seq::new(n as nat, |i: int| Some(e))
}

/// What event `e` hands each of the children with areas `cs`.
pub open spec fn pass_spec(e: Event, cs: Seq<Area>) -> Seq<Option<Event>> {
    match e {
        Event::Mouse(m) => mouse_pass(m, cs),
        _ => broadcast(e, cs.len() as int),
    }
}

proof fn lemma_top_hit_range(cs: Seq<Area>, p: (i64, i64))
    ensures
        -1 <= top_hit(cs, p) < cs.len(),
        top_hit(cs, p) >= 0 ==> contains(cs[top_hit(cs, p)], p),
        forall|j: int| top_hit(cs, p) < j < cs.len() ==> !contains(#[trigger] cs[j], p),
    decreases cs.len(),
{
    if cs.len() > 0 && !contains(cs.last(), p) {
        lemma_top_hit_range(cs.drop_last(), p);
        assert forall|j: int| top_hit(cs, p) < j < cs.len() implies !contains(#[trigger] cs[j], p) by {
            if j < cs.len() - 1 {
                assert(cs[j] == cs.drop_last()[j]);
            }
        }
    }
}

/// The pointer position of an event that has one.
pub open spec fn pointer(e: MouseEvent) -> (i64, i64) {
    e.position->0
}

/// At most one child sees a position: the topmost area under the pointer.
pub proof fn lemma_hit_exclusive(e: MouseEvent, cs: Seq<Area>, i: int, j: int)
    requires
        0 <= i < cs.len(),
        0 <= j < cs.len(),
        mouse_pass(e, cs)[i] matches Some(Event::Mouse(a)) && a.position is Some,
        mouse_pass(e, cs)[j] matches Some(Event::Mouse(b)) && b.position is Some,
    ensures
        i == j,
{
}

/// The child that sees a position contains the pointer, is the topmost
/// such child, and sees the pointer relative to its own offset.
pub proof fn lemma_hit_translation(e: MouseEvent, cs: Seq<Area>, i: int)
    requires
        0 <= i < cs.len(),
        mouse_pass(e, cs)[i] matches Some(Event::Mouse(a)) && a.position is Some,
    ensures
        e.position is Some,
        contains(cs[i], pointer(e)),
        forall|j: int| i < j < cs.len() ==> !contains(#[trigger] cs[j], pointer(e)),
        mouse_pass(e, cs)[i] == Some(
            Event::Mouse(
                MouseEvent {
                    position: Some(
                        (
                            (pointer(e).0 - cs[i].offset.0) as i64,
                            (pointer(e).1 - cs[i].offset.1) as i64,
                        ),
                    ),
                    state: e.state,
                },
            ),
        ),
{
    lemma_top_hit_range(cs, pointer(e));
}

impl MouseEvent {
    /// Hands every child the same state; the topmost child under the pointer
    /// also gets the position in its own coordinates, all others get none.
    pub fn pass(self, children: &Vec<Area>) -> (r: Vec<Option<Event>>)
        ensures
            r@ == mouse_pass(self, children@),
    {
        let ghost cs = children@;
        let mut hit: usize = children.len();
        if let Some(p) = self.position {
            let mut k: usize = 0;
            while k < children.len()
                invariant
                    k <= children.len(),
                    cs == children@,
                    hit == if top_hit(cs.take(k as int), p) < 0 {
                        children.len() as int
                    } else {
                        top_hit(cs.take(k as int), p)
                    },
                decreases children.len() - k,
            {
                proof {
                    lemma_top_hit_range(cs.take(k as int), p);
                    assert(cs.take(k + 1).drop_last() =~= cs.take(k as int));
                }
                let a = children[k];
                if a.offset.0 < p.0 && (p.0 as i128) < a.offset.0 as i128 + a.size.0 as i128
                    && a.offset.1 < p.1 && (p.1 as i128) < a.offset.1 as i128 + a.size.1 as i128 {
                    hit = k;
                }
                k = k + 1;
            }
            assert(cs.take(k as int) =~= cs);
            proof {
                lemma_top_hit_range(cs, p);
            }
        }
        let mut r: Vec<Option<Event>> = Vec::new();
        let mut k: usize = 0;
        while k < children.len()
            invariant
                k <= children.len(),
                cs == children@,
                r@ =~= mouse_pass(self, cs).take(k as int),
                self.position is None ==> hit == children.len(),
                self.position matches Some(p) ==> hit == if top_hit(cs, p) < 0 {
                    children.len() as int
                } else {
                    top_hit(cs, p)
                },
                self.position matches Some(p) ==> top_hit(cs, p) >= 0 ==> contains(cs[top_hit(cs, p)], p),
            decreases children.len() - k,
        {
            let position = match self.position {
                Some(p) if k == hit => Some((p.0 - children[k].offset.0, p.1 - children[k].offset.1)),
                _ => None,
            };
            r.push(Some(Event::Mouse(MouseEvent { position, state: self.state })));
            k = k + 1;
        }
        r
    }
}

impl Event {
    /// A copy of the event.
    pub fn duplicate(&self) -> (r: Event)
        ensures
            r == *self,
    {
        match self {
            Event::Keyboard(k) => {
                let key = match &k.key {
                    Key::Named(n) => Key::Named(*n),
                    Key::Character(s) => Key::Character(s.clone()),
                };
                Event::Keyboard(KeyboardEvent { key, state: k.state })
            },
            Event::Mouse(m) => Event::Mouse(*m),
            Event::Tick(t) => Event::Tick(*t),
            Event::Button(b) => Event::Button(*b),
            Event::Selectable(s) => Event::Selectable(*s),
            Event::Slider(s) => Event::Slider(*s),
            Event::TextInput(t) => Event::TextInput(*t),
            Event::NumericalInput(n) => Event::NumericalInput(*n),
        }
    }

    /// What each child receives, in the children's order. Pointer events are
    /// hit-tested against the children's areas; all others go to every
    /// child unchanged.
    pub fn pass(self, children: &Vec<Area>) -> (r: Vec<Option<Event>>)
        ensures
            r@ == pass_spec(self, children@),
    {
        match self {
            Event::Mouse(m) => m.pass(children),
            _ => {
                let mut r: Vec<Option<Event>> = Vec::new();
                let mut k: usize = 0;
                while k < children.len()
                    invariant
                        k <= children.len(),
                        r@ =~= broadcast(self, children.len() as int).take(k as int),
                    decreases children.len() - k,
                {
                    r.push(Some(self.duplicate()));
                    k = k + 1;
                }
                r
            },
        }
    }
}

} // verus!
