//! Layout-and-event core of a retained-mode UI toolkit.
//!
//! A tree of nodes is measured (`request_size`), placed (`build`), painted
//! (`draw`) and handed input (`Event::pass`) once per frame. Lengths are
//! whole layout units (`u32`); positions and offsets are signed (`i64`) and
//! saturate at the ends of their range, so every layout rule is exact
//! integer arithmetic.
use vstd::prelude::*;

pub mod layout;
pub mod expand;
pub mod policy;
pub mod wrap;
pub mod drawable;
pub mod event;
pub mod emitters;
pub mod display;

use crate::event::Event;

verus! {

/// Camera frame settings.
#[derive(Clone, Copy, Debug, PartialEq, Eq, Default)]
pub struct FrameSettings {}

/// A request to the device the interface runs on.
#[derive(Clone, Debug, PartialEq, Eq)]
pub enum Hardware {
    CameraStart,
    CameraFrame(FrameSettings),
    CameraStop,
    PhotoPicker,
    SetClipboard(String),
    GetClipboard,
    SetCloud(String, String),
    GetCloud(String),
    Share(String),
    Haptic,
}

/// What a node can send out to the host: an event to deliver later, a
/// device request, or a call of a named service with an argument.
#[derive(Clone, Debug, PartialEq, Eq)]
pub enum Request {
    Event(Event),
    Hardware(Hardware),
    Service(String, String),
}

} // verus!
