use prism::event::{Event, TickEvent};
use prism::{FrameSettings, Hardware, Request};

#[test]
fn requests_carry_their_payloads() {
    let r = Request::Hardware(Hardware::SetCloud("k".to_string(), "v".to_string()));
    assert_eq!(r.clone(), r);
    let r = Request::Event(Event::Tick(TickEvent));
    assert!(matches!(r, Request::Event(Event::Tick(_))));
    let r = Request::Service("name".to_string(), "arg".to_string());
    assert!(matches!(r, Request::Service(a, b) if a == "name" && b == "arg"));
    assert_eq!(Hardware::CameraFrame(FrameSettings::default()), Hardware::CameraFrame(FrameSettings {}));
}
