use rubiks_race::link::{Frame, Link, LinkAction};
use rubiks_race::types::ClientMessage;

#[test]
fn decoded_message_is_delivered_and_ping_passed_over() {
    let link = Link::new();
    assert_eq!(link.on_frame(Frame::Message(ClientMessage::Ping)), LinkAction::Deliver(ClientMessage::Ping));
    assert_eq!(link.on_frame(Frame::<ClientMessage>::Ping), LinkAction::Continue);
}

#[test]
fn bad_or_final_frames_close_the_link() {
    let link = Link::new();
    assert_eq!(link.on_frame(Frame::<ClientMessage>::Undecodable), LinkAction::Close);
    assert_eq!(link.on_frame(Frame::<ClientMessage>::Other), LinkAction::Close);
    assert_eq!(link.on_frame(Frame::<ClientMessage>::Closed), LinkAction::Close);
    assert_eq!(link.on_frame(Frame::<ClientMessage>::Failed), LinkAction::Close);
}

#[test]
fn write_failure_closes_the_link() {
    let link = Link::new();
    assert!(!link.on_sent(true));
    assert!(link.on_sent(false));
}

#[test]
fn disconnect_is_reported_exactly_once() {
    let mut link = Link::new();
    assert!(link.close());
    assert!(!link.close());
    assert_eq!(link.on_frame(Frame::Message(ClientMessage::Ping)), LinkAction::Close);
    assert!(link.on_sent(true));
}
