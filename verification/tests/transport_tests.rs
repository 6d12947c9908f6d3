use web_server::encoder::{encode, EncodeError};
use web_server::session::{Action, Event, Session};
use web_server::transport::message_for;

#[test]
fn a_frame_goes_out_as_one_binary_message() {
    let frame = encode(&(1..=16).collect::<Vec<u8>>(), 2, 2);
    let message = message_for(Action::Send(frame.clone())).expect("a frame has a message");
    assert!(message.is_binary());
    assert!(!message.is_close());
    assert!(!message.is_text());
    assert_eq!(message.as_bytes(), &frame[..]);
    assert_eq!(message.as_bytes().len(), 70);
    assert_eq!(message.into_bytes(), frame);
}

#[test]
fn an_empty_payload_is_still_a_binary_message() {
    let message = message_for(Action::Send(Vec::new())).expect("a frame has a message");
    assert!(message.is_binary());
    assert!(!message.is_close());
    assert_eq!(message.as_bytes(), &[] as &[u8]);
}

#[test]
fn the_close_goes_out_as_an_empty_close_message() {
    let message = message_for(Action::Close).expect("the close has a message");
    assert!(message.is_close());
    assert!(!message.is_binary());
    assert_eq!(message.as_bytes(), &[] as &[u8]);
    assert_eq!(message.close_frame(), None);
    assert_eq!(message, warp::ws::Message::close());
}

#[test]
fn no_other_action_sends_anything() {
    assert_eq!(message_for(Action::Wait), None);
    assert_eq!(message_for(Action::Sample), None);
    assert_eq!(message_for(Action::Pause), None);
    assert_eq!(message_for(Action::Release), None);
    assert_eq!(message_for(Action::Abort(EncodeError::BufferTooShort)), None);
    assert_eq!(message_for(Action::Abort(EncodeError::FrameTooLarge)), None);
}

#[test]
fn what_a_session_sends_is_the_whole_encoded_frame() {
    let raw: Vec<u8> = (0..24).collect();
    let mut session = Session::new(3, 2).expect("the dimensions fit");
    assert_eq!(session.step(Event::Tick { should_update: true }), Action::Sample);
    let action = session.step(Event::Sampled(Some(raw.clone())));
    let message = message_for(action).expect("the first frame is sent");
    assert!(message.is_binary());
    assert_eq!(message.as_bytes(), &encode(&raw, 3, 2)[..]);
    assert_eq!(message, warp::ws::Message::binary(encode(&raw, 3, 2)));
    let closing = session.step(Event::SendFailed);
    assert!(message_for(closing).expect("a close follows").is_close());
}
