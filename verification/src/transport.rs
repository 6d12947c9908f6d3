//! What goes onto the wire: the WebSocket message for an action of a
//! session. A frame travels as one binary message whose payload is the
//! whole encoded frame, with nothing before or after it.

use crate::session::{Action, ActionView};
use vstd::prelude::*;

verus! {

/// The WebSocket message of warp. Nothing inside it is visible here; what the
/// contracts below say of a message, they say through the three names that
/// follow.
#[verifier::external_type_specification]
#[verifier::external_body]
pub struct ExMessage(warp::ws::Message);

/// The payload of a message: what its `as_bytes` returns.
pub uninterp spec fn message_bytes(message: warp::ws::Message) -> Seq<u8>;

/// The message is a binary message: what its `is_binary` returns.
pub uninterp spec fn message_is_binary(message: warp::ws::Message) -> bool;

/// The message is a close message: what its `is_close` returns.
pub uninterp spec fn message_is_close(message: warp::ws::Message) -> bool;

/// `warp::ws::Message::binary`. It wraps the bytes, as they are, in a binary
/// message: `is_binary` holds of the result, `is_close` does not, and
/// `as_bytes` gives the bytes back.
#[verifier::external_body]
fn binary_message(payload: Vec<u8>) -> (message: warp::ws::Message)
    ensures
        message_is_binary(message),
        !message_is_close(message),
        message_bytes(message) == payload@,
{
    warp::ws::Message::binary(payload)
}

/// `warp::ws::Message::close`. It makes the close message without a code or a
/// reason: `is_close` holds of the result, `is_binary` does not, and
/// `as_bytes` is empty.
#[verifier::external_body]
fn close_message() -> (message: warp::ws::Message)
    ensures
        message_is_close(message),
        !message_is_binary(message),
        message_bytes(message) == Seq::<u8>::empty(),
{
    warp::ws::Message::close()
}

/// The message that an action puts on the wire, if it puts any: a frame to
/// send goes out as one binary message that holds exactly the frame, the
/// close as an empty close message, and no other action sends anything.
pub fn message_for(action: Action) -> (message: Option<warp::ws::Message>)
    ensures
        action@ matches ActionView::Send(frame) ==> (message matches Some(m) && message_is_binary(m)
            && !message_is_close(m) && message_bytes(m) == frame),
        action@ == ActionView::Close ==> (message matches Some(m) && message_is_close(m)
            && !message_is_binary(m) && message_bytes(m) == Seq::<u8>::empty()),
        message is Some <==> (action@ is Send || action@ is Close),
{
    match action {
        Action::Send(frame) => Some(binary_message(frame)),
        Action::Close => Some(close_message()),
        _ => None,
    }
}

} // verus!
