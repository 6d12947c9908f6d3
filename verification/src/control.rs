//! The control surface: the two requests that reach the core from outside
//! the stream, and the shared flag that they and the sessions write.

use vstd::prelude::*;
use vstd::utf8::{decode_utf8, decode_utf8_encode_utf8, encode_utf8, valid_utf8};

verus! {

/// What the frame source is asked to do.
#[derive(Debug, PartialEq, Eq)]
pub enum Command {
    /// Start a render pass.
    StartRender,
    /// Take the file at this path as the scene to render.
    SelectInput(String),
}

/// Why a control request was turned down.
#[derive(Clone, Copy, Debug, PartialEq, Eq, Structural)]
pub enum ControlError {
    /// The body of the request is not valid UTF-8.
    InvalidControlInput,
}

/// The error of `String::from_utf8` of std. Nothing is read from it.
#[verifier::external_type_specification]
#[verifier::external_body]
pub struct ExFromUtf8Error(std::string::FromUtf8Error);

/// `String::from_utf8` of std. It returns `Ok` exactly where the bytes are
/// valid UTF-8, and the string then holds the characters that the bytes
/// encode.
#[verifier::external_body]
fn string_from_utf8(bytes: Vec<u8>) -> (text: Result<String, std::string::FromUtf8Error>)
    ensures
        text is Ok <==> valid_utf8(bytes@),
        text matches Ok(s) ==> s@ == decode_utf8(bytes@),
{
    String::from_utf8(bytes)
}

/// Resumes streaming: the shared flag is switched on, whatever it was, and a
/// render pass is asked of the frame source.
pub fn resume(should_update: &mut bool) -> (command: Command)
    ensures
        *final(should_update),
        command == Command::StartRender,
{
    *should_update = true;
    Command::StartRender
}

/// Pauses streaming: the shared flag is switched off, whatever it was.
pub fn pause(should_update: &mut bool)
    ensures
        !*final(should_update),
{
    *should_update = false;
}

/// Reads the body of a request as the path of a scene and hands the path on
/// to the frame source, unchanged.
///
/// The request is turned down exactly where the body is not valid UTF-8.
pub fn select_input(body: Vec<u8>) -> (result: Result<Command, ControlError>)
    ensures
        valid_utf8(body@) ==> (result matches Ok(Command::SelectInput(path)) && path@
            == decode_utf8(body@) && encode_utf8(path@) == body@),
        !valid_utf8(body@) ==> (result matches Err(error) && error
            == ControlError::InvalidControlInput),
{
    proof {
        if valid_utf8(body@) {
            decode_utf8_encode_utf8(body@);
        }
    }
    match string_from_utf8(body) {
        Ok(path) => Ok(Command::SelectInput(path)),
        Err(_) => Err(ControlError::InvalidControlInput),
    }
}

} // verus!
