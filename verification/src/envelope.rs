//! The uniform response envelope of the backend and its demultiplexer: every
//! reply is a result code, an error text, and a list of messages, each tagged
//! with an integer `msg_type` discriminator. A caller extracts at most one
//! message per discriminator; absence is a recoverable condition, not a
//! protocol violation.
use vstd::prelude::*;

verus! {

use crate::error::WeLoveError;

/// Verus-opaque declaration of the JSON value type carried by message
/// payloads; the library moves such values through without reading them.
#[verifier::external_type_specification]
#[verifier::external_body]
pub struct ExValue(serde_json::Value);

/// One tagged message of a response envelope: its discriminator and its raw
/// payload, decoded further only by the caller that asked for it.
pub struct Message {
    pub msg_type: i64,
    pub payload: serde_json::Value,
}

/// The response envelope every endpoint answers with.
pub struct Response {
    pub result: u32,
    pub messages: Vec<Message>,
    pub error_msg: String,
}

/// True when some message carries the discriminator.
pub open spec fn has_message(messages: Seq<Message>, msg_type: int) -> bool {
    exists|j: int| 0 <= j < messages.len() && messages[j].msg_type == msg_type
}

/// The index of the first message carrying `msg_type`, if any.
pub fn find_message(messages: &Vec<Message>, msg_type: i64) -> (r: Option<usize>)
    ensures
        match r {
            Some(i) => 0 <= i < messages@.len() && messages@[i as int].msg_type == msg_type
                && forall|j: int| 0 <= j < i ==> messages@[j].msg_type != msg_type,
            None => !has_message(messages@, msg_type as int),
        },
{
    let mut i: usize = 0;
    while i < messages.len()
        invariant
            0 <= i <= messages@.len(),
            forall|j: int| 0 <= j < i ==> messages@[j].msg_type != msg_type,
        decreases messages@.len() - i,
    {
        if messages[i].msg_type == msg_type {
            return Some(i);
        }
        i = i + 1;
    }
    None
}

/// Locates the first message tagged `msg_type` in the envelope; the missing
/// case is the named `MissingMessage` error, not a generic null.
pub fn demux<'a>(resp: &'a Response, msg_type: i64) -> (r: Result<&'a Message, WeLoveError>)
    ensures
        match r {
            Ok(m) => exists|i: int|
                0 <= i < resp.messages@.len() && resp.messages@[i] == *m && resp.messages@[
                    i
                ].msg_type == msg_type && forall|j: int|
                    0 <= j < i ==> resp.messages@[j].msg_type != msg_type,
            Err(e) => e == WeLoveError::MissingMessage(msg_type) && !has_message(
                resp.messages@,
                msg_type as int,
            ),
        },
{
    match find_message(&resp.messages, msg_type) {
        Some(i) => Ok(&resp.messages[i]),
        None => Err(WeLoveError::MissingMessage(msg_type)),
    }
}

} // verus!
