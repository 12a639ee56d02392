//! Server-side request dispatch: one decoded frame is routed strictly by
//! its message type to the ls, put or get handler; anything else is refused
//! and answered with an Error-typed frame, never a crash.

use crate::frame::{
    deconstruct_message, frame_payload, frame_type, valid_frame, FrameError, MessageType,
    SIZE_OF_HEADER,
};
use vstd::prelude::*;

verus! {

/// Why the server refuses to route a message.
#[derive(Clone, Copy, Debug, PartialEq, Eq, Structural)]
pub enum DispatchError {
    /// The frame itself is malformed.
    Frame(FrameError),
    /// The frame is sound but carries no payload to act on.
    EmptyBody,
    /// The type is sound but is not a request this server handles.
    UnsupportedRequest,
}

/// The message types the server routes to a handler.
pub open spec fn spec_routable(t: MessageType) -> bool {
    t == MessageType::LsRequest || t == MessageType::PutRequest || t == MessageType::GetRequest
}

/// Decode a received message and hand back its type and payload when, and
/// only when, it is a well-formed request with a body.
pub fn classify_request(msg: &Vec<u8>) -> (r: Result<(MessageType, Vec<u8>), DispatchError>)
    ensures
        r is Ok <==> (valid_frame(msg@) && msg@.len() > SIZE_OF_HEADER && spec_routable(
            frame_type(msg@),
        )),
        valid_frame(msg@) && msg@.len() > SIZE_OF_HEADER && spec_routable(frame_type(msg@)) ==> (
        r matches Ok((t, p)) && t == frame_type(msg@) && p@ == frame_payload(msg@)),
        msg@.len() < SIZE_OF_HEADER ==> r == Err::<(MessageType, Vec<u8>), DispatchError>(
            DispatchError::Frame(FrameError::HeaderTooShort),
        ),
        msg@.len() >= SIZE_OF_HEADER && msg@[0] != crate::frame::MESSAGE_MAGIC ==> r == Err::<
            (MessageType, Vec<u8>),
            DispatchError,
        >(DispatchError::Frame(FrameError::BadMagic)),
        msg@.len() >= SIZE_OF_HEADER && msg@[0] == crate::frame::MESSAGE_MAGIC && frame_type(msg@)
            == MessageType::Invalid ==> r == Err::<(MessageType, Vec<u8>), DispatchError>(
            DispatchError::Frame(FrameError::InvalidType),
        ),
        msg@.len() >= SIZE_OF_HEADER && msg@[0] == crate::frame::MESSAGE_MAGIC && frame_type(msg@)
            != MessageType::Invalid && !valid_frame(msg@) ==> r == Err::<
            (MessageType, Vec<u8>),
            DispatchError,
        >(DispatchError::Frame(FrameError::SizeMismatch)),
        valid_frame(msg@) && msg@.len() == SIZE_OF_HEADER ==> r == Err::<
            (MessageType, Vec<u8>),
            DispatchError,
        >(DispatchError::EmptyBody),
        valid_frame(msg@) && msg@.len() > SIZE_OF_HEADER && !spec_routable(frame_type(msg@)) ==> r
            == Err::<(MessageType, Vec<u8>), DispatchError>(DispatchError::UnsupportedRequest),
{
    let (msg_type, msg_payload) = match deconstruct_message(msg) {
        Ok(x) => x,
        Err(e) => {
            return Err(DispatchError::Frame(e));
        },
    };
    let req_payload = match msg_payload {
        Some(p) => p,
        None => {
            return Err(DispatchError::EmptyBody);
        },
    };
    match msg_type {
        MessageType::LsRequest => Ok((msg_type, req_payload)),
        MessageType::PutRequest => Ok((msg_type, req_payload)),
        MessageType::GetRequest => Ok((msg_type, req_payload)),
        _ => Err(DispatchError::UnsupportedRequest),
    }
}

/// A plain textual error, carried as bytes so that the dispatch boundary
/// can answer it as an Error-typed frame.
pub struct MsgErr(pub Vec<u8>);

impl MsgErr {
    pub fn new(msg: Vec<u8>) -> (r: Self)
        ensures
            r.0@ == msg@,
    {
        MsgErr(msg)
    }

    /// The error as the failed result it stands for.
    pub fn res<T>(msg: Vec<u8>) -> (r: Result<T, MsgErr>)
        ensures
            r matches Err(e) && e.0@ == msg@,
    {
        Err(MsgErr::new(msg))
    }
}

/// The server's one piece of shared state: the root directory every request
/// is resolved under.  Built once at startup and never changed.
pub struct ServerContext {
    pub root_path: Vec<u8>,
}

impl ServerContext {
    pub fn new(root_path: Vec<u8>) -> (r: Self)
        ensures
            r.root_path@ == root_path@,
    {
        ServerContext { root_path }
    }
}

} // verus!
