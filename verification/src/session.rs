use vstd::prelude::*;
use vstd::string::StrSliceExecFns;
use vstd::string::StringSliceAdditionalSpecFns;

use crate::frame::{bytes_eq, mask_seq, Frame, FrameView, OpCode};

verus! {

/// Callbacks the owner of a session may implement to observe it.
pub trait Handler {
    fn on_start();

    fn on_message();

    fn on_error();

    fn on_close();
}

/// Protocol phase of one connection.
#[derive(Debug)]
pub enum SessionState {
    Connecting,
    Open,
    Close,
}

/// One connection's state together with its owner's callbacks.
pub struct Session<H> where H: Handler {
    pub state: SessionState,
    pub handler: H,
}

impl<H> Session<H> where H: Handler {
    /// A fresh session, still connecting.
    pub fn new(h: H) -> (s: Self)
        ensures
            s.state is Connecting,
            s.handler == h,
    {
        Session { state: SessionState::Connecting, handler: h }
    }

    pub fn on_frame(frame: Frame) {
    }
}

/// A frame's payload as plaintext: unmasked with its key when one is
/// present, the raw bytes otherwise.
pub open spec fn unmasked_payload(f: FrameView) -> Seq<u8> {
    match f.mask {
        Some(k) => mask_seq(f.payload, k),
        None => f.payload,
    }
}

/// The payload that triggers the debug echo.
pub open spec fn echo_token() -> Seq<u8> {
    "echo".spec_bytes()
}

/// The reply the session shell owes to one incoming frame, judged on
/// the unmasked payload: a text frame saying `echo` is echoed back, a
/// ping is answered with a pong carrying the same payload, everything
/// else is dropped. Replies are unmasked.
pub open spec fn spec_reply(f: FrameView) -> Option<FrameView> {
    let p = unmasked_payload(f);
    if f.opcode == OpCode::Text && p == echo_token() {
        Some(
            FrameView {
                fin: true,
                rsv1: false,
                rsv2: false,
                rsv3: false,
                opcode: OpCode::Text,
                mask: None,
                payload: p,
            },
        )
    } else if f.opcode == OpCode::Ping {
        Some(
            FrameView {
                fin: true,
                rsv1: false,
                rsv2: false,
                rsv3: false,
                opcode: OpCode::Pong,
                mask: None,
                payload: p,
            },
        )
    } else {
        None
    }
}

/// Unmask one decoded frame and hand back the reply it calls for, if
/// any.
pub fn process_ws_frame(msg: Frame) -> (r: Option<Frame>)
    ensures
        match r {
            Some(reply) => spec_reply(msg@) == Some(reply@),
            None => spec_reply(msg@) is None,
        },
{
    let mut msg = msg;
    msg.apply_mask();
    let echo = "echo".as_bytes_vec();
    if msg.opcode == OpCode::Text && bytes_eq(&msg.payload, &echo) {
        return Some(Frame::text_bytes_mut(msg.payload));
    }
    if msg.opcode == OpCode::Ping {
        Some(Frame::pong_bytes_mut(msg.payload))
    } else {
        None
    }
}

} // verus!
