pub mod frame;
pub mod handshake;
pub mod session;
pub mod ws_msg;
pub mod wscodec;

pub use frame::{Frame, FrameView, OpCode};
pub use handshake::{HandshakeError, WsRequest, WsResponse};
pub use session::{Session, SessionState};
pub use ws_msg::{BrgMsg, BrgMsgParseError, FailReason};
pub use wscodec::{Error, ErrorKind, WsCodec};
