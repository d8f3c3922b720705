use vstd::prelude::*;

use crate::wscodec::{be64_bytes, be64_val, lemma_be64_bytes_val, vec_slice_range};

verus! {

/// Reason a bridge peer reports for a failure.
#[derive(Debug, Eq, PartialEq, Structural)]
pub enum FailReason {
    UnknownFail,
}

/// The numeric code a failure reason is written as.
pub open spec fn fail_to_u8(r: FailReason) -> u8 {
    match r {
        FailReason::UnknownFail => 0,
    }
}

impl FailReason {
    /// The failure reason a numeric code stands for; codes without one
    /// are rejected.
    pub fn try_from(code: u8) -> (r: Result<FailReason, ()>)
        ensures
            match r {
                Ok(reason) => fail_to_u8(reason) == code,
                Err(_) => code != 0,
            },
    {
        match code {
            0 => Ok(FailReason::UnknownFail),
            _ => Err(()),
        }
    }

    /// The numeric code of this failure reason.
    pub fn into(self) -> (r: u8)
        ensures
            r == fail_to_u8(self),
    {
        match self {
            FailReason::UnknownFail => 0,
        }
    }
}

/// A bridge control message: a one-byte operation code followed by the
/// operation's data.
#[derive(Debug, Eq, PartialEq)]
pub enum BrgMsg {
    ReqSession,
    ReqSessionReply(u64),
    SetSession(u64),
    SetSessionOk,
    SendData(Vec<u8>),
    Fail(FailReason),
}

/// Why a byte sequence is not a bridge control message.
#[derive(Debug, Eq, PartialEq, Structural)]
pub enum BrgMsgParseError {
    /// The first byte is no known operation code.
    InvalidOp(u8),
    /// The data does not fit the operation code.
    CorruptedMessage,
}

/// The exact byte sequence a bridge control message is written as.
pub open spec fn spec_msg_bytes(m: BrgMsg) -> Seq<u8> {
    match m {
        BrgMsg::ReqSession => seq![0u8],
        BrgMsg::ReqSessionReply(id) => seq![1u8] + be64_bytes(id),
        BrgMsg::SetSession(id) => seq![2u8] + be64_bytes(id),
        BrgMsg::SetSessionOk => seq![3u8],
        BrgMsg::SendData(d) => seq![4u8] + d@,
        BrgMsg::Fail(r) => seq![5u8, fail_to_u8(r)],
    }
}

/// Whether a byte sequence is some bridge control message: a known
/// operation code with data of the right shape.
pub open spec fn spec_msg_valid(s: Seq<u8>) -> bool {
    s.len() >= 1 && {
        let op = s[0];
        if op == 0 {
            s.len() == 1
        } else if op == 1 {
            s.len() == 9
        } else if op == 2 {
            s.len() == 9
        } else if op == 3 {
            s.len() == 1
        } else if op == 4 {
            true
        } else if op == 5 {
            s.len() == 2 && s[1] == 0
        } else {
            false
        }
    }
}

/// The error an invalid byte sequence is rejected with: an unknown
/// operation code is reported as such, anything else as corrupted.
pub open spec fn spec_msg_err(s: Seq<u8>) -> BrgMsgParseError {
    if s.len() >= 1 && s[0] > 5 {
        BrgMsgParseError::InvalidOp(s[0])
    } else {
        BrgMsgParseError::CorruptedMessage
    }
}

impl BrgMsg {
    /// Parse one message from its exact byte form; succeeds on precisely
    /// the valid byte sequences, and the parsed message writes back as
    /// the input.
    pub fn try_from(src: &Vec<u8>) -> (r: Result<BrgMsg, BrgMsgParseError>)
        ensures
            match r {
                Ok(m) => spec_msg_valid(src@) && spec_msg_bytes(m) == src@,
                Err(e) => !spec_msg_valid(src@) && e == spec_msg_err(src@),
            },
    {
        if src.len() == 0 {
            return Err(BrgMsgParseError::CorruptedMessage);
        }
        let op_code: u8 = src[0];
        match op_code {
            0 => {
                if src.len() == 1 {
                    proof {
                        assert(spec_msg_bytes(BrgMsg::ReqSession) =~= src@);
                    }
                    Ok(BrgMsg::ReqSession)
                } else {
                    Err(BrgMsgParseError::CorruptedMessage)
                }
            },
            1 => {
                if src.len() == 9 {
                    let id = read_be64_at(src, 1);
                    proof {
                        lemma_be64_bytes_val(src@.subrange(1, 9));
                        assert(spec_msg_bytes(BrgMsg::ReqSessionReply(id)) =~= src@);
                    }
                    Ok(BrgMsg::ReqSessionReply(id))
                } else {
                    Err(BrgMsgParseError::CorruptedMessage)
                }
            },
            2 => {
                if src.len() == 9 {
                    let id = read_be64_at(src, 1);
                    proof {
                        lemma_be64_bytes_val(src@.subrange(1, 9));
                        assert(spec_msg_bytes(BrgMsg::SetSession(id)) =~= src@);
                    }
                    Ok(BrgMsg::SetSession(id))
                } else {
                    Err(BrgMsgParseError::CorruptedMessage)
                }
            },
            3 => {
                if src.len() == 1 {
                    proof {
                        assert(spec_msg_bytes(BrgMsg::SetSessionOk) =~= src@);
                    }
                    Ok(BrgMsg::SetSessionOk)
                } else {
                    Err(BrgMsgParseError::CorruptedMessage)
                }
            },
            4 => {
                let data = vec_slice_range(src, 1, src.len());
                proof {
                    assert(spec_msg_bytes(BrgMsg::SendData(data)) =~= src@);
                }
                Ok(BrgMsg::SendData(data))
            },
            5 => {
                if src.len() == 2 {
                    match FailReason::try_from(src[1]) {
                        Ok(reason) => {
                            proof {
                                assert(spec_msg_bytes(BrgMsg::Fail(reason)) =~= src@);
                            }
                            Ok(BrgMsg::Fail(reason))
                        },
                        Err(_) => Err(BrgMsgParseError::CorruptedMessage),
                    }
                } else {
                    Err(BrgMsgParseError::CorruptedMessage)
                }
            },
            _ => Err(BrgMsgParseError::InvalidOp(op_code)),
        }
    }

    /// Write this message as its exact byte form.
    pub fn into(self) -> (r: Vec<u8>)
        ensures
            r@ == spec_msg_bytes(self),
    {
        match self {
            BrgMsg::ReqSession => {
                let mut bytes: Vec<u8> = Vec::new();
                bytes.push(0);
                proof {
                    assert(bytes@ =~= spec_msg_bytes(BrgMsg::ReqSession));
                }
                bytes
            },
            BrgMsg::ReqSessionReply(id) => {
                let mut bytes: Vec<u8> = Vec::new();
                bytes.push(1);
                push_be64(&mut bytes, id);
                proof {
                    assert(bytes@ =~= spec_msg_bytes(BrgMsg::ReqSessionReply(id)));
                }
                bytes
            },
            BrgMsg::SetSession(id) => {
                let mut bytes: Vec<u8> = Vec::new();
                bytes.push(2);
                push_be64(&mut bytes, id);
                proof {
                    assert(bytes@ =~= spec_msg_bytes(BrgMsg::SetSession(id)));
                }
                bytes
            },
            BrgMsg::SetSessionOk => {
                let mut bytes: Vec<u8> = Vec::new();
                bytes.push(3);
                proof {
                    assert(bytes@ =~= spec_msg_bytes(BrgMsg::SetSessionOk));
                }
                bytes
            },
            BrgMsg::SendData(data) => {
                let mut bytes: Vec<u8> = Vec::new();
                bytes.push(4);
                let n = data.len();
                let mut i: usize = 0;
                while i < n
                    invariant
                        i <= n,
                        n == data@.len(),
                        bytes@ =~= seq![4u8] + data@.take(i as int),
                    decreases n - i,
                {
                    bytes.push(data[i]);
                    proof {
                        assert(bytes@ =~= seq![4u8] + data@.take(i + 1));
                    }
                    i += 1;
                }
                proof {
                    assert(bytes@ =~= spec_msg_bytes(BrgMsg::SendData(data)));
                }
                bytes
            },
            BrgMsg::Fail(reason) => {
                let mut bytes: Vec<u8> = Vec::new();
                bytes.push(5);
                bytes.push(reason.into());
                proof {
                    assert(bytes@ =~= spec_msg_bytes(BrgMsg::Fail(reason)));
                }
                bytes
            },
        }
    }
}

/// The 64-bit value of the eight big-endian bytes of `v` starting at
/// `at`.
fn read_be64_at(v: &Vec<u8>, at: usize) -> (r: u64)
    requires
        at + 8 <= v@.len(),
    ensures
        r == be64_val(v@.subrange(at as int, at + 8)),
{
    let n = v.len();
    proof {
        assert(at + 8 <= n);
    }
    let r = ((v[at] as u64) << 56) | ((v[at + 1] as u64) << 48) | ((v[at + 2] as u64) << 40) | ((
    v[at + 3] as u64) << 32) | ((v[at + 4] as u64) << 24) | ((v[at + 5] as u64) << 16) | ((v[at
        + 6] as u64) << 8) | (v[at + 7] as u64);
    proof {
        let sub = v@.subrange(at as int, at + 8);
        assert(sub[0] == v@[at as int]);
        assert(sub[1] == v@[at + 1]);
        assert(sub[2] == v@[at + 2]);
        assert(sub[3] == v@[at + 3]);
        assert(sub[4] == v@[at + 4]);
        assert(sub[5] == v@[at + 5]);
        assert(sub[6] == v@[at + 6]);
        assert(sub[7] == v@[at + 7]);
    }
    r
}

/// Append the eight big-endian bytes of `n` to `v`.
fn push_be64(v: &mut Vec<u8>, n: u64)
    ensures
        final(v)@ == old(v)@ + be64_bytes(n),
{
    v.push((n >> 56) as u8);
    v.push((n >> 48) as u8);
    v.push((n >> 40) as u8);
    v.push((n >> 32) as u8);
    v.push((n >> 24) as u8);
    v.push((n >> 16) as u8);
    v.push((n >> 8) as u8);
    v.push(n as u8);
    proof {
        assert(v@ =~= old(v)@ + be64_bytes(n));
    }
}

} // verus!
