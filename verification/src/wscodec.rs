use vstd::prelude::*;

use crate::frame::{lemma_opcode_roundtrip, op_from_u8, op_to_u8, Frame, FrameView, OpCode};

verus! {

/// Hard cap on the payload size a decoded frame may declare: 5 GiB.
/// A hostile extended length beyond this is rejected instead of allocated.
pub const MAX_PAYLOAD_LENGTH: u64 = 0x140000000;

/// The family a codec error belongs to.
#[derive(Debug, Clone, Copy, PartialEq, Eq, Structural)]
pub enum ErrorKind {
    /// The peer violated the framing protocol.
    Protocol,
}

/// A codec error: a kind plus a human-readable message.
#[derive(Debug)]
pub struct Error {
    pub kind: ErrorKind,
    pub details: String,
}

impl Error {
    pub fn new(kind: ErrorKind, details: String) -> (e: Error)
        ensures
            e.kind == kind,
            e.details@ == details@,
    {
        Error { kind, details }
    }
}

/// The message a frame with a payload length over the cap is rejected
/// with.
pub open spec fn max_length_msg() -> Seq<char> {
    "Rejected frame with payload length exceeding defined max: 5368709120."@
}

/// What reading one frame from the front of a byte sequence yields:
/// too few bytes yet, a declared length over the cap, or a complete
/// frame together with the number of bytes it occupies.
pub enum DecodeOutcome {
    Incomplete,
    TooLong,
    Complete { frame: FrameView, used: int },
}

/// First header byte: FIN, RSV1, RSV2, RSV3 in the high bits, the
/// opcode in the low nibble.
pub open spec fn spec_first_byte(f: FrameView) -> u8 {
    (if f.fin {
        0x80u8
    } else {
        0u8
    }) | (if f.rsv1 {
        0x40u8
    } else {
        0u8
    }) | (if f.rsv2 {
        0x20u8
    } else {
        0u8
    }) | (if f.rsv3 {
        0x10u8
    } else {
        0u8
    }) | op_to_u8(f.opcode)
}

/// The MASK bit of the second header byte.
pub open spec fn spec_mask_bit(f: FrameView) -> u8 {
    if f.mask is Some {
        0x80u8
    } else {
        0u8
    }
}

/// A 16-bit value as two big-endian bytes.
pub open spec fn be16_bytes(n: u64) -> Seq<u8> {
    seq![(n >> 8) as u8, n as u8]
}

/// A 64-bit value as eight big-endian bytes.
pub open spec fn be64_bytes(n: u64) -> Seq<u8> {
    seq![
        (n >> 56) as u8,
        (n >> 48) as u8,
        (n >> 40) as u8,
        (n >> 32) as u8,
        (n >> 24) as u8,
        (n >> 16) as u8,
        (n >> 8) as u8,
        n as u8,
    ]
}

/// The value of two big-endian bytes.
pub open spec fn be16_val(b0: u8, b1: u8) -> u64 {
    ((b0 as u64) << 8) | (b1 as u64)
}

/// The value of eight big-endian bytes.
pub open spec fn be64_val(s: Seq<u8>) -> u64 {
    ((s[0] as u64) << 56) | ((s[1] as u64) << 48) | ((s[2] as u64) << 40) | ((s[3] as u64) << 32)
        | ((s[4] as u64) << 24) | ((s[5] as u64) << 16) | ((s[6] as u64) << 8) | (s[7] as u64)
}

/// The masking-key bytes a frame contributes to the wire, if any.
pub open spec fn spec_mask_key(f: FrameView) -> Seq<u8> {
    match f.mask {
        Some(k) => k,
        None => Seq::empty(),
    }
}

/// The extended-length bytes a frame contributes to the wire: none below
/// 126, two big-endian bytes below 65536, eight otherwise. The length
/// discriminant is chosen minimally.
pub open spec fn spec_ext_len(f: FrameView) -> Seq<u8> {
    let len = f.payload.len();
    if len < 126 {
        Seq::empty()
    } else if len < 65536 {
        be16_bytes(len as u64)
    } else {
        be64_bytes(len as u64)
    }
}

/// Second header byte: the MASK bit plus the length discriminant.
pub open spec fn spec_second_byte(f: FrameView) -> u8 {
    let len = f.payload.len();
    spec_mask_bit(f) | (if len < 126 {
        len as u8
    } else if len < 65536 {
        126u8
    } else {
        127u8
    })
}

/// The exact byte sequence a frame is written as: two header bytes,
/// extended length, masking key, then the payload verbatim.
pub open spec fn spec_encode(f: FrameView) -> Seq<u8> {
    seq![spec_first_byte(f), spec_second_byte(f)] + spec_ext_len(f) + spec_mask_key(f)
        + f.payload
}

/// Header length implied by the second header byte: two fixed bytes,
/// the extended length, and the masking key if the MASK bit is set.
pub open spec fn spec_head_len(masked: bool, len7: u8) -> int {
    2 + (if masked {
        4int
    } else {
        0int
    }) + (if len7 == 126 {
        2int
    } else if len7 == 127 {
        8int
    } else {
        0int
    })
}

/// Reading one frame from the front of `s`, mirroring the two-phase
/// commit discipline: no byte counts as consumed until the whole frame
/// is present, and a declared length over the cap is rejected outright.
pub open spec fn spec_decode(s: Seq<u8>) -> DecodeOutcome {
    if s.len() < 2 {
        DecodeOutcome::Incomplete
    } else {
        let first = s[0];
        let second = s[1];
        let masked = (second & 0x80) != 0;
        let len7 = second & 0x7f;
        let head = spec_head_len(masked, len7);
        if (s.len() as int) < head {
            DecodeOutcome::Incomplete
        } else {
            let dlen: u64 = if len7 == 126 {
                be16_val(s[2], s[3])
            } else if len7 == 127 {
                be64_val(s.subrange(2, 10))
            } else {
                len7 as u64
            };
            if dlen > MAX_PAYLOAD_LENGTH {
                DecodeOutcome::TooLong
            } else if (s.len() as int) < head + dlen {
                DecodeOutcome::Incomplete
            } else {
                let ext_end: int = if len7 == 126 {
                    4int
                } else if len7 == 127 {
                    10int
                } else {
                    2int
                };
                DecodeOutcome::Complete {
                    frame: FrameView {
                        fin: (first & 0x80) != 0,
                        rsv1: (first & 0x40) != 0,
                        rsv2: (first & 0x20) != 0,
                        rsv3: (first & 0x10) != 0,
                        opcode: op_from_u8(first & 0x0f),
                        mask: if masked {
                            Some(s.subrange(ext_end, ext_end + 4))
                        } else {
                            None
                        },
                        payload: s.subrange(head, head + dlen),
                    },
                    used: head + dlen,
                }
            }
        }
    }
}

/// A frame that can be written to the wire and read back as itself: the
/// opcode value fits the 4-bit field and is in canonical form (a `Bad`
/// value is not one of the recognized codes), and a masking key, if
/// present, has exactly four bytes.
pub open spec fn frame_wf(f: FrameView) -> bool {
    &&& op_to_u8(f.opcode) < 16
    &&& op_from_u8(op_to_u8(f.opcode)) == f.opcode
    &&& match f.mask {
        Some(k) => k.len() == 4,
        None => true,
    }
}

/// Every frame the decoder yields is well formed, and it occupies at
/// least its two header bytes and at most the whole input.
pub proof fn lemma_decoded_frame_wf(s: Seq<u8>)
    ensures
        spec_decode(s) matches DecodeOutcome::Complete { frame, used } ==> frame_wf(frame) && 2
            <= used <= s.len(),
{
    if s.len() >= 2 {
        let first = s[0];
        let v = first & 0x0f;
        assert(first & 0x0f < 16) by (bit_vector);
        lemma_opcode_roundtrip(v);
    }
}

/// Feeding more bytes cannot change a decision already made: once the
/// front of the buffer holds a complete frame, any extension decodes to
/// that same frame over the same byte count, and once the declared
/// length is over the cap, any extension is rejected the same way.
/// Together with `lemma_decode_prefix_incomplete` this says a stream
/// may be delivered in arbitrary chunks without changing the frames.
pub proof fn lemma_decode_extend(s: Seq<u8>, t: Seq<u8>)
    ensures
        spec_decode(s) matches DecodeOutcome::Complete { frame, used } ==> spec_decode(s + t)
            == (DecodeOutcome::Complete { frame, used }),
        spec_decode(s) is TooLong ==> spec_decode(s + t) is TooLong,
{
    let u = s + t;
    if s.len() >= 2 {
        assert(u[0] == s[0]);
        assert(u[1] == s[1]);
        let second = s[1];
        let masked = (second & 0x80) != 0;
        let len7 = second & 0x7f;
        let head = spec_head_len(masked, len7);
        if s.len() >= head {
            if len7 == 126 {
                assert(u[2] == s[2]);
                assert(u[3] == s[3]);
            }
            if len7 == 127 {
                assert(u.subrange(2, 10) =~= s.subrange(2, 10));
            }
            let dlen: u64 = if len7 == 126 {
                be16_val(s[2], s[3])
            } else if len7 == 127 {
                be64_val(s.subrange(2, 10))
            } else {
                len7 as u64
            };
            if dlen <= MAX_PAYLOAD_LENGTH && s.len() >= head + dlen {
                let ext_end: int = if len7 == 126 {
                    4int
                } else if len7 == 127 {
                    10int
                } else {
                    2int
                };
                if masked {
                    assert(u.subrange(ext_end, ext_end + 4) =~= s.subrange(ext_end, ext_end + 4));
                }
                assert(u.subrange(head, head + dlen) =~= s.subrange(head, head + dlen));
            }
        }
    }
}

/// Any strict prefix of a buffer whose front decodes to a complete
/// frame is `Incomplete` when it stops short of that frame's last byte:
/// the decoder never errs, consumes, or commits on a partial frame.
pub proof fn lemma_decode_prefix_incomplete(s: Seq<u8>, m: int)
    requires
        spec_decode(s) matches DecodeOutcome::Complete { frame, used } && 0 <= m < used,
    ensures
        spec_decode(s.take(m)) is Incomplete,
{
    let p = s.take(m);
    if m >= 2 {
        assert(p[0] == s[0]);
        assert(p[1] == s[1]);
        let second = s[1];
        let masked = (second & 0x80) != 0;
        let len7 = second & 0x7f;
        let head = spec_head_len(masked, len7);
        if m >= head {
            if len7 == 126 {
                assert(p[2] == s[2]);
                assert(p[3] == s[3]);
            }
            if len7 == 127 {
                assert(p.subrange(2, 10) =~= s.subrange(2, 10));
            }
        }
    }
}

/// Writing a well-formed frame and reading the result back yields the
/// same frame, consuming exactly the bytes written. Stated for payloads
/// of up to 2^32 - 1 bytes, which stay under the decoder's length cap.
#[verifier::rlimit(100)]
pub proof fn lemma_encode_decode_roundtrip(f: FrameView)
    requires
        frame_wf(f),
        f.payload.len() <= 0xFFFFFFFF,
    ensures
        spec_decode(spec_encode(f)) == (DecodeOutcome::Complete {
            frame: f,
            used: spec_encode(f).len() as int,
        }),
{
    let s = spec_encode(f);
    let len = f.payload.len() as int;
    let first = spec_first_byte(f);
    let second = spec_second_byte(f);
    let ext = spec_ext_len(f);
    let mk = spec_mask_key(f);
    let two = seq![first, second];
    let pre3 = two + ext;
    let pre2 = pre3 + mk;
    assert(s == pre2 + f.payload);
    assert(s[0] == first);
    assert(s[1] == second);
    // How the decoder's bit tests read the first header byte back.
    let ab: u8 = if f.fin {
        0x80u8
    } else {
        0u8
    };
    let rb1: u8 = if f.rsv1 {
        0x40u8
    } else {
        0u8
    };
    let rb2: u8 = if f.rsv2 {
        0x20u8
    } else {
        0u8
    };
    let rb3: u8 = if f.rsv3 {
        0x10u8
    } else {
        0u8
    };
    let ob: u8 = op_to_u8(f.opcode);
    assert(first == (ab | rb1 | rb2 | rb3 | ob));
    assert((ab | rb1 | rb2 | rb3 | ob) & 0x80 == ab && (ab | rb1 | rb2 | rb3 | ob) & 0x40 == rb1
        && (ab | rb1 | rb2 | rb3 | ob) & 0x20 == rb2 && (ab | rb1 | rb2 | rb3 | ob) & 0x10 == rb3
        && (ab | rb1 | rb2 | rb3 | ob) & 0x0f == ob) by (bit_vector)
        requires
            ab == 0x80 || ab == 0,
            rb1 == 0x40 || rb1 == 0,
            rb2 == 0x20 || rb2 == 0,
            rb3 == 0x10 || rb3 == 0,
            ob < 16,
    ;
    lemma_opcode_roundtrip(ob);
    // How the decoder reads the second header byte back.
    let mb: u8 = spec_mask_bit(f);
    let lb: u8 = if len < 126 {
        f.payload.len() as u8
    } else if len < 65536 {
        126u8
    } else {
        127u8
    };
    assert(second == (mb | lb));
    assert(lb <= 127);
    assert((mb | lb) & 0x80 == mb && (mb | lb) & 0x7f == lb) by (bit_vector)
        requires
            mb == 0x80 || mb == 0,
            lb <= 127,
    ;
    let masked = (second & 0x80) != 0;
    assert(masked == (f.mask is Some));
    let extlen: int = if len < 126 {
        0int
    } else if len < 65536 {
        2int
    } else {
        8int
    };
    assert(ext.len() == extlen);
    assert(mk.len() == (if masked {
        4int
    } else {
        0int
    }));
    let head = spec_head_len(masked, lb);
    assert(head == 2 + extlen + mk.len());
    assert(pre2.len() == head);
    assert(s.len() == head + len);
    // The declared length reads back as the payload length.
    let n = f.payload.len() as u64;
    if len < 126 {
    } else if len < 65536 {
        assert(s[2] == ext[0]);
        assert(s[3] == ext[1]);
        assert(((((n >> 8) as u8) as u64) << 8) | ((n as u8) as u64) == n) by (bit_vector)
            requires
                n < 65536,
        ;
        assert(be16_val(s[2], s[3]) == n);
    } else {
        assert(s.subrange(2, 10) =~= ext);
        assert(((((n >> 56) as u8) as u64) << 56) | ((((n >> 48) as u8) as u64) << 48) | ((((n
            >> 40) as u8) as u64) << 40) | ((((n >> 32) as u8) as u64) << 32) | ((((n >> 24) as u8)
            as u64) << 24) | ((((n >> 16) as u8) as u64) << 16) | ((((n >> 8) as u8) as u64) << 8)
            | ((n as u8) as u64) == n) by (bit_vector);
        assert(be64_val(s.subrange(2, 10)) == n);
    }
    // The frame fields read back equal.
    assert(s.subrange(head, head + len) =~= f.payload);
    if f.mask is Some {
        assert(s.subrange(2 + extlen, 2 + extlen + 4) =~= mk);
    }
    assert(spec_decode(s) == (DecodeOutcome::Complete { frame: f, used: s.len() as int }));
}

/// A buffer whose whole header is present and whose declared payload
/// length is over the cap is rejected as a protocol error, whatever
/// else it holds; one under the cap never is.
pub proof fn lemma_length_cap(s: Seq<u8>)
    ensures
        s.len() >= 2 ==> {
            let masked = (s[1] & 0x80) != 0;
            let len7 = s[1] & 0x7f;
            let head = spec_head_len(masked, len7);
            s.len() >= head ==> {
                let dlen: u64 = if len7 == 126 {
                    be16_val(s[2], s[3])
                } else if len7 == 127 {
                    be64_val(s.subrange(2, 10))
                } else {
                    len7 as u64
                };
                (spec_decode(s) is TooLong <==> dlen > MAX_PAYLOAD_LENGTH)
            }
        },
{
}

/// Eight big-endian bytes survive the round trip through their 64-bit
/// value.
pub proof fn lemma_be64_bytes_val(s: Seq<u8>)
    requires
        s.len() == 8,
    ensures
        be64_bytes(be64_val(s)) == s,
{
    let b0 = s[0];
    let b1 = s[1];
    let b2 = s[2];
    let b3 = s[3];
    let b4 = s[4];
    let b5 = s[5];
    let b6 = s[6];
    let b7 = s[7];
    let n = be64_val(s);
    assert(n == ((b0 as u64) << 56) | ((b1 as u64) << 48) | ((b2 as u64) << 40) | ((b3 as u64)
        << 32) | ((b4 as u64) << 24) | ((b5 as u64) << 16) | ((b6 as u64) << 8) | (b7 as u64));
    let m = ((b0 as u64) << 56) | ((b1 as u64) << 48) | ((b2 as u64) << 40) | ((b3 as u64) << 32)
        | ((b4 as u64) << 24) | ((b5 as u64) << 16) | ((b6 as u64) << 8) | (b7 as u64);
    assert(((m >> 56) as u8) == b0 && ((m >> 48) as u8) == b1 && ((m >> 40) as u8) == b2 && ((m
        >> 32) as u8) == b3 && ((m >> 24) as u8) == b4 && ((m >> 16) as u8) == b5 && ((m >> 8)
        as u8) == b6 && (m as u8) == b7) by (bit_vector)
        requires
            m == ((b0 as u64) << 56) | ((b1 as u64) << 48) | ((b2 as u64) << 40) | ((b3 as u64)
                << 32) | ((b4 as u64) << 24) | ((b5 as u64) << 16) | ((b6 as u64) << 8) | (
            b7 as u64),
    ;
    assert(be64_bytes(n) =~= s);
}

/// A fresh vector holding the bytes of `v` from `a` (inclusive) to `b`
/// (exclusive).
pub(crate) fn vec_slice_range(v: &Vec<u8>, a: usize, b: usize) -> (r: Vec<u8>)
    requires
        a <= b <= v@.len(),
    ensures
        r@ == v@.subrange(a as int, b as int),
{
    let mut r: Vec<u8> = Vec::with_capacity(b - a);
    let mut i: usize = a;
    while i < b
        invariant
            a <= i <= b <= v@.len(),
            r@ =~= v@.subrange(a as int, i as int),
        decreases b - i,
    {
        r.push(v[i]);
        proof {
            assert(r@ =~= v@.subrange(a as int, i + 1));
        }
        i += 1;
    }
    proof {
        assert(r@ =~= v@.subrange(a as int, b as int));
    }
    r
}

/// The stateless frame codec: `decode` reads one frame off the front of
/// a buffer, `encode` appends one frame to a buffer.
pub struct WsCodec;

impl WsCodec {
    pub fn new() -> (c: WsCodec) {
        WsCodec
    }

    /// Read one frame off the front of `src`. With too few bytes for the
    /// whole frame, nothing is consumed and more input must arrive; a
    /// declared payload length over `MAX_PAYLOAD_LENGTH` is a protocol
    /// error that also consumes nothing; otherwise exactly the frame's
    /// bytes are consumed and the frame is returned, its payload as
    /// received (still masked if masked).
    pub fn decode(&mut self, src: &mut Vec<u8>) -> (r: Result<Option<Frame>, Error>)
        ensures
            match r {
                Ok(None) => spec_decode(old(src)@) is Incomplete && final(src)@ == old(src)@,
                Ok(Some(f)) => {
                    &&& spec_decode(old(src)@) matches DecodeOutcome::Complete { frame, used }
                    &&& f@ == frame
                    &&& final(src)@ == old(src)@.skip(used)
                },
                Err(e) => {
                    &&& spec_decode(old(src)@) is TooLong
                    &&& final(src)@ == old(src)@
                    &&& e.kind == ErrorKind::Protocol
                    &&& e.details@ == max_length_msg()
                },
            },
    {
        if src.len() < 2 {
            return Ok(None);
        }
        let first: u8 = src[0];
        let second: u8 = src[1];
        let fin = first & 0x80 != 0;
        let rsv1 = first & 0x40 != 0;
        let rsv2 = first & 0x20 != 0;
        let rsv3 = first & 0x10 != 0;
        let opcode = OpCode::from(first & 0x0F);
        let masked = second & 0x80 != 0;
        let len7: u8 = second & 0x7F;
        let mut full_head_len: usize = 2;
        if masked {
            full_head_len += 4;
        }
        if len7 == 126 {
            full_head_len += 2;
        } else if len7 == 127 {
            full_head_len += 8;
        }
        proof {
            assert(full_head_len == spec_head_len(masked, len7));
        }
        if src.len() < full_head_len {
            return Ok(None);
        }
        let ext_end: usize = if len7 == 126 {
            4
        } else if len7 == 127 {
            10
        } else {
            2
        };
        let data_len: u64 = if len7 == 126 {
            ((src[2] as u64) << 8) | (src[3] as u64)
        } else if len7 == 127 {
            ((src[2] as u64) << 56) | ((src[3] as u64) << 48) | ((src[4] as u64) << 40) | ((src[5]
                as u64) << 32) | ((src[6] as u64) << 24) | ((src[7] as u64) << 16) | ((src[8]
                as u64) << 8) | (src[9] as u64)
        } else {
            len7 as u64
        };
        proof {
            if len7 == 127 {
                let sub = src@.subrange(2, 10);
                assert(sub[0] == src@[2]);
                assert(sub[1] == src@[3]);
                assert(sub[2] == src@[4]);
                assert(sub[3] == src@[5]);
                assert(sub[4] == src@[6]);
                assert(sub[5] == src@[7]);
                assert(sub[6] == src@[8]);
                assert(sub[7] == src@[9]);
            }
        }
        let mask: Option<[u8; 4]> = if masked {
            Some([src[ext_end], src[ext_end + 1], src[ext_end + 2], src[ext_end + 3]])
        } else {
            None
        };
        if data_len > MAX_PAYLOAD_LENGTH {
            return Err(
                Error::new(
                    ErrorKind::Protocol,
                    "Rejected frame with payload length exceeding defined max: 5368709120.".to_owned(),
                ),
            );
        }
        if (src.len() as u64) < (full_head_len as u64) + data_len {
            return Ok(None);
        }
        proof {
            assert(data_len <= usize::MAX as u64);
        }
        let data_len_us: usize = data_len as usize;
        let total: usize = full_head_len + data_len_us;
        let payload = vec_slice_range(src, full_head_len, total);
        let rest = vec_slice_range(src, total, src.len());
        let ghost orig = src@;
        *src = rest;
        let f = Frame { fin, rsv1, rsv2, rsv3, opcode, mask, payload };
        proof {
            assert(src@ =~= orig.skip(total as int));
            if masked {
                assert(f@.mask matches Some(k) && k =~= orig.subrange(
                    ext_end as int,
                    ext_end + 4,
                ));
            }
        }
        Ok(Some(f))
    }

    /// Append the wire form of `item` to `dst`. Always succeeds; the
    /// payload is written verbatim, not re-masked.
    #[verifier::rlimit(60)]
    pub fn encode(&mut self, item: Frame, dst: &mut Vec<u8>) -> (r: Result<(), Error>)
        ensures
            r is Ok,
            final(dst)@ == old(dst)@ + spec_encode(item@),
    {
        let x: u8 = u8::from(item.opcode);
        let first: u8 = (if item.fin {
            0x80u8
        } else {
            0x00u8
        }) | (if item.rsv1 {
            0x40u8
        } else {
            0x00u8
        }) | (if item.rsv2 {
            0x20u8
        } else {
            0x00u8
        }) | (if item.rsv3 {
            0x10u8
        } else {
            0x00u8
        }) | x;
        dst.push(first);
        let mask_bit: u8 = if item.mask.is_some() {
            0x80
        } else {
            0x00
        };
        let len = item.payload.len();
        if len < 126 {
            dst.push(mask_bit | (len as u8));
        } else if len < 65536 {
            dst.push(mask_bit | 126u8);
            let l = len as u64;
            dst.push((l >> 8) as u8);
            dst.push(l as u8);
        } else {
            dst.push(mask_bit | 127u8);
            let l = len as u64;
            dst.push((l >> 56) as u8);
            dst.push((l >> 48) as u8);
            dst.push((l >> 40) as u8);
            dst.push((l >> 32) as u8);
            dst.push((l >> 24) as u8);
            dst.push((l >> 16) as u8);
            dst.push((l >> 8) as u8);
            dst.push(l as u8);
        }
        proof {
            assert(dst@ =~= old(dst)@ + seq![spec_first_byte(item@), spec_second_byte(item@)]
                + spec_ext_len(item@));
        }
        match item.mask {
            Some(m) => {
                dst.push(m[0]);
                dst.push(m[1]);
                dst.push(m[2]);
                dst.push(m[3]);
                proof {
                    assert(dst@ =~= old(dst)@ + seq![spec_first_byte(item@), spec_second_byte(
                        item@,
                    )] + spec_ext_len(item@) + spec_mask_key(item@));
                }
            },
            None => {},
        }
        let ghost headed = dst@;
        let n = item.payload.len();
        let mut i: usize = 0;
        while i < n
            invariant
                i <= n,
                n == item.payload@.len(),
                dst@ =~= headed + item.payload@.take(i as int),
            decreases n - i,
        {
            dst.push(item.payload[i]);
            proof {
                assert(dst@ =~= headed + item.payload@.take(i + 1));
            }
            i += 1;
        }
        proof {
            assert(item.payload@.take(n as int) =~= item.payload@);
            assert(dst@ =~= old(dst)@ + spec_encode(item@));
        }
        Ok(())
    }
}

} // verus!
