use vstd::prelude::*;
use vstd::string::StrSliceExecFns;
use vstd::string::StringSliceAdditionalSpecFns;

verus! {

/// Frame-type field of a WebSocket frame header: the low nibble of the
/// first header byte. Unrecognized values are carried verbatim in `Bad`.
#[derive(Debug, Clone, PartialEq, Eq, Structural)]
pub enum OpCode {
    /// A continuation frame of a fragmented message.
    Continue,
    /// A text data frame.
    Text,
    /// A binary data frame.
    Binary,
    /// A close control frame.
    Close,
    /// A ping control frame.
    Ping,
    /// A pong control frame.
    Pong,
    /// An unrecognized opcode, carrying the original value.
    Bad(u8),
}

/// The numeric value an opcode is written as on the wire.
pub open spec fn op_to_u8(op: OpCode) -> u8 {
    match op {
        OpCode::Continue => 0,
        OpCode::Text => 1,
        OpCode::Binary => 2,
        OpCode::Close => 8,
        OpCode::Ping => 9,
        OpCode::Pong => 10,
        OpCode::Bad(v) => v,
    }
}

/// The opcode a numeric value is read as from the wire.
pub open spec fn op_from_u8(v: u8) -> OpCode {
    if v == 0 {
        OpCode::Continue
    } else if v == 1 {
        OpCode::Text
    } else if v == 2 {
        OpCode::Binary
    } else if v == 8 {
        OpCode::Close
    } else if v == 9 {
        OpCode::Ping
    } else if v == 10 {
        OpCode::Pong
    } else {
        OpCode::Bad(v)
    }
}

impl From<u8> for OpCode {
    fn from(v: u8) -> (r: Self)
        ensures
            r == op_from_u8(v),
    {
        match v {
            0 => OpCode::Continue,
            1 => OpCode::Text,
            2 => OpCode::Binary,
            8 => OpCode::Close,
            9 => OpCode::Ping,
            10 => OpCode::Pong,
            _ => OpCode::Bad(v),
        }
    }
}

impl vstd::std_specs::convert::FromSpecImpl<u8> for OpCode {
    open spec fn obeys_from_spec() -> bool {
        true
    }

    open spec fn from_spec(v: u8) -> OpCode {
        op_from_u8(v)
    }
}

impl From<OpCode> for u8 {
    fn from(op: OpCode) -> (r: u8)
        ensures
            r == op_to_u8(op),
    {
        match op {
            OpCode::Continue => 0,
            OpCode::Text => 1,
            OpCode::Binary => 2,
            OpCode::Close => 8,
            OpCode::Ping => 9,
            OpCode::Pong => 10,
            OpCode::Bad(v) => v,
        }
    }
}

impl vstd::std_specs::convert::FromSpecImpl<OpCode> for u8 {
    open spec fn obeys_from_spec() -> bool {
        true
    }

    open spec fn from_spec(op: OpCode) -> u8 {
        op_to_u8(op)
    }
}

/// Reading an opcode back as a byte restores the byte it was read from:
/// the wire value survives the round trip even for unrecognized opcodes.
pub proof fn lemma_opcode_roundtrip(v: u8)
    ensures
        op_to_u8(op_from_u8(v)) == v,
{
}

/// Mathematical value of a frame: what a `Frame` holds, with the payload
/// and the masking key as byte sequences.
pub struct FrameView {
    pub fin: bool,
    pub rsv1: bool,
    pub rsv2: bool,
    pub rsv3: bool,
    pub opcode: OpCode,
    pub mask: Option<Seq<u8>>,
    pub payload: Seq<u8>,
}

/// A single self-delimited unit on a WebSocket byte stream: header bits,
/// opcode, optional 4-byte masking key, and the payload bytes as received.
#[derive(Debug, Clone)]
pub struct Frame {
    /// Last fragment of a logical message.
    pub fin: bool,
    /// Reserved bit, preserved verbatim on the wire.
    pub rsv1: bool,
    /// Reserved bit, preserved verbatim on the wire.
    pub rsv2: bool,
    /// Reserved bit, preserved verbatim on the wire.
    pub rsv3: bool,
    /// Frame type.
    pub opcode: OpCode,
    /// Masking key, present iff the peer marked the frame as masked.
    pub mask: Option<[u8; 4]>,
    /// Raw payload bytes, still masked if `mask` is present.
    pub payload: Vec<u8>,
}

impl View for Frame {
    type V = FrameView;

    open spec fn view(&self) -> FrameView {
        FrameView {
            fin: self.fin,
            rsv1: self.rsv1,
            rsv2: self.rsv2,
            rsv3: self.rsv3,
            opcode: self.opcode,
            mask: match self.mask {
                Some(k) => Some(k@),
                None => None,
            },
            payload: self.payload@,
        }
    }
}

/// Payload bytes after XOR with the 4-byte masking key, each byte with
/// the key byte at its index modulo 4.
pub open spec fn mask_seq(p: Seq<u8>, k: Seq<u8>) -> Seq<u8> {
    Seq::new(p.len(), |i: int| p[i] ^ k[i % 4])
}

/// Whether two byte vectors hold the same bytes.
pub fn bytes_eq(a: &Vec<u8>, b: &Vec<u8>) -> (r: bool)
    ensures
        r == (a@ == b@),
{
    if a.len() != b.len() {
        return false;
    }
    let n = a.len();
    let mut i: usize = 0;
    while i < n
        invariant
            i <= n,
            n == a@.len() == b@.len(),
            forall|j: int| 0 <= j < i ==> a@[j] == b@[j],
        decreases n - i,
    {
        if a[i] != b[i] {
            return false;
        }
        i += 1;
    }
    proof {
        assert(a@ =~= b@);
    }
    true
}

/// Masking twice restores the payload: XOR with the key is self-inverse.
pub proof fn lemma_mask_involution(p: Seq<u8>, k: Seq<u8>)
    requires
        k.len() == 4,
    ensures
        mask_seq(mask_seq(p, k), k) == p,
{
    assert forall|i: int| 0 <= i < p.len() implies mask_seq(mask_seq(p, k), k)[i] == p[i] by {
        let b = p[i];
        let m = k[i % 4];
        assert((b ^ m) ^ m == b) by (bit_vector);
    }
    assert(mask_seq(mask_seq(p, k), k) =~= p);
}

impl Default for Frame {
    /// A final, unfragmented, unmasked frame with an invalid opcode and an
    /// empty payload, to be filled in by the constructors.
    fn default() -> (f: Frame)
        ensures
            f@ == (FrameView {
                fin: true,
                rsv1: false,
                rsv2: false,
                rsv3: false,
                opcode: OpCode::Bad(11),
                mask: None,
                payload: Seq::<u8>::empty(),
            }),
    {
        let f = Frame {
            fin: true,
            rsv1: false,
            rsv2: false,
            rsv3: false,
            opcode: OpCode::Bad(11),
            mask: None,
            payload: Vec::with_capacity(0),
        };
        proof {
            assert(f@.payload =~= Seq::<u8>::empty());
        }
        f
    }
}

impl Frame {
    /// When a masking key is present, XOR every payload byte with the key
    /// byte at its index modulo 4 and report `true`; without a key, leave
    /// the frame unchanged and report `false`. The key itself is kept, so
    /// applying twice restores the original payload.
    pub fn apply_mask(&mut self) -> (r: bool)
        ensures
            r == old(self).mask is Some,
            final(self).fin == old(self).fin,
            final(self).rsv1 == old(self).rsv1,
            final(self).rsv2 == old(self).rsv2,
            final(self).rsv3 == old(self).rsv3,
            final(self).opcode == old(self).opcode,
            final(self).mask == old(self).mask,
            match old(self).mask {
                None => final(self).payload@ == old(self).payload@,
                Some(k) => final(self).payload@ == mask_seq(old(self).payload@, k@),
            },
    {
        match self.mask {
            None => false,
            Some(m) => {
                let n = self.payload.len();
                let mut out: Vec<u8> = Vec::with_capacity(n);
                let mut i: usize = 0;
                while i < n
                    invariant
                        i <= n,
                        n == self.payload@.len(),
                        self == old(self),
                        out@ =~= mask_seq(self.payload@, m@).take(i as int),
                    decreases n - i,
                {
                    let b = self.payload[i];
                    let mb = m[i % 4];
                    out.push(b ^ mb);
                    proof {
                        assert(out@ =~= mask_seq(self.payload@, m@).take(i + 1));
                    }
                    i += 1;
                }
                proof {
                    assert(out@ =~= mask_seq(self.payload@, m@));
                }
                self.payload = out;
                true
            }
        }
    }

    /// A pong frame with an empty payload.
    pub fn pong() -> (f: Frame)
        ensures
            f@ == (FrameView {
                fin: true,
                rsv1: false,
                rsv2: false,
                rsv3: false,
                opcode: OpCode::Pong,
                mask: None,
                payload: Seq::<u8>::empty(),
            }),
    {
        Self::pong_bytes_mut(Vec::with_capacity(0))
    }

    /// A pong frame carrying the given payload.
    pub fn pong_bytes_mut(b: Vec<u8>) -> (f: Frame)
        ensures
            f@ == (FrameView {
                fin: true,
                rsv1: false,
                rsv2: false,
                rsv3: false,
                opcode: OpCode::Pong,
                mask: None,
                payload: b@,
            }),
    {
        let mut frame = Frame::default();
        frame.opcode = OpCode::Pong;
        frame.payload = b;
        frame
    }

    /// A ping frame with an empty payload.
    pub fn ping() -> (f: Frame)
        ensures
            f@ == (FrameView {
                fin: true,
                rsv1: false,
                rsv2: false,
                rsv3: false,
                opcode: OpCode::Ping,
                mask: None,
                payload: Seq::<u8>::empty(),
            }),
    {
        let mut frame = Frame::default();
        frame.opcode = OpCode::Ping;
        frame
    }

    /// An unmasked text frame carrying the bytes of the given string.
    pub fn text(s: &str) -> (f: Frame)
        ensures
            f@ == (FrameView {
                fin: true,
                rsv1: false,
                rsv2: false,
                rsv3: false,
                opcode: OpCode::Text,
                mask: None,
                payload: s.spec_bytes(),
            }),
    {
        Self::text_bytes_mut(s.as_bytes_vec())
    }

    /// An unmasked text frame carrying the given payload.
    pub fn text_bytes_mut(b: Vec<u8>) -> (f: Frame)
        ensures
            f@ == (FrameView {
                fin: true,
                rsv1: false,
                rsv2: false,
                rsv3: false,
                opcode: OpCode::Text,
                mask: None,
                payload: b@,
            }),
    {
        let mut frame = Frame::default();
        frame.opcode = OpCode::Text;
        frame.mask = None;
        frame.payload = b;
        frame
    }
}

} // verus!
