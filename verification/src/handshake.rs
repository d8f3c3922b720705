use vstd::prelude::*;
use vstd::string::StrSliceExecFns;
use vstd::string::StringSliceAdditionalSpecFns;

use crate::frame::bytes_eq;

verus! {

/// The SHA-1 digest of a byte sequence: twenty bytes, a function of the
/// input alone.
pub uninterp spec fn sha1_of(data: Seq<u8>) -> Seq<u8>;

/// Relies on crypto::sha1::Sha1 (the rust-crypto crate): feeding the
/// whole input and reading the result yields the 20-byte SHA-1 digest,
/// a function of the input bytes alone.
#[verifier::external_body]
fn sha1_digest(data: &Vec<u8>) -> (r: Vec<u8>)
    ensures
        r@ == sha1_of(data@),
        r@.len() == 20,
{
    let mut h = crypto::sha1::Sha1::new();
    crypto::digest::Digest::input(&mut h, data.as_slice());
    let mut out = [0u8; 20];
    crypto::digest::Digest::result(&mut h, &mut out);
    out.to_vec()
}

/// The standard Base64 encoding (with padding) of a byte sequence, as
/// ASCII bytes: a function of the input alone.
pub uninterp spec fn base64_of(data: Seq<u8>) -> Seq<u8>;

/// Relies on base64::encode: the standard alphabet with padding, four
/// output bytes for every started group of three input bytes.
#[verifier::external_body]
fn base64_encode(data: &Vec<u8>) -> (r: Vec<u8>)
    ensures
        r@ == base64_of(data@),
        r@.len() == 4 * ((data@.len() + 2) / 3),
{
    base64::encode(data.as_slice()).into_bytes()
}

/// What standard Base64 decoding makes of a byte sequence: the decoded
/// bytes, or nothing when the input is not valid Base64. A function of
/// the input alone.
pub uninterp spec fn base64_decoded(data: Seq<u8>) -> Option<Seq<u8>>;

/// Relies on base64::decode: succeeds with the decoded bytes exactly on
/// valid standard Base64 input.
#[verifier::external_body]
fn base64_decode(data: &Vec<u8>) -> (r: Option<Vec<u8>>)
    ensures
        match r {
            Some(v) => base64_decoded(data@) == Some(v@),
            None => base64_decoded(data@) is None,
        },
{
    match base64::decode(data.as_slice()) {
        Ok(v) => Some(v),
        Err(_) => None,
    }
}

/// A byte with ASCII upper-case letters folded to lower case.
pub open spec fn ascii_lower(b: u8) -> u8 {
    if 65 <= b <= 90 {
        (b + 32) as u8
    } else {
        b
    }
}

/// Whether two header names are equal up to ASCII case.
pub open spec fn name_eq(a: Seq<u8>, b: Seq<u8>) -> bool {
    a.len() == b.len() && forall|i: int|
        0 <= i < a.len() ==> ascii_lower(a[i]) == ascii_lower(b[i])
}

/// The value of the first header whose name matches `name` up to ASCII
/// case, if any.
pub open spec fn spec_get_header(hs: Seq<(Seq<u8>, Seq<u8>)>, name: Seq<u8>) -> Option<Seq<u8>>
    decreases hs.len(),
{
    if hs.len() == 0 {
        None
    } else if name_eq(hs[0].0, name) {
        Some(hs[0].1)
    } else {
        spec_get_header(hs.skip(1), name)
    }
}

/// While no header among the first `k` matches, the lookup's answer is
/// decided by the rest.
proof fn lemma_get_header_skip(hs: Seq<(Seq<u8>, Seq<u8>)>, name: Seq<u8>, k: int)
    requires
        0 <= k <= hs.len(),
        forall|j: int| 0 <= j < k ==> !name_eq(hs[j].0, name),
    ensures
        spec_get_header(hs, name) == spec_get_header(hs.skip(k), name),
    decreases k,
{
    if k == 0 {
        assert(hs.skip(0) =~= hs);
    } else {
        assert(!name_eq(hs[0].0, name));
        assert(spec_get_header(hs, name) == spec_get_header(hs.skip(1), name));
        assert forall|j: int| 0 <= j < k - 1 implies !name_eq(hs.skip(1)[j].0, name) by {
            assert(hs.skip(1)[j] == hs[j + 1]);
        }
        lemma_get_header_skip(hs.skip(1), name, k - 1);
        assert(hs.skip(1).skip(k - 1) =~= hs.skip(k));
    }
}

/// A parsed HTTP request as the handshake needs it: header name/value
/// pairs in arrival order, with case-insensitive name lookup.
#[derive(Debug)]
pub struct WsRequest {
    pub headers: Vec<(Vec<u8>, Vec<u8>)>,
}

/// The handshake's HTTP response: a status code and header name/value
/// pairs; the body is always empty.
#[derive(Debug)]
pub struct WsResponse {
    pub status: u16,
    pub headers: Vec<(Vec<u8>, Vec<u8>)>,
}

impl View for WsRequest {
    type V = Seq<(Seq<u8>, Seq<u8>)>;

    open spec fn view(&self) -> Seq<(Seq<u8>, Seq<u8>)> {
        Seq::new(self.headers@.len(), |i: int| (self.headers@[i].0@, self.headers@[i].1@))
    }
}

impl View for WsResponse {
    type V = Seq<(Seq<u8>, Seq<u8>)>;

    open spec fn view(&self) -> Seq<(Seq<u8>, Seq<u8>)> {
        Seq::new(self.headers@.len(), |i: int| (self.headers@[i].0@, self.headers@[i].1@))
    }
}

/// A byte with ASCII upper-case letters folded to lower case.
fn ascii_lower_byte(b: u8) -> (r: u8)
    ensures
        r == ascii_lower(b),
{
    if 65 <= b && b <= 90 {
        b + 32
    } else {
        b
    }
}

/// Whether two header names are equal up to ASCII case.
fn names_match(a: &Vec<u8>, b: &Vec<u8>) -> (r: bool)
    ensures
        r == name_eq(a@, b@),
{
    if a.len() != b.len() {
        return false;
    }
    let n = a.len();
    let mut i: usize = 0;
    while i < n
        invariant
            i <= n,
            n == a@.len() == b@.len(),
            forall|j: int| 0 <= j < i ==> ascii_lower(a@[j]) == ascii_lower(b@[j]),
        decreases n - i,
    {
        if ascii_lower_byte(a[i]) != ascii_lower_byte(b[i]) {
            return false;
        }
        i += 1;
    }
    true
}

impl WsRequest {
    /// The position of the first header whose name matches `name` up to
    /// ASCII case.
    pub fn get_header_index(&self, name: &Vec<u8>) -> (r: Option<usize>)
        ensures
            match r {
                Some(i) => i < self@.len() && spec_get_header(self@, name@) == Some(
                    self@[i as int].1,
                ),
                None => spec_get_header(self@, name@) is None,
            },
    {
        let n = self.headers.len();
        let mut i: usize = 0;
        while i < n
            invariant
                i <= n,
                n == self.headers@.len(),
                self@.len() == n,
                forall|j: int| 0 <= j < i ==> !name_eq(self@[j].0, name@),
            decreases n - i,
        {
            if names_match(&self.headers[i].0, name) {
                proof {
                    lemma_get_header_skip(self@, name@, i as int);
                    assert(self@.skip(i as int)[0] == self@[i as int]);
                }
                return Some(i);
            }
            i += 1;
        }
        proof {
            lemma_get_header_skip(self@, name@, n as int);
        }
        None
    }

    /// Whether the request carries a header named `name` (up to ASCII
    /// case) whose value is exactly `value`.
    pub fn header_equals(&self, name: &Vec<u8>, value: &Vec<u8>) -> (r: bool)
        ensures
            r == (spec_get_header(self@, name@) == Some(value@)),
    {
        match self.get_header_index(name) {
            Some(i) => bytes_eq(&self.headers[i].1, value),
            None => false,
        }
    }
}

/// The fixed GUID appended to the client's key before hashing.
pub open spec fn magic_guid() -> Seq<u8> {
    "258EAFA5-E914-47DA-95CA-C5AB0DC85B11".spec_bytes()
}

/// The accept key owed for a client key: the key's text, the magic
/// GUID appended, hashed with SHA-1, and the digest Base64-encoded.
pub open spec fn spec_accept_key(key: Seq<u8>) -> Seq<u8> {
    base64_of(sha1_of(key + magic_guid()))
}

pub open spec fn upgrade_name() -> Seq<u8> {
    "upgrade".spec_bytes()
}

pub open spec fn connection_name() -> Seq<u8> {
    "connection".spec_bytes()
}

pub open spec fn version_name() -> Seq<u8> {
    "sec-websocket-version".spec_bytes()
}

pub open spec fn key_name() -> Seq<u8> {
    "sec-websocket-key".spec_bytes()
}

pub open spec fn accept_name() -> Seq<u8> {
    "sec-websocket-accept".spec_bytes()
}

pub open spec fn websocket_token() -> Seq<u8> {
    "websocket".spec_bytes()
}

pub open spec fn upgrade_token() -> Seq<u8> {
    "Upgrade".spec_bytes()
}

pub open spec fn version_13_token() -> Seq<u8> {
    "13".spec_bytes()
}

/// A request that may switch to the WebSocket protocol: `Upgrade` says
/// exactly `websocket`, `Sec-WebSocket-Version` says exactly `13`, and
/// `Sec-WebSocket-Key` is valid Base64 for exactly sixteen bytes.
pub open spec fn handshake_valid(hs: Seq<(Seq<u8>, Seq<u8>)>) -> bool {
    &&& spec_get_header(hs, upgrade_name()) == Some(websocket_token())
    &&& spec_get_header(hs, version_name()) == Some(version_13_token())
    &&& (spec_get_header(hs, key_name()) matches Some(key) && base64_decoded(key) matches Some(d)
        && d.len() == 16)
}

/// The headers of the switching-protocols response for a client key.
pub open spec fn spec_accept_headers(key: Seq<u8>) -> Seq<(Seq<u8>, Seq<u8>)> {
    seq![
        (accept_name(), spec_accept_key(key)),
        (upgrade_name(), websocket_token()),
        (connection_name(), upgrade_token()),
    ]
}

/// The handshake failed: the request is no acceptable WebSocket
/// upgrade.
#[derive(Debug, PartialEq, Eq, Structural)]
pub enum HandshakeError {
    InvalidWSRequest,
}

/// Derive the `Sec-WebSocket-Accept` value for a client key: append the
/// magic GUID to the key's text, hash with SHA-1, Base64-encode the
/// digest. The result is always the 28 bytes Base64 makes of a 20-byte
/// digest.
pub fn ws_gen_accept_header(v: &Vec<u8>) -> (r: Vec<u8>)
    ensures
        r@ == spec_accept_key(v@),
        r@.len() == 28,
{
    let magic = "258EAFA5-E914-47DA-95CA-C5AB0DC85B11".as_bytes_vec();
    let mut s: Vec<u8> = Vec::new();
    s.extend_from_slice(v.as_slice());
    s.extend_from_slice(magic.as_slice());
    proof {
        assert(s@ =~= v@ + magic_guid());
    }
    let d = sha1_digest(&s);
    base64_encode(&d)
}

/// Validate an upgrade request and, when it is acceptable, produce the
/// `101 Switching Protocols` response carrying the derived accept key;
/// reject every other request. Succeeds precisely on valid requests.
pub fn ws_handshake(req: &WsRequest) -> (r: Result<WsResponse, HandshakeError>)
    ensures
        match r {
            Ok(resp) => {
                &&& handshake_valid(req@)
                &&& resp.status == 101
                &&& spec_get_header(req@, key_name()) matches Some(key) && resp@
                    == spec_accept_headers(key)
            },
            Err(e) => !handshake_valid(req@) && e is InvalidWSRequest,
        },
{
    let mut is_valid: bool = true;
    let upgrade_n = "upgrade".as_bytes_vec();
    let websocket_v = "websocket".as_bytes_vec();
    is_valid = is_valid && req.header_equals(&upgrade_n, &websocket_v);
    let version_n = "sec-websocket-version".as_bytes_vec();
    let version_v = "13".as_bytes_vec();
    is_valid = is_valid && req.header_equals(&version_n, &version_v);
    let key_n = "sec-websocket-key".as_bytes_vec();
    let mut accept: Option<Vec<u8>> = None;
    if is_valid {
        match req.get_header_index(&key_n) {
            Some(i) => {
                let key = &req.headers[i].1;
                match base64_decode(key) {
                    Some(decoded) => {
                        if decoded.len() == 16 {
                            accept = Some(ws_gen_accept_header(key));
                        } else {
                            is_valid = false;
                        }
                    },
                    None => {
                        is_valid = false;
                    },
                }
            },
            None => {
                is_valid = false;
            },
        }
    }
    match accept {
        Some(a) => {
            let mut headers: Vec<(Vec<u8>, Vec<u8>)> = Vec::new();
            headers.push(("sec-websocket-accept".as_bytes_vec(), a));
            headers.push(("upgrade".as_bytes_vec(), "websocket".as_bytes_vec()));
            headers.push(("connection".as_bytes_vec(), "Upgrade".as_bytes_vec()));
            let resp = WsResponse { status: 101, headers };
            proof {
                let key = spec_get_header(req@, key_name())->Some_0;
                assert(resp@ =~= spec_accept_headers(key));
            }
            Ok(resp)
        },
        None => Err(HandshakeError::InvalidWSRequest),
    }
}

/// The response a request is answered with: the switching-protocols
/// response when the handshake accepts it, a bare `400 Bad Request`
/// otherwise.
pub fn ws_upgrade(req: &WsRequest) -> (r: WsResponse)
    ensures
        handshake_valid(req@) ==> {
            &&& r.status == 101
            &&& spec_get_header(req@, key_name()) matches Some(key) && r@ == spec_accept_headers(
                key,
            )
        },
        !handshake_valid(req@) ==> r.status == 400 && r@ == Seq::<(Seq<u8>, Seq<u8>)>::empty(),
{
    match ws_handshake(req) {
        Ok(res) => res,
        Err(_) => {
            let resp = WsResponse { status: 400, headers: Vec::new() };
            proof {
                assert(resp@ =~= Seq::<(Seq<u8>, Seq<u8>)>::empty());
            }
            resp
        },
    }
}

} // verus!
