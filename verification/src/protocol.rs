//! Binary wire codec for the transform daemon.
//!
//! Frame shape: `[u8 version][u8 tag][u32 LE payload_len][payload…]`.
//! Strings travel as a `u32` LE byte length followed by their UTF-8 bytes;
//! an optional string is a `0` byte (absent) or a `1` byte and the string;
//! a string list is a `u32` LE count followed by the strings.
use vstd::prelude::*;
use vstd::utf8::*;
use vstd::string::*;

use crate::text::string_views;
use crate::bytes::{
    le_bytes, le_value, lemma_le_bytes_of_value, lemma_le_value_4_bound, lemma_le_value_of_bytes,
    push_all, push_le, read_le,
};

verus! {

broadcast use {encode_utf8_valid_utf8, encode_utf8_decode_utf8};

pub const PROTOCOL_VERSION: u8 = 2;

pub const OP_PING: u8 = 0;
pub const OP_ANALYZE: u8 = 1;
pub const OP_OBTAIN: u8 = 2;
pub const OP_LIST_BACKENDS: u8 = 3;

pub const STATUS_PONG: u8 = 0;
pub const STATUS_SUITABLE: u8 = 1;
pub const STATUS_UNSUITABLE: u8 = 2;
pub const STATUS_READY: u8 = 3;
pub const STATUS_ERROR: u8 = 4;
pub const STATUS_BACKENDS: u8 = 5;

/// Size of the fixed frame header (version, tag, payload length).
pub const FRAME_HEADER_LEN: usize = 6;

/// The bytes did not form a well-formed frame of the expected kind.
#[derive(Debug, Clone, PartialEq, Eq)]
pub struct WireError;

#[derive(Debug, Clone, PartialEq, Eq)]
pub enum Request {
    Ping,
    /// `backend: None` asks every registered backend and returns the first
    /// suitable one; `Some(id)` asks one specific backend.
    Analyze { path: String, backend: Option<String> },
    /// `backend` selects which registered backend handles the request.
    Obtain { path: String, backend: String },
    ListBackends,
}

#[derive(Debug, Clone, PartialEq, Eq)]
pub enum Response {
    Pong,
    Suitable { backend: String },
    Unsuitable { backend: String, reasons: Vec<String> },
    Ready { exe_path: String, cache_hit: bool, backend: String },
    Error { message: String },
    Backends { ids: Vec<String> },
}

/// Abstract request: strings are taken as their character sequences.
pub enum RequestV {
    Ping,
    Analyze { path: Seq<char>, backend: Option<Seq<char>> },
    Obtain { path: Seq<char>, backend: Seq<char> },
    ListBackends,
}

/// Abstract response: strings are taken as their character sequences.
pub enum ResponseV {
    Pong,
    Suitable { backend: Seq<char> },
    Unsuitable { backend: Seq<char>, reasons: Seq<Seq<char>> },
    Ready { exe_path: Seq<char>, cache_hit: bool, backend: Seq<char> },
    Error { message: Seq<char> },
    Backends { ids: Seq<Seq<char>> },
}

pub open spec fn opt_string_view(o: Option<String>) -> Option<Seq<char>> {
    match o {
        Some(s) => Some(s@),
        None => None,
    }
}

impl View for Request {
    type V = RequestV;

    open spec fn view(&self) -> RequestV {
        match self {
            Request::Ping => RequestV::Ping,
            Request::Analyze { path, backend } => RequestV::Analyze {
                path: path@,
                backend: opt_string_view(*backend),
            },
            Request::Obtain { path, backend } => RequestV::Obtain { path: path@, backend: backend@ },
            Request::ListBackends => RequestV::ListBackends,
        }
    }
}

impl View for Response {
    type V = ResponseV;

    open spec fn view(&self) -> ResponseV {
        match self {
            Response::Pong => ResponseV::Pong,
            Response::Suitable { backend } => ResponseV::Suitable { backend: backend@ },
            Response::Unsuitable { backend, reasons } => ResponseV::Unsuitable {
                backend: backend@,
                reasons: string_views(reasons@),
            },
            Response::Ready { exe_path, cache_hit, backend } => ResponseV::Ready {
                exe_path: exe_path@,
                cache_hit: *cache_hit,
                backend: backend@,
            },
            Response::Error { message } => ResponseV::Error { message: message@ },
            Response::Backends { ids } => ResponseV::Backends { ids: string_views(ids@) },
        }
    }
}

// ---------------------------------------------------------------------------
// Encoding, as byte sequences
// ---------------------------------------------------------------------------

/// A length or count field: the value truncated to `u32`, little-endian.
pub open spec fn enc_u32(n: int) -> Seq<u8> {
    le_bytes((n as u32) as u64, 4)
}

pub open spec fn enc_string(s: Seq<char>) -> Seq<u8> {
    enc_u32(encode_utf8(s).len() as int) + encode_utf8(s)
}

pub open spec fn enc_opt_string(o: Option<Seq<char>>) -> Seq<u8> {
    match o {
        None => seq![0u8],
        Some(s) => seq![1u8] + enc_string(s),
    }
}

/// The strings of `v`, each encoded, one after the other.
pub open spec fn enc_strings(v: Seq<Seq<char>>) -> Seq<u8>
    decreases v.len(),
{
    if v.len() == 0 {
        Seq::empty()
    } else {
        enc_strings(v.drop_last()) + enc_string(v.last())
    }
}

pub open spec fn enc_string_vec(v: Seq<Seq<char>>) -> Seq<u8> {
    enc_u32(v.len() as int) + enc_strings(v)
}

pub open spec fn enc_frame(tag: u8, payload: Seq<u8>) -> Seq<u8> {
    seq![PROTOCOL_VERSION, tag] + enc_u32(payload.len() as int) + payload
}

pub open spec fn request_tag(r: RequestV) -> u8 {
    match r {
        RequestV::Ping => OP_PING,
        RequestV::Analyze { .. } => OP_ANALYZE,
        RequestV::Obtain { .. } => OP_OBTAIN,
        RequestV::ListBackends => OP_LIST_BACKENDS,
    }
}

pub open spec fn request_payload(r: RequestV) -> Seq<u8> {
    match r {
        RequestV::Ping => Seq::empty(),
        RequestV::Analyze { path, backend } => enc_string(path) + enc_opt_string(backend),
        RequestV::Obtain { path, backend } => enc_string(path) + enc_string(backend),
        RequestV::ListBackends => Seq::empty(),
    }
}

/// The frame that carries request `r`.
pub open spec fn request_bytes(r: RequestV) -> Seq<u8> {
    enc_frame(request_tag(r), request_payload(r))
}

pub open spec fn response_tag(r: ResponseV) -> u8 {
    match r {
        ResponseV::Pong => STATUS_PONG,
        ResponseV::Suitable { .. } => STATUS_SUITABLE,
        ResponseV::Unsuitable { .. } => STATUS_UNSUITABLE,
        ResponseV::Ready { .. } => STATUS_READY,
        ResponseV::Error { .. } => STATUS_ERROR,
        ResponseV::Backends { .. } => STATUS_BACKENDS,
    }
}

pub open spec fn bool_byte(b: bool) -> u8 {
    if b { 1 } else { 0 }
}

pub open spec fn response_payload(r: ResponseV) -> Seq<u8> {
    match r {
        ResponseV::Pong => Seq::empty(),
        ResponseV::Suitable { backend } => enc_string(backend),
        ResponseV::Unsuitable { backend, reasons } => enc_string(backend) + enc_string_vec(reasons),
        ResponseV::Ready { exe_path, cache_hit, backend } => enc_string(exe_path) + seq![
            bool_byte(cache_hit),
        ] + enc_string(backend),
        ResponseV::Error { message } => enc_string(message),
        ResponseV::Backends { ids } => enc_string_vec(ids),
    }
}

/// The frame that carries response `r`.
pub open spec fn response_bytes(r: ResponseV) -> Seq<u8> {
    enc_frame(response_tag(r), response_payload(r))
}

/// Every length field of the request's frame holds its true value.
pub open spec fn request_fits(r: RequestV) -> bool {
    request_payload(r).len() < 0x1_0000_0000
}

/// Every length and count field of the response's frame holds its true value.
pub open spec fn response_fits(r: ResponseV) -> bool {
    &&& response_payload(r).len() < 0x1_0000_0000
    &&& (r matches ResponseV::Unsuitable { reasons, .. } ==> reasons.len() < 0x1_0000_0000)
    &&& (r matches ResponseV::Backends { ids } ==> ids.len() < 0x1_0000_0000)
}

// ---------------------------------------------------------------------------
// Decoding, as partial functions on byte sequences
// ---------------------------------------------------------------------------

/// The `u32` LE field at the start of `b`.
pub open spec fn dec_u32(b: Seq<u8>) -> int {
    le_value(b.subrange(0, 4)) as int
}

/// A string and the bytes after it, if `b` starts with one.
pub open spec fn parse_string(b: Seq<u8>) -> Option<(Seq<char>, Seq<u8>)> {
    if b.len() < 4 {
        None
    } else {
        let n = dec_u32(b);
        let rest = b.subrange(4, b.len() as int);
        if rest.len() < n {
            None
        } else if !valid_utf8(rest.subrange(0, n)) {
            None
        } else {
            Some((decode_utf8(rest.subrange(0, n)), rest.subrange(n, rest.len() as int)))
        }
    }
}

pub open spec fn parse_opt_string(b: Seq<u8>) -> Option<(Option<Seq<char>>, Seq<u8>)> {
    if b.len() == 0 {
        None
    } else if b[0] == 0 {
        Some((None, b.subrange(1, b.len() as int)))
    } else if b[0] == 1 {
        match parse_string(b.subrange(1, b.len() as int)) {
            Some((s, rest)) => Some((Some(s), rest)),
            None => None,
        }
    } else {
        None
    }
}

/// `k` consecutive strings at the start of `b`, and the bytes after them.
pub open spec fn parse_strings(b: Seq<u8>, k: nat) -> Option<(Seq<Seq<char>>, Seq<u8>)>
    decreases k,
{
    if k == 0 {
        Some((Seq::empty(), b))
    } else {
        match parse_strings(b, (k - 1) as nat) {
            Some((v, rest)) => match parse_string(rest) {
                Some((s, rest2)) => Some((v.push(s), rest2)),
                None => None,
            },
            None => None,
        }
    }
}

pub open spec fn parse_string_vec(b: Seq<u8>) -> Option<(Seq<Seq<char>>, Seq<u8>)> {
    if b.len() < 4 {
        None
    } else {
        parse_strings(b.subrange(4, b.len() as int), dec_u32(b) as nat)
    }
}

/// Tag and payload of a version-2 frame whose length field matches its size.
pub open spec fn parse_frame(b: Seq<u8>) -> Option<(u8, Seq<u8>)> {
    if b.len() < 6 || b[0] != PROTOCOL_VERSION {
        None
    } else if b.len() != 6 + dec_u32(b.subrange(2, b.len() as int)) {
        None
    } else {
        Some((b[1], b.subrange(6, b.len() as int)))
    }
}

pub open spec fn parse_request(b: Seq<u8>) -> Option<RequestV> {
    match parse_frame(b) {
        None => None,
        Some((tag, p)) => if tag == OP_PING && p.len() == 0 {
            Some(RequestV::Ping)
        } else if tag == OP_ANALYZE {
            match parse_string(p) {
                Some((path, rest)) => match parse_opt_string(rest) {
                    Some((backend, rest2)) => if rest2.len() == 0 {
                        Some(RequestV::Analyze { path, backend })
                    } else {
                        None
                    },
                    None => None,
                },
                None => None,
            }
        } else if tag == OP_OBTAIN {
            match parse_string(p) {
                Some((path, rest)) => match parse_string(rest) {
                    Some((backend, rest2)) => if rest2.len() == 0 {
                        Some(RequestV::Obtain { path, backend })
                    } else {
                        None
                    },
                    None => None,
                },
                None => None,
            }
        } else if tag == OP_LIST_BACKENDS && p.len() == 0 {
            Some(RequestV::ListBackends)
        } else {
            None
        },
    }
}

pub open spec fn parse_response(b: Seq<u8>) -> Option<ResponseV> {
    match parse_frame(b) {
        None => None,
        Some((tag, p)) => if tag == STATUS_PONG && p.len() == 0 {
            Some(ResponseV::Pong)
        } else if tag == STATUS_SUITABLE {
            match parse_string(p) {
                Some((backend, rest)) => if rest.len() == 0 {
                    Some(ResponseV::Suitable { backend })
                } else {
                    None
                },
                None => None,
            }
        } else if tag == STATUS_UNSUITABLE {
            match parse_string(p) {
                Some((backend, rest)) => match parse_string_vec(rest) {
                    Some((reasons, rest2)) => if rest2.len() == 0 {
                        Some(ResponseV::Unsuitable { backend, reasons })
                    } else {
                        None
                    },
                    None => None,
                },
                None => None,
            }
        } else if tag == STATUS_READY {
            match parse_string(p) {
                Some((exe_path, rest)) => if rest.len() == 0 {
                    None
                } else {
                    match parse_string(rest.subrange(1, rest.len() as int)) {
                        Some((backend, rest2)) => if rest2.len() == 0 {
                            Some(ResponseV::Ready { exe_path, cache_hit: rest[0] != 0, backend })
                        } else {
                            None
                        },
                        None => None,
                    }
                },
                None => None,
            }
        } else if tag == STATUS_ERROR {
            match parse_string(p) {
                Some((message, rest)) => if rest.len() == 0 {
                    Some(ResponseV::Error { message })
                } else {
                    None
                },
                None => None,
            }
        } else if tag == STATUS_BACKENDS {
            match parse_string_vec(p) {
                Some((ids, rest)) => if rest.len() == 0 {
                    Some(ResponseV::Backends { ids })
                } else {
                    None
                },
                None => None,
            }
        } else {
            None
        },
    }
}

// ---------------------------------------------------------------------------
// Trusted access to `core::str::from_utf8`
// ---------------------------------------------------------------------------

/// Calls `core::str::from_utf8`. Claimed: it succeeds exactly on valid UTF-8
/// (as vstd's `valid_utf8` defines it), and then the string's characters are
/// the decoded scalars.
#[verifier::external_body]
fn str_from_utf8(bytes: &[u8]) -> (res: Option<&str>)
    ensures
        res is Some <==> valid_utf8(bytes@),
        res matches Some(s) ==> s@ == decode_utf8(bytes@),
{
    core::str::from_utf8(bytes).ok()
}

// ---------------------------------------------------------------------------
// Executable codec
// ---------------------------------------------------------------------------

fn encode_string(s: &str, out: &mut Vec<u8>)
    ensures
        final(out)@ == old(out)@ + enc_string(s@),
{
    let bytes = s.as_bytes();
    push_le(out, (bytes.len() as u32) as u64, 4);
    push_all(out, bytes);
    assert(final(out)@ =~= old(out)@ + enc_string(s@));
}

fn encode_option_string(s: &Option<String>, out: &mut Vec<u8>)
    ensures
        final(out)@ == old(out)@ + enc_opt_string(opt_string_view(*s)),
{
    match s {
        None => {
            out.push(0);
        },
        Some(s) => {
            out.push(1);
            encode_string(s.as_str(), out);
        },
    }
    assert(final(out)@ =~= old(out)@ + enc_opt_string(opt_string_view(*s)));
}

fn encode_string_vec(items: &Vec<String>, out: &mut Vec<u8>)
    ensures
        final(out)@ == old(out)@ + enc_string_vec(string_views(items@)),
{
    let ghost orig = out@;
    let ghost v = string_views(items@);
    push_le(out, (items.len() as u32) as u64, 4);
    let n = items.len();
    let mut i: usize = 0;
    while i < n
        invariant
            i <= n,
            n == items@.len(),
            v == string_views(items@),
            out@ == orig + enc_u32(n as int) + enc_strings(v.subrange(0, i as int)),
        decreases n - i,
    {
        encode_string(items[i].as_str(), out);
        proof {
            assert(v.subrange(0, i + 1).drop_last() =~= v.subrange(0, i as int));
            assert(v[i as int] == items@[i as int]@);
        }
        i = i + 1;
        assert(out@ =~= orig + enc_u32(n as int) + enc_strings(v.subrange(0, i as int)));
    }
    assert(v.subrange(0, n as int) =~= v);
    assert(out@ =~= orig + enc_string_vec(v));
}

fn encode_frame(tag: u8, payload: &[u8]) -> (out: Vec<u8>)
    ensures
        out@ == enc_frame(tag, payload@),
{
    let mut out = Vec::new();
    out.push(PROTOCOL_VERSION);
    out.push(tag);
    push_le(&mut out, (payload.len() as u32) as u64, 4);
    push_all(&mut out, payload);
    assert(out@ =~= enc_frame(tag, payload@));
    out
}

/// The frame that carries `req`.
pub fn encode_request(req: &Request) -> (out: Vec<u8>)
    ensures
        out@ == request_bytes(req@),
{
    let mut payload = Vec::new();
    let tag = match req {
        Request::Ping => OP_PING,
        Request::Analyze { path, backend } => {
            encode_string(path.as_str(), &mut payload);
            encode_option_string(backend, &mut payload);
            OP_ANALYZE
        },
        Request::Obtain { path, backend } => {
            encode_string(path.as_str(), &mut payload);
            encode_string(backend.as_str(), &mut payload);
            OP_OBTAIN
        },
        Request::ListBackends => OP_LIST_BACKENDS,
    };
    assert(payload@ =~= request_payload(req@));
    encode_frame(tag, payload.as_slice())
}

/// The frame that carries `resp`.
pub fn encode_response(resp: &Response) -> (out: Vec<u8>)
    ensures
        out@ == response_bytes(resp@),
{
    let mut payload = Vec::new();
    let tag = match resp {
        Response::Pong => STATUS_PONG,
        Response::Suitable { backend } => {
            encode_string(backend.as_str(), &mut payload);
            STATUS_SUITABLE
        },
        Response::Unsuitable { backend, reasons } => {
            encode_string(backend.as_str(), &mut payload);
            encode_string_vec(reasons, &mut payload);
            STATUS_UNSUITABLE
        },
        Response::Ready { exe_path, cache_hit, backend } => {
            encode_string(exe_path.as_str(), &mut payload);
            payload.push(if *cache_hit { 1 } else { 0 });
            encode_string(backend.as_str(), &mut payload);
            STATUS_READY
        },
        Response::Error { message } => {
            encode_string(message.as_str(), &mut payload);
            STATUS_ERROR
        },
        Response::Backends { ids } => {
            encode_string_vec(ids, &mut payload);
            STATUS_BACKENDS
        },
    };
    assert(payload@ =~= response_payload(resp@));
    encode_frame(tag, payload.as_slice())
}

/// Payload length announced by a frame header (the `u32` LE at bytes 2..6).
pub fn frame_payload_len(header: &[u8]) -> (len: usize)
    requires
        header@.len() >= FRAME_HEADER_LEN,
    ensures
        len == dec_u32(header@.subrange(2, header@.len() as int)),
{
    let v = read_le(header, 2, 4);
    proof {
        lemma_le_value_bound_4(header@.subrange(2, 6));
        assert(header@.subrange(2, header@.len() as int).subrange(0, 4) =~= header@.subrange(2, 6));
    }
    v as usize
}

fn decode_frame(buf: &[u8]) -> (res: Result<(u8, &[u8]), WireError>)
    ensures
        match res {
            Ok((tag, p)) => parse_frame(buf@) == Some((tag, p@)),
            Err(_) => parse_frame(buf@) is None,
        },
{
    if buf.len() < 6 || buf[0] != PROTOCOL_VERSION {
        return Err(WireError);
    }
    let tag = buf[1];
    let len = frame_payload_len(buf);
    if buf.len() - 6 != len {
        return Err(WireError);
    }
    let payload = &buf[6..buf.len()];
    Ok((tag, payload))
}

fn decode_string(input: &[u8]) -> (res: Result<(String, &[u8]), WireError>)
    ensures
        match res {
            Ok((s, rest)) => parse_string(input@) == Some((s@, rest@)),
            Err(_) => parse_string(input@) is None,
        },
{
    if input.len() < 4 {
        return Err(WireError);
    }
    let len = read_le(input, 0, 4);
    proof {
        lemma_le_value_bound_4(input@.subrange(0, 4));
    }
    let len = len as usize;
    let rest = &input[4..input.len()];
    if rest.len() < len {
        return Err(WireError);
    }
    let body = &rest[0..len];
    match str_from_utf8(body) {
        None => Err(WireError),
        Some(s) => {
            let after = &rest[len..rest.len()];
            Ok((s.to_owned(), after))
        },
    }
}

fn decode_option_string(input: &[u8]) -> (res: Result<(Option<String>, &[u8]), WireError>)
    ensures
        match res {
            Ok((s, rest)) => parse_opt_string(input@) == Some((opt_string_view(s), rest@)),
            Err(_) => parse_opt_string(input@) is None,
        },
{
    if input.len() == 0 {
        return Err(WireError);
    }
    if input[0] == 0 {
        Ok((None, &input[1..input.len()]))
    } else if input[0] == 1 {
        match decode_string(&input[1..input.len()]) {
            Ok((s, rest)) => Ok((Some(s), rest)),
            Err(e) => Err(e),
        }
    } else {
        Err(WireError)
    }
}

fn decode_string_vec(input: &[u8]) -> (res: Result<(Vec<String>, &[u8]), WireError>)
    ensures
        match res {
            Ok((v, rest)) => parse_string_vec(input@) == Some((string_views(v@), rest@)),
            Err(_) => parse_string_vec(input@) is None,
        },
{
    if input.len() < 4 {
        return Err(WireError);
    }
    let count = read_le(input, 0, 4);
    proof {
        lemma_le_value_bound_4(input@.subrange(0, 4));
    }
    let body = &input[4..input.len()];
    let mut rest = body;
    let mut items: Vec<String> = Vec::new();
    let mut i: u64 = 0;
    while i < count
        invariant
            i <= count,
            count == dec_u32(input@),
            body@ == input@.subrange(4, input@.len() as int),
            parse_strings(body@, i as nat) == Some((string_views(items@), rest@)),
        decreases count - i,
    {
        match decode_string(rest) {
            Ok((s, r)) => {
                proof {
                    assert(string_views(items@.push(s)) =~= string_views(items@).push(s@));
                }
                items.push(s);
                rest = r;
            },
            Err(e) => {
                proof {
                    lemma_parse_strings_fails_after(body@, (i + 1) as nat, count as nat);
                }
                return Err(e);
            },
        }
        i = i + 1;
    }
    Ok((items, rest))
}

proof fn lemma_le_value_bound_4(s: Seq<u8>)
    requires
        s.len() == 4,
    ensures
        le_value(s) < 0x1_0000_0000,
{
    lemma_le_value_4_bound(s);
}

/// Once `k` strings fail to parse, any larger count fails too.
proof fn lemma_parse_strings_fails_after(b: Seq<u8>, k: nat, m: nat)
    requires
        parse_strings(b, k) is None,
        k <= m,
    ensures
        parse_strings(b, m) is None,
    decreases m - k,
{
    if k < m {
        lemma_parse_strings_fails_after(b, k, (m - 1) as nat);
    }
}

/// Decodes a request frame.
pub fn decode_request(buf: &[u8]) -> (res: Result<Request, WireError>)
    ensures
        match res {
            Ok(r) => parse_request(buf@) == Some(r@),
            Err(_) => parse_request(buf@) is None,
        },
{
    let (tag, payload) = decode_frame(buf)?;
    if tag == OP_PING && payload.len() == 0 {
        Ok(Request::Ping)
    } else if tag == OP_ANALYZE {
        let (path, rest) = decode_string(payload)?;
        let (backend, rest) = decode_option_string(rest)?;
        if rest.len() != 0 {
            return Err(WireError);
        }
        Ok(Request::Analyze { path, backend })
    } else if tag == OP_OBTAIN {
        let (path, rest) = decode_string(payload)?;
        let (backend, rest) = decode_string(rest)?;
        if rest.len() != 0 {
            return Err(WireError);
        }
        Ok(Request::Obtain { path, backend })
    } else if tag == OP_LIST_BACKENDS && payload.len() == 0 {
        Ok(Request::ListBackends)
    } else {
        Err(WireError)
    }
}

/// Decodes a response frame.
pub fn decode_response(buf: &[u8]) -> (res: Result<Response, WireError>)
    ensures
        match res {
            Ok(r) => parse_response(buf@) == Some(r@),
            Err(_) => parse_response(buf@) is None,
        },
{
    let (tag, payload) = decode_frame(buf)?;
    if tag == STATUS_PONG && payload.len() == 0 {
        Ok(Response::Pong)
    } else if tag == STATUS_SUITABLE {
        let (backend, rest) = decode_string(payload)?;
        if rest.len() != 0 {
            return Err(WireError);
        }
        Ok(Response::Suitable { backend })
    } else if tag == STATUS_UNSUITABLE {
        let (backend, rest) = decode_string(payload)?;
        let (reasons, rest) = decode_string_vec(rest)?;
        if rest.len() != 0 {
            return Err(WireError);
        }
        Ok(Response::Unsuitable { backend, reasons })
    } else if tag == STATUS_READY {
        let (exe_path, rest) = decode_string(payload)?;
        if rest.len() == 0 {
            return Err(WireError);
        }
        let cache_hit = rest[0] != 0;
        let (backend, rest) = decode_string(&rest[1..rest.len()])?;
        if rest.len() != 0 {
            return Err(WireError);
        }
        Ok(Response::Ready { exe_path, cache_hit, backend })
    } else if tag == STATUS_ERROR {
        let (message, rest) = decode_string(payload)?;
        if rest.len() != 0 {
            return Err(WireError);
        }
        Ok(Response::Error { message })
    } else if tag == STATUS_BACKENDS {
        let (ids, rest) = decode_string_vec(payload)?;
        if rest.len() != 0 {
            return Err(WireError);
        }
        Ok(Response::Backends { ids })
    } else {
        Err(WireError)
    }
}

// ---------------------------------------------------------------------------
// Laws of the codec
// ---------------------------------------------------------------------------

proof fn lemma_dec_enc_u32(n: int, tail: Seq<u8>)
    requires
        0 <= n < 0x1_0000_0000,
    ensures
        dec_u32(enc_u32(n) + tail) == n,
        (enc_u32(n) + tail).len() == 4 + tail.len(),
{
    let b = enc_u32(n) + tail;
    assert(b.subrange(0, 4) =~= enc_u32(n));
    lemma_le_value_of_bytes((n as u32) as u64, 4);
    let x = n as u32;
    assert((x as u64) & 0xffff_ffff == x as u64) by (bit_vector);
}

proof fn lemma_parse_enc_string(s: Seq<char>, tail: Seq<u8>)
    requires
        encode_utf8(s).len() < 0x1_0000_0000,
    ensures
        parse_string(enc_string(s) + tail) == Some((s, tail)),
{
    let e = encode_utf8(s);
    let b = enc_string(s) + tail;
    assert(b =~= enc_u32(e.len() as int) + (e + tail));
    lemma_dec_enc_u32(e.len() as int, e + tail);
    let rest = b.subrange(4, b.len() as int);
    assert(rest =~= e + tail);
    assert(rest.subrange(0, e.len() as int) =~= e);
    assert(rest.subrange(e.len() as int, rest.len() as int) =~= tail);
}

proof fn lemma_parse_enc_opt_string(o: Option<Seq<char>>, tail: Seq<u8>)
    requires
        enc_opt_string(o).len() < 0x1_0000_0000,
    ensures
        parse_opt_string(enc_opt_string(o) + tail) == Some((o, tail)),
{
    let b = enc_opt_string(o) + tail;
    match o {
        None => {
            assert(b.subrange(1, b.len() as int) =~= tail);
        },
        Some(s) => {
            assert(b.subrange(1, b.len() as int) =~= enc_string(s) + tail);
            lemma_parse_enc_string(s, tail);
        },
    }
}

proof fn lemma_parse_enc_strings(v: Seq<Seq<char>>, tail: Seq<u8>)
    requires
        enc_strings(v).len() < 0x1_0000_0000,
    ensures
        parse_strings(enc_strings(v) + tail, v.len()) == Some((v, tail)),
    decreases v.len(),
{
    if v.len() > 0 {
        let init = v.drop_last();
        let last = v.last();
        assert(enc_strings(v) + tail =~= enc_strings(init) + (enc_string(last) + tail));
        lemma_parse_enc_strings(init, enc_string(last) + tail);
        lemma_parse_enc_string(last, tail);
        assert(init.push(last) =~= v);
    } else {
        assert(enc_strings(v) + tail =~= tail);
        assert(v =~= Seq::<Seq<char>>::empty());
    }
}

proof fn lemma_parse_enc_string_vec(v: Seq<Seq<char>>, tail: Seq<u8>)
    requires
        enc_string_vec(v).len() < 0x1_0000_0000,
        v.len() < 0x1_0000_0000,
    ensures
        parse_string_vec(enc_string_vec(v) + tail) == Some((v, tail)),
{
    let b = enc_string_vec(v) + tail;
    assert(b =~= enc_u32(v.len() as int) + (enc_strings(v) + tail));
    lemma_dec_enc_u32(v.len() as int, enc_strings(v) + tail);
    assert(b.subrange(4, b.len() as int) =~= enc_strings(v) + tail);
    lemma_parse_enc_strings(v, tail);
}

proof fn lemma_parse_enc_frame(tag: u8, p: Seq<u8>)
    requires
        p.len() < 0x1_0000_0000,
    ensures
        parse_frame(enc_frame(tag, p)) == Some((tag, p)),
{
    let b = enc_frame(tag, p);
    assert(b.subrange(2, b.len() as int) =~= enc_u32(p.len() as int) + p);
    lemma_dec_enc_u32(p.len() as int, p);
    assert(b.subrange(6, b.len() as int) =~= p);
}

/// Decoding the frame of a request gives back that request.
pub proof fn lemma_request_roundtrip(r: RequestV)
    requires
        request_fits(r),
    ensures
        parse_request(request_bytes(r)) == Some(r),
{
    let p = request_payload(r);
    lemma_parse_enc_frame(request_tag(r), p);
    match r {
        RequestV::Ping => {},
        RequestV::Analyze { path, backend } => {
            assert(p =~= enc_string(path) + (enc_opt_string(backend) + Seq::empty()));
            lemma_parse_enc_string(path, enc_opt_string(backend) + Seq::<u8>::empty());
            lemma_parse_enc_opt_string(backend, Seq::empty());
        },
        RequestV::Obtain { path, backend } => {
            assert(p =~= enc_string(path) + (enc_string(backend) + Seq::empty()));
            lemma_parse_enc_string(path, enc_string(backend) + Seq::<u8>::empty());
            lemma_parse_enc_string(backend, Seq::empty());
        },
        RequestV::ListBackends => {},
    }
}

/// Decoding the frame of a response gives back that response.
pub proof fn lemma_response_roundtrip(r: ResponseV)
    requires
        response_fits(r),
    ensures
        parse_response(response_bytes(r)) == Some(r),
{
    let p = response_payload(r);
    let e = Seq::<u8>::empty();
    lemma_parse_enc_frame(response_tag(r), p);
    match r {
        ResponseV::Pong => {},
        ResponseV::Suitable { backend } => {
            assert(p =~= enc_string(backend) + e);
            lemma_parse_enc_string(backend, e);
        },
        ResponseV::Unsuitable { backend, reasons } => {
            assert(p =~= enc_string(backend) + (enc_string_vec(reasons) + e));
            lemma_parse_enc_string(backend, enc_string_vec(reasons) + e);
            lemma_parse_enc_string_vec(reasons, e);
        },
        ResponseV::Ready { exe_path, cache_hit, backend } => {
            let rest = seq![bool_byte(cache_hit)] + (enc_string(backend) + e);
            assert(p =~= enc_string(exe_path) + rest);
            lemma_parse_enc_string(exe_path, rest);
            assert(rest.subrange(1, rest.len() as int) =~= enc_string(backend) + e);
            lemma_parse_enc_string(backend, e);
        },
        ResponseV::Error { message } => {
            assert(p =~= enc_string(message) + e);
            lemma_parse_enc_string(message, e);
        },
        ResponseV::Backends { ids } => {
            assert(p =~= enc_string_vec(ids) + e);
            lemma_parse_enc_string_vec(ids, e);
        },
    }
}

proof fn lemma_enc_u32_of_field(b: Seq<u8>)
    requires
        b.len() >= 4,
    ensures
        enc_u32(dec_u32(b)) == b.subrange(0, 4),
{
    let f = b.subrange(0, 4);
    lemma_le_value_4_bound(f);
    lemma_le_bytes_of_value(f);
    let v = le_value(f);
    assert(((v as int) as u32) as u64 == v);
}

proof fn lemma_parse_string_canonical(b: Seq<u8>)
    requires
        parse_string(b) is Some,
    ensures
        b == enc_string(parse_string(b).unwrap().0) + parse_string(b).unwrap().1,
{
    let n = dec_u32(b);
    let rest = b.subrange(4, b.len() as int);
    let body = rest.subrange(0, n);
    decode_utf8_encode_utf8(body);
    lemma_enc_u32_of_field(b);
    assert(b =~= b.subrange(0, 4) + body + rest.subrange(n, rest.len() as int));
}

/// A frame that decodes as a request is exactly the encoding of that request.
pub proof fn lemma_request_canonical(b: Seq<u8>)
    requires
        parse_request(b) is Some,
    ensures
        request_bytes(parse_request(b).unwrap()) == b,
{
    let (tag, p) = parse_frame(b).unwrap();
    let r = parse_request(b).unwrap();
    lemma_enc_u32_of_field(b.subrange(2, b.len() as int));
    assert(b.subrange(2, b.len() as int).subrange(0, 4) =~= b.subrange(2, 6));
    if tag == OP_ANALYZE {
        lemma_parse_string_canonical(p);
        let (path, rest) = parse_string(p).unwrap();
        if rest[0] == 1 {
            lemma_parse_string_canonical(rest.subrange(1, rest.len() as int));
            assert(rest =~= seq![1u8] + rest.subrange(1, rest.len() as int));
        } else {
            assert(rest =~= seq![0u8] + rest.subrange(1, rest.len() as int));
        }
        assert(p =~= request_payload(r));
    } else if tag == OP_OBTAIN {
        lemma_parse_string_canonical(p);
        let (path, rest) = parse_string(p).unwrap();
        lemma_parse_string_canonical(rest);
        assert(p =~= request_payload(r));
    } else {
        assert(p =~= request_payload(r));
    }
    assert(b =~= enc_frame(tag, p));
}

/// In a ready frame, the byte right after the executable path (which starts
/// at offset 10, after the 6-byte frame header and the path's 4-byte length)
/// is `1` for a cache hit and `0` otherwise.
pub proof fn lemma_ready_cache_hit_byte(exe_path: Seq<char>, cache_hit: bool, backend: Seq<char>)
    ensures
        ({
            let b = response_bytes(ResponseV::Ready { exe_path, cache_hit, backend });
            let at = 10 + encode_utf8(exe_path).len() as int;
            &&& at < b.len()
            &&& b[at] == (if cache_hit { 1u8 } else { 0u8 })
        }),
{
    let r = ResponseV::Ready { exe_path, cache_hit, backend };
    let p = response_payload(r);
    let e = encode_utf8(exe_path);
    let flag: u8 = if cache_hit { 1u8 } else { 0u8 };
    let b = response_bytes(r);
    assert(p =~= enc_u32(e.len() as int) + e + seq![flag] + enc_string(backend));
    assert(b =~= seq![PROTOCOL_VERSION, STATUS_READY] + enc_u32(p.len() as int) + p);
    assert(b[10 + e.len() as int] == p[4 + e.len() as int]);
}

/// Decoding a ready frame reads the byte right after the executable path
/// (at offset 10 plus the path's length field) as the cache flag: any
/// nonzero byte is a hit.
pub proof fn lemma_ready_decode_cache_hit(b: Seq<u8>)
    requires
        parse_response(b) is Some,
        parse_response(b).unwrap() is Ready,
    ensures
        ({
            let n = dec_u32(b.subrange(6, b.len() as int));
            &&& 10 + n < b.len()
            &&& (parse_response(b).unwrap()->cache_hit <==> b[10 + n] != 0)
        }),
{
    let p = b.subrange(6, b.len() as int);
    let n = dec_u32(p);
    let rest = p.subrange(4, p.len() as int).subrange(n, p.len() - 4);
    assert(rest[0] == b[10 + n]);
}

} // verus!
