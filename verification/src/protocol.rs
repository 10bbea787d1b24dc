//! Daemon protocol pieces that carry no transport: the candidate payload,
//! message framing and endpoint selection.
use crate::text::{chars_of, string_from};
use vstd::prelude::*;

verus! {

/// Candidate payload shared by daemon clients.
///
/// The score is carried as the bit pattern of the daemon's `f64` score: the
/// session and the candidate window pass it along without reading it.
#[derive(Debug, PartialEq, Eq)]
pub struct CandidateDto {
    pub text: String,
    pub reading: Vec<String>,
    pub score_bits: u64,
}

/// A candidate as plain values: its text, its reading and its score bits.
pub type CandidateView = (Seq<char>, Seq<Seq<char>>, u64);

impl DeepView for CandidateDto {
    type V = CandidateView;

    open spec fn deep_view(&self) -> CandidateView {
        (self.text@, self.reading.deep_view(), self.score_bits)
    }
}

impl Clone for CandidateDto {
    fn clone(&self) -> (r: Self)
        ensures
            r.deep_view() == self.deep_view(),
    {
        let reading = self.reading.clone();
        assert(reading.deep_view() =~= self.reading.deep_view());
        CandidateDto { text: self.text.clone(), reading, score_bits: self.score_bits }
    }
}

/// Default local socket endpoint for the daemon transport.
pub const DEFAULT_ENDPOINT: &'static str = "novatype";

/// Legacy loopback address for explicit TCP development mode.
pub const DEFAULT_ADDR: &'static str = "127.0.0.1:48931";

/// The largest message payload, in bytes.
pub const MAX_MESSAGE_BYTES: usize = 1048576;

/// The most candidates that one suggestion request is answered with.
pub const MAX_SUGGEST_LIMIT: usize = 20;

/// How many candidates the engine is asked for on a suggestion request with
/// `limit`: the limit clamped to `1..=MAX_SUGGEST_LIMIT`.
pub fn suggest_limit(limit: usize) -> (r: usize)
    ensures
        r == (if limit < 1 {
            1
        } else if limit > MAX_SUGGEST_LIMIT {
            MAX_SUGGEST_LIMIT
        } else {
            limit
        }),
{
    if limit < 1 {
        1
    } else if limit > MAX_SUGGEST_LIMIT {
        MAX_SUGGEST_LIMIT
    } else {
        limit
    }
}

/// Why a message cannot be framed or unframed.
#[derive(Debug, Clone, Copy, PartialEq, Eq, Structural)]
pub enum FrameError {
    /// The payload is longer than `MAX_MESSAGE_BYTES`.
    TooLarge,
    /// Fewer bytes than the frame announces.
    Incomplete,
}

/// The little-endian bytes of `n`.
pub open spec fn le_bytes(n: u32) -> Seq<u8> {
    seq![
        (n % 256) as u8,
        ((n / 256) % 256) as u8,
        ((n / 65536) % 256) as u8,
        (n / 16777216) as u8,
    ]
}

/// The number whose little-endian bytes are `b`.
pub open spec fn le_value(b: Seq<u8>) -> nat {
    (b[0] + 256 * b[1] + 65536 * b[2] + 16777216 * b[3]) as nat
}

/// A framed message: the payload's length as four little-endian bytes,
/// then the payload.
pub open spec fn frame_spec(payload: Seq<u8>) -> Seq<u8> {
    le_bytes(payload.len() as u32) + payload
}

/// The little-endian bytes of `n`.
pub fn u32_le_bytes(n: u32) -> (r: [u8; 4])
    ensures
        r@ == le_bytes(n),
{
    let r = [(n % 256) as u8, ((n / 256) % 256) as u8, ((n / 65536) % 256) as u8, (n / 16777216) as u8];
    assert(r@ =~= le_bytes(n));
    r
}

/// The number whose little-endian bytes are `b`.
pub fn u32_from_le_bytes(b: [u8; 4]) -> (r: u32)
    ensures
        r as nat == le_value(b@),
{
    (b[0] as u32) + (b[1] as u32) * 256 + (b[2] as u32) * 65536 + (b[3] as u32) * 16777216
}

/// Frames `payload` for the wire; a payload over `MAX_MESSAGE_BYTES` is
/// refused.
pub fn frame(payload: &Vec<u8>) -> (r: Result<Vec<u8>, FrameError>)
    ensures
        match r {
            Ok(bytes) => payload@.len() <= MAX_MESSAGE_BYTES && bytes@ == frame_spec(payload@),
            Err(e) => payload@.len() > MAX_MESSAGE_BYTES && e == FrameError::TooLarge,
        },
{
    if payload.len() > MAX_MESSAGE_BYTES {
        return Err(FrameError::TooLarge);
    }
    let header = u32_le_bytes(payload.len() as u32);
    let mut bytes: Vec<u8> = Vec::new();
    let mut i: usize = 0;
    while i < 4
        invariant
            i <= 4,
            header@ == le_bytes(payload@.len() as u32),
            bytes@ == header@.subrange(0, i as int),
        decreases 4 - i,
    {
        bytes.push(header[i]);
        assert(bytes@ =~= header@.subrange(0, i + 1));
        i += 1;
    }
    let mut k: usize = 0;
    while k < payload.len()
        invariant
            k <= payload@.len(),
            bytes@ == header@ + payload@.subrange(0, k as int),
            header@ == le_bytes(payload@.len() as u32),
        decreases payload@.len() - k,
    {
        bytes.push(payload[k]);
        assert(bytes@ =~= header@ + payload@.subrange(0, k + 1));
        k += 1;
    }
    assert(payload@.subrange(0, k as int) =~= payload@);
    Ok(bytes)
}

/// The payload length announced by a frame header; a length over
/// `MAX_MESSAGE_BYTES` is refused.
pub fn frame_length(header: [u8; 4]) -> (r: Result<usize, FrameError>)
    ensures
        match r {
            Ok(n) => le_value(header@) <= MAX_MESSAGE_BYTES && n == le_value(header@),
            Err(e) => le_value(header@) > MAX_MESSAGE_BYTES && e == FrameError::TooLarge,
        },
{
    let n = u32_from_le_bytes(header);
    if n as usize > MAX_MESSAGE_BYTES {
        Err(FrameError::TooLarge)
    } else {
        Ok(n as usize)
    }
}

/// The payload of the frame at the start of `bytes`: `Incomplete` when the
/// header or the payload is cut short, `TooLarge` when the header announces
/// more than `MAX_MESSAGE_BYTES`.
pub fn unframe(bytes: &Vec<u8>) -> (r: Result<Vec<u8>, FrameError>)
    ensures
        bytes@.len() < 4 ==> r == Err::<Vec<u8>, FrameError>(FrameError::Incomplete),
        bytes@.len() >= 4 ==> {
            let n = le_value(bytes@.subrange(0, 4));
            match r {
                Ok(p) => n <= MAX_MESSAGE_BYTES && 4 + n <= bytes@.len() && p@ == bytes@.subrange(
                    4,
                    4 + n as int,
                ),
                Err(e) => (n > MAX_MESSAGE_BYTES && e == FrameError::TooLarge) || (n
                    <= MAX_MESSAGE_BYTES && 4 + n > bytes@.len() && e == FrameError::Incomplete),
            }
        },
{
    if bytes.len() < 4 {
        return Err(FrameError::Incomplete);
    }
    let header = [bytes[0], bytes[1], bytes[2], bytes[3]];
    assert(header@ =~= bytes@.subrange(0, 4));
    let n = match frame_length(header) {
        Ok(n) => n,
        Err(e) => {
            return Err(e);
        },
    };
    if n > bytes.len() - 4 {
        return Err(FrameError::Incomplete);
    }
    let mut p: Vec<u8> = Vec::new();
    let mut k: usize = 0;
    while k < n
        invariant
            k <= n,
            4 + n <= bytes.len(),
            p@ == bytes@.subrange(4, 4 + k),
        decreases n - k,
    {
        p.push(bytes[4 + k]);
        assert(p@ =~= bytes@.subrange(4, 4 + k + 1));
        k += 1;
    }
    Ok(p)
}

/// The length header of a frame reads back as the length it encodes.
pub proof fn lemma_le_round_trip(n: u32)
    ensures
        le_value(le_bytes(n)) == n,
{
    let b = le_bytes(n);
    assert(b[0] == n % 256);
    assert(b[1] == (n / 256) % 256);
    assert(b[2] == (n / 65536) % 256);
    assert(b[3] == n / 16777216);
    assert(n == n % 256 + 256 * ((n / 256) % 256) + 65536 * ((n / 65536) % 256) + 16777216 * (n
        / 16777216)) by (nonlinear_arith);
}

/// Unframing a framed payload gives the payload back, whatever follows it.
pub proof fn lemma_frame_round_trip(payload: Seq<u8>, rest: Seq<u8>)
    requires
        payload.len() <= MAX_MESSAGE_BYTES,
    ensures
        (frame_spec(payload) + rest).len() >= 4,
        le_value((frame_spec(payload) + rest).subrange(0, 4)) == payload.len(),
        (frame_spec(payload) + rest).subrange(4, 4 + payload.len() as int) == payload,
{
    let b = frame_spec(payload) + rest;
    lemma_le_round_trip(payload.len() as u32);
    assert(b.subrange(0, 4) =~= le_bytes(payload.len() as u32));
    assert(b.subrange(4, 4 + payload.len() as int) =~= payload);
}

/// Whether `s` starts with `p`.
pub open spec fn starts_with(s: Seq<char>, p: Seq<char>) -> bool {
    p.len() <= s.len() && s.subrange(0, p.len() as int) == p
}

/// The explicit TCP address of an endpoint: what follows `tcp://`, or the
/// whole endpoint when it holds a `:`.
pub open spec fn tcp_addr_spec(endpoint: Seq<char>) -> Option<Seq<char>> {
    if starts_with(endpoint, "tcp://"@) {
        Some(endpoint.subrange(6, endpoint.len() as int))
    } else if endpoint.contains(':') {
        Some(endpoint)
    } else {
        None
    }
}

/// Returns the TCP address when `endpoint` is an explicit TCP endpoint.
pub fn tcp_addr(endpoint: &str) -> (r: Option<String>)
    ensures
        match r {
            Some(a) => tcp_addr_spec(endpoint@) == Some(a@),
            None => tcp_addr_spec(endpoint@) is None,
        },
{
    let v = chars_of(endpoint);
    let prefix = chars_of("tcp://");
    proof {
        reveal_strlit("tcp://");
    }
    let mut has_prefix = v.len() >= 6;
    let mut i: usize = 0;
    while has_prefix && i < 6
        invariant
            prefix@ == "tcp://"@,
            prefix@.len() == 6,
            i <= 6,
            has_prefix ==> v@.len() >= 6 && v@.subrange(0, i as int) == prefix@.subrange(0, i as int),
            !has_prefix ==> !starts_with(v@, prefix@),
        decreases 6 - i,
    {
        if v[i] != prefix[i] {
            has_prefix = false;
            assert(v@.subrange(0, 6)[i as int] != prefix@[i as int]);
        } else {
            assert(v@.subrange(0, i + 1) =~= v@.subrange(0, i as int).push(v@[i as int]));
            assert(prefix@.subrange(0, i + 1) =~= prefix@.subrange(0, i as int).push(prefix@[i as int]));
        }
        i += 1;
    }
    if has_prefix {
        assert(prefix@.subrange(0, 6) =~= prefix@);
        return Some(string_from(&v, 6, v.len()));
    }
    let mut k: usize = 0;
    while k < v.len()
        invariant
            k <= v@.len(),
            v@ == endpoint@,
            !starts_with(endpoint@, "tcp://"@),
            forall|j: int| 0 <= j < k ==> v@[j] != ':',
        decreases v@.len() - k,
    {
        if v[k] == ':' {
            assert(v@.contains(':')) by {
                assert(v@[k as int] == ':');
            }
            assert(v@.subrange(0, v@.len() as int) =~= v@);
            return Some(string_from(&v, 0, v.len()));
        }
        k += 1;
    }
    None
}

/// The daemon endpoint: the endpoint setting, else the server-address
/// setting, else `DEFAULT_ENDPOINT`.
pub fn choose_endpoint(endpoint: Option<String>, server_addr: Option<String>) -> (r: String)
    ensures
        r@ == match endpoint {
            Some(e) => e@,
            None => match server_addr {
                Some(a) => a@,
                None => DEFAULT_ENDPOINT@,
            },
        },
{
    match endpoint {
        Some(e) => e,
        None => match server_addr {
            Some(a) => a,
            None => String::from_str(DEFAULT_ENDPOINT),
        },
    }
}

} // verus!
