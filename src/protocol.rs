//! The clipboard payload and its binary encoding: a varint variant index, then
//! the fields in order, as bincode's standard configuration writes them.

use vstd::prelude::*;
use vstd::slice::slice_subrange;
use vstd::utf8::encode_utf8;

verus! {

/// One clipboard value.
#[derive(Debug, Clone, PartialEq, Eq)]
pub enum ClipboardData {
    Text(String),
    /// Raw RGBA8 pixels; the producer keeps `bytes.len() == width * height * 4`.
    Image { width: u32, height: u32, bytes: Vec<u8> },
}

/// The mathematical value of a `ClipboardData`.
pub enum Payload {
    Text(Seq<char>),
    Image { width: u32, height: u32, bytes: Seq<u8> },
}

impl View for ClipboardData {
    type V = Payload;

    open spec fn view(&self) -> Payload {
        match self {
            ClipboardData::Text(s) => Payload::Text(s@),
            ClipboardData::Image { width, height, bytes } => Payload::Image {
                width: *width,
                height: *height,
                bytes: bytes@,
            },
        }
    }
}

/// Why bytes did not decode to a payload.
#[derive(Debug, Clone, Copy, PartialEq, Eq, Structural)]
pub enum PayloadError {
    Malformed,
}

/// The `n` low bytes of `x`, least significant first.
pub open spec fn le_bytes(x: u64, n: nat) -> Seq<u8>
    decreases n,
{
    if n == 0 {
        Seq::empty()
    } else {
        seq![(x % 256) as u8] + le_bytes(x / 256, (n - 1) as nat)
    }
}

/// bincode's standard varint: up to 250 in one byte; else a marker byte (251,
/// 252 or 253) and the value in 2, 4 or 8 little-endian bytes.
pub open spec fn varint(x: u64) -> Seq<u8> {
    if x <= 250 {
        seq![x as u8]
    } else if x <= 0xffff {
        seq![251u8] + le_bytes(x, 2)
    } else if x <= 0xffff_ffff {
        seq![252u8] + le_bytes(x, 4)
    } else {
        seq![253u8] + le_bytes(x, 8)
    }
}

/// bincode's standard encoding of a byte vector: its length, then the bytes.
pub open spec fn encoded_bytes(b: Seq<u8>) -> Seq<u8> {
    varint(b.len() as u64) + b
}

/// bincode's standard encoding of a string: the length of its UTF-8 form,
/// then that form.
pub open spec fn encoded_text(s: Seq<char>) -> Seq<u8> {
    encoded_bytes(encode_utf8(s))
}

/// What bincode's `decode_from_slice::<u32>` (standard configuration) gives
/// on `bytes`: the value and the number of bytes read.
pub uninterp spec fn u32_read(bytes: Seq<u8>) -> Option<(u32, int)>;

/// What bincode's `decode_from_slice::<u64>` (standard configuration) gives
/// on `bytes`: the value and the number of bytes read.
pub uninterp spec fn u64_read(bytes: Seq<u8>) -> Option<(u64, int)>;

/// What bincode's `decode_from_slice::<String>` (standard configuration)
/// gives on `bytes`: the text and the number of bytes read.
pub uninterp spec fn text_read(bytes: Seq<u8>) -> Option<(Seq<char>, int)>;

/// What bincode's `decode_from_slice::<Vec<u8>>` (standard configuration)
/// gives on `bytes`: the bytes and the number of bytes read.
pub uninterp spec fn bytes_read(bytes: Seq<u8>) -> Option<(Seq<u8>, int)>;

/// `s` begins with `p`.
pub open spec fn starts_with(s: Seq<u8>, p: Seq<u8>) -> bool {
    p.len() <= s.len() && s.subrange(0, p.len() as int) == p
}

/// The encoding of a payload: the variant index (0 for text, 1 for an image),
/// then the fields in declaration order.
pub open spec fn encoding(d: Payload) -> Seq<u8> {
    match d {
        Payload::Text(s) => varint(0) + encoded_text(s),
        Payload::Image { width, height, bytes } => varint(1) + varint(width as u64) + varint(
            height as u64,
        ) + encoded_bytes(bytes),
    }
}

/// The declared length at the front of `b` is read and is no more than the
/// bytes at hand, so decoding the field allocates no more than `b` holds.
pub open spec fn length_fits(b: Seq<u8>) -> bool {
    u64_read(b) is Some && (u64_read(b)->0).0 <= b.len()
}

/// A text field at the front of `b`.
pub open spec fn text_field(b: Seq<u8>) -> Option<Seq<char>> {
    if length_fits(b) && text_read(b) is Some {
        Some((text_read(b)->0).0)
    } else {
        None
    }
}

/// A byte-vector field at the front of `b`.
pub open spec fn bytes_field(b: Seq<u8>) -> Option<Seq<u8>> {
    if length_fits(b) && bytes_read(b) is Some {
        Some((bytes_read(b)->0).0)
    } else {
        None
    }
}

/// `b` from byte `n` on.
pub open spec fn after(b: Seq<u8>, n: int) -> Seq<u8> {
    b.subrange(n, b.len() as int)
}

/// The image fields at the front of `b`: width, height, then pixels.
pub open spec fn image_fields(b: Seq<u8>) -> Option<Payload> {
    match u32_read(b) {
        Some((w, n1)) => match u32_read(after(b, n1)) {
            Some((h, n2)) => match bytes_field(after(after(b, n1), n2)) {
                Some(px) => Some(Payload::Image { width: w, height: h, bytes: px }),
                None => None,
            },
            None => None,
        },
        None => None,
    }
}

/// The payload that `deserialize` reads from the front of `b`, if any.
pub open spec fn decode_spec(b: Seq<u8>) -> Option<Payload> {
    match u32_read(b) {
        Some((tag, n)) => if tag == 0 {
            match text_field(after(b, n)) {
                Some(s) => Some(Payload::Text(s)),
                None => None,
            }
        } else if tag == 1 {
            image_fields(after(b, n))
        } else {
            None
        },
        None => None,
    }
}

/// Relies on bincode's `encode_to_vec` with the standard configuration: a
/// `u32` as a varint; writing into a `Vec` cannot fail.
#[verifier::external_body]
fn encode_u32(x: u32) -> (r: Option<Vec<u8>>)
    ensures
        r is Some && r->0@ == varint(x as u64),
{
    bincode::encode_to_vec(x, bincode::config::standard()).ok()
}

/// Relies on bincode's `encode_to_vec` with the standard configuration: a
/// `String` as its UTF-8 bytes, length first; writing into a `Vec` cannot fail.
#[verifier::external_body]
fn encode_text(s: &String) -> (r: Option<Vec<u8>>)
    ensures
        r is Some && r->0@ == encoded_text(s@),
{
    bincode::encode_to_vec(s, bincode::config::standard()).ok()
}

/// Relies on bincode's `encode_to_vec` with the standard configuration: a
/// `Vec<u8>` as its bytes, length first; writing into a `Vec` cannot fail.
#[verifier::external_body]
fn encode_bytes(b: &Vec<u8>) -> (r: Option<Vec<u8>>)
    ensures
        r is Some && r->0@ == encoded_bytes(b@),
{
    bincode::encode_to_vec(b, bincode::config::standard()).ok()
}

/// Relies on bincode's `decode_from_slice::<u32>` with the standard
/// configuration: it reads one varint from the front of `bytes`, and its
/// own encoding of `x` reads back as `x`.
#[verifier::external_body]
fn decode_u32(bytes: &[u8]) -> (r: Option<(u32, usize)>)
    ensures
        r is Some <==> u32_read(bytes@) is Some,
        r is Some ==> (r->0).0 == (u32_read(bytes@)->0).0 && (r->0).1 == (u32_read(
            bytes@,
        )->0).1,
        r is Some ==> (r->0).1 <= bytes@.len(),
        forall|x: u32|
            #![trigger varint(x as u64)]
            starts_with(bytes@, varint(x as u64)) ==> r == Some((x, varint(x as u64).len() as usize)),
{
    bincode::decode_from_slice::<u32, _>(bytes, bincode::config::standard()).ok()
}

/// Relies on bincode's `decode_from_slice::<u64>` with the standard
/// configuration: it reads one varint from the front of `bytes`, and its
/// own encoding of `x` reads back as `x`.
#[verifier::external_body]
fn decode_u64(bytes: &[u8]) -> (r: Option<(u64, usize)>)
    ensures
        r is Some <==> u64_read(bytes@) is Some,
        r is Some ==> (r->0).0 == (u64_read(bytes@)->0).0 && (r->0).1 == (u64_read(
            bytes@,
        )->0).1,
        r is Some ==> (r->0).1 <= bytes@.len(),
        forall|x: u64|
            #![trigger varint(x)]
            starts_with(bytes@, varint(x)) ==> r == Some((x, varint(x).len() as usize)),
{
    bincode::decode_from_slice::<u64, _>(bytes, bincode::config::standard()).ok()
}

/// Relies on bincode's `decode_from_slice::<String>` with the standard
/// configuration. It allocates the declared length before reading, so the
/// caller has checked that length against `bytes`.
#[verifier::external_body]
fn decode_text(bytes: &[u8]) -> (r: Option<(String, usize)>)
    requires
        length_fits(bytes@),
    ensures
        r is Some <==> text_read(bytes@) is Some,
        r is Some ==> (r->0).0@ == (text_read(bytes@)->0).0 && (r->0).1 == (text_read(
            bytes@,
        )->0).1,
        forall|s: Seq<char>|
            #![trigger encoded_text(s)]
            starts_with(bytes@, encoded_text(s)) ==> (r is Some && (r->0).0@ == s && (r->0).1
                == encoded_text(s).len()),
{
    bincode::decode_from_slice::<String, _>(bytes, bincode::config::standard()).ok()
}

/// Relies on bincode's `decode_from_slice::<Vec<u8>>` with the standard
/// configuration. It allocates the declared length before reading, so the
/// caller has checked that length against `bytes`.
#[verifier::external_body]
fn decode_bytes(bytes: &[u8]) -> (r: Option<(Vec<u8>, usize)>)
    requires
        length_fits(bytes@),
    ensures
        r is Some <==> bytes_read(bytes@) is Some,
        r is Some ==> (r->0).0@ == (bytes_read(bytes@)->0).0 && (r->0).1 == (bytes_read(
            bytes@,
        )->0).1,
        forall|b: Seq<u8>|
            #![trigger encoded_bytes(b)]
            starts_with(bytes@, encoded_bytes(b)) ==> (r is Some && (r->0).0@ == b && (r->0).1
                == encoded_bytes(b).len()),
{
    bincode::decode_from_slice::<Vec<u8>, _>(bytes, bincode::config::standard()).ok()
}

/// Whether the length declared at the front of `bytes` fits in `bytes`.
fn check_length(bytes: &[u8]) -> (r: bool)
    ensures
        r == length_fits(bytes@),
        forall|b: Seq<u8>| #[trigger] starts_with(bytes@, encoded_bytes(b)) ==> r,
{
    let total: usize = bytes.len();
    let r = match decode_u64(bytes) {
        Some((len, _)) => len as u128 <= total as u128,
        None => false,
    };
    proof {
        assert forall|b: Seq<u8>| #[trigger] starts_with(bytes@, encoded_bytes(b)) implies r by {
            lemma_field_fits(bytes@, b);
        }
    }
    r
}

/// Reads a text field from the front of `bytes`.
fn read_text(bytes: &[u8]) -> (r: Option<String>)
    ensures
        r is Some <==> text_field(bytes@) is Some,
        r is Some ==> r->0@ == text_field(bytes@)->0,
        forall|s: Seq<char>|
            #[trigger] starts_with(bytes@, encoded_text(s)) ==> (r is Some && r->0@ == s),
{
    if check_length(bytes) {
        match decode_text(bytes) {
            Some((s, _)) => Some(s),
            None => None,
        }
    } else {
        None
    }
}

/// Reads a byte-vector field from the front of `bytes`.
fn read_bytes(bytes: &[u8]) -> (r: Option<Vec<u8>>)
    ensures
        r is Some <==> bytes_field(bytes@) is Some,
        r is Some ==> r->0@ == bytes_field(bytes@)->0,
        forall|b: Seq<u8>|
            #[trigger] starts_with(bytes@, encoded_bytes(b)) ==> (r is Some && r->0@ == b),
{
    if check_length(bytes) {
        match decode_bytes(bytes) {
            Some((b, _)) => Some(b),
            None => None,
        }
    } else {
        None
    }
}

impl ClipboardData {
    /// A copy with the same value.
    pub fn duplicate(&self) -> (r: ClipboardData)
        ensures
            r@ == self@,
    {
        match self {
            ClipboardData::Text(s) => ClipboardData::Text(s.clone()),
            ClipboardData::Image { width, height, bytes } => {
                let copy = bytes.clone();
                assert(copy@ =~= bytes@);
                ClipboardData::Image { width: *width, height: *height, bytes: copy }
            },
        }
    }
}

/// The encoding of `data`.
pub fn serialize(data: &ClipboardData) -> (r: Vec<u8>)
    ensures
        r@ == encoding(data@),
{
    let mut out: Vec<u8> = Vec::new();
    match data {
        ClipboardData::Text(s) => {
            let tag = encode_u32(0).unwrap();
            let body = encode_text(s).unwrap();
            out.extend_from_slice(&tag);
            out.extend_from_slice(&body);
        },
        ClipboardData::Image { width, height, bytes } => {
            let tag = encode_u32(1).unwrap();
            let w = encode_u32(*width).unwrap();
            let h = encode_u32(*height).unwrap();
            let body = encode_bytes(bytes).unwrap();
            out.extend_from_slice(&tag);
            out.extend_from_slice(&w);
            out.extend_from_slice(&h);
            out.extend_from_slice(&body);
        },
    }
    assert(out@ =~= encoding(data@));
    out
}

proof fn lemma_starts_with_split(s: Seq<u8>, p: Seq<u8>, q: Seq<u8>)
    requires
        starts_with(s, p + q),
    ensures
        starts_with(s, p),
        starts_with(s.subrange(p.len() as int, s.len() as int), q),
{
    let pq = p + q;
    let m = s.subrange(0, pq.len() as int);
    assert(m == pq);
    assert(s.subrange(0, p.len() as int) =~= m.subrange(0, p.len() as int));
    assert(m.subrange(0, p.len() as int) =~= p);
    let tail = s.subrange(p.len() as int, s.len() as int);
    assert(tail.subrange(0, q.len() as int) =~= m.subrange(p.len() as int, pq.len() as int));
    assert(m.subrange(p.len() as int, pq.len() as int) =~= q);
}

/// Decodes a payload from the front of `bytes`; what follows it is ignored.
/// Bytes that begin with the encoding of a payload give that payload back.
pub fn deserialize(bytes: &[u8]) -> (r: Result<ClipboardData, PayloadError>)
    ensures
        r is Ok <==> decode_spec(bytes@) is Some,
        r is Ok ==> Some(r->Ok_0@) == decode_spec(bytes@),
        forall|d: Payload|
            #![trigger encoding(d)]
            starts_with(bytes@, encoding(d)) ==> (r is Ok && r->Ok_0@ == d),
{
    let total: usize = bytes.len();
    let r = match decode_u32(bytes) {
        None => Err(PayloadError::Malformed),
        Some((tag, used)) => {
            let rest = slice_subrange(bytes, used, bytes.len());
            assert(rest@ == after(bytes@, used as int));
            if tag == 0 {
                match read_text(rest) {
                    Some(s) => Ok(ClipboardData::Text(s)),
                    None => Err(PayloadError::Malformed),
                }
            } else if tag == 1 {
                match decode_u32(rest) {
                    None => Err(PayloadError::Malformed),
                    Some((width, used_w)) => {
                        let rest_w = slice_subrange(rest, used_w, rest.len());
                        assert(rest_w@ == after(rest@, used_w as int));
                        match decode_u32(rest_w) {
                            None => Err(PayloadError::Malformed),
                            Some((height, used_h)) => {
                                let rest_h = slice_subrange(rest_w, used_h, rest_w.len());
                                assert(rest_h@ == after(rest_w@, used_h as int));
                                match read_bytes(rest_h) {
                                    Some(pixels) => Ok(
                                        ClipboardData::Image { width, height, bytes: pixels },
                                    ),
                                    None => Err(PayloadError::Malformed),
                                }
                            },
                        }
                    },
                }
            } else {
                Err(PayloadError::Malformed)
            }
        },
    };
    proof {
        assert forall|d: Payload|
            #![trigger encoding(d)]
            starts_with(bytes@, encoding(d)) implies (r is Ok && r->Ok_0@ == d) by {
            match d {
                Payload::Text(s) => {
                    let t = varint(0);
                    assert(varint(0u32 as u64) == t);
                    lemma_starts_with_split(bytes@, t, encoded_text(s));
                    assert(bytes@.len() == total);
                },
                Payload::Image { width, height, bytes: b } => {
                    let t = varint(1);
                    assert(varint(1u32 as u64) == t);
                    let wv = varint(width as u64);
                    let hv = varint(height as u64);
                    let bv = encoded_bytes(b);
                    assert(encoding(d) =~= t + (wv + (hv + bv)));
                    lemma_starts_with_split(bytes@, t, wv + (hv + bv));
                    let s1 = after(bytes@, t.len() as int);
                    lemma_starts_with_split(s1, wv, hv + bv);
                    let s2 = after(s1, wv.len() as int);
                    lemma_starts_with_split(s2, hv, bv);
                },
            }
        }
    }
    r
}

/// A field that begins with the encoding of `b` declares a length that fits.
proof fn lemma_field_fits(s: Seq<u8>, b: Seq<u8>)
    requires
        starts_with(s, encoded_bytes(b)),
        s.len() <= usize::MAX,
    ensures
        starts_with(s, varint(b.len() as u64)),
        b.len() <= s.len(),
{
    lemma_starts_with_split(s, varint(b.len() as u64), b);
}

} // verus!
