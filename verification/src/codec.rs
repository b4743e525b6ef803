//! The wire codec: a self-describing tagged encoding of `Message`.
//!
//! Each message is one tag byte followed by its fields. Variable-length
//! fields (strings as UTF-8, raw byte arrays) carry a little-endian
//! `u32` length prefix; `port` is a little-endian `u16` and `pin` a
//! little-endian `u32`. A decoder consumes the whole buffer: trailing
//! bytes, truncated fields, unknown tags, malformed UTF-8, and pairing
//! PINs outside the four-digit range are all rejected with an error
//! value, never a fault.

use vstd::prelude::*;
use vstd::utf8::{encode_utf8, decode_utf8, valid_utf8};
use crate::message::{Message, MessageView, wf_message, FIELD_MAX, PIN_MIN, PIN_END};

verus! {

pub const TAG_DISCOVERY: u8 = 0;

pub const TAG_PAIR_REQUEST: u8 = 1;

pub const TAG_PAIR_CONFIRM: u8 = 2;

pub const TAG_FILE_TRANSFER: u8 = 3;

pub const TAG_CLIPBOARD_SHARE: u8 = 4;

pub const TAG_CHAT_MESSAGE: u8 = 5;

pub const TAG_DISCONNECT: u8 = 6;

/// Why a byte buffer was rejected: it is not the encoding of any
/// well-formed message.
#[derive(Clone, Copy, PartialEq, Eq, Structural, Debug)]
pub enum DecodeError {
    Malformed,
}

/// The two little-endian bytes of a `u16`.
pub open spec fn u16_le(n: u16) -> Seq<u8> {
    seq![(n % 256) as u8, (n / 256) as u8]
}

/// The four little-endian bytes of a `u32`.
pub open spec fn u32_le(n: u32) -> Seq<u8> {
    seq![
        (n % 256) as u8,
        ((n / 256) % 256) as u8,
        ((n / 65536) % 256) as u8,
        (n / 16777216) as u8,
    ]
}

/// The `u16` whose little-endian bytes are `b0, b1`.
pub open spec fn u16_from_le(b0: u8, b1: u8) -> u16 {
    (b0 + b1 * 256) as u16
}

/// The `u32` whose little-endian bytes are `b0, b1, b2, b3`.
pub open spec fn u32_from_le(b0: u8, b1: u8, b2: u8, b3: u8) -> u32 {
    (b0 + b1 * 256 + b2 * 65536 + b3 * 16777216) as u32
}

/// A variable-length field: a `u32` length prefix, then the payload.
pub open spec fn len_prefixed(payload: Seq<u8>) -> Seq<u8> {
    u32_le(payload.len() as u32) + payload
}

/// A string field: its UTF-8 bytes behind a length prefix.
pub open spec fn str_field(s: Seq<char>) -> Seq<u8> {
    len_prefixed(encode_utf8(s))
}

/// The encoding of a message. Meaningful for well-formed messages
/// (`wf_message`), whose variable-length fields fit their prefixes.
pub open spec fn spec_encode(m: MessageView) -> Seq<u8> {
    match m {
        MessageView::Discovery { name, port } => seq![TAG_DISCOVERY] + str_field(name)
            + u16_le(port),
        MessageView::PairRequest { pin } => seq![TAG_PAIR_REQUEST] + u32_le(pin),
        MessageView::PairConfirm { pin } => seq![TAG_PAIR_CONFIRM] + u32_le(pin),
        MessageView::FileTransfer { filename, data } => seq![TAG_FILE_TRANSFER]
            + str_field(filename) + len_prefixed(data),
        MessageView::ClipboardShare { content } => seq![TAG_CLIPBOARD_SHARE] + str_field(content),
        MessageView::ChatMessage { from, content } => seq![TAG_CHAT_MESSAGE] + str_field(from)
            + str_field(content),
        MessageView::Disconnect => seq![TAG_DISCONNECT],
    }
}

/// Reads a `u16` at offset `i`; yields the value and the next offset.
pub open spec fn parse_u16(b: Seq<u8>, i: int) -> Option<(u16, int)> {
    if i + 2 <= b.len() {
        Some((u16_from_le(b[i], b[i + 1]), i + 2))
    } else {
        None
    }
}

/// Reads a `u32` at offset `i`; yields the value and the next offset.
pub open spec fn parse_u32(b: Seq<u8>, i: int) -> Option<(u32, int)> {
    if i + 4 <= b.len() {
        Some((u32_from_le(b[i], b[i + 1], b[i + 2], b[i + 3]), i + 4))
    } else {
        None
    }
}

/// Reads a length-prefixed byte array at offset `i`.
pub open spec fn parse_bytes(b: Seq<u8>, i: int) -> Option<(Seq<u8>, int)> {
    match parse_u32(b, i) {
        Some((n, j)) => if j + n <= b.len() {
            Some((b.subrange(j, j + n), j + n))
        } else {
            None
        },
        None => None,
    }
}

/// Reads a length-prefixed UTF-8 string at offset `i`.
pub open spec fn parse_str(b: Seq<u8>, i: int) -> Option<(Seq<char>, int)> {
    match parse_bytes(b, i) {
        Some((bytes, j)) => if valid_utf8(bytes) {
            Some((decode_utf8(bytes), j))
        } else {
            None
        },
        None => None,
    }
}

/// The message a byte buffer holds, if it is the complete encoding of
/// exactly one well-formed message; `None` otherwise.
pub open spec fn spec_decode(b: Seq<u8>) -> Option<MessageView> {
    if b.len() < 1 {
        None
    } else if b[0] == TAG_DISCOVERY {
        match parse_str(b, 1) {
            Some((name, i)) => match parse_u16(b, i) {
                Some((port, j)) => if j == b.len() {
                    Some(MessageView::Discovery { name, port })
                } else {
                    None
                },
                None => None,
            },
            None => None,
        }
    } else if b[0] == TAG_PAIR_REQUEST {
        match parse_u32(b, 1) {
            Some((pin, j)) => if j == b.len() && PIN_MIN <= pin < PIN_END {
                Some(MessageView::PairRequest { pin })
            } else {
                None
            },
            None => None,
        }
    } else if b[0] == TAG_PAIR_CONFIRM {
        match parse_u32(b, 1) {
            Some((pin, j)) => if j == b.len() && PIN_MIN <= pin < PIN_END {
                Some(MessageView::PairConfirm { pin })
            } else {
                None
            },
            None => None,
        }
    } else if b[0] == TAG_FILE_TRANSFER {
        match parse_str(b, 1) {
            Some((filename, i)) => match parse_bytes(b, i) {
                Some((data, j)) => if j == b.len() {
                    Some(MessageView::FileTransfer { filename, data })
                } else {
                    None
                },
                None => None,
            },
            None => None,
        }
    } else if b[0] == TAG_CLIPBOARD_SHARE {
        match parse_str(b, 1) {
            Some((content, j)) => if j == b.len() {
                Some(MessageView::ClipboardShare { content })
            } else {
                None
            },
            None => None,
        }
    } else if b[0] == TAG_CHAT_MESSAGE {
        match parse_str(b, 1) {
            Some((from, i)) => match parse_str(b, i) {
                Some((content, j)) => if j == b.len() {
                    Some(MessageView::ChatMessage { from, content })
                } else {
                    None
                },
                None => None,
            },
            None => None,
        }
    } else if b[0] == TAG_DISCONNECT {
        if b.len() == 1 {
            Some(MessageView::Disconnect)
        } else {
            None
        }
    } else {
        None
    }
}

/// Reading back the two little-endian bytes of `n` yields `n`.
proof fn lemma_u16_round(n: u16)
    ensures
        u16_from_le(u16_le(n)[0], u16_le(n)[1]) == n,
{
}

/// `u16_le` is the inverse of `u16_from_le`: any two bytes are the
/// little-endian form of the value they denote.
proof fn lemma_u16_bytes(b0: u8, b1: u8)
    ensures
        u16_le(u16_from_le(b0, b1)) == seq![b0, b1],
{
    assert(u16_le(u16_from_le(b0, b1)) =~= seq![b0, b1]);
}

/// Reading back the four little-endian bytes of `n` yields `n`.
proof fn lemma_u32_round(n: u32)
    ensures
        u32_from_le(u32_le(n)[0], u32_le(n)[1], u32_le(n)[2], u32_le(n)[3]) == n,
{
}

/// `u32_le` is the inverse of `u32_from_le`.
proof fn lemma_u32_bytes(b0: u8, b1: u8, b2: u8, b3: u8)
    ensures
        u32_le(u32_from_le(b0, b1, b2, b3)) == seq![b0, b1, b2, b3],
{
    assert(u32_le(u32_from_le(b0, b1, b2, b3)) =~= seq![b0, b1, b2, b3]);
}

/// If the two bytes at offset `i` are `u16_le(n)`, parsing there yields `n`.
proof fn lemma_parse_u16_at(b: Seq<u8>, i: int, n: u16)
    requires
        0 <= i,
        i + 2 <= b.len(),
        b.subrange(i, i + 2) == u16_le(n),
    ensures
        parse_u16(b, i) == Some((n, i + 2)),
{
    assert(b.subrange(i, i + 2)[0] == b[i]);
    assert(b.subrange(i, i + 2)[1] == b[i + 1]);
    lemma_u16_round(n);
}

/// If the four bytes at offset `i` are `u32_le(n)`, parsing there yields `n`.
proof fn lemma_parse_u32_at(b: Seq<u8>, i: int, n: u32)
    requires
        0 <= i,
        i + 4 <= b.len(),
        b.subrange(i, i + 4) == u32_le(n),
    ensures
        parse_u32(b, i) == Some((n, i + 4)),
{
    assert(b.subrange(i, i + 4)[0] == b[i]);
    assert(b.subrange(i, i + 4)[1] == b[i + 1]);
    assert(b.subrange(i, i + 4)[2] == b[i + 2]);
    assert(b.subrange(i, i + 4)[3] == b[i + 3]);
    lemma_u32_round(n);
}

/// If the bytes at offset `i` are a length-prefixed payload `p`,
/// parsing there yields `p`.
proof fn lemma_parse_bytes_at(b: Seq<u8>, i: int, p: Seq<u8>)
    requires
        0 <= i,
        p.len() <= FIELD_MAX,
        i + 4 + p.len() <= b.len(),
        b.subrange(i, i + 4 + p.len()) == len_prefixed(p),
    ensures
        parse_bytes(b, i) == Some((p, i + 4 + p.len())),
{
    let n = p.len() as u32;
    let whole = b.subrange(i, i + 4 + p.len());
    assert forall|k: int| 0 <= k < 4 + p.len() implies b[i + k] == len_prefixed(p)[k] by {
        assert(whole[k] == b[i + k]);
    }
    assert(b.subrange(i, i + 4) =~= u32_le(n));
    lemma_parse_u32_at(b, i, n);
    assert forall|k: int| 0 <= k < p.len() implies b.subrange(i + 4, i + 4 + p.len())[k] == p[k] by {
        assert(b[i + (4 + k)] == len_prefixed(p)[4 + k]);
        assert(len_prefixed(p)[4 + k] == p[k]);
    }
    assert(b.subrange(i + 4, i + 4 + p.len()) =~= p);
}

/// If the bytes at offset `i` are a length-prefixed UTF-8 string `s`,
/// parsing there yields `s`.
proof fn lemma_parse_str_at(b: Seq<u8>, i: int, s: Seq<char>)
    requires
        0 <= i,
        encode_utf8(s).len() <= FIELD_MAX,
        i + 4 + encode_utf8(s).len() <= b.len(),
        b.subrange(i, i + 4 + encode_utf8(s).len()) == str_field(s),
    ensures
        parse_str(b, i) == Some((s, i + 4 + encode_utf8(s).len())),
{
    broadcast use vstd::utf8::encode_utf8_valid_utf8, vstd::utf8::encode_utf8_decode_utf8;

    lemma_parse_bytes_at(b, i, encode_utf8(s));
}

/// Round trip: the encoding of any well-formed message decodes back to
/// that very message. No well-formed message is lost or altered by a
/// pass over the wire.
#[verifier::rlimit(50)]
pub proof fn lemma_decode_encode(m: MessageView)
    requires
        wf_message(m),
    ensures
        spec_decode(spec_encode(m)) == Some(m),
{
    let b = spec_encode(m);
    match m {
        MessageView::Discovery { name, port } => {
            let sf = str_field(name);
            let i = 1 + 4 + encode_utf8(name).len() as int;
            assert(b.subrange(1, i) =~= sf);
            lemma_parse_str_at(b, 1, name);
            assert(b.subrange(i, i + 2) =~= u16_le(port));
            lemma_parse_u16_at(b, i, port);
        }
        MessageView::PairRequest { pin } => {
            assert(b.subrange(1, 5) =~= u32_le(pin));
            lemma_parse_u32_at(b, 1, pin);
        }
        MessageView::PairConfirm { pin } => {
            assert(b.subrange(1, 5) =~= u32_le(pin));
            lemma_parse_u32_at(b, 1, pin);
        }
        MessageView::FileTransfer { filename, data } => {
            let sf = str_field(filename);
            let i = 1 + 4 + encode_utf8(filename).len() as int;
            assert(b.subrange(1, i) =~= sf);
            lemma_parse_str_at(b, 1, filename);
            assert(b.subrange(i, i + 4 + data.len()) =~= len_prefixed(data));
            lemma_parse_bytes_at(b, i, data);
        }
        MessageView::ClipboardShare { content } => {
            let i = 1 + 4 + encode_utf8(content).len() as int;
            assert(b.subrange(1, i) =~= str_field(content));
            lemma_parse_str_at(b, 1, content);
        }
        MessageView::ChatMessage { from, content } => {
            let i = 1 + 4 + encode_utf8(from).len() as int;
            assert(b.subrange(1, i) =~= str_field(from));
            lemma_parse_str_at(b, 1, from);
            let j = i + 4 + encode_utf8(content).len() as int;
            assert(b.subrange(i, j) =~= str_field(content));
            lemma_parse_str_at(b, i, content);
        }
        MessageView::Disconnect => {
        }
    }
}

/// A successful `u16` parse read exactly the little-endian bytes of its value.
proof fn lemma_parse_u16_sound(b: Seq<u8>, i: int, n: u16, j: int)
    requires
        0 <= i,
        parse_u16(b, i) == Some((n, j)),
    ensures
        j == i + 2 <= b.len(),
        b.subrange(i, i + 2) == u16_le(n),
{
    lemma_u16_bytes(b[i], b[i + 1]);
    assert(b.subrange(i, i + 2) =~= seq![b[i], b[i + 1]]);
}

/// A successful `u32` parse read exactly the little-endian bytes of its value.
proof fn lemma_parse_u32_sound(b: Seq<u8>, i: int, n: u32, j: int)
    requires
        0 <= i,
        parse_u32(b, i) == Some((n, j)),
    ensures
        j == i + 4 <= b.len(),
        b.subrange(i, i + 4) == u32_le(n),
{
    lemma_u32_bytes(b[i], b[i + 1], b[i + 2], b[i + 3]);
    assert(b.subrange(i, i + 4) =~= seq![b[i], b[i + 1], b[i + 2], b[i + 3]]);
}

/// A successful byte-array parse read exactly the length-prefixed payload.
proof fn lemma_parse_bytes_sound(b: Seq<u8>, i: int, p: Seq<u8>, j: int)
    requires
        0 <= i,
        parse_bytes(b, i) == Some((p, j)),
    ensures
        p.len() <= FIELD_MAX,
        j == i + 4 + p.len() <= b.len(),
        b.subrange(i, j) == len_prefixed(p),
{
    let (n, mid) = parse_u32(b, i).unwrap();
    lemma_parse_u32_sound(b, i, n, mid);
    assert forall|k: int| 0 <= k < 4 + p.len() implies b.subrange(i, j)[k] == len_prefixed(p)[k] by {
        if k < 4 {
            assert(b.subrange(i, i + 4)[k] == b[i + k]);
        } else {
            assert(p[k - 4] == b[i + k]);
        }
    }
    assert(b.subrange(i, j) =~= len_prefixed(p));
}

/// A successful string parse read exactly the length-prefixed UTF-8
/// encoding of the string it returned.
proof fn lemma_parse_str_sound(b: Seq<u8>, i: int, s: Seq<char>, j: int)
    requires
        0 <= i,
        parse_str(b, i) == Some((s, j)),
    ensures
        encode_utf8(s).len() <= FIELD_MAX,
        j == i + 4 + encode_utf8(s).len() <= b.len(),
        b.subrange(i, j) == str_field(s),
{
    broadcast use vstd::utf8::decode_utf8_encode_utf8;

    let (p, j2) = parse_bytes(b, i).unwrap();
    lemma_parse_bytes_sound(b, i, p, j2);
    assert(encode_utf8(s) == p);
}

/// Soundness of the decoder: whatever a buffer decodes to is well-formed
/// and encodes back to exactly that buffer. Together with
/// `lemma_decode_encode` this makes decoding the precise inverse of
/// encoding: a buffer decodes to `m` if and only if it is `spec_encode(m)`
/// for a well-formed `m`.
#[verifier::rlimit(50)]
pub proof fn lemma_encode_decode(b: Seq<u8>, m: MessageView)
    requires
        spec_decode(b) == Some(m),
    ensures
        wf_message(m),
        spec_encode(m) == b,
{
    match m {
        MessageView::Discovery { name, port } => {
            let (name2, i) = parse_str(b, 1).unwrap();
            lemma_parse_str_sound(b, 1, name2, i);
            let (port2, j) = parse_u16(b, i).unwrap();
            lemma_parse_u16_sound(b, i, port2, j);
            assert(spec_encode(m) =~= b);
        }
        MessageView::PairRequest { pin } => {
            let (pin2, j) = parse_u32(b, 1).unwrap();
            lemma_parse_u32_sound(b, 1, pin2, j);
            assert(spec_encode(m) =~= b);
        }
        MessageView::PairConfirm { pin } => {
            let (pin2, j) = parse_u32(b, 1).unwrap();
            lemma_parse_u32_sound(b, 1, pin2, j);
            assert(spec_encode(m) =~= b);
        }
        MessageView::FileTransfer { filename, data } => {
            let (name2, i) = parse_str(b, 1).unwrap();
            lemma_parse_str_sound(b, 1, name2, i);
            let (data2, j) = parse_bytes(b, i).unwrap();
            lemma_parse_bytes_sound(b, i, data2, j);
            assert(spec_encode(m) =~= b);
        }
        MessageView::ClipboardShare { content } => {
            let (content2, j) = parse_str(b, 1).unwrap();
            lemma_parse_str_sound(b, 1, content2, j);
            assert(spec_encode(m) =~= b);
        }
        MessageView::ChatMessage { from, content } => {
            let (from2, i) = parse_str(b, 1).unwrap();
            lemma_parse_str_sound(b, 1, from2, i);
            let (content2, j) = parse_str(b, i).unwrap();
            lemma_parse_str_sound(b, i, content2, j);
            assert(spec_encode(m) =~= b);
        }
        MessageView::Disconnect => {
            assert(spec_encode(m) =~= b);
        }
    }
}

/// Appends the two little-endian bytes of `n`.
fn push_u16_le(out: &mut Vec<u8>, n: u16)
    ensures
        final(out)@ == old(out)@ + u16_le(n),
{
    out.push((n % 256) as u8);
    out.push((n / 256) as u8);
    assert(out@ =~= old(out)@ + u16_le(n));
}

/// Appends the four little-endian bytes of `n`.
fn push_u32_le(out: &mut Vec<u8>, n: u32)
    ensures
        final(out)@ == old(out)@ + u32_le(n),
{
    out.push((n % 256) as u8);
    out.push(((n / 256) % 256) as u8);
    out.push(((n / 65536) % 256) as u8);
    out.push((n / 16777216) as u8);
    assert(out@ =~= old(out)@ + u32_le(n));
}

/// Appends a byte payload behind its `u32` length prefix.
fn push_bytes_field(out: &mut Vec<u8>, data: &[u8])
    requires
        data@.len() <= FIELD_MAX,
    ensures
        final(out)@ == old(out)@ + len_prefixed(data@),
{
    let len = data.len();
    push_u32_le(out, len as u32);
    let mut k: usize = 0;
    while k < len
        invariant
            len == data@.len(),
            k <= len,
            out@ == old(out)@ + u32_le(len as u32) + data@.subrange(0, k as int),
        decreases len - k,
    {
        out.push(data[k]);
        k = k + 1;
        assert(out@ =~= old(out)@ + u32_le(len as u32) + data@.subrange(0, k as int));
    }
    assert(data@.subrange(0, len as int) =~= data@);
    assert(out@ =~= old(out)@ + len_prefixed(data@));
}

/// Appends a string field: its UTF-8 bytes behind a length prefix.
fn push_str_field(out: &mut Vec<u8>, s: &String)
    requires
        encode_utf8(s@).len() <= FIELD_MAX,
    ensures
        final(out)@ == old(out)@ + str_field(s@),
{
    let bytes: &[u8] = s.as_str().as_bytes();
    push_bytes_field(out, bytes);
}

/// Encodes a well-formed message for the wire.
pub fn encode(m: &Message) -> (r: Vec<u8>)
    requires
        wf_message(m@),
    ensures
        r@ == spec_encode(m@),
{
    let mut out: Vec<u8> = Vec::new();
    match m {
        Message::Discovery { name, port } => {
            out.push(TAG_DISCOVERY);
            push_str_field(&mut out, name);
            push_u16_le(&mut out, *port);
            assert(out@ =~= spec_encode(m@));
        }
        Message::PairRequest { pin } => {
            out.push(TAG_PAIR_REQUEST);
            push_u32_le(&mut out, *pin);
            assert(out@ =~= spec_encode(m@));
        }
        Message::PairConfirm { pin } => {
            out.push(TAG_PAIR_CONFIRM);
            push_u32_le(&mut out, *pin);
            assert(out@ =~= spec_encode(m@));
        }
        Message::FileTransfer { filename, data } => {
            out.push(TAG_FILE_TRANSFER);
            push_str_field(&mut out, filename);
            push_bytes_field(&mut out, data.as_slice());
            assert(out@ =~= spec_encode(m@));
        }
        Message::ClipboardShare { content } => {
            out.push(TAG_CLIPBOARD_SHARE);
            push_str_field(&mut out, content);
            assert(out@ =~= spec_encode(m@));
        }
        Message::ChatMessage { from, content } => {
            out.push(TAG_CHAT_MESSAGE);
            push_str_field(&mut out, from);
            push_str_field(&mut out, content);
            assert(out@ =~= spec_encode(m@));
        }
        Message::Disconnect => {
            out.push(TAG_DISCONNECT);
            assert(out@ =~= spec_encode(m@));
        }
    }
    out
}

/// Relies on `String::from_utf8`: it succeeds exactly on valid UTF-8
/// input, and the returned string's UTF-8 encoding is the input bytes.
#[verifier::external_body]
fn bytes_to_string(v: Vec<u8>) -> (r: Option<String>)
    ensures
        r is Some <==> valid_utf8(v@),
        r matches Some(s) ==> encode_utf8(s@) == v@,
{
    String::from_utf8(v).ok()
}

/// Reads a `u16` at offset `i` of the buffer.
fn read_u16(data: &[u8], i: usize) -> (r: Option<(u16, usize)>)
    requires
        i <= data@.len(),
    ensures
        match r {
            Some(v) => parse_u16(data@, i as int) == Some((v.0, v.1 as int)) && v.1 <= data@.len(),
            None => parse_u16(data@, i as int) is None,
        },
{
    if data.len() - i >= 2 {
        let b0 = data[i];
        let b1 = data[i + 1];
        Some(((b0 as u16) + (b1 as u16) * 256, i + 2))
    } else {
        None
    }
}

/// Reads a `u32` at offset `i` of the buffer.
fn read_u32(data: &[u8], i: usize) -> (r: Option<(u32, usize)>)
    requires
        i <= data@.len(),
    ensures
        match r {
            Some(v) => parse_u32(data@, i as int) == Some((v.0, v.1 as int)) && v.1 <= data@.len(),
            None => parse_u32(data@, i as int) is None,
        },
{
    if data.len() - i >= 4 {
        let b0 = data[i];
        let b1 = data[i + 1];
        let b2 = data[i + 2];
        let b3 = data[i + 3];
        let n = (b0 as u32) + (b1 as u32) * 256 + (b2 as u32) * 65536 + (b3 as u32) * 16777216;
        Some((n, i + 4))
    } else {
        None
    }
}

/// Reads a length-prefixed byte array at offset `i` of the buffer.
fn read_bytes(data: &[u8], i: usize) -> (r: Option<(Vec<u8>, usize)>)
    requires
        i <= data@.len(),
    ensures
        match r {
            Some(v) => parse_bytes(data@, i as int) == Some((v.0@, v.1 as int)) && v.1
                <= data@.len(),
            None => parse_bytes(data@, i as int) is None,
        },
{
    match read_u32(data, i) {
        Some((n, j)) => {
            let len = n as usize;
            if data.len() - j >= len {
                let sub = vstd::slice::slice_subrange(data, j, j + len);
                let p = vstd::slice::slice_to_vec(sub);
                Some((p, j + len))
            } else {
                None
            }
        },
        None => None,
    }
}

/// Reads a length-prefixed UTF-8 string at offset `i` of the buffer.
fn read_str(data: &[u8], i: usize) -> (r: Option<(String, usize)>)
    requires
        i <= data@.len(),
    ensures
        match r {
            Some(v) => parse_str(data@, i as int) == Some((v.0@, v.1 as int)) && v.1
                <= data@.len(),
            None => parse_str(data@, i as int) is None,
        },
{
    match read_bytes(data, i) {
        Some((p, j)) => {
            let ghost pb = p@;
            match bytes_to_string(p) {
                Some(s) => {
                    proof {
                        broadcast use vstd::utf8::encode_utf8_decode_utf8;

                        assert(decode_utf8(pb) == s@);
                    }
                    Some((s, j))
                },
                None => None,
            }
        },
        None => None,
    }
}

/// Decodes one message from the complete byte body of a connection.
/// Succeeds exactly when the buffer is the full encoding of one
/// well-formed message; anything truncated, trailing, unknown, or
/// malformed is rejected with an error value.
pub fn decode(data: &[u8]) -> (r: Result<Message, DecodeError>)
    ensures
        match r {
            Ok(m) => spec_decode(data@) == Some(m@) && wf_message(m@),
            Err(_) => spec_decode(data@) is None,
        },
{
    if data.len() < 1 {
        return Err(DecodeError::Malformed);
    }
    let tag = data[0];
    if tag == TAG_DISCOVERY {
        match read_str(data, 1) {
            Some((name, i)) => match read_u16(data, i) {
                Some((port, j)) => if j == data.len() {
                    proof {
                        lemma_parse_str_sound(data@, 1, name@, i as int);
                    }
                    Ok(Message::Discovery { name, port })
                } else {
                    Err(DecodeError::Malformed)
                },
                None => Err(DecodeError::Malformed),
            },
            None => Err(DecodeError::Malformed),
        }
    } else if tag == TAG_PAIR_REQUEST {
        match read_u32(data, 1) {
            Some((pin, j)) => if j == data.len() && PIN_MIN <= pin && pin < PIN_END {
                Ok(Message::PairRequest { pin })
            } else {
                Err(DecodeError::Malformed)
            },
            None => Err(DecodeError::Malformed),
        }
    } else if tag == TAG_PAIR_CONFIRM {
        match read_u32(data, 1) {
            Some((pin, j)) => if j == data.len() && PIN_MIN <= pin && pin < PIN_END {
                Ok(Message::PairConfirm { pin })
            } else {
                Err(DecodeError::Malformed)
            },
            None => Err(DecodeError::Malformed),
        }
    } else if tag == TAG_FILE_TRANSFER {
        match read_str(data, 1) {
            Some((filename, i)) => match read_bytes(data, i) {
                Some((file_data, j)) => if j == data.len() {
                    proof {
                        lemma_parse_str_sound(data@, 1, filename@, i as int);
                        lemma_parse_bytes_sound(data@, i as int, file_data@, j as int);
                    }
                    Ok(Message::FileTransfer { filename, data: file_data })
                } else {
                    Err(DecodeError::Malformed)
                },
                None => Err(DecodeError::Malformed),
            },
            None => Err(DecodeError::Malformed),
        }
    } else if tag == TAG_CLIPBOARD_SHARE {
        match read_str(data, 1) {
            Some((content, j)) => if j == data.len() {
                proof {
                    lemma_parse_str_sound(data@, 1, content@, j as int);
                }
                Ok(Message::ClipboardShare { content })
            } else {
                Err(DecodeError::Malformed)
            },
            None => Err(DecodeError::Malformed),
        }
    } else if tag == TAG_CHAT_MESSAGE {
        match read_str(data, 1) {
            Some((from, i)) => match read_str(data, i) {
                Some((content, j)) => if j == data.len() {
                    proof {
                        lemma_parse_str_sound(data@, 1, from@, i as int);
                        lemma_parse_str_sound(data@, i as int, content@, j as int);
                    }
                    Ok(Message::ChatMessage { from, content })
                } else {
                    Err(DecodeError::Malformed)
                },
                None => Err(DecodeError::Malformed),
            },
            None => Err(DecodeError::Malformed),
        }
    } else if tag == TAG_DISCONNECT {
        if data.len() == 1 {
            Ok(Message::Disconnect)
        } else {
            Err(DecodeError::Malformed)
        }
    } else {
        Err(DecodeError::Malformed)
    }
}

} // verus!
