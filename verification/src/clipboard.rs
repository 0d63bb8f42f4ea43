//! The clipboard messages and their encoding.
//!
//! A transfer is announced by an `Offer`, carried by `Chunk`s and closed by a `Complete`; an
//! `Abort` throws it away. A message is a type byte followed by its fields: integers
//! little-endian, the MIME type as a two-byte length and UTF-8, a payload as a four-byte length
//! and the bytes.

use vstd::prelude::*;
use vstd::string::*;
use vstd::utf8::*;
use crate::bytes;
use crate::reader::ByteReader;

verus! {

/// Longest handshake message on the wire.
pub const MAX_HANDSHAKE_MSG: usize = 1024;

/// Most bytes in one transfer: 1 MiB.
pub const MAX_TOTAL_LEN: usize = 1048576;

/// Most bytes in one chunk: 16 KiB.
pub const MAX_CHUNK_LEN: usize = 16384;

/// The TCP port of the clipboard service.
pub const DEFAULT_PORT: u16 = 9022;

/// Longest sealed frame: what a two-byte length prefix can express.
pub const MAX_FRAME_LEN: usize = 65535;

/// The one MIME type that is accepted.
pub const SUPPORTED_MIME: &'static str = "text/plain;charset=utf-8";

/// What can go wrong on the clipboard channel, apart from the network itself.
#[derive(Debug)]
pub enum ClipboardError {
    /// The Noise layer refused.
    Crypto(snow::Error),
    /// A malformed message or frame.
    Decode(&'static str),
    /// More bytes than are allowed.
    Oversize,
    /// A message that the state of the transfer does not allow.
    Protocol(&'static str),
    /// A MIME type other than [`SUPPORTED_MIME`].
    UnsupportedMime,
}

/// A [`ClipboardError`] as contracts speak of it: the text as characters, the Noise error
/// unopened.
pub enum ErrorView {
    Crypto(snow::Error),
    Decode(Seq<char>),
    Oversize,
    Protocol(Seq<char>),
    UnsupportedMime,
}

impl View for ClipboardError {
    type V = ErrorView;

    open spec fn view(&self) -> ErrorView {
        match self {
            ClipboardError::Crypto(e) => ErrorView::Crypto(*e),
            ClipboardError::Decode(why) => ErrorView::Decode(why@),
            ClipboardError::Oversize => ErrorView::Oversize,
            ClipboardError::Protocol(why) => ErrorView::Protocol(why@),
            ClipboardError::UnsupportedMime => ErrorView::UnsupportedMime,
        }
    }
}

/// A clipboard message.
#[derive(Debug, Clone, PartialEq, Eq)]
pub enum ClipboardMsg {
    /// Announces a transfer.
    Offer { transfer_id: u32, mime: String, total_len: u64 },
    /// A piece of the data, `seq` counting from 0.
    Chunk { transfer_id: u32, seq: u32, payload: Vec<u8> },
    /// Every piece has been sent.
    Complete { transfer_id: u32 },
    /// The transfer is off.
    Abort { transfer_id: u32, reason: u8 },
}

/// A [`ClipboardMsg`] as contracts speak of it.
pub enum MsgView {
    Offer { transfer_id: u32, mime: Seq<char>, total_len: u64 },
    Chunk { transfer_id: u32, seq: u32, payload: Seq<u8> },
    Complete { transfer_id: u32 },
    Abort { transfer_id: u32, reason: u8 },
}

impl View for ClipboardMsg {
    type V = MsgView;

    open spec fn view(&self) -> MsgView {
        match *self {
            ClipboardMsg::Offer { transfer_id, mime, total_len } => MsgView::Offer {
                transfer_id,
                mime: mime@,
                total_len,
            },
            ClipboardMsg::Chunk { transfer_id, seq, payload } => MsgView::Chunk {
                transfer_id,
                seq,
                payload: payload@,
            },
            ClipboardMsg::Complete { transfer_id } => MsgView::Complete { transfer_id },
            ClipboardMsg::Abort { transfer_id, reason } => MsgView::Abort { transfer_id, reason },
        }
    }
}

/// Type byte of an `Offer`.
pub const TYPE_OFFER: u8 = 1;

/// Type byte of a `Chunk`.
pub const TYPE_CHUNK: u8 = 2;

/// Type byte of a `Complete`.
pub const TYPE_COMPLETE: u8 = 3;

/// Type byte of an `Abort`.
pub const TYPE_ABORT: u8 = 4;

/// The bytes of a message. A length that its field cannot hold is cut off at the top.
pub open spec fn encoded(msg: MsgView) -> Seq<u8> {
    match msg {
        MsgView::Offer { transfer_id, mime, total_len } => seq![TYPE_OFFER] + bytes::le_bytes(
            transfer_id as nat,
            4,
        ) + bytes::le_bytes(encode_utf8(mime).len() % 0x1_0000, 2) + encode_utf8(mime)
            + bytes::le_bytes(total_len as nat, 8),
        MsgView::Chunk { transfer_id, seq, payload } => seq![TYPE_CHUNK] + bytes::le_bytes(
            transfer_id as nat,
            4,
        ) + bytes::le_bytes(seq as nat, 4) + bytes::le_bytes(payload.len() % 0x1_0000_0000, 4)
            + payload,
        MsgView::Complete { transfer_id } => seq![TYPE_COMPLETE] + bytes::le_bytes(
            transfer_id as nat,
            4,
        ),
        MsgView::Abort { transfer_id, reason } => seq![TYPE_ABORT] + bytes::le_bytes(
            transfer_id as nat,
            4,
        ) + seq![reason],
    }
}

/// The number in the `n` bytes of `b` that start at `at`.
pub open spec fn field(b: Seq<u8>, at: int, n: int) -> nat {
    bytes::le_value(b.subrange(at, at + n))
}

/// The error of a byte string that ends too early.
pub open spec fn truncated() -> Result<MsgView, ErrorView> {
    Err(ErrorView::Decode("truncated"@))
}

/// The `Offer` in a byte string, after its type byte.
pub open spec fn decoded_offer(b: Seq<u8>) -> Result<MsgView, ErrorView> {
    let mime_len = field(b, 5, 2) as int;
    let mime = b.subrange(7, 7 + mime_len);
    if b.len() < 7 || b.len() < 7 + mime_len {
        truncated()
    } else if !valid_utf8(mime) {
        Err(ErrorView::Decode("mime not utf-8"@))
    } else if b.len() < 15 + mime_len {
        truncated()
    } else {
        Ok(
            MsgView::Offer {
                transfer_id: field(b, 1, 4) as u32,
                mime: decode_utf8(mime),
                total_len: field(b, 7 + mime_len, 8) as u64,
            },
        )
    }
}

/// The `Chunk` in a byte string, after its type byte.
pub open spec fn decoded_chunk(b: Seq<u8>) -> Result<MsgView, ErrorView> {
    let payload_len = field(b, 9, 4) as int;
    if b.len() < 13 {
        truncated()
    } else if 13 + payload_len > usize::MAX {
        Err(ErrorView::Decode("offset overflow"@))
    } else if b.len() < 13 + payload_len {
        truncated()
    } else {
        Ok(
            MsgView::Chunk {
                transfer_id: field(b, 1, 4) as u32,
                seq: field(b, 5, 4) as u32,
                payload: b.subrange(13, 13 + payload_len),
            },
        )
    }
}

/// The message at the front of a byte string, or why there is none. What follows the message is
/// ignored.
pub open spec fn decoded(b: Seq<u8>) -> Result<MsgView, ErrorView> {
    if b.len() == 0 {
        truncated()
    } else if b[0] == TYPE_OFFER {
        decoded_offer(b)
    } else if b[0] == TYPE_CHUNK {
        decoded_chunk(b)
    } else if b[0] == TYPE_COMPLETE {
        if b.len() < 5 {
            truncated()
        } else {
            Ok(MsgView::Complete { transfer_id: field(b, 1, 4) as u32 })
        }
    } else if b[0] == TYPE_ABORT {
        if b.len() < 6 {
            truncated()
        } else {
            Ok(MsgView::Abort { transfer_id: field(b, 1, 4) as u32, reason: b[5] })
        }
    } else {
        Err(ErrorView::Decode("unknown message type"@))
    }
}

impl ClipboardMsg {
    /// The bytes of the message.
    pub fn encode(&self) -> (out: Vec<u8>)
        ensures
            out@ == encoded(self@),
    {
        let mut out: Vec<u8> = Vec::with_capacity(32);
        match self {
            ClipboardMsg::Offer { transfer_id, mime, total_len } => {
                out.push(TYPE_OFFER);
                bytes::push_u32_le(&mut out, *transfer_id);
                let mime_bytes = mime.as_str().as_bytes();
                let cut: u16 = (mime_bytes.len() % 0x1_0000) as u16;
                bytes::push_u16_le(&mut out, cut);
                bytes::push_all(&mut out, mime_bytes);
                bytes::push_u64_le(&mut out, *total_len);
            },
            ClipboardMsg::Chunk { transfer_id, seq, payload } => {
                out.push(TYPE_CHUNK);
                bytes::push_u32_le(&mut out, *transfer_id);
                bytes::push_u32_le(&mut out, *seq);
                let cut: u32 = (payload.len() as u64 % 0x1_0000_0000) as u32;
                bytes::push_u32_le(&mut out, cut);
                bytes::push_all(&mut out, payload.as_slice());
            },
            ClipboardMsg::Complete { transfer_id } => {
                out.push(TYPE_COMPLETE);
                bytes::push_u32_le(&mut out, *transfer_id);
            },
            ClipboardMsg::Abort { transfer_id, reason } => {
                out.push(TYPE_ABORT);
                bytes::push_u32_le(&mut out, *transfer_id);
                out.push(*reason);
            },
        }
        assert(out@ =~= encoded(self@));
        out
    }

    /// The message at the front of `buf`; any other input is an error.
    pub fn decode(buf: &[u8]) -> (r: Result<ClipboardMsg, ClipboardError>)
        ensures
            match r {
                Ok(msg) => decoded(buf@) == Ok::<MsgView, ErrorView>(msg@),
                Err(e) => decoded(buf@) == Err::<MsgView, ErrorView>(e@),
            },
    {
        let mut r = ByteReader::new(buf);
        let tag: u8 = match r.read_u8() {
            Ok(tag) => tag,
            Err(e) => {
                return Err(e);
            },
        };
        if tag == TYPE_OFFER {
            Self::decode_offer(buf, &mut r)
        } else if tag == TYPE_CHUNK {
            Self::decode_chunk(buf, &mut r)
        } else if tag == TYPE_COMPLETE {
            match r.read_u32() {
                Ok(transfer_id) => Ok(ClipboardMsg::Complete { transfer_id }),
                Err(e) => Err(e),
            }
        } else if tag == TYPE_ABORT {
            let transfer_id: u32 = match r.read_u32() {
                Ok(x) => x,
                Err(e) => {
                    return Err(e);
                },
            };
            match r.read_u8() {
                Ok(reason) => Ok(ClipboardMsg::Abort { transfer_id, reason }),
                Err(e) => Err(e),
            }
        } else {
            Err(ClipboardError::Decode("unknown message type"))
        }
    }

    fn decode_offer(buf: &[u8], r: &mut ByteReader) -> (m: Result<ClipboardMsg, ClipboardError>)
        requires
            old(r).wf(),
            old(r).data() == buf@,
            old(r).at() == 1,
            buf@.len() >= 1,
        ensures
            match m {
                Ok(msg) => decoded_offer(buf@) == Ok::<MsgView, ErrorView>(msg@),
                Err(e) => decoded_offer(buf@) == Err::<MsgView, ErrorView>(e@),
            },
    {
        let transfer_id: u32 = match r.read_u32() {
            Ok(x) => x,
            Err(e) => {
                return Err(e);
            },
        };
        let mime_len: u16 = match r.read_u16() {
            Ok(x) => x,
            Err(e) => {
                return Err(e);
            },
        };
        let mime_bytes = match r.take_bytes(mime_len as usize) {
            Ok(x) => x,
            Err(e) => {
                return Err(e);
            },
        };
        let mime = match String::from_utf8(mime_bytes) {
            Ok(s) => s,
            Err(_) => {
                return Err(ClipboardError::Decode("mime not utf-8"));
            },
        };
        match r.read_u64() {
            Ok(total_len) => Ok(ClipboardMsg::Offer { transfer_id, mime, total_len }),
            Err(e) => Err(e),
        }
    }

    fn decode_chunk(buf: &[u8], r: &mut ByteReader) -> (m: Result<ClipboardMsg, ClipboardError>)
        requires
            old(r).wf(),
            old(r).data() == buf@,
            old(r).at() == 1,
            buf@.len() >= 1,
        ensures
            match m {
                Ok(msg) => decoded_chunk(buf@) == Ok::<MsgView, ErrorView>(msg@),
                Err(e) => decoded_chunk(buf@) == Err::<MsgView, ErrorView>(e@),
            },
    {
        let transfer_id: u32 = match r.read_u32() {
            Ok(x) => x,
            Err(e) => {
                return Err(e);
            },
        };
        let seq: u32 = match r.read_u32() {
            Ok(x) => x,
            Err(e) => {
                return Err(e);
            },
        };
        let payload_len: u32 = match r.read_u32() {
            Ok(x) => x,
            Err(e) => {
                return Err(e);
            },
        };
        match r.take_bytes(payload_len as usize) {
            Ok(payload) => Ok(ClipboardMsg::Chunk { transfer_id, seq, payload }),
            Err(e) => Err(e),
        }
    }
}

/// Whether every length in the message fits the field that carries it, and the message as a
/// whole fits in memory.
pub open spec fn encodable(msg: MsgView) -> bool {
    match msg {
        MsgView::Offer { transfer_id, mime, total_len } => encode_utf8(mime).len() < 0x1_0000,
        MsgView::Chunk { transfer_id, seq, payload } => payload.len() < 0x1_0000_0000 && 13
            + payload.len() <= usize::MAX,
        _ => true,
    }
}

/// A field reads back the number that was written at its place.
proof fn lemma_field_back(b: Seq<u8>, at: int, x: nat, n: nat)
    requires
        0 <= at,
        at + n <= b.len(),
        b.subrange(at, at + n) =~= bytes::le_bytes(x, n),
        x < bytes::pow256(n),
    ensures
        field(b, at, n as int) == x,
{
    bytes::lemma_le_value_of_bytes(x, n);
}

/// Decoding gives back the message that was encoded, whatever bytes follow it.
pub proof fn law_decode_inverts_encode(msg: MsgView, tail: Seq<u8>)
    requires
        encodable(msg),
    ensures
        decoded(encoded(msg) + tail) == Ok::<MsgView, ErrorView>(msg),
{
    let b = encoded(msg) + tail;
    bytes::lemma_pow256_values();
    match msg {
        MsgView::Offer { transfer_id, mime, total_len } => {
            let m = encode_utf8(mime);
            bytes::lemma_le_bytes_len(transfer_id as nat, 4);
            bytes::lemma_le_bytes_len(m.len() % 0x1_0000, 2);
            bytes::lemma_le_bytes_len(total_len as nat, 8);
            lemma_field_back(b, 1, transfer_id as nat, 4);
            lemma_field_back(b, 5, m.len(), 2);
            lemma_field_back(b, 7 + m.len() as int, total_len as nat, 8);
            assert(b.subrange(7, 7 + m.len() as int) =~= m);
            encode_utf8_valid_utf8(mime);
            encode_utf8_decode_utf8(mime);
        },
        MsgView::Chunk { transfer_id, seq, payload } => {
            bytes::lemma_le_bytes_len(transfer_id as nat, 4);
            bytes::lemma_le_bytes_len(seq as nat, 4);
            bytes::lemma_le_bytes_len(payload.len() % 0x1_0000_0000, 4);
            lemma_field_back(b, 1, transfer_id as nat, 4);
            lemma_field_back(b, 5, seq as nat, 4);
            lemma_field_back(b, 9, payload.len(), 4);
            assert(b.subrange(13, 13 + payload.len() as int) =~= payload);
        },
        MsgView::Complete { transfer_id } => {
            bytes::lemma_le_bytes_len(transfer_id as nat, 4);
            lemma_field_back(b, 1, transfer_id as nat, 4);
        },
        MsgView::Abort { transfer_id, reason } => {
            bytes::lemma_le_bytes_len(transfer_id as nat, 4);
            lemma_field_back(b, 1, transfer_id as nat, 4);
        },
    }
}

/// Bytes that decode to a message begin with the encoding of that message: no two encodings
/// mean the same, and what a decoder accepts is what an encoder would have written.
pub proof fn law_encode_inverts_decode(b: Seq<u8>)
    requires
        decoded(b) is Ok,
    ensures
        encoded(decoded(b)->Ok_0).len() <= b.len(),
        b.subrange(0, encoded(decoded(b)->Ok_0).len() as int) == encoded(decoded(b)->Ok_0),
        encodable(decoded(b)->Ok_0),
{
    let msg = decoded(b)->Ok_0;
    bytes::lemma_pow256_values();
    lemma_field_forth(b, 1, 4);
    match msg {
        MsgView::Offer { transfer_id, mime, total_len } => {
            let n = field(b, 5, 2) as int;
            lemma_field_forth(b, 5, 2);
            lemma_field_forth(b, 7 + n, 8);
            decode_utf8_encode_utf8(b.subrange(7, 7 + n));
            assert(encoded(msg) =~= b.subrange(0, 15 + n));
        },
        MsgView::Chunk { transfer_id, seq, payload } => {
            let n = field(b, 9, 4) as int;
            lemma_field_forth(b, 5, 4);
            lemma_field_forth(b, 9, 4);
            assert(encoded(msg) =~= b.subrange(0, 13 + n));
        },
        MsgView::Complete { transfer_id } => {
            assert(encoded(msg) =~= b.subrange(0, 5));
        },
        MsgView::Abort { transfer_id, reason } => {
            assert(encoded(msg) =~= b.subrange(0, 6));
        },
    }
}

/// Writing the number that a field holds gives the bytes of the field.
proof fn lemma_field_forth(b: Seq<u8>, at: int, n: nat)
    requires
        0 <= at,
        at + n <= b.len(),
    ensures
        bytes::le_bytes(field(b, at, n as int), n) == b.subrange(at, at + n),
        field(b, at, n as int) < bytes::pow256(n),
{
    bytes::lemma_le_bytes_of_value(b.subrange(at, at + n));
}

/// The limits and numbers that both ends of a connection rest on.
pub proof fn law_limits()
    ensures
        MAX_TOTAL_LEN == 1024 * 1024,
        MAX_CHUNK_LEN == 16 * 1024,
        MAX_HANDSHAKE_MSG == 1024,
        MAX_FRAME_LEN == u16::MAX,
        DEFAULT_PORT == 9022,
        SUPPORTED_MIME@ == "text/plain;charset=utf-8"@,
{
}

/// How a message lies in its bytes: 1 to 4 for its kind, the transfer's id in four bytes, then its
/// fields in order, each number with its lowest byte first, each text or payload behind its
/// length. A length that its field cannot hold is cut off at the top.
pub proof fn law_message_layout(msg: MsgView)
    ensures
        ({
            let b = encoded(msg);
            match msg {
                MsgView::Offer { transfer_id, mime, total_len } => {
                    let m = encode_utf8(mime);
                    let n = m.len() as int;
                    &&& b.len() == 15 + n
                    &&& b[0] == 1
                    &&& number_at(b, 1) == transfer_id
                    &&& b[5] + 0x100 * b[6] == n % 0x1_0000
                    &&& b.subrange(7, 7 + n) == m
                    &&& number_at(b, 7 + n) + 0x1_0000_0000 * number_at(b, 11 + n) == total_len
                },
                MsgView::Chunk { transfer_id, seq, payload } => {
                    &&& b.len() == 13 + payload.len()
                    &&& b[0] == 2
                    &&& number_at(b, 1) == transfer_id
                    &&& number_at(b, 5) == seq
                    &&& number_at(b, 9) == payload.len() % 0x1_0000_0000
                    &&& b.skip(13) == payload
                },
                MsgView::Complete { transfer_id } => {
                    &&& b.len() == 5
                    &&& b[0] == 3
                    &&& number_at(b, 1) == transfer_id
                },
                MsgView::Abort { transfer_id, reason } => {
                    &&& b.len() == 6
                    &&& b[0] == 4
                    &&& number_at(b, 1) == transfer_id
                    &&& b[5] == reason
                },
            }
        }),
{
    let b = encoded(msg);
    bytes::lemma_pow256_values();
    match msg {
        MsgView::Offer { transfer_id, mime, total_len } => {
            let m = encode_utf8(mime);
            let n = m.len() as int;
            bytes::law_fields_are_little_endian(transfer_id as nat);
            bytes::law_fields_are_little_endian(m.len() % 0x1_0000);
            bytes::law_fields_are_little_endian(total_len as nat);
            let t = bytes::le_bytes(transfer_id as nat, 4);
            let l = bytes::le_bytes(m.len() % 0x1_0000, 2);
            let e = bytes::le_bytes(total_len as nat, 8);
            assert(b =~= seq![TYPE_OFFER] + t + l + m + e);
            assert(forall|i: int| 0 <= i < 8 ==> #[trigger] b[7 + n + i] == e[i]);
            assert(b[7 + n + 0] == e[0] && b[7 + n + 1] == e[1] && b[7 + n + 2] == e[2] && b[7 + n
                + 3] == e[3] && b[7 + n + 4] == e[4] && b[7 + n + 5] == e[5] && b[7 + n + 6] == e[6]
                && b[7 + n + 7] == e[7]);
            assert(b.subrange(7, 7 + n) =~= m);
        },
        MsgView::Chunk { transfer_id, seq, payload } => {
            bytes::law_fields_are_little_endian(transfer_id as nat);
            bytes::law_fields_are_little_endian(seq as nat);
            bytes::law_fields_are_little_endian(payload.len() % 0x1_0000_0000);
            assert(b.skip(13) =~= payload);
        },
        MsgView::Complete { transfer_id } => {
            bytes::law_fields_are_little_endian(transfer_id as nat);
        },
        MsgView::Abort { transfer_id, reason } => {
            bytes::law_fields_are_little_endian(transfer_id as nat);
        },
    }
}

/// The number in the four bytes at a place, the lowest first.
pub open spec fn number_at(b: Seq<u8>, at: int) -> int {
    b[at] + 0x100 * b[at + 1] + 0x1_0000 * b[at + 2] + 0x100_0000 * b[at + 3]
}

/// Bytes are no message for one of four reasons, each named: the kind is none of the four; a MIME
/// type that is all there is not UTF-8; a payload's length is more than memory can hold; or else
/// the bytes end too early, that is before the fields and lengths in them are at an end.
pub proof fn law_refusals_of_bytes(b: Seq<u8>)
    ensures
        decoded(b) matches Err(e) ==> ({
            ||| e == ErrorView::Decode("unknown message type"@) && b.len() > 0 && !(1 <= b[0] <= 4)
            ||| e == ErrorView::Decode("mime not utf-8"@) && b.len() >= 7 && b[0] == 1 && ({
                let n = b[5] + 0x100 * b[6];
                b.len() >= 7 + n && !valid_utf8(b.subrange(7, 7 + n))
            })
            ||| e == ErrorView::Decode("offset overflow"@) && b.len() >= 13 && b[0] == 2 && 13
                + number_at(b, 9) > usize::MAX
            ||| e == ErrorView::Decode("truncated"@) && (b.len() == 0 || (b[0] == 1 && (b.len() < 7
                || b.len() < 15 + b[5] + 0x100 * b[6])) || (b[0] == 2 && (b.len() < 13 || b.len()
                < 13 + number_at(b, 9))) || (b[0] == 3 && b.len() < 5) || (b[0] == 4 && b.len()
                < 6))
        }),
        b.len() > 0 && !(1 <= b[0] <= 4) ==> decoded(b) == Err::<MsgView, ErrorView>(
            ErrorView::Decode("unknown message type"@),
        ),
        b.len() >= 7 && b[0] == 1 && b.len() >= 7 + b[5] + 0x100 * b[6] && !valid_utf8(
            b.subrange(7, 7 + b[5] + 0x100 * b[6]),
        ) ==> decoded(b) == Err::<MsgView, ErrorView>(ErrorView::Decode("mime not utf-8"@)),
        b.len() >= 13 && b[0] == 2 && 13 + number_at(b, 9) > usize::MAX ==> decoded(b) == Err::<
            MsgView,
            ErrorView,
        >(ErrorView::Decode("offset overflow"@)),
{
    if b.len() >= 7 {
        bytes::law_fields_read_little_endian(b.subrange(5, 7));
    }
    if b.len() >= 13 {
        bytes::law_fields_read_little_endian(b.subrange(9, 13));
    }
}

} // verus!
