//! Frames on a byte stream: a two-byte big-endian length, then that many bytes.
//!
//! Reading is driven by what has arrived so far: either more bytes are needed, and how many, or
//! the frame is there, or its length is one that is not allowed.

use vstd::prelude::*;
use crate::bytes;
use crate::clipboard::{ClipboardError, ErrorView, MAX_FRAME_LEN, MAX_HANDSHAKE_MSG};

verus! {

/// What the bytes of a frame that have arrived amount to.
#[derive(Debug)]
pub enum FrameRead {
    /// At least this many bytes are missing.
    Need(usize),
    /// The frame is complete: its content.
    Frame(Vec<u8>),
}

/// A [`FrameRead`] as contracts speak of it.
pub enum FrameView {
    Need(nat),
    Frame(Seq<u8>),
}

impl View for FrameRead {
    type V = FrameView;

    open spec fn view(&self) -> FrameView {
        match *self {
            FrameRead::Need(n) => FrameView::Need(n as nat),
            FrameRead::Frame(data) => FrameView::Frame(data@),
        }
    }
}

/// The frame around some bytes.
pub open spec fn framed(data: Seq<u8>) -> Seq<u8> {
    bytes::be16(data.len() as u16) + data
}

/// The length that a frame announces in its first two bytes.
pub open spec fn announced(received: Seq<u8>) -> nat {
    (received[0] * 256 + received[1]) as nat
}

/// What received bytes amount to, where a frame announces a length of 1 to `most` and any other
/// is `bad`.
pub open spec fn frame_read(received: Seq<u8>, most: nat, bad: ErrorView) -> Result<
    FrameView,
    ErrorView,
> {
    let end = 2 + announced(received);
    if received.len() < 2 {
        Ok(FrameView::Need((2 - received.len()) as nat))
    } else if announced(received) == 0 || announced(received) > most {
        Err(bad)
    } else if received.len() < end {
        Ok(FrameView::Need((end - received.len()) as nat))
    } else {
        Ok(FrameView::Frame(received.subrange(2, end as int)))
    }
}

/// What received bytes amount to as a frame of the handshake.
pub open spec fn handshake_frame(received: Seq<u8>) -> Result<FrameView, ErrorView> {
    frame_read(
        received,
        MAX_HANDSHAKE_MSG as nat,
        ErrorView::Decode("invalid frame length"@),
    )
}

/// What received bytes amount to as a frame of the session.
pub open spec fn session_frame(received: Seq<u8>) -> Result<FrameView, ErrorView> {
    frame_read(received, MAX_FRAME_LEN as nat, ErrorView::Protocol("empty frame"@))
}

fn read_up_to(received: &[u8], most: usize, bad: ClipboardError) -> (r: Result<
    FrameRead,
    ClipboardError,
>)
    ensures
        match r {
            Ok(f) => frame_read(received@, most as nat, bad@) == Ok::<FrameView, ErrorView>(f@),
            Err(e) => frame_read(received@, most as nat, bad@) == Err::<FrameView, ErrorView>(e@),
        },
{
    if received.len() < 2 {
        return Ok(FrameRead::Need(2 - received.len()));
    }
    let len: usize = bytes::u16_from_be(received[0], received[1]) as usize;
    if len == 0 || len > most {
        return Err(bad);
    }
    let end: usize = 2 + len;
    if received.len() < end {
        return Ok(FrameRead::Need(end - received.len()));
    }
    Ok(FrameRead::Frame(vstd::slice::slice_to_vec(vstd::slice::slice_subrange(received, 2, end))))
}

/// The bytes of a handshake message on the wire. An empty message, or one that is too long, is
/// `Oversize`.
pub fn write_frame(data: &[u8]) -> (r: Result<Vec<u8>, ClipboardError>)
    ensures
        match r {
            Ok(out) => 1 <= data@.len() <= MAX_HANDSHAKE_MSG && out@ == framed(data@),
            Err(e) => !(1 <= data@.len() <= MAX_HANDSHAKE_MSG) && e@ == ErrorView::Oversize,
        },
{
    if data.len() == 0 || data.len() > MAX_HANDSHAKE_MSG {
        return Err(ClipboardError::Oversize);
    }
    Ok(frame_of(data))
}

/// The frame around some bytes.
pub(crate) fn frame_of(data: &[u8]) -> (out: Vec<u8>)
    requires
        data@.len() <= MAX_FRAME_LEN,
    ensures
        out@ == framed(data@),
{
    let mut out: Vec<u8> = Vec::new();
    bytes::push_u16_be(&mut out, data.len() as u16);
    bytes::push_all(&mut out, data);
    out
}

/// Reads a handshake message from the bytes that have arrived.
pub fn read_frame(received: &[u8]) -> (r: Result<FrameRead, ClipboardError>)
    ensures
        match r {
            Ok(f) => handshake_frame(received@) == Ok::<FrameView, ErrorView>(f@),
            Err(e) => handshake_frame(received@) == Err::<FrameView, ErrorView>(e@),
        },
{
    read_up_to(received, MAX_HANDSHAKE_MSG, ClipboardError::Decode("invalid frame length"))
}

/// Reads a sealed message of the session from the bytes that have arrived.
pub fn read_sealed(received: &[u8]) -> (r: Result<FrameRead, ClipboardError>)
    ensures
        match r {
            Ok(f) => session_frame(received@) == Ok::<FrameView, ErrorView>(f@),
            Err(e) => session_frame(received@) == Err::<FrameView, ErrorView>(e@),
        },
{
    read_up_to(received, MAX_FRAME_LEN, ClipboardError::Protocol("empty frame"))
}

/// A whole frame is read back as what was put in it, whatever follows it.
pub proof fn law_frame_is_read_back(data: Seq<u8>, tail: Seq<u8>, most: nat, bad: ErrorView)
    requires
        1 <= data.len() <= most <= MAX_FRAME_LEN,
    ensures
        frame_read(framed(data) + tail, most, bad) == Ok::<FrameView, ErrorView>(
            FrameView::Frame(data),
        ),
{
    lemma_announced(data);
    let all = framed(data) + tail;
    assert(all[0] == framed(data)[0] && all[1] == framed(data)[1]);
    assert(all.subrange(2, (2 + data.len()) as int) =~= data);
}

/// A frame that has arrived in part asks for more, and never for more than is still to come: a
/// reader that waits for what is asked for reads the frame and not a byte beyond it.
pub proof fn law_partial_frame_asks_for_the_rest(data: Seq<u8>, k: int, most: nat, bad: ErrorView)
    requires
        1 <= data.len() <= most <= MAX_FRAME_LEN,
        0 <= k < framed(data).len(),
    ensures
        frame_read(framed(data).subrange(0, k), most, bad) matches Ok(FrameView::Need(n)) && 0 < n
            <= framed(data).len() - k,
{
    lemma_announced(data);
    let part = framed(data).subrange(0, k);
    if k >= 2 {
        assert(part[0] == framed(data)[0] && part[1] == framed(data)[1]);
    }
}

proof fn lemma_announced(data: Seq<u8>)
    requires
        data.len() <= MAX_FRAME_LEN,
    ensures
        announced(framed(data)) == data.len(),
        framed(data).len() == 2 + data.len(),
{
}

/// A frame is its content behind two bytes, which are its length with the higher byte first.
pub proof fn law_frame_layout(data: Seq<u8>)
    requires
        data.len() <= 0xffff,
    ensures
        framed(data).len() == data.len() + 2,
        0x100 * framed(data)[0] + framed(data)[1] == data.len(),
        framed(data).skip(2) == data,
{
    assert(framed(data).skip(2) =~= data);
}

/// What received bytes amount to is decided by the length in their first two: with fewer than two
/// the rest of the two is needed; a length of 0, or above the limit, is refused at once; before
/// that many bytes have followed the rest is needed; then the frame is there.
pub proof fn law_frame_read_is_decided(received: Seq<u8>, most: nat, bad: ErrorView)
    ensures
        received.len() == 0 ==> frame_read(received, most, bad) == Ok::<FrameView, ErrorView>(
            FrameView::Need(2),
        ),
        received.len() == 1 ==> frame_read(received, most, bad) == Ok::<FrameView, ErrorView>(
            FrameView::Need(1),
        ),
        received.len() >= 2 ==> ({
            let n = 0x100 * received[0] + received[1];
            if n == 0 || n > most {
                frame_read(received, most, bad) == Err::<FrameView, ErrorView>(bad)
            } else if received.len() - 2 < n {
                frame_read(received, most, bad) == Ok::<FrameView, ErrorView>(
                    FrameView::Need((n - (received.len() - 2)) as nat),
                )
            } else {
                frame_read(received, most, bad) == Ok::<FrameView, ErrorView>(
                    FrameView::Frame(received.skip(2).take(n)),
                )
            }
        }),
{
    if received.len() >= 2 {
        let n = 0x100 * received[0] + received[1];
        if n <= received.len() - 2 {
            assert(received.subrange(2, 2 + n) =~= received.skip(2).take(n));
        }
    }
}

/// A handshake message has 1 to 1024 bytes, a sealed one up to 65535; any other length is refused,
/// each in its own words. Within its limit each is read as any frame is.
pub proof fn law_frame_limits(received: Seq<u8>, bad: ErrorView)
    ensures
        received.len() < 2 ==> handshake_frame(received) == frame_read(received, 1024, bad)
            && session_frame(received) == frame_read(received, 0xffff, bad),
        received.len() >= 2 ==> ({
            let n = 0x100 * received[0] + received[1];
            &&& handshake_frame(received) is Err <==> n == 0 || n > 1024
            &&& handshake_frame(received) matches Err(e) ==> e == ErrorView::Decode(
                "invalid frame length"@,
            )
            &&& session_frame(received) is Err <==> n == 0
            &&& session_frame(received) matches Err(e) ==> e == ErrorView::Protocol("empty frame"@)
            &&& handshake_frame(received) is Ok ==> handshake_frame(received) == frame_read(
                received,
                1024,
                bad,
            )
            &&& session_frame(received) is Ok ==> session_frame(received) == frame_read(
                received,
                0xffff,
                bad,
            )
        }),
{
}

} // verus!
