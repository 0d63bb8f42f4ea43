//! The clipboard channel: messages sealed by a Noise session, in frames on a byte stream.
//!
//! The channel holds the session and no socket. Sending gives the bytes to put on the stream;
//! receiving takes the bytes that have arrived. The stream is ordered and reliable, so there is
//! no replay window here.

use vstd::prelude::*;
use crate::clipboard;
use crate::clipboard::{ClipboardError, ClipboardMsg, ErrorView, MsgView};
use crate::frame;
use crate::frame::FrameRead;
use crate::frame::FrameView;
use crate::noise;
use crate::noise::{MAX_NOISE_MSG, TAG_LEN};

verus! {

/// What the bytes that have arrived amount to.
#[derive(Debug)]
pub enum Received {
    /// At least this many bytes are missing.
    Need(usize),
    /// A message.
    Msg(ClipboardMsg),
}

/// A [`Received`] as contracts speak of it.
pub enum ReceivedView {
    Need(nat),
    Msg(MsgView),
}

impl View for Received {
    type V = ReceivedView;

    open spec fn view(&self) -> ReceivedView {
        match *self {
            Received::Need(n) => ReceivedView::Need(n as nat),
            Received::Msg(msg) => ReceivedView::Msg(msg@),
        }
    }
}

/// The sealed message that a frame of the session holds, if it is whole.
pub open spec fn whole_frame(received: Seq<u8>) -> Option<Seq<u8>> {
    match frame::session_frame(received) {
        Ok(FrameView::Frame(ciphertext)) => Some(ciphertext),
        _ => None,
    }
}

/// What received bytes amount to at this end of the session.
pub open spec fn arrival(t: snow::TransportState, received: Seq<u8>) -> Result<
    ReceivedView,
    ErrorView,
> {
    match frame::session_frame(received) {
        Err(e) => Err(e),
        Ok(FrameView::Need(n)) => Ok(ReceivedView::Need(n)),
        Ok(FrameView::Frame(ciphertext)) => match noise::readable(t, ciphertext) {
            None => Err(
                ErrorView::Crypto(noise::read_error(t, ciphertext, ciphertext.len())),
            ),
            Some(plaintext) => match clipboard::decoded(plaintext) {
                Ok(msg) => Ok(ReceivedView::Msg(msg)),
                Err(e) => Err(e),
            },
        },
    }
}

/// Whether received bytes hold a sealed message that this end opens. It then counts as read,
/// even where it does not decode.
pub open spec fn is_read(t: snow::TransportState, received: Seq<u8>) -> bool {
    whole_frame(received) matches Some(ciphertext) && noise::readable(t, ciphertext) is Some
}

/// The room made for sealing a plaintext of `n` bytes: that and the tag, as far as memory can hold.
pub open spec fn sealed_room(n: nat) -> nat {
    if n + TAG_LEN <= usize::MAX {
        n + TAG_LEN as nat
    } else {
        usize::MAX as nat
    }
}

/// Whether `wire` is the frame that carries `plaintext` from this end of the session.
pub open spec fn carries(t: snow::TransportState, wire: Seq<u8>, plaintext: Seq<u8>) -> bool {
    let ciphertext = noise::sealed(noise::tx_cipher(t), noise::tx_nonce(t), plaintext);
    wire == frame::framed(ciphertext) && ciphertext.len() == plaintext.len() + TAG_LEN
        && noise::opened(noise::tx_cipher(t), noise::tx_nonce(t), ciphertext) == Some(plaintext)
}

/// One end of a clipboard session.
pub struct NoiseIkTcpChannel {
    transport: snow::TransportState,
}

impl NoiseIkTcpChannel {
    /// The session.
    pub closed spec fn transport(&self) -> snow::TransportState {
        self.transport
    }

    /// A channel over an established session.
    pub fn new(transport: snow::TransportState) -> (r: Self)
        ensures
            r.transport() == transport,
    {
        NoiseIkTcpChannel { transport }
    }

    /// Encodes and seals a message: the bytes to put on the stream. The one error is that of the
    /// session, when the message is too long for it or its message numbers are used up.
    pub fn send_msg(&mut self, msg: &ClipboardMsg) -> (r: Result<Vec<u8>, ClipboardError>)
        ensures
            match r {
                Ok(wire) => noise::writable(
                    old(self).transport(),
                    clipboard::encoded(msg@).len(),
                ) && carries(old(self).transport(), wire@, clipboard::encoded(msg@))
                    && noise::moved(old(self).transport(), final(self).transport(), 1, 0),
                Err(e) => !noise::writable(
                    old(self).transport(),
                    clipboard::encoded(msg@).len(),
                ) && e@ == ErrorView::Crypto(
                    noise::write_error(
                        old(self).transport(),
                        clipboard::encoded(msg@),
                        sealed_room(clipboard::encoded(msg@).len()),
                    ),
                ) && noise::moved(
                    old(self).transport(),
                    final(self).transport(),
                    0,
                    0,
                ),
            },
    {
        let plaintext = msg.encode();
        let room: usize = plaintext.len().saturating_add(TAG_LEN);
        let mut ciphertext: Vec<u8> = vec![0u8; room];
        match noise::transport_write(
            &mut self.transport,
            plaintext.as_slice(),
            ciphertext.as_mut_slice(),
        ) {
            Ok(n) => {
                proof {
                    assert(ciphertext@.subrange(0, n as int) =~= ciphertext@);
                }
                Ok(frame::frame_of(ciphertext.as_slice()))
            },
            Err(e) => Err(ClipboardError::Crypto(e)),
        }
    }

    /// Takes the bytes that have arrived: asks for more, or opens and decodes the message in
    /// them.
    pub fn recv_msg(&mut self, received: &[u8]) -> (r: Result<Received, ClipboardError>)
        ensures
            match r {
                Ok(v) => arrival(old(self).transport(), received@) == Ok::<ReceivedView, ErrorView>(
                    v@,
                ),
                Err(e) => arrival(old(self).transport(), received@) == Err::<
                    ReceivedView,
                    ErrorView,
                >(e@),
            },
            noise::moved(
                old(self).transport(),
                final(self).transport(),
                0,
                if is_read(old(self).transport(), received@) {
                    1
                } else {
                    0
                },
            ),
    {
        let ciphertext = match frame::read_sealed(received) {
            Err(e) => return Err(e),
            Ok(FrameRead::Need(n)) => return Ok(Received::Need(n)),
            Ok(FrameRead::Frame(ciphertext)) => ciphertext,
        };
        let mut plaintext: Vec<u8> = vec![0u8; ciphertext.len()];
        match noise::transport_read(
            &mut self.transport,
            ciphertext.as_slice(),
            plaintext.as_mut_slice(),
        ) {
            Err(e) => Err(ClipboardError::Crypto(e)),
            Ok(n) => match ClipboardMsg::decode(
                vstd::slice::slice_subrange(plaintext.as_slice(), 0, n),
            ) {
                Ok(msg) => Ok(Received::Msg(msg)),
                Err(e) => Err(e),
            },
        }
    }
}

/// What one end sends, the other end receives: a message that its encoding can hold, in the frame
/// that carries it, whatever follows on the stream, arrives as that message.
pub proof fn law_message_arrives(
    a: snow::TransportState,
    b: snow::TransportState,
    wire: Seq<u8>,
    tail: Seq<u8>,
    msg: MsgView,
)
    requires
        noise::paired(a, b),
        clipboard::encodable(msg),
        noise::writable(a, clipboard::encoded(msg).len()),
    ensures
        carries(a, wire, clipboard::encoded(msg)) ==> arrival(b, wire + tail) == Ok::<
            ReceivedView,
            ErrorView,
        >(ReceivedView::Msg(msg)) && is_read(b, wire + tail),
{
    let plaintext = clipboard::encoded(msg);
    let ciphertext = noise::sealed(noise::tx_cipher(a), noise::tx_nonce(a), plaintext);
    if carries(a, wire, plaintext) {
        frame::law_frame_is_read_back(
            ciphertext,
            tail,
            clipboard::MAX_FRAME_LEN as nat,
            ErrorView::Protocol("empty frame"@),
        );
        clipboard::law_decode_inverts_encode(msg, Seq::empty());
        assert(plaintext + Seq::<u8>::empty() =~= plaintext);
    }
}

/// While only part of a frame has arrived nothing is read and nothing is lost: the channel asks
/// for more, and never for more than the rest of the frame.
pub proof fn law_part_of_a_message_waits(
    a: snow::TransportState,
    b: snow::TransportState,
    wire: Seq<u8>,
    plaintext: Seq<u8>,
    k: int,
)
    requires
        plaintext.len() + TAG_LEN <= MAX_NOISE_MSG,
        0 <= k < wire.len(),
    ensures
        carries(a, wire, plaintext) ==> !is_read(b, wire.subrange(0, k)) && (arrival(
            b,
            wire.subrange(0, k),
        ) matches Ok(ReceivedView::Need(n)) && 0 < n <= wire.len() - k),
{
    if carries(a, wire, plaintext) {
        frame::law_partial_frame_asks_for_the_rest(
            noise::sealed(noise::tx_cipher(a), noise::tx_nonce(a), plaintext),
            k,
            clipboard::MAX_FRAME_LEN as nat,
            ErrorView::Protocol("empty frame"@),
        );
    }
}

/// What is received was sealed: a message comes out only of a whole frame that this end opens, and
/// what the frame opens to begins with that message's encoding.
pub proof fn law_only_opened_messages_arrive(
    t: snow::TransportState,
    received: Seq<u8>,
    msg: MsgView,
)
    requires
        arrival(t, received) == Ok::<ReceivedView, ErrorView>(ReceivedView::Msg(msg)),
    ensures
        is_read(t, received),
        received.len() >= 2,
        ({
            let n = 0x100 * received[0] + received[1];
            &&& n <= received.len() - 2
            &&& noise::readable(t, received.skip(2).take(n)) matches Some(plaintext)
                && clipboard::encoded(msg).len() <= plaintext.len() && plaintext.take(
                clipboard::encoded(msg).len() as int,
            ) == clipboard::encoded(msg)
        }),
{
    frame::law_frame_read_is_decided(
        received,
        clipboard::MAX_FRAME_LEN as nat,
        ErrorView::Protocol("empty frame"@),
    );
    let n = 0x100 * received[0] + received[1];
    let plaintext = noise::readable(t, received.skip(2).take(n))->0;
    clipboard::law_encode_inverts_decode(plaintext);
    assert(plaintext.take(clipboard::encoded(msg).len() as int) =~= plaintext.subrange(
        0,
        clipboard::encoded(msg).len() as int,
    ));
}

/// What comes of received bytes is decided by the frame in them: more is needed, or its length is
/// refused, as for any frame; a whole one that does not open is an error of the session; one that
/// opens gives its message, or says why it is none.
pub proof fn law_arrival_is_decided(t: snow::TransportState, received: Seq<u8>)
    ensures
        match frame::session_frame(received) {
            Err(e) => arrival(t, received) == Err::<ReceivedView, ErrorView>(e) && !is_read(
                t,
                received,
            ),
            Ok(FrameView::Need(n)) => arrival(t, received) == Ok::<ReceivedView, ErrorView>(
                ReceivedView::Need(n),
            ) && !is_read(t, received),
            Ok(FrameView::Frame(c)) => {
                &&& is_read(t, received) <==> noise::readable(t, c) is Some
                &&& noise::readable(t, c) is None ==> arrival(t, received) == Err::<
                    ReceivedView,
                    ErrorView,
                >(ErrorView::Crypto(noise::read_error(t, c, c.len())))
                &&& noise::readable(t, c) matches Some(p) ==> (clipboard::decoded(p) matches Ok(m)
                    ==> arrival(t, received) == Ok::<ReceivedView, ErrorView>(ReceivedView::Msg(m)))
                &&& noise::readable(t, c) matches Some(p) ==> (clipboard::decoded(p) matches Err(e)
                    ==> arrival(t, received) == Err::<ReceivedView, ErrorView>(e))
            },
        },
{
}

/// A frame that carries a plaintext holds, behind its length, what sealing it gives and nothing
/// else.
pub proof fn law_frame_holds_the_sealed_text(
    t: snow::TransportState,
    wire: Seq<u8>,
    plaintext: Seq<u8>,
)
    requires
        plaintext.len() + TAG_LEN <= MAX_NOISE_MSG,
    ensures
        carries(t, wire, plaintext) ==> wire.len() == 2 + plaintext.len() + 16 && 0x100 * wire[0]
            + wire[1] == plaintext.len() + 16 && wire.skip(2) == noise::sealed(
            noise::tx_cipher(t),
            noise::tx_nonce(t),
            plaintext,
        ),
{
    if carries(t, wire, plaintext) {
        frame::law_frame_layout(
            noise::sealed(noise::tx_cipher(t), noise::tx_nonce(t), plaintext),
        );
    }
}

} // verus!
