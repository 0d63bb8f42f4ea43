//! The fast path: motion packets sealed by a Noise session, one to a datagram.
//!
//! A datagram opens only in its turn, since both ends of the session count messages, and a packet
//! that opens must also pass a replay window over its own sequence number. The channel holds the
//! session and the window, and no socket; a packet passes through it without heap allocation.

use vstd::prelude::*;
use crate::anti_replay::{AntiReplayWindow, ReplayView};
use crate::bytes;
use crate::noise;
use crate::noise::TAG_LEN;
use crate::protocol;
use crate::protocol::{PacketTag, RelMotionPacket, REL_MOTION_SIZE};

verus! {

/// Room for the plaintext of a datagram.
pub const PLAINTEXT_BUFFER: usize = 128;

/// Length of a sealed motion packet.
pub const SEALED_MOTION_SIZE: usize = 32;

/// What can go wrong on the fast path, apart from the network itself.
#[derive(Debug)]
pub enum ChannelError {
    /// The Noise layer refused.
    Noise(snow::Error),
    /// The datagram opens, but holds no motion packet.
    InvalidPacket,
    /// The packet's sequence number was seen before or is too old.
    ReplayDetected(u32),
}

/// A [`ChannelError`] as contracts speak of it.
pub enum ChannelErrorView {
    Noise(snow::Error),
    InvalidPacket,
    ReplayDetected(u32),
}

impl View for ChannelError {
    type V = ChannelErrorView;

    open spec fn view(&self) -> ChannelErrorView {
        match self {
            ChannelError::Noise(e) => ChannelErrorView::Noise(*e),
            ChannelError::InvalidPacket => ChannelErrorView::InvalidPacket,
            ChannelError::ReplayDetected(seq) => ChannelErrorView::ReplayDetected(*seq),
        }
    }
}

/// Whether the plaintext starts with the bytes of `p`, a motion packet.
pub open spec fn holds(plaintext: Seq<u8>, p: RelMotionPacket) -> bool {
    p.tag == PacketTag::RelMotion && plaintext.len() >= REL_MOTION_SIZE
        && protocol::packet_bytes(p) == plaintext.subrange(0, REL_MOTION_SIZE as int)
}

/// Whether the plaintext starts with a motion packet.
pub open spec fn holds_motion(plaintext: Seq<u8>) -> bool {
    plaintext.len() >= REL_MOTION_SIZE && plaintext[0] == PacketTag::RelMotion.byte()
}

/// The outcome that a plaintext has against a replay window, and the window afterwards.
pub open spec fn judged(
    before: ReplayView,
    plaintext: Seq<u8>,
    r: Result<RelMotionPacket, ChannelErrorView>,
    after: ReplayView,
) -> bool {
    match r {
        Ok(p) => holds(plaintext, p) && before.admits(p.sequence as u64) && after == before.asked(
            p.sequence as u64,
        ),
        Err(ChannelErrorView::InvalidPacket) => !holds_motion(plaintext) && after == before,
        Err(ChannelErrorView::ReplayDetected(seq)) => !before.admits(seq as u64) && after
            == before.asked(seq as u64) && exists|p: RelMotionPacket|
            holds(plaintext, p) && #[trigger] p.sequence == seq,
        Err(ChannelErrorView::Noise(_)) => false,
    }
}

/// An outcome in which every error is as contracts speak of it.
pub open spec fn outcome(r: Result<RelMotionPacket, ChannelError>) -> Result<
    RelMotionPacket,
    ChannelErrorView,
> {
    match r {
        Ok(p) => Ok(p),
        Err(e) => Err(e@),
    }
}

/// Reads a motion packet from an opened datagram and asks the replay window for it.
pub fn judge(window: &mut AntiReplayWindow, plaintext: &[u8]) -> (r: Result<
    RelMotionPacket,
    ChannelError,
>)
    ensures
        judged(old(window)@, plaintext@, outcome(r), final(window)@),
        r is Err ==> *final(window) == *old(window),
{
    let pkt = match RelMotionPacket::from_bytes(plaintext) {
        Some(pkt) => pkt,
        None => return Err(ChannelError::InvalidPacket),
    };
    let seq: u32 = pkt.sequence();
    if !window.validate_and_update(seq as u64) {
        assert(holds(plaintext@, pkt) && pkt.sequence == seq);
        return Err(ChannelError::ReplayDetected(seq));
    }
    Ok(pkt)
}

/// One end of the fast path.
pub struct NoiseIkUdpChannel {
    transport: snow::TransportState,
    anti_replay: AntiReplayWindow,
}

impl NoiseIkUdpChannel {
    /// The session.
    pub closed spec fn transport(&self) -> snow::TransportState {
        self.transport
    }

    /// The replay window.
    pub closed spec fn window(&self) -> AntiReplayWindow {
        self.anti_replay
    }

    /// A channel over an established session, with an empty replay window.
    pub fn new(transport: snow::TransportState) -> (r: Self)
        ensures
            r.transport() == transport,
            r.window()@ == ReplayView::fresh(),
    {
        NoiseIkUdpChannel { transport, anti_replay: AntiReplayWindow::new() }
    }

    /// Seals a motion packet: the datagram to send. The one error is that of the session, when
    /// its message numbers are used up.
    pub fn send_rel_motion(&mut self, pkt: &RelMotionPacket) -> (r: Result<
        [u8; SEALED_MOTION_SIZE],
        ChannelError,
    >)
        ensures
            final(self).window() == old(self).window(),
            match r {
                Ok(datagram) => noise::writable(old(self).transport(), REL_MOTION_SIZE as nat)
                    && datagram@ == noise::sealed(
                    noise::tx_cipher(old(self).transport()),
                    noise::tx_nonce(old(self).transport()),
                    protocol::packet_bytes(*pkt),
                ) && noise::opened(
                    noise::tx_cipher(old(self).transport()),
                    noise::tx_nonce(old(self).transport()),
                    datagram@,
                ) == Some(protocol::packet_bytes(*pkt)) && noise::moved(
                    old(self).transport(),
                    final(self).transport(),
                    1,
                    0,
                ),
                Err(e) => !noise::writable(old(self).transport(), REL_MOTION_SIZE as nat) && e@
                    == ChannelErrorView::Noise(
                    noise::write_error(
                        old(self).transport(),
                        protocol::packet_bytes(*pkt),
                        SEALED_MOTION_SIZE as nat,
                    ),
                ) && noise::moved(
                    old(self).transport(),
                    final(self).transport(),
                    0,
                    0,
                ),
            },
    {
        let raw = pkt.as_bytes();
        let mut datagram: [u8; SEALED_MOTION_SIZE] = [0u8; SEALED_MOTION_SIZE];
        match noise::transport_write(&mut self.transport, &raw, &mut datagram) {
            Ok(n) => {
                assert(datagram@.subrange(0, n as int) =~= datagram@);
                Ok(datagram)
            },
            Err(e) => Err(ChannelError::Noise(e)),
        }
    }

    /// Opens a datagram and asks the replay window for the packet in it. A datagram that opens
    /// counts as read, whatever comes of the packet; one that does not changes nothing.
    pub fn recv_and_verify(&mut self, datagram: &[u8]) -> (r: Result<RelMotionPacket, ChannelError>)
        ensures
            match noise::readable(old(self).transport(), datagram@) {
                Some(plaintext) if plaintext.len() <= PLAINTEXT_BUFFER => plaintext.len() + TAG_LEN
                    == datagram@.len() && judged(
                    old(self).window()@,
                    plaintext,
                    outcome(r),
                    final(self).window()@,
                ) && (r is Err ==> final(self).window() == old(self).window()) && noise::moved(old(self).transport(), final(self).transport(), 0, 1),
                _ => outcome(r) == Err::<RelMotionPacket, ChannelErrorView>(
                    ChannelErrorView::Noise(
                        noise::read_error(
                            old(self).transport(),
                            datagram@,
                            PLAINTEXT_BUFFER as nat,
                        ),
                    ),
                ) && final(self).window() == old(self).window() && noise::moved(
                    old(self).transport(),
                    final(self).transport(),
                    0,
                    0,
                ),
            },
    {
        let mut plaintext: [u8; PLAINTEXT_BUFFER] = [0u8; PLAINTEXT_BUFFER];
        match noise::transport_read(&mut self.transport, datagram, &mut plaintext) {
            Ok(n) => judge(
                &mut self.anti_replay,
                vstd::slice::slice_subrange(&plaintext, 0, n),
            ),
            Err(e) => Err(ChannelError::Noise(e)),
        }
    }

    /// The replay window, to look at or to change.
    pub fn anti_replay_mut(&mut self) -> (r: &mut AntiReplayWindow)
        ensures
            *r == old(self).window(),
            final(self).window() == *final(r),
            final(self).transport() == old(self).transport(),
    {
        &mut self.anti_replay
    }
}

/// What one end sends, the other end receives: a motion packet whose number the window admits
/// arrives unchanged.
pub proof fn law_packet_arrives(
    a: snow::TransportState,
    b: snow::TransportState,
    datagram: Seq<u8>,
    pkt: RelMotionPacket,
    before: ReplayView,
    after: ReplayView,
    r: Result<RelMotionPacket, ChannelErrorView>,
)
    requires
        noise::paired(a, b),
        noise::writable(a, REL_MOTION_SIZE as nat),
        datagram.len() == SEALED_MOTION_SIZE,
        pkt.tag == PacketTag::RelMotion,
    ensures
        noise::opened(noise::tx_cipher(a), noise::tx_nonce(a), datagram) == Some(
            protocol::packet_bytes(pkt),
        ) ==> {
            &&& noise::readable(b, datagram) == Some(protocol::packet_bytes(pkt))
            &&& judged(before, protocol::packet_bytes(pkt), r, after) ==> r == (if before.admits(
                pkt.sequence as u64,
            ) {
                Ok::<RelMotionPacket, ChannelErrorView>(pkt)
            } else {
                Err::<RelMotionPacket, ChannelErrorView>(
                    ChannelErrorView::ReplayDetected(pkt.sequence),
                )
            })
        },
{
    let raw = protocol::packet_bytes(pkt);
    protocol::lemma_packet_len(pkt);
    assert(raw.subrange(0, REL_MOTION_SIZE as int) =~= raw);
    assert forall|p: RelMotionPacket| holds(raw, p) implies p == pkt by {
        protocol::law_packet_bytes_are_injective(p, pkt);
    }
    assert(raw[0] == pkt.tag.byte());
}

/// What comes of an opened datagram is decided by its bytes and the window: it is invalid exactly
/// if it is too short or has another tag; otherwise the packet in it is taken exactly if the
/// window admits its sequence number, and is a replay if not. The window changes only when a
/// packet is taken.
pub proof fn law_outcome_is_decided(
    before: ReplayView,
    plaintext: Seq<u8>,
    r: Result<RelMotionPacket, ChannelErrorView>,
    after: ReplayView,
)
    requires
        judged(before, plaintext, r, after),
    ensures
        r == Err::<RelMotionPacket, ChannelErrorView>(ChannelErrorView::InvalidPacket)
            <==> plaintext.len() < REL_MOTION_SIZE || plaintext[0] != PacketTag::RelMotion.byte(),
        holds_motion(plaintext) ==> ({
            let seq = bytes::le_value(plaintext.subrange(2, 6)) as u32;
            if before.admits(seq as u64) {
                r matches Ok(p) && p.sequence == seq && protocol::packet_bytes(p)
                    == plaintext.subrange(0, REL_MOTION_SIZE as int)
            } else {
                r == Err::<RelMotionPacket, ChannelErrorView>(ChannelErrorView::ReplayDetected(seq))
            }
        }),
        r is Err ==> after == before,
{
    assert forall|p: RelMotionPacket| #[trigger] holds(plaintext, p) implies plaintext[0]
        == p.tag.byte() && bytes::le_value(plaintext.subrange(2, 6)) == p.sequence by {
        protocol::lemma_fields_back(p);
        let raw = protocol::packet_bytes(p);
        assert(raw[0] == plaintext[0]);
        assert(raw.subrange(2, 6) =~= plaintext.subrange(2, 6));
    }
}

/// Whether a channel's window goes through `windows`, one step for each opened datagram.
pub open spec fn is_run(
    windows: Seq<ReplayView>,
    plaintexts: Seq<Seq<u8>>,
    results: Seq<Result<RelMotionPacket, ChannelErrorView>>,
) -> bool {
    &&& results.len() == plaintexts.len()
    &&& windows.len() == plaintexts.len() + 1
    &&& forall|k: int|
        0 <= k < plaintexts.len() ==> #[trigger] judged(
            windows[k],
            plaintexts[k],
            results[k],
            windows[k + 1],
        )
}

/// No replay: of all the packets that a channel takes, no two have the same sequence number,
/// whatever else arrives in between.
pub proof fn law_no_packet_is_taken_twice(
    windows: Seq<ReplayView>,
    plaintexts: Seq<Seq<u8>>,
    results: Seq<Result<RelMotionPacket, ChannelErrorView>>,
    i: int,
    j: int,
)
    requires
        is_run(windows, plaintexts, results),
        0 <= i < j < results.len(),
    ensures
        results[i] matches Ok(p) ==> results[j] matches Ok(q) ==> p.sequence != q.sequence,
{
    assert(judged(windows[i], plaintexts[i], results[i], windows[i + 1]));
    assert(judged(windows[j], plaintexts[j], results[j], windows[j + 1]));
    if let Ok(p) = results[i] {
        lemma_stays_shut(windows, plaintexts, results, p.sequence as u64, i + 1, j);
    }
}

/// A number that the window has shut out stays shut out.
proof fn lemma_stays_shut(
    windows: Seq<ReplayView>,
    plaintexts: Seq<Seq<u8>>,
    results: Seq<Result<RelMotionPacket, ChannelErrorView>>,
    seq: u64,
    i: int,
    j: int,
)
    requires
        is_run(windows, plaintexts, results),
        0 <= i <= j < windows.len(),
        !windows[i].admits(seq),
        seq <= windows[i].last,
    ensures
        !windows[j].admits(seq),
        seq <= windows[j].last,
    decreases j - i,
{
    if i < j {
        lemma_stays_shut(windows, plaintexts, results, seq, i, j - 1);
        assert(judged(windows[j - 1], plaintexts[j - 1], results[j - 1], windows[j - 1 + 1]));
    }
}

/// The sequence number of a packet is in the third to the sixth of its bytes, the lowest first: an
/// opened datagram with the tag of a motion packet is taken exactly if the window admits it.
pub proof fn law_taken_by_its_number(
    before: ReplayView,
    plaintext: Seq<u8>,
    r: Result<RelMotionPacket, ChannelErrorView>,
    after: ReplayView,
)
    requires
        judged(before, plaintext, r, after),
        plaintext.len() >= 16,
        plaintext[0] == 0x10,
    ensures
        ({
            let seq = plaintext[2] + 0x100 * plaintext[3] + 0x1_0000 * plaintext[4] + 0x100_0000
                * plaintext[5];
            &&& r is Ok <==> before.admits(seq as u64)
            &&& r matches Ok(p) ==> p.sequence == seq && after == before.asked(seq as u64)
            &&& r matches Err(e) ==> e == ChannelErrorView::ReplayDetected(seq as u32) && after
                == before
        }),
{
    law_outcome_is_decided(before, plaintext, r, after);
    bytes::law_fields_read_little_endian(plaintext.subrange(2, 6));
}

/// A sealed motion packet has 32 bytes, and at most 128 bytes of a datagram are opened.
pub proof fn law_datagram_limits()
    ensures
        SEALED_MOTION_SIZE == REL_MOTION_SIZE + TAG_LEN,
        REL_MOTION_SIZE == 16,
        PLAINTEXT_BUFFER == 128,
{
}

} // verus!
