//! The Noise_IK handshake of the clipboard service, both ends of it.
//!
//! The connecting end knows the other's key beforehand and writes the first message. The serving
//! end learns the connecting end's key from that message and answers only a key that is on its
//! list: to any other it stays silent. Neither end holds a socket; messages go in and out as
//! bytes.

use vstd::prelude::*;
use vstd::string::*;
use crate::allowlist::AllowList;
use crate::channel::NoiseIkTcpChannel;
use crate::clipboard::{ClipboardError, ErrorView, MAX_HANDSHAKE_MSG};
use crate::frame;
use crate::hex;
use crate::noise;
use crate::noise::{FIRST_HANDSHAKE_LEN, KEY_LEN, NOISE_PARAMS, SECOND_HANDSHAKE_LEN};

verus! {

/// Room for a handshake message, and for a payload, at the connecting end.
pub const INITIATOR_BUFFER: usize = 256;

/// Whether the handshake is that of a connecting end that has written nothing yet.
pub open spec fn is_ready(h: snow::HandshakeState) -> bool {
    noise::is_ours(h) && noise::hs_initiator(h) && noise::hs_turn(h) && noise::hs_left(h) == 2
}

/// Whether the handshake is that of a connecting end that waits for the answer.
pub open spec fn is_waiting(h: snow::HandshakeState) -> bool {
    noise::is_ours(h) && noise::hs_initiator(h) && !noise::hs_turn(h) && noise::hs_left(h) == 1
}

/// Whether the handshake is that of a serving end that has read nothing yet.
pub open spec fn is_listening(h: snow::HandshakeState) -> bool {
    noise::is_ours(h) && !noise::hs_initiator(h) && !noise::hs_turn(h) && noise::hs_left(h) == 2
}

/// Whether writing `message` takes a connecting end from `before` to `after`: its keys stay what
/// they were, and the serving end that it seeks reads the message.
pub open spec fn starts(
    before: snow::HandshakeState,
    after: snow::HandshakeState,
    message: Seq<u8>,
) -> bool {
    &&& is_waiting(after)
    &&& noise::same_setup(before, after)
    &&& noise::hs_remote(after) == noise::hs_remote(before)
    &&& message.len() == FIRST_HANDSHAKE_LEN
    &&& forall|b: snow::HandshakeState| #[trigger]
        noise::is_sought(b, before) ==> noise::first_arrives(message, after, b)
}

/// Whether a connecting end in state `h` takes `message` for the answer.
pub open spec fn takes_answer(h: snow::HandshakeState, message: Seq<u8>) -> bool {
    noise::hs_opens(h, message) matches Some(payload) && payload.len() <= INITIATOR_BUFFER
}

/// Whether `t` is the session that a connecting end in state `h` enters with `answer`: it goes on
/// from the handshake, with the other end's key as known before, and carries messages both ways.
pub open spec fn enters(
    h: snow::HandshakeState,
    answer: Seq<u8>,
    t: snow::TransportState,
) -> bool {
    &&& noise::hs_initiator(noise::hs_read(h, answer))
    &&& noise::continues(t, noise::hs_read(h, answer))
    &&& noise::remote_of(t) == noise::hs_remote(h)
    &&& noise::can_write(t)
    &&& noise::can_read(t)
}

/// What a serving end makes of a first message.
pub enum Verdict {
    /// It is no message for this end.
    Unreadable,
    /// It comes from a key that is not on the list.
    Refuse(Seq<u8>),
    /// It comes from a key that is on the list.
    Admit(Seq<u8>),
}

/// What the serving end in state `h` makes of a first message, with the keys in `allowed` on its
/// list.
pub open spec fn verdict(
    h: snow::HandshakeState,
    message: Seq<u8>,
    allowed: Set<Seq<char>>,
) -> Verdict {
    match (noise::hs_opens(h, message), noise::hs_remote(noise::hs_read(h, message))) {
        (Some(payload), Some(key)) => if payload.len() > MAX_HANDSHAKE_MSG {
            Verdict::Unreadable
        } else if allowed.contains(hex::hexed(key)) {
            Verdict::Admit(key)
        } else {
            Verdict::Refuse(key)
        },
        _ => Verdict::Unreadable,
    }
}

/// Whether `answer` and the session `t` are what a serving end in state `h` gives to a first
/// message: the session is with the key that the message came from, and a connecting end that is
/// in step reads the answer and arrives at the same ciphers.
pub open spec fn answers(
    h: snow::HandshakeState,
    message: Seq<u8>,
    answer: Seq<u8>,
    t: snow::TransportState,
) -> bool {
    &&& answer.len() == SECOND_HANDSHAKE_LEN
    &&& noise::tx_nonce(t) == 0
    &&& noise::rx_nonce(t) == 0
    &&& noise::can_write(t)
    &&& noise::can_read(t)
    &&& noise::remote_of(t) == noise::hs_remote(noise::hs_read(h, message))
    &&& forall|a: snow::HandshakeState| #[trigger]
        noise::hs_in_step(a, noise::hs_read(h, message)) ==> noise::hs_opens(a, answer) == Some(
            Seq::<u8>::empty(),
        ) && noise::hs_ciphers(noise::hs_read(a, answer)) == (
            noise::rx_cipher(t),
            noise::tx_cipher(t),
        )
}

/// The connecting end of a clipboard session.
pub struct NoiseIkTcpInitiator {
    addr: String,
    handshake: Option<snow::HandshakeState>,
}

impl NoiseIkTcpInitiator {
    /// The address to connect to.
    pub closed spec fn address(&self) -> Seq<char> {
        self.addr@
    }

    /// The handshake, until it is started.
    pub closed spec fn state(&self) -> Option<snow::HandshakeState> {
        self.handshake
    }

    /// Whether the handshake, if it is still there, is ready to start.
    pub open spec fn wf(&self) -> bool {
        self.state() matches Some(h) ==> is_ready(h)
    }

    /// Prepares a handshake with the end at `addr` that has the key `remote_public`. Nothing is
    /// sent yet.
    pub fn connect(addr: &str, local_private: &[u8], remote_public: &[u8]) -> (r: Result<
        Self,
        ClipboardError,
    >)
        ensures
            match r {
                Ok(i) => local_private@.len() == KEY_LEN && remote_public@.len() == KEY_LEN
                    && i.wf() && i.address() == addr@ && (i.state() matches Some(h)
                    && noise::hs_local(h) == local_private@ && noise::hs_remote(h) == Some(
                    remote_public@,
                )),
                Err(e) => if local_private@.len() != KEY_LEN {
                    e@ == ErrorView::Protocol("local private key must be 32 bytes"@)
                } else {
                    remote_public@.len() != KEY_LEN && e@ == ErrorView::Protocol(
                        "remote public key must be 32 bytes"@,
                    )
                },
            },
    {
        if local_private.len() != KEY_LEN {
            return Err(ClipboardError::Protocol("local private key must be 32 bytes"));
        }
        if remote_public.len() != KEY_LEN {
            return Err(ClipboardError::Protocol("remote public key must be 32 bytes"));
        }
        match noise::initiator(NOISE_PARAMS, local_private, remote_public) {
            Ok(h) => Ok(NoiseIkTcpInitiator { addr: addr.to_owned(), handshake: Some(h) }),
            Err(e) => Err(ClipboardError::Crypto(e)),
        }
    }

    /// The address to connect to.
    pub fn addr(&self) -> (r: &str)
        ensures
            r@ == self.address(),
    {
        self.addr.as_str()
    }

    /// Starts the handshake, which can be done once: the first message, framed for the stream,
    /// and what waits for the answer.
    pub fn handshake(&mut self) -> (r: Result<(PendingHandshake, Vec<u8>), ClipboardError>)
        requires
            old(self).wf(),
        ensures
            final(self).state() is None,
            final(self).address() == old(self).address(),
            match (old(self).state(), r) {
                (Some(h), Ok((pending, wire))) => wire@ == frame::framed(
                    wire@.subrange(2, wire@.len() as int),
                ) && starts(h, pending.state(), wire@.subrange(2, wire@.len() as int)),
                (None, Err(e)) => e@ == ErrorView::Protocol("initiator stream already taken"@),
                _ => false,
            },
    {
        let mut h = match self.handshake.take() {
            Some(h) => h,
            None => return Err(ClipboardError::Protocol("initiator stream already taken")),
        };
        let mut buf: [u8; INITIATOR_BUFFER] = [0u8; INITIATOR_BUFFER];
        match noise::handshake_write(&mut h, &mut buf) {
            Err(e) => Err(ClipboardError::Crypto(e)),
            Ok(n) => {
                let wire = match frame::write_frame(
                    vstd::slice::slice_subrange(&buf, 0, n),
                ) {
                    Ok(wire) => wire,
                    Err(e) => return Err(e),
                };
                proof {
                    assert(wire@.subrange(2, wire@.len() as int) =~= buf@.subrange(0, n as int));
                }
                Ok((PendingHandshake { handshake: h }, wire))
            },
        }
    }
}

/// A connecting end that has sent its message and waits for the answer.
pub struct PendingHandshake {
    handshake: snow::HandshakeState,
}

impl PendingHandshake {
    /// The handshake.
    pub closed spec fn state(&self) -> snow::HandshakeState {
        self.handshake
    }

    /// Takes the answer and enters the session. Any message but the answer of the end whose key
    /// is known is an error.
    pub fn finish(self, answer: &[u8]) -> (r: Result<NoiseIkTcpChannel, ClipboardError>)
        requires
            is_waiting(self.state()),
        ensures
            match r {
                Ok(channel) => takes_answer(self.state(), answer@) && enters(
                    self.state(),
                    answer@,
                    channel.transport(),
                ),
                Err(e) => !takes_answer(self.state(), answer@) && e@ == ErrorView::Crypto(
                    noise::hs_read_error(self.state(), answer@, INITIATOR_BUFFER as nat),
                ),
            },
    {
        let mut h = self.handshake;
        let mut payload: [u8; INITIATOR_BUFFER] = [0u8; INITIATOR_BUFFER];
        match noise::handshake_read(&mut h, answer, &mut payload) {
            Err(e) => return Err(ClipboardError::Crypto(e)),
            Ok(_) => {},
        }
        match noise::handshake_finish(h) {
            Ok(transport) => Ok(NoiseIkTcpChannel::new(transport)),
            Err(e) => Err(ClipboardError::Crypto(e)),
        }
    }
}

/// What a serving end does with a connection.
pub enum Admission {
    /// Drops it without an answer: the key of the other end is not on the list.
    Refused { remote: String },
    /// Answers and serves it.
    Admitted {
        /// The key of the other end, in hexadecimal.
        remote: String,
        /// The answer, framed for the stream.
        reply: Vec<u8>,
        channel: NoiseIkTcpChannel,
    },
}

/// The serving end of a clipboard session.
pub struct NoiseIkTcpResponder {
    handshake: snow::HandshakeState,
}

impl NoiseIkTcpResponder {
    /// The handshake.
    pub closed spec fn state(&self) -> snow::HandshakeState {
        self.handshake
    }

    /// Prepares to serve one connection.
    pub fn new(static_private: &[u8]) -> (r: Result<Self, ClipboardError>)
        requires
            static_private@.len() == KEY_LEN,
        ensures
            r matches Ok(s) && is_listening(s.state()) && noise::hs_local(s.state())
                == static_private@,
    {
        match noise::responder(NOISE_PARAMS, static_private) {
            Ok(handshake) => Ok(NoiseIkTcpResponder { handshake }),
            Err(e) => Err(ClipboardError::Crypto(e)),
        }
    }

    /// Reads the first message of a connection and holds the key it came from against the list.
    pub fn accept(self, message: &[u8], allow: &AllowList) -> (r: Result<Admission, ClipboardError>)
        requires
            is_listening(self.state()),
        ensures
            match (verdict(self.state(), message@, allow@), r) {
                (Verdict::Unreadable, Err(e)) => e@ == ErrorView::Crypto(
                    noise::hs_read_error(self.state(), message@, MAX_HANDSHAKE_MSG as nat),
                ),
                (Verdict::Refuse(key), Ok(Admission::Refused { remote })) => remote@ == hex::hexed(
                    key,
                ),
                (
                    Verdict::Admit(key),
                    Ok(Admission::Admitted { remote, reply, channel }),
                ) => remote@ == hex::hexed(key) && reply@ == frame::framed(
                    reply@.subrange(2, reply@.len() as int),
                ) && answers(
                    self.state(),
                    message@,
                    reply@.subrange(2, reply@.len() as int),
                    channel.transport(),
                ),
                _ => false,
            },
    {
        let mut h = self.handshake;
        let mut payload: [u8; MAX_HANDSHAKE_MSG] = [0u8; MAX_HANDSHAKE_MSG];
        match noise::handshake_read(&mut h, message, &mut payload) {
            Err(e) => return Err(ClipboardError::Crypto(e)),
            Ok(_) => {},
        }
        let key = match noise::handshake_remote(&h) {
            Some(key) => key,
            None => return Err(
                ClipboardError::Protocol("the handshake gave no key of the other end"),
            ),
        };
        let remote = hex::to_hex(key.as_slice());
        if !allow.authorizes(key.as_slice()) {
            return Ok(Admission::Refused { remote });
        }
        let mut buf: [u8; MAX_HANDSHAKE_MSG] = [0u8; MAX_HANDSHAKE_MSG];
        let n: usize = match noise::handshake_write(&mut h, &mut buf) {
            Err(e) => return Err(ClipboardError::Crypto(e)),
            Ok(n) => n,
        };
        let reply = match frame::write_frame(vstd::slice::slice_subrange(&buf, 0, n)) {
            Err(e) => return Err(e),
            Ok(reply) => reply,
        };
        proof {
            assert(reply@.subrange(2, reply@.len() as int) =~= buf@.subrange(0, n as int));
        }
        match noise::handshake_finish(h) {
            Err(e) => Err(ClipboardError::Crypto(e)),
            Ok(transport) => Ok(
                Admission::Admitted { remote, reply, channel: NoiseIkTcpChannel::new(transport) },
            ),
        }
    }
}

/// A connecting end that knows the key of the serving end, and whose own key is on the list, is
/// admitted; it takes the answer it gets; and the two ends then hold a session that carries
/// messages both ways, each with the other's key.
pub proof fn law_listed_peer_docks(
    i: snow::HandshakeState,
    p: snow::HandshakeState,
    r: snow::HandshakeState,
    first: Seq<u8>,
    answer: Seq<u8>,
    allowed: Set<Seq<char>>,
    a: snow::TransportState,
    b: snow::TransportState,
)
    requires
        is_ready(i),
        is_listening(r),
        starts(i, p, first),
    ensures
        ({
            let key = noise::public_key_of(noise::hs_local(i));
            noise::hs_remote(i) == Some(noise::public_key_of(noise::hs_local(r)))
                && allowed.contains(hex::hexed(key)) ==> {
                &&& verdict(r, first, allowed) == Verdict::Admit(key)
                &&& answers(r, first, answer, b) ==> takes_answer(p, answer)
                &&& answers(r, first, answer, b) && enters(p, answer, a) ==> {
                    &&& noise::paired(a, b)
                    &&& noise::paired(b, a)
                    &&& noise::remote_of(a) == Some(noise::public_key_of(noise::hs_local(r)))
                    &&& noise::remote_of(b) == Some(key)
                }
            }
        }),
{
    if noise::hs_remote(i) == Some(noise::public_key_of(noise::hs_local(r))) {
        assert(noise::is_sought(r, i));
        assert(noise::first_arrives(first, p, r));
    }
}

/// A first message from a key that is not on the list is never admitted: there is no answer and
/// no session for it.
pub proof fn law_unlisted_peer_is_never_admitted(
    h: snow::HandshakeState,
    message: Seq<u8>,
    allowed: Set<Seq<char>>,
)
    ensures
        verdict(h, message, allowed) matches Verdict::Admit(key) ==> allowed.contains(
            hex::hexed(key),
        ) && noise::hs_remote(noise::hs_read(h, message)) == Some(key),
        allowed == Set::<Seq<char>>::empty() ==> !(verdict(h, message, allowed) is Admit),
{
}

/// Whether a first message is answered is decided by three things: it opens to at most 1024 bytes,
/// the key it came from is known then, and that key, as text, is on the list.
pub proof fn law_verdict_is_decided(
    h: snow::HandshakeState,
    message: Seq<u8>,
    allowed: Set<Seq<char>>,
    key: Seq<u8>,
)
    ensures
        verdict(h, message, allowed) == Verdict::Admit(key) <==> (noise::hs_opens(h, message)
            matches Some(payload) && payload.len() <= 1024) && noise::hs_remote(
            noise::hs_read(h, message),
        ) == Some(key) && allowed.contains(hex::hexed(key)),
        verdict(h, message, allowed) == Verdict::Refuse(key) <==> (noise::hs_opens(h, message)
            matches Some(payload) && payload.len() <= 1024) && noise::hs_remote(
            noise::hs_read(h, message),
        ) == Some(key) && !allowed.contains(hex::hexed(key)),
{
}

/// The connecting end takes for an answer what opens to at most 256 bytes.
pub proof fn law_answer_is_what_opens(h: snow::HandshakeState, message: Seq<u8>)
    ensures
        takes_answer(h, message) <==> (noise::hs_opens(h, message) matches Some(payload)
            && payload.len() <= 256),
{
}

} // verus!
