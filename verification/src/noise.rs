//! The Noise_IK state machines of the `snow` crate, behind contracts.
//!
//! What the primitives compute is not described here. A handshake or a transport is known by
//! what it holds (whose turn it is, which key it learned, which cipher it writes with), and the
//! results of sealing, opening and reading are named as functions of those. Beside the names
//! stand the facts that the two ends of a session rest on: what one end writes, the other reads.

use vstd::prelude::*;

verus! {

/// The Noise protocol that every session of this project speaks.
pub const NOISE_PARAMS: &'static str = "Noise_IK_25519_ChaChaPoly_BLAKE2s";

/// Length of an X25519 key, private or public.
pub const KEY_LEN: usize = 32;

/// Length of the authentication tag that sealing adds.
pub const TAG_LEN: usize = 16;

/// Length of the longest Noise message.
pub const MAX_NOISE_MSG: usize = 65535;

/// Length of the first IK handshake message with an empty payload: an ephemeral key, a sealed
/// static key and a sealed empty payload.
pub const FIRST_HANDSHAKE_LEN: usize = 96;

/// Length of the second IK handshake message with an empty payload: an ephemeral key and a
/// sealed empty payload.
pub const SECOND_HANDSHAKE_LEN: usize = 48;

/// `snow::Error`, carried through unopened.
#[verifier::external_type_specification]
#[verifier::external_body]
pub struct ExNoiseError(snow::Error);

/// `snow::HandshakeState`, one end of a handshake under way.
#[verifier::external_type_specification]
#[verifier::external_body]
pub struct ExHandshakeState(snow::HandshakeState);

/// `snow::TransportState`, one end of an established session.
#[verifier::external_type_specification]
#[verifier::external_body]
pub struct ExTransportState(snow::TransportState);

/// The X25519 public key that belongs to a private key.
pub uninterp spec fn public_key_of(private: Seq<u8>) -> Seq<u8>;

/// The name of the protocol that the handshake runs. `None` if it was set up from anything more
/// than that name and static keys: a prologue, a pre-shared key, a fixed ephemeral key.
pub uninterp spec fn hs_protocol(h: snow::HandshakeState) -> Option<Seq<char>>;

/// Whether it is the end that writes first.
pub uninterp spec fn hs_initiator(h: snow::HandshakeState) -> bool;

/// Whether it is this end's turn to write.
pub uninterp spec fn hs_turn(h: snow::HandshakeState) -> bool;

/// How many messages of the handshake are still to come.
pub uninterp spec fn hs_left(h: snow::HandshakeState) -> nat;

/// The static private key of this end.
pub uninterp spec fn hs_local(h: snow::HandshakeState) -> Seq<u8>;

/// The static public key of the other end, once it is known.
pub uninterp spec fn hs_remote(h: snow::HandshakeState) -> Option<Seq<u8>>;

/// The payload of a message that this end would read next, `None` if it would refuse it.
pub uninterp spec fn hs_opens(h: snow::HandshakeState, message: Seq<u8>) -> Option<Seq<u8>>;

/// The handshake after it has read a message that it does not refuse.
pub uninterp spec fn hs_read(h: snow::HandshakeState, message: Seq<u8>) -> snow::HandshakeState;

/// Whether `a`, which has written the first message, and `b`, which has read it, hold the same
/// handshake hash and chaining key and each other's public keys.
pub uninterp spec fn hs_in_step(a: snow::HandshakeState, b: snow::HandshakeState) -> bool;

/// The ciphers, each a name and a key, that a finished handshake has split off: the one that the
/// initiator writes with, then the one that the responder writes with.
pub uninterp spec fn hs_ciphers(h: snow::HandshakeState) -> (
    (Seq<char>, Seq<u8>),
    (Seq<char>, Seq<u8>),
);

/// The cipher, a name and a key, that the transport writes with.
pub uninterp spec fn tx_cipher(t: snow::TransportState) -> (Seq<char>, Seq<u8>);

/// The cipher, a name and a key, that the transport reads with.
pub uninterp spec fn rx_cipher(t: snow::TransportState) -> (Seq<char>, Seq<u8>);

/// The number of the next message that the transport writes.
pub uninterp spec fn tx_nonce(t: snow::TransportState) -> u64;

/// The number of the next message that the transport reads.
pub uninterp spec fn rx_nonce(t: snow::TransportState) -> u64;

/// Whether the pattern lets this end write.
pub uninterp spec fn can_write(t: snow::TransportState) -> bool;

/// Whether the pattern lets this end read.
pub uninterp spec fn can_read(t: snow::TransportState) -> bool;

/// The static public key of the other end of the session.
pub uninterp spec fn remote_of(t: snow::TransportState) -> Option<Seq<u8>>;

/// What sealing a plaintext under a cipher and a message number gives.
pub uninterp spec fn sealed(
    cipher: (Seq<char>, Seq<u8>),
    nonce: u64,
    plaintext: Seq<u8>,
) -> Seq<u8>;

/// What opening a ciphertext under a cipher and a message number gives, `None` if its tag does
/// not verify.
pub uninterp spec fn opened(
    cipher: (Seq<char>, Seq<u8>),
    nonce: u64,
    ciphertext: Seq<u8>,
) -> Option<Seq<u8>>;

/// The error with which a handshake refuses to read a message into a buffer of `room` bytes.
pub uninterp spec fn hs_read_error(
    h: snow::HandshakeState,
    message: Seq<u8>,
    room: nat,
) -> snow::Error;

/// The error with which a transport refuses to write a plaintext into a buffer of `room` bytes.
pub uninterp spec fn write_error(
    t: snow::TransportState,
    plaintext: Seq<u8>,
    room: nat,
) -> snow::Error;

/// The error with which a transport refuses to read a ciphertext into a buffer of `room` bytes.
pub uninterp spec fn read_error(
    t: snow::TransportState,
    ciphertext: Seq<u8>,
    room: nat,
) -> snow::Error;

/// Whether the handshake runs the project's protocol.
pub open spec fn is_ours(h: snow::HandshakeState) -> bool {
    hs_protocol(h) == Some(NOISE_PARAMS@)
}

/// Whether the two are set up alike: the same protocol, role and private key.
pub open spec fn same_setup(a: snow::HandshakeState, b: snow::HandshakeState) -> bool {
    hs_protocol(a) == hs_protocol(b) && hs_initiator(a) == hs_initiator(b) && hs_local(a)
        == hs_local(b)
}

/// Whether `r` is a responder that has read nothing yet, and the one whose key `i` knows.
pub open spec fn is_sought(r: snow::HandshakeState, i: snow::HandshakeState) -> bool {
    is_ours(r) && !hs_initiator(r) && hs_left(r) == 2 && hs_remote(i) == Some(
        public_key_of(hs_local(r)),
    )
}

/// Whether `r` reads the message as the first one of `i`: nothing in its payload, the key of `i`
/// learned, and both in step afterwards.
pub open spec fn first_arrives(
    message: Seq<u8>,
    i: snow::HandshakeState,
    r: snow::HandshakeState,
) -> bool {
    hs_opens(r, message) == Some(Seq::<u8>::empty()) && hs_remote(hs_read(r, message)) == Some(
        public_key_of(hs_local(i)),
    ) && hs_in_step(i, hs_read(r, message))
}

/// Whether `i` reads the message as the second one, of `r`: nothing in its payload, and the same
/// ciphers at both ends afterwards.
pub open spec fn second_arrives(
    message: Seq<u8>,
    i: snow::HandshakeState,
    r: snow::HandshakeState,
) -> bool {
    hs_opens(i, message) == Some(Seq::<u8>::empty()) && hs_ciphers(hs_read(i, message))
        == hs_ciphers(r)
}

/// Whether the transport is what the finished handshake turns into.
pub open spec fn continues(t: snow::TransportState, h: snow::HandshakeState) -> bool {
    &&& tx_nonce(t) == 0
    &&& rx_nonce(t) == 0
    &&& remote_of(t) == hs_remote(h)
    &&& hs_initiator(h) ==> hs_ciphers(h) == (tx_cipher(t), rx_cipher(t))
    &&& !hs_initiator(h) ==> hs_ciphers(h) == (rx_cipher(t), tx_cipher(t))
}

/// Whether the transport can write a plaintext of `n` bytes.
pub open spec fn writable(t: snow::TransportState, n: nat) -> bool {
    can_write(t) && n + TAG_LEN <= MAX_NOISE_MSG && tx_nonce(t) < u64::MAX
}

/// The plaintext of a message that the transport reads next, `None` if it refuses it.
pub open spec fn readable(t: snow::TransportState, ciphertext: Seq<u8>) -> Option<Seq<u8>> {
    if can_read(t) && TAG_LEN <= ciphertext.len() <= MAX_NOISE_MSG && rx_nonce(t) < u64::MAX {
        opened(rx_cipher(t), rx_nonce(t), ciphertext)
    } else {
        None
    }
}

/// Whether both are the same end of the same session.
pub open spec fn same_session(a: snow::TransportState, b: snow::TransportState) -> bool {
    tx_cipher(a) == tx_cipher(b) && rx_cipher(a) == rx_cipher(b) && can_write(a) == can_write(b)
        && can_read(a) == can_read(b) && remote_of(a) == remote_of(b)
}

/// The transport after `sent` more messages were written and `received` more were read.
pub open spec fn moved(
    before: snow::TransportState,
    after: snow::TransportState,
    sent: int,
    received: int,
) -> bool {
    same_session(before, after) && tx_nonce(after) == tx_nonce(before) + sent && rx_nonce(after)
        == rx_nonce(before) + received
}

/// Calls `snow::Builder::generate_keypair` for a protocol name. For the project's protocol it
/// succeeds and gives a private key of 32 bytes and the public key that belongs to it. Which
/// private key it is is left to chance.
#[verifier::external_body]
pub(crate) fn keypair(params: &str) -> (r: Result<(Vec<u8>, Vec<u8>), snow::Error>)
    ensures
        params@ == NOISE_PARAMS@ ==> r is Ok,
        r matches Ok((private, public)) ==> params@ == NOISE_PARAMS@ ==> private@.len() == KEY_LEN
            && public@.len() == KEY_LEN && public@ == public_key_of(private@),
{
    let pair = snow::Builder::new(params.parse()?).generate_keypair()?;
    Ok((pair.private, pair.public))
}

/// Calls `snow::Builder::build_initiator` with a protocol name, the own private key and the other
/// end's public key. The handshake holds what it was given and is the first to write; for the
/// project's protocol the call succeeds and two messages are to come. Keys of another length than
/// 32 bytes can make the builder panic.
#[verifier::external_body]
pub(crate) fn initiator(params: &str, local_private: &[u8], remote_public: &[u8]) -> (r: Result<
    snow::HandshakeState,
    snow::Error,
>)
    requires
        local_private@.len() == KEY_LEN,
        remote_public@.len() == KEY_LEN,
    ensures
        params@ == NOISE_PARAMS@ ==> r is Ok,
        r matches Ok(h) ==> hs_protocol(h) == Some(params@) && hs_initiator(h) && hs_turn(h)
            && hs_local(h) == local_private@ && hs_remote(h) == Some(remote_public@) && (params@
            == NOISE_PARAMS@ ==> hs_left(h) == 2),
{
    snow::Builder::new(params.parse()?)
        .local_private_key(local_private)
        .remote_public_key(remote_public)
        .build_initiator()
}

/// Calls `snow::Builder::build_responder` with a protocol name and the own private key. The
/// handshake holds that key, knows nothing of the other end and is the second to write; for the
/// project's protocol the call succeeds and two messages are to come. A private key of more than
/// 32 bytes makes the builder panic.
#[verifier::external_body]
pub(crate) fn responder(params: &str, local_private: &[u8]) -> (r: Result<
    snow::HandshakeState,
    snow::Error,
>)
    requires
        local_private@.len() == KEY_LEN,
    ensures
        params@ == NOISE_PARAMS@ ==> r is Ok,
        r matches Ok(h) ==> hs_protocol(h) == Some(params@) && !hs_initiator(h) && !hs_turn(h)
            && hs_local(h) == local_private@ && hs_remote(h) is None && (params@ == NOISE_PARAMS@
            ==> hs_left(h) == 2),
{
    snow::Builder::new(params.parse()?).local_private_key(local_private).build_responder()
}

/// Calls `snow::HandshakeState::write_message` with an empty payload. In the project's protocol
/// it succeeds exactly when it is this end's turn and a message is still to come; it then passes
/// the turn, and the message is the 96 bytes of the first or the 48 bytes of the second. Which
/// bytes they are is left to chance (they hold a fresh ephemeral key), but the end they are meant
/// for reads them: the first one the responder whose key this end knows, the second one the
/// initiator that is in step. With a buffer shorter than the first message it can panic.
#[verifier::external_body]
pub(crate) fn handshake_write(h: &mut snow::HandshakeState, out: &mut [u8]) -> (r: Result<
    usize,
    snow::Error,
>)
    requires
        is_ours(*old(h)),
        old(out)@.len() >= FIRST_HANDSHAKE_LEN,
    ensures
        final(out)@.len() == old(out)@.len(),
        same_setup(*old(h), *final(h)),
        hs_remote(*final(h)) == hs_remote(*old(h)),
        r is Ok <==> hs_turn(*old(h)) && hs_left(*old(h)) > 0,
        match r {
            Ok(n) => n == (if hs_left(*old(h)) == 2 {
                FIRST_HANDSHAKE_LEN
            } else {
                SECOND_HANDSHAKE_LEN
            }) && !hs_turn(*final(h)) && hs_left(*final(h)) + 1 == hs_left(*old(h)),
            Err(_) => hs_turn(*final(h)) == hs_turn(*old(h)) && hs_left(*final(h)) == hs_left(
                *old(h),
            ),
        },
        r is Ok && hs_left(*old(h)) == 2 ==> forall|b: snow::HandshakeState| #[trigger]
            is_sought(b, *old(h)) ==> first_arrives(
                final(out)@.subrange(0, FIRST_HANDSHAKE_LEN as int),
                *final(h),
                b,
            ),
        r is Ok && hs_left(*old(h)) == 1 ==> forall|a: snow::HandshakeState| #[trigger]
            hs_in_step(a, *old(h)) ==> second_arrives(
                final(out)@.subrange(0, SECOND_HANDSHAKE_LEN as int),
                a,
                *final(h),
            ),
{
    h.write_message(&[], out)
}

/// Calls `snow::HandshakeState::read_message`. It succeeds exactly when the message is one that
/// this end opens and the payload fits the buffer; the payload is then at the front of the
/// buffer, the turn is this end's and, in the project's protocol, the key of the other end is
/// known: 32 bytes, and the one that an initiator knew before. Which error it refuses with follows
/// from the state, the message and the size of the buffer.
#[verifier::external_body]
pub(crate) fn handshake_read(
    h: &mut snow::HandshakeState,
    message: &[u8],
    out: &mut [u8],
) -> (r: Result<usize, snow::Error>)
    requires
        is_ours(*old(h)),
    ensures
        final(out)@.len() == old(out)@.len(),
        same_setup(*old(h), *final(h)),
        match r {
            Ok(n) => n <= final(out)@.len() && hs_opens(*old(h), message@) == Some(
                final(out)@.subrange(0, n as int),
            ) && *final(h) == hs_read(*old(h), message@) && hs_turn(*final(h)) && hs_left(
                *final(h),
            ) + 1 == hs_left(*old(h)) && (hs_remote(*final(h)) matches Some(key) && key.len()
                == KEY_LEN) && (hs_initiator(*old(h)) ==> hs_remote(*final(h)) == hs_remote(
                *old(h),
            )),
            Err(e) => e == hs_read_error(*old(h), message@, old(out)@.len()) && (hs_opens(
                *old(h),
                message@,
            ) matches Some(payload) ==> payload.len() > old(out)@.len()) && hs_turn(*final(h)) == hs_turn(*old(h)) && hs_left(*final(h))
                == hs_left(*old(h)),
        },
{
    h.read_message(message, out)
}

/// Calls `snow::HandshakeState::get_remote_static`: the key of the other end, once it is known.
#[verifier::external_body]
pub(crate) fn handshake_remote(h: &snow::HandshakeState) -> (r: Option<Vec<u8>>)
    ensures
        match r {
            Some(key) => hs_remote(*h) == Some(key@),
            None => hs_remote(*h) is None,
        },
{
    h.get_remote_static().map(|key| key.to_vec())
}

/// Calls `snow::HandshakeState::into_transport_mode`. It succeeds exactly when no message of the
/// handshake is left; the transport has the handshake's ciphers and the other end's key and
/// counts its messages from 0. The project's protocol lets both ends write and read.
#[verifier::external_body]
pub(crate) fn handshake_finish(h: snow::HandshakeState) -> (r: Result<
    snow::TransportState,
    snow::Error,
>)
    ensures
        r is Ok <==> hs_left(h) == 0,
        r matches Ok(t) ==> tx_nonce(t) == 0 && rx_nonce(t) == 0 && remote_of(t) == hs_remote(h),
        r matches Ok(t) ==> hs_initiator(h) ==> hs_ciphers(h) == (tx_cipher(t), rx_cipher(t)),
        r matches Ok(t) ==> !hs_initiator(h) ==> hs_ciphers(h) == (rx_cipher(t), tx_cipher(t)),
        r matches Ok(t) ==> is_ours(h) ==> can_write(t) && can_read(t),
{
    h.into_transport_mode()
}

/// Calls `snow::TransportState::write_message`. It succeeds exactly when this end may write, the
/// message fits both the buffer and the longest Noise message, and the message numbers are not
/// used up. The ciphertext is then at the front of the buffer, 16 bytes longer than the
/// plaintext; opening it under the same cipher and number gives the plaintext back; and the
/// number goes up by one. Which error it refuses with follows from the state, the plaintext and
/// the size of the buffer.
#[verifier::external_body]
pub(crate) fn transport_write(
    t: &mut snow::TransportState,
    plaintext: &[u8],
    out: &mut [u8],
) -> (r: Result<usize, snow::Error>)
    ensures
        final(out)@.len() == old(out)@.len(),
        r is Ok <==> writable(*old(t), plaintext@.len()) && plaintext@.len() + TAG_LEN <= old(
            out,
        )@.len(),
        match r {
            Ok(n) => n == plaintext@.len() + TAG_LEN && final(out)@.subrange(0, n as int)
                == sealed(tx_cipher(*old(t)), tx_nonce(*old(t)), plaintext@) && opened(
                tx_cipher(*old(t)),
                tx_nonce(*old(t)),
                final(out)@.subrange(0, n as int),
            ) == Some(plaintext@) && moved(*old(t), *final(t), 1, 0),
            Err(e) => e == write_error(*old(t), plaintext@, old(out)@.len()) && moved(
                *old(t),
                *final(t),
                0,
                0,
            ),
        },
{
    t.write_message(plaintext, out)
}

/// Calls `snow::TransportState::read_message`. It succeeds exactly when the message is one that
/// this end opens and the plaintext, 16 bytes shorter, fits the buffer. The plaintext is then at
/// the front of the buffer and the number of the next message goes up by one. Which error it
/// refuses with follows from the state, the message and the size of the buffer.
#[verifier::external_body]
pub(crate) fn transport_read(
    t: &mut snow::TransportState,
    ciphertext: &[u8],
    out: &mut [u8],
) -> (r: Result<usize, snow::Error>)
    ensures
        final(out)@.len() == old(out)@.len(),
        r is Ok <==> readable(*old(t), ciphertext@) is Some && ciphertext@.len() <= old(out)@.len()
            + TAG_LEN,
        match r {
            Ok(n) => n + TAG_LEN == ciphertext@.len() && n <= final(out)@.len() && readable(
                *old(t),
                ciphertext@,
            ) == Some(final(out)@.subrange(0, n as int)) && moved(*old(t), *final(t), 0, 1),
            Err(e) => e == read_error(*old(t), ciphertext@, old(out)@.len()) && moved(
                *old(t),
                *final(t),
                0,
                0,
            ) && (readable(*old(t), ciphertext@) matches Some(plaintext) ==> plaintext.len()
                + TAG_LEN == ciphertext@.len()),
        },
{
    t.read_message(ciphertext, out)
}

/// Whether what `a` writes is what `b` reads next.
pub open spec fn paired(a: snow::TransportState, b: snow::TransportState) -> bool {
    tx_cipher(a) == rx_cipher(b) && tx_nonce(a) == rx_nonce(b) && can_write(a) && can_read(b)
}

/// The two ends of a finished handshake, with the same ciphers at both, make a session that
/// carries messages both ways.
pub proof fn law_ends_are_paired(
    i: snow::HandshakeState,
    r: snow::HandshakeState,
    a: snow::TransportState,
    b: snow::TransportState,
)
    requires
        hs_initiator(i),
        !hs_initiator(r),
        hs_ciphers(i) == hs_ciphers(r),
        continues(a, i),
        continues(b, r),
        can_write(a) && can_read(a),
        can_write(b) && can_read(b),
    ensures
        paired(a, b),
        paired(b, a),
{
}

/// Two paired ends stay paired, in both directions, when one writes a message and the other
/// reads it.
pub proof fn law_ends_stay_paired(
    a: snow::TransportState,
    b: snow::TransportState,
    a2: snow::TransportState,
    b2: snow::TransportState,
)
    requires
        paired(a, b),
        moved(a, a2, 1, 0),
        moved(b, b2, 0, 1),
    ensures
        paired(a2, b2),
        paired(b, a) ==> paired(b2, a2),
{
}

/// The protocol, and the sizes of its keys, tags and messages.
pub proof fn law_protocol_sizes()
    ensures
        NOISE_PARAMS@ == "Noise_IK_25519_ChaChaPoly_BLAKE2s"@,
        KEY_LEN == 32,
        TAG_LEN == 16,
        MAX_NOISE_MSG == 65535,
        FIRST_HANDSHAKE_LEN == KEY_LEN + (KEY_LEN + TAG_LEN) + TAG_LEN,
        SECOND_HANDSHAKE_LEN == KEY_LEN + TAG_LEN,
{
}

} // verus!
