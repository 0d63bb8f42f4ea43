//! Both channels over real Noise sessions, in memory.

use snow::{Builder, TransportState};
use velokvm::frame::read_sealed;
use velokvm::serve::allow_list;
use velokvm::transport::judge;
use velokvm::{
    read_frame, write_frame, Admission, AllowList, AntiReplayWindow, ButtonFlags, ChannelError,
    ClipboardAssembler, ClipboardError, ClipboardMsg, FrameRead, NoiseIkTcpChannel,
    NoiseIkTcpInitiator, NoiseIkTcpResponder, NoiseIkUdpChannel, ReceiveSession, Received,
    RelMotionPacket, SessionAction, MAX_HANDSHAKE_MSG, NOISE_PARAMS, SUPPORTED_MIME,
};

const PAYLOAD: &[u8] = b"hello velokvm";

fn keypair() -> (Vec<u8>, Vec<u8>) {
    let builder = Builder::new(NOISE_PARAMS.parse().unwrap());
    let kp = builder.generate_keypair().unwrap();
    (kp.private, kp.public)
}

fn list_of(public: &[u8]) -> AllowList {
    allow_list(Some(&format!("{}\n", velokvm::hex::to_hex(public))), &[]).unwrap()
}

fn handshake_pair() -> (TransportState, TransportState) {
    let builder_init = Builder::new(NOISE_PARAMS.parse().unwrap());
    let builder_resp = Builder::new(NOISE_PARAMS.parse().unwrap());

    let static_init = builder_init.generate_keypair().unwrap();
    let static_resp = builder_resp.generate_keypair().unwrap();

    let mut initiator = builder_init
        .local_private_key(&static_init.private)
        .remote_public_key(&static_resp.public)
        .build_initiator()
        .unwrap();
    let mut responder =
        builder_resp.local_private_key(&static_resp.private).build_responder().unwrap();

    let mut msg = [0u8; 256];
    let mut payload = [0u8; 256];

    let n = initiator.write_message(b"", &mut msg).unwrap();
    responder.read_message(&msg[..n], &mut payload).unwrap();

    let n = responder.write_message(b"", &mut msg).unwrap();
    initiator.read_message(&msg[..n], &mut payload).unwrap();

    (initiator.into_transport_mode().unwrap(), responder.into_transport_mode().unwrap())
}

fn frame(wire: &[u8]) -> Vec<u8> {
    match read_frame(wire).unwrap() {
        FrameRead::Frame(data) => data,
        other => panic!("unexpected {other:?}"),
    }
}

fn message(channel: &mut NoiseIkTcpChannel, wire: &[u8]) -> ClipboardMsg {
    match channel.recv_msg(wire).unwrap() {
        Received::Msg(msg) => msg,
        other => panic!("unexpected {other:?}"),
    }
}

#[test]
fn test_tcp_noise_channel_e2e() {
    let (tx_state, rx_state) = handshake_pair();
    let mut tx = NoiseIkTcpChannel::new(tx_state);
    let mut rx = NoiseIkTcpChannel::new(rx_state);
    let mut assembler = ClipboardAssembler::new();

    let wire = tx
        .send_msg(&ClipboardMsg::Offer {
            transfer_id: 9,
            mime: SUPPORTED_MIME.to_string(),
            total_len: 11,
        })
        .unwrap();
    match message(&mut rx, &wire) {
        ClipboardMsg::Offer { transfer_id, mime, total_len } => {
            assembler.offer(transfer_id, &mime, total_len).unwrap()
        }
        other => panic!("expected Offer, got {other:?}"),
    }
    for (seq, part) in [(0u32, b"hello ".to_vec()), (1, b"world".to_vec())] {
        let wire = tx
            .send_msg(&ClipboardMsg::Chunk { transfer_id: 9, seq, payload: part })
            .unwrap();
        match message(&mut rx, &wire) {
            ClipboardMsg::Chunk { transfer_id, seq, payload } => {
                assembler.push_chunk(transfer_id, seq, &payload).unwrap()
            }
            other => panic!("expected Chunk, got {other:?}"),
        }
    }
    let wire = tx.send_msg(&ClipboardMsg::Complete { transfer_id: 9 }).unwrap();
    match message(&mut rx, &wire) {
        ClipboardMsg::Complete { transfer_id } => assert_eq!(transfer_id, 9),
        other => panic!("expected Complete, got {other:?}"),
    }
    assert_eq!(assembler.complete().unwrap(), b"hello world".to_vec());
}

#[test]
fn test_initiator_authorized_handshake() {
    let (init_priv, init_pub) = keypair();
    let (resp_priv, resp_pub) = keypair();
    let allow = list_of(&init_pub);

    let mut initiator =
        NoiseIkTcpInitiator::connect("127.0.0.1:0", &init_priv, &resp_pub).unwrap();
    assert_eq!(initiator.addr(), "127.0.0.1:0");
    let (pending, first) = initiator.handshake().unwrap();
    assert_eq!(first.len(), 2 + 96);

    let responder = NoiseIkTcpResponder::new(&resp_priv).unwrap();
    match responder.accept(&frame(&first), &allow).unwrap() {
        Admission::Admitted { remote, reply, mut channel } => {
            assert_eq!(remote, velokvm::hex::to_hex(&init_pub));
            assert_eq!(reply.len(), 2 + 48);
            let mut ch = pending.finish(&frame(&reply)).unwrap();
            let wire = ch.send_msg(&ClipboardMsg::Complete { transfer_id: 1 }).unwrap();
            let msg = message(&mut channel, &wire);
            assert!(matches!(msg, ClipboardMsg::Complete { .. }));
            let back = channel.send_msg(&ClipboardMsg::Abort { transfer_id: 1, reason: 2 });
            assert_eq!(
                message(&mut ch, &back.unwrap()),
                ClipboardMsg::Abort { transfer_id: 1, reason: 2 }
            );
        }
        Admission::Refused { remote } => panic!("refused {remote}"),
    }
}

#[test]
fn test_initiator_unauthorized_handshake() {
    let (init_priv, init_pub) = keypair();
    let (resp_priv, resp_pub) = keypair();
    let (_, other_pub) = keypair();
    let allow = list_of(&other_pub);

    let mut initiator =
        NoiseIkTcpInitiator::connect("127.0.0.1:0", &init_priv, &resp_pub).unwrap();
    let (_pending, first) = initiator.handshake().unwrap();
    let responder = NoiseIkTcpResponder::new(&resp_priv).unwrap();
    match responder.accept(&frame(&first), &allow).unwrap() {
        Admission::Refused { remote } => assert_eq!(remote, velokvm::hex::to_hex(&init_pub)),
        Admission::Admitted { .. } => panic!("an unlisted station must not be admitted"),
    }
}

#[test]
fn authorized_peer_docks_and_unauthorized_is_rejected() {
    let (server_priv, server_pub) = keypair();
    let (peer_priv, peer_pub) = keypair();
    let (rogue_priv, _) = keypair();
    let allow = list_of(&peer_pub);

    let mut rogue = NoiseIkTcpInitiator::connect("127.0.0.1:0", &rogue_priv, &server_pub).unwrap();
    let (_, first) = rogue.handshake().unwrap();
    let server = NoiseIkTcpResponder::new(&server_priv).unwrap();
    assert!(matches!(
        server.accept(&frame(&first), &allow),
        Ok(Admission::Refused { .. })
    ));

    let mut peer = NoiseIkTcpInitiator::connect("127.0.0.1:0", &peer_priv, &server_pub).unwrap();
    let (pending, first) = peer.handshake().unwrap();
    let server = NoiseIkTcpResponder::new(&server_priv).unwrap();
    let (reply, mut serving) = match server.accept(&frame(&first), &allow).unwrap() {
        Admission::Admitted { reply, channel, .. } => (reply, channel),
        Admission::Refused { remote } => panic!("refused {remote}"),
    };
    let mut channel = pending.finish(&frame(&reply)).unwrap();
    let transfer_id = 1;
    let mut session = ReceiveSession::new(true);
    let mut done = None;
    for msg in [
        ClipboardMsg::Offer {
            transfer_id,
            mime: SUPPORTED_MIME.to_string(),
            total_len: PAYLOAD.len() as u64,
        },
        ClipboardMsg::Chunk { transfer_id, seq: 0, payload: PAYLOAD.to_vec() },
        ClipboardMsg::Complete { transfer_id },
    ] {
        let wire = channel.send_msg(&msg).unwrap();
        let got = message(&mut serving, &wire);
        if let SessionAction::Deliver { transfer_id, data, .. } = session.on_msg(got).unwrap() {
            done = Some((transfer_id, data));
        }
    }
    assert_eq!(done, Some((1, PAYLOAD.to_vec())));
}

#[test]
fn test_initiator_rejects_malformed_frame() {
    let (init_priv, _) = keypair();
    let (resp_priv, resp_pub) = keypair();
    let mut initiator =
        NoiseIkTcpInitiator::connect("127.0.0.1:0", &init_priv, &resp_pub).unwrap();
    let (_pending, first) = initiator.handshake().unwrap();

    let mut handshake = Builder::new(NOISE_PARAMS.parse().unwrap())
        .local_private_key(&resp_priv)
        .build_responder()
        .unwrap();
    let mut payload = [0u8; MAX_HANDSHAKE_MSG];
    handshake.read_message(&frame(&first), &mut payload).expect("a proper Noise message");

    match read_frame(&[0x00, 0x00]) {
        Err(e) => assert!(matches!(e, ClipboardError::Decode(_)), "unexpected {e:?}"),
        Ok(_) => panic!("an empty frame must be refused"),
    }
}

#[test]
fn test_initiator_connect_rejects_bad_key_length() {
    let (_, resp_pub) = keypair();
    let bad_priv = vec![0u8; 16];
    let result = NoiseIkTcpInitiator::connect("127.0.0.1:1", &bad_priv, &resp_pub);
    assert!(matches!(result, Err(ClipboardError::Protocol(_))));
}

#[test]
fn connect_names_the_bad_key_and_starts_once() {
    let (private, public) = keypair();
    let why = |r: Result<NoiseIkTcpInitiator, ClipboardError>| match r {
        Err(ClipboardError::Protocol(why)) => why,
        _ => panic!("must be refused"),
    };
    assert_eq!(
        why(NoiseIkTcpInitiator::connect("a", &private[1..], &public[1..])),
        "local private key must be 32 bytes"
    );
    assert_eq!(
        why(NoiseIkTcpInitiator::connect("a", &private, &public[1..])),
        "remote public key must be 32 bytes"
    );
    let mut initiator = NoiseIkTcpInitiator::connect("a", &private, &public).unwrap();
    assert!(initiator.handshake().is_ok());
    assert!(matches!(
        initiator.handshake(),
        Err(ClipboardError::Protocol("initiator stream already taken"))
    ));
}

#[test]
fn handshake_messages_of_others_are_refused() {
    let (init_priv, init_pub) = keypair();
    let (resp_priv, resp_pub) = keypair();
    let (other_priv, _) = keypair();
    let allow = list_of(&init_pub);

    let mut initiator = NoiseIkTcpInitiator::connect("a", &init_priv, &resp_pub).unwrap();
    let (pending, first) = initiator.handshake().unwrap();
    // meant for another serving end
    let other = NoiseIkTcpResponder::new(&other_priv).unwrap();
    assert!(matches!(other.accept(&frame(&first), &allow), Err(ClipboardError::Crypto(_))));
    // changed on the way
    let mut spoiled = frame(&first);
    spoiled[95] ^= 1;
    let server = NoiseIkTcpResponder::new(&resp_priv).unwrap();
    assert!(matches!(
        server.accept(&spoiled, &allow),
        Err(ClipboardError::Crypto(snow::Error::Decrypt))
    ));
    // no answer at all
    assert!(matches!(
        pending.finish(&[0u8; 48]),
        Err(ClipboardError::Crypto(snow::Error::Decrypt))
    ));
}

#[test]
fn handshake_frames() {
    assert_eq!(write_frame(b"abc").unwrap(), vec![0, 3, b'a', b'b', b'c']);
    assert!(matches!(write_frame(b""), Err(ClipboardError::Oversize)));
    assert!(matches!(
        write_frame(&[0u8; MAX_HANDSHAKE_MSG + 1]),
        Err(ClipboardError::Oversize)
    ));
    let wire = write_frame(&[7u8; MAX_HANDSHAKE_MSG]).unwrap();
    assert_eq!(&wire[..2], &[4, 0]);
    assert!(matches!(read_frame(&[]), Ok(FrameRead::Need(2))));
    assert!(matches!(read_frame(&wire[..1]), Ok(FrameRead::Need(1))));
    assert!(matches!(read_frame(&wire[..2]), Ok(FrameRead::Need(1024))));
    assert!(matches!(read_frame(&wire[..1000]), Ok(FrameRead::Need(26))));
    assert_eq!(frame(&wire), vec![7u8; MAX_HANDSHAKE_MSG]);
    assert!(matches!(
        read_frame(&[4, 1]),
        Err(ClipboardError::Decode("invalid frame length"))
    ));
    assert!(matches!(read_sealed(&[4, 1]), Ok(FrameRead::Need(1025))));
    assert!(matches!(read_sealed(&[0, 0]), Err(ClipboardError::Protocol("empty frame"))));
}

#[test]
fn channel_waits_for_the_rest_of_a_frame() {
    let (a, b) = handshake_pair();
    let mut tx = NoiseIkTcpChannel::new(a);
    let mut rx = NoiseIkTcpChannel::new(b);
    let msg = ClipboardMsg::Chunk { transfer_id: 1, seq: 0, payload: vec![5; 300] };
    let wire = tx.send_msg(&msg).unwrap();
    assert_eq!(wire.len(), 2 + 13 + 300 + 16);
    for k in 0..wire.len() {
        match rx.recv_msg(&wire[..k]).unwrap() {
            Received::Need(n) => assert!(0 < n && n <= wire.len() - k),
            other => panic!("unexpected {other:?}"),
        }
    }
    assert_eq!(message(&mut rx, &wire), msg);
}

#[test]
fn channel_refuses_what_does_not_open_or_decode() {
    let (mut a, b) = handshake_pair();
    let mut rx = NoiseIkTcpChannel::new(b);
    // sealed, but no message
    let mut ciphertext = vec![0u8; 17];
    assert_eq!(a.write_message(&[0x99], &mut ciphertext).unwrap(), 17);
    let bad = write_frame(&ciphertext).unwrap();
    assert!(matches!(
        rx.recv_msg(&bad),
        Err(ClipboardError::Decode("unknown message type"))
    ));
    // it counted as read: the next one opens
    let mut tx = NoiseIkTcpChannel::new(a);
    let mut wire = tx.send_msg(&ClipboardMsg::Complete { transfer_id: 1 }).unwrap();
    wire[4] ^= 1;
    assert!(matches!(rx.recv_msg(&wire), Err(ClipboardError::Crypto(snow::Error::Decrypt))));
    // a refused one did not count
    wire[4] ^= 1;
    assert_eq!(message(&mut rx, &wire), ClipboardMsg::Complete { transfer_id: 1 });
    assert!(matches!(rx.recv_msg(&[0, 0]), Err(ClipboardError::Protocol("empty frame"))));
}

#[test]
fn channel_refuses_what_no_frame_can_hold() {
    let (a, b) = handshake_pair();
    let mut tx = NoiseIkTcpChannel::new(a);
    let mut rx = NoiseIkTcpChannel::new(b);
    let most = 65535 - 16 - 13;
    let long = ClipboardMsg::Chunk { transfer_id: 1, seq: 0, payload: vec![1; most + 1] };
    assert!(matches!(tx.send_msg(&long), Err(ClipboardError::Crypto(snow::Error::Input))));
    let fits = ClipboardMsg::Chunk { transfer_id: 1, seq: 0, payload: vec![1; most] };
    let wire = tx.send_msg(&fits).unwrap();
    assert_eq!(wire.len(), 2 + 65535);
    assert_eq!(message(&mut rx, &wire), fits);
}

#[test]
fn test_noise_ik_channel_e2e_encryption() {
    let (tx_transport, rx_transport) = handshake_pair();
    let mut channel_tx = NoiseIkUdpChannel::new(tx_transport);
    let mut channel_rx = NoiseIkUdpChannel::new(rx_transport);

    let pkt = RelMotionPacket::new(1, 123456, 12, -8, 0, 0, ButtonFlags::default());
    let datagram = channel_tx.send_rel_motion(&pkt).expect("Send success");
    assert_eq!(datagram.len(), 32);
    assert_ne!(&datagram[..16], &pkt.as_bytes()[..]);

    let received_pkt =
        channel_rx.recv_and_verify(&datagram).expect("Receive & Decrypt success");
    assert_eq!(received_pkt.sequence(), 1);
    assert_eq!(received_pkt.dx(), 12);
    assert_eq!(received_pkt.dy(), -8);
    assert_eq!(received_pkt, pkt);
}

#[test]
fn fast_path_refuses_replays_and_strangers() {
    let (a, b) = handshake_pair();
    let mut tx = NoiseIkUdpChannel::new(a);
    let mut rx = NoiseIkUdpChannel::new(b);
    let pkt = RelMotionPacket::new(5, 0, 1, 1, 0, 0, ButtonFlags::default());
    let first = tx.send_rel_motion(&pkt).unwrap();
    assert!(rx.recv_and_verify(&first).is_ok());
    // the same datagram again does not open
    assert!(matches!(
        rx.recv_and_verify(&first),
        Err(ChannelError::Noise(snow::Error::Decrypt))
    ));
    // the same number in a new datagram opens and is a replay
    let second = tx.send_rel_motion(&pkt).unwrap();
    assert!(matches!(rx.recv_and_verify(&second), Err(ChannelError::ReplayDetected(5))));
    assert_eq!(rx.anti_replay_mut().last_seq(), 5);
    *rx.anti_replay_mut() = AntiReplayWindow::new();
    let third = tx.send_rel_motion(&pkt).unwrap();
    assert_eq!(rx.recv_and_verify(&third).unwrap(), pkt);
    assert!(matches!(rx.recv_and_verify(&[1, 2, 3]), Err(ChannelError::Noise(_))));
}

#[test]
fn fast_path_refuses_what_is_no_motion() {
    let (mut a, b) = handshake_pair();
    let mut rx = NoiseIkUdpChannel::new(b);
    let mut sealed = [0u8; 256];
    let n = a.write_message(&[0x11; 16], &mut sealed).unwrap();
    assert!(matches!(rx.recv_and_verify(&sealed[..n]), Err(ChannelError::InvalidPacket)));
    let n = a.write_message(&[0x10; 15], &mut sealed).unwrap();
    assert!(matches!(rx.recv_and_verify(&sealed[..n]), Err(ChannelError::InvalidPacket)));
    // 128 bytes of plaintext are the most that is opened
    let n = a.write_message(&[0x10; 129], &mut sealed).unwrap();
    assert!(matches!(rx.recv_and_verify(&sealed[..n]), Err(ChannelError::Noise(_))));
}

#[test]
fn opened_datagrams_are_judged_by_the_window() {
    let mut window = AntiReplayWindow::new();
    let pkt = RelMotionPacket::new(3, 1, -1, -1, 1, 1, ButtonFlags(2));
    assert_eq!(judge(&mut window, &pkt.as_bytes()).unwrap(), pkt);
    assert!(matches!(
        judge(&mut window, &pkt.as_bytes()),
        Err(ChannelError::ReplayDetected(3))
    ));
    let zero = RelMotionPacket::new(0, 1, 0, 0, 0, 0, ButtonFlags(0));
    assert!(matches!(
        judge(&mut window, &zero.as_bytes()),
        Err(ChannelError::ReplayDetected(0))
    ));
    assert!(matches!(judge(&mut window, b"short"), Err(ChannelError::InvalidPacket)));
    assert_eq!(window.last_seq(), 3);
}
