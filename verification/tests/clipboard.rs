//! Clipboard messages, their assembly and the receiving session.

use velokvm::clipboard::{TYPE_ABORT, TYPE_CHUNK, TYPE_COMPLETE, TYPE_OFFER};
use velokvm::{
    ClipboardAssembler, ClipboardError, ClipboardMsg, ReceiveSession, SessionAction,
    MAX_CHUNK_LEN, MAX_TOTAL_LEN, SUPPORTED_MIME,
};

fn codec_roundtrip(msg: ClipboardMsg) {
    let buf = msg.encode();
    assert_eq!(ClipboardMsg::decode(&buf).unwrap(), msg);
}

#[test]
fn test_codec_roundtrip_all_variants() {
    codec_roundtrip(ClipboardMsg::Offer {
        transfer_id: 7,
        mime: SUPPORTED_MIME.to_string(),
        total_len: 11,
    });
    codec_roundtrip(ClipboardMsg::Chunk {
        transfer_id: 7,
        seq: 0,
        payload: b"hello ".to_vec(),
    });
    codec_roundtrip(ClipboardMsg::Complete { transfer_id: 7 });
    codec_roundtrip(ClipboardMsg::Abort { transfer_id: 7, reason: 1 });
}

#[test]
fn test_decode_rejects_malformed() {
    assert!(ClipboardMsg::decode(&[]).is_err());
    assert!(ClipboardMsg::decode(&[0x99]).is_err()); // no such type
    assert!(ClipboardMsg::decode(&[TYPE_OFFER]).is_err()); // cut short
    assert!(
        ClipboardMsg::decode(&[TYPE_OFFER, 7, 0, 0, 0, 0xff, 0xff]).is_err(),
        "a false MIME length must be refused"
    );
}

#[test]
fn encoding_byte_for_byte() {
    let offer = ClipboardMsg::Offer {
        transfer_id: 0x0403_0201,
        mime: "é".to_string(),
        total_len: 0x0c0b_0a09_0807_0605,
    };
    assert_eq!(
        offer.encode(),
        vec![1, 1, 2, 3, 4, 2, 0, 0xc3, 0xa9, 5, 6, 7, 8, 9, 10, 11, 12]
    );
    let chunk = ClipboardMsg::Chunk { transfer_id: 1, seq: 2, payload: vec![9, 8] };
    assert_eq!(chunk.encode(), vec![2, 1, 0, 0, 0, 2, 0, 0, 0, 2, 0, 0, 0, 9, 8]);
    assert_eq!(ClipboardMsg::Complete { transfer_id: 258 }.encode(), vec![3, 2, 1, 0, 0]);
    assert_eq!(
        ClipboardMsg::Abort { transfer_id: 1, reason: 7 }.encode(),
        vec![4, 1, 0, 0, 0, 7]
    );
}

#[test]
fn decoding_says_what_is_wrong() {
    let why = |b: &[u8]| match ClipboardMsg::decode(b) {
        Err(ClipboardError::Decode(why)) => why,
        other => panic!("unexpected {other:?}"),
    };
    assert_eq!(why(&[]), "truncated");
    assert_eq!(why(&[0]), "unknown message type");
    assert_eq!(why(&[5]), "unknown message type");
    assert_eq!(why(&[TYPE_COMPLETE, 1, 0, 0]), "truncated");
    assert_eq!(why(&[TYPE_ABORT, 1, 0, 0, 0]), "truncated");
    assert_eq!(why(&[TYPE_CHUNK, 1, 0, 0, 0, 0, 0, 0, 0, 3, 0, 0, 0, 1, 2]), "truncated");
    assert_eq!(
        why(&[TYPE_OFFER, 1, 0, 0, 0, 1, 0, 0xff, 0, 0, 0, 0, 0, 0, 0, 0]),
        "mime not utf-8"
    );
    assert_eq!(why(&[TYPE_OFFER, 1, 0, 0, 0, 1, 0, b'a', 0, 0, 0, 0, 0, 0, 0]), "truncated");
}

#[test]
fn bytes_after_a_message_are_ignored() {
    let msg = ClipboardMsg::Abort { transfer_id: 3, reason: 9 };
    let mut buf = msg.encode();
    buf.extend_from_slice(&[1, 2, 3]);
    assert_eq!(ClipboardMsg::decode(&buf).unwrap(), msg);
}

#[test]
fn a_mime_length_is_cut_off_at_two_bytes() {
    let msg = ClipboardMsg::Offer {
        transfer_id: 1,
        mime: "a".repeat(65536 + 3),
        total_len: 0,
    };
    let buf = msg.encode();
    assert_eq!(&buf[5..7], &[3, 0]);
    assert_ne!(ClipboardMsg::decode(&buf).unwrap(), msg);
}

#[test]
fn test_assembler_normal_path() {
    let mut a = ClipboardAssembler::new();
    a.offer(1, SUPPORTED_MIME, 11).unwrap();
    a.push_chunk(1, 0, b"hello ").unwrap();
    a.push_chunk(1, 1, b"world").unwrap();
    assert_eq!(a.complete().unwrap(), b"hello world".to_vec());
}

#[test]
fn test_assembler_rejects_oversize_and_bad_mime() {
    let mut a = ClipboardAssembler::new();
    assert!(matches!(
        a.offer(1, SUPPORTED_MIME, MAX_TOTAL_LEN as u64 + 1),
        Err(ClipboardError::Oversize)
    ));
    assert!(matches!(a.offer(1, "image/png", 4), Err(ClipboardError::UnsupportedMime)));
}

#[test]
fn test_assembler_rejects_bad_chunks() {
    let mut a = ClipboardAssembler::new();
    assert!(a.push_chunk(1, 0, b"ab").is_err(), "a chunk without an offer");

    a.offer(1, SUPPORTED_MIME, 4).unwrap();
    assert!(a.push_chunk(2, 0, b"ab").is_err(), "another transfer");
    assert!(
        a.push_chunk(1, 0, &vec![0u8; MAX_CHUNK_LEN + 1]).is_err(),
        "longer than a chunk may be"
    );
    assert!(a.push_chunk(1, 5, b"ab").is_err(), "out of order");
    assert!(a.push_chunk(1, 0, b"abcde").is_err(), "more than was announced");
    assert!(a.complete().is_err(), "not all there yet");

    a.push_chunk(1, 0, b"abcd").unwrap();
    assert_eq!(a.complete().unwrap(), b"abcd".to_vec());
}

#[test]
fn test_assembler_abort_and_reuse() {
    let mut a = ClipboardAssembler::new();
    a.offer(1, SUPPORTED_MIME, 4).unwrap();
    a.push_chunk(1, 0, b"ab").unwrap();
    a.abort();

    // ready for the next transfer
    a.offer(2, SUPPORTED_MIME, 2).unwrap();
    a.push_chunk(2, 0, b"ok").unwrap();
    assert_eq!(a.complete().unwrap(), b"ok".to_vec());
}

#[test]
fn test_assembler_rejects_concurrent_transfer() {
    let mut a = ClipboardAssembler::new();
    a.offer(1, SUPPORTED_MIME, 4).unwrap();
    assert!(a.offer(2, SUPPORTED_MIME, 4).is_err());
}

#[test]
fn assembler_says_what_is_wrong() {
    let violation = |r: Result<(), ClipboardError>| match r {
        Err(ClipboardError::Protocol(why)) => why,
        other => panic!("unexpected {other:?}"),
    };
    let mut a = ClipboardAssembler::default();
    assert!(matches!(a.complete(), Err(ClipboardError::Protocol("no active transfer"))));
    assert_eq!(violation(a.push_chunk(1, 0, b"")), "no active transfer");
    a.offer(1, SUPPORTED_MIME, MAX_TOTAL_LEN as u64).unwrap();
    assert_eq!(violation(a.offer(1, "x", u64::MAX)), "transfer already in progress");
    assert_eq!(violation(a.push_chunk(2, 9, b"")), "transfer_id mismatch");
    assert_eq!(violation(a.push_chunk(1, 1, b"")), "chunk out of order");
    let long = vec![0u8; MAX_CHUNK_LEN + 1];
    assert!(matches!(a.push_chunk(1, 0, &long), Err(ClipboardError::Oversize)));
    assert!(matches!(a.complete(), Err(ClipboardError::Protocol("incomplete transfer"))));
    a.discard_all();
    a.offer(3, SUPPORTED_MIME, 1).unwrap();
    assert_eq!(violation(a.push_chunk(3, 0, b"ab")), "chunks exceed declared total_len");
}

#[test]
fn assembler_takes_the_largest_transfer() {
    let mut a = ClipboardAssembler::new();
    a.offer(1, SUPPORTED_MIME, MAX_TOTAL_LEN as u64).unwrap();
    for seq in 0..64u32 {
        assert!(a.accepts_chunk(1, seq, &vec![seq as u8; MAX_CHUNK_LEN]));
        a.push_chunk(1, seq, &vec![seq as u8; MAX_CHUNK_LEN]).unwrap();
    }
    assert!(!a.accepts_chunk(1, 64, b"x"));
    let data = a.complete().unwrap();
    assert_eq!(data.len(), MAX_TOTAL_LEN);
    assert_eq!(data[MAX_TOTAL_LEN - 1], 63);
}

#[test]
fn session_delivers_and_starts_over() {
    let mut s = ReceiveSession::new(false);
    let offer = ClipboardMsg::Offer {
        transfer_id: 4,
        mime: SUPPORTED_MIME.to_string(),
        total_len: 2,
    };
    assert_eq!(
        s.on_msg(offer.clone()).unwrap(),
        SessionAction::Began { transfer_id: 4, mime: SUPPORTED_MIME.to_string(), total_len: 2 }
    );
    let chunk = ClipboardMsg::Chunk { transfer_id: 4, seq: 0, payload: b"ok".to_vec() };
    assert!(s.can_take(&chunk));
    assert_eq!(s.on_msg(chunk).unwrap(), SessionAction::Stored);
    assert_eq!(
        s.on_msg(ClipboardMsg::Complete { transfer_id: 4 }).unwrap(),
        SessionAction::Deliver {
            transfer_id: 4,
            mime: SUPPORTED_MIME.to_string(),
            data: b"ok".to_vec(),
            to_clipboard: true
        }
    );
    s.on_msg(offer).unwrap();
    assert_eq!(
        s.on_msg(ClipboardMsg::Abort { transfer_id: 99, reason: 5 }).unwrap(),
        SessionAction::Aborted { transfer_id: 99, reason: 5 }
    );
    assert!(matches!(
        s.on_msg(ClipboardMsg::Complete { transfer_id: 4 }),
        Err(ClipboardError::Protocol("no active transfer"))
    ));
}

#[test]
fn session_without_clipboard_keeps_off_it() {
    let mut s = ReceiveSession::new(true);
    s.on_msg(ClipboardMsg::Offer {
        transfer_id: 1,
        mime: SUPPORTED_MIME.to_string(),
        total_len: 0,
    })
    .unwrap();
    match s.on_msg(ClipboardMsg::Complete { transfer_id: 8 }).unwrap() {
        SessionAction::Deliver { transfer_id, data, to_clipboard, .. } => {
            assert_eq!(transfer_id, 8);
            assert!(data.is_empty());
            assert!(!to_clipboard);
        }
        other => panic!("unexpected {other:?}"),
    }
}

#[test]
fn session_refuses_other_types_and_forgets_on_disconnect() {
    let mut s = ReceiveSession::new(false);
    assert!(matches!(
        s.on_msg(ClipboardMsg::Offer {
            transfer_id: 1,
            mime: "image/png".to_string(),
            total_len: 4
        }),
        Err(ClipboardError::UnsupportedMime)
    ));
    s.on_msg(ClipboardMsg::Offer {
        transfer_id: 1,
        mime: SUPPORTED_MIME.to_string(),
        total_len: 4,
    })
    .unwrap();
    s.on_disconnect();
    assert!(s.on_msg(ClipboardMsg::Complete { transfer_id: 1 }).is_err());
}
