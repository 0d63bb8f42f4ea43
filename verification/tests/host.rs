//! The command line, keys as text, the allow list and the sending side.

use velokvm::args::{command, flag, genkey_out, opt, opt_all, Command};
use velokvm::hex::{from_hex, to_hex};
use velokvm::keys::{genkey, key_files};
use velokvm::push::{
    file_data, peer_addr, push_keys, push_plan, push_request, text_data, PushError, PushPlan,
    PushSource,
};
use velokvm::serve::{allow_list, is_private_key, serve_request};
use velokvm::{
    AllowError, AllowList, ClipboardMsg, ReceiveSession, SessionAction, DEFAULT_PORT,
    MAX_CHUNK_LEN, MAX_TOTAL_LEN, SUPPORTED_MIME,
};

fn strings(args: &[&str]) -> Vec<String> {
    args.iter().map(|s| s.to_string()).collect()
}

const KEY_A: &str = "f4bd8d46710d63ec0d761b730fa3c60eb3ad703eaaa0f703c6ae32370340430b";
const KEY_B: &str = "00112233445566778899AABBCCDDEEFF00112233445566778899aabbccddeeff";

#[test]
fn options_are_found_by_name() {
    let args = strings(&["--key", "a", "--allow-key", "x", "--dump", "--allow-key", "y", "--key"]);
    assert_eq!(opt(&args, "--key"), Some("a".to_string()));
    assert_eq!(opt(&args, "--listen"), None);
    assert_eq!(opt_all(&args, "--allow-key"), strings(&["x", "y"]));
    assert_eq!(opt_all(&args, "--key"), strings(&["a"]));
    assert!(flag(&args, "--dump"));
    assert!(!flag(&args, "--no-wl-copy"));
    assert_eq!(opt(&strings(&["--key"]), "--key"), None);
}

#[test]
fn commands_are_told_apart() {
    assert_eq!(command(&[]), Command::Help);
    for word in ["-h", "--help", "help"] {
        assert_eq!(command(&strings(&[word])), Command::Help);
    }
    assert_eq!(command(&strings(&["genkey", "x"])), Command::Genkey);
    assert_eq!(command(&strings(&["serve"])), Command::Serve);
    assert_eq!(command(&strings(&["push"])), Command::Push);
    assert_eq!(command(&strings(&["Push"])), Command::Unknown);
}

#[test]
fn genkey_takes_its_path_either_way() {
    assert_eq!(genkey_out(&strings(&["--out", "k"])), Some("k".to_string()));
    assert_eq!(genkey_out(&strings(&["station.key"])), Some("station.key".to_string()));
    assert_eq!(genkey_out(&strings(&["a", "--out", "b"])), Some("b".to_string()));
    assert_eq!(genkey_out(&strings(&["--out"])), None);
    assert_eq!(genkey_out(&strings(&["x", "--out"])), None);
    assert_eq!(genkey_out(&strings(&["-h"])), None);
    assert_eq!(genkey_out(&strings(&["-"])), None);
    assert_eq!(genkey_out(&[]), None);
}

#[test]
fn hexadecimal_both_ways() {
    assert_eq!(to_hex(&[0x00, 0x0f, 0xa5, 0xff]), "000fa5ff");
    assert_eq!(to_hex(&[]), "");
    assert_eq!(from_hex("000FA5ff"), Some(vec![0x00, 0x0f, 0xa5, 0xff]));
    assert_eq!(from_hex(""), Some(vec![]));
    assert_eq!(from_hex("abc"), None);
    assert_eq!(from_hex("0g"), None);
    assert_eq!(from_hex("+f"), None);
    assert_eq!(from_hex("f+"), None);
    assert_eq!(from_hex("++"), None);
    assert_eq!(from_hex(&to_hex(&[1, 2, 3])), Some(vec![1, 2, 3]));
}

#[test]
fn characters_of_several_bytes_are_no_digits() {
    for s in ["é", "aéb", "aé", "zzaéb", "€a", "a€"] {
        assert_eq!(from_hex(s), None);
    }
}

#[test]
fn allow_file_lines() {
    let mut list = AllowList::new();
    assert!(list.is_empty());
    let file = format!("# stations\n\n  {KEY_A}  # desk\r\n\t{KEY_B}\n{}", KEY_A.to_uppercase());
    assert_eq!(list.add_file(&file), Ok(()));
    assert_eq!(list.len(), 2);
    assert!(list.contains(KEY_A));
    assert!(list.contains(&KEY_B.to_lowercase()));
    assert!(!list.contains(KEY_B));
    assert!(list.authorizes(&from_hex(KEY_B).unwrap()));
    assert!(!list.authorizes(&[0u8; 32]));
}

#[test]
fn allow_file_names_the_bad_line() {
    let mut list = AllowList::new();
    assert_eq!(list.add_file(&format!("\n{KEY_A}\nabcd\n")), Err(AllowError::BadLine(3)));
    let mut list = AllowList::new();
    assert_eq!(list.add_file(&KEY_A[1..]), Err(AllowError::BadLine(1)));
}

#[test]
fn allow_keys_name_the_bad_key() {
    let mut list = AllowList::new();
    let keys = strings(&[KEY_A, "zz"]);
    assert_eq!(list.add_keys(&keys), Err(AllowError::BadKey(1)));
    let mut list = AllowList::new();
    assert_eq!(list.add_keys(&strings(&[KEY_A, KEY_B, KEY_A])), Ok(()));
    assert_eq!(list.len(), 2);
    for bad in ["aéb".to_string(), "+f".repeat(32), KEY_A[2..].to_string()] {
        let mut list = AllowList::new();
        assert_eq!(list.add_keys(&[bad]), Err(AllowError::BadKey(0)));
        assert!(list.is_empty());
    }
}

#[test]
fn serve_refuses_to_start_without_allowlist() {
    let request = serve_request(&strings(&["--key", "server.key", "--listen", "127.0.0.1:0"]));
    let request = request.expect("the arguments are in order");
    assert_eq!(request.listen, "127.0.0.1:0");
    assert_eq!(request.allow_path, None);
    assert_eq!(allow_list(None, &request.allow_keys).err(), Some(AllowError::Empty));
    assert_eq!(allow_list(Some("# nobody\n"), &[]).err(), Some(AllowError::Empty));
}

#[test]
fn serve_request_and_its_defaults() {
    assert_eq!(serve_request(&strings(&["--listen", "x"])), None);
    let request = serve_request(&strings(&["--key", "k"])).unwrap();
    assert_eq!(request.listen, format!("0.0.0.0:{DEFAULT_PORT}"));
    assert!(!request.dump && !request.no_wl_copy);
    let request = serve_request(&strings(&[
        "--key", "k", "--allow", "f", "--allow-key", "a", "--dump", "--allow-key", "b",
        "--no-wl-copy",
    ]))
    .unwrap();
    assert_eq!(request.allow_path, Some("f".to_string()));
    assert_eq!(request.allow_keys, strings(&["a", "b"]));
    assert!(request.dump && request.no_wl_copy);
    assert!(is_private_key(&[0u8; 32]));
    assert!(!is_private_key(&[0u8; 31]));
}

#[test]
fn allow_list_joins_file_and_keys() {
    let list = allow_list(Some(KEY_A), &strings(&[KEY_B])).unwrap();
    assert_eq!(list.len(), 2);
    assert_eq!(
        allow_list(Some("xyz"), &strings(&["zz"])).err(),
        Some(AllowError::BadLine(1))
    );
    assert_eq!(
        allow_list(Some(KEY_A), &strings(&["zz"])).err(),
        Some(AllowError::BadKey(0))
    );
    assert_eq!(
        allow_list(None, &["+f".repeat(32)]).err(),
        Some(AllowError::BadKey(0))
    );
    assert_eq!(
        allow_list(Some(&"+f".repeat(32)), &[]).err(),
        Some(AllowError::BadLine(1))
    );
    assert_eq!(allow_list(Some("a€"), &[]).err(), Some(AllowError::BadLine(1)));
}

#[test]
fn key_files_hold_the_pair() {
    let files = key_files("k", vec![7u8; 32], &[0xab; 32]).unwrap();
    assert_eq!(files.private_path, "k");
    assert_eq!(files.private, vec![7u8; 32]);
    assert_eq!(files.public_path, "k.pub");
    assert_eq!(files.public_hex, "ab".repeat(32));
    assert_eq!(files.public_content, format!("{}\n", "ab".repeat(32)));
    assert_eq!(key_files("k", vec![7u8; 31], &[0xab; 32]), None);
}

#[test]
fn generated_public_key_goes_into_an_allow_file() {
    let one = genkey("a").unwrap();
    let two = genkey("b").unwrap();
    assert_eq!(one.private.len(), 32);
    assert_ne!(one.private, two.private);
    assert_eq!(one.public_hex.len(), 64);
    assert_ne!(to_hex(&one.private), one.public_hex);
    let file = format!("{}{}", one.public_content, two.public_content);
    let list = allow_list(Some(&file), &[]).unwrap();
    assert_eq!(list.len(), 2);
    assert!(list.contains(&one.public_hex) && list.contains(&two.public_hex));
}

#[test]
fn push_request_needs_exactly_one_source() {
    let base = ["--peer", "h", "--key", "k", "--peer-key", KEY_A];
    let with = |more: &[&str]| push_request(&strings(&[&base[..], more].concat()));
    let request = with(&["--text", "hi"]).unwrap();
    assert_eq!((request.peer.as_str(), request.key_path.as_str()), ("h", "k"));
    assert_eq!(request.peer_key, KEY_A);
    assert_eq!(request.source, PushSource::Text("hi".to_string()));
    assert_eq!(with(&["--file", "f"]).unwrap().source, PushSource::File("f".to_string()));
    assert_eq!(with(&["--text", "a", "--file", "b"]), Err(PushError::TextAndFile));
    assert_eq!(with(&[]), Err(PushError::NoContent));
    assert_eq!(push_request(&[]), Err(PushError::MissingPeer));
    assert_eq!(push_request(&strings(&base[..2])), Err(PushError::MissingKey));
    assert_eq!(push_request(&strings(&base[..4])), Err(PushError::MissingPeerKey));
}

#[test]
fn push_data_must_be_short_and_text() {
    assert_eq!(text_data("hé"), vec![b'h', 0xc3, 0xa9]);
    assert_eq!(file_data(b"abc".to_vec()), Ok(b"abc".to_vec()));
    assert_eq!(file_data(vec![0xff]), Err(PushError::FileNotUtf8));
    let long = file_data(vec![b'a'; MAX_TOTAL_LEN + 1]).unwrap();
    assert_eq!(
        push_plan(&long),
        PushPlan::Refuse { abort: ClipboardMsg::Abort { transfer_id: 1, reason: 1 } }
    );
    assert_eq!(file_data(vec![0xff; MAX_TOTAL_LEN + 1]).unwrap().len(), MAX_TOTAL_LEN + 1);
    assert!(file_data(vec![b'a'; MAX_TOTAL_LEN]).is_ok());
}

#[test]
fn push_keys_must_have_the_right_length() {
    assert_eq!(push_keys(&[0u8; 32], KEY_A), Ok(from_hex(KEY_A).unwrap()));
    assert_eq!(push_keys(&[0u8; 16], "aéb"), Err(PushError::BadPrivateKey));
    assert_eq!(push_keys(&[0u8; 32], "abcd"), Err(PushError::BadPeerKey));
    assert_eq!(push_keys(&[0u8; 32], "zz"), Err(PushError::BadPeerKey));
    assert_eq!(push_keys(&[0u8; 32], "aéb"), Err(PushError::BadPeerKey));
    assert_eq!(push_keys(&[0u8; 32], &"+f".repeat(32)), Err(PushError::BadPeerKey));
}

#[test]
fn an_address_without_a_port_gets_the_default() {
    assert_eq!(peer_addr("192.168.1.100"), format!("192.168.1.100:{DEFAULT_PORT}"));
    assert_eq!(peer_addr("192.168.1.100:1"), "192.168.1.100:1");
    assert_eq!(peer_addr("station"), "station:9022");
    assert_eq!(peer_addr("[::1]"), "[::1]:9022");
    assert_eq!(peer_addr("[::1]:1"), "[::1]:1");
    for bare in ["::1", "::", "fe80::1", "2001:db8::8a2e", "1:2:3:4:5:6:7:8", "1::"] {
        let with_port = format!("[{bare}]:9022");
        assert_eq!(peer_addr(bare), with_port);
    }
    assert_eq!(peer_addr("fe80::1:abcd"), "[fe80::1:abcd]:9022");
    for named in [
        "::1:9022",
        "::1:65535",
        "1:2:3:4:5:6:7:8:9022",
        "fe80::1%eth0:9022",
        "a:b:c",
        "1:::2",
        "12345::",
        "1::2::3",
    ] {
        assert_eq!(peer_addr(named), named);
    }
}

#[test]
fn push_of_a_hundred_thousand_bytes_is_seven_chunks() {
    match push_plan(&[b'x'; 100_000]) {
        PushPlan::Send { messages, chunks } => {
            assert_eq!(chunks, 7);
            assert_eq!(messages.len(), 9);
            match &messages[7] {
                ClipboardMsg::Chunk { transfer_id, seq, payload } => {
                    assert_eq!((*transfer_id, *seq), (1, 6));
                    assert_eq!(payload.len(), 100_000 - 6 * MAX_CHUNK_LEN);
                }
                other => panic!("unexpected {other:?}"),
            }
        }
        other => panic!("unexpected {other:?}"),
    }
}

#[test]
fn push_of_nothing_and_of_too_much() {
    assert_eq!(
        push_plan(&[]),
        PushPlan::Send {
            messages: vec![
                ClipboardMsg::Offer {
                    transfer_id: 1,
                    mime: SUPPORTED_MIME.to_string(),
                    total_len: 0
                },
                ClipboardMsg::Complete { transfer_id: 1 }
            ],
            chunks: 0
        }
    );
    assert_eq!(
        push_plan(&vec![0u8; MAX_TOTAL_LEN + 1]),
        PushPlan::Refuse { abort: ClipboardMsg::Abort { transfer_id: 1, reason: 1 } }
    );
}

#[test]
fn a_push_is_delivered_whole_or_not_at_all() {
    for len in [0usize, 1, MAX_CHUNK_LEN, MAX_CHUNK_LEN + 1, MAX_TOTAL_LEN] {
        let data: Vec<u8> = (0..len).map(|i| (i % 251) as u8).collect();
        let messages = match push_plan(&data) {
            PushPlan::Send { messages, .. } => messages,
            other => panic!("unexpected {other:?}"),
        };
        let last = messages.len() - 1;
        let mut session = ReceiveSession::new(false);
        for (i, msg) in messages.into_iter().enumerate() {
            assert!(session.can_take(&msg));
            match session.on_msg(msg).unwrap() {
                SessionAction::Deliver { data: got, to_clipboard, .. } => {
                    assert_eq!(i, last);
                    assert_eq!(got, data);
                    assert!(to_clipboard);
                }
                _ => assert!(i < last),
            }
        }
    }
}
