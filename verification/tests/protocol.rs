//! The motion packet, its tag and its flags.

use velokvm::protocol::{ButtonFlags, PacketTag, RelMotionPacket, REL_MOTION_SIZE};

#[test]
fn test_packet_bitpacking_zero_copy() {
    let mut flags = ButtonFlags::default();
    flags.set(ButtonFlags::BTN_LEFT);
    flags.set(ButtonFlags::BTN_EXTRA);

    let pkt = RelMotionPacket::new(1001, 500234, -25, 42, 1, -1, flags);
    assert_eq!(std::mem::size_of::<RelMotionPacket>(), 16);
    assert_eq!(REL_MOTION_SIZE, 16);

    let bytes = pkt.as_bytes();
    assert_eq!(bytes.len(), 16);
    assert_eq!(bytes[0], PacketTag::RelMotion.as_u8());

    let decoded = RelMotionPacket::from_bytes(&bytes).expect("Valid decode");
    assert_eq!(decoded.sequence(), 1001);
    assert_eq!(decoded.timestamp_us(), 500234);
    assert_eq!(decoded.dx(), -25);
    assert_eq!(decoded.dy(), 42);
    assert_eq!(decoded.wheel_v(), 1);
    assert_eq!(decoded.wheel_h(), -1);
    assert!(decoded.flags().is_set(ButtonFlags::BTN_LEFT));
    assert!(decoded.flags().is_set(ButtonFlags::BTN_EXTRA));
    assert!(!decoded.flags().is_set(ButtonFlags::BTN_RIGHT));
}

#[test]
fn packet_layout_byte_for_byte() {
    let pkt = RelMotionPacket::new(
        0x0403_0201,
        0x0807_0605,
        0x0a09,
        -2,
        0x7f,
        -128,
        ButtonFlags(0x11),
    );
    assert_eq!(
        pkt.as_bytes(),
        [
            0x10, 0x11, 0x01, 0x02, 0x03, 0x04, 0x05, 0x06, 0x07, 0x08, 0x09, 0x0a, 0xfe, 0xff,
            0x7f, 0x80
        ]
    );
}

#[test]
fn packet_extremes_survive() {
    for (dx, dy, v, h) in [
        (i16::MIN, i16::MAX, i8::MIN, i8::MAX),
        (-1, 0, -1, 0),
        (0, -1, 0, -1),
    ] {
        let pkt = RelMotionPacket::new(u32::MAX, 0, dx, dy, v, h, ButtonFlags(0xff));
        assert_eq!(RelMotionPacket::from_bytes(&pkt.as_bytes()), Some(pkt));
    }
}

#[test]
fn packet_is_read_from_the_front_only() {
    let pkt = RelMotionPacket::new(1, 2, 3, 4, 5, 6, ButtonFlags(0));
    let mut bytes = pkt.as_bytes().to_vec();
    assert_eq!(RelMotionPacket::from_bytes(&bytes[..15]), None);
    bytes.push(0xaa);
    assert_eq!(RelMotionPacket::from_bytes(&bytes), Some(pkt));
    bytes[0] = 0x11;
    assert_eq!(RelMotionPacket::from_bytes(&bytes), None);
    assert_eq!(RelMotionPacket::from_bytes(&[]), None);
}

#[test]
fn tags_and_bytes_belong_together() {
    let tags = [
        (PacketTag::Ping, 0x01u8),
        (PacketTag::Pong, 0x02),
        (PacketTag::RelMotion, 0x10),
        (PacketTag::AbsMotion, 0x11),
        (PacketTag::KeyAction, 0x20),
        (PacketTag::BatchBundle, 0x30),
    ];
    for (tag, byte) in tags {
        assert_eq!(tag.as_u8(), byte);
        assert_eq!(PacketTag::try_from(byte), Ok(tag));
    }
    for byte in [0x00u8, 0x03, 0x12, 0xff] {
        assert_eq!(PacketTag::try_from(byte), Err("Unknown PacketTag"));
    }
}

#[test]
fn flags_set_and_clear_only_their_own_bits() {
    assert_eq!(
        [
            ButtonFlags::BTN_LEFT,
            ButtonFlags::BTN_RIGHT,
            ButtonFlags::BTN_MIDDLE,
            ButtonFlags::BTN_SIDE,
            ButtonFlags::BTN_EXTRA
        ],
        [1, 2, 4, 8, 16]
    );
    let mut flags = ButtonFlags::default();
    assert_eq!(flags, ButtonFlags(0));
    flags.set(ButtonFlags::BTN_MIDDLE);
    flags.set(ButtonFlags::BTN_SIDE);
    assert_eq!(flags, ButtonFlags(0x0c));
    flags.clear(ButtonFlags::BTN_MIDDLE);
    assert_eq!(flags, ButtonFlags(0x08));
    flags.clear(ButtonFlags::BTN_LEFT);
    assert_eq!(flags, ButtonFlags(0x08));
    assert!(flags.is_set(ButtonFlags::BTN_SIDE));
    assert!(!flags.is_set(ButtonFlags::BTN_MIDDLE));
}
