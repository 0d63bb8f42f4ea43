//! The fast path: a motion packet of 16 bytes.
//!
//! Tag, button flags, then sequence number and timestamp in four bytes each, the two motions in
//! two bytes each and the two wheels in one byte each; integers little-endian, negative ones in
//! two's complement.

use vstd::prelude::*;
use crate::bytes;

verus! {

/// What kind of packet it is.
#[derive(Debug, Clone, Copy, PartialEq, Eq, Structural)]
pub enum PacketTag {
    Ping,
    Pong,
    RelMotion,
    AbsMotion,
    KeyAction,
    BatchBundle,
}

impl PacketTag {
    /// The byte of a tag.
    pub open spec fn byte(self) -> u8 {
        match self {
            PacketTag::Ping => 0x01,
            PacketTag::Pong => 0x02,
            PacketTag::RelMotion => 0x10,
            PacketTag::AbsMotion => 0x11,
            PacketTag::KeyAction => 0x20,
            PacketTag::BatchBundle => 0x30,
        }
    }

    /// The tag of a byte, if it has one.
    pub open spec fn of_byte(val: u8) -> Result<PacketTag, &'static str> {
        if val == 0x01 {
            Ok(PacketTag::Ping)
        } else if val == 0x02 {
            Ok(PacketTag::Pong)
        } else if val == 0x10 {
            Ok(PacketTag::RelMotion)
        } else if val == 0x11 {
            Ok(PacketTag::AbsMotion)
        } else if val == 0x20 {
            Ok(PacketTag::KeyAction)
        } else if val == 0x30 {
            Ok(PacketTag::BatchBundle)
        } else {
            Err("Unknown PacketTag")
        }
    }

    /// The byte of the tag.
    pub fn as_u8(self) -> (b: u8)
        ensures
            b == self.byte(),
    {
        match self {
            PacketTag::Ping => 0x01,
            PacketTag::Pong => 0x02,
            PacketTag::RelMotion => 0x10,
            PacketTag::AbsMotion => 0x11,
            PacketTag::KeyAction => 0x20,
            PacketTag::BatchBundle => 0x30,
        }
    }
}

impl TryFrom<u8> for PacketTag {
    type Error = &'static str;

    fn try_from(val: u8) -> (r: Result<Self, Self::Error>) {
        match val {
            0x01 => Ok(PacketTag::Ping),
            0x02 => Ok(PacketTag::Pong),
            0x10 => Ok(PacketTag::RelMotion),
            0x11 => Ok(PacketTag::AbsMotion),
            0x20 => Ok(PacketTag::KeyAction),
            0x30 => Ok(PacketTag::BatchBundle),
            _ => Err("Unknown PacketTag"),
        }
    }
}

impl vstd::std_specs::convert::TryFromSpecImpl<u8> for PacketTag {
    open spec fn obeys_try_from_spec() -> bool {
        true
    }

    open spec fn try_from_spec(val: u8) -> Result<Self, Self::Error> {
        PacketTag::of_byte(val)
    }
}

/// Which buttons are held, one bit each.
#[derive(Debug, Clone, Copy, PartialEq, Eq, Structural)]
pub struct ButtonFlags(pub u8);

impl Default for ButtonFlags {
    fn default() -> (r: Self)
        ensures
            r.0 == 0,
    {
        ButtonFlags(0)
    }
}

impl ButtonFlags {
    pub const BTN_LEFT: u8 = 0x01;

    pub const BTN_RIGHT: u8 = 0x02;

    pub const BTN_MIDDLE: u8 = 0x04;

    pub const BTN_SIDE: u8 = 0x08;

    pub const BTN_EXTRA: u8 = 0x10;

    /// Whether any of the bits in `bit` is among the flags.
    pub open spec fn has(self, bit: u8) -> bool {
        self.0 & bit != 0
    }

    /// The flags with the bits in `bit`.
    pub open spec fn with(self, bit: u8) -> ButtonFlags {
        ButtonFlags(self.0 | bit)
    }

    /// The flags without the bits in `bit`.
    pub open spec fn without(self, bit: u8) -> ButtonFlags {
        ButtonFlags(self.0 & !bit)
    }

    /// Whether any of the bits in `bit` is set.
    pub fn is_set(&self, bit: u8) -> (r: bool)
        ensures
            r == (self.0 & bit != 0),
            r == self.has(bit),
    {
        (self.0 & bit) != 0
    }

    /// Sets the bits in `bit`.
    pub fn set(&mut self, bit: u8)
        ensures
            final(self).0 == old(self).0 | bit,
            *final(self) == old(self).with(bit),
    {
        self.0 = self.0 | bit;
    }

    /// Clears the bits in `bit`.
    pub fn clear(&mut self, bit: u8)
        ensures
            final(self).0 == old(self).0 & !bit,
            *final(self) == old(self).without(bit),
    {
        self.0 = self.0 & !bit;
    }
}

/// A relative motion of the pointer.
#[derive(Debug, Clone, Copy, PartialEq, Eq, Structural)]
pub struct RelMotionPacket {
    pub tag: PacketTag,
    pub flags: ButtonFlags,
    pub sequence: u32,
    pub timestamp_us: u32,
    pub dx: i16,
    pub dy: i16,
    pub wheel_v: i8,
    pub wheel_h: i8,
}

/// Length of a motion packet.
pub const REL_MOTION_SIZE: usize = 16;

/// A number of 16 bits in two's complement.
pub open spec fn twos16(x: i16) -> nat {
    if x >= 0 {
        x as nat
    } else {
        (x + 0x1_0000) as nat
    }
}

/// A number of 8 bits in two's complement.
pub open spec fn twos8(x: i8) -> nat {
    if x >= 0 {
        x as nat
    } else {
        (x + 0x100) as nat
    }
}

/// The bytes of a motion packet.
pub open spec fn packet_bytes(p: RelMotionPacket) -> Seq<u8> {
    seq![p.tag.byte(), p.flags.0] + bytes::le_bytes(p.sequence as nat, 4) + bytes::le_bytes(
        p.timestamp_us as nat,
        4,
    ) + bytes::le_bytes(twos16(p.dx), 2) + bytes::le_bytes(twos16(p.dy), 2) + seq![
        twos8(p.wheel_v) as u8,
        twos8(p.wheel_h) as u8,
    ]
}

/// Whether `r` is the motion packet at the front of some bytes, or `None` if there is none.
pub open spec fn reads_as(b: Seq<u8>, r: Option<RelMotionPacket>) -> bool {
    match r {
        Some(p) => b.len() >= REL_MOTION_SIZE && p.tag == PacketTag::RelMotion && packet_bytes(p)
            == b.subrange(0, REL_MOTION_SIZE as int),
        None => b.len() < REL_MOTION_SIZE || b[0] != PacketTag::RelMotion.byte(),
    }
}

fn u16_of(x: i16) -> (u: u16)
    ensures
        u == twos16(x),
{
    if x >= 0 {
        x as u16
    } else {
        (x as i32 + 0x1_0000) as u16
    }
}

fn i16_of(u: u16) -> (x: i16)
    ensures
        u == twos16(x),
{
    if u < 0x8000 {
        u as i16
    } else {
        (u as i32 - 0x1_0000) as i16
    }
}

fn u8_of(x: i8) -> (u: u8)
    ensures
        u == twos8(x),
{
    if x >= 0 {
        x as u8
    } else {
        (x as i32 + 0x100) as u8
    }
}

fn i8_of(u: u8) -> (x: i8)
    ensures
        u == twos8(x),
{
    if u < 0x80 {
        u as i8
    } else {
        (u as i32 - 0x100) as i8
    }
}

impl RelMotionPacket {
    /// A motion packet.
    pub fn new(
        sequence: u32,
        timestamp_us: u32,
        dx: i16,
        dy: i16,
        wheel_v: i8,
        wheel_h: i8,
        flags: ButtonFlags,
    ) -> (p: Self)
        ensures
            p == (RelMotionPacket {
                tag: PacketTag::RelMotion,
                flags,
                sequence,
                timestamp_us,
                dx,
                dy,
                wheel_v,
                wheel_h,
            }),
    {
        RelMotionPacket {
            tag: PacketTag::RelMotion,
            flags,
            sequence,
            timestamp_us,
            dx,
            dy,
            wheel_v,
            wheel_h,
        }
    }

    /// The motion packet at the front of `slice`, if there is one: 16 bytes or more, with the tag
    /// of a motion packet.
    pub fn from_bytes(slice: &[u8]) -> (r: Option<Self>)
        ensures
            match r {
                Some(p) => slice@.len() >= REL_MOTION_SIZE && p.tag == PacketTag::RelMotion
                    && packet_bytes(p) == slice@.subrange(0, REL_MOTION_SIZE as int),
                None => slice@.len() < REL_MOTION_SIZE || slice@[0] != PacketTag::RelMotion.byte(),
            },
            reads_as(slice@, r),
    {
        if slice.len() < REL_MOTION_SIZE {
            return None;
        }
        if slice[0] != PacketTag::RelMotion.as_u8() {
            return None;
        }
        let p = RelMotionPacket {
            tag: PacketTag::RelMotion,
            flags: ButtonFlags(slice[1]),
            sequence: bytes::u32_from_le(vstd::slice::slice_subrange(slice, 2, 6)),
            timestamp_us: bytes::u32_from_le(vstd::slice::slice_subrange(slice, 6, 10)),
            dx: i16_of(bytes::u16_from_le(vstd::slice::slice_subrange(slice, 10, 12))),
            dy: i16_of(bytes::u16_from_le(vstd::slice::slice_subrange(slice, 12, 14))),
            wheel_v: i8_of(slice[14]),
            wheel_h: i8_of(slice[15]),
        };
        proof {
            let s = slice@;
            bytes::lemma_le_bytes_of_value(s.subrange(2, 6));
            bytes::lemma_le_bytes_of_value(s.subrange(6, 10));
            bytes::lemma_le_bytes_of_value(s.subrange(10, 12));
            bytes::lemma_le_bytes_of_value(s.subrange(12, 14));
            assert(packet_bytes(p) =~= s.subrange(0, REL_MOTION_SIZE as int));
        }
        Some(p)
    }

    /// The bytes of the packet.
    pub fn as_bytes(&self) -> (out: [u8; REL_MOTION_SIZE])
        ensures
            out@ == packet_bytes(*self),
    {
        let seq = bytes::u32_to_le(self.sequence);
        let time = bytes::u32_to_le(self.timestamp_us);
        let dx = bytes::u16_to_le(u16_of(self.dx));
        let dy = bytes::u16_to_le(u16_of(self.dy));
        let out: [u8; REL_MOTION_SIZE] = [
            self.tag.as_u8(),
            self.flags.0,
            seq[0],
            seq[1],
            seq[2],
            seq[3],
            time[0],
            time[1],
            time[2],
            time[3],
            dx[0],
            dx[1],
            dy[0],
            dy[1],
            u8_of(self.wheel_v),
            u8_of(self.wheel_h),
        ];
        proof {
            lemma_packet_len(*self);
            assert(out@ =~= packet_bytes(*self));
        }
        out
    }

    /// The sequence number.
    pub fn sequence(&self) -> (r: u32)
        ensures
            r == self.sequence,
    {
        self.sequence
    }

    /// The timestamp in microseconds, modulo 2^32.
    pub fn timestamp_us(&self) -> (r: u32)
        ensures
            r == self.timestamp_us,
    {
        self.timestamp_us
    }

    /// The motion to the right.
    pub fn dx(&self) -> (r: i16)
        ensures
            r == self.dx,
    {
        self.dx
    }

    /// The motion downward.
    pub fn dy(&self) -> (r: i16)
        ensures
            r == self.dy,
    {
        self.dy
    }

    /// The motion of the vertical wheel.
    pub fn wheel_v(&self) -> (r: i8)
        ensures
            r == self.wheel_v,
    {
        self.wheel_v
    }

    /// The motion of the horizontal wheel.
    pub fn wheel_h(&self) -> (r: i8)
        ensures
            r == self.wheel_h,
    {
        self.wheel_h
    }

    /// The buttons held.
    pub fn flags(&self) -> (r: ButtonFlags)
        ensures
            r == self.flags,
    {
        self.flags
    }
}

/// A motion packet is 16 bytes long.
pub proof fn lemma_packet_len(p: RelMotionPacket)
    ensures
        packet_bytes(p).len() == REL_MOTION_SIZE,
{
    bytes::lemma_le_bytes_len(p.sequence as nat, 4);
    bytes::lemma_le_bytes_len(p.timestamp_us as nat, 4);
    bytes::lemma_le_bytes_len(twos16(p.dx), 2);
    bytes::lemma_le_bytes_len(twos16(p.dy), 2);
}

/// Two packets of the same bytes are the same packet: nothing is lost on the wire.
pub proof fn law_packet_bytes_are_injective(p: RelMotionPacket, q: RelMotionPacket)
    requires
        packet_bytes(p) == packet_bytes(q),
    ensures
        p == q,
{
    lemma_fields_back(p);
    lemma_fields_back(q);
}

/// Each field can be read off its place.
pub proof fn lemma_fields_back(p: RelMotionPacket)
    ensures
        ({
            let b = packet_bytes(p);
            &&& b.len() == REL_MOTION_SIZE
            &&& b[0] == p.tag.byte()
            &&& b[1] == p.flags.0
            &&& bytes::le_value(b.subrange(2, 6)) == p.sequence
            &&& bytes::le_value(b.subrange(6, 10)) == p.timestamp_us
            &&& bytes::le_value(b.subrange(10, 12)) == twos16(p.dx)
            &&& bytes::le_value(b.subrange(12, 14)) == twos16(p.dy)
            &&& b[14] == twos8(p.wheel_v)
            &&& b[15] == twos8(p.wheel_h)
        }),
{
    let b = packet_bytes(p);
    lemma_packet_len(p);
    bytes::lemma_pow256_values();
    bytes::lemma_le_bytes_len(p.sequence as nat, 4);
    bytes::lemma_le_bytes_len(p.timestamp_us as nat, 4);
    bytes::lemma_le_bytes_len(twos16(p.dx), 2);
    bytes::lemma_le_bytes_len(twos16(p.dy), 2);
    bytes::lemma_le_value_of_bytes(p.sequence as nat, 4);
    bytes::lemma_le_value_of_bytes(p.timestamp_us as nat, 4);
    bytes::lemma_le_value_of_bytes(twos16(p.dx), 2);
    bytes::lemma_le_value_of_bytes(twos16(p.dy), 2);
    assert(b.subrange(2, 6) =~= bytes::le_bytes(p.sequence as nat, 4));
    assert(b.subrange(6, 10) =~= bytes::le_bytes(p.timestamp_us as nat, 4));
    assert(b.subrange(10, 12) =~= bytes::le_bytes(twos16(p.dx), 2));
    assert(b.subrange(12, 14) =~= bytes::le_bytes(twos16(p.dy), 2));
}

/// A tag and its byte determine each other.
pub proof fn law_tag_of_its_byte(tag: PacketTag)
    ensures
        PacketTag::of_byte(tag.byte()) == Ok::<PacketTag, &'static str>(tag),
{
}

/// A byte that has a tag is the byte of that tag.
pub proof fn law_byte_of_its_tag(val: u8)
    ensures
        PacketTag::of_byte(val) matches Ok(tag) ==> tag.byte() == val,
{
}

/// Bits that are set are found set, and setting them leaves every other bit as it was.
pub proof fn law_set_bits_are_set(flags: u8, bit: u8, other: u8)
    ensures
        bit != 0 ==> (flags | bit) & bit != 0,
        other & bit == 0 ==> (flags | bit) & other == flags & other,
{
    assert(bit != 0 ==> (flags | bit) & bit != 0) by (bit_vector);
    assert(other & bit == 0 ==> (flags | bit) & other == flags & other) by (bit_vector);
}

/// Bits that are cleared are found clear, and clearing them leaves every other bit as it was.
pub proof fn law_cleared_bits_are_clear(flags: u8, bit: u8, other: u8)
    ensures
        (flags & !bit) & bit == 0,
        other & bit == 0 ==> (flags & !bit) & other == flags & other,
{
    assert((flags & !bit) & bit == 0) by (bit_vector);
    assert(other & bit == 0 ==> (flags & !bit) & other == flags & other) by (bit_vector);
}

/// How a packet lies in its 16 bytes: the tag, the flags, then the numbers with their lowest byte
/// first, those with a sign as they are when cast bit for bit.
pub proof fn law_packet_layout(p: RelMotionPacket)
    ensures
        ({
            let b = packet_bytes(p);
            &&& b.len() == 16
            &&& p.tag == PacketTag::RelMotion ==> b[0] == 0x10
            &&& b[0] == p.tag.byte()
            &&& b[1] == p.flags.0
            &&& b[2] + 0x100 * b[3] + 0x1_0000 * b[4] + 0x100_0000 * b[5] == p.sequence
            &&& b[6] + 0x100 * b[7] + 0x1_0000 * b[8] + 0x100_0000 * b[9] == p.timestamp_us
            &&& b[10] + 0x100 * b[11] == p.dx as u16
            &&& b[12] + 0x100 * b[13] == p.dy as u16
            &&& b[14] == p.wheel_v as u8
            &&& b[15] == p.wheel_h as u8
            &&& (b[10] + 0x100 * b[11] - p.dx) % 0x1_0000 == 0
            &&& (b[12] + 0x100 * b[13] - p.dy) % 0x1_0000 == 0
            &&& (b[14] - p.wheel_v) % 0x100 == 0
            &&& (b[15] - p.wheel_h) % 0x100 == 0
        }),
{
    let b = packet_bytes(p);
    lemma_fields_back(p);
    bytes::law_fields_read_little_endian(b.subrange(2, 6));
    bytes::law_fields_read_little_endian(b.subrange(6, 10));
    bytes::law_fields_read_little_endian(b.subrange(10, 12));
    bytes::law_fields_read_little_endian(b.subrange(12, 14));
    lemma_casts(p.dx, p.wheel_v);
    lemma_casts(p.dy, p.wheel_h);
}

/// A number with a sign, cast bit for bit, goes up by the size of its range if it is negative.
proof fn lemma_casts(x: i16, y: i8)
    ensures
        x as u16 == (if x >= 0 {
            x as int
        } else {
            x + 0x1_0000
        }),
        y as u8 == (if y >= 0 {
            y as int
        } else {
            y + 0x100
        }),
{
    assert(x < 0 ==> x as u16 == x + 0x1_0000) by (bit_vector);
    assert(x >= 0 ==> x as u16 == x) by (bit_vector);
    assert(y < 0 ==> y as u8 == y + 0x100) by (bit_vector);
    assert(y >= 0 ==> y as u8 == y) by (bit_vector);
}

/// The bytes of the tags, none of which two tags share, and every other byte has no tag.
pub proof fn law_tag_bytes(val: u8)
    ensures
        PacketTag::Ping.byte() == 0x01,
        PacketTag::Pong.byte() == 0x02,
        PacketTag::RelMotion.byte() == 0x10,
        PacketTag::AbsMotion.byte() == 0x11,
        PacketTag::KeyAction.byte() == 0x20,
        PacketTag::BatchBundle.byte() == 0x30,
        PacketTag::of_byte(val) is Ok <==> seq![0x01u8, 0x02, 0x10, 0x11, 0x20, 0x30].contains(val),
        PacketTag::of_byte(val) matches Err(why) ==> why@ == "Unknown PacketTag"@,
{
    let all = seq![0x01u8, 0x02, 0x10, 0x11, 0x20, 0x30];
    assert(all[0] == 0x01 && all[1] == 0x02 && all[2] == 0x10 && all[3] == 0x11 && all[4] == 0x20
        && all[5] == 0x30);
}

/// Each button has a bit of its own.
pub proof fn law_button_bits()
    ensures
        ButtonFlags::BTN_LEFT == 1u8 << 0,
        ButtonFlags::BTN_RIGHT == 1u8 << 1,
        ButtonFlags::BTN_MIDDLE == 1u8 << 2,
        ButtonFlags::BTN_SIDE == 1u8 << 3,
        ButtonFlags::BTN_EXTRA == 1u8 << 4,
{
    assert(1u8 << 0 == 0x01) by (bit_vector);
    assert(1u8 << 1 == 0x02) by (bit_vector);
    assert(1u8 << 2 == 0x04) by (bit_vector);
    assert(1u8 << 3 == 0x08) by (bit_vector);
    assert(1u8 << 4 == 0x10) by (bit_vector);
}

/// Setting and clearing a bit, of eight, is seen in that bit and in no other.
pub proof fn law_one_button_at_a_time(flags: ButtonFlags, k: u8, other: u8)
    requires
        k < 8,
        other < 8,
    ensures
        flags.with(1u8 << k).has(1u8 << other) == (other == k || flags.has(1u8 << other)),
        flags.without(1u8 << k).has(1u8 << other) == (other != k && flags.has(1u8 << other)),
        flags.has(1u8 << k) <==> (flags.0 >> k) % 2 == 1,
{
    let f = flags.0;
    assert(((f | (1u8 << k)) & (1u8 << other) != 0) == (other == k || f & (1u8 << other) != 0))
        by (bit_vector)
        requires
            k < 8,
            other < 8,
    ;
    assert(((f & !(1u8 << k)) & (1u8 << other) != 0) == (other != k && f & (1u8 << other) != 0))
        by (bit_vector)
        requires
            k < 8,
            other < 8,
    ;
    assert((f & (1u8 << k) != 0) == ((f >> k) % 2 == 1)) by (bit_vector)
        requires
            k < 8,
    ;
}

/// A motion packet is read back from its bytes, whatever follows them.
pub proof fn law_packet_is_read_back(
    p: RelMotionPacket,
    tail: Seq<u8>,
    r: Option<RelMotionPacket>,
)
    requires
        p.tag == PacketTag::RelMotion,
        reads_as(packet_bytes(p) + tail, r),
    ensures
        r == Some(p),
{
    let b = packet_bytes(p) + tail;
    lemma_fields_back(p);
    assert(b[0] == packet_bytes(p)[0]);
    assert(b.subrange(0, 16) =~= packet_bytes(p));
    if let Some(q) = r {
        law_packet_bytes_are_injective(p, q);
    }
}

/// A packet is read exactly from 16 bytes or more of which the first is 0x10, and each of its fields
/// is what those bytes hold: numbers with the lowest byte first, signs as cast bit for bit.
pub proof fn law_packet_is_what_the_bytes_hold(b: Seq<u8>, r: Option<RelMotionPacket>)
    requires
        reads_as(b, r),
    ensures
        r is Some <==> b.len() >= 16 && b[0] == 0x10,
        r matches Some(p) ==> {
            &&& p.tag == PacketTag::RelMotion
            &&& p.flags.0 == b[1]
            &&& p.sequence == b[2] + 0x100 * b[3] + 0x1_0000 * b[4] + 0x100_0000 * b[5]
            &&& p.timestamp_us == b[6] + 0x100 * b[7] + 0x1_0000 * b[8] + 0x100_0000 * b[9]
            &&& p.dx as u16 == b[10] + 0x100 * b[11]
            &&& p.dy as u16 == b[12] + 0x100 * b[13]
            &&& p.wheel_v as u8 == b[14]
            &&& p.wheel_h as u8 == b[15]
        },
{
    if let Some(p) = r {
        law_packet_layout(p);
        let raw = packet_bytes(p);
        assert(forall|i: int| 0 <= i < 16 ==> raw[i] == #[trigger] b[i]);
    }
}

} // verus!
