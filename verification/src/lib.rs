//! Transport layer of a software KVM: a 16-byte motion packet on a lossy fast path, and a
//! clipboard transfer protocol on a reliable stream, both under Noise_IK.

pub mod address;
pub mod allowlist;
pub mod anti_replay;
pub mod args;
pub mod assembler;
pub mod bytes;
pub mod channel;
pub mod clipboard;
pub mod delivery;
pub mod frame;
pub mod handshake;
pub mod hex;
pub mod keys;
pub mod noise;
pub mod protocol;
pub mod push;
pub mod reader;
pub mod serve;
pub mod session;
pub mod text;
pub mod transport;

pub use allowlist::{AllowError, AllowList};
pub use anti_replay::AntiReplayWindow;
pub use assembler::ClipboardAssembler;
pub use channel::{NoiseIkTcpChannel, Received};
pub use clipboard::{
    ClipboardError, ClipboardMsg, DEFAULT_PORT, MAX_CHUNK_LEN, MAX_HANDSHAKE_MSG, MAX_TOTAL_LEN,
    SUPPORTED_MIME,
};
pub use frame::{read_frame, write_frame, FrameRead};
pub use handshake::{Admission, NoiseIkTcpInitiator, NoiseIkTcpResponder, PendingHandshake};
pub use noise::NOISE_PARAMS;
pub use protocol::{ButtonFlags, PacketTag, RelMotionPacket, REL_MOTION_SIZE};
pub use session::{ReceiveSession, SessionAction};
pub use transport::{ChannelError, NoiseIkUdpChannel};
