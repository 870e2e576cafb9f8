//! The settings the agent's commands default to.
use vstd::prelude::*;

verus! {

/// The PDS `agent login` signs in through when none is named.
pub const DEFAULT_PDS: &'static str = "https://bsky.social";

/// The relay `agent login` joins rooms through when none is named.
pub const DEFAULT_RELAY_HOST: &'static str = "relay.symbios.network";

/// How close a follow keeps when none is asked for: 3 m, as the bits of
/// the `f32`.
pub const FOLLOW_DISTANCE_M_BITS: u32 = 0x4040_0000u32;

/// How long the world may take to answer most requests: a frame's grace.
pub const WORLD_ANSWER_TIMEOUT_MS: u64 = 5_000u64;

/// How long a picture may take: a render, and the write.
pub const LOOK_ANSWER_TIMEOUT_MS: u64 = 30_000u64;

/// How long an interface command may take: the passes it needs.
pub const UI_ANSWER_TIMEOUT_MS: u64 = 30_000u64;

/// The longest an `events` request waits: a minute.
pub const MAX_EVENT_WAIT_SECS: u64 = 60u64;

/// How many items the inventory holds at most.
pub const MAX_INVENTORY_ITEMS: usize = 64usize;

/// The size past which a record should be cut down: 100 KiB.
pub const SOFT_RECORD_BUDGET_BYTES: usize = 102_400usize;

/// The size past which a record is not written at all.
pub const HARD_RECORD_CEILING_BYTES: usize = 1_000_000usize;

/// How many frames a picture's camera renders before it is read back.
pub const LOOK_WARMUP_FRAMES: u32 = 4u32;

/// How many pictures the agent's own picture directory keeps.
pub const LOOKS_KEPT: usize = 20usize;

/// A picture's width, in pixels.
pub const LOOK_WIDTH: u32 = 1280u32;

/// A picture's height, in pixels.
pub const LOOK_HEIGHT: u32 = 720u32;

/// The longest request line the control socket reads, in bytes.
pub const MAX_REQUEST_BYTES: u64 = 65_536u64;

/// The longest path a Unix socket address holds on Linux (`sun_path`),
/// less its terminating NUL.
pub const MAX_SOCKET_PATH: usize = 107usize;

} // verus!
