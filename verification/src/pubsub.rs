//! The Publish & Subscribe contract between the daemon and whoever reads its state.
//!
//! The category is the daemon's own identity, so it needs no capability to define the keys, and
//! they are open for anyone to read. They hold integers only.

use vstd::prelude::*;

verus! {

/// The category, which is the daemon's third UID.
pub const CAT: u32 = 0xE0AA_00F2;

/// Whether the daemon is down, listening or serving a client.
pub const KEY_STATE: u32 = 1;

/// The RFCOMM channel it listens on.
pub const KEY_CHANNEL: u32 = 2;

/// How many commands it has handled.
pub const KEY_CMDS: u32 = 3;

/// How many clients it has accepted.
pub const KEY_CLIENTS: u32 = 4;

/// The listener could not be opened.
pub const STATE_DOWN: i32 = 0;

/// The listener is up, and no client is connected.
pub const STATE_LISTENING: i32 = 1;

/// A client is connected.
pub const STATE_CONNECTED: i32 = 2;

/// The numbers that a reader of the properties goes by: the category, the four keys in it, and the
/// three states.
pub proof fn law_readers_go_by_these_numbers()
    ensures
        CAT == 3769237746,
        KEY_STATE == 1 && KEY_CHANNEL == 2 && KEY_CMDS == 3 && KEY_CLIENTS == 4,
        STATE_DOWN == 0 && STATE_LISTENING == 1 && STATE_CONNECTED == 2,
{
}

} // verus!
