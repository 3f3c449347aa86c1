//! Protocol constants of the Parachain Service and the
//! Gray Paper values they derive from.

use crate::types::Timeslot;
use vstd::prelude::*;

verus! {

/// Gray Paper `C_corecount`.
pub const CORE_COUNT: usize = 341;

/// Max age (in timeslots) of a work-package's lookup-anchor — Gray Paper `L` (~24 h).
pub const MAX_LOOKUP_AGE: Timeslot = 24 * 3600 / 6;

/// Gray Paper `C_expungeperiod = C_maxlookupanchorage + 4800 = 19 200` (~32 h).
pub const EXPUNGE_PERIOD: Timeslot = MAX_LOOKUP_AGE + 4800;

/// Per-parachain log byte budget (exact encoded size of all entries).
pub const PARACHAIN_LOG_BYTE_CAP: usize = 64 * 1024;

/// Service-chosen cap on the auth-trace bytes stored in `parachain_log`.
pub const STORED_AUTH_TRACE_CAP: usize = 256;

/// The JAM authorizer queue holds exactly 80 hashes (Gray Paper `C_authqueuesize`).
pub const AUTHORIZER_QUEUE_LEN: usize = 80;

/// Cap on `staged_validator_keys` (`CORE_COUNT * 3 = 1023`).
pub const MAX_STAGED_VALIDATOR_KEYS: usize = CORE_COUNT * 3;

/// Cap on the child PVM's heap (1 GiB), the upper bound `grow_heap` can reach.
pub const MAX_PVF_HEAP_SIZE: u64 = 1073741824;

/// The portion of the incoming-transfer queue Asset Hub pre-provisions
/// in its baseline.
pub const MAX_INCOMING_TRANSFERS: usize = 1000;

/// Cap on the transfers one `incoming_transfers` bucket may hold.
pub const MAX_TRANSFERS_PER_BUCKET: u32 = 512;

/// Gas gate: the fixed cost of applying one work report.
pub const REPORT_BASE_GAS: u64 = 5_000_000;

/// Gas gate: the cost of replaying one upward message.
pub const UPWARD_MESSAGE_GAS: u64 = 250_000;

} // verus!
