//! Constants of the SILK layer.
use vstd::prelude::*;

verus! {

/// Largest number of subframes in a frame.
pub const MAX_NB_SUBFR: usize = 4;

/// Largest LPC order.
pub const MAX_LPC_ORDER: usize = 16;

/// Largest number of SILK frames in a packet.
pub const MAX_FRAMES_PER_PACKET: usize = 3;

/// Largest magnitude of an NLSF residual index before the extension table is used.
pub const NLSF_QUANT_MAX_AMPLITUDE: i32 = 4;

/// Signal types.
pub const TYPE_NO_VOICE_ACTIVITY: i32 = 0;

pub const TYPE_UNVOICED: i32 = 1;

pub const TYPE_VOICED: i32 = 2;

/// Conditional coding modes of a frame.
pub const CODE_INDEPENDENTLY: i32 = 0;

pub const CODE_INDEPENDENTLY_NO_LTP_SCALING: i32 = 1;

pub const CODE_CONDITIONALLY: i32 = 2;

} // verus!
