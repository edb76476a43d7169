use vstd::prelude::*;

verus! {

/// The number of cells (digit positions) in the display.
pub const CELL_COUNT: usize = 4;

/// The number of controllable LED segments per cell
/// (seven shape segments plus the decimal point).
pub const SEGMENT_COUNT: usize = 8;

/// How long the display stays lit during one blink cycle, in milliseconds.
pub const BLINK_ON_DELAY_MS: u64 = 150;

/// How long the display stays dark during one blink cycle, in milliseconds.
pub const BLINK_OFF_DELAY_MS: u64 = 50;

} // verus!
