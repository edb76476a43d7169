//! Driver core for a multiplexed four-digit, eight-segment LED display:
//! a segment-bitmap encoder turning characters and numbers into per-cell
//! masks, a grouping of equal masks for multiplexed output, and the state
//! machine of a blink-overlay controller.

pub mod bit_matrix;
pub mod blinkable_display;
pub mod font;
pub mod groups;
pub mod shared_constants;
