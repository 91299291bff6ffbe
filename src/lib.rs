//! State and rules of a chat lunch-ordering bot: rounds of two linked polls,
//! vote processing, order aggregation and per-member score counters.

pub mod keyed;
pub mod laws;
pub mod lunch;
pub mod member;
pub mod round;
pub mod score;
pub mod tally;
