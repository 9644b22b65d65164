//! Fantasy name synthesis: a corpus of known names is cut into syllables and
//! two-part splits, tallied by position and gender, and the tallies are
//! sampled to assemble new names.
//!
//! Every quantity that is a fraction is held in fixed point: `UNIT` stands
//! for one.

pub mod util;
pub mod data_processing;
pub mod tally;
pub mod name_gen;
pub mod app;
