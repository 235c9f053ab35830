pub mod apl;
pub mod distance;
pub mod fbits;
pub mod grid;
pub mod overlap;
pub mod utils;
