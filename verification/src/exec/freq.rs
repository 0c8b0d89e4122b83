pub mod freq;
pub mod memory;
pub mod model;
pub mod rel_freq;
