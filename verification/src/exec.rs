pub mod basic;
pub mod freq;
