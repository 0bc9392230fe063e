pub mod address;
pub mod lookup;
pub mod cli;
