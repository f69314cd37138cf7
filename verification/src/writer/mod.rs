pub mod xml_gen;
pub mod archive;
pub mod calendar;
pub mod builder;

pub use builder::{ImageSource, OfdError, OfdWriter};
