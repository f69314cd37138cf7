//! Writer for OFD (Open Fixed-layout Document, GB/T 33190-2016) packages.
//!
//! An OFD package is a ZIP archive of XML descriptors and embedded images.
//! This crate assembles one page per image, following ofdrw's layout, and
//! proves what each XML part holds and which files the archive receives.
//! Lengths are fixed-point: one unit is a ten-thousandth of a millimetre.

pub mod types;
pub mod text;
pub mod model;
pub mod writer;

pub use model::{DocInfo, ImageFormat, PageSize, PPM_DEFAULT};
pub use writer::{ImageSource, OfdError, OfdWriter};
