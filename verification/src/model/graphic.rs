//! Graphic unit objects (CT_GraphicUnit subtypes).

use vstd::prelude::*;
use crate::types::StBox;

verus! {

/// A graphic object within a page layer.
#[derive(Debug, Clone, Copy, PartialEq, Eq, Structural)]
pub enum GraphicObject {
    Image(ImageObject),
}

/// ImageObject: displays a referenced image resource.
///
/// Attributes from CT_GraphicUnit (base):
/// - ID: unique identifier (ST_ID, required)
/// - Boundary: bounding box (ST_Box, required)
///
/// ImageObject-specific:
/// - ResourceID: reference to MultiMedia resource (ST_RefID, required)
#[derive(Debug, Clone, Copy, PartialEq, Eq, Structural)]
pub struct ImageObject {
    pub id: u32,
    pub boundary: StBox,
    pub resource_id: u32,
    /// Optional transparency (0-255, default 255 = opaque).
    pub alpha: Option<u8>,
}

} // verus!
