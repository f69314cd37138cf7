pub mod ofd;
pub mod document;
pub mod page;
pub mod resource;
pub mod graphic;

pub use document::{PageSize, PPM_DEFAULT};
pub use ofd::DocInfo;
pub use resource::ImageFormat;
