//! Segments a scanned exam page into per-question and per-answer crop
//! regions, from OCR-detected text lines and their bounding boxes.
//!
//! The two components are the line classifier ([`question_type`]), which
//! decides whether a text line starts a question, an answer option, or
//! neither, and the region builder ([`build_regions`]), a single pass over
//! the ordered line sequence that derives labeled crop rectangles.

pub mod builder;
pub mod chars;
pub mod classify;
pub mod region;

pub use builder::BuildError;
pub use builder::RunningAnchor;
pub use builder::build_regions;
pub use classify::TextType;
pub use classify::question_type;
pub use region::Region;
pub use region::RegionKind;
pub use region::TextLine;
pub use region::usize_to_decimal;
