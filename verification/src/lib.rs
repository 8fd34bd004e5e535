//! Parsing core for a nested, node-based document language.
//!
//! The library turns a complete UTF-8 text into a tree of nodes, or, on
//! failure, into a single diagnostic anchored at one character offset with
//! the most specific cause that was recorded on the failing path.

pub mod chars;
pub mod error;
pub mod parser;
pub mod render;
pub mod value;

pub use error::ContextLabel;
pub use error::FloatIssue;
pub use error::IntIssue;
pub use error::KdlError;
pub use error::KdlErrorKind;
pub use error::KdlParseError;
pub use error::TryFromKdlNodeValueError;
pub use parser::parse_document;
pub use render::render_document;
pub use value::KdlDocument;
pub use value::KdlNode;
pub use value::KdlProperty;
pub use value::KdlScalar;
pub use value::KdlValue;
