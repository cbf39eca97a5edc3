//! A parser and serializer for the vCard 4.0 contents format.
pub mod catalog;
pub mod content_line;
pub mod datetime;
pub mod document;
pub mod error;
pub mod escape;
pub mod fold;
pub mod params;
pub mod parser;
pub mod property;
pub mod serialize;
pub mod text;
pub mod value;

pub use catalog::{Cardinality, PropertyType};
pub use content_line::ContentLine;
pub use document::VCard;
pub use error::{ErrorKind, ParserError};
pub use params::Parameter;
pub use parser::Parser;
pub use property::Property;
pub use value::{ValueType, ValueKind};
