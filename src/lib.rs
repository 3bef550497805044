//! A line-oriented configuration format, a schema language over the same
//! lines, and a validator that reports where a configuration and a schema
//! disagree.

pub mod config;
pub mod error;
pub mod schema;
pub mod text;
pub mod token;
pub mod validate;
pub mod value;

pub use config::Config;
pub use error::{ParseError, ValidationError};
pub use schema::Schema;
pub use validate::validate;
pub use value::ValueType;
