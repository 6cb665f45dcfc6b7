//! A JSON codec: a recursive-descent parser that reports the position of
//! every failure, and a pretty-printing serializer.
pub mod error;
pub mod fault;
pub mod grammar;
pub mod keys;
pub mod laws;
pub mod layout;
pub mod number;
pub mod parser;
pub mod progress;
pub mod roundtrip;
pub mod roundtrip_tokens;
pub mod serializer;
pub mod text;
pub mod value;

pub use error::{JsonError, JsonErrorKind};
pub use layout::{JsonSerializerIndentKind, JsonSerializerNewLineKind};
pub use parser::JsonParser;
pub use serializer::JsonSerializer;
pub use value::{JsonKey, JsonMember, JsonMembers, JsonObject, JsonValue, NumberType};
