pub mod base64;
pub mod bytes;
pub mod combinators;
pub mod json;
pub mod primitives;
pub mod xml;
