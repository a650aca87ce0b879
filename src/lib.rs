//! The ababa configuration language.
//!
//! Text is split into tokens by [`AbabaTokenizer`], parsed into a tree of
//! [`AbabaValue`] by [`AbabaParser`], and converted into typed data through
//! [`FromAbabaValue`]; records with named fields convert with the helpers of
//! [`record`]. A value renders back to canonical text, which parses to the
//! same value ([`roundtrip::law_parse_render`]).
//!
//! [`ppm`] holds images of pixels in the plain PPM format, whose colors
//! convert from configuration values too.
use vstd::prelude::*;

pub mod chars;
pub mod convert;
pub mod number;
pub mod parser;
pub mod ppm;
pub mod record;
pub mod render;
pub mod roundtrip;
pub mod tokenizer;
pub mod value;

pub use convert::FromAbabaValue;
pub use number::AbabaNumber;
pub use parser::AbabaParser;
pub use tokenizer::{AbabaToken, AbabaTokenizer};
pub use value::{AbabaParseError, AbabaValue, IntType, Shape};
