//! Platform-independent UUID support: the 16-byte binary form, its
//! canonical 36-character text form, and the bit layouts of time-based
//! (version 1) and random (version 4) identifiers.
pub mod binary;
pub mod text;

pub use binary::{
    time_ticks, uuid_clear, uuid_compare, uuid_copy, uuid_generate, uuid_generate_random,
    uuid_generate_time, uuid_is_null,
};
pub use text::{uuid_parse, uuid_unparse, uuid_unparse_lower, uuid_unparse_upper, ParseError};
