//! Reversible transforms between sequences of cipher parts and display strings.
//!
//! A part is either a 4-letter lowercase code produced by the character
//! encoding oracle, or a literal run of text left untouched. The library
//! renders a parts sequence into one of several layouts (`space`, `4-letter`,
//! `first-upper`, `pascal`, `camel`) and segments an arbitrary formatted
//! string back into parts, so that each code can be decoded again.

pub mod chars;
pub mod model;
pub mod format;
pub mod deformat;
pub mod oracle;
pub mod crypto;
pub mod laws;

pub use chars::is_chinese;
pub use format::{capitalize_first, format_cipher, is_code, parse_format};
pub use deformat::{preprocess_cipher, try_split_codes};
pub use crypto::{codec_round_trip, decrypt_text, encrypt_text};
