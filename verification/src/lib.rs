//! A street-name normalization and entity-linking engine: a tokenizer that
//! canonicalizes free-text street names, a synonym generator that expands a
//! name into equivalent spellings under country-specific conventions, and a
//! linker that scores a candidate name-set against persisted name-sets and
//! returns at most one sufficiently confident match.

pub mod chars;
pub mod distance;
pub mod tokens;
pub mod context;
pub mod name;
pub mod synonyms;
pub mod expand;
pub mod linker;

pub use distance::distance;
pub use tokens::{Tokens, Tokenized, ParsedToken, TokenType, TokensError};
pub use context::Context;
pub use name::{Name, Names, InputName};
pub use expand::{StreetValue, ValueError};
pub use linker::{Link, LinkResult, linker};
pub use synonyms::{
    is_numbered, is_routish, is_drivethrough, str_remove_octo, syn_number_suffix,
    syn_written_numeric, syn_us_cr, syn_us_hwy, syn_state_hwy, syn_ca_hwy, syn_ca_french,
};
