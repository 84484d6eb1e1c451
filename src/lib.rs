//! Parser for one line of a textual p-code listing, with the typed
//! instruction records it produces, a canonical renderer, and an
//! address-ordered store for parsed instructions.

pub mod ir;
pub mod listing;
pub mod parse;
pub mod render;
pub mod text;
pub mod value;

pub use ir::{Addr, Inst, Opcode, ParseError, Size, Var, Varnode};
pub use listing::CodeListing;
pub use parse::{parse_line, parse_varnode};
pub use value::Value;
