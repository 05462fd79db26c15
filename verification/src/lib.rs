//! Parser for the SFZ instrument-description format.
//!
//! Source text is a sequence of headers (`<global>`, `<master>`, `<group>`,
//! `<region>`, `<control>`, ...) and `name=value` opcode declarations.  The
//! tokenizer turns the text into typed tokens, and the scope-resolution
//! builder walks them, maintaining a four-level inheritance stack, to produce
//! one fully resolved opcode map per region.

pub mod instrument;
pub mod lexer;
pub mod parse;
pub mod token;

pub use parse::build_key_name_map;
pub use parse::check_i16;
pub use parse::check_i16_between;
pub use parse::check_i8;
pub use parse::check_i8_between;
pub use parse::check_i8_key;
pub use parse::check_u16;
pub use parse::check_u16_between;
pub use parse::check_u32;
pub use parse::check_u32_between;
pub use parse::check_u8;
pub use parse::check_u8_between;
pub use parse::check_u8_key;

pub use instrument::Instrument;
pub use instrument::OpcodeMap;
pub use lexer::SfzError;
pub use token::HeaderKind;
pub use token::LitKind;
pub use token::LoopModeKind;
pub use token::Opcode;
pub use token::OpcodeName;
pub use token::Token;
pub use token::TriggerKind;
