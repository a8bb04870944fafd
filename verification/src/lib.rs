//! Vocabulary files of a constructed language, and names drawn from them.
//!
//! A dictionary file lists words in blocks, a symbol file groups their roots
//! under symbols, a translation file gives each root a text in one language.
//! `Language` holds what the three describe; names are drawn from the roots
//! that its symbols list.

pub mod anomaly;
pub mod block;
pub mod counting;
pub mod dictionary;
pub mod files;
pub mod language;
pub mod names;
pub mod pool;
pub mod runs;
pub mod scanner;
pub mod symbols;
pub mod text;
pub mod text_laws;
pub mod trusted;
pub mod usage;
pub mod word;
pub mod written;

pub use crate::anomaly::Anomaly;
pub use crate::block::classify_header;
pub use crate::block::HeaderKind;
pub use crate::dictionary::Dictionary;
pub use crate::files::add_symbols;
pub use crate::files::add_translation;
pub use crate::files::parse_symbol_root;
pub use crate::files::parse_translation_line;
pub use crate::files::read_lang_file;
pub use crate::files::read_symbol_block;
pub use crate::files::read_symbol_line;
pub use crate::language::Language;
pub use crate::names::compose_name;
pub use crate::names::ucfirst;
pub use crate::names::Draws;
pub use crate::names::NameError;
pub use crate::pool::NamePreset;
pub use crate::scanner::LineScanner;
pub use crate::symbols::SymbolEntry;
pub use crate::symbols::SymbolIndex;
pub use crate::usage::Usage;
pub use crate::word::Adjective;
pub use crate::word::Noun;
pub use crate::word::ParseError;
pub use crate::word::Prefix;
pub use crate::word::Translation;
pub use crate::word::Verb;
pub use crate::word::Word;
pub use crate::word::WordForm;
