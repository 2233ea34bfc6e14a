//! A streaming lexical scanner for YAML text.
//!
//! The scanner walks a byte cursor over the input and hands out structural
//! tokens one at a time. Tokens carry byte offsets into the input, never
//! copies of it.

pub mod error;
pub mod tokenizer;

pub use error::YamlError;
pub use tokenizer::reader::{Reader, StrReader};
pub use tokenizer::scanner::{Control, DirectiveKind, Scanner, SpanToken, State};
pub use tokenizer::render::render_scan;
pub use tokenizer::StrIterator;
