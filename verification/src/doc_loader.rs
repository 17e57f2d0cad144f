//! Loading documents: turning a text, a source file or the text extracted
//! from a PDF into documents.

pub mod error;
pub mod pdf;
pub mod source;
pub mod text;
pub mod types;

use vstd::prelude::*;

pub use error::LoaderError;
pub use pdf::{documents_of_text, text_of_extraction};
pub use source::{Language, LanguageParserOptions, SourceCodeLoader};
pub use text::TextLoader;
pub use types::Document;

verus! {

/// Something that can be turned into documents.
pub trait Loader: Sized {
    /// The documents that this loader holds, or why they cannot be had.
    fn load(self) -> Result<Vec<Document>, LoaderError>;
}

} // verus!
