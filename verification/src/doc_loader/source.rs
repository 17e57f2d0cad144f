//! Source code as documents.

use vstd::prelude::*;

verus! {

/// The languages that source code can be parsed as.
#[derive(Debug, Clone, Copy, PartialEq, Eq, Structural)]
pub enum Language {
    Rust,
    C,
    Cpp,
    Javascript,
    Typescript,
    Go,
    Python,
}

/// How source code is to be parsed.
#[derive(Debug, Clone, Copy, PartialEq, Eq, Structural)]
pub struct LanguageParserOptions {
    /// The number of lines from which on a source file is split into its
    /// items.
    pub parser_threshold: u64,
    /// The language of the source.
    pub language: Language,
}

impl Default for LanguageParserOptions {
    /// Rust source, split from a thousand lines on.
    fn default() -> (r: Self)
        ensures
            r == (LanguageParserOptions { parser_threshold: 1000, language: Language::Rust }),
    {
        LanguageParserOptions { parser_threshold: 1000, language: Language::Rust }
    }
}

/// A loader that holds source code and how to parse it.
#[derive(Debug, Clone)]
pub struct SourceCodeLoader {
    content: String,
    parser_option: LanguageParserOptions,
}

impl SourceCodeLoader {
    /// The source code that the loader holds.
    pub closed spec fn view(&self) -> Seq<char> {
        self.content@
    }

    /// How the loader is to parse its source.
    pub closed spec fn options(&self) -> LanguageParserOptions {
        self.parser_option
    }

    /// A loader for the source code `input`, with the default options.
    pub fn from_string(input: String) -> (r: Self)
        ensures
            r@ == input@,
            r.options() == (LanguageParserOptions {
                parser_threshold: 1000,
                language: Language::Rust,
            }),
    {
        SourceCodeLoader { content: input, parser_option: LanguageParserOptions::default() }
    }

    /// This loader with `parser_option` in place of its options.
    pub fn with_parser_option(self, parser_option: LanguageParserOptions) -> (r: Self)
        ensures
            r@ == self@,
            r.options() == parser_option,
    {
        let mut loader = self;
        loader.parser_option = parser_option;
        loader
    }

    /// The source code that the loader holds.
    pub fn content(&self) -> (r: &String)
        ensures
            r@ == self@,
    {
        &self.content
    }

    /// How the loader is to parse its source.
    pub fn parser_option(&self) -> (r: LanguageParserOptions)
        ensures
            r == self.options(),
    {
        self.parser_option
    }
}

} // verus!
