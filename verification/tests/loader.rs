use nbstore::doc_loader::{
    documents_of_text, text_of_extraction, Document, Language, LanguageParserOptions, Loader,
    LoaderError, SourceCodeLoader, TextLoader,
};
use nbstore::document::{Chunk, Doc};
use std::collections::HashMap;

#[test]
fn text_loader_gives_one_document() {
    let loader = TextLoader::new("hello, world".to_string());
    assert_eq!(loader.content(), "hello, world");
    let docs = loader.load().unwrap();
    assert_eq!(docs.len(), 1);
    assert_eq!(docs[0].page_content, "hello, world");
    assert!(docs[0].metadata.is_empty());
    assert_eq!(TextLoader::new(String::new()).load().unwrap()[0].page_content, "");
}

#[test]
fn source_code_loader_keeps_source_and_options() {
    let loader = SourceCodeLoader::from_string("fn main() {}".to_string());
    assert_eq!(loader.content(), "fn main() {}");
    assert_eq!(loader.parser_option(), LanguageParserOptions::default());
    assert_eq!(loader.parser_option().language, Language::Rust);
    assert_eq!(loader.parser_option().parser_threshold, 1000);
    let loader = loader.with_parser_option(LanguageParserOptions {
        language: Language::Python,
        ..Default::default()
    });
    assert_eq!(loader.content(), "fn main() {}");
    assert_eq!(loader.parser_option().language, Language::Python);
    assert_eq!(loader.parser_option().parser_threshold, 1000);
    let loader = loader
        .with_parser_option(LanguageParserOptions { language: Language::Go, parser_threshold: 3 });
    assert_eq!(
        loader.parser_option(),
        LanguageParserOptions { language: Language::Go, parser_threshold: 3 }
    );
}

#[test]
fn document_starts_without_metadata() {
    let doc = Document::new("text".to_string());
    assert_eq!(doc.page_content, "text");
    assert!(doc.metadata.is_empty());
    let empty = Document::default();
    assert_eq!(empty.page_content, "");
    assert!(empty.metadata.is_empty());
    let mut metadata = HashMap::new();
    metadata.insert("page".to_string(), serde_json::Value::from(3));
    let doc = doc.with_metadata(metadata);
    assert_eq!(doc.page_content, "text");
    assert_eq!(doc.metadata.len(), 1);
    assert_eq!(doc.metadata["page"], serde_json::Value::from(3));
}

#[test]
fn extracted_bytes_become_text() {
    let text = text_of_extraction(Ok(Ok("Sample PDF\n".as_bytes().to_vec()))).unwrap();
    assert_eq!(text, "Sample PDF\n");
    let text = text_of_extraction(Ok(Ok(vec![0xC3, 0xA9, 0x21]))).unwrap();
    assert_eq!(text, "\u{e9}!");
    assert_eq!(text.chars().count(), 2);
    assert_eq!(text_of_extraction(Ok(Ok(Vec::new()))).unwrap(), "");
}

#[test]
fn extracted_bytes_that_are_not_utf8_are_refused() {
    let r = text_of_extraction(Ok(Ok(vec![0x66, 0xFF, 0x6F])));
    assert!(matches!(r, Err(LoaderError::FromUtf8Error(_))));
    let r = text_of_extraction(Ok(Ok(vec![0xC3])));
    assert!(matches!(r, Err(LoaderError::FromUtf8Error(_))));
}

#[test]
fn extraction_errors_and_panics_are_reported() {
    let r = text_of_extraction(Ok(Err(LoaderError::OtherError("bad".to_string()))));
    assert!(matches!(r, Err(LoaderError::OtherError(m)) if m == "bad"));
    let r = text_of_extraction(Err(Some("font table".to_string())));
    assert!(matches!(r, Err(LoaderError::UnsupportedPDFFormat(m)) if m == "font table"));
    let r = text_of_extraction(Err(None));
    assert!(matches!(r, Err(LoaderError::UnsupportedPDFFormat(m)) if m == "parser thread panic"));
}

#[test]
fn extracted_text_gives_one_document() {
    let docs = documents_of_text("page one".to_string());
    assert_eq!(docs.len(), 1);
    assert_eq!(docs[0].page_content, "page one");
    assert!(docs[0].metadata.is_empty());
}

#[test]
fn chunks_are_numbered_by_their_place() {
    let doc = Doc {
        name: "notes.txt".to_string(),
        chunks: vec![
            Chunk { index: 7, content: "first".to_string() },
            Chunk { index: 7, content: "second".to_string() },
            Chunk { index: 0, content: "third".to_string() },
        ],
    };
    let document = nbstore::document::Document::new(doc);
    assert_eq!(document.name(), "notes.txt");
    let chunks = document.chunks();
    let seen: Vec<(usize, &str)> = chunks.iter().map(|c| (c.index, c.content.as_str())).collect();
    assert_eq!(seen, vec![(0, "first"), (1, "second"), (2, "third")]);
    let empty = nbstore::document::Document::new(Doc { name: String::new(), chunks: Vec::new() });
    assert!(empty.chunks().is_empty());
    assert_eq!(empty.name(), "");
}
