//! Plain text as a document.

use crate::doc_loader::error::LoaderError;
use crate::doc_loader::types::Document;
use crate::doc_loader::Loader;
use vstd::prelude::*;

verus! {

/// A loader that holds a text and hands it out as one document.
#[derive(Debug, Clone)]
pub struct TextLoader {
    content: String,
}

impl TextLoader {
    /// The text that the loader holds.
    pub closed spec fn view(&self) -> Seq<char> {
        self.content@
    }

    /// A loader for `input`.
    pub fn new(input: String) -> (r: Self)
        ensures
            r@ == input@,
    {
        TextLoader { content: input }
    }

    /// The text that the loader holds.
    pub fn content(&self) -> (r: &String)
        ensures
            r@ == self@,
    {
        &self.content
    }
}

impl Loader for TextLoader {
    /// One document, whose text is the loader's and which has no metadata.
    fn load(self) -> (r: Result<Vec<Document>, LoaderError>)
        ensures
            r is Ok,
            r->Ok_0@.len() == 1,
            r->Ok_0@[0].page_content@ == self@,
            r->Ok_0@[0].metadata@ == Map::<String, serde_json::Value>::empty(),
    {
        let doc = Document::new(self.content);
        let mut docs: Vec<Document> = Vec::new();
        docs.push(doc);
        Ok(docs)
    }
}

} // verus!
