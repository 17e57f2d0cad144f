//! The document that loaders produce.

use std::collections::HashMap;
use vstd::prelude::*;

verus! {

/// `serde_json::Value`, a JSON value, carried through as it came.
#[verifier::external_type_specification]
#[verifier::external_body]
pub struct ExValue(serde_json::Value);

/// A piece of text with what is known about it.
#[derive(Debug, Clone)]
pub struct Document {
    pub page_content: String,
    pub metadata: HashMap<String, serde_json::Value>,
}

impl Document {
    /// A document with the given text and no metadata.
    pub fn new(page_content: String) -> (r: Self)
        ensures
            r.page_content@ == page_content@,
            r.metadata@ == Map::<String, serde_json::Value>::empty(),
    {
        Document { page_content, metadata: HashMap::new() }
    }

    /// This document with `metadata` in place of its own.
    pub fn with_metadata(self, metadata: HashMap<String, serde_json::Value>) -> (r: Self)
        ensures
            r.page_content == self.page_content,
            r.metadata == metadata,
    {
        let mut doc = self;
        doc.metadata = metadata;
        doc
    }
}

impl Default for Document {
    /// A document with an empty text and no metadata.
    fn default() -> (r: Self)
        ensures
            r.page_content@ == Seq::<char>::empty(),
            r.metadata@ == Map::<String, serde_json::Value>::empty(),
    {
        Document { page_content: String::new(), metadata: HashMap::new() }
    }
}

} // verus!
