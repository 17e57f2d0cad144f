//! The text of a PDF as a document.
//!
//! Extracting the text is the PDF parser's work and happens outside, on a
//! thread of its own, since the parser may give up on a file by panicking.
//! What was extracted arrives here as bytes, as an error, or as the message
//! of the panic.

use crate::doc_loader::error::LoaderError;
use crate::doc_loader::types::Document;
use vstd::prelude::*;
use vstd::utf8::{decode_utf8, valid_utf8};

verus! {

/// `String::from_utf8`: turns bytes into a string. It succeeds exactly on
/// valid UTF-8, and the string then holds the characters that the bytes
/// encode.
#[verifier::external_body]
fn string_from_utf8(bytes: Vec<u8>) -> (r: Result<String, std::string::FromUtf8Error>)
    ensures
        r is Ok <==> valid_utf8(bytes@),
        r matches Ok(s) ==> s@ == decode_utf8(bytes@),
{
    String::from_utf8(bytes)
}

/// The text of what a PDF extraction ended with. `joined` is `Ok` where the
/// extraction ran to its end, with the bytes it wrote or the error it met,
/// and `Err` where it panicked, with the panic's message if it had one.
///
/// Bytes that are valid UTF-8 give their text, other bytes a
/// `FromUtf8Error`; an error is passed on; a panic gives
/// `UnsupportedPDFFormat` with its message, or with "parser thread panic"
/// where it had none.
pub fn text_of_extraction(joined: Result<Result<Vec<u8>, LoaderError>, Option<String>>) -> (r:
    Result<String, LoaderError>)
    ensures
        match joined {
            Ok(Ok(bytes)) => if valid_utf8(bytes@) {
                r matches Ok(text) && text@ == decode_utf8(bytes@)
            } else {
                r matches Err(LoaderError::FromUtf8Error(_))
            },
            Ok(Err(e)) => r == Err::<String, LoaderError>(e),
            Err(Some(message)) => r matches Err(LoaderError::UnsupportedPDFFormat(m)) && m@
                == message@,
            Err(None) => r matches Err(LoaderError::UnsupportedPDFFormat(m)) && m@
                == "parser thread panic"@,
        },
{
    match joined {
        Ok(Ok(bytes)) => match string_from_utf8(bytes) {
            Ok(text) => Ok(text),
            Err(e) => Err(LoaderError::FromUtf8Error(e)),
        },
        Ok(Err(e)) => Err(e),
        Err(Some(message)) => Err(LoaderError::UnsupportedPDFFormat(message)),
        Err(None) => Err(LoaderError::UnsupportedPDFFormat("parser thread panic".to_owned())),
    }
}

/// The documents of an extracted text: one, with that text and no metadata.
pub fn documents_of_text(text: String) -> (r: Vec<Document>)
    ensures
        r@.len() == 1,
        r@[0].page_content@ == text@,
        r@[0].metadata@ == Map::<String, serde_json::Value>::empty(),
{
    let mut docs: Vec<Document> = Vec::new();
    docs.push(Document::new(text));
    docs
}

} // verus!
