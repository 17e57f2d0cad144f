//! Why loading a document failed.

use vstd::prelude::*;

verus! {

/// `std::io::Error`, carried through as it came.
#[verifier::external_type_specification]
#[verifier::external_body]
pub struct ExIoError(std::io::Error);

/// `std::string::FromUtf8Error`, carried through as it came.
#[verifier::external_type_specification]
#[verifier::external_body]
pub struct ExFromUtf8Error(std::string::FromUtf8Error);

/// `pdf_extract::Error`, the error of the PDF parser, carried through as it
/// came.
#[verifier::external_type_specification]
#[verifier::external_body]
pub struct ExPdfError(pdf_extract::Error);

/// `pdf_extract::OutputError`, the error of the PDF text output, carried
/// through as it came.
#[verifier::external_type_specification]
#[verifier::external_body]
pub struct ExPdfOutputError(pdf_extract::OutputError);

/// `readability::error::Error`, the error of the HTML extractor, carried
/// through as it came.
#[verifier::external_type_specification]
#[verifier::external_body]
pub struct ExReadabilityError(readability::error::Error);

/// Why a loader could not produce its documents.
#[derive(Debug)]
pub enum LoaderError {
    /// Reading the input failed.
    IOError(std::io::Error),
    /// The input is not valid UTF-8.
    FromUtf8Error(std::string::FromUtf8Error),
    /// The PDF could not be parsed.
    PdfExtractError(pdf_extract::Error),
    /// The text of the PDF could not be written out.
    PdfExtractOutputError(pdf_extract::OutputError),
    /// The readable part of an HTML page could not be extracted.
    ReadabilityError(readability::error::Error),
    /// The PDF parser gave up on the file; the message says how.
    UnsupportedPDFFormat(String),
    /// Anything else, as a message.
    OtherError(String),
}

} // verus!
