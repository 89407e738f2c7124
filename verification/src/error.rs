//! The error taxonomy of the extractor.

use vstd::prelude::*;

verus! {

/// A typed failure of the certificate extractor.
///
/// Every failure the core can produce is one of these variants; retrieval
/// and file-system errors belong to the surrounding program, not to the
/// library.
#[derive(Debug)]
pub enum CaExtractorError {
    /// The service selector token is not one of the accepted literals.
    InvalidServiceType(String),
    /// The document is XML-like but the element scan itself failed.
    CertificateExtractionError(String),
    /// The country code is not exactly two characters long.
    InvalidCountryCode(String),
    /// The document does not look like XML at all.
    InvalidResponseFormat(String),
    /// The scan completed but matched zero certificate payloads.
    NoCertificatesFound { country: String, service: String },
}

} // verus!
