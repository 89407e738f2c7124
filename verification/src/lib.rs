//! Extraction of X.509 certificates from eIDAS Trusted List XML documents.
//!
//! The library classifies a raw document as XML-like or not, scans it for
//! `TSPService` elements, pulls out embedded base64 certificate payloads,
//! and re-encodes them as PEM blocks, reporting typed errors for the
//! malformed-input and no-match cases.

pub mod chars;
pub mod cli;
pub mod error;
pub mod extractor;
pub mod pem;
pub mod scan;
pub mod tokens;
