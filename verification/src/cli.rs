//! The service selector and the argument bundle of the surrounding
//! program.

use vstd::prelude::*;
use vstd::string::StringExecFns;
use crate::chars::str_eq;
use crate::error::CaExtractorError;

verus! {

broadcast use vstd::string::group_string_axioms;

/// The two supported qualified-service types.
#[derive(Debug, Copy, Clone, PartialEq, Eq, Structural)]
pub enum ServiceType {
    /// Qualified certificate for website authentication.
    QWAC,
    /// Qualified certificate for electronic seal.
    QSealC,
}

/// The stable textual label of a service type, used in error messages
/// and output naming.
pub open spec fn label_of(s: ServiceType) -> Seq<char> {
    match s {
        ServiceType::QWAC => "QWAC"@,
        ServiceType::QSealC => "QSealC"@,
    }
}

/// The canonical service-type identifier of a service type, for
/// documentary and filtering use.
pub open spec fn uri_of(s: ServiceType) -> Seq<char> {
    match s {
        ServiceType::QWAC => "http://uri.etsi.org/TrstSvc/TrustedList/SvcInfoExt/ForWebSiteAuthentication"@,
        ServiceType::QSealC => "http://uri.etsi.org/TrstSvc/TrustedList/SvcInfoExt/ForeSeals"@,
    }
}

impl ServiceType {
    /// The textual label: `"QWAC"` or `"QSealC"`.
    pub fn label(&self) -> (r: String)
        ensures
            r@ == label_of(*self),
    {
        match self {
            ServiceType::QWAC => String::from_str("QWAC"),
            ServiceType::QSealC => String::from_str("QSealC"),
        }
    }

    /// The canonical service-type URI associated with the selector.
    pub fn service_uri(&self) -> (r: String)
        ensures
            r@ == uri_of(*self),
    {
        match self {
            ServiceType::QWAC => String::from_str(
                "http://uri.etsi.org/TrstSvc/TrustedList/SvcInfoExt/ForWebSiteAuthentication",
            ),
            ServiceType::QSealC => String::from_str(
                "http://uri.etsi.org/TrstSvc/TrustedList/SvcInfoExt/ForeSeals",
            ),
        }
    }

    /// Parses a user-supplied selector token. Exactly the two
    /// case-sensitive literals are accepted; any other token is an
    /// invalid service type, reported with the token itself.
    pub fn from_token(token: &str) -> (r: Result<ServiceType, CaExtractorError>)
        ensures
            token@ == "QWAC"@ ==> (r matches Ok(s) && s is QWAC),
            token@ == "QSealC"@ ==> (r matches Ok(s) && s is QSealC),
            token@ != "QWAC"@ && token@ != "QSealC"@ ==> (r matches Err(e) && e matches
                CaExtractorError::InvalidServiceType(m) && m@ == token@),
    {
        proof {
            reveal_strlit("QWAC");
            reveal_strlit("QSealC");
            assert(("QWAC"@).len() == 4);
            assert(("QSealC"@).len() == 6);
        }
        if str_eq(token, "QWAC") {
            Ok(ServiceType::QWAC)
        } else if str_eq(token, "QSealC") {
            Ok(ServiceType::QSealC)
        } else {
            Err(CaExtractorError::InvalidServiceType(token.to_owned()))
        }
    }
}

/// The arguments the surrounding program hands to the library: the
/// selector, the country code, the target folder for the PEM files,
/// and the verbose-logging flag.
#[derive(Debug)]
pub struct Args {
    /// Type of service to retrieve certificates for.
    pub service: ServiceType,
    /// ISO 3166-1 alpha-2 country code.
    pub country: String,
    /// Target folder to save certificate files in.
    pub target_folder: String,
    /// Enable verbose logging.
    pub verbose: bool,
}

} // verus!
