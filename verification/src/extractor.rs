//! The certificate extractor: input classification, the element-aware
//! scan with its tolerant fallback, and the typed failures of both.

use vstd::prelude::*;
use vstd::string::StringExecFns;
use crate::chars::append_chars;
use crate::chars::chars_to_string;
use crate::chars::str_eq;
use crate::chars::str_to_chars;
use crate::chars::subvec;
use crate::cli::ServiceType;
use crate::cli::label_of;
use crate::cli::uri_of;
use crate::error::CaExtractorError;
use crate::pem::is_pem_block;
use crate::pem::is_ws;
use crate::pem::lemma_ltrim_prefix;
use crate::pem::ltrim;
use crate::pem::pem_of;
use crate::pem::ws_char;
use crate::scan::certs_of_fragments;
use crate::scan::extract_from_fragments;
use crate::scan::has_payload;
use crate::scan::lemma_certs_of_fragments_exact;
use crate::scan::lemma_certs_of_fragments_pem;
use crate::scan::lemma_split_certs_pem;
use crate::scan::payload_of;
use crate::scan::split_certs;
use crate::scan::split_extract;
use crate::tokens::XmlToken;
use crate::tokens::collect_service_texts;
use crate::tokens::scan_xml;
use crate::tokens::service_texts;
use crate::tokens::xml_scan_of;

verus! {

/// The namespace-prefix table of the Trusted List format: the single
/// `tsl` prefix, mapped to the ETSI trust-service-list namespace.
pub struct NamespaceContext {}

impl NamespaceContext {
    /// A table holding the one fixed mapping.
    pub fn new() -> NamespaceContext {
        NamespaceContext {  }
    }

    /// The namespace URI registered for a prefix: exactly the `tsl`
    /// prefix is known.
    pub fn get_namespace_uri(&self, prefix: &str) -> (r: Option<&str>)
        ensures
            (r is Some) <==> prefix@ == "tsl"@,
            r matches Some(u) ==> u@ == "http://uri.etsi.org/02231/v2#"@,
    {
        if str_eq(prefix, "tsl") {
            Some("http://uri.etsi.org/02231/v2#")
        } else {
            None
        }
    }
}

/// The first character of the document once leading whitespace is
/// skipped, if any character remains.
pub open spec fn first_content_char(s: Seq<char>) -> Option<char> {
    if ltrim(s).len() > 0 {
        Some(ltrim(s)[0])
    } else {
        None
    }
}

/// Whether the document looks like XML: its first non-whitespace
/// character is `<`, which also covers a leading `<?xml` declaration.
pub open spec fn xml_like(s: Seq<char>) -> bool {
    first_content_char(s) == Some('<')
}

/// Whether the document instead looks like a JSON object or array.
pub open spec fn json_like(s: Seq<char>) -> bool {
    first_content_char(s) == Some('{') || first_content_char(s) == Some('[')
}

/// The diagnostic snippet quoted in format errors: the first 100
/// characters of the document.
pub open spec fn snippet(s: Seq<char>) -> Seq<char> {
    s.take(
        if s.len() < 100 {
            s.len() as int
        } else {
            100
        },
    )
}

/// The message reporting a document that looks like JSON.
pub open spec fn json_message(s: Seq<char>) -> Seq<char> {
    "API returned non-XML content, possibly JSON: "@ + snippet(s)
}

/// The message reporting a document in no recognised format.
pub open spec fn unrecognized_message(s: Seq<char>) -> Seq<char> {
    "API returned unrecognized content: "@ + snippet(s)
}

/// The message reporting a document the XML tokenizer rejected.
pub open spec fn parse_failure_message() -> Seq<char> {
    "Failed to parse XML response. The API may have changed or returned invalid XML."@
}

/// The message reporting a malformed country code.
pub open spec fn invalid_country_message(country: Seq<char>) -> Seq<char> {
    "Invalid country code '"@ + country + "'. Must be a 2-letter ISO country code."@
}

/// The certificates of a document whose token stream is `toks`: those
/// of the element-aware walk when it finds any, else those of the
/// tolerant fallback scan of the raw text.
pub open spec fn document_certs(s: Seq<char>, toks: Seq<XmlToken>) -> Seq<Seq<char>> {
    let primary = certs_of_fragments(service_texts(toks));
    if primary.len() > 0 {
        primary
    } else {
        split_certs(s)
    }
}

/// For every valid document: when the element walk finds fragments
/// with well-formed payloads, extraction returns exactly one PEM block
/// per such fragment, in document order — the PEM form of that
/// fragment's own payload; and every block of either path is bracketed
/// by the PEM header and footer lines.
pub proof fn lemma_document_certs_exact(s: Seq<char>, toks: Seq<XmlToken>)
    ensures
        certs_of_fragments(service_texts(toks)).len() > 0 ==> document_certs(s, toks)
            == service_texts(toks).filter(|f: Seq<char>| has_payload(f)).map_values(
            |f: Seq<char>| pem_of(payload_of(f)),
        ),
        forall|i: int|
            0 <= i < document_certs(s, toks).len() ==> is_pem_block(
                #[trigger] document_certs(s, toks)[i],
            ),
{
    lemma_certs_of_fragments_exact(service_texts(toks));
    lemma_certs_of_fragments_pem(service_texts(toks));
    lemma_split_certs_pem(s);
}

/// What extraction promises of its result, for a document `s`, country
/// code `country` and service label `service`: the exact error for
/// non-XML input, for a document the tokenizer rejects, and for a scan
/// without matches, and otherwise the PEM blocks of the document, in
/// document order.
pub open spec fn extraction_post(
    s: Seq<char>,
    country: Seq<char>,
    service: Seq<char>,
    r: Result<Vec<String>, CaExtractorError>,
) -> bool {
    if !xml_like(s) {
        if json_like(s) {
            r matches Err(CaExtractorError::InvalidResponseFormat(m)) && m@ == json_message(s)
        } else {
            r matches Err(CaExtractorError::InvalidResponseFormat(m)) && m@ == unrecognized_message(
                s,
            )
        }
    } else {
        match xml_scan_of(s) {
            None => r matches Err(CaExtractorError::CertificateExtractionError(m)) && m@
                == parse_failure_message(),
            Some(toks) => {
                let certs = document_certs(s, toks);
                if certs.len() == 0 {
                    r matches Err(CaExtractorError::NoCertificatesFound { country: c, service: v })
                        && c@ == country && v@ == service
                } else {
                    r matches Ok(v) && v.deep_view() == certs
                }
            },
        }
    }
}

/// The first non-whitespace character of the document, if any.
fn first_content(doc: &Vec<char>) -> (r: Option<char>)
    ensures
        r == first_content_char(doc@),
{
    let mut i: usize = 0;
    while i < doc.len() && ws_char(doc[i])
        invariant
            i <= doc@.len(),
            forall|k: int| 0 <= k < i ==> is_ws(doc@[k]),
        decreases doc@.len() - i,
    {
        i = i + 1;
    }
    proof {
        lemma_ltrim_prefix(doc@, i as int);
    }
    if i == doc.len() {
        proof {
            assert(doc@.skip(i as int).len() == 0);
        }
        None
    } else {
        Some(doc[i])
    }
}

/// The diagnostic snippet as characters.
fn snippet_chars(doc: &Vec<char>) -> (r: Vec<char>)
    ensures
        r@ == snippet(doc@),
{
    let n: usize = if doc.len() < 100 {
        doc.len()
    } else {
        100
    };
    let r = subvec(doc, 0, n);
    proof {
        assert(r@ =~= snippet(doc@));
    }
    r
}

/// The format-error message for a document, JSON-looking or not.
fn format_error_message(doc: &Vec<char>, looks_json: bool) -> (r: String)
    ensures
        looks_json ==> r@ == json_message(doc@),
        !looks_json ==> r@ == unrecognized_message(doc@),
{
    let mut v: Vec<char> = if looks_json {
        str_to_chars("API returned non-XML content, possibly JSON: ")
    } else {
        str_to_chars("API returned unrecognized content: ")
    };
    let snip = snippet_chars(doc);
    append_chars(&mut v, &snip);
    chars_to_string(&v)
}

/// The country-code error message, quoting the rejected code.
fn invalid_country_string(country: &str) -> (r: String)
    ensures
        r@ == invalid_country_message(country@),
{
    let mut v: Vec<char> = str_to_chars("Invalid country code '");
    let c = str_to_chars(country);
    append_chars(&mut v, &c);
    let tail = str_to_chars("'. Must be a 2-letter ISO country code.");
    append_chars(&mut v, &tail);
    chars_to_string(&v)
}

/// Extracts the embedded certificates of a Trusted List document as
/// PEM blocks, in document order.
///
/// The document is first classified: anything whose first
/// non-whitespace character is not `<` is rejected as an unrecognised
/// response, with a snippet of the content quoted. An XML-like
/// document is walked element by element, collecting the character
/// content of `TSPService` elements and extracting the payload between
/// the literal certificate tags of each; when that walk finds nothing,
/// a tolerant fallback splits the raw text on the open tag. A document
/// the tokenizer rejects is a certificate-extraction error, and a scan
/// with zero matches reports that nothing was found for the given
/// country and service, which only provide error context.
pub fn try_parse_xml(xml_content: &str, country: &str, service: &str) -> (r: Result<
    Vec<String>,
    CaExtractorError,
>)
    ensures
        extraction_post(xml_content@, country@, service@, r),
{
    let doc = str_to_chars(xml_content);
    let fc = first_content(&doc);
    let is_xml = match fc {
        Some(c) => c == '<',
        None => false,
    };
    if !is_xml {
        let looks_json = match fc {
            Some(c) => c == '{' || c == '[',
            None => false,
        };
        let msg = format_error_message(&doc, looks_json);
        return Err(CaExtractorError::InvalidResponseFormat(msg));
    }
    let toks = match scan_xml(xml_content) {
        None => {
            return Err(
                CaExtractorError::CertificateExtractionError(
                    String::from_str(
                        "Failed to parse XML response. The API may have changed or returned invalid XML.",
                    ),
                ),
            );
        },
        Some(t) => t,
    };
    let frags = collect_service_texts(&toks);
    let mut certs = extract_from_fragments(&frags);
    if certs.len() == 0 {
        certs = split_extract(&doc);
    }
    if certs.len() == 0 {
        return Err(
            CaExtractorError::NoCertificatesFound {
                country: country.to_owned(),
                service: service.to_owned(),
            },
        );
    }
    Ok(certs)
}

/// A configured extractor: a validated two-character country code and
/// the label and service-type URI of the chosen service.
#[derive(Debug)]
pub struct CertificateExtractor {
    country: String,
    service_uri: String,
    service_type: String,
}

impl CertificateExtractor {
    /// The country code the extractor was built with.
    pub closed spec fn spec_country(&self) -> Seq<char> {
        self.country@
    }

    /// The service-type URI the extractor was built with.
    pub closed spec fn spec_service_uri(&self) -> Seq<char> {
        self.service_uri@
    }

    /// The service label the extractor was built with.
    pub closed spec fn spec_service_type(&self) -> Seq<char> {
        self.service_type@
    }

    /// Builds an extractor for a service and a country code. Exactly
    /// the codes of two characters pass; any other length is rejected
    /// as an invalid country code.
    pub fn new(service: ServiceType, country: &str) -> (r: Result<
        CertificateExtractor,
        CaExtractorError,
    >)
        ensures
            country@.len() == 2 ==> (r matches Ok(e) && e.spec_country() == country@
                && e.spec_service_uri() == uri_of(service) && e.spec_service_type() == label_of(
                service,
            )),
            country@.len() != 2 ==> (r matches Err(err) && err matches
                CaExtractorError::InvalidCountryCode(m) && m@ == invalid_country_message(country@)),
    {
        if country.unicode_len() != 2 {
            return Err(CaExtractorError::InvalidCountryCode(invalid_country_string(country)));
        }
        Ok(
            CertificateExtractor {
                country: country.to_owned(),
                service_uri: service.service_uri(),
                service_type: service.label(),
            },
        )
    }

    /// Extracts the certificates of a document, with this extractor's
    /// country code and service label as the error context.
    pub fn extract_certificates(&self, xml_content: &str) -> (r: Result<
        Vec<String>,
        CaExtractorError,
    >)
        ensures
            extraction_post(xml_content@, self.spec_country(), self.spec_service_type(), r),
    {
        try_parse_xml(xml_content, self.country.as_str(), self.service_type.as_str())
    }
}

} // verus!
