//! End-to-end tests of the certificate extractor, through its public
//! functions, against concrete documents.

use ca_extractor::cli::ServiceType;
use ca_extractor::error::CaExtractorError;
use ca_extractor::extractor::CertificateExtractor;
use ca_extractor::extractor::NamespaceContext;
use ca_extractor::extractor::try_parse_xml;

const VALID_XML: &str = r#"<?xml version="1.0" encoding="UTF-8"?>
<tsl:TrustServiceStatusList xmlns:tsl="http://uri.etsi.org/02231/v2#">
    <TSPService>
        <tsl:X509Certificate>
        MIIEAjCCAuqgAwIBAgIIUQB0jZj13gIwDQYJKoZIhvcNAQELBQAwgYsxCzAJBgNV
        BAYTAkRFMTQwMgYDVQQDDCtCdW5kZXNub3Rhci1Sb290LUNBIGRlciBCdW5kZXNu
        b3RhcmthbW1lcjEgMB4GA1UECgwXQnVuZGVzbm90YXJrYW1tZXIgS2RvUjEgMB4G
        A1UECwwXQnVuZGVzbm90YXJrYW1tZXIgS2RvUjAeFw0xNjAzMDcwMDAwMDBaFw0z
        NjAzMDcyMzU5NTlaMIGLMQswCQYDVQQGEwJERTE0MDIGA1UEAwwrQnVuZGVzbm90
        YXItUm9vdC1DQSBkZXIgQnVuZGVzbm90YXJrYW1tZXIxIDAeBgNVBAoMF0J1bmRl
        c25vdGFya2FtbWVyIEtkb1IxIDAeBgNVBAsMF0J1bmRlc25vdGFya2FtbWVyIEtk
        b1IwggEiMA0GCSqGSIb3DQEBAQUAA4IBDwAwggEKAoIBAQC0xAGBC1MHkiHY3cAa
        gYQa6OJyI2tNmQgTMBxE+qjZJ39iMKOPWnUL6ZJ6O+k1QAsi5/xPOaQ6v/xBcqTo
        KxIxQRH8QKT6ZyAdkjFtx/qIKXtbZLYrOz0SVlLM5PRpsj29EGtwJLW5ovvRxCKL
        Gi9tNFxFm+cRm2ikfvlww14WS+yrivSdngI8lNJ21Sy4TgJe322oYzRHJ3QOm6Qd
        4D5TbFlyZEIxSwG5BuLfU3sV+5g4Oi4MRrDMnVmxKZ4FXwAHVNKD70RaJF9r0Oyv
        0HJvR3Il9FlBudB036bKVXcNeGhJZV5j2FvL7jDmFrKvwQiATzwRPVAzLD7VOGnK
        NEBBAgMBAAGjfjB8MA8GA1UdEwEB/wQFMAMBAf8wHwYDVR0jBBgwFoAUztyMeHQQ
        vsS+S/FnQ1MzP8klIHswHQYDVR0OBBYEFM7cjHh0EL7EvkvxZ0NTMz/JJSB7MA4G
        A1UdDwEB/wQEAwIBBjAdBgNVHSAEFjAUMAgGBmeBDAECAjAIBgZngQwBAgMwDQYJ
        KoZIhvcNAQELBQADggEBAFPpiI/4JI7b5XyPOALNGR3Nu5cyXP2409MYoHkTxDGj
        ShUsmMKQGYi6vEzf4L62KA7BtuWXm2PVQJcQKJQPFmjZAAye5JLgKfhfKGChDCK9
        KlFkY8iDJr2G55//5RjBqKUQJZ6nWknJzhv2UVbxYvcD8SUWhZ0TBAXfWeFvnhJY
        lXPDRQnZycJy7+NKUU8BuQVXQ5fYQ1rA9m1YsbAZGlzGjBxm577eZLUviJUxXSJp
        zq1qLMRJbG8tB9bTrJ9AG73OrVgLqMzO0nzrCWsL6ZCGtEPjf9QxbG6GGBzbYPVr
        dUxyeYErKvCFoGp37Pj0h6XV6pMHnS/Yd91SGpJZaXU=
        </tsl:X509Certificate>
    </TSPService>
</tsl:TrustServiceStatusList>"#;

const NO_CERT_XML: &str = r#"<?xml version="1.0" encoding="UTF-8"?>
<tsl:TrustServiceStatusList xmlns:tsl="http://uri.etsi.org/02231/v2#">
    <TSPService>
        <OtherElement>Some content</OtherElement>
    </TSPService>
</tsl:TrustServiceStatusList>"#;

const INVALID_XML: &str = r#"This is not valid XML content"#;

const JSON_RESPONSE: &str = r#"{"error": "Country not found", "code": 404}"#;

#[test]
fn test_parse_valid_xml() {
    let result = try_parse_xml(VALID_XML, "DE", "QWAC");

    if let Err(ref e) = result {
        println!("Error in test_parse_valid_xml: {:?}", e);
    }

    assert!(result.is_ok());
    let certs = result.unwrap();
    assert_eq!(certs.len(), 1);
    assert!(certs[0].contains("-----BEGIN CERTIFICATE-----"));
    assert!(certs[0].contains("-----END CERTIFICATE-----"));
}

#[test]
fn test_parse_no_cert_xml() {
    let result = try_parse_xml(NO_CERT_XML, "DE", "QWAC");
    assert!(result.is_err());
    match result {
        Err(CaExtractorError::NoCertificatesFound { country, service }) => {
            assert_eq!(country, "DE");
            assert_eq!(service, "QWAC");
        },
        _ => panic!("Expected NoCertificatesFound error"),
    }
}

#[test]
fn test_parse_invalid_xml() {
    let result = try_parse_xml(INVALID_XML, "DE", "QWAC");
    assert!(result.is_err());
    match result {
        Err(CaExtractorError::InvalidResponseFormat(_)) => {},
        _ => panic!("Expected InvalidResponseFormat error"),
    }
}

#[test]
fn test_parse_json_response() {
    let result = try_parse_xml(JSON_RESPONSE, "DE", "QWAC");
    assert!(result.is_err());
    match result {
        Err(CaExtractorError::InvalidResponseFormat(_)) => {},
        _ => panic!("Expected InvalidResponseFormat error"),
    }
}

struct MockCertificateExtractor {
    response: String,
}

impl MockCertificateExtractor {
    fn new(response: &str) -> Self {
        MockCertificateExtractor { response: response.to_string() }
    }

    fn fetch_xml_content(&self) -> Result<String, CaExtractorError> {
        Ok(self.response.clone())
    }
}

#[test]
fn test_certificate_extraction_workflow() {
    let extractor = MockCertificateExtractor::new(VALID_XML);
    let xml_content = extractor.fetch_xml_content().unwrap();
    let result = try_parse_xml(&xml_content, "DE", "QWAC");
    assert!(result.is_ok());
}

#[test]
fn test_certificate_extraction_error_handling() {
    let extractor = MockCertificateExtractor::new(JSON_RESPONSE);
    let xml_content = extractor.fetch_xml_content().unwrap();
    let result = try_parse_xml(&xml_content, "DE", "QWAC");
    assert!(result.is_err());
}

#[test]
fn single_certificate_exact_pem() {
    // One TSPService with one payload holding embedded newlines and
    // indentation: the single PEM entry is bracketed, and its body
    // holds no space characters.
    let certs = try_parse_xml(VALID_XML, "DE", "QWAC").unwrap();
    assert_eq!(certs.len(), 1);
    let pem = &certs[0];
    assert!(pem.starts_with("-----BEGIN CERTIFICATE-----\n"));
    assert!(pem.ends_with("-----END CERTIFICATE-----\n"));
    let body = &pem["-----BEGIN CERTIFICATE-----\n".len()..pem.len() - "\n-----END CERTIFICATE-----\n".len()];
    assert!(!body.contains(' '));
    for line in body.split('\n') {
        assert!(line.len() <= 64);
    }
}

#[test]
fn three_certificates_in_document_order() {
    let doc = format!(
        "<?xml version=\"1.0\"?>\n<root xmlns:tsl=\"http://uri.etsi.org/02231/v2#\">\n<TSPService><tsl:X509Certificate>{}</tsl:X509Certificate></TSPService>\n<TSPService><tsl:X509Certificate>{}</tsl:X509Certificate></TSPService>\n<TSPService><tsl:X509Certificate>{}</tsl:X509Certificate></TSPService>\n</root>",
        "QUJD", "REVG", "R0hJ"
    );
    let certs = try_parse_xml(&doc, "DE", "QWAC").unwrap();
    assert_eq!(certs.len(), 3);
    assert_eq!(certs[0], "-----BEGIN CERTIFICATE-----\nQUJD\n-----END CERTIFICATE-----\n");
    assert_eq!(certs[1], "-----BEGIN CERTIFICATE-----\nREVG\n-----END CERTIFICATE-----\n");
    assert_eq!(certs[2], "-----BEGIN CERTIFICATE-----\nR0hJ\n-----END CERTIFICATE-----\n");
}

#[test]
fn wrapping_already_wrapped_payload_is_identical() {
    // A payload already wrapped at 64 columns comes out with identical
    // line content after extraction wraps it again.
    let line1: String = "A".repeat(64);
    let line2: String = "B".repeat(36);
    let doc = format!(
        "<root xmlns:tsl=\"http://uri.etsi.org/02231/v2#\"><TSPService><tsl:X509Certificate>\n{}\n{}\n</tsl:X509Certificate></TSPService></root>",
        line1, line2
    );
    let certs = try_parse_xml(&doc, "DE", "QWAC").unwrap();
    assert_eq!(certs.len(), 1);
    let expected = format!("-----BEGIN CERTIFICATE-----\n{}\n{}\n-----END CERTIFICATE-----\n", line1, line2);
    assert_eq!(certs[0], expected);
}

#[test]
fn escaped_tags_inside_service_content_use_element_walk() {
    // The certificate tags appear only escaped inside the character
    // content of a TSPService element, so only the element-aware walk
    // can find the payload: the raw text holds no literal tag.
    let doc = "<?xml version=\"1.0\"?><root><TSPService>&lt;tsl:X509Certificate&gt;QUJD&lt;/tsl:X509Certificate&gt;</TSPService></root>";
    assert!(!doc.contains("<tsl:X509Certificate>"));
    let certs = try_parse_xml(doc, "DE", "QWAC").unwrap();
    assert_eq!(certs.len(), 1);
    assert_eq!(certs[0], "-----BEGIN CERTIFICATE-----\nQUJD\n-----END CERTIFICATE-----\n");
}

#[test]
fn malformed_xml_is_extraction_error() {
    let result = try_parse_xml("<a><b></a>", "DE", "QWAC");
    match result {
        Err(CaExtractorError::CertificateExtractionError(m)) => {
            assert_eq!(m, "Failed to parse XML response. The API may have changed or returned invalid XML.");
        },
        other => panic!("Expected CertificateExtractionError, got {:?}", other),
    }
}

#[test]
fn no_certificates_reports_given_country_and_service() {
    let result = try_parse_xml("<root></root>", "FR", "QSealC");
    match result {
        Err(CaExtractorError::NoCertificatesFound { country, service }) => {
            assert_eq!(country, "FR");
            assert_eq!(service, "QSealC");
        },
        other => panic!("Expected NoCertificatesFound, got {:?}", other),
    }
}

#[test]
fn json_error_message_quotes_snippet() {
    let result = try_parse_xml(JSON_RESPONSE, "DE", "QWAC");
    match result {
        Err(CaExtractorError::InvalidResponseFormat(m)) => {
            assert!(m.contains("possibly JSON"));
            assert!(m.contains("Country not found"));
        },
        other => panic!("Expected InvalidResponseFormat, got {:?}", other),
    }
}

#[test]
fn json_array_is_invalid_response_format() {
    let result = try_parse_xml("[1, 2, 3]", "DE", "QWAC");
    assert!(matches!(result, Err(CaExtractorError::InvalidResponseFormat(_))));
}

#[test]
fn empty_document_is_invalid_response_format() {
    let result = try_parse_xml("", "DE", "QWAC");
    assert!(matches!(result, Err(CaExtractorError::InvalidResponseFormat(_))));
}

#[test]
fn leading_whitespace_before_xml_is_accepted() {
    let doc = "\n   \t<root xmlns:tsl=\"http://uri.etsi.org/02231/v2#\"><TSPService><tsl:X509Certificate>QUJD</tsl:X509Certificate></TSPService></root>";
    let certs = try_parse_xml(doc, "DE", "QWAC").unwrap();
    assert_eq!(certs.len(), 1);
    assert_eq!(certs[0], "-----BEGIN CERTIFICATE-----\nQUJD\n-----END CERTIFICATE-----\n");
}

#[test]
fn unmatched_open_tag_is_skipped() {
    // A fragment whose open tag has no close tag is silently skipped,
    // and the document as a whole reports no certificates.
    let doc = "<root><TSPService>&lt;tsl:X509Certificate&gt;QUJD</TSPService></root>";
    let result = try_parse_xml(doc, "DE", "QWAC");
    assert!(matches!(result, Err(CaExtractorError::NoCertificatesFound { .. })));
}

#[test]
fn country_code_length_is_validated() {
    assert!(matches!(
        CertificateExtractor::new(ServiceType::QWAC, "D"),
        Err(CaExtractorError::InvalidCountryCode(_))
    ));
    assert!(matches!(
        CertificateExtractor::new(ServiceType::QWAC, "DEU"),
        Err(CaExtractorError::InvalidCountryCode(_))
    ));
    assert!(CertificateExtractor::new(ServiceType::QWAC, "DE").is_ok());
    assert!(CertificateExtractor::new(ServiceType::QSealC, "12").is_ok());
}

#[test]
fn country_code_error_quotes_the_code() {
    match CertificateExtractor::new(ServiceType::QWAC, "DEU") {
        Err(CaExtractorError::InvalidCountryCode(m)) => {
            assert_eq!(m, "Invalid country code 'DEU'. Must be a 2-letter ISO country code.");
        },
        other => panic!("Expected InvalidCountryCode, got {:?}", other),
    }
}

#[test]
fn extractor_method_reports_its_own_context() {
    let extractor = CertificateExtractor::new(ServiceType::QSealC, "NO").unwrap();
    match extractor.extract_certificates(NO_CERT_XML) {
        Err(CaExtractorError::NoCertificatesFound { country, service }) => {
            assert_eq!(country, "NO");
            assert_eq!(service, "QSealC");
        },
        other => panic!("Expected NoCertificatesFound, got {:?}", other),
    }
}

#[test]
fn service_token_parsing() {
    assert!(matches!(ServiceType::from_token("QWAC"), Ok(ServiceType::QWAC)));
    assert!(matches!(ServiceType::from_token("QSealC"), Ok(ServiceType::QSealC)));
    match ServiceType::from_token("qwac") {
        Err(CaExtractorError::InvalidServiceType(m)) => assert_eq!(m, "qwac"),
        other => panic!("Expected InvalidServiceType, got {:?}", other),
    }
}

#[test]
fn service_labels_and_uris() {
    assert_eq!(ServiceType::QWAC.label(), "QWAC");
    assert_eq!(ServiceType::QSealC.label(), "QSealC");
    assert_eq!(
        ServiceType::QWAC.service_uri(),
        "http://uri.etsi.org/TrstSvc/TrustedList/SvcInfoExt/ForWebSiteAuthentication"
    );
    assert_eq!(
        ServiceType::QSealC.service_uri(),
        "http://uri.etsi.org/TrstSvc/TrustedList/SvcInfoExt/ForeSeals"
    );
}

#[test]
fn namespace_context_knows_the_tsl_prefix() {
    let ctx = NamespaceContext::new();
    assert_eq!(ctx.get_namespace_uri("tsl"), Some("http://uri.etsi.org/02231/v2#"));
    assert_eq!(ctx.get_namespace_uri("xsl"), None);
    assert_eq!(ctx.get_namespace_uri(""), None);
}
