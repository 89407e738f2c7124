//! The element-aware walk of the document: tokenisation through an
//! outside XML parser, and collection of the character content of
//! `TSPService` elements.

use vstd::prelude::*;
use vstd::string::StringExecFns;
use xml::reader::XmlEvent;

verus! {

/// One event of the element-aware walk: the start of an element (with
/// its local name), character content, or the end of an element.
pub enum XmlToken {
    /// An element starts; `name` is its local name, without any
    /// namespace prefix.
    Start { name: String },
    /// Character content between tags.
    Text { content: String },
    /// An element ends.
    End,
}

/// The token sequence that the XML tokenizer produces for a document,
/// or `None` when it reports the document malformed. The result is a
/// function of the document text alone.
pub uninterp spec fn xml_scan_of(s: Seq<char>) -> Option<Seq<XmlToken>>;

/// Relies on `xml::reader::EventReader`: walks the document's parse
/// events, keeping element starts (by local name), character content
/// and element ends, and reports `None` as soon as the parser reports
/// the document malformed.
#[verifier::external_body]
pub(crate) fn scan_xml(s: &str) -> (r: Option<Vec<XmlToken>>)
    ensures
        r matches Some(v) ==> xml_scan_of(s@) == Some(v@),
        r is None ==> xml_scan_of(s@) is None,
{
    let parser = xml::reader::EventReader::new(s.as_bytes());
    let mut out: Vec<XmlToken> = Vec::new();
    for event in parser {
        match event {
            Ok(XmlEvent::StartElement { name, .. }) => out.push(XmlToken::Start { name: name.local_name }),
            Ok(XmlEvent::Characters(content)) => out.push(XmlToken::Text { content }),
            Ok(XmlEvent::EndElement { .. }) => out.push(XmlToken::End),
            Ok(_) => {},
            Err(_) => return None,
        }
    }
    Some(out)
}

/// The element name whose character content the walk collects.
pub open spec fn service_tag() -> Seq<char> {
    "TSPService"@
}

/// The character content collected while walking the tokens from `i`
/// on, with `current` the name of the current element: every piece of
/// content seen while the current element is exactly `TSPService`, in
/// order. An element start replaces the current name; an element end
/// clears it, so nested elements are not attributed to their parent.
pub open spec fn service_texts_from(
    tokens: Seq<XmlToken>,
    i: int,
    current: Seq<char>,
) -> Seq<Seq<char>>
    decreases tokens.len() - i,
{
    if i < 0 || i >= tokens.len() {
        Seq::empty()
    } else {
        match tokens[i] {
            XmlToken::Start { name } => service_texts_from(tokens, i + 1, name@),
            XmlToken::Text { content } => if current == service_tag() {
                seq![content@] + service_texts_from(tokens, i + 1, current)
            } else {
                service_texts_from(tokens, i + 1, current)
            },
            XmlToken::End => service_texts_from(tokens, i + 1, Seq::empty()),
        }
    }
}

/// The candidate fragments of a token stream: the character content of
/// `TSPService` elements, in document order.
pub open spec fn service_texts(tokens: Seq<XmlToken>) -> Seq<Seq<char>> {
    service_texts_from(tokens, 0, Seq::empty())
}

/// Collects the character content of `TSPService` elements from the
/// token stream, in document order.
pub fn collect_service_texts(tokens: &Vec<XmlToken>) -> (r: Vec<String>)
    ensures
        r.deep_view() == service_texts(tokens@),
{
    let target: String = String::from_str("TSPService");
    let mut current: String = String::new();
    let mut out: Vec<String> = Vec::new();
    for i in 0..tokens.len()
        invariant
            target@ == service_tag(),
            service_texts(tokens@) == out.deep_view() + service_texts_from(
                tokens@,
                i as int,
                current@,
            ),
    {
        let ghost out0 = out.deep_view();
        let ghost cur0 = current@;
        match &tokens[i] {
            XmlToken::Start { name } => {
                current = name.clone();
                proof {
                    assert(service_texts_from(tokens@, i as int, cur0) == service_texts_from(
                        tokens@,
                        i + 1,
                        current@,
                    ));
                }
            },
            XmlToken::Text { content } => {
                if current == target {
                    out.push(content.clone());
                    proof {
                        assert(out.deep_view() =~= out0 + seq![out@[out@.len() - 1]@]);
                        assert(out0 + service_texts_from(tokens@, i as int, cur0) =~= out.deep_view()
                            + service_texts_from(tokens@, i + 1, cur0));
                    }
                } else {
                    proof {
                        assert(service_texts_from(tokens@, i as int, cur0) == service_texts_from(
                            tokens@,
                            i + 1,
                            cur0,
                        ));
                    }
                }
            },
            XmlToken::End => {
                current = String::new();
                proof {
                    assert(service_texts_from(tokens@, i as int, cur0) == service_texts_from(
                        tokens@,
                        i + 1,
                        current@,
                    ));
                }
            },
        }
    }
    proof {
        assert(service_texts_from(tokens@, tokens@.len() as int, current@)
            =~= Seq::<Seq<char>>::empty());
        assert(out.deep_view() + Seq::<Seq<char>>::empty() =~= out.deep_view());
    }
    out
}

} // verus!
