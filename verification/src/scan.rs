//! Locating embedded certificate payloads: extraction from candidate
//! `TSPService` fragments, and the tolerant fallback scan that splits
//! the whole document on the literal certificate tag.

use vstd::prelude::*;
use crate::chars::find_at;
use crate::chars::find_from;
use crate::chars::lemma_find_at_some;
use crate::chars::str_to_chars;
use crate::chars::subvec;
use crate::pem::clean;
use crate::pem::clean_chars;
use crate::pem::is_pem_block;
use crate::pem::pem_of;
use crate::pem::pem_string;

verus! {

/// The literal tag opening an embedded certificate payload.
pub open spec fn open_tag() -> Seq<char> {
    "<tsl:X509Certificate>"@
}

/// The literal tag closing an embedded certificate payload.
pub open spec fn close_tag() -> Seq<char> {
    "</tsl:X509Certificate>"@
}

/// The open tag as a character vector.
fn open_tag_chars() -> (r: Vec<char>)
    ensures
        r@ == open_tag(),
{
    str_to_chars("<tsl:X509Certificate>")
}

/// The close tag as a character vector.
fn close_tag_chars() -> (r: Vec<char>)
    ensures
        r@ == close_tag(),
{
    str_to_chars("</tsl:X509Certificate>")
}

/// The tags are non-empty and of the expected lengths.
pub proof fn lemma_tag_lens()
    ensures
        open_tag().len() == 21,
        close_tag().len() == 22,
{
    reveal_strlit("<tsl:X509Certificate>");
    reveal_strlit("</tsl:X509Certificate>");
}

/// The payload of one candidate fragment: the cleaned text between the
/// first open tag and the first close tag, provided both are present
/// and the close tag sits at or after the end of the open tag. A
/// fragment with an unmatched tag has no payload and is skipped.
pub open spec fn fragment_payload(f: Seq<char>) -> Option<Seq<char>> {
    match find_at(f, open_tag(), 0) {
        None => None,
        Some(o) => match find_at(f, close_tag(), 0) {
            None => None,
            Some(c) => if o + open_tag().len() <= c {
                Some(clean(f.subrange(o + open_tag().len(), c)))
            } else {
                None
            },
        },
    }
}

/// Whether a fragment holds a well-formed embedded certificate payload.
pub open spec fn has_payload(f: Seq<char>) -> bool {
    fragment_payload(f) is Some
}

/// The payload of a fragment, or the empty sequence when it has none.
pub open spec fn payload_of(f: Seq<char>) -> Seq<char> {
    match fragment_payload(f) {
        Some(p) => p,
        None => Seq::empty(),
    }
}

/// The PEM blocks of the fragments from index `i` on, in order.
pub open spec fn certs_from(frags: Seq<Seq<char>>, i: int) -> Seq<Seq<char>>
    decreases frags.len() - i,
{
    if i < 0 || i >= frags.len() {
        Seq::empty()
    } else {
        (match fragment_payload(frags[i]) {
            Some(p) => seq![pem_of(p)],
            None => Seq::<Seq<char>>::empty(),
        }) + certs_from(frags, i + 1)
    }
}

/// The PEM blocks extracted from a list of candidate fragments, in
/// document order.
pub open spec fn certs_of_fragments(frags: Seq<Seq<char>>) -> Seq<Seq<char>> {
    certs_from(frags, 0)
}

/// The PEM block of one candidate fragment, when the fragment holds a
/// well-formed payload.
pub fn extract_fragment(f: &Vec<char>) -> (r: Option<String>)
    ensures
        match r {
            Some(s) => fragment_payload(f@) matches Some(p) && s@ == pem_of(p),
            None => fragment_payload(f@) is None,
        },
{
    let open = open_tag_chars();
    let close = close_tag_chars();
    match find_from(f, &open, 0) {
        None => None,
        Some(o) => match find_from(f, &close, 0) {
            None => None,
            Some(c) => {
                proof {
                    lemma_find_at_some(f@, open@, 0, o as int);
                    lemma_find_at_some(f@, close@, 0, c as int);
                }
                if open.len() <= c && o <= c - open.len() {
                    let payload = subvec(f, o + open.len(), c);
                    let cleaned = clean_chars(&payload);
                    Some(pem_string(&cleaned))
                } else {
                    None
                }
            },
        },
    }
}

/// The PEM blocks of all candidate fragments, in document order: one
/// block per fragment holding a well-formed payload.
pub fn extract_from_fragments(frags: &Vec<String>) -> (r: Vec<String>)
    ensures
        r.deep_view() == certs_of_fragments(frags.deep_view()),
{
    let mut out: Vec<String> = Vec::new();
    for i in 0..frags.len()
        invariant
            certs_of_fragments(frags.deep_view()) == out.deep_view() + certs_from(
                frags.deep_view(),
                i as int,
            ),
    {
        let ghost out0 = out.deep_view();
        let fchars = str_to_chars(frags[i].as_str());
        match extract_fragment(&fchars) {
            Some(s) => {
                proof {
                    assert(frags.deep_view()[i as int] == frags[i as int]@);
                }
                out.push(s);
                proof {
                    assert(out.deep_view() =~= out0 + seq![out@[out@.len() - 1]@]);
                    assert(out0 + certs_from(frags.deep_view(), i as int) =~= out.deep_view()
                        + certs_from(frags.deep_view(), i + 1));
                }
            },
            None => {
                proof {
                    assert(frags.deep_view()[i as int] == frags[i as int]@);
                    assert(out0 + certs_from(frags.deep_view(), i as int) =~= out.deep_view()
                        + certs_from(frags.deep_view(), i + 1));
                }
            },
        }
    }
    out
}

/// The characterisation of `certs_from` over the fragment suffix from
/// `i`: one PEM block per fragment with a well-formed payload.
proof fn lemma_certs_from_filter(frags: Seq<Seq<char>>, i: int)
    requires
        0 <= i <= frags.len(),
    ensures
        certs_from(frags, i) == frags.skip(i).filter(|f: Seq<char>| has_payload(f)).map_values(
            |f: Seq<char>| pem_of(payload_of(f)),
        ),
    decreases frags.len() - i,
{
    let pred = |f: Seq<char>| has_payload(f);
    let pf = |f: Seq<char>| pem_of(payload_of(f));
    reveal(Seq::filter);
    if i == frags.len() {
        assert(frags.skip(i) =~= Seq::<Seq<char>>::empty());
        assert(Seq::<Seq<char>>::empty().filter(pred).map_values(pf) =~= Seq::<Seq<char>>::empty());
    } else {
        lemma_certs_from_filter(frags, i + 1);
        let single = seq![frags[i]];
        let rest = frags.skip(i + 1);
        assert(frags.skip(i) =~= single + rest);
        Seq::filter_distributes_over_add(single, rest, pred);
        assert(single.drop_last() =~= Seq::<Seq<char>>::empty());
        assert(Seq::<Seq<char>>::empty().filter(pred) =~= Seq::<Seq<char>>::empty());
        if has_payload(frags[i]) {
            assert(single.filter(pred) =~= seq![frags[i]]);
        } else {
            assert(single.filter(pred) =~= Seq::<Seq<char>>::empty());
        }
        assert((single.filter(pred) + rest.filter(pred)).map_values(pf) =~= single.filter(
            pred,
        ).map_values(pf) + rest.filter(pred).map_values(pf));
        if has_payload(frags[i]) {
            assert(single.filter(pred).map_values(pf) =~= seq![pem_of(payload_of(frags[i]))]);
            assert(payload_of(frags[i]) == fragment_payload(frags[i])->Some_0);
        } else {
            assert(single.filter(pred).map_values(pf) =~= Seq::<Seq<char>>::empty());
        }
        assert(certs_from(frags, i) =~= single.filter(pred).map_values(pf) + certs_from(
            frags,
            i + 1,
        ));
    }
}

/// The extraction from candidate fragments returns exactly one PEM
/// block per fragment holding a well-formed payload, in document
/// order; each block is the PEM form of that fragment's own payload.
pub proof fn lemma_certs_of_fragments_exact(frags: Seq<Seq<char>>)
    ensures
        certs_of_fragments(frags) == frags.filter(|f: Seq<char>| has_payload(f)).map_values(
            |f: Seq<char>| pem_of(payload_of(f)),
        ),
        certs_of_fragments(frags).len() == frags.filter(|f: Seq<char>| has_payload(f)).len(),
{
    lemma_certs_from_filter(frags, 0);
    assert(frags.skip(0) =~= frags);
}

/// The PEM blocks of the fallback scan from `pstart`, a position just
/// past an open tag. The part of the document before the next open tag
/// (or the end) is one split part; a payload is taken from it when a
/// close tag fits wholly inside the part.
pub open spec fn split_certs_from(s: Seq<char>, pstart: int) -> Seq<Seq<char>>
    decreases s.len() - pstart,
        via split_certs_from_decreases
{
    let pend = match find_at(s, open_tag(), pstart) {
        None => s.len() as int,
        Some(n) => n,
    };
    let this = match find_at(s, close_tag(), pstart) {
        None => Seq::<Seq<char>>::empty(),
        Some(c) => if c + close_tag().len() <= pend {
            seq![pem_of(clean(s.subrange(pstart, c)))]
        } else {
            Seq::<Seq<char>>::empty()
        },
    };
    match find_at(s, open_tag(), pstart) {
        None => this,
        Some(n) => this + split_certs_from(s, n + open_tag().len()),
    }
}

#[via_fn]
proof fn split_certs_from_decreases(s: Seq<char>, pstart: int) {
    lemma_tag_lens();
    match find_at(s, open_tag(), pstart) {
        None => {},
        Some(n) => {
            lemma_find_at_some(s, open_tag(), pstart, n);
        },
    }
}

/// The PEM blocks of the tolerant fallback scan, which splits the raw
/// document on the literal open tag and takes one payload per part.
pub open spec fn split_certs(s: Seq<char>) -> Seq<Seq<char>> {
    match find_at(s, open_tag(), 0) {
        None => Seq::empty(),
        Some(o) => split_certs_from(s, o + open_tag().len()),
    }
}

/// Every block of the extraction from fragments is the PEM block of
/// some payload.
pub proof fn lemma_certs_of_fragments_pem(frags: Seq<Seq<char>>)
    ensures
        forall|i: int|
            0 <= i < certs_of_fragments(frags).len() ==> is_pem_block(
                #[trigger] certs_of_fragments(frags)[i],
            ),
{
    lemma_certs_of_fragments_exact(frags);
    let kept = frags.filter(|f: Seq<char>| has_payload(f));
    assert forall|i: int| 0 <= i < certs_of_fragments(frags).len() implies is_pem_block(
        #[trigger] certs_of_fragments(frags)[i],
    ) by {
        assert(certs_of_fragments(frags)[i] == pem_of(payload_of(kept[i])));
    }
}

/// Every block of the fallback scan from `pstart` is the PEM block of
/// some payload.
proof fn lemma_split_certs_from_pem(s: Seq<char>, pstart: int)
    ensures
        forall|i: int|
            0 <= i < split_certs_from(s, pstart).len() ==> is_pem_block(
                #[trigger] split_certs_from(s, pstart)[i],
            ),
    decreases s.len() - pstart,
{
    lemma_tag_lens();
    let pend = match find_at(s, open_tag(), pstart) {
        None => s.len() as int,
        Some(n) => n,
    };
    let this = match find_at(s, close_tag(), pstart) {
        None => Seq::<Seq<char>>::empty(),
        Some(c) => if c + close_tag().len() <= pend {
            seq![pem_of(clean(s.subrange(pstart, c)))]
        } else {
            Seq::<Seq<char>>::empty()
        },
    };
    let rest = match find_at(s, open_tag(), pstart) {
        None => Seq::<Seq<char>>::empty(),
        Some(n) => split_certs_from(s, n + open_tag().len()),
    };
    match find_at(s, open_tag(), pstart) {
        None => {},
        Some(n) => {
            lemma_find_at_some(s, open_tag(), pstart, n);
            lemma_split_certs_from_pem(s, n + open_tag().len());
        },
    }
    let whole = split_certs_from(s, pstart);
    assert(whole =~= this + rest);
    assert forall|i: int| 0 <= i < whole.len() implies is_pem_block(#[trigger] whole[i]) by {
        if i < this.len() {
            match find_at(s, close_tag(), pstart) {
                None => {},
                Some(c) => {
                    let q = clean(s.subrange(pstart, c));
                    assert(this[0] == pem_of(q));
                    assert(is_pem_block(pem_of(q)));
                },
            }
        } else {
            assert(whole[i] == rest[i - this.len()]);
        }
    }
}

/// Every block of the fallback scan is the PEM block of some payload.
pub proof fn lemma_split_certs_pem(s: Seq<char>)
    ensures
        forall|i: int|
            0 <= i < split_certs(s).len() ==> is_pem_block(#[trigger] split_certs(s)[i]),
{
    match find_at(s, open_tag(), 0) {
        None => {},
        Some(o) => {
            lemma_split_certs_from_pem(s, o + open_tag().len());
        },
    }
}

/// The fallback scan over the raw document text: split on the literal
/// open tag, and normalise the text up to the close tag of each part.
pub fn split_extract(doc: &Vec<char>) -> (r: Vec<String>)
    ensures
        r.deep_view() == split_certs(doc@),
{
    let open = open_tag_chars();
    let close = close_tag_chars();
    let mut out: Vec<String> = Vec::new();
    let doc_len = doc.len();
    let mut cursor: usize;
    match find_from(doc, &open, 0) {
        None => {
            return out;
        },
        Some(o) => {
            proof {
                lemma_find_at_some(doc@, open@, 0, o as int);
            }
            cursor = o + open.len();
        },
    }
    loop
        invariant
            cursor <= doc@.len(),
            doc_len == doc@.len(),
            open@ == open_tag(),
            close@ == close_tag(),
            split_certs(doc@) == out.deep_view() + split_certs_from(doc@, cursor as int),
        decreases doc@.len() - cursor,
    {
        let nxt = find_from(doc, &open, cursor);
        let pend: usize = match nxt {
            None => doc.len(),
            Some(n) => n,
        };
        proof {
            if let Some(n) = nxt {
                lemma_find_at_some(doc@, open@, cursor as int, n as int);
            }
        }
        let ghost out0 = out.deep_view();
        if let Some(c) = find_from(doc, &close, cursor) {
            proof {
                lemma_find_at_some(doc@, close@, cursor as int, c as int);
            }
            if close.len() <= pend && c <= pend - close.len() {
                let payload = subvec(doc, cursor, c);
                let cleaned = clean_chars(&payload);
                out.push(pem_string(&cleaned));
                proof {
                    assert(out.deep_view() =~= out0 + seq![out@[out@.len() - 1]@]);
                }
            }
        }
        proof {
            assert(split_certs(doc@) == out.deep_view() + (match find_at(
                doc@,
                open_tag(),
                cursor as int,
            ) {
                None => Seq::<Seq<char>>::empty(),
                Some(n) => split_certs_from(doc@, n + open_tag().len()),
            })) by {
                assert(out0 + split_certs_from(doc@, cursor as int) =~= out.deep_view() + (match
                    find_at(doc@, open_tag(), cursor as int) {
                    None => Seq::<Seq<char>>::empty(),
                    Some(n) => split_certs_from(doc@, n + open_tag().len()),
                }));
            }
        }
        match nxt {
            None => {
                proof {
                    assert(out.deep_view() =~= split_certs(doc@));
                }
                return out;
            },
            Some(n) => {
                proof {
                    lemma_tag_lens();
                }
                cursor = n + open.len();
            },
        }
    }
}

} // verus!
