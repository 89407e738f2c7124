//! Normalisation of certificate payloads into PEM blocks: whitespace
//! trimming, removal of spaces and newlines, and re-wrapping of the
//! base64 text at 64 characters per line.

use vstd::prelude::*;
use crate::chars::append_chars;
use crate::chars::chars_to_string;
use crate::chars::str_to_chars;
use crate::chars::subvec;

verus! {

/// ASCII whitespace, as the trimming of payload edges understands it.
pub open spec fn is_ws(c: char) -> bool {
    c == ' ' || c == '\n' || c == '\t' || c == '\r'
}

/// A character that the strip step keeps: anything but a space or a
/// newline.
pub open spec fn kept(c: char) -> bool {
    c != ' ' && c != '\n'
}

/// The sequence with its leading whitespace removed.
pub open spec fn ltrim(s: Seq<char>) -> Seq<char>
    decreases s.len(),
{
    if s.len() > 0 && is_ws(s[0]) {
        ltrim(s.skip(1))
    } else {
        s
    }
}

/// The sequence with its trailing whitespace removed.
pub open spec fn rtrim(s: Seq<char>) -> Seq<char>
    decreases s.len(),
{
    if s.len() > 0 && is_ws(s.last()) {
        rtrim(s.drop_last())
    } else {
        s
    }
}

/// The sequence with whitespace removed from both ends.
pub open spec fn trim(s: Seq<char>) -> Seq<char> {
    rtrim(ltrim(s))
}

/// The sequence with every space and newline removed.
pub open spec fn strip(s: Seq<char>) -> Seq<char>
    decreases s.len(),
{
    if s.len() == 0 {
        Seq::empty()
    } else if kept(s.last())  {
        strip(s.drop_last()).push(s.last())
    } else {
        strip(s.drop_last())
    }
}

/// The payload cleanup of the extractor: trim the edges, then drop all
/// spaces and newlines.
pub open spec fn clean(s: Seq<char>) -> Seq<char> {
    strip(trim(s))
}

/// The suffix of `s` from `i` on, wrapped at 64 characters per line.
pub open spec fn wrap_at(s: Seq<char>, i: int) -> Seq<char>
    decreases s.len() - i,
{
    if s.len() - i <= 64 {
        s.subrange(i, s.len() as int)
    } else {
        s.subrange(i, i + 64) + seq!['\n'] + wrap_at(s, i + 64)
    }
}

/// The sequence wrapped at 64 characters per line, lines joined by a
/// newline, with no trailing newline.
pub open spec fn wrap64(s: Seq<char>) -> Seq<char> {
    wrap_at(s, 0)
}

/// The PEM header line, newline included.
pub open spec fn pem_header() -> Seq<char> {
    "-----BEGIN CERTIFICATE-----\n"@
}

/// The newline closing the base64 body, then the PEM footer line with
/// its trailing newline.
pub open spec fn pem_footer() -> Seq<char> {
    "\n-----END CERTIFICATE-----\n"@
}

/// The PEM block for a cleaned base64 payload.
pub open spec fn pem_of(payload: Seq<char>) -> Seq<char> {
    pem_header() + wrap64(payload) + pem_footer()
}

/// Executable check for `is_ws`.
pub fn ws_char(c: char) -> (r: bool)
    ensures
        r == is_ws(c),
{
    c == ' ' || c == '\n' || c == '\t' || c == '\r'
}

/// Removing leading whitespace stops exactly at the first non-whitespace
/// character.
pub proof fn lemma_ltrim_prefix(s: Seq<char>, lo: int)
    requires
        0 <= lo <= s.len(),
        forall|k: int| 0 <= k < lo ==> is_ws(s[k]),
        lo == s.len() || !is_ws(s[lo]),
    ensures
        ltrim(s) == s.skip(lo),
    decreases lo,
{
    if lo == 0 {
        assert(s.skip(0) =~= s);
    } else {
        lemma_ltrim_prefix(s.skip(1), lo - 1);
        assert(s.skip(1).skip(lo - 1) =~= s.skip(lo));
    }
}

/// Removing trailing whitespace stops exactly at the last non-whitespace
/// character.
proof fn lemma_rtrim_suffix(s: Seq<char>, hi: int)
    requires
        0 <= hi <= s.len(),
        forall|k: int| hi <= k < s.len() ==> is_ws(s[k]),
        hi == 0 || !is_ws(s[hi - 1]),
    ensures
        rtrim(s) == s.take(hi),
    decreases s.len() - hi,
{
    if hi == s.len() {
        assert(s.take(hi) =~= s);
    } else {
        lemma_rtrim_suffix(s.drop_last(), hi);
        assert(s.drop_last().take(hi) =~= s.take(hi));
    }
}

/// The characters of `s` between the first and the last non-whitespace
/// character are exactly its trimmed form.
pub proof fn lemma_trim_window(s: Seq<char>, lo: int, hi: int)
    requires
        0 <= lo <= hi <= s.len(),
        forall|k: int| 0 <= k < lo ==> is_ws(s[k]),
        forall|k: int| hi <= k < s.len() ==> is_ws(s[k]),
        lo == hi || (!is_ws(s[lo]) && !is_ws(s[hi - 1])),
    ensures
        trim(s) == s.subrange(lo, hi),
    decreases s.len(),
{
    if lo == hi {
        lemma_ltrim_prefix(s, s.len() as int);
        lemma_rtrim_suffix(s.skip(s.len() as int), 0);
        assert(s.skip(s.len() as int).take(0) =~= s.subrange(lo, hi));
    } else {
        lemma_ltrim_prefix(s, lo);
        lemma_rtrim_suffix(s.skip(lo), hi - lo);
        assert(s.skip(lo).take(hi - lo) =~= s.subrange(lo, hi));
    }
}

/// Trims ASCII whitespace from both ends of the characters.
pub fn trim_chars(s: &Vec<char>) -> (r: Vec<char>)
    ensures
        r@ == trim(s@),
{
    let mut lo: usize = 0;
    while lo < s.len() && ws_char(s[lo])
        invariant
            lo <= s@.len(),
            forall|k: int| 0 <= k < lo ==> is_ws(s@[k]),
        decreases s@.len() - lo,
    {
        lo = lo + 1;
    }
    if lo == s.len() {
        proof {
            lemma_trim_window(s@, lo as int, lo as int);
            assert(s@.subrange(lo as int, lo as int) =~= Seq::<char>::empty());
        }
        let r: Vec<char> = Vec::new();
        return r;
    }
    let mut hi: usize = s.len();
    while hi > lo && ws_char(s[hi - 1])
        invariant
            lo < hi <= s@.len() || hi == lo,
            forall|k: int| hi <= k < s@.len() ==> is_ws(s@[k]),
        decreases hi,
    {
        hi = hi - 1;
    }
    proof {
        lemma_trim_window(s@, lo as int, hi as int);
    }
    subvec(s, lo, hi)
}

/// Removes every space and newline from the characters.
pub fn strip_chars(s: &Vec<char>) -> (r: Vec<char>)
    ensures
        r@ == strip(s@),
{
    let mut v: Vec<char> = Vec::new();
    for i in 0..s.len()
        invariant
            v@ == strip(s@.take(i as int)),
    {
        let c = s[i];
        proof {
            assert(s@.take(i + 1 as int).drop_last() =~= s@.take(i as int));
            assert(s@.take(i + 1 as int).last() == s@[i as int]);
        }
        if c != ' ' && c != '\n' {
            v.push(c);
        }
    }
    proof {
        assert(s@.take(s@.len() as int) =~= s@);
    }
    v
}

/// The payload cleanup: trim, then strip.
pub fn clean_chars(s: &Vec<char>) -> (r: Vec<char>)
    ensures
        r@ == clean(s@),
{
    let trimmed = trim_chars(s);
    strip_chars(&trimmed)
}

/// Wraps the characters at 64 per line, joining lines with newlines.
pub fn wrap_chars(s: &Vec<char>) -> (r: Vec<char>)
    ensures
        r@ == wrap64(s@),
{
    let mut out: Vec<char> = Vec::new();
    let mut i: usize = 0;
    let slen = s.len();
    while s.len() - i > 64
        invariant
            i <= s@.len(),
            slen == s@.len(),
            wrap64(s@) == out@ + wrap_at(s@, i as int),
        decreases s@.len() - i,
    {
        let ghost out0 = out@;
        let chunk = subvec(s, i, i + 64);
        append_chars(&mut out, &chunk);
        out.push('\n');
        proof {
            assert(wrap_at(s@, i as int) == s@.subrange(i as int, i + 64) + seq!['\n'] + wrap_at(
                s@,
                i + 64,
            ));
            assert(out0 + wrap_at(s@, i as int) =~= out@ + wrap_at(s@, i + 64));
        }
        i = i + 64;
    }
    let ghost out0 = out@;
    let tail = subvec(s, i, s.len());
    append_chars(&mut out, &tail);
    proof {
        assert(out@ =~= out0 + wrap_at(s@, i as int));
    }
    out
}

/// Concatenation distributes over the strip step.
proof fn lemma_strip_concat(a: Seq<char>, b: Seq<char>)
    ensures
        strip(a + b) == strip(a) + strip(b),
    decreases b.len(),
{
    if b.len() == 0 {
        assert(a + b =~= a);
        assert(strip(b) =~= Seq::<char>::empty());
        assert(strip(a) + strip(b) =~= strip(a));
    } else {
        lemma_strip_concat(a, b.drop_last());
        assert((a + b).drop_last() =~= a + b.drop_last());
        assert((a + b).last() == b.last());
        if kept(b.last()) {
            assert(strip(a) + strip(b) =~= (strip(a) + strip(b.drop_last())).push(b.last()));
        }
    }
}

/// A sequence without spaces or newlines is unchanged by the strip step.
proof fn lemma_strip_kept(s: Seq<char>)
    requires
        forall|k: int| 0 <= k < s.len() ==> kept(s[k]),
    ensures
        strip(s) == s,
    decreases s.len(),
{
    if s.len() == 0 {
        assert(strip(s) =~= s);
    } else {
        lemma_strip_kept(s.drop_last());
        assert(strip(s.drop_last()).push(s.last()) =~= s);
    }
}

/// Stripping the wrapped tail of a payload without spaces or newlines
/// gives that tail back: the strip step removes exactly the newlines
/// that the wrap step inserted.
proof fn lemma_strip_wrap_at(s: Seq<char>, i: int)
    requires
        0 <= i <= s.len(),
        forall|k: int| 0 <= k < s.len() ==> kept(s[k]),
    ensures
        strip(wrap_at(s, i)) == s.skip(i),
    decreases s.len() - i,
{
    if s.len() - i <= 64 {
        assert(s.subrange(i, s.len() as int) =~= s.skip(i));
        lemma_strip_kept(s.skip(i));
    } else {
        let head = s.subrange(i, i + 64);
        let nl = seq!['\n'];
        lemma_strip_concat(head + nl, wrap_at(s, i + 64));
        lemma_strip_concat(head, nl);
        lemma_strip_kept(head);
        assert(nl.drop_last() =~= Seq::<char>::empty());
        assert(strip(Seq::<char>::empty()) =~= Seq::<char>::empty());
        assert(!kept(nl.last()));
        assert(strip(nl) == strip(nl.drop_last()));
        assert(strip(nl) =~= Seq::<char>::empty());
        lemma_strip_wrap_at(s, i + 64);
        assert(strip(head) + strip(nl) =~= head);
        assert(head + s.skip(i + 64) =~= s.skip(i));
    }
}

/// The wrapped form of a non-empty payload is non-empty and begins and
/// ends with the payload's own first and last characters.
proof fn lemma_wrap_edges(s: Seq<char>, i: int)
    requires
        0 <= i < s.len(),
    ensures
        wrap_at(s, i).len() > 0,
        wrap_at(s, i).first() == s[i],
        wrap_at(s, i).last() == s.last(),
    decreases s.len() - i,
{
    if s.len() - i <= 64 {
    } else {
        lemma_wrap_edges(s, i + 64);
    }
}

/// Stripping whitespace from a wrapped payload returns the payload, so
/// re-wrapping an already wrapped payload yields identical line content:
/// the cleanup-and-wrap pipeline is idempotent on whitespace-free
/// payloads.
pub proof fn lemma_wrap_roundtrip(p: Seq<char>)
    requires
        forall|k: int| 0 <= k < p.len() ==> !is_ws(p[k]),
    ensures
        clean(wrap64(p)) == p,
        wrap64(clean(wrap64(p))) == wrap64(p),
{
    if p.len() == 0 {
        assert(wrap64(p) =~= Seq::<char>::empty());
        assert(clean(wrap64(p)) =~= p);
    } else {
        lemma_wrap_edges(p, 0);
        assert(!is_ws(wrap64(p)[0]));
        assert(ltrim(wrap64(p)) == wrap64(p));
        assert(rtrim(wrap64(p)) == wrap64(p));
        lemma_strip_wrap_at(p, 0);
        assert(p.skip(0) =~= p);
    }
}

/// Whether a text is the PEM block of some payload.
pub open spec fn is_pem_block(b: Seq<char>) -> bool {
    exists|p: Seq<char>| b == pem_of(p)
}

/// Every PEM block is bracketed correctly: it begins with the header
/// line and ends with the footer line, whatever its payload.
pub proof fn lemma_pem_block_bracketed(b: Seq<char>)
    requires
        is_pem_block(b),
    ensures
        b.len() >= pem_header().len() + pem_footer().len(),
        b.subrange(0, pem_header().len() as int) == pem_header(),
        b.subrange(b.len() - pem_footer().len(), b.len() as int) == pem_footer(),
{
    let p = choose|p: Seq<char>| b == pem_of(p);
    lemma_pem_bracketed(p);
}

/// Every PEM block is bracketed correctly: it begins with the header
/// line and ends with the footer line, whatever the payload.
pub proof fn lemma_pem_bracketed(p: Seq<char>)
    ensures
        pem_of(p).len() >= pem_header().len() + pem_footer().len(),
        pem_of(p).subrange(0, pem_header().len() as int) == pem_header(),
        pem_of(p).subrange(
            pem_of(p).len() - pem_footer().len(),
            pem_of(p).len() as int,
        ) == pem_footer(),
{
    assert(pem_of(p).subrange(0, pem_header().len() as int) =~= pem_header());
    assert(pem_of(p).subrange(pem_of(p).len() - pem_footer().len(), pem_of(p).len() as int)
        =~= pem_footer());
}

/// The PEM block for a cleaned payload: header line, the payload wrapped
/// at 64 columns, then the footer line, each line ending in a newline.
pub fn pem_string(payload: &Vec<char>) -> (r: String)
    ensures
        r@ == pem_of(payload@),
{
    let mut out: Vec<char> = str_to_chars("-----BEGIN CERTIFICATE-----\n");
    let wrapped = wrap_chars(payload);
    append_chars(&mut out, &wrapped);
    let footer = str_to_chars("\n-----END CERTIFICATE-----\n");
    append_chars(&mut out, &footer);
    chars_to_string(&out)
}

} // verus!
