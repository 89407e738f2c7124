//! Character-sequence utilities shared by the extractor: conversions
//! between `str`/`String` and `Vec<char>`, and substring search.

use vstd::prelude::*;

verus! {

broadcast use vstd::string::group_string_axioms;

/// Relies on `String::push`: appends the given character to the end of
/// the string.
#[verifier::external_body]
pub(crate) fn push_char(s: &mut String, c: char)
    ensures
        final(s)@ == old(s)@.push(c),
{
    s.push(c);
}

/// The characters of a string slice, in order, as a vector.
pub fn str_to_chars(s: &str) -> (r: Vec<char>)
    ensures
        r@ == s@,
{
    let mut v: Vec<char> = Vec::new();
    for c in it: s.chars()
        invariant
            it.seq() == s@,
            v@ == it.seq().take(it.index() as int),
    {
        v.push(c);
    }
    proof {
        assert(v@ =~= s@);
    }
    v
}

/// A `String` holding exactly the given characters, in order.
pub fn chars_to_string(v: &Vec<char>) -> (r: String)
    ensures
        r@ == v@,
{
    let mut s = String::new();
    for i in 0..v.len()
        invariant
            s@ == v@.take(i as int),
    {
        push_char(&mut s, v[i]);
        proof {
            assert(v@.take(i as int).push(v@[i as int]) =~= v@.take(i + 1 as int));
        }
    }
    proof {
        assert(v@.take(v@.len() as int) =~= v@);
    }
    s
}

/// Appends all of `src` to `dst`.
pub fn append_chars(dst: &mut Vec<char>, src: &Vec<char>)
    ensures
        final(dst)@ == old(dst)@ + src@,
{
    for i in 0..src.len()
        invariant
            dst@ == old(dst)@ + src@.take(i as int),
    {
        dst.push(src[i]);
        proof {
            assert(old(dst)@ + src@.take(i as int) + seq![src@[i as int]] =~= old(
                dst,
            )@ + src@.take(i + 1 as int));
        }
    }
    proof {
        assert(old(dst)@ + src@.take(src@.len() as int) =~= old(dst)@ + src@);
    }
}

/// The slice of `src` between `from` (inclusive) and `to` (exclusive).
pub fn subvec(src: &Vec<char>, from: usize, to: usize) -> (r: Vec<char>)
    requires
        from <= to <= src@.len(),
    ensures
        r@ == src@.subrange(from as int, to as int),
{
    let mut v: Vec<char> = Vec::new();
    for i in from..to
        invariant
            from <= i <= to <= src@.len(),
            v@ == src@.subrange(from as int, i as int),
    {
        v.push(src[i]);
        proof {
            assert(src@.subrange(from as int, i as int).push(src@[i as int]) =~= src@.subrange(
                from as int,
                i + 1 as int,
            ));
        }
    }
    v
}

/// Whether `needle` occurs in `hay` starting at position `i`.
pub open spec fn is_match_at(hay: Seq<char>, needle: Seq<char>, i: int) -> bool {
    &&& 0 <= i
    &&& i + needle.len() <= hay.len()
    &&& hay.subrange(i, i + needle.len()) == needle
}

/// The first position at or after `from` where `needle` occurs in `hay`,
/// if any.
pub open spec fn find_at(hay: Seq<char>, needle: Seq<char>, from: int) -> Option<int>
    decreases hay.len() - from,
{
    if needle.len() == 0 {
        if 0 <= from <= hay.len() {
            Some(from)
        } else {
            None
        }
    } else if from < 0 || from + needle.len() > hay.len() {
        None
    } else if is_match_at(hay, needle, from) {
        Some(from)
    } else {
        find_at(hay, needle, from + 1)
    }
}

/// What a successful search result means: a match at the found position,
/// inside the bounds of `hay`.
pub proof fn lemma_find_at_some(hay: Seq<char>, needle: Seq<char>, from: int, i: int)
    requires
        find_at(hay, needle, from) == Some(i),
    ensures
        from <= i,
        is_match_at(hay, needle, i),
        i + needle.len() <= hay.len(),
    decreases hay.len() - from,
{
    if needle.len() == 0 {
        assert(hay.subrange(i, i + needle.len() as int) =~= needle);
    } else if from < 0 || from + needle.len() > hay.len() {
    } else if is_match_at(hay, needle, from) {
    } else {
        lemma_find_at_some(hay, needle, from + 1, i);
    }
}

/// A search may skip over a stretch with no match: searching from `from`
/// and from `upto` give the same result when nothing matches in between.
pub proof fn lemma_find_at_skip(hay: Seq<char>, needle: Seq<char>, from: int, upto: int)
    requires
        0 <= from <= upto,
        forall|j: int| from <= j < upto ==> !is_match_at(hay, needle, j),
    ensures
        find_at(hay, needle, from) == find_at(hay, needle, upto),
    decreases upto - from,
{
    if from < upto {
        if needle.len() == 0 {
            if from <= hay.len() {
                assert(hay.subrange(from, from + needle.len() as int) =~= needle);
                assert(is_match_at(hay, needle, from));
            }
        } else if from + needle.len() > hay.len() {
            assert(upto + needle.len() > hay.len());
        } else {
            assert(!is_match_at(hay, needle, from));
            lemma_find_at_skip(hay, needle, from + 1, upto);
        }
    }
}

/// Whether `needle` occurs in `hay` at exactly position `i`.
fn matches_at(hay: &Vec<char>, needle: &Vec<char>, i: usize) -> (r: bool)
    requires
        i + needle@.len() <= hay@.len(),
    ensures
        r == is_match_at(hay@, needle@, i as int),
{
    let hay_len = hay.len();
    for j in 0..needle.len()
        invariant
            i + needle@.len() <= hay@.len(),
            hay_len == hay@.len(),
            forall|k: int| 0 <= k < j ==> hay@[i + k] == needle@[k],
    {
        proof {
            assert(i + j < hay_len);
        }
        if hay[i + j] != needle[j] {
            proof {
                assert(hay@.subrange(i as int, i + needle@.len())[j as int] == hay@[i + j]);
            }
            return false;
        }
    }
    proof {
        assert(hay@.subrange(i as int, i + needle@.len()) =~= needle@);
    }
    true
}

/// The first occurrence of `needle` in `hay` at or after `from`, as the
/// search specification `find_at` describes it.
pub fn find_from(hay: &Vec<char>, needle: &Vec<char>, from: usize) -> (r: Option<usize>)
    ensures
        match r {
            Some(i) => find_at(hay@, needle@, from as int) == Some(i as int),
            None => find_at(hay@, needle@, from as int) is None,
        },
{
    if needle.len() > hay.len() {
        return None;
    }
    if needle.len() == 0 {
        if from <= hay.len() {
            proof {
                assert(hay@.subrange(from as int, from as int) =~= needle@);
            }
            return Some(from);
        } else {
            return None;
        }
    }
    let last = hay.len() - needle.len();
    let mut i = from;
    while i <= last
        invariant
            1 <= needle@.len() <= hay@.len(),
            hay@.len() <= usize::MAX,
            last == hay@.len() - needle@.len(),
            from <= i,
            forall|j: int| from <= j < i ==> !is_match_at(hay@, needle@, j),
        decreases last - i + 1,
    {
        if matches_at(hay, needle, i) {
            proof {
                lemma_find_at_skip(hay@, needle@, from as int, i as int);
            }
            return Some(i);
        }
        i = i + 1;
    }
    proof {
        lemma_find_at_skip(hay@, needle@, from as int, i as int);
    }
    None
}

/// Whether two string slices hold the same characters.
pub fn str_eq(a: &str, b: &str) -> (r: bool)
    ensures
        r == (a@ == b@),
{
    let n = a.unicode_len();
    if n != b.unicode_len() {
        return false;
    }
    for i in 0..n
        invariant
            n == a@.len() == b@.len(),
            forall|k: int| 0 <= k < i ==> a@[k] == b@[k],
    {
        if a.get_char(i) != b.get_char(i) {
            return false;
        }
    }
    proof {
        assert(a@ =~= b@);
    }
    true
}

} // verus!
