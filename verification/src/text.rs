//! Small operations on text that the node and the orchestrator share.

use vstd::prelude::*;
use vstd::string::*;
use vstd::utf8::*;

verus! {

/// The texts of a sequence of strings.
pub open spec fn texts(v: Seq<String>) -> Seq<Seq<char>> {
    v.map_values(|s: String| s@)
}

/// `needle` occurs somewhere in `hay` as a run of consecutive characters.
pub open spec fn occurs_in(needle: Seq<char>, hay: Seq<char>) -> bool {
    exists|i: int|
        0 <= i && i + needle.len() <= hay.len() && #[trigger] hay.subrange(i, i + needle.len())
            == needle
}

/// The text of a `bool` as `Display` writes it.
pub open spec fn bool_text(b: bool) -> Seq<char> {
    if b {
        "true"@
    } else {
        "false"@
    }
}

/// The texts of a list grow by the text of the string pushed.
pub broadcast proof fn lemma_texts_push(v: Seq<String>, s: String)
    ensures
        #[trigger] texts(v.push(s)) == texts(v).push(s@),
{
    assert(texts(v.push(s)) =~= texts(v).push(s@));
}

/// Whether two texts are the same.
pub fn same_text(a: &str, b: &str) -> (r: bool)
    ensures
        r == (a@ == b@),
{
    a.to_owned() == b.to_owned()
}

/// Whether `s` begins with `prefix`, compared character by character.
pub fn text_starts_with(s: &str, prefix: &str) -> (r: bool)
    ensures
        r == prefix@.is_prefix_of(s@),
{
    let n = s.unicode_len();
    let m = prefix.unicode_len();
    if m > n {
        return false;
    }
    let mut i: usize = 0;
    while i < m
        invariant
            m <= n,
            n == s@.len(),
            m == prefix@.len(),
            i <= m,
            forall|k: int| 0 <= k < i ==> s@[k] == prefix@[k],
        decreases m - i,
    {
        if s.get_char(i) != prefix.get_char(i) {
            assert(s@.subrange(0, m as int)[i as int] != prefix@[i as int]);
            return false;
        }
        i = i + 1;
    }
    assert(prefix@ =~= s@.subrange(0, m as int));
    true
}

/// Whether `needle` occurs in `hay`.
pub fn text_contains(hay: &str, needle: &str) -> (r: bool)
    ensures
        r == occurs_in(needle@, hay@),
{
    let n = hay.unicode_len();
    let m = needle.unicode_len();
    if m > n {
        return false;
    }
    let mut start: usize = 0;
    while start <= n - m
        invariant
            n == hay@.len(),
            m == needle@.len(),
            m <= n,
            start <= n - m + 1,
            forall|i: int|
                0 <= i < start ==> #[trigger] hay@.subrange(i, i + m) != needle@,
        decreases n - start,
    {
        let mut k: usize = 0;
        let mut matches = true;
        while k < m
            invariant
                n == hay@.len(),
                m == needle@.len(),
                start + m <= n,
                k <= m,
                matches == (forall|j: int| 0 <= j < k ==> hay@[start + j] == needle@[j]),
            decreases m - k,
        {
            if hay.get_char(start + k) != needle.get_char(k) {
                matches = false;
            }
            k = k + 1;
        }
        if matches {
            assert(hay@.subrange(start as int, start + m) =~= needle@);
            return true;
        }
        proof {
            let j = choose|j: int| 0 <= j < m && hay@[start + j] != needle@[j];
            assert(hay@.subrange(start as int, start + m)[j] != needle@[j]);
        }
        start = start + 1;
    }
    false
}

/// The text of a `bool`, as `Display` writes it.
pub fn bool_to_text(b: bool) -> (s: String)
    ensures
        s@ == bool_text(b),
{
    if b {
        String::from_str("true")
    } else {
        String::from_str("false")
    }
}

/// The bytes of the UTF-8 encoding of `s`.
pub fn text_bytes(s: &str) -> (b: Vec<u8>)
    ensures
        b@ == s.spec_bytes(),
{
    s.as_bytes_vec()
}

/// Names the text that `String::from_utf8_lossy` makes of a byte sequence.
pub uninterp spec fn lossy_text(bytes: Seq<u8>) -> Seq<char>;

/// Calls `String::from_utf8_lossy`.  Its contract claims that the result is a
/// function of the bytes alone and, as std documents, that valid UTF-8 is
/// decoded unchanged; what it makes of invalid sequences is left unsaid.
#[verifier::external_body]
pub(crate) fn decode_lossy(bytes: &[u8]) -> (t: String)
    ensures
        t@ == lossy_text(bytes@),
        valid_utf8(bytes@) ==> t@ == decode_utf8(bytes@),
{
    String::from_utf8_lossy(bytes).into_owned()
}

/// Names the text that `Debug` writes for a list of strings.
pub uninterp spec fn debug_list_text(items: Seq<Seq<char>>) -> Seq<char>;

/// Calls the `Debug` formatting of `Vec<String>`.  Its contract claims only
/// that the text depends on the listed strings alone; the quoting and
/// escaping that `Debug` does are left unsaid.
#[verifier::external_body]
pub(crate) fn debug_list(items: &Vec<String>) -> (t: String)
    ensures
        t@ == debug_list_text(texts(items@)),
{
    format!("{:?}", items)
}

} // verus!
