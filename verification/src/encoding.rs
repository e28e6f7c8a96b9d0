//! Inline-encoded image payloads: the `data:image/...;base64,...` form,
//! its parser, and the trusted base64 wrappers it rests on.

use vstd::prelude::*;
use vstd::string::StrSliceExecFns;
use crate::strutil::find_first;
use crate::strutil::occurs_at;
use crate::strutil::starts_with;

verus! {

/// What the standard base64 engine produces for the given bytes.
pub uninterp spec fn base64_encoding(bytes: Seq<u8>) -> Seq<char>;

/// What the standard base64 engine accepts, and the bytes it yields.
pub uninterp spec fn base64_decoding(s: Seq<char>) -> Option<Seq<u8>>;

/// No character of `x` is a `;`, so `x` cannot straddle or contain the
/// `;base64,` separator.
pub open spec fn no_semicolon(x: Seq<char>) -> bool {
    forall|k: int| 0 <= k < x.len() ==> x[k] != ';'
}

/// Relies on base64's standard engine `encode`: the output is a pure
/// function of the input bytes; decoding an encoding returns the original
/// bytes (documented round trip); the output uses only the standard
/// alphabet plus `=` padding, which contains no `;`; the output is empty
/// exactly for empty input (encoded length is `4 * ceil(n / 3)`).
#[verifier::external_body]
pub fn base64_encode(bytes: &Vec<u8>) -> (r: String)
    ensures
        r@ == base64_encoding(bytes@),
        base64_decoding(r@) == Some(bytes@),
        no_semicolon(r@),
        (r@.len() == 0) <==> (bytes@.len() == 0),
{
    base64::Engine::encode(&base64::engine::general_purpose::STANDARD, bytes.as_slice())
}

/// Relies on base64's standard engine `decode`: success and the resulting
/// bytes are a pure function of the input; the standard engine demands
/// canonical padding and zero trailing bits, so an accepted input is
/// exactly the encoding of the returned bytes.
#[verifier::external_body]
pub fn base64_decode(s: &str) -> (r: Option<Vec<u8>>)
    ensures
        match r {
            Some(v) => base64_decoding(s@) == Some(v@) && base64_encoding(v@) == s@,
            None => base64_decoding(s@) is None,
        },
{
    match base64::Engine::decode(&base64::engine::general_purpose::STANDARD, s.as_bytes()) {
        Ok(v) => Some(v),
        Err(_) => None,
    }
}

/// The reference carries the inline-encoded marker.
pub open spec fn is_inline_marked(s: Seq<char>) -> bool {
    "data:image/"@.is_prefix_of(s)
}

/// The reference is a remote URL.
pub open spec fn is_url_marked(s: Seq<char>) -> bool {
    "http://"@.is_prefix_of(s) || "https://"@.is_prefix_of(s)
}

/// `s` contains the `;base64,` separator exactly once.
pub open spec fn has_unique_separator(s: Seq<char>) -> bool {
    exists|i: int|
        occurs_at(s, ";base64,"@, i) && (forall|j: int| occurs_at(s, ";base64,"@, j) ==> j == i)
}

/// The index of that single separator.
pub open spec fn separator_index(s: Seq<char>) -> int {
    choose|i: int|
        occurs_at(s, ";base64,"@, i) && (forall|j: int| occurs_at(s, ";base64,"@, j) ==> j == i)
}

/// Splits a well-formed data URL into its declared MIME type (without the
/// `data:` prefix) and its encoded payload part. The split demands exactly
/// one `;base64,` separator and the `data:image/` marker; the payload part
/// may be empty.
pub open spec fn parse_data_url(s: Seq<char>) -> Option<(Seq<char>, Seq<char>)> {
    if has_unique_separator(s) && is_inline_marked(s) && separator_index(s) >= 11 {
        Some(
            (
                s.subrange(5, separator_index(s)),
                s.subrange(separator_index(s) + 8, s.len() as int),
            ),
        )
    } else {
        None
    }
}

proof fn lemma_separator_len()
    ensures
        (";base64,"@).len() == 8,
        (";base64,"@)[0] == ';',
{
    reveal_strlit(";base64,");
}

/// Two separator occurrences cannot overlap: the separator starts with `;`
/// and contains no other `;`.
proof fn lemma_separator_no_overlap(s: Seq<char>, i: int, j: int)
    requires
        occurs_at(s, ";base64,"@, i),
        occurs_at(s, ";base64,"@, j),
        i < j,
    ensures
        j >= i + 8,
{
    reveal_strlit(";base64,");
    if j < i + 8 {
        assert(s.subrange(j, j + 8)[0] == ';');
        assert(s.subrange(i, i + 8)[j - i] == s[j]);
    }
}

/// An occurrence inside the tail `s[from..]` is an occurrence in `s`, and
/// conversely for occurrences at or past `from`.
proof fn lemma_occurs_in_tail(s: Seq<char>, pat: Seq<char>, from: int, j: int)
    requires
        0 <= from <= s.len(),
    ensures
        occurs_at(s.subrange(from, s.len() as int), pat, j) <==> (j >= 0 && occurs_at(
            s,
            pat,
            from + j,
        )),
{
    let t = s.subrange(from, s.len() as int);
    if occurs_at(t, pat, j) {
        assert(s.subrange(from + j, from + j + pat.len() as int) =~= t.subrange(
            j,
            j + pat.len() as int,
        ));
    }
    if j >= 0 && occurs_at(s, pat, from + j) {
        assert(t.subrange(j, j + pat.len() as int) =~= s.subrange(
            from + j,
            from + j + pat.len() as int,
        ));
    }
}

/// A first occurrence with none after it is the unique occurrence.
proof fn lemma_unique_from_first_and_tail(s: Seq<char>, i: int)
    requires
        occurs_at(s, ";base64,"@, i),
        forall|j: int| 0 <= j < i ==> !occurs_at(s, ";base64,"@, j),
        forall|j: int| !#[trigger] occurs_at(s.subrange(i + 8, s.len() as int), ";base64,"@, j),
    ensures
        has_unique_separator(s),
        separator_index(s) == i,
{
    lemma_separator_len();
    assert forall|j: int| occurs_at(s, ";base64,"@, j) implies j == i by {
        if j > i {
            lemma_separator_no_overlap(s, i, j);
            lemma_occurs_in_tail(s, ";base64,"@, i + 8, j - (i + 8));
        }
    }
}

/// Under the `data:image/` marker, the separator sits past the marker.
proof fn lemma_separator_past_marker(s: Seq<char>, i: int)
    requires
        occurs_at(s, ";base64,"@, i),
        is_inline_marked(s),
    ensures
        i >= 11,
{
    reveal_strlit(";base64,");
    reveal_strlit("data:image/");
    if i < 11 {
        assert(s.subrange(i, i + 8)[0] == ';');
        assert(s.subrange(0, 11)[i] == s[i]);
    }
}

/// Splits an inline-encoded reference into its declared MIME type (as
/// `image/...`) and its base64 payload part.
pub fn parse_inline_reference(s: &str) -> (r: Option<(String, String)>)
    ensures
        match r {
            Some(p) => parse_data_url(s@) == Some((p.0@, p.1@)),
            None => parse_data_url(s@) is None,
        },
{
    proof {
        lemma_separator_len();
    }
    let i = match find_first(s, ";base64,") {
        Some(i) => i,
        None => {
            proof {
                assert(!has_unique_separator(s@));
            }
            return None;
        },
    };
    if !starts_with(s, "data:image/") {
        return None;
    }
    let m: usize = s.unicode_len();
    let tail = s.substring_char(i + 8, m);
    match find_first(tail, ";base64,") {
        Some(j2) => {
            proof {
                lemma_occurs_in_tail(s@, ";base64,"@, i + 8, j2 as int);
                assert(occurs_at(s@, ";base64,"@, i + 8 + j2));
                assert(!has_unique_separator(s@));
            }
            return None;
        },
        None => {},
    }
    proof {
        lemma_unique_from_first_and_tail(s@, i as int);
        lemma_separator_past_marker(s@, i as int);
    }
    let mime = s.substring_char(5, i);
    let data = s.substring_char(i + 8, m);
    Some((mime.to_owned(), data.to_owned()))
}

/// Extracts the declared MIME type (`image/...`) from an inline-encoded
/// reference, failing when the reference is not a well-formed data URL.
pub fn extract_mime_type_from_base64(base64_data: &str) -> (r: Option<String>)
    ensures
        match r {
            Some(mt) => parse_data_url(base64_data@) matches Some(p) && p.0 == mt@,
            None => parse_data_url(base64_data@) is None,
        },
{
    match parse_inline_reference(base64_data) {
        Some(p) => Some(p.0),
        None => None,
    }
}

/// A reference with a URL scheme never carries the inline marker: the two
/// prefixes differ in their first character. So the resolver's priority
/// order cannot divert a URL into the inline branch.
pub proof fn lemma_url_marked_not_inline(s: Seq<char>)
    requires
        is_url_marked(s),
    ensures
        !is_inline_marked(s),
{
    reveal_strlit("data:image/");
    reveal_strlit("http://");
    reveal_strlit("https://");
    if is_inline_marked(s) {
        assert(("data:image/"@)[0] == s.subrange(0, 11)[0]);
        if "http://"@.is_prefix_of(s) {
            assert(("http://"@)[0] == s.subrange(0, 7)[0]);
        } else {
            assert(("https://"@)[0] == s.subrange(0, 8)[0]);
        }
    }
}

/// In `;base64, + enc` with a clean `enc`, the separator occurs exactly at
/// the front.
proof fn lemma_unique_in_sep_enc(enc: Seq<char>)
    requires
        no_semicolon(enc),
    ensures
        occurs_at(";base64,"@ + enc, ";base64,"@, 0),
        forall|j: int| occurs_at(";base64,"@ + enc, ";base64,"@, j) ==> j == 0,
{
    reveal_strlit(";base64,");
    let t = ";base64,"@ + enc;
    assert(t.subrange(0, 8) =~= ";base64,"@);
    assert forall|j: int| occurs_at(t, ";base64,"@, j) implies j == 0 by {
        if j != 0 {
            assert(t.subrange(j, j + 8)[0] == ';');
            assert(t[j] == ';');
            if j < 8 {
                assert(t[j] == (";base64,"@)[j]);
            } else {
                assert(t[j] == enc[j - 8]);
            }
        }
    }
}

/// Prepending a semicolon-free prefix shifts the unique separator.
proof fn lemma_unique_after_prefix(a: Seq<char>, t: Seq<char>)
    requires
        no_semicolon(a),
        occurs_at(t, ";base64,"@, 0),
        forall|j: int| occurs_at(t, ";base64,"@, j) ==> j == 0,
    ensures
        has_unique_separator(a + t),
        separator_index(a + t) == a.len(),
{
    lemma_separator_len();
    let s = a + t;
    assert(occurs_at(s, ";base64,"@, a.len() as int)) by {
        assert(s.subrange(a.len() as int, a.len() as int + 8) =~= t.subrange(0, 8));
        assert(t.subrange(0, 8) =~= ";base64,"@);
    }
    assert forall|j: int| occurs_at(s, ";base64,"@, j) implies j == a.len() by {
        if j < a.len() {
            assert(s.subrange(j, j + 8)[0] == ';');
            assert(s[j] == a[j]);
        } else {
            assert(occurs_at(t, ";base64,"@, j - a.len())) by {
                assert(t.subrange(j - a.len(), j - a.len() + 8) =~= s.subrange(j, j + 8));
            }
        }
    }
}

/// A data URL assembled from a clean MIME type and a clean payload parses
/// back into exactly those two parts.
pub proof fn lemma_built_data_url_parses(mime: Seq<char>, enc: Seq<char>)
    requires
        "image/"@.is_prefix_of(mime),
        no_semicolon(mime),
        no_semicolon(enc),
    ensures
        parse_data_url("data:"@ + mime + ";base64,"@ + enc) == Some((mime, enc)),
{
    lemma_separator_len();
    reveal_strlit("data:");
    reveal_strlit("image/");
    assert(mime.len() >= 6);
    let a = "data:"@ + mime;
    let t = ";base64,"@ + enc;
    let s = "data:"@ + mime + ";base64,"@ + enc;
    assert(s =~= a + t);
    assert(no_semicolon(a)) by {
        reveal_strlit("data:");
        assert forall|k: int| 0 <= k < a.len() implies a[k] != ';' by {
            if k < 5 {
                assert(a[k] == "data:"@[k]);
            } else {
                assert(a[k] == mime[k - 5]);
            }
        }
    }
    lemma_unique_in_sep_enc(enc);
    lemma_unique_after_prefix(a, t);
    let i0 = a.len() as int;
    assert(i0 == 5 + mime.len());
    assert(is_inline_marked(s)) by {
        reveal_strlit("data:");
        reveal_strlit("data:image/");
        reveal_strlit("image/");
        assert(mime.len() >= 6);
        assert("data:image/"@ =~= s.subrange(0, 11)) by {
            assert("image/"@ =~= mime.subrange(0, 6));
            assert forall|k: int| 0 <= k < 11 implies "data:image/"@[k] == s[k] by {
                if k < 5 {
                    assert(s[k] == "data:"@[k]);
                } else {
                    assert(s[k] == mime[k - 5]);
                    assert(mime[k - 5] == mime.subrange(0, 6)[k - 5]);
                }
            }
        }
    }
    assert(s.subrange(5, i0) =~= mime);
    assert(s.subrange(i0 + 8, s.len() as int) =~= enc);
}

} // verus!
