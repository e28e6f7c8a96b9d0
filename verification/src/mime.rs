//! MIME-type derivation from file extensions, and filename stem extraction.
//!
//! The extension table is a fixed, closed mapping; anything outside it maps
//! to the wildcard image type.

use vstd::prelude::*;
use vstd::string::StrSliceExecFns;
use crate::strutil::eq_ignore_ascii_case;
use crate::strutil::eq_ignore_case;
use crate::strutil::str_eq;

verus! {

/// Index of the last occurrence of `c` in `s`, or `-1` if `c` does not occur.
pub open spec fn last_index_of(s: Seq<char>, c: char) -> int
    decreases s.len(),
{
    if s.len() == 0 {
        -1
    } else if s.last() == c {
        s.len() - 1
    } else {
        last_index_of(s.drop_last(), c)
    }
}

pub proof fn lemma_last_index_of_props(s: Seq<char>, c: char)
    ensures
        -1 <= last_index_of(s, c) < s.len(),
        last_index_of(s, c) == -1 ==> forall|j: int| 0 <= j < s.len() ==> s[j] != c,
        last_index_of(s, c) >= 0 ==> last_index_of(s, c) < s.len() && s[last_index_of(s, c)] == c
            && forall|j: int| last_index_of(s, c) < j < s.len() ==> s[j] != c,
    decreases s.len(),
{
    if s.len() > 0 && s.last() != c {
        lemma_last_index_of_props(s.drop_last(), c);
        assert(forall|j: int| 0 <= j < s.len() - 1 ==> s[j] == s.drop_last()[j]);
    }
}

/// Index of the last occurrence of `c` in `s`, scanning from the end.
pub fn rfind_char(s: &str, c: char) -> (r: Option<usize>)
    ensures
        match r {
            Some(i) => last_index_of(s@, c) == i as int,
            None => last_index_of(s@, c) == -1,
        },
{
    let m: usize = s.unicode_len();
    let mut i: usize = m;
    while i > 0
        invariant
            i <= m,
            m == s@.len(),
            forall|j: int| i <= j < m ==> s@[j] != c,
        decreases i,
    {
        i -= 1;
        if s.get_char(i) == c {
            proof {
                lemma_last_index_of_props(s@, c);
            }
            return Some(i);
        }
    }
    proof {
        lemma_last_index_of_props(s@, c);
    }
    None
}

/// `p` with every trailing `/` removed.
pub open spec fn trim_trailing_slashes(p: Seq<char>) -> Seq<char>
    decreases p.len(),
{
    if p.len() > 0 && p.last() == '/' {
        trim_trailing_slashes(p.drop_last())
    } else {
        p
    }
}

/// The final path component of `p`, after trailing separators are dropped.
pub open spec fn file_name_of(p: Seq<char>) -> Seq<char> {
    let t = trim_trailing_slashes(p);
    t.subrange(last_index_of(t, '/') + 1, t.len() as int)
}

/// The extension of the final component of `p`: the part after the last
/// dot, provided that dot is neither absent nor leading.
pub open spec fn extension_of(p: Seq<char>) -> Option<Seq<char>> {
    let name = file_name_of(p);
    if last_index_of(name, '.') <= 0 {
        None
    } else {
        Some(name.subrange(last_index_of(name, '.') + 1, name.len() as int))
    }
}

/// The fixed extension-to-MIME table, matched without regard to ASCII case.
pub open spec fn mime_from_extension(e: Seq<char>) -> Seq<char> {
    if eq_ignore_ascii_case(e, "jpg"@) || eq_ignore_ascii_case(e, "jpeg"@) {
        "image/jpeg"@
    } else if eq_ignore_ascii_case(e, "png"@) {
        "image/png"@
    } else if eq_ignore_ascii_case(e, "gif"@) {
        "image/gif"@
    } else if eq_ignore_ascii_case(e, "webp"@) {
        "image/webp"@
    } else if eq_ignore_ascii_case(e, "bmp"@) {
        "image/bmp"@
    } else if eq_ignore_ascii_case(e, "tiff"@) || eq_ignore_ascii_case(e, "tif"@) {
        "image/tiff"@
    } else if eq_ignore_ascii_case(e, "svg"@) {
        "image/svg+xml"@
    } else {
        "image/*"@
    }
}

/// The MIME type derived from the extension of `p`, wildcard when `p` has
/// no usable extension.
pub open spec fn mime_for_path(p: Seq<char>) -> Seq<char> {
    match extension_of(p) {
        Some(e) => mime_from_extension(e),
        None => "image/*"@,
    }
}

/// The final path component of `file_path`, as an owned string.
fn file_name_part(file_path: &str) -> (name: String)
    ensures
        name@ == file_name_of(file_path@),
{
    let m: usize = file_path.unicode_len();
    let mut e: usize = m;
    proof {
        assert(file_path@.take(m as int) =~= file_path@);
    }
    while e > 0 && file_path.get_char(e - 1) == '/'
        invariant
            e <= m,
            m == file_path@.len(),
            trim_trailing_slashes(file_path@.take(e as int)) == trim_trailing_slashes(file_path@),
        decreases e,
    {
        proof {
            assert(file_path@.take(e as int).drop_last() =~= file_path@.take(e - 1));
        }
        e -= 1;
    }
    let trimmed = file_path.substring_char(0, e);
    proof {
        assert(file_path@.take(e as int) =~= file_path@.subrange(0, e as int));
        assert(trimmed@ == trim_trailing_slashes(file_path@));
        lemma_last_index_of_props(trimmed@, '/');
    }
    let name = match rfind_char(trimmed, '/') {
        Some(i) => trimmed.substring_char(i + 1, e),
        None => trimmed,
    };
    proof {
        assert(name@ == file_name_of(file_path@)) by {
            if last_index_of(trimmed@, '/') == -1 {
                assert(trimmed@.subrange(0, trimmed@.len() as int) =~= trimmed@);
            }
        }
    }
    name.to_owned()
}

/// Derives the MIME type for a file path from its extension, via the fixed
/// table; paths without a usable extension map to the wildcard image type.
pub fn detect_mime_type_from_path(file_path: &str) -> (r: String)
    ensures
        r@ == mime_for_path(file_path@),
{
    let name = file_name_part(file_path);
    proof {
        lemma_last_index_of_props(name@, '.');
    }
    let ext = match rfind_char(name.as_str(), '.') {
        Some(d) => {
            if d == 0 {
                None
            } else {
                let n: usize = name.as_str().unicode_len();
                Some(name.as_str().substring_char(d + 1, n).to_owned())
            }
        },
        None => None,
    };
    let r: &str = match ext {
        Some(x) => {
            if eq_ignore_case(x.as_str(), "jpg") || eq_ignore_case(x.as_str(), "jpeg") {
                "image/jpeg"
            } else if eq_ignore_case(x.as_str(), "png") {
                "image/png"
            } else if eq_ignore_case(x.as_str(), "gif") {
                "image/gif"
            } else if eq_ignore_case(x.as_str(), "webp") {
                "image/webp"
            } else if eq_ignore_case(x.as_str(), "bmp") {
                "image/bmp"
            } else if eq_ignore_case(x.as_str(), "tiff") || eq_ignore_case(x.as_str(), "tif") {
                "image/tiff"
            } else if eq_ignore_case(x.as_str(), "svg") {
                "image/svg+xml"
            } else {
                "image/*"
            }
        },
        None => "image/*",
    };
    r.to_owned()
}

/// Every MIME type the table can produce starts with `image/` and contains
/// no semicolon, so a data URL built around it parses back unambiguously.
pub proof fn lemma_mime_for_path_shape(p: Seq<char>)
    ensures
        "image/"@.is_prefix_of(mime_for_path(p)),
        forall|k: int| 0 <= k < mime_for_path(p).len() ==> #[trigger] mime_for_path(p)[k] != ';',
{
    reveal_strlit("image/");
    reveal_strlit("image/jpeg");
    reveal_strlit("image/png");
    reveal_strlit("image/gif");
    reveal_strlit("image/webp");
    reveal_strlit("image/bmp");
    reveal_strlit("image/tiff");
    reveal_strlit("image/svg+xml");
    reveal_strlit("image/*");
    let m = mime_for_path(p);
    assert("image/"@.is_prefix_of(m) && forall|k: int| 0 <= k < m.len() ==> #[trigger] m[k]
        != ';') by {
        if m == "image/jpeg"@ {
            assert("image/"@ =~= m.subrange(0, 6));
        } else if m == "image/png"@ {
            assert("image/"@ =~= m.subrange(0, 6));
        } else if m == "image/gif"@ {
            assert("image/"@ =~= m.subrange(0, 6));
        } else if m == "image/webp"@ {
            assert("image/"@ =~= m.subrange(0, 6));
        } else if m == "image/bmp"@ {
            assert("image/"@ =~= m.subrange(0, 6));
        } else if m == "image/tiff"@ {
            assert("image/"@ =~= m.subrange(0, 6));
        } else if m == "image/svg+xml"@ {
            assert("image/"@ =~= m.subrange(0, 6));
        } else {
            assert(m == "image/*"@);
            assert("image/"@ =~= m.subrange(0, 6));
        }
    }
}

/// The filename stem that names a saved image: the final path component
/// without its extension, or the fixed placeholder `image` when the path
/// yields no usable stem.
pub open spec fn stem_of(p: Seq<char>) -> Seq<char> {
    let name = file_name_of(p);
    if name.len() == 0 || name == "."@ || name == ".."@ {
        "image"@
    } else if last_index_of(name, '.') <= 0 {
        name
    } else {
        name.subrange(0, last_index_of(name, '.'))
    }
}

/// Returns the filename of `file_path` without its extension, or the
/// placeholder `image` when the path has no stem. Pure and total.
pub fn extract_filename_without_extension(file_path: &str) -> (r: String)
    ensures
        r@ == stem_of(file_path@),
{
    let name = file_name_part(file_path);
    if name.as_str().unicode_len() == 0 || str_eq(name.as_str(), ".") || str_eq(
        name.as_str(),
        "..",
    ) {
        return "image".to_owned();
    }
    proof {
        lemma_last_index_of_props(name@, '.');
    }
    match rfind_char(name.as_str(), '.') {
        Some(d) => {
            if d == 0 {
                name
            } else {
                name.as_str().substring_char(0, d).to_owned()
            }
        },
        None => name,
    }
}

} // verus!
