//! The output persister: plans the writing of returned inline images under
//! collision-free incremental filenames. The caller supplies a snapshot of
//! the names already present in the target directory and performs the
//! actual writes; everything decided here — which entries get a file, what
//! it is named, and what bytes it holds — is verified.

use vstd::prelude::*;
use vstd::string::StrSliceExecFns;
use vstd::string::StringExecFns;
use crate::encoding::base64_decode;
use crate::encoding::base64_decoding;
use crate::encoding::parse_data_url;
use crate::encoding::parse_inline_reference;
use crate::mime::last_index_of;
use crate::mime::rfind_char;
use crate::strutil::dec_digits;
use crate::strutil::lemma_dec_digits_injective;
use crate::strutil::lemma_dec_digits_len;
use crate::strutil::str_eq;
use crate::strutil::u64_to_dec;

verus! {

/// The `k`-th candidate filename for a stem and extension: the plain
/// `stem.ext` first, then `stem_2.ext`, `stem_3.ext`, and so on.
pub open spec fn candidate_name(stem: Seq<char>, ext: Seq<char>, k: nat) -> Seq<char> {
    if k <= 1 {
        stem + "."@ + ext
    } else {
        stem + "_"@ + dec_digits(k) + "."@ + ext
    }
}

proof fn lemma_dot_underscore()
    ensures
        ("."@).len() == 1 && ("."@)[0] == '.',
        ("_"@).len() == 1 && ("_"@)[0] == '_',
{
    reveal_strlit(".");
    reveal_strlit("_");
}

/// Distinct counters give distinct candidate names.
pub proof fn lemma_candidate_injective(stem: Seq<char>, ext: Seq<char>, k1: nat, k2: nat)
    requires
        1 <= k1,
        1 <= k2,
        candidate_name(stem, ext, k1) == candidate_name(stem, ext, k2),
    ensures
        k1 == k2,
{
    lemma_dot_underscore();
    lemma_dec_digits_len(k1);
    lemma_dec_digits_len(k2);
    let c1 = candidate_name(stem, ext, k1);
    let c2 = candidate_name(stem, ext, k2);
    if k1 == 1 && k2 == 1 {
    } else if k1 == 1 && k2 > 1 {
        assert(c1[stem.len() as int] == '.');
        assert(c2[stem.len() as int] == '_');
    } else if k1 > 1 && k2 == 1 {
        assert(c1[stem.len() as int] == '_');
        assert(c2[stem.len() as int] == '.');
    } else {
        let d1 = dec_digits(k1).len() as int;
        let d2 = dec_digits(k2).len() as int;
        assert(c1.len() == stem.len() + 1 + d1 + 1 + ext.len());
        assert(c2.len() == stem.len() + 1 + d2 + 1 + ext.len());
        assert(d1 == d2);
        assert(c1.subrange(stem.len() as int + 1, stem.len() as int + 1 + d1) =~= dec_digits(k1));
        assert(c2.subrange(stem.len() as int + 1, stem.len() as int + 1 + d2) =~= dec_digits(k2));
        lemma_dec_digits_injective(k1, k2);
    }
}

/// Among the first `n + 1` candidates, at least one avoids any set of at
/// most `n` taken names: there are more candidates than names to block
/// them.
pub proof fn lemma_exists_free_candidate(stem: Seq<char>, ext: Seq<char>, taken: Set<Seq<char>>, n: nat)
    requires
        taken.finite(),
        taken.len() <= n,
    ensures
        exists|k: nat|
            1 <= k <= n + 1 && !#[trigger] taken.contains(candidate_name(stem, ext, k)),
    decreases n,
{
    broadcast use vstd::set::group_set_axioms;

    if !taken.contains(candidate_name(stem, ext, n + 1)) {
        assert(1 <= n + 1 <= n + 1 && !taken.contains(candidate_name(stem, ext, n + 1)));
    } else {
        let smaller = taken.remove(candidate_name(stem, ext, n + 1));
        assert(smaller.len() == taken.len() - 1);
        lemma_exists_free_candidate(stem, ext, smaller, (n - 1) as nat);
        let k = choose|k: nat|
            1 <= k <= (n - 1) + 1 && !#[trigger] smaller.contains(candidate_name(stem, ext, k));
        assert(!taken.contains(candidate_name(stem, ext, k))) by {
            if taken.contains(candidate_name(stem, ext, k)) {
                assert(candidate_name(stem, ext, k) == candidate_name(stem, ext, n + 1));
                lemma_candidate_injective(stem, ext, k, n + 1);
            }
        }
    }
}

/// The views of a list of filenames.
pub open spec fn name_views(v: Seq<String>) -> Seq<Seq<char>> {
    v.map_values(|s: String| s@)
}

/// `name` is the first candidate for `stem`/`ext` that is not taken:
/// it is free, and every earlier candidate is taken.
pub open spec fn is_incremental_choice(
    stem: Seq<char>,
    ext: Seq<char>,
    taken: Set<Seq<char>>,
    name: Seq<char>,
) -> bool {
    &&& !taken.contains(name)
    &&& exists|k: nat|
        1 <= k && name == candidate_name(stem, ext, k) && (forall|j: nat|
            1 <= j < k ==> taken.contains(#[trigger] candidate_name(stem, ext, j)))
}

/// Whether some name in `v` has the view of `x`.
pub fn contains_name(v: &Vec<String>, x: &str) -> (r: bool)
    ensures
        r == name_views(v@).to_set().contains(x@),
{
    let mut i: usize = 0;
    while i < v.len()
        invariant
            i <= v@.len(),
            forall|j: int| 0 <= j < i ==> name_views(v@)[j] != x@,
        decreases v@.len() - i,
    {
        if str_eq(v[i].as_str(), x) {
            proof {
                assert(name_views(v@)[i as int] == x@);
            }
            return true;
        }
        i += 1;
    }
    proof {
        if name_views(v@).to_set().contains(x@) {
            let j = choose|j: int| 0 <= j < name_views(v@).len() && name_views(v@)[j] == x@;
        }
    }
    false
}

fn build_candidate(stem: &str, ext: &str, counter: u64) -> (r: String)
    requires
        counter >= 1,
    ensures
        r@ == candidate_name(stem@, ext@, counter as nat),
{
    let mut s = stem.to_owned();
    if counter > 1 {
        s.append("_");
        let digits = u64_to_dec(counter);
        s.append(digits.as_str());
    }
    s.append(".");
    s.append(ext);
    proof {
        assert(s@ =~= candidate_name(stem@, ext@, counter as nat));
    }
    s
}

/// Picks the first filename of the form `stem.ext`, `stem_2.ext`,
/// `stem_3.ext`, ... that does not collide with any name in `existing`.
pub fn generate_incremental_filename(base_name: &str, extension: &str, existing: &Vec<String>) -> (r:
    String)
    requires
        existing@.len() < u64::MAX,
    ensures
        is_incremental_choice(base_name@, extension@, name_views(existing@).to_set(), r@),
{
    let ghost taken = name_views(existing@).to_set();
    let n: usize = existing.len();
    proof {
        broadcast use vstd::seq_lib::seq_to_set_is_finite;

        name_views(existing@).lemma_cardinality_of_set();
        lemma_exists_free_candidate(base_name@, extension@, taken, n as nat);
    }
    let mut counter: u64 = 1;
    loop
        invariant
            1 <= counter,
            counter as nat <= n as nat + 1,
            n as nat == existing@.len(),
            n < u64::MAX,
            taken == name_views(existing@).to_set(),
            taken.finite(),
            exists|k: nat|
                1 <= k <= n as nat + 1 && !#[trigger] taken.contains(
                    candidate_name(base_name@, extension@, k),
                ),
            forall|j: nat|
                1 <= j < counter as nat ==> taken.contains(
                    #[trigger] candidate_name(base_name@, extension@, j),
                ),
        decreases n + 1 - counter,
    {
        let name = build_candidate(base_name, extension, counter);
        if !contains_name(existing, name.as_str()) {
            return name;
        }
        proof {
            let k = choose|k: nat|
                1 <= k <= n as nat + 1 && !#[trigger] taken.contains(
                    candidate_name(base_name@, extension@, k),
                );
            assert(k > counter as nat);
            assert(counter < u64::MAX);
        }
        counter = counter + 1;
    }
}

/// One image entry of a remote response, decoded at the boundary: the
/// reference string, absent when the field was missing or malformed.
pub struct ResponseImage {
    pub url: Option<String>,
}

/// A file write the persister has decided on: the chosen collision-free
/// filename and the decoded bytes to store under it.
#[derive(Debug)]
pub struct PlannedWrite {
    pub filename: String,
    pub bytes: Vec<u8>,
}

/// The persister's verdict on one response entry: the original reference,
/// and the planned write when the entry was inline-encoded and decodable.
pub struct PersistOutcome {
    pub url: String,
    pub write: Option<PlannedWrite>,
}

/// The outcome of materializing one response image, as reported to the
/// caller: the original reference and the path the file was saved under,
/// absent when nothing was written.
#[derive(Debug, Clone)]
pub struct ImageInfo {
    pub url: String,
    pub saved_path: Option<String>,
}

/// Why a single inline payload could not be turned into bytes.
#[derive(Clone, Copy, Debug, PartialEq, Eq, Structural)]
pub enum PersistError {
    /// The payload does not split into a declared type and encoded data.
    MalformedData,
    /// The encoded data was rejected by the decoder.
    DecodeFailed,
}

/// The reference string of a response entry, empty when absent.
pub open spec fn entry_url_view(e: ResponseImage) -> Seq<char> {
    match e.url {
        Some(u) => u@,
        None => Seq::empty(),
    }
}

/// The filename extension taken from a declared MIME type: the subtype
/// after `image/`.
pub open spec fn ext_of_mime(m: Seq<char>) -> Seq<char> {
    m.subrange(6, m.len() as int)
}

/// The stem an entry's file is named after, per the persister's rules.
pub open spec fn stem_for(base: Option<Seq<char>>, is_edit: bool, index: nat) -> Seq<char> {
    match base {
        Some(b) => if is_edit {
            b + "_edited"@
        } else {
            b
        },
        None => (if is_edit {
            "edited_image"@
        } else {
            "generated_image"@
        }) + "_"@ + dec_digits(index + 1),
    }
}

/// The names taken after the first `i` outcomes: the directory snapshot
/// plus every filename planned so far.
pub open spec fn taken_after(existing: Set<Seq<char>>, out: Seq<PersistOutcome>, i: int) -> Set<
    Seq<char>,
>
    decreases i,
{
    if i <= 0 {
        existing
    } else {
        match out[i - 1].write {
            Some(w) => taken_after(existing, out, i - 1).insert(w.filename@),
            None => taken_after(existing, out, i - 1),
        }
    }
}

/// What the persister owes for one entry, given the names taken when it is
/// processed: the reference is carried through; an entry whose reference
/// parses as a data URL and decodes gets a planned write holding exactly
/// the decoded bytes under the first free incremental name; every other
/// entry is passed through without a write.
pub open spec fn entry_ok(
    e: ResponseImage,
    o: PersistOutcome,
    taken: Set<Seq<char>>,
    base: Option<Seq<char>>,
    is_edit: bool,
    i: nat,
) -> bool {
    &&& o.url@ == entry_url_view(e)
    &&& match parse_data_url(entry_url_view(e)) {
        Some(p) => match base64_decoding(p.1) {
            Some(bytes) => o.write matches Some(w) && w.bytes@ == bytes && is_incremental_choice(
                stem_for(base, is_edit, i),
                ext_of_mime(p.0),
                taken,
                w.filename@,
            ),
            None => o.write is None,
        },
        None => o.write is None,
    }
}

/// The whole plan is correct: one outcome per entry, in order, each
/// correct against the names taken by the entries before it.
pub open spec fn save_plan_ok(
    images: Seq<ResponseImage>,
    existing: Set<Seq<char>>,
    base: Option<Seq<char>>,
    is_edit: bool,
    out: Seq<PersistOutcome>,
) -> bool {
    &&& out.len() == images.len()
    &&& forall|i: int|
        0 <= i < out.len() ==> entry_ok(
            images[i],
            #[trigger] out[i],
            taken_after(existing, out, i),
            base,
            is_edit,
            i as nat,
        )
}

/// The view of an optional base filename.
pub open spec fn opt_string_view(b: Option<&String>) -> Option<Seq<char>> {
    match b {
        Some(s) => Some(s@),
        None => None,
    }
}

/// `taken_after` looks only at the prefix before `i`.
proof fn lemma_taken_after_prefix(
    existing: Set<Seq<char>>,
    out1: Seq<PersistOutcome>,
    out2: Seq<PersistOutcome>,
    i: int,
)
    requires
        0 <= i <= out1.len(),
        i <= out2.len(),
        forall|j: int| 0 <= j < i ==> out1[j] == out2[j],
    ensures
        taken_after(existing, out1, i) == taken_after(existing, out2, i),
    decreases i,
{
    if i > 0 {
        lemma_taken_after_prefix(existing, out1, out2, i - 1);
    }
}

fn clone_names(v: &Vec<String>) -> (r: Vec<String>)
    ensures
        r@.len() == v@.len(),
        forall|i: int| 0 <= i < v@.len() ==> r@[i]@ == v@[i]@,
{
    let mut r: Vec<String> = Vec::new();
    let mut i: usize = 0;
    while i < v.len()
        invariant
            i <= v@.len(),
            r@.len() == i,
            forall|j: int| 0 <= j < i ==> r@[j]@ == v@[j]@,
        decreases v@.len() - i,
    {
        r.push(v[i].clone());
        i += 1;
    }
    r
}

fn stem_string(base_filename: Option<&String>, is_edit: bool, index: usize) -> (r: String)
    requires
        index < usize::MAX,
    ensures
        r@ == stem_for(opt_string_view(base_filename), is_edit, index as nat),
{
    match base_filename {
        Some(b) => {
            if is_edit {
                let mut s = b.as_str().to_owned();
                s.append("_edited");
                s
            } else {
                b.as_str().to_owned()
            }
        },
        None => {
            let mut s = if is_edit {
                "edited_image".to_owned()
            } else {
                "generated_image".to_owned()
            };
            s.append("_");
            let d = u64_to_dec((index + 1) as u64);
            s.append(d.as_str());
            proof {
                assert((index + 1) as u64 as nat == index as nat + 1);
            }
            s
        },
    }
}

/// Decides, for every returned image entry, whether and how it is written
/// to the configured save directory.
///
/// `save_directory_names` is the caller's snapshot of the filenames already
/// present in the directory, `None` when no directory is configured or it
/// cannot be resolved -- then nothing is written and every entry is passed
/// through. Entries are processed independently and in order: an entry
/// whose reference is a decodable inline payload is planned as a write of
/// the decoded bytes under the first free incremental name; a malformed or
/// undecodable entry never fails the batch, it is merely left unsaved.
pub fn save_response_images(
    images: &Vec<ResponseImage>,
    save_directory_names: Option<&Vec<String>>,
    base_filename: Option<&String>,
    is_edit: bool,
) -> (out: Vec<PersistOutcome>)
    requires
        match save_directory_names {
            Some(ex) => ex@.len() + images@.len() < u64::MAX,
            None => true,
        },
    ensures
        out@.len() == images@.len(),
        match save_directory_names {
            None => forall|i: int|
                0 <= i < out@.len() ==> (#[trigger] out@[i]).write is None && out@[i].url@
                    == entry_url_view(images@[i]),
            Some(ex) => save_plan_ok(
                images@,
                name_views(ex@).to_set(),
                opt_string_view(base_filename),
                is_edit,
                out@,
            ),
        },
{
    let mut out: Vec<PersistOutcome> = Vec::new();
    match save_directory_names {
        None => {
            let mut i: usize = 0;
            while i < images.len()
                invariant
                    i <= images@.len(),
                    out@.len() == i,
                    forall|j: int|
                        0 <= j < i ==> (#[trigger] out@[j]).write is None && out@[j].url@
                            == entry_url_view(images@[j]),
                decreases images@.len() - i,
            {
                let url_s = entry_url_string(&images[i]);
                out.push(PersistOutcome { url: url_s, write: None });
                i += 1;
            }
            out
        },
        Some(ex) => {
            let ghost ex_set = name_views(ex@).to_set();
            let ghost base_v = opt_string_view(base_filename);
            let mut names = clone_names(ex);
            proof {
                assert(name_views(names@) =~= name_views(ex@));
            }
            let mut i: usize = 0;
            while i < images.len()
                invariant
                    i <= images@.len(),
                    out@.len() == i,
                    ex@.len() + images@.len() < u64::MAX,
                    ex_set == name_views(ex@).to_set(),
                    base_v == opt_string_view(base_filename),
                    names@.len() <= ex@.len() + i,
                    name_views(names@).to_set() == taken_after(ex_set, out@, i as int),
                    forall|j: int|
                        0 <= j < i ==> entry_ok(
                            images@[j],
                            #[trigger] out@[j],
                            taken_after(ex_set, out@, j),
                            base_v,
                            is_edit,
                            j as nat,
                        ),
                decreases images@.len() - i,
            {
                let ghost out_before = out@;
                let ghost names_before = names@;
                let url_s = entry_url_string(&images[i]);
                let mut planned: Option<PlannedWrite> = None;
                match parse_inline_reference(url_s.as_str()) {
                    Some(p) => {
                        let (mime, data) = p;
                        match base64_decode(data.as_str()) {
                            Some(bytes) => {
                                let stem = stem_string(base_filename, is_edit, i);
                                let mlen: usize = mime.as_str().unicode_len();
                                let ext = mime.as_str().substring_char(6, mlen).to_owned();
                                let filename = generate_incremental_filename(
                                    stem.as_str(),
                                    ext.as_str(),
                                    &names,
                                );
                                names.push(filename.clone());
                                planned = Some(PlannedWrite { filename, bytes });
                            },
                            None => {},
                        }
                    },
                    None => {},
                }
                out.push(PersistOutcome { url: url_s, write: planned });
                proof {
                    broadcast use vstd::prelude::Seq::lemma_push_to_set_commute;

                    lemma_taken_after_prefix(ex_set, out_before, out@, i as int);
                    let ii = i as int;
                    if out@[ii].write is Some {
                        let f = out@[ii].write->0.filename;
                        assert(names@ =~= names_before.push(f));
                        assert(name_views(names@) =~= name_views(names_before).push(f@));
                        assert(taken_after(ex_set, out@, ii + 1) == taken_after(
                            ex_set,
                            out@,
                            ii,
                        ).insert(f@));
                    } else {
                        assert(taken_after(ex_set, out@, ii + 1) == taken_after(ex_set, out@, ii));
                    }
                    assert(name_views(names@).to_set() == taken_after(ex_set, out@, ii + 1));
                    assert(entry_ok(
                        images@[ii],
                        out@[ii],
                        taken_after(ex_set, out@, ii),
                        base_v,
                        is_edit,
                        i as nat,
                    ));
                    assert forall|j: int| 0 <= j < i implies entry_ok(
                        images@[j],
                        #[trigger] out@[j],
                        taken_after(ex_set, out@, j),
                        base_v,
                        is_edit,
                        j as nat,
                    ) by {
                        lemma_taken_after_prefix(ex_set, out_before, out@, j);
                        assert(out@[j] == out_before[j]);
                    }
                }
                i += 1;
            }
            out
        },
    }
}

fn entry_url_string(e: &ResponseImage) -> (r: String)
    ensures
        r@ == entry_url_view(*e),
{
    match &e.url {
        Some(u) => u.clone(),
        None => String::new(),
    }
}

/// The final filename `save_base64_image` stores under: the caller's name
/// as given when it already carries an extension, the caller's name with
/// the payload's subtype appended otherwise, and a timestamp-based default
/// when no name was supplied.
pub open spec fn final_image_name(mime: Seq<char>, fname: Option<Seq<char>>, ts: Seq<char>) -> Seq<
    char,
> {
    match fname {
        Some(n) => if last_index_of(n, '.') >= 0 {
            n
        } else {
            n + "."@ + ext_of_mime(mime)
        },
        None => "image_"@ + ts + "."@ + ext_of_mime(mime),
    }
}

/// Decodes one inline payload and settles the filename to store it under;
/// `timestamp` is the caller-rendered current time, used only when no
/// filename is supplied. The actual directory write is the caller's.
pub fn save_base64_image(base64_data: &str, filename: Option<&String>, timestamp: &str) -> (r:
    Result<PlannedWrite, PersistError>)
    ensures
        match r {
            Ok(w) => parse_data_url(base64_data@) matches Some(p) && base64_decoding(p.1)
                == Some(w.bytes@) && w.filename@ == final_image_name(
                p.0,
                opt_string_view(filename),
                timestamp@,
            ),
            Err(e) => match parse_data_url(base64_data@) {
                Some(p) => e == PersistError::DecodeFailed && base64_decoding(p.1) is None,
                None => e == PersistError::MalformedData,
            },
        },
{
    let p = match parse_inline_reference(base64_data) {
        Some(p) => p,
        None => {
            return Err(PersistError::MalformedData);
        },
    };
    let (mime, data) = p;
    let bytes = match base64_decode(data.as_str()) {
        Some(b) => b,
        None => {
            return Err(PersistError::DecodeFailed);
        },
    };
    let mlen: usize = mime.as_str().unicode_len();
    let name = match filename {
        Some(n) => {
            match rfind_char(n.as_str(), '.') {
                Some(_) => n.as_str().to_owned(),
                None => {
                    let mut s = n.as_str().to_owned();
                    s.append(".");
                    s.append(mime.as_str().substring_char(6, mlen));
                    s
                },
            }
        },
        None => {
            let mut s = "image_".to_owned();
            s.append(timestamp);
            s.append(".");
            s.append(mime.as_str().substring_char(6, mlen));
            s
        },
    };
    Ok(PlannedWrite { filename: name, bytes })
}

/// The directory snapshot stays taken throughout the batch.
proof fn lemma_taken_after_contains_existing(
    existing: Set<Seq<char>>,
    out: Seq<PersistOutcome>,
    i: int,
    x: Seq<char>,
)
    requires
        existing.contains(x),
        0 <= i,
    ensures
        taken_after(existing, out, i).contains(x),
    decreases i,
{
    if i > 0 {
        lemma_taken_after_contains_existing(existing, out, i - 1, x);
    }
}

/// Names only accumulate as the batch proceeds.
proof fn lemma_taken_after_monotone(
    existing: Set<Seq<char>>,
    out: Seq<PersistOutcome>,
    i: int,
    j: int,
    x: Seq<char>,
)
    requires
        0 <= i <= j,
        taken_after(existing, out, i).contains(x),
    ensures
        taken_after(existing, out, j).contains(x),
    decreases j - i,
{
    if i < j {
        lemma_taken_after_monotone(existing, out, i, j - 1, x);
    }
}

/// Law: a correct plan never overwrites. Every planned filename avoids
/// every name already in the directory, and no two entries of the batch
/// plan the same filename -- even when they ask for the same stem.
pub proof fn lemma_plan_names_fresh_and_distinct(
    images: Seq<ResponseImage>,
    existing: Set<Seq<char>>,
    base: Option<Seq<char>>,
    is_edit: bool,
    out: Seq<PersistOutcome>,
)
    requires
        save_plan_ok(images, existing, base, is_edit, out),
    ensures
        forall|i: int|
            0 <= i < out.len() && (#[trigger] out[i]).write is Some ==> !existing.contains(
                out[i].write->0.filename@,
            ),
        forall|i: int, j: int|
            0 <= i < j < out.len() && (#[trigger] out[i]).write is Some && (#[trigger] out[j]).write
                is Some ==> out[i].write->0.filename@ != out[j].write->0.filename@,
{
    assert forall|i: int|
        0 <= i < out.len() && (#[trigger] out[i]).write is Some implies !existing.contains(
        out[i].write->0.filename@,
    ) by {
        let name = out[i].write->0.filename@;
        assert(!taken_after(existing, out, i).contains(name));
        if existing.contains(name) {
            lemma_taken_after_contains_existing(existing, out, i, name);
        }
    }
    assert forall|i: int, j: int|
        0 <= i < j < out.len() && (#[trigger] out[i]).write is Some && (#[trigger] out[j]).write
            is Some implies out[i].write->0.filename@ != out[j].write->0.filename@ by {
        let ni = out[i].write->0.filename@;
        let nj = out[j].write->0.filename@;
        assert(taken_after(existing, out, i + 1).contains(ni));
        lemma_taken_after_monotone(existing, out, i + 1, j, ni);
        assert(!taken_after(existing, out, j).contains(nj));
    }
}

/// Law: running the persister a second time against a directory that now
/// holds the first run's files never reuses one of their names; the
/// second run's suffixes simply continue past them.
pub proof fn lemma_persist_idempotent(
    images1: Seq<ResponseImage>,
    existing1: Set<Seq<char>>,
    base1: Option<Seq<char>>,
    edit1: bool,
    out1: Seq<PersistOutcome>,
    images2: Seq<ResponseImage>,
    existing2: Set<Seq<char>>,
    base2: Option<Seq<char>>,
    edit2: bool,
    out2: Seq<PersistOutcome>,
)
    requires
        save_plan_ok(images1, existing1, base1, edit1, out1),
        save_plan_ok(images2, existing2, base2, edit2, out2),
        forall|i: int|
            0 <= i < out1.len() && (#[trigger] out1[i]).write is Some ==> existing2.contains(
                out1[i].write->0.filename@,
            ),
    ensures
        forall|i: int, j: int|
            0 <= i < out1.len() && 0 <= j < out2.len() && (#[trigger] out1[i]).write is Some && (
            #[trigger] out2[j]).write is Some ==> out2[j].write->0.filename@
                != out1[i].write->0.filename@,
{
    assert forall|i: int, j: int|
        0 <= i < out1.len() && 0 <= j < out2.len() && (#[trigger] out1[i]).write is Some && (
        #[trigger] out2[j]).write is Some implies out2[j].write->0.filename@
        != out1[i].write->0.filename@ by {
        let ni = out1[i].write->0.filename@;
        let nj = out2[j].write->0.filename@;
        assert(!taken_after(existing2, out2, j).contains(nj));
        lemma_taken_after_contains_existing(existing2, out2, j, ni);
    }
}

proof fn lemma_colliding_stems_rec(
    images: Seq<ResponseImage>,
    existing: Set<Seq<char>>,
    stem: Seq<char>,
    ext: Seq<char>,
    base: Option<Seq<char>>,
    is_edit: bool,
    out: Seq<PersistOutcome>,
    i: int,
)
    requires
        save_plan_ok(images, existing, base, is_edit, out),
        base is Some,
        stem == stem_for(base, is_edit, 0),
        forall|k: nat| 1 <= k ==> !#[trigger] existing.contains(candidate_name(stem, ext, k)),
        forall|idx: int|
            0 <= idx < images.len() ==> (parse_data_url(
                entry_url_view(#[trigger] images[idx]),
            ) matches Some(p) && ext_of_mime(p.0) == ext && base64_decoding(p.1) is Some),
        0 <= i <= out.len(),
    ensures
        forall|idx: int|
            0 <= idx < i ==> (#[trigger] out[idx]).write is Some && out[idx].write->0.filename@
                == candidate_name(stem, ext, (idx + 1) as nat),
        forall|k: nat|
            1 <= k ==> (#[trigger] taken_after(existing, out, i).contains(
                candidate_name(stem, ext, k),
            ) <==> k <= i),
    decreases i,
{
    if i > 0 {
        lemma_colliding_stems_rec(images, existing, stem, ext, base, is_edit, out, i - 1);
        let idx = i - 1;
        let prev = taken_after(existing, out, idx);
        assert(entry_ok(images[idx], out[idx], prev, base, is_edit, idx as nat));
        assert(stem_for(base, is_edit, idx as nat) == stem);
        let name = out[idx].write->0.filename@;
        assert(is_incremental_choice(stem, ext, prev, name));
        let k0 = choose|k: nat|
            1 <= k && name == candidate_name(stem, ext, k) && (forall|j: nat|
                1 <= j < k ==> prev.contains(#[trigger] candidate_name(stem, ext, j)));
        assert(!prev.contains(candidate_name(stem, ext, k0)));
        assert(!(k0 <= idx));
        if k0 > i {
            assert(prev.contains(candidate_name(stem, ext, i as nat)));
            assert(i as nat <= idx);
        }
        assert(k0 == i);
        assert(name == candidate_name(stem, ext, i as nat));
        assert forall|k: nat| 1 <= k implies (#[trigger] taken_after(existing, out, i).contains(
            candidate_name(stem, ext, k),
        ) <==> k <= i) by {
            assert(taken_after(existing, out, i) == prev.insert(name));
            if k != i as nat && taken_after(existing, out, i).contains(
                candidate_name(stem, ext, k),
            ) {
                if candidate_name(stem, ext, k) == name {
                    lemma_candidate_injective(stem, ext, k, i as nat);
                }
            }
            if k == i as nat {
                assert(prev.insert(name).contains(name));
            }
        }
    }
}

/// Law: when a base name is supplied (so all entries collide on one stem)
/// and every entry is a decodable inline payload of the same subtype, the
/// plan names the files `stem.ext`, `stem_2.ext`, `stem_3.ext`, ... in
/// request order, provided no such candidate name is already present.
pub proof fn lemma_colliding_stems_get_increasing_suffixes(
    images: Seq<ResponseImage>,
    existing: Set<Seq<char>>,
    stem: Seq<char>,
    ext: Seq<char>,
    base: Option<Seq<char>>,
    is_edit: bool,
    out: Seq<PersistOutcome>,
)
    requires
        save_plan_ok(images, existing, base, is_edit, out),
        base is Some,
        stem == stem_for(base, is_edit, 0),
        forall|k: nat| 1 <= k ==> !#[trigger] existing.contains(candidate_name(stem, ext, k)),
        forall|idx: int|
            0 <= idx < images.len() ==> (parse_data_url(
                entry_url_view(#[trigger] images[idx]),
            ) matches Some(p) && ext_of_mime(p.0) == ext && base64_decoding(p.1) is Some),
    ensures
        forall|idx: int|
            0 <= idx < out.len() ==> (#[trigger] out[idx]).write is Some
                && out[idx].write->0.filename@ == candidate_name(stem, ext, (idx + 1) as nat),
{
    lemma_colliding_stems_rec(
        images,
        existing,
        stem,
        ext,
        base,
        is_edit,
        out,
        out.len() as int,
    );
}

} // verus!
