//! The input resolver: classifies one caller-supplied image reference as an
//! inline-encoded payload, a remote URL, or a local file, and normalizes it
//! into a uniform encoded content descriptor.

use vstd::prelude::*;
use vstd::string::StrSliceExecFns;
use vstd::string::StringExecFns;
use crate::encoding::base64_decode;
use crate::encoding::base64_decoding;
use crate::encoding::base64_encode;
use crate::encoding::base64_encoding;
use crate::encoding::is_inline_marked;
use crate::encoding::is_url_marked;
use crate::encoding::lemma_built_data_url_parses;
use crate::encoding::parse_data_url;
use crate::encoding::parse_inline_reference;
use crate::mime::detect_mime_type_from_path;
use crate::mime::lemma_mime_for_path_shape;
use crate::mime::mime_for_path;
use crate::strutil::starts_with;

verus! {

/// How a normalized image reference is represented.
#[derive(Clone, Copy, Debug, PartialEq, Eq, Structural)]
pub enum ContentKind {
    /// A remote `http://` or `https://` URL, passed through untouched.
    RemoteUrl,
    /// A self-describing `data:image/...;base64,...` payload.
    InlineEncoded,
}

/// The normalized representation of an image, wherever it came from.
#[derive(Clone, Debug)]
pub struct ImageContent {
    pub kind: ContentKind,
    /// For `RemoteUrl` the URL itself; for `InlineEncoded` the full data
    /// URL carrying both the MIME type and the encoded bytes.
    pub payload: String,
    /// Best-effort MIME type, `image/*` when unknown.
    pub mime_type: String,
}

/// Why a reference could not be resolved.
#[derive(Clone, Copy, Debug, PartialEq, Eq, Structural)]
pub enum ResolutionError {
    /// The inline marker is present but the payload does not split into a
    /// well-formed declared type and a decodable encoded part.
    MalformedInline,
    /// The reference is no inline payload, no URL, and no readable file.
    UnrecognizedReference,
}

/// A local file found for a path-like reference: the path that hit and the
/// bytes read from it.
pub struct LoadedFile {
    pub path: String,
    pub bytes: Vec<u8>,
}

/// An inline-encoded descriptor is internally consistent: its payload
/// splits into the declared MIME type and an encoded part that the decoder
/// accepts, so the original bytes can be recovered without loss.
pub open spec fn image_content_wf(c: ImageContent) -> bool {
    match c.kind {
        ContentKind::RemoteUrl => is_url_marked(c.payload@),
        ContentKind::InlineEncoded => match parse_data_url(c.payload@) {
            Some(p) => p.0 == c.mime_type@ && base64_decoding(p.1) is Some,
            None => false,
        },
    }
}

/// The classification `resolve` applies, in priority order.
pub open spec fn reference_is_path_like(s: Seq<char>) -> bool {
    !is_inline_marked(s) && !is_url_marked(s)
}

/// Turns one caller-supplied reference into a normalized descriptor.
///
/// Priority order: the inline-encoded marker is checked first, then the
/// URL schemes, and only then is the reference treated as a file path --
/// `file` carries the bytes found by the caller's path search, `None` when
/// no file was found. Inline references must split into a well-formed
/// declared type and a payload that decodes; a found file is read, its
/// MIME type derived from its extension, and its bytes encoded into a
/// fresh inline payload that parses back to those exact bytes.
pub fn detect_and_process_image_input(image_input: &str, file: Option<&LoadedFile>) -> (r: Result<
    ImageContent,
    ResolutionError,
>)
    ensures
        match r {
            Ok(c) => image_content_wf(c) && if is_inline_marked(image_input@) {
                &&& c.kind == ContentKind::InlineEncoded
                &&& c.payload@ == image_input@
                &&& parse_data_url(image_input@) matches Some(p) && c.mime_type@ == p.0
                    && p.1.len() > 0 && base64_decoding(p.1) is Some && base64_encoding(
                    base64_decoding(p.1)->0,
                ) == p.1
            } else if is_url_marked(image_input@) {
                c.kind == ContentKind::RemoteUrl && c.payload@ == image_input@ && c.mime_type@
                    == "image/*"@
            } else {
                &&& file is Some
                &&& c.kind == ContentKind::InlineEncoded
                &&& c.mime_type@ == mime_for_path(file->0.path@)
                &&& c.payload@ == "data:"@ + mime_for_path(file->0.path@) + ";base64,"@
                    + base64_encoding(file->0.bytes@)
                &&& base64_decoding(base64_encoding(file->0.bytes@)) == Some(file->0.bytes@)
            },
            Err(e) => if is_inline_marked(image_input@) {
                e == ResolutionError::MalformedInline && (parse_data_url(image_input@) is None
                    || (parse_data_url(image_input@) matches Some(p) && (p.1.len() == 0
                    || base64_decoding(p.1) is None)))
            } else {
                e == ResolutionError::UnrecognizedReference && !is_url_marked(image_input@)
                    && file is None
            },
        },
{
    if starts_with(image_input, "data:image/") {
        match parse_inline_reference(image_input) {
            Some(p) => {
                let (mime, data) = p;
                if data.unicode_len() == 0 {
                    return Err(ResolutionError::MalformedInline);
                }
                match base64_decode(data.as_str()) {
                    Some(_bytes) => Ok(
                        ImageContent {
                            kind: ContentKind::InlineEncoded,
                            payload: image_input.to_owned(),
                            mime_type: mime,
                        },
                    ),
                    None => Err(ResolutionError::MalformedInline),
                }
            },
            None => Err(ResolutionError::MalformedInline),
        }
    } else if starts_with(image_input, "http://") || starts_with(image_input, "https://") {
        Ok(
            ImageContent {
                kind: ContentKind::RemoteUrl,
                payload: image_input.to_owned(),
                mime_type: "image/*".to_owned(),
            },
        )
    } else {
        match file {
            Some(f) => {
                let mime = detect_mime_type_from_path(f.path.as_str());
                let encoded = base64_encode(&f.bytes);
                proof {
                    lemma_mime_for_path_shape(f.path@);
                }
                let mut payload = "data:".to_owned();
                payload.append(mime.as_str());
                payload.append(";base64,");
                payload.append(encoded.as_str());
                proof {
                    lemma_built_data_url_parses(mime@, encoded@);
                    assert(payload@ == "data:"@ + mime@ + ";base64,"@ + encoded@);
                }
                Ok(ImageContent { kind: ContentKind::InlineEncoded, payload, mime_type: mime })
            },
            None => Err(ResolutionError::UnrecognizedReference),
        }
    }
}

} // verus!
