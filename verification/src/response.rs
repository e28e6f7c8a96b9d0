//! The request/response core of a tool call: the tool argument types, the
//! explicit schema a remote chat response is decoded into at the boundary,
//! the rules that turn a response into a reply or a failure, and the
//! assembly of the outbound content segments.

use vstd::prelude::*;
use crate::encoding::base64_decoding;
use crate::encoding::base64_encoding;
use crate::mime::extract_filename_without_extension;
use crate::mime::mime_for_path;
use crate::mime::stem_of;
use crate::persister::ResponseImage;
use crate::resolver::detect_and_process_image_input;
use crate::resolver::reference_is_path_like;
use crate::resolver::LoadedFile;
use crate::strutil::join_path;
use crate::strutil::join_path_spec;
use crate::strutil::starts_with;

verus! {

/// Arguments of the image-generation tool.
pub struct GenerateImageArgs {
    pub prompt: String,
}

/// Arguments of the image-editing tool: an instruction and one or more
/// image references (URL, inline payload, or local path).
pub struct EditImageArgs {
    pub instruction: String,
    pub images: Vec<String>,
}

/// Arguments of the model-configuration tool; an absent model means the
/// caller asks for the current one.
pub struct SetModelArgs {
    pub model: Option<String>,
}

/// Arguments of the save-directory tool; an absent path means the caller
/// asks for the current one.
pub struct SetSaveDirectoryArgs {
    pub save_directory: Option<String>,
}

/// The token-usage counters a remote response may report.
#[derive(Clone, Copy, Debug, PartialEq, Eq, Structural)]
pub struct UsageCounters {
    pub prompt_tokens: u64,
    pub completion_tokens: u64,
    pub total_tokens: u64,
}

/// The error body a remote response may carry.
pub struct ApiErrorBody {
    pub message: Option<String>,
}

/// One message of a response choice: its text and its returned images.
pub struct ResponseMessage {
    pub content: Option<String>,
    pub images: Vec<ResponseImage>,
}

/// One choice of a remote response.
pub struct ChatChoice {
    pub message: Option<ResponseMessage>,
}

/// A remote chat response, decoded once at the boundary into explicit
/// optional fields: an error body when the response carries one, the
/// choice list when it is present and well-formed, and token counters.
pub struct ChatResponse {
    pub error: Option<ApiErrorBody>,
    pub choices: Option<Vec<ChatChoice>>,
    pub usage: Option<UsageCounters>,
}

/// Why a remote call failed as a whole. Any of these aborts the tool
/// invocation.
#[derive(Debug)]
pub enum RemoteCallFailure {
    /// The HTTP status was outside the success range.
    NonSuccessStatus { status: u16 },
    /// The response body could not be decoded at all.
    ParseFailed,
    /// The response carries an explicit error field.
    ApiError { message: Option<String> },
    /// The response has no well-formed choice list.
    MissingChoices,
    /// The choice list is empty.
    EmptyChoices,
    /// The first choice has no message.
    InvalidMessage,
}

/// What a successful remote call yields: the reply text, the returned
/// image entries, and the token counters when reported.
pub struct ReplyData {
    pub content: Option<String>,
    pub images: Vec<ResponseImage>,
    pub usage: Option<UsageCounters>,
}

/// An HTTP status that counts as success.
pub open spec fn is_success_status(status: u16) -> bool {
    200 <= status < 300
}

/// Turns the outcome of a remote call -- the HTTP status and the decoded
/// body, `None` when decoding failed -- into a reply or a single failure.
/// Success is owed exactly when the status is in the success range, the
/// body decoded, no error field is present, and the first choice carries
/// a message; each failure names the first rule violated, in that order.
pub fn interpret_response(status: u16, parsed: Option<ChatResponse>) -> (r: Result<
    ReplyData,
    RemoteCallFailure,
>)
    ensures
        match r {
            Ok(d) => {
                &&& is_success_status(status)
                &&& parsed matches Some(resp)
                &&& resp.error is None
                &&& resp.choices matches Some(cs)
                &&& cs.len() > 0
                &&& cs[0].message matches Some(msg)
                &&& d.content == msg.content
                &&& d.images == msg.images
                &&& d.usage == resp.usage
            },
            Err(e) => match e {
                RemoteCallFailure::NonSuccessStatus { status: s } => s == status
                    && !is_success_status(status),
                RemoteCallFailure::ParseFailed => is_success_status(status) && parsed is None,
                RemoteCallFailure::ApiError { message } => is_success_status(status) && (
                parsed matches Some(resp) && (resp.error matches Some(b) && message == b.message)),
                RemoteCallFailure::MissingChoices => is_success_status(status) && (parsed matches
                    Some(resp) && resp.error is None && resp.choices is None),
                RemoteCallFailure::EmptyChoices => is_success_status(status) && (parsed matches
                    Some(resp) && resp.error is None && (resp.choices matches Some(cs) && cs.len()
                    == 0)),
                RemoteCallFailure::InvalidMessage => is_success_status(status) && (parsed matches
                    Some(resp) && resp.error is None && (resp.choices matches Some(cs) && cs.len()
                    > 0 && cs[0].message is None)),
            },
        },
{
    if !(200 <= status && status < 300) {
        return Err(RemoteCallFailure::NonSuccessStatus { status });
    }
    let resp = match parsed {
        Some(resp) => resp,
        None => {
            return Err(RemoteCallFailure::ParseFailed);
        },
    };
    match resp.error {
        Some(body) => {
            return Err(RemoteCallFailure::ApiError { message: body.message });
        },
        None => {},
    }
    let mut cs = match resp.choices {
        Some(cs) => cs,
        None => {
            return Err(RemoteCallFailure::MissingChoices);
        },
    };
    if cs.len() == 0 {
        return Err(RemoteCallFailure::EmptyChoices);
    }
    let first = cs.remove(0);
    match first.message {
        Some(msg) => Ok(ReplyData { content: msg.content, images: msg.images, usage: resp.usage }),
        None => Err(RemoteCallFailure::InvalidMessage),
    }
}

/// One segment of the outbound content array.
pub enum RequestSegment {
    Text(String),
    ImageUrl(String),
}

/// What the segment built for one image reference must hold: the resolved
/// payload where resolution succeeds, and the raw reference forwarded as
/// if it were a URL where it fails -- a deliberate best-effort shim, so
/// one bad reference never aborts the whole request.
pub open spec fn image_segment_ok(
    input: Seq<char>,
    file: Option<LoadedFile>,
    seg: RequestSegment,
) -> bool {
    seg matches RequestSegment::ImageUrl(u) && if reference_is_path_like(input) {
        match file {
            Some(f) => u@ == "data:"@ + mime_for_path(f.path@) + ";base64,"@ + base64_encoding(
                f.bytes@,
            ) && base64_decoding(base64_encoding(f.bytes@)) == Some(f.bytes@),
            None => u@ == input,
        }
    } else {
        u@ == input
    }
}

/// Builds the content segment for one image reference: the normalized
/// payload when the reference resolves (against the file the caller's
/// path search found, if any), the raw reference otherwise.
pub fn image_segment_for(image_input: &String, file: Option<&LoadedFile>) -> (r: RequestSegment)
    ensures
        image_segment_ok(
            image_input@,
            match file {
                Some(f) => Some(*f),
                None => None,
            },
            r,
        ),
{
    match detect_and_process_image_input(image_input.as_str(), file) {
        Ok(c) => RequestSegment::ImageUrl(c.payload),
        Err(_) => RequestSegment::ImageUrl(image_input.clone()),
    }
}

/// The content array of a generation request: the prompt alone.
pub fn build_generate_segments(prompt: &String) -> (r: Vec<RequestSegment>)
    ensures
        r@.len() == 1,
        r@[0] matches RequestSegment::Text(t) && t@ == prompt@,
{
    let mut v: Vec<RequestSegment> = Vec::new();
    v.push(RequestSegment::Text(prompt.clone()));
    v
}

/// The content array of an edit request: the instruction, then one image
/// segment per reference, in order, each resolved against the file the
/// caller's path search found for it.
pub fn build_edit_segments(
    instruction: &String,
    images: &Vec<String>,
    files: &Vec<Option<LoadedFile>>,
) -> (r: Vec<RequestSegment>)
    requires
        files@.len() == images@.len(),
    ensures
        r@.len() == images@.len() + 1,
        r@[0] matches RequestSegment::Text(t) && t@ == instruction@,
        forall|i: int|
            0 <= i < images@.len() ==> image_segment_ok(
                images@[i]@,
                files@[i],
                #[trigger] r@[i + 1],
            ),
{
    let mut v: Vec<RequestSegment> = Vec::new();
    v.push(RequestSegment::Text(instruction.clone()));
    let mut i: usize = 0;
    while i < images.len()
        invariant
            i <= images@.len(),
            files@.len() == images@.len(),
            v@.len() == i + 1,
            v@[0] matches RequestSegment::Text(t) && t@ == instruction@,
            forall|j: int|
                0 <= j < i ==> image_segment_ok(images@[j]@, files@[j], #[trigger] v@[j + 1]),
        decreases images@.len() - i,
    {
        let seg = image_segment_for(&images[i], files[i].as_ref());
        v.push(seg);
        i += 1;
    }
    v
}

/// The stem an edit request's saved outputs are named after: the stem of
/// the first reference when it is a local path, nothing when it is a URL
/// or an inline payload.
pub fn edit_base_filename(images: &Vec<String>) -> (r: Option<String>)
    ensures
        match r {
            Some(v) => images@.len() > 0 && reference_is_path_like(images@[0]@) && v@ == stem_of(
                images@[0]@,
            ),
            None => images@.len() == 0 || !reference_is_path_like(images@[0]@),
        },
{
    if images.len() == 0 {
        return None;
    }
    let first: &String = &images[0];
    if !starts_with(first.as_str(), "http://") && !starts_with(first.as_str(), "https://")
        && !starts_with(first.as_str(), "data:image/") {
        Some(extract_filename_without_extension(first.as_str()))
    } else {
        None
    }
}

/// The paths the resolver's fallback search probes for a path-like
/// reference, in order: the reference as given, the reference under the
/// working directory, and the reference under the configured save
/// directory.
pub fn candidate_paths(reference: &String, cwd: &String, fallback_directory: &String) -> (r: Vec<
    String,
>)
    ensures
        r@.len() == 3,
        r@[0]@ == reference@,
        r@[1]@ == join_path_spec(cwd@, reference@),
        r@[2]@ == join_path_spec(fallback_directory@, reference@),
{
    let mut v: Vec<String> = Vec::new();
    v.push(reference.clone());
    v.push(join_path(cwd.as_str(), reference.as_str()));
    v.push(join_path(fallback_directory.as_str(), reference.as_str()));
    v
}

} // verus!
