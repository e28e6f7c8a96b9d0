//! Session-wide configuration: the startup precedence rules (command line
//! over environment over computed default), the fixed model allow-list,
//! and the validated, mutable session state shared across tool calls.
//!
//! Everything here is decided over plain values handed in by the
//! surrounding binary; reading the environment, parsing the command line
//! and touching the filesystem stay outside.

use vstd::prelude::*;
use vstd::string::StrSliceExecFns;
use crate::strutil::is_absolute_path;
use crate::strutil::join_path_spec;
use crate::strutil::join_path;
use crate::strutil::parse_u16;
use crate::strutil::parse_u16_spec;
use crate::strutil::path_is_absolute;
use crate::strutil::starts_with;
use crate::strutil::str_eq;
use crate::strutil::tail_from;

verus! {

/// How the surrounding binary talks to its clients.
#[derive(Clone, Copy, Debug, PartialEq, Eq, Structural)]
pub enum TransportType {
    Stdio,
    Sse,
}

impl Default for TransportType {
    /// The default transport is standard input and output.
    fn default() -> (r: Self)
        ensures
            r == TransportType::Stdio,
    {
        TransportType::Stdio
    }
}

/// Command-line options, handed in by the surrounding binary's parser.
pub struct CliArgs {
    pub transport: TransportType,
    pub api_key: Option<String>,
    pub model: Option<String>,
    pub save_directory: Option<String>,
}

/// Why a configuration change was rejected. Every rejection leaves the
/// previous state intact.
#[derive(Clone, Copy, Debug, PartialEq, Eq, Structural)]
pub enum ValidationError {
    /// The candidate save directory is a relative path.
    NotAbsolute,
    /// The candidate save directory exists but is not a directory.
    NotADirectory,
    /// The candidate save directory did not exist and could not be made.
    CreateFailed,
    /// The candidate model is not on the allow-list.
    UnsupportedModel,
}

/// Why the startup configuration could not be assembled.
#[derive(Clone, Copy, Debug, PartialEq, Eq, Structural)]
pub enum ConfigError {
    /// No API credential was found on the command line or in the
    /// environment.
    MissingApiKey,
    /// The selected model is not on the allow-list.
    UnsupportedModel,
}

/// A snapshot of the environment variables the configuration reads, taken
/// by the surrounding binary at startup.
pub struct EnvSnapshot {
    pub api_key: Option<String>,
    pub base_url: Option<String>,
    pub http_referer: Option<String>,
    pub x_title: Option<String>,
    pub http_port: Option<String>,
    pub model: Option<String>,
    pub save_directory: Option<String>,
}

/// The remote-endpoint configuration assembled at startup.
#[derive(Debug, Clone)]
pub struct OpenRouterConfig {
    pub api_key: String,
    pub base_url: String,
    pub http_referer: String,
    pub x_title: String,
    pub http_port: u16,
    pub model: String,
}

/// The fixed allow-list of supported model identifiers.
pub open spec fn is_supported_model(m: Seq<char>) -> bool {
    m == "google/gemini-2.5-flash-image-preview:free"@ || m
        == "google/gemini-2.5-flash-image-preview"@
}

/// The model selected when neither the command line nor the environment
/// names one.
pub open spec fn default_model() -> Seq<char> {
    "google/gemini-2.5-flash-image-preview:free"@
}

/// Whether `m` is on the model allow-list.
pub fn model_is_supported(m: &str) -> (r: bool)
    ensures
        r == is_supported_model(m@),
{
    str_eq(m, "google/gemini-2.5-flash-image-preview:free") || str_eq(
        m,
        "google/gemini-2.5-flash-image-preview",
    )
}

/// The value a `--flag value` / `--flag=value` pair gives to `flag`,
/// scanning from position `i`: the first argument equal to `flag` that has
/// a successor yields that successor; an argument starting with the
/// `flag=` form yields what follows the `=`.
pub open spec fn arg_value_from(
    args: Seq<Seq<char>>,
    flag: Seq<char>,
    flag_eq: Seq<char>,
    i: int,
) -> Option<Seq<char>>
    decreases args.len() - i,
{
    if i < 0 || i >= args.len() {
        None
    } else if args[i] == flag && i + 1 < args.len() {
        Some(args[i + 1])
    } else if flag_eq.is_prefix_of(args[i]) {
        Some(args[i].skip(flag_eq.len() as int))
    } else {
        arg_value_from(args, flag, flag_eq, i + 1)
    }
}

/// The views of an argument list.
pub open spec fn arg_views(args: Seq<String>) -> Seq<Seq<char>> {
    args.map_values(|s: String| s@)
}

fn arg_flag_value(args: &Vec<String>, flag: &str, flag_eq: &str) -> (r: Option<String>)
    requires
        flag_eq@.len() >= 1,
    ensures
        match r {
            Some(v) => arg_value_from(arg_views(args@), flag@, flag_eq@, 0) == Some(v@),
            None => arg_value_from(arg_views(args@), flag@, flag_eq@, 0) is None,
        },
{
    let mut i: usize = 0;
    while i < args.len()
        invariant
            i <= args@.len(),
            flag_eq@.len() >= 1,
            arg_value_from(arg_views(args@), flag@, flag_eq@, 0) == arg_value_from(
                arg_views(args@),
                flag@,
                flag_eq@,
                i as int,
            ),
        decreases args@.len() - i,
    {
        let a: &String = &args[i];
        if str_eq(a.as_str(), flag) && i + 1 < args.len() {
            return Some(args[i + 1].clone());
        }
        if starts_with(a.as_str(), flag_eq) {
            let plen: usize = flag_eq.unicode_len();
            let v = tail_from(a.as_str(), plen);
            proof {
                assert(a@.skip(plen as int) =~= a@.subrange(plen as int, a@.len() as int));
            }
            return Some(v);
        }
        i += 1;
    }
    None
}

impl OpenRouterConfig {
    /// The API key named on the command line, by `--api-key K` or
    /// `--api-key=K`.
    pub fn get_api_key_from_args(args: &Vec<String>) -> (r: Option<String>)
        ensures
            match r {
                Some(v) => arg_value_from(arg_views(args@), "--api-key"@, "--api-key="@, 0)
                    == Some(v@),
                None => arg_value_from(arg_views(args@), "--api-key"@, "--api-key="@, 0) is None,
            },
    {
        proof {
            reveal_strlit("--api-key=");
        }
        arg_flag_value(args, "--api-key", "--api-key=")
    }

    /// The model named on the command line, by `--model M` or `--model=M`.
    pub fn get_model_from_args(args: &Vec<String>) -> (r: Option<String>)
        ensures
            match r {
                Some(v) => arg_value_from(arg_views(args@), "--model"@, "--model="@, 0) == Some(
                    v@,
                ),
                None => arg_value_from(arg_views(args@), "--model"@, "--model="@, 0) is None,
            },
    {
        proof {
            reveal_strlit("--model=");
        }
        arg_flag_value(args, "--model", "--model=")
    }

    /// Assembles the startup configuration from the command line and an
    /// environment snapshot. The API key and the model follow the same
    /// precedence: command line first, then environment, then -- for the
    /// model -- the fixed default; a missing key or a model outside the
    /// allow-list reject the whole configuration. Every other field falls
    /// back to its fixed default; an unparsable port falls back silently.
    pub fn from_env(args: &Vec<String>, env: &EnvSnapshot) -> (r: Result<
        OpenRouterConfig,
        ConfigError,
    >)
        ensures
            match r {
                Ok(c) => {
                    &&& match arg_value_from(arg_views(args@), "--api-key"@, "--api-key="@, 0) {
                        Some(k) => c.api_key@ == k,
                        None => env.api_key matches Some(k) && c.api_key@ == k@,
                    }
                    &&& c.base_url@ == (match env.base_url {
                        Some(u) => u@,
                        None => "https://openrouter.ai/api/v1"@,
                    })
                    &&& c.http_referer@ == (match env.http_referer {
                        Some(u) => u@,
                        None => "http://localhost:3000"@,
                    })
                    &&& c.x_title@ == (match env.x_title {
                        Some(u) => u@,
                        None => "OpenRouter MCP Server (Rust)"@,
                    })
                    &&& c.http_port == (match env.http_port {
                        Some(p) => match parse_u16_spec(p@) {
                            Some(v) => v,
                            None => 6621u16,
                        },
                        None => 6621u16,
                    })
                    &&& c.model@ == (match arg_value_from(
                        arg_views(args@),
                        "--model"@,
                        "--model="@,
                        0,
                    ) {
                        Some(m) => m,
                        None => match env.model {
                            Some(m) => m@,
                            None => default_model(),
                        },
                    })
                    &&& is_supported_model(c.model@)
                },
                Err(ConfigError::MissingApiKey) => arg_value_from(
                    arg_views(args@),
                    "--api-key"@,
                    "--api-key="@,
                    0,
                ) is None && env.api_key is None,
                Err(ConfigError::UnsupportedModel) => !is_supported_model(
                    match arg_value_from(arg_views(args@), "--model"@, "--model="@, 0) {
                        Some(m) => m,
                        None => match env.model {
                            Some(m) => m@,
                            None => default_model(),
                        },
                    },
                ),
            },
    {
        let api_key = match Self::get_api_key_from_args(args) {
            Some(k) => k,
            None => match &env.api_key {
                Some(k) => k.clone(),
                None => {
                    return Err(ConfigError::MissingApiKey);
                },
            },
        };
        let base_url = match &env.base_url {
            Some(u) => u.clone(),
            None => "https://openrouter.ai/api/v1".to_owned(),
        };
        let http_referer = match &env.http_referer {
            Some(u) => u.clone(),
            None => "http://localhost:3000".to_owned(),
        };
        let x_title = match &env.x_title {
            Some(u) => u.clone(),
            None => "OpenRouter MCP Server (Rust)".to_owned(),
        };
        let http_port: u16 = match &env.http_port {
            Some(p) => match parse_u16(p.as_str()) {
                Some(v) => v,
                None => 6621,
            },
            None => 6621,
        };
        let model = match Self::get_model_from_args(args) {
            Some(m) => m,
            None => match &env.model {
                Some(m) => m.clone(),
                None => "google/gemini-2.5-flash-image-preview:free".to_owned(),
            },
        };
        if !model_is_supported(model.as_str()) {
            return Err(ConfigError::UnsupportedModel);
        }
        Ok(OpenRouterConfig { api_key, base_url, http_referer, x_title, http_port, model })
    }
}

/// What the surrounding binary found, or did, at a candidate save
/// directory path after it passed the absolute-path check.
#[derive(Clone, Copy, Debug, PartialEq, Eq, Structural)]
pub enum DirectoryProbe {
    /// The path exists and is a directory.
    IsDirectory,
    /// The path exists but is not a directory.
    NotADirectoryEntry,
    /// The path was absent and was created successfully.
    CreatedOk,
    /// The path was absent and creating it failed.
    CreateFailed,
}

/// The save directory chosen at startup: the command-line value wins, then
/// the environment, then `images` under the working directory; an explicit
/// value must be absolute.
pub open spec fn initial_save_directory_spec(
    cli: Option<Seq<char>>,
    env: Option<Seq<char>>,
    cwd: Seq<char>,
) -> Result<Seq<char>, ValidationError> {
    match cli {
        Some(c) => if is_absolute_path(c) {
            Ok(c)
        } else {
            Err(ValidationError::NotAbsolute)
        },
        None => match env {
            Some(e) => if is_absolute_path(e) {
                Ok(e)
            } else {
                Err(ValidationError::NotAbsolute)
            },
            None => Ok(join_path_spec(cwd, "images"@)),
        },
    }
}

/// Settles the save directory at startup, from the command-line value, the
/// environment value, and the working directory, in that order of
/// precedence. The directory's existence is the caller's to ensure.
pub fn initial_save_directory(cli: Option<&String>, env: Option<&String>, cwd: &str) -> (r: Result<
    String,
    ValidationError,
>)
    ensures
        match r {
            Ok(d) => initial_save_directory_spec(
                match cli {
                    Some(c) => Some(c@),
                    None => None,
                },
                match env {
                    Some(e) => Some(e@),
                    None => None,
                },
                cwd@,
            ) == Ok::<Seq<char>, ValidationError>(d@),
            Err(e) => initial_save_directory_spec(
                match cli {
                    Some(c) => Some(c@),
                    None => None,
                },
                match env {
                    Some(e2) => Some(e2@),
                    None => None,
                },
                cwd@,
            ) == Err::<Seq<char>, ValidationError>(e),
        },
{
    match cli {
        Some(c) => {
            if path_is_absolute(c.as_str()) {
                Ok(c.clone())
            } else {
                Err(ValidationError::NotAbsolute)
            }
        },
        None => match env {
            Some(e) => {
                if path_is_absolute(e.as_str()) {
                    Ok(e.clone())
                } else {
                    Err(ValidationError::NotAbsolute)
                }
            },
            None => Ok(join_path(cwd, "images")),
        },
    }
}

/// Process-lifetime mutable configuration shared across tool calls: the
/// active model and the save directory, both only ever holding validated
/// values.
pub struct SessionState {
    pub active_model: String,
    pub save_directory: String,
}

/// The state invariant: the model is on the allow-list and the save
/// directory is an absolute path.
pub open spec fn session_wf(s: SessionState) -> bool {
    is_supported_model(s.active_model@) && is_absolute_path(s.save_directory@)
}

impl SessionState {
    /// Builds the initial state from already-validated values.
    pub fn new(active_model: String, save_directory: String) -> (r: SessionState)
        requires
            is_supported_model(active_model@),
            is_absolute_path(save_directory@),
        ensures
            r.active_model == active_model,
            r.save_directory == save_directory,
            session_wf(r),
    {
        SessionState { active_model, save_directory }
    }

    /// The latest committed model identifier.
    pub fn get_model(&self) -> (r: String)
        ensures
            r@ == self.active_model@,
    {
        self.active_model.clone()
    }

    /// The latest committed save directory.
    pub fn get_save_directory(&self) -> (r: String)
        ensures
            r@ == self.save_directory@,
    {
        self.save_directory.clone()
    }

    /// Commits a new model if it is on the allow-list; otherwise rejects
    /// and leaves the state untouched. Validation happens before any
    /// change becomes visible.
    pub fn set_model(&mut self, candidate: String) -> (r: Result<(), ValidationError>)
        ensures
            match r {
                Ok(()) => is_supported_model(candidate@) && final(self).active_model == candidate
                    && final(self).save_directory == old(self).save_directory,
                Err(e) => e == ValidationError::UnsupportedModel && !is_supported_model(candidate@)
                    && *final(self) == *old(self),
            },
            session_wf(*old(self)) ==> session_wf(*final(self)),
    {
        if !model_is_supported(candidate.as_str()) {
            return Err(ValidationError::UnsupportedModel);
        }
        self.active_model = candidate;
        Ok(())
    }

    /// Commits a new save directory. The candidate must be absolute;
    /// `probe` reports what the caller found, or did, at that path once
    /// the absolute-path check passed (a relative candidate is rejected
    /// whatever the probe says). On any rejection the previous directory
    /// stays in force.
    pub fn set_save_directory(&mut self, candidate: String, probe: DirectoryProbe) -> (r: Result<
        (),
        ValidationError,
    >)
        ensures
            match r {
                Ok(()) => is_absolute_path(candidate@) && (probe == DirectoryProbe::IsDirectory
                    || probe == DirectoryProbe::CreatedOk) && final(self).save_directory
                    == candidate && final(self).active_model == old(self).active_model,
                Err(e) => *final(self) == *old(self) && match e {
                    ValidationError::NotAbsolute => !is_absolute_path(candidate@),
                    ValidationError::CreateFailed => is_absolute_path(candidate@) && probe
                        == DirectoryProbe::CreateFailed,
                    ValidationError::NotADirectory => is_absolute_path(candidate@) && probe
                        == DirectoryProbe::NotADirectoryEntry,
                    ValidationError::UnsupportedModel => false,
                },
            },
            session_wf(*old(self)) ==> session_wf(*final(self)),
    {
        if !path_is_absolute(candidate.as_str()) {
            return Err(ValidationError::NotAbsolute);
        }
        match probe {
            DirectoryProbe::CreateFailed => Err(ValidationError::CreateFailed),
            DirectoryProbe::NotADirectoryEntry => Err(ValidationError::NotADirectory),
            DirectoryProbe::IsDirectory | DirectoryProbe::CreatedOk => {
                self.save_directory = candidate;
                Ok(())
            },
        }
    }
}

} // verus!
