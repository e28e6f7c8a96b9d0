//! Core engine for an image-generation tool server: classifies caller-supplied
//! image references (remote URL, inline base64 payload, or local file),
//! normalizes them into a uniform encoded form, plans collision-free
//! persistence of returned inline images, and manages the validated session
//! configuration (active model and save directory).
//!
//! All filesystem, network and transport work is left to the surrounding
//! binary; this crate holds the decision logic, specified and verified.

pub mod encoding;
pub mod mime;
pub mod persister;
pub mod resolver;
pub mod response;
pub mod session;
pub mod strutil;
