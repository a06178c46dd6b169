//! The rules of a caching, authenticating proxy for Maven-style artifact
//! repositories: how a request is resolved over local layers and remote
//! upstreams, how cached copies are described and re-validated, how
//! conditional requests are answered, who may read and publish, and how a
//! publish updates the metadata documents.
//!
//! Every executable function here carries a contract checked by Verus; the
//! server around it (HTTP, files, network) lives outside the library.

/// Character-level helpers on `&str`.
pub mod text;
/// Byte encodings and digests.
pub mod codec;
/// Instants and their RFC 2822 text.
pub mod clock;
/// The closed set of resolution errors.
pub mod err;
/// Entity-tags.
pub mod etag;
/// Conditional request headers.
pub mod conditional;
/// Basic authentication credentials.
pub mod auth;
/// Repository configuration and the authorization check.
pub mod repository;
/// The repositories a request consults.
pub mod locations;
/// Maven metadata documents.
pub mod maven_metadata;
/// Maven coordinates of a path.
pub mod path_info;
/// Resolution decisions.
pub mod resolve;
/// Response shaping.
pub mod serve;
/// Sidecar records and re-validation.
pub mod file_metadata;
/// Publishing.
pub mod put;
/// The `Server-Timing` header.
pub mod timings;
