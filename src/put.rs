//! Publishing a file: the checks before anything is written, the size limit
//! while the body streams in, and the checksum sidecars written after it.
use vstd::prelude::*;
use digest::Digest;
use crate::auth::BasicAuthentication;
use crate::codec::{hex_encode, hex_lower};
use crate::err::GetRepoFileError;
use crate::path_info::{parse_spec, PathError, PathInfo, PathInfoView};
use crate::repository::{AuthFailure, Method, Repository};

verus! {

/// The MD5 digest of some bytes.
pub uninterp spec fn md5_of(b: Seq<u8>) -> Seq<u8>;

/// The SHA-1 digest of some bytes, with collision detection.
pub uninterp spec fn sha1_of(b: Seq<u8>) -> Seq<u8>;

/// The SHA-256 digest of some bytes.
pub uninterp spec fn sha256_of(b: Seq<u8>) -> Seq<u8>;

/// The SHA-512 digest of some bytes.
pub uninterp spec fn sha512_of(b: Seq<u8>) -> Seq<u8>;

/// Relies on `md5::Md5` (the `md-5` crate) through `digest::Digest::digest`.
#[verifier::external_body]
fn md5_digest(b: &[u8]) -> (r: Vec<u8>)
    ensures
        r@ == md5_of(b@),
{
    md5::Md5::digest(b).to_vec()
}

/// Relies on `sha1_checked::Sha1` through `digest::Digest::digest`.
#[verifier::external_body]
fn sha1_digest(b: &[u8]) -> (r: Vec<u8>)
    ensures
        r@ == sha1_of(b@),
{
    sha1_checked::Sha1::digest(b).to_vec()
}

/// Relies on `sha2::Sha256` through `digest::Digest::digest`.
#[verifier::external_body]
fn sha256_digest(b: &[u8]) -> (r: Vec<u8>)
    ensures
        r@ == sha256_of(b@),
{
    sha2::Sha256::digest(b).to_vec()
}

/// Relies on `sha2::Sha512` through `digest::Digest::digest`.
#[verifier::external_body]
fn sha512_digest(b: &[u8]) -> (r: Vec<u8>)
    ensures
        r@ == sha512_of(b@),
{
    sha2::Sha512::digest(b).to_vec()
}

/// Why a publish is refused before anything is written.
#[derive(Clone, Copy, Debug, PartialEq, Eq, Structural)]
pub enum PutRefusal {
    /// 403: publishing goes only to repositories without upstreams.
    HasUpstreams,
    /// The authorization check refused.
    Auth(AuthFailure),
    /// 400: the path does not name a publishable file.
    Path(PathError),
}

impl PutRefusal {
    pub open spec fn status_spec(self) -> u16 {
        match self {
            PutRefusal::HasUpstreams => 403,
            PutRefusal::Auth(a) => a.status_spec(),
            PutRefusal::Path(_) => 400,
        }
    }

    /// The response status of the refusal.
    pub fn status(self) -> (r: u16)
        ensures
            r == self.status_spec(),
    {
        match self {
            PutRefusal::HasUpstreams => 403,
            PutRefusal::Auth(a) => a.status(),
            PutRefusal::Path(_) => 400,
        }
    }
}

/// The checks of a publish, in order: the repository has no upstreams, the
/// authorization check grants `PUT` on the path, and the path names a file's coordinates.
pub open spec fn put_check_spec(
    config: &Repository,
    auth: Option<(Seq<char>, Seq<char>)>,
    path: Seq<char>,
) -> Result<PathInfoView, PutRefusal> {
    if config.upstreams@.len() > 0 {
        Err(PutRefusal::HasUpstreams)
    } else {
        match config.auth_spec(Method::Put, auth, path) {
            Err(a) => Err(PutRefusal::Auth(a)),
            Ok(_) => match parse_spec(path) {
                Err(e) => Err(PutRefusal::Path(e)),
                Ok(info) => Ok(info),
            },
        }
    }
}

/// Checks a publish of `path` to the repository configured by `config`.
pub fn check_put(config: &Repository, auth: Option<BasicAuthentication>, path: &str) -> (r: Result<PathInfo, PutRefusal>)
    ensures
        match r {
            Ok(info) => put_check_spec(
                config,
                match auth {
                    Some(a) => Some((a.username@, a.password@)),
                    None => None,
                },
                path@,
            ) == Ok::<PathInfoView, PutRefusal>(info@),
            Err(e) => put_check_spec(
                config,
                match auth {
                    Some(a) => Some((a.username@, a.password@)),
                    None => None,
                },
                path@,
            ) == Err::<PathInfoView, PutRefusal>(e),
        },
{
    if config.upstreams.len() > 0 {
        return Err(PutRefusal::HasUpstreams);
    }
    match config.check_auth(Method::Put, auth, path) {
        Err(a) => {
            return Err(PutRefusal::Auth(a));
        },
        Ok(_) => {},
    }
    match PathInfo::parse(path) {
        Err(e) => Err(PutRefusal::Path(e)),
        Ok(info) => Ok(info),
    }
}

/// The size of an upload after one more chunk, or `PutFileTooLarge` where it
/// would pass the limit.
pub fn grow_upload(current: u64, chunk: u64, limit: u64) -> (r: Result<u64, GetRepoFileError>)
    ensures
        current + chunk > limit ==> r == Err::<u64, GetRepoFileError>(GetRepoFileError::PutFileTooLarge),
        current + chunk <= limit ==> r == Ok::<u64, GetRepoFileError>((current + chunk) as u64),
{
    if chunk > limit || current > limit - chunk {
        Err(GetRepoFileError::PutFileTooLarge)
    } else {
        Ok(current + chunk)
    }
}

/// The four checksums of a published file's bytes.
pub struct Checksums {
    pub md5: Vec<u8>,
    pub sha1: Vec<u8>,
    pub sha256: Vec<u8>,
    pub sha512: Vec<u8>,
}

/// Computes the checksums of a file's bytes.
pub fn body_checksums(body: &[u8]) -> (r: Checksums)
    ensures
        r.md5@ == md5_of(body@),
        r.sha1@ == sha1_of(body@),
        r.sha256@ == sha256_of(body@),
        r.sha512@ == sha512_of(body@),
{
    Checksums {
        md5: md5_digest(body),
        sha1: sha1_digest(body),
        sha256: sha256_digest(body),
        sha512: sha512_digest(body),
    }
}

/// The path of a checksum sidecar: the file's path with `.<ext>` appended.
pub fn checksum_path(file_path: &str, ext: &str) -> (r: String)
    ensures
        r@ == file_path@ + seq!['.'] + ext@,
{
    proof {
        reveal_strlit(".");
    }
    let mut out = file_path.to_owned();
    out.append(".");
    out.append(ext);
    assert(out@ =~= file_path@ + seq!['.'] + ext@);
    out
}

/// The sidecar files of a published file: `.md5`, `.sha1`, `.sha256` and
/// `.sha512` beside it, each holding the lowercase hex of that digest of the
/// file's bytes.
pub fn checksum_files(file_path: &str, body: &[u8]) -> (r: Vec<(String, String)>)
    ensures
        r@.len() == 4,
        r@[0].0@ == file_path@ + seq!['.'] + "md5"@ && r@[0].1@ == hex_lower(md5_of(body@)),
        r@[1].0@ == file_path@ + seq!['.'] + "sha1"@ && r@[1].1@ == hex_lower(sha1_of(body@)),
        r@[2].0@ == file_path@ + seq!['.'] + "sha256"@ && r@[2].1@ == hex_lower(sha256_of(body@)),
        r@[3].0@ == file_path@ + seq!['.'] + "sha512"@ && r@[3].1@ == hex_lower(sha512_of(body@)),
{
    let sums = body_checksums(body);
    let mut out: Vec<(String, String)> = Vec::new();
    out.push((checksum_path(file_path, "md5"), hex_encode(sums.md5.as_slice())));
    out.push((checksum_path(file_path, "sha1"), hex_encode(sums.sha1.as_slice())));
    out.push((checksum_path(file_path, "sha256"), hex_encode(sums.sha256.as_slice())));
    out.push((checksum_path(file_path, "sha512"), hex_encode(sums.sha512.as_slice())));
    out
}

} // verus!
