//! The resolution pipeline's decisions: which local layer answers, how
//! results of several layers combine, and when remote upstreams are asked.
use vstd::prelude::*;
use crate::err::GetRepoFileError;
use crate::repository::{last_key, lemma_last_key_append, string_keys, Header, Repository, Upstream};
use crate::path_info::path_components;
use crate::text::{is_prefix, is_suffix, split_char, split_seq, starts_with, str_eq, strip_suffix};

verus! {

/// A request path that passes the sanity checks: relative, without `..`;
/// it is used without a trailing `/`.
pub open spec fn request_path_spec(path: Seq<char>) -> Result<Seq<char>, GetRepoFileError> {
    match path_components(path) {
        None => Err(GetRepoFileError::BadRequestPath),
        Some(_) => Ok(
            if is_suffix(seq!['/'], path) {
                path.drop_last()
            } else {
                path
            },
        ),
    }
}

/// Checks a request path and drops its trailing `/`.
pub fn request_path(path: &str) -> (r: Result<String, GetRepoFileError>)
    ensures
        match r {
            Ok(p) => request_path_spec(path@) == Ok::<Seq<char>, GetRepoFileError>(p@),
            Err(e) => request_path_spec(path@) == Err::<Seq<char>, GetRepoFileError>(e),
        },
{
    match crate::path_info::components(path) {
        None => Err(GetRepoFileError::BadRequestPath),
        Some(_) => {
            proof {
                reveal_strlit("/");
            }
            assert("/"@ =~= seq!['/']);
            match strip_suffix(path, "/") {
                Some(p) => {
                    assert(p@ =~= path@.drop_last());
                    Ok(p.to_owned())
                },
                None => Ok(path.to_owned()),
            }
        },
    }
}

/// What a stat of a local path reported.
#[derive(Clone, Copy, Debug, PartialEq, Eq, Structural)]
pub enum FsKind {
    Missing,
    Directory,
    File,
    Unreadable,
}

/// The next step of a local store lookup.
#[derive(Clone, Copy, Debug, PartialEq, Eq, Structural)]
pub enum LocalStep {
    /// Read the directory and answer with its listing.
    List,
    /// Answer that the path is a directory; the client is sent to the form with `/`.
    IsADir,
    /// Open, lock, map and hash the file.
    OpenFile,
    /// The lookup fails with this error.
    Fail(GetRepoFileError),
}

pub open spec fn local_step_spec(has_trailing_slash: bool, display_dir: bool, kind: FsKind) -> LocalStep {
    if has_trailing_slash {
        if !display_dir {
            LocalStep::Fail(GetRepoFileError::NotFound)
        } else {
            match kind {
                FsKind::Directory => LocalStep::List,
                FsKind::Unreadable => LocalStep::Fail(GetRepoFileError::OpenFile),
                _ => LocalStep::Fail(GetRepoFileError::NotFound),
            }
        }
    } else {
        match kind {
            FsKind::Directory => LocalStep::IsADir,
            FsKind::File => LocalStep::OpenFile,
            FsKind::Missing => LocalStep::Fail(GetRepoFileError::NotFound),
            FsKind::Unreadable => LocalStep::Fail(GetRepoFileError::OpenFile),
        }
    }
}

/// Decides how a local layer answers a request: a request with a trailing
/// slash lists the directory (where listings are shown; a file or a missing
/// path is not found), any other request
/// is redirected when the path is a directory and served when it is a file.
pub fn local_step(has_trailing_slash: bool, display_dir: bool, kind: FsKind) -> (r: LocalStep)
    ensures
        r == local_step_spec(has_trailing_slash, display_dir, kind),
        (r == LocalStep::IsADir) <==> (kind == FsKind::Directory && !has_trailing_slash),
        (has_trailing_slash && kind == FsKind::File) ==> r == LocalStep::Fail(GetRepoFileError::NotFound),
{
    if has_trailing_slash {
        if !display_dir {
            LocalStep::Fail(GetRepoFileError::NotFound)
        } else {
            match kind {
                FsKind::Directory => LocalStep::List,
                FsKind::Unreadable => LocalStep::Fail(GetRepoFileError::OpenFile),
                _ => LocalStep::Fail(GetRepoFileError::NotFound),
            }
        }
    } else {
        match kind {
            FsKind::Directory => LocalStep::IsADir,
            FsKind::File => LocalStep::OpenFile,
            FsKind::Missing => LocalStep::Fail(GetRepoFileError::NotFound),
            FsKind::Unreadable => LocalStep::Fail(GetRepoFileError::OpenFile),
        }
    }
}

/// Whether listings are shown for a layer: neither the requested
/// repository's configuration nor the layer's own hides them; the requested
/// one's setting wins where it has one.
pub fn display_dir(config: &Repository, layer: &Repository) -> (r: bool)
    ensures
        r == !match config.hide_directory_listings {
            Some(h) => h,
            None => match layer.hide_directory_listings {
                Some(h) => h,
                None => false,
            },
        },
{
    let hide = match config.hide_directory_listings {
        Some(h) => h,
        None => match layer.hide_directory_listings {
            Some(h) => h,
            None => false,
        },
    };
    !hide
}

/// A directory listing: entry names with whether each is a directory, and
/// the modification times of the directories merged into it.
#[derive(Clone, Debug)]
pub struct Listing {
    pub entries: Vec<(String, bool)>,
    pub mtimes: Vec<Option<i64>>,
}

/// The answer of one layer or upstream.
pub enum Found {
    /// A file; the payload is the caller's handle of it.
    File(usize),
    /// A directory listing.
    Listing(Listing),
    /// The path is a directory and the request has no trailing slash.
    IsADir,
    /// An upstream response streamed through; the payload is the caller's handle of it.
    Passthrough(usize),
}

/// How combining one more answer ends.
pub enum Combined {
    /// Keep collecting, with this answer so far.
    Pending(Found),
    /// This answer wins; the other tasks are cancelled.
    Winner(Found),
}

/// What the entry names of a listing map to, later entries overriding.
pub open spec fn listing_lookup(v: Seq<(String, bool)>, name: Seq<char>) -> Option<bool> {
    match last_key(string_keys(v), name) {
        Some(i) => Some(v[i].1),
        None => None,
    }
}

/// Adds one more answer to what was collected: `IsADir` wins at once; two
/// listings merge (entries united, modification times concatenated); any
/// other answer wins over a collected listing.
pub fn combine(acc: Option<Found>, next: Found) -> (r: Combined)
    ensures
        match next {
            Found::Listing(b) => match acc {
                Some(Found::Listing(a)) => r matches Combined::Pending(Found::Listing(m)) && (forall|name: Seq<char>|
                    #[trigger] listing_lookup(m.entries@, name) == match listing_lookup(b.entries@, name) {
                        Some(d) => Some(d),
                        None => listing_lookup(a.entries@, name),
                    }) && m.mtimes@ == a.mtimes@ + b.mtimes@,
                Some(other) => r matches Combined::Winner(w) && w == other,
                None => r == Combined::Pending(Found::Listing(b)),
            },
            _ => r == Combined::Winner(next),
        },
{
    match next {
        Found::Listing(b) => match acc {
            Some(Found::Listing(a)) => {
                let ghost a_entries = a.entries@;
                let ghost b_entries = b.entries@;
                let mut entries = a.entries;
                let mut mtimes = a.mtimes;
                let mut more_entries = b.entries;
                let mut more_mtimes = b.mtimes;
                entries.append(&mut more_entries);
                mtimes.append(&mut more_mtimes);
                assert(string_keys(entries@) =~= string_keys(a_entries) + string_keys(b_entries));
                assert forall|name: Seq<char>| #[trigger]
                    listing_lookup(entries@, name) == match listing_lookup(b_entries, name) {
                        Some(d) => Some(d),
                        None => listing_lookup(a_entries, name),
                    } by {
                    lemma_last_key_append(string_keys(a_entries), string_keys(b_entries), name);
                    crate::repository::lemma_last_key(string_keys(a_entries), name);
                    crate::repository::lemma_last_key(string_keys(b_entries), name);
                }
                Combined::Pending(Found::Listing(Listing { entries, mtimes }))
            },
            Some(other) => Combined::Winner(other),
            None => Combined::Pending(Found::Listing(b)),
        },
        _ => Combined::Winner(next),
    }
}

/// The remote phase refuses paths with a component that starts with `.`
/// (such names are sidecars) and requests with a trailing slash (remotes
/// never list).
pub open spec fn remote_refusal_spec(str_path: Seq<char>, has_trailing_slash: bool) -> Option<GetRepoFileError> {
    if exists|i: int|
        0 <= i < split_seq(str_path, '/').len() && #[trigger] split_seq(str_path, '/')[i].len() > 0 && split_seq(
            str_path,
            '/',
        )[i][0] == '.' {
        Some(GetRepoFileError::FileStartsWithDot)
    } else if has_trailing_slash {
        Some(GetRepoFileError::NotFound)
    } else {
        None
    }
}

/// Why the remote phase must not run for this request, if it must not.
pub fn remote_refusal(str_path: &str, has_trailing_slash: bool) -> (r: Option<GetRepoFileError>)
    ensures
        r == remote_refusal_spec(str_path@, has_trailing_slash),
{
    let parts = split_char(str_path, '/');
    let ghost pv = split_seq(str_path@, '/');
    let mut i: usize = 0;
    while i < parts.len()
        invariant
            i <= parts@.len(),
            parts@.map_values(|x: String| x@) == pv,
            pv == split_seq(str_path@, '/'),
            forall|j: int| 0 <= j < i ==> !(#[trigger] pv[j].len() > 0 && pv[j][0] == '.'),
        decreases parts.len() - i,
    {
        let p = parts[i].as_str();
        assert(p@ == pv[i as int]);
        if p.unicode_len() > 0 && p.get_char(0) == '.' {
            return Some(GetRepoFileError::FileStartsWithDot);
        }
        i += 1;
    }
    if has_trailing_slash {
        Some(GetRepoFileError::NotFound)
    } else {
        None
    }
}

/// The upstream address of a request path: the remote's URL without one
/// trailing `/`, then the path, joined by exactly the one `/` the path may
/// already start with.
pub open spec fn remote_url_spec(remote: Seq<char>, path: Seq<char>) -> Seq<char> {
    let base = if is_suffix(seq!['/'], remote) {
        remote.drop_last()
    } else {
        remote
    };
    if is_prefix(seq!['/'], path) {
        base + path
    } else {
        base.push('/') + path
    }
}

/// Composes the upstream URL of `path` under `remote`.
pub fn get_remote_url(remote: &str, path: &str) -> (r: String)
    ensures
        r@ == remote_url_spec(remote@, path@),
{
    proof {
        reveal_strlit("/");
    }
    assert("/"@ =~= seq!['/']);
    let base = match strip_suffix(remote, "/") {
        Some(b) => b,
        None => remote,
    };
    assert(is_suffix(seq!['/'], remote@) ==> base@ =~= remote@.drop_last());
    let mut out = base.to_owned();
    if !starts_with(path, "/") {
        out.append("/");
    }
    out.append(path);
    out
}

/// The address of the incoming request, passed upstream as
/// `X-Downstream-Repo-Link`: the scheme (from `X-Forwarded-Proto`, else by
/// whether TLS is on), the host (the first of `Host`, `X-Forwarded-Host`,
/// `X-Forwarded-Server`, else `unknown-host`), then the path.
pub open spec fn downstream_url_spec(
    proto: Option<Seq<char>>,
    tls: bool,
    host: Option<Seq<char>>,
    str_path: Seq<char>,
) -> Seq<char> {
    let scheme = match proto {
        Some(p) => p + seq![':', '/', '/'],
        None => if tls {
            seq!['h', 't', 't', 'p', 's', ':', '/', '/']
        } else {
            seq!['h', 't', 't', 'p', ':', '/', '/']
        },
    };
    let h = match host {
        Some(h) => h,
        None => seq!['u', 'n', 'k', 'n', 'o', 'w', 'n', '-', 'h', 'o', 's', 't'],
    };
    if is_prefix(seq!['/'], str_path) {
        scheme + h + str_path
    } else {
        scheme + h.push('/') + str_path
    }
}

/// Reconstructs the incoming request's URL.
pub fn downstream_url(proto: Option<&str>, tls: bool, host: Option<&str>, str_path: &str) -> (r: String)
    ensures
        r@ == downstream_url_spec(
            match proto {
                Some(p) => Some(p@),
                None => None,
            },
            tls,
            match host {
                Some(h) => Some(h@),
                None => None,
            },
            str_path@,
        ),
{
    proof {
        reveal_strlit("://");
        reveal_strlit("https://");
        reveal_strlit("http://");
        reveal_strlit("unknown-host");
        reveal_strlit("/");
    }
    assert("://"@ =~= seq![':', '/', '/']);
    assert("https://"@ =~= seq!['h', 't', 't', 'p', 's', ':', '/', '/']);
    assert("http://"@ =~= seq!['h', 't', 't', 'p', ':', '/', '/']);
    assert("unknown-host"@ =~= seq!['u', 'n', 'k', 'n', 'o', 'w', 'n', '-', 'h', 'o', 's', 't']);
    assert("/"@ =~= seq!['/']);
    let mut out = String::new();
    match proto {
        Some(p) => {
            out.append(p);
            out.append("://");
        },
        None => {
            if tls {
                out.append("https://");
            } else {
                out.append("http://");
            }
        },
    }
    match host {
        Some(h) => out.append(h),
        None => out.append("unknown-host"),
    }
    if !starts_with(str_path, "/") {
        out.append("/");
    }
    out.append(str_path);
    assert(out@ =~= downstream_url_spec(
        match proto {
            Some(p) => Some(p@),
            None => None,
        },
        tls,
        match host {
            Some(h) => Some(h@),
            None => None,
        },
        str_path@,
    ));
    out
}

/// The headers sent upstream with a fetch: the downstream link where known,
/// and the client's address where known.
pub fn upstream_request_headers(request_url: &str, client_ip: Option<&str>) -> (r: Vec<Header>)
    ensures
        r@.len() == (if request_url@.len() > 0 { 1int } else { 0int }) + (if client_ip is Some { 1int } else { 0int }),
        request_url@.len() > 0 ==> r@[0]@ == ("X-Downstream-Repo-Link"@, request_url@),
        client_ip matches Some(ip) ==> r@.last()@ == ("X-Forwarded-For"@, ip@),
{
    let mut out: Vec<Header> = Vec::new();
    if request_url.unicode_len() > 0 {
        out.push(Header { name: String::from_str("X-Downstream-Repo-Link"), value: request_url.to_owned() });
    }
    match client_ip {
        Some(ip) => {
            out.push(Header { name: String::from_str("X-Forwarded-For"), value: ip.to_owned() });
        },
        None => {},
    }
    out
}

/// How an upstream's status is taken: 200 goes on, 404 is `NotFound`, any
/// other is `UpstreamStatus`.
pub fn classify_upstream_status(code: u16) -> (r: Result<(), GetRepoFileError>)
    ensures
        code == 200 ==> r == Ok::<(), GetRepoFileError>(()),
        code == 404 ==> r == Err::<(), GetRepoFileError>(GetRepoFileError::NotFound),
        code != 200 && code != 404 ==> r == Err::<(), GetRepoFileError>(GetRepoFileError::UpstreamStatus),
{
    if code == 200 {
        Ok(())
    } else if code == 404 {
        Err(GetRepoFileError::NotFound)
    } else {
        Err(GetRepoFileError::UpstreamStatus)
    }
}

/// The running size of a download after one more chunk, or
/// `UpstreamFileTooLarge` once it reaches the limit.
pub fn grow_download(current: u64, chunk: u64, limit: u64) -> (r: Result<u64, GetRepoFileError>)
    ensures
        current + chunk >= limit ==> r == Err::<u64, GetRepoFileError>(GetRepoFileError::UpstreamFileTooLarge),
        current + chunk < limit ==> r == Ok::<u64, GetRepoFileError>((current + chunk) as u64),
{
    if chunk >= limit || current >= limit - chunk {
        Err(GetRepoFileError::UpstreamFileTooLarge)
    } else {
        Ok(current + chunk)
    }
}

/// The upstream URLs the remote phase asks, each once, in the order the
/// expanded configurations name them.
pub fn remote_targets(configs: &Vec<&Repository>) -> (r: Vec<(usize, usize)>)
    ensures
        forall|j: int| 0 <= j < r@.len() ==> (#[trigger] r@[j]).0 < configs@.len() && r@[j].1 < configs@[r@[j].0 as int].upstreams@.len()
            && configs@[r@[j].0 as int].upstreams@[r@[j].1 as int] is Remote,
        forall|a: int, b: int|
            0 <= a < b < r@.len() ==> remote_url_of(configs@[r@[a].0 as int], r@[a].1 as int) != remote_url_of(
                configs@[r@[b].0 as int],
                r@[b].1 as int,
            ),
        forall|c: int, u: int|
            0 <= c < configs@.len() && 0 <= u < configs@[c].upstreams@.len() && #[trigger] configs@[c].upstreams@[u] is Remote
                ==> exists|j: int|
                0 <= j < r@.len() && remote_url_of(configs@[r@[j].0 as int], r@[j].1 as int) == remote_url_of(configs@[c], u),
{
    let mut out: Vec<(usize, usize)> = Vec::new();
    let mut urls: Vec<String> = Vec::new();
    let mut c: usize = 0;
    while c < configs.len()
        invariant
            c <= configs@.len(),
            out@.len() == urls@.len(),
            forall|j: int| 0 <= j < out@.len() ==> (#[trigger] out@[j]).0 < configs@.len() && out@[j].1 < configs@[out@[j].0 as int].upstreams@.len()
                && configs@[out@[j].0 as int].upstreams@[out@[j].1 as int] is Remote
                && urls@[j]@ == remote_url_of(configs@[out@[j].0 as int], out@[j].1 as int),
            forall|a: int, b: int| 0 <= a < b < urls@.len() ==> urls@[a]@ != urls@[b]@,
            forall|c2: int, u: int|
                0 <= c2 < c && 0 <= u < configs@[c2].upstreams@.len() && #[trigger] configs@[c2].upstreams@[u] is Remote
                    ==> exists|j: int| 0 <= j < urls@.len() && urls@[j]@ == remote_url_of(configs@[c2], u),
        decreases configs.len() - c,
    {
        let cfg: &Repository = configs[c];
        let mut u: usize = 0;
        while u < cfg.upstreams.len()
            invariant
                c < configs@.len(),
                cfg == configs@[c as int],
                u <= cfg.upstreams@.len(),
                out@.len() == urls@.len(),
                forall|j: int| 0 <= j < out@.len() ==> (#[trigger] out@[j]).0 < configs@.len() && out@[j].1 < configs@[out@[j].0 as int].upstreams@.len()
                    && configs@[out@[j].0 as int].upstreams@[out@[j].1 as int] is Remote
                    && urls@[j]@ == remote_url_of(configs@[out@[j].0 as int], out@[j].1 as int),
                forall|a: int, b: int| 0 <= a < b < urls@.len() ==> urls@[a]@ != urls@[b]@,
                forall|c2: int, u2: int|
                    0 <= c2 < c && 0 <= u2 < configs@[c2].upstreams@.len() && #[trigger] configs@[c2].upstreams@[u2] is Remote
                        ==> exists|j: int| 0 <= j < urls@.len() && urls@[j]@ == remote_url_of(configs@[c2], u2),
                forall|u2: int|
                    0 <= u2 < u && #[trigger] cfg.upstreams@[u2] is Remote ==> exists|j: int|
                        0 <= j < urls@.len() && urls@[j]@ == remote_url_of(cfg, u2),
            decreases cfg.upstreams.len() - u,
        {
            match &cfg.upstreams[u] {
                Upstream::Local(_) => {},
                Upstream::Remote(remote) => {
                    let mut seen = false;
                    let mut k: usize = 0;
                    while k < urls.len()
                        invariant
                            k <= urls@.len(),
                            !seen ==> forall|j: int| 0 <= j < k ==> urls@[j]@ != remote.url@,
                            seen ==> exists|j: int| 0 <= j < urls@.len() && urls@[j]@ == remote.url@,
                        decreases urls.len() - k,
                    {
                        if str_eq(urls[k].as_str(), remote.url.as_str()) {
                            seen = true;
                        }
                        k += 1;
                    }
                    if !seen {
                        let ghost before = urls@;
                        urls.push(remote.url.clone());
                        out.push((c, u));
                        assert(urls@[before.len() as int]@ == remote.url@);
                        assert forall|a: int, b: int| 0 <= a < b < urls@.len() implies urls@[a]@ != urls@[b]@ by {
                            if b == before.len() {
                                assert(urls@[a] == before[a]);
                            } else {
                                assert(urls@[a] == before[a] && urls@[b] == before[b]);
                            }
                        }
                        assert forall|c2: int, u2: int|
                            0 <= c2 < c && 0 <= u2 < configs@[c2].upstreams@.len() && #[trigger] configs@[c2].upstreams@[u2] is Remote
                            implies exists|j: int| 0 <= j < urls@.len() && urls@[j]@ == remote_url_of(configs@[c2], u2) by {
                            let j = choose|j: int| 0 <= j < before.len() && before[j]@ == remote_url_of(configs@[c2], u2);
                            assert(urls@[j] == before[j]);
                        }
                        assert forall|u2: int|
                            0 <= u2 < u && #[trigger] cfg.upstreams@[u2] is Remote implies exists|j: int|
                                0 <= j < urls@.len() && urls@[j]@ == remote_url_of(cfg, u2) by {
                            let j = choose|j: int| 0 <= j < before.len() && before[j]@ == remote_url_of(cfg, u2);
                            assert(urls@[j] == before[j]);
                        }
                    }
                    assert(remote_url_of(cfg, u as int) == remote.url@);
                },
            }
            u += 1;
        }
        c += 1;
    }
    assert forall|c2: int, u2: int|
        0 <= c2 < configs@.len() && 0 <= u2 < configs@[c2].upstreams@.len() && #[trigger] configs@[c2].upstreams@[u2] is Remote
        implies exists|j: int|
            0 <= j < out@.len() && remote_url_of(configs@[out@[j].0 as int], out@[j].1 as int) == remote_url_of(configs@[c2], u2) by {
        let j = choose|j: int| 0 <= j < urls@.len() && urls@[j]@ == remote_url_of(configs@[c2], u2);
        assert(urls@[j]@ == remote_url_of(configs@[out@[j].0 as int], out@[j].1 as int));
    }
    out
}

/// The URL of the `u`-th upstream of `c`, where that upstream is remote.
pub open spec fn remote_url_of(c: &Repository, u: int) -> Seq<char> {
    match c.upstreams@[u] {
        Upstream::Remote(r) => r.url@,
        Upstream::Local(_) => Seq::empty(),
    }
}

} // verus!
