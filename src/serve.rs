//! Shaping a response: cache headers by kind of file, `Last-Modified`, the
//! redirect of a directory, the listing page and the text of errors.
use vstd::prelude::*;
use crate::clock::{format_rfc2822, rfc2822_text, MAX_RFC2822_MILLIS, MIN_RFC2822_MILLIS};
use crate::codec::{blake3_digest, blake3_of};
use crate::conditional::{conditional_outcome, dates_of, evaluate_conditionals, CondOutcome, ConditionalHeaders};
use crate::etag::{etag_header, etag_header_model};
use crate::err::{error_text, GetRepoFileError};
use crate::repository::{copy_headers, headers_view, Header, Repository};
use crate::resolve::Listing;
use crate::text::{strs, ends_with, is_prefix, is_suffix, last_index, lemma_last_index, rfind_char, starts_with, str_eq,
    strip_prefix};

verus! {

/// The kinds of file that get their own cache headers.
#[derive(Clone, Copy, Debug, PartialEq, Eq, Structural)]
pub enum FileClass {
    /// `maven-metadata.xml`, served as XML.
    Metadata,
    /// A checksum of `maven-metadata.xml`, served as plain text.
    MetadataChecksum,
    /// Any other file.
    Artifact,
}

/// The text `maven-metadata.xml`.
pub open spec fn metadata_name() -> Seq<char> {
    "maven-metadata.xml"@
}

/// The file name of a request path: what follows its last `/`.
pub open spec fn file_name_of(path: Seq<char>) -> Seq<char> {
    match last_index(path, '/') {
        Some(i) => path.subrange(i + 1, path.len() as int),
        None => path,
    }
}

pub open spec fn file_class_spec(path: Seq<char>) -> FileClass {
    let name = file_name_of(path);
    if is_prefix(metadata_name(), name) {
        let rest = name.subrange(metadata_name().len() as int, name.len() as int);
        if rest.len() == 0 {
            FileClass::Metadata
        } else if rest == ".md5"@ || rest == ".sha1"@ || rest == ".sha256"@ || rest == ".sha512"@ {
            FileClass::MetadataChecksum
        } else {
            FileClass::Artifact
        }
    } else {
        FileClass::Artifact
    }
}

/// Classifies a request path by its file name.
pub fn classify_file(str_path: &str) -> (r: FileClass)
    ensures
        r == file_class_spec(str_path@),
{
    proof {
        lemma_last_index(str_path@, '/');
    }
    let name = match rfind_char(str_path, '/') {
        Some(i) => {
            let n = str_path.unicode_len();
            str_path.substring_char(i + 1, n)
        },
        None => str_path,
    };
    match strip_prefix(name, "maven-metadata.xml") {
        None => FileClass::Artifact,
        Some(rest) => {
            if rest.unicode_len() == 0 {
                FileClass::Metadata
            } else if str_eq(rest, ".md5") || str_eq(rest, ".sha1") || str_eq(rest, ".sha256") || str_eq(
                rest,
                ".sha512",
            ) {
                FileClass::MetadataChecksum
            } else {
                FileClass::Artifact
            }
        },
    }
}

/// The cache headers for a response: the listing headers for a listing, the
/// metadata headers for metadata and its checksums, else the file headers.
pub open spec fn cache_headers_spec(config: &Repository, dir_listing: bool, class: FileClass) -> Seq<
    (Seq<char>, Seq<char>),
> {
    if dir_listing {
        headers_view(config.cache_control_dir_listings@)
    } else if class == FileClass::Artifact {
        headers_view(config.cache_control_file@)
    } else {
        headers_view(config.cache_control_metadata@)
    }
}

/// Picks the configured cache headers for a response.
pub fn cache_headers(config: &Repository, dir_listing: bool, class: FileClass) -> (r: Vec<Header>)
    ensures
        headers_view(r@) == cache_headers_spec(config, dir_listing, class),
{
    if dir_listing {
        copy_headers(&config.cache_control_dir_listings)
    } else if class == FileClass::Artifact {
        copy_headers(&config.cache_control_file)
    } else {
        copy_headers(&config.cache_control_metadata)
    }
}

/// The media type a response declares.
#[derive(Clone, Copy, Debug, PartialEq, Eq, Structural)]
pub enum MediaType {
    Html,
    Xml,
    PlainText,
    /// Inferred from the file's extension.
    FromExtension,
    Binary,
}

/// The media type of a response: HTML for a listing, XML for metadata,
/// plain text for its checksums, else by extension unless the repository
/// turns that off.
pub fn media_type(config: &Repository, class: FileClass, dir_listing: bool) -> (r: MediaType)
    ensures
        r == if dir_listing {
            MediaType::Html
        } else if class == FileClass::Metadata {
            MediaType::Xml
        } else if class == FileClass::MetadataChecksum {
            MediaType::PlainText
        } else if config.infer_content_type_on_file_extension == Some(false) {
            MediaType::Binary
        } else {
            MediaType::FromExtension
        },
{
    if dir_listing {
        MediaType::Html
    } else {
        match class {
            FileClass::Metadata => MediaType::Xml,
            FileClass::MetadataChecksum => MediaType::PlainText,
            FileClass::Artifact => match config.infer_content_type_on_file_extension {
                Some(false) => MediaType::Binary,
                _ => MediaType::FromExtension,
            },
        }
    }
}

/// The latest of the known modification times.
pub open spec fn latest_spec(times: Seq<Option<i64>>) -> Option<i64>
    decreases times.len(),
{
    if times.len() == 0 {
        None
    } else {
        match (latest_spec(times.drop_last()), times.last()) {
            (Some(a), Some(b)) => Some(if a < b { b } else { a }),
            (Some(a), None) => Some(a),
            (None, t) => t,
        }
    }
}

/// The `Last-Modified` time of merged layers: the latest one known.
pub fn latest_mtime(times: &Vec<Option<i64>>) -> (r: Option<i64>)
    ensures
        r == latest_spec(times@),
        r matches Some(t) ==> forall|i: int| 0 <= i < times@.len() && (#[trigger] times@[i]) is Some ==> times@[i]->0 <= t,
{
    let mut best: Option<i64> = None;
    let mut i: usize = 0;
    assert(times@.subrange(0, 0) =~= Seq::<Option<i64>>::empty());
    while i < times.len()
        invariant
            i <= times@.len(),
            best == latest_spec(times@.subrange(0, i as int)),
            best matches Some(t) ==> forall|j: int| 0 <= j < i && (#[trigger] times@[j]) is Some ==> times@[j]->0 <= t,
            best is None ==> forall|j: int| 0 <= j < i ==> (#[trigger] times@[j]) is None,
        decreases times.len() - i,
    {
        assert(times@.subrange(0, i + 1).drop_last() =~= times@.subrange(0, i as int));
        best = match (best, times[i]) {
            (Some(a), Some(b)) => Some(if a < b { b } else { a }),
            (Some(a), None) => Some(a),
            (None, t) => t,
        };
        i += 1;
    }
    assert(times@.subrange(0, i as int) =~= times@);
    best
}

/// How to answer a request for a file or listing once it is found.
pub struct ResponsePlan {
    pub outcome: CondOutcome,
    pub status: u16,
    pub media: MediaType,
    /// `ETag`, `Last-Modified` where known, then the configured cache headers.
    pub headers: Vec<Header>,
}

/// The `Last-Modified` header of a response, where the time is known and
/// can be written as RFC 2822 text.
pub open spec fn last_modified_headers(mtime: Option<i64>) -> Seq<(Seq<char>, Seq<char>)> {
    match mtime {
        Some(t) => if MIN_RFC2822_MILLIS <= t <= MAX_RFC2822_MILLIS {
            seq![("Last-Modified"@, rfc2822_text(t))]
        } else {
            Seq::empty()
        },
        None => Seq::empty(),
    }
}

pub open spec fn media_spec(config: &Repository, class: FileClass, dir_listing: bool) -> MediaType {
    if dir_listing {
        MediaType::Html
    } else if class == FileClass::Metadata {
        MediaType::Xml
    } else if class == FileClass::MetadataChecksum {
        MediaType::PlainText
    } else if config.infer_content_type_on_file_extension == Some(false) {
        MediaType::Binary
    } else {
        MediaType::FromExtension
    }
}

/// Plans the answer for a found file (or listing) with BLAKE3 digest `hash`
/// whose merged layers were last modified at `mtimes`: the strong
/// entity-tag, `Last-Modified`, the cache headers for its kind, its media
/// type, and the status the conditional headers of the request lead to.
pub fn header_check(
    config: &Repository,
    str_path: &str,
    dir_listing: bool,
    request: &ConditionalHeaders,
    hash: &[u8],
    mtimes: &Vec<Option<i64>>,
) -> (r: ResponsePlan)
    ensures
        r.outcome == conditional_outcome(
            strs(request.if_none_match@),
            strs(request.if_match@),
            dates_of(request.if_modified_since@),
            dates_of(request.if_unmodified_since@),
            hash@,
            latest_spec(mtimes@),
        ),
        r.status == r.outcome.status_spec(),
        r.media == media_spec(config, file_class_spec(str_path@), dir_listing),
        headers_view(r.headers@) == planned_headers(config, str_path@, dir_listing, hash@, mtimes@),
{
    let class = classify_file(str_path);
    let mut headers: Vec<Header> = Vec::new();
    headers.push(Header { name: String::from_str("ETag"), value: etag_header(hash) });
    let mtime = latest_mtime(mtimes);
    match mtime {
        Some(t) => {
            if MIN_RFC2822_MILLIS <= t && t <= MAX_RFC2822_MILLIS {
                headers.push(Header { name: String::from_str("Last-Modified"), value: format_rfc2822(t) });
            }
        },
        None => {},
    }
    let ghost before = headers_view(headers@);
    assert(before =~= seq![("ETag"@, etag_header_model(hash@))] + last_modified_headers(mtime));
    let extra = cache_headers(config, dir_listing, class);
    crate::repository::extend_headers(&mut headers, &extra);
    let outcome = evaluate_conditionals(request, hash, mtime);
    ResponsePlan { outcome, status: outcome.status(), media: media_type(config, class, dir_listing), headers }
}

/// The headers `header_check` plans for a response.
pub open spec fn planned_headers(
    config: &Repository,
    str_path: Seq<char>,
    dir_listing: bool,
    hash: Seq<u8>,
    mtimes: Seq<Option<i64>>,
) -> Seq<(Seq<char>, Seq<char>)> {
    seq![("ETag"@, etag_header_model(hash))] + last_modified_headers(latest_spec(mtimes)) + cache_headers_spec(
        config,
        dir_listing,
        file_class_spec(str_path),
    )
}

/// A served file or listing carries exactly one `ETag` header, the strong
/// tag of its BLAKE3 digest, as long as no configured cache header of its
/// kind is itself named `ETag`.
pub proof fn lemma_single_etag(
    config: &Repository,
    str_path: Seq<char>,
    dir_listing: bool,
    hash: Seq<u8>,
    mtimes: Seq<Option<i64>>,
)
    requires
        forall|i: int|
            0 <= i < cache_headers_spec(config, dir_listing, file_class_spec(str_path)).len() ==> (#[trigger] cache_headers_spec(
                config,
                dir_listing,
                file_class_spec(str_path),
            )[i]).0 != "ETag"@,
    ensures
        planned_headers(config, str_path, dir_listing, hash, mtimes)[0] == ("ETag"@, etag_header_model(hash)),
        forall|i: int|
            0 <= i < planned_headers(config, str_path, dir_listing, hash, mtimes).len() && (#[trigger] planned_headers(
                config,
                str_path,
                dir_listing,
                hash,
                mtimes,
            )[i]).0 == "ETag"@ ==> i == 0,
{
    reveal_strlit("ETag");
    reveal_strlit("Last-Modified");
    let hs = planned_headers(config, str_path, dir_listing, hash, mtimes);
    let lm = last_modified_headers(latest_spec(mtimes));
    let cache = cache_headers_spec(config, dir_listing, file_class_spec(str_path));
    assert("Last-Modified"@ != "ETag"@) by {
        assert("Last-Modified"@.len() != "ETag"@.len());
    }
    assert forall|i: int| 0 <= i < hs.len() && (#[trigger] hs[i]).0 == "ETag"@ implies i == 0 by {
        if i >= 1 + lm.len() {
            assert(hs[i] == cache[i - 1 - lm.len()]);
        } else if i >= 1 {
            assert(hs[i] == lm[i - 1]);
        }
    }
}

/// The location a directory request without trailing slash is sent to.
pub fn redirect_location(path: &str) -> (r: String)
    ensures
        is_suffix(seq!['/'], path@) ==> r@ == path@,
        !is_suffix(seq!['/'], path@) ==> r@ == path@.push('/'),
{
    proof {
        reveal_strlit("/");
    }
    assert("/"@ =~= seq!['/']);
    let mut out = path.to_owned();
    if !ends_with(path, "/") {
        out.append("/");
    }
    out
}

/// A sidecar's file name: `.<name>.json`; listings leave such entries out.
pub fn is_sidecar_name(name: &str) -> (r: bool)
    ensures
        r == (is_prefix(seq!['.'], name@) && is_suffix(".json"@, name@)),
{
    proof {
        reveal_strlit(".");
    }
    assert("."@ =~= seq!['.']);
    starts_with(name, ".") && ends_with(name, ".json")
}

/// The text of a list of errors, one line each.
pub open spec fn error_lines(errors: Seq<GetRepoFileError>) -> Seq<char>
    decreases errors.len(),
{
    if errors.len() == 0 {
        Seq::empty()
    } else {
        error_lines(errors.drop_last()) + error_text(errors.last()) + seq!['\n']
    }
}

pub open spec fn error_body_spec(errors: Seq<GetRepoFileError>) -> Seq<char> {
    if errors.len() == 0 {
        "No error reported, despite being in an error state."@ + seq!['\n']
    } else {
        error_lines(errors)
    }
}

/// The body of an error response.
pub fn error_body(errors: &Vec<GetRepoFileError>) -> (r: String)
    ensures
        r@ == error_body_spec(errors@),
{
    proof {
        reveal_strlit("\n");
    }
    assert("\n"@ =~= seq!['\n']);
    if errors.len() == 0 {
        let mut out = String::from_str("No error reported, despite being in an error state.");
        out.append("\n");
        return out;
    }
    let mut out = String::new();
    let mut i: usize = 0;
    assert(errors@.subrange(0, 0) =~= Seq::<GetRepoFileError>::empty());
    while i < errors.len()
        invariant
            i <= errors@.len(),
            "\n"@ == seq!['\n'],
            out@ == error_lines(errors@.subrange(0, i as int)),
        decreases errors.len() - i,
    {
        assert(errors@.subrange(0, i + 1).drop_last() =~= errors@.subrange(0, i as int));
        out.append(errors[i].get_err());
        out.append("\n");
        i += 1;
    }
    assert(errors@.subrange(0, i as int) =~= errors@);
    out
}

/// `a` comes before `b` in the order of their characters' code points.
pub open spec fn lex_lt(a: Seq<char>, b: Seq<char>) -> bool
    decreases a.len(),
{
    if a.len() == 0 {
        b.len() > 0
    } else if b.len() == 0 {
        false
    } else if a[0] != b[0] {
        a[0] < b[0]
    } else {
        lex_lt(a.drop_first(), b.drop_first())
    }
}

proof fn lemma_lex_trans(a: Seq<char>, b: Seq<char>, c: Seq<char>)
    requires
        lex_lt(a, b),
        lex_lt(b, c),
    ensures
        lex_lt(a, c),
    decreases a.len(),
{
    if a.len() > 0 && b.len() > 0 && c.len() > 0 && a[0] == b[0] && b[0] == c[0] {
        lemma_lex_trans(a.drop_first(), b.drop_first(), c.drop_first());
    }
}

proof fn lemma_lex_total(a: Seq<char>, b: Seq<char>)
    ensures
        a == b || lex_lt(a, b) || lex_lt(b, a),
        !(lex_lt(a, b) && lex_lt(b, a)),
    decreases a.len(),
{
    if a.len() > 0 && b.len() > 0 {
        if a[0] == b[0] {
            lemma_lex_total(a.drop_first(), b.drop_first());
            if a.drop_first() == b.drop_first() {
                assert(a =~= seq![a[0]] + a.drop_first());
                assert(b =~= seq![b[0]] + b.drop_first());
            }
        }
    } else if a.len() == 0 && b.len() == 0 {
        assert(a =~= b);
    }
}

/// Whether `a` sorts before `b`.
pub fn str_lt(a: &str, b: &str) -> (r: bool)
    ensures
        r == lex_lt(a@, b@),
{
    let n = a.unicode_len();
    let m = b.unicode_len();
    let mut i: usize = 0;
    assert(a@.subrange(0, n as int) =~= a@);
    assert(b@.subrange(0, m as int) =~= b@);
    while i < n && i < m
        invariant
            n == a@.len(),
            m == b@.len(),
            i <= n,
            i <= m,
            lex_lt(a@, b@) == lex_lt(a@.subrange(i as int, n as int), b@.subrange(i as int, m as int)),
        decreases n - i,
    {
        let ghost sa = a@.subrange(i as int, n as int);
        let ghost sb = b@.subrange(i as int, m as int);
        assert(sa.drop_first() =~= a@.subrange(i + 1, n as int));
        assert(sb.drop_first() =~= b@.subrange(i + 1, m as int));
        let x = a.get_char(i);
        let y = b.get_char(i);
        if x != y {
            return x < y;
        }
        i += 1;
    }
    i == n && i < m
}

/// Every pair of the list is in order.
pub open spec fn sorted(s: Seq<Seq<char>>) -> bool {
    forall|i: int, j: int| 0 <= i < j < s.len() ==> !lex_lt(#[trigger] s[j], #[trigger] s[i])
}

/// Sorts strings by their characters.
pub fn sort_strings(v: Vec<String>) -> (r: Vec<String>)
    ensures
        sorted(strs(r@)),
        strs(r@).to_multiset() == strs(v@).to_multiset(),
{
    let mut out: Vec<String> = Vec::new();
    let mut i: usize = 0;
    assert(strs(v@).subrange(0, 0) =~= Seq::<Seq<char>>::empty());
    assert(strs(out@) =~= Seq::<Seq<char>>::empty());
    while i < v.len()
        invariant
            i <= v@.len(),
            sorted(strs(out@)),
            strs(out@).to_multiset() == strs(v@).subrange(0, i as int).to_multiset(),
        decreases v.len() - i,
    {
        let x = v[i].clone();
        let mut p: usize = 0;
        while p < out.len() && !str_lt(x.as_str(), out[p].as_str())
            invariant
                p <= out@.len(),
                forall|k: int| 0 <= k < p ==> !lex_lt(x@, #[trigger] strs(out@)[k]),
            decreases out.len() - p,
        {
            p += 1;
        }
        let ghost before = strs(out@);
        assert(x@ == v@[i as int]@);
        out.insert(p, x);
        assert(strs(out@) =~= before.insert(p as int, v@[i as int]@));
        assert forall|a: int, b: int| 0 <= a < b < strs(out@).len() implies !lex_lt(
            #[trigger] strs(out@)[b],
            #[trigger] strs(out@)[a],
        ) by {
            let s = strs(out@);
            if a == p {
                if b > p {
                    let y = before[b - 1];
                    assert(lex_lt(x@, before[p as int]));
                    if p as int != b - 1 {
                        assert(!lex_lt(before[b - 1], before[p as int]));
                        lemma_lex_total(before[p as int], y);
                        if lex_lt(before[p as int], y) {
                            lemma_lex_trans(x@, before[p as int], y);
                        }
                    }
                    lemma_lex_total(x@, y);
                }
            } else if b == p {
                assert(!lex_lt(x@, before[a]));
            } else {
                let a0 = if a < p { a } else { a - 1 };
                let b0 = if b < p { b } else { b - 1 };
                assert(s[a] == before[a0] && s[b] == before[b0]);
            }
        }
        assert(strs(v@).subrange(0, i + 1) =~= strs(v@).subrange(0, i as int).push(v@[i as int]@));
        proof {
            vstd::seq_lib::to_multiset_insert(before, p as int, v@[i as int]@);
            vstd::seq_lib::to_multiset_build(strs(v@).subrange(0, i as int), v@[i as int]@);
        }
        i += 1;
    }
    assert(strs(v@).subrange(0, i as int) =~= strs(v@));
    out
}

/// The name shown for a listing entry: directories get a trailing `/`.
pub open spec fn shown_name(name: Seq<char>, is_dir: bool) -> Seq<char> {
    if is_dir {
        name.push('/')
    } else {
        name
    }
}

/// The names a listing shows: each name once, as its last entry has it.
pub open spec fn shown_names(entries: Seq<(String, bool)>) -> Seq<Seq<char>>
    decreases entries.len(),
{
    if entries.len() == 0 {
        Seq::empty()
    } else {
        let rest = shown_names(entries.drop_last());
        let e = entries.last();
        rest.push(shown_name(e.0@, e.1))
    }
}

/// The list items of a listing page.
pub open spec fn items_html(names: Seq<Seq<char>>) -> Seq<char>
    decreases names.len(),
{
    if names.len() == 0 {
        Seq::empty()
    } else {
        items_html(names.drop_last()) + "<li><a href=\""@ + names.last() + "\">"@ + names.last() + "</a></li>"@
    }
}

pub open spec fn listing_head() -> Seq<char> {
    "<!DOCTYPE HTML><html><head><meta charset=\"utf-8\"><meta name=\"color-scheme\" content=\"dark light\"></head><body><ul>"@
}

pub open spec fn listing_tail() -> Seq<char> {
    "</ul></body></html>"@
}

/// The HTML page of a list of names, in the order given.
pub open spec fn listing_page(names: Seq<Seq<char>>) -> Seq<char> {
    listing_head() + items_html(names) + listing_tail()
}

/// Renders a directory listing as an HTML page: one link per entry name,
/// directories with a trailing `/`, sorted by the shown name; a name that
/// several layers list is shown once, as the last of them has it.
pub fn entries_to_content(listing: &Listing) -> (r: String)
    ensures
        exists|names: Seq<Seq<char>>|
            sorted(names) && names.to_multiset() == shown_names(unique_entries(listing.entries@)).to_multiset()
                && r@ == listing_page(names),
{
    let mut shown: Vec<String> = Vec::new();
    let ghost es = listing.entries@;
    let mut i: usize = 0;
    proof {
        reveal_strlit("/");
    }
    assert(es.subrange(0, 0) =~= Seq::<(String, bool)>::empty());
    while i < listing.entries.len()
        invariant
            i <= es.len(),
            es == listing.entries@,
            "/"@ == seq!['/'],
            strs(shown@) == shown_names(unique_prefix(es, i as int)),
        decreases listing.entries.len() - i,
    {
        let name = listing.entries[i].0.as_str();
        let later = find_later(&listing.entries, i, name);
        let ghost prev = unique_prefix(es, i as int);
        if !later {
            let mut s = name.to_owned();
            if listing.entries[i].1 {
                s.append("/");
            }
            assert(s@ == shown_name(es[i as int].0@, es[i as int].1));
            let ghost before = strs(shown@);
            shown.push(s);
            assert(strs(shown@) =~= before.push(shown_name(es[i as int].0@, es[i as int].1)));
            assert(unique_prefix(es, i + 1) == prev.push(es[i as int]));
            assert(unique_prefix(es, i + 1).drop_last() =~= prev);
        } else {
            assert(unique_prefix(es, i + 1) == prev);
        }
        i += 1;
    }
    assert(unique_prefix(es, es.len() as int) == unique_entries(es));
    let ghost unsorted = strs(shown@);
    let sorted_names = sort_strings(shown);
    let mut out = String::from_str(
        "<!DOCTYPE HTML><html><head><meta charset=\"utf-8\"><meta name=\"color-scheme\" content=\"dark light\"></head><body><ul>",
    );
    let ghost names = strs(sorted_names@);
    let mut k: usize = 0;
    assert(names.subrange(0, 0) =~= Seq::<Seq<char>>::empty());
    assert(out@ =~= listing_head() + items_html(names.subrange(0, 0)));
    while k < sorted_names.len()
        invariant
            k <= names.len(),
            names == strs(sorted_names@),
            out@ == listing_head() + items_html(names.subrange(0, k as int)),
        decreases sorted_names.len() - k,
    {
        assert(names.subrange(0, k + 1).drop_last() =~= names.subrange(0, k as int));
        let e = sorted_names[k].as_str();
        out.append("<li><a href=\"");
        out.append(e);
        out.append("\">");
        out.append(e);
        out.append("</a></li>");
        assert(out@ =~= listing_head() + items_html(names.subrange(0, k + 1)));
        k += 1;
    }
    out.append("</ul></body></html>");
    assert(names.subrange(0, k as int) =~= names);
    assert(out@ =~= listing_page(names));
    out
}

/// The entries among the first `n` whose name does not come again later in the whole list.
pub open spec fn unique_prefix(entries: Seq<(String, bool)>, n: int) -> Seq<(String, bool)>
    decreases n,
{
    if n <= 0 {
        Seq::empty()
    } else {
        let rest = unique_prefix(entries, n - 1);
        if exists|j: int| n - 1 < j < entries.len() && #[trigger] entries[j].0@ == entries[n - 1].0@ {
            rest
        } else {
            rest.push(entries[n - 1])
        }
    }
}

/// The entries whose name does not come again later: one per name.
pub open spec fn unique_entries(entries: Seq<(String, bool)>) -> Seq<(String, bool)> {
    unique_prefix(entries, entries.len() as int)
}

/// Whether the name comes again after position `i`.
fn find_later(entries: &Vec<(String, bool)>, i: usize, name: &str) -> (r: bool)
    requires
        i < entries@.len(),
        name@ == entries@[i as int].0@,
    ensures
        r == exists|j: int| i < j < entries@.len() && #[trigger] entries@[j].0@ == name@,
{
    let n = entries.len();
    let mut j: usize = i + 1;
    while j < n
        invariant
            i < j <= entries@.len(),
            n == entries@.len(),
            forall|k: int| i < k < j ==> #[trigger] entries@[k].0@ != name@,
        decreases entries.len() - j,
    {
        if str_eq(entries[j].0.as_str(), name) {
            return true;
        }
        j += 1;
    }
    false
}

/// The BLAKE3 digest of the bytes served: a file's mapping or a listing page.
/// The strong entity-tag is made from it.
pub fn content_hash(data: &[u8]) -> (r: [u8; 32])
    ensures
        r@ == blake3_of(data@),
{
    blake3_digest(data)
}

} // verus!
