//! The sidecar record kept beside each cached file, and the decisions of
//! re-validating a cached copy against its upstream.
use vstd::prelude::*;
use vstd::utf8::{decode_utf8, valid_utf8};
use crate::clock::{format_rfc2822, parse_rfc2822, rfc2822_millis, rfc2822_text, MAX_RFC2822_MILLIS, MIN_RFC2822_MILLIS};
use crate::codec::utf8_text;
use crate::repository::{last_key, lemma_last_key, string_keys, Header, Repository, Upstream,
    DEFAULT_FRESH_MILLIS};
use crate::resolve::get_remote_url;
use crate::text::{is_prefix, last_index, lemma_last_index, rfind_char, starts_with, str_eq, strs};

verus! {

/// What is known of a cached file: where it came from, the upstream's
/// response headers, when it last changed and was last checked (milliseconds
/// since the epoch), and the BLAKE3 digest of its bytes.
#[derive(Clone, Debug)]
pub struct FileMetadata {
    pub url: String,
    /// Values per lower-case header name.
    pub header_map: Vec<(String, Vec<String>)>,
    pub local_last_modified: i64,
    pub local_last_checked: i64,
    pub hash: [u8; 32],
}

/// The values a map reading of the header map gives for `name`.
pub open spec fn header_lookup(map: Seq<(String, Vec<String>)>, name: Seq<char>) -> Seq<Seq<char>> {
    match last_key(string_keys(map), name) {
        Some(i) => strs(map[i].1@),
        None => Seq::empty(),
    }
}

/// A header value as text: visible ASCII (or tab) only, as `HeaderValue::to_str` accepts.
pub open spec fn visible_ascii(b: Seq<u8>) -> bool {
    forall|i: int| 0 <= i < b.len() ==> ((32 <= #[trigger] b[i] && b[i] < 127) || b[i] == 9)
}

/// The UTF-8 values of the headers named `name`, in order.
pub open spec fn header_values(headers: Seq<(String, Vec<u8>)>, name: Seq<char>) -> Seq<Seq<char>>
    decreases headers.len(),
{
    if headers.len() == 0 {
        Seq::empty()
    } else {
        let rest = header_values(headers.drop_last(), name);
        let h = headers.last();
        if h.0@ == name && valid_utf8(h.1@) {
            rest.push(decode_utf8(h.1@))
        } else {
            rest
        }
    }
}

/// The first header named `name`.
pub open spec fn first_header(headers: Seq<(String, Vec<u8>)>, name: Seq<char>) -> Option<Seq<u8>>
    decreases headers.len(),
{
    if headers.len() == 0 {
        None
    } else if headers[0].0@ == name {
        Some(headers[0].1@)
    } else {
        first_header(headers.drop_first(), name)
    }
}

/// The instant named by the first header `name`, where it is visible ASCII and RFC 2822.
pub open spec fn header_instant(headers: Seq<(String, Vec<u8>)>, name: Seq<char>) -> Option<i64> {
    match first_header(headers, name) {
        Some(b) => if visible_ascii(b) && valid_utf8(b) {
            rfc2822_millis(decode_utf8(b))
        } else {
            None
        },
        None => None,
    }
}

pub open spec fn or_else(a: Option<i64>, b: i64) -> i64 {
    match a {
        Some(v) => v,
        None => b,
    }
}

/// The first header named `name`.
fn find_first_header(headers: &Vec<(String, Vec<u8>)>, name: &str) -> (r: Option<usize>)
    ensures
        match r {
            Some(i) => i < headers@.len() && first_header(headers@, name@) == Some(headers@[i as int].1@),
            None => first_header(headers@, name@) is None,
        },
{
    let mut i: usize = 0;
    assert(headers@.subrange(0, headers@.len() as int) =~= headers@);
    while i < headers.len()
        invariant
            i <= headers@.len(),
            first_header(headers@, name@) == first_header(headers@.subrange(i as int, headers@.len() as int), name@),
        decreases headers.len() - i,
    {
        let ghost rest = headers@.subrange(i as int, headers@.len() as int);
        assert(rest.drop_first() =~= headers@.subrange(i + 1, headers@.len() as int));
        assert(rest[0] == headers@[i as int]);
        if str_eq(headers[i].0.as_str(), name) {
            return Some(i);
        }
        i += 1;
    }
    None
}

/// Reads the instant of the first header `name`.
pub fn header_time(headers: &Vec<(String, Vec<u8>)>, name: &str) -> (r: Option<i64>)
    ensures
        r == header_instant(headers@, name@),
{
    let i = match find_first_header(headers, name) {
        None => {
            return None;
        },
        Some(i) => i,
    };
    let value = &headers[i].1;
    let mut k: usize = 0;
    while k < value.len()
        invariant
            k <= value@.len(),
            first_header(headers@, name@) == Some(value@),
            forall|j: int| 0 <= j < k ==> ((32 <= #[trigger] value@[j] && value@[j] < 127) || value@[j] == 9),
        decreases value.len() - k,
    {
        let b = value[k];
        if !((32 <= b && b < 127) || b == 9) {
            assert(first_header(headers@, name@) == Some(value@));
            assert(!visible_ascii(value@)) by {
                assert(!((32 <= value@[k as int] && value@[k as int] < 127) || value@[k as int] == 9));
            }
            return None;
        }
        k += 1;
    }
    assert(first_header(headers@, name@) == Some(value@));
    assert(visible_ascii(value@));
    match utf8_text(value.as_slice()) {
        None => None,
        Some(text) => parse_rfc2822(text.as_str()),
    }
}

/// Groups the UTF-8 header values by name; values that are not UTF-8 are dropped.
pub fn group_headers(headers: &Vec<(String, Vec<u8>)>) -> (r: Vec<(String, Vec<String>)>)
    ensures
        forall|name: Seq<char>| #[trigger] header_lookup(r@, name) == header_values(headers@, name),
{
    let mut map: Vec<(String, Vec<String>)> = Vec::new();
    let mut i: usize = 0;
    while i < headers.len()
        invariant
            i <= headers@.len(),
            forall|name: Seq<char>| #[trigger]
                header_lookup(map@, name) == header_values(headers@.subrange(0, i as int), name),
        decreases headers.len() - i,
    {
        let ghost pre = headers@.subrange(0, i as int);
        assert(headers@.subrange(0, i + 1).drop_last() =~= pre);
        assert(headers@.subrange(0, i + 1).last() == headers@[i as int]);
        let name = headers[i].0.as_str();
        assert(name@ == headers@[i as int].0@);
        match utf8_text(headers[i].1.as_slice()) {
            None => {},
            Some(text) => {
                let ghost old_map = map@;
                proof {
                    lemma_last_key(string_keys(map@), name@);
                }
                match crate::repository::find_key(&map, name) {
                    Some(j) => {
                        let mut entry = map.remove(j);
                        let ghost removed = map@;
                        entry.1.push(text);
                        map.insert(j, entry);
                        assert(map@ =~= old_map.update(j as int, map@[j as int]));
                        assert(string_keys(map@) =~= string_keys(old_map));
                        assert forall|n: Seq<char>| #[trigger] header_lookup(map@, n) == header_values(
                            headers@.subrange(0, i + 1),
                            n,
                        ) by {
                            assert(header_lookup(old_map, n) == header_values(pre, n));
                            if n == name@ {
                                assert(strs(map@[j as int].1@) =~= strs(old_map[j as int].1@).push(text@));
                            } else {
                                lemma_last_key(string_keys(map@), n);
                                if let Some(x) = last_key(string_keys(map@), n) {
                                    assert(x != j as int);
                                    assert(map@[x] == old_map[x]);
                                }
                            }
                        }
                    },
                    None => {
                        let mut values: Vec<String> = Vec::new();
                        values.push(text);
                        map.push((name.to_owned(), values));
                        assert(string_keys(map@) =~= string_keys(old_map).push(name@));
                        assert forall|n: Seq<char>| #[trigger] header_lookup(map@, n) == header_values(
                            headers@.subrange(0, i + 1),
                            n,
                        ) by {
                            assert(string_keys(map@).drop_last() =~= string_keys(old_map));
                            assert(header_lookup(old_map, n) == header_values(pre, n));
                            if n == name@ {
                                assert(strs(map@.last().1@) =~= seq![text@]);
                                assert(header_values(pre, n) =~= Seq::<Seq<char>>::empty());
                            } else if let Some(x) = last_key(string_keys(map@), n) {
                                lemma_last_key(string_keys(map@), n);
                                assert(map@[x] == old_map[x]);
                            }
                        }
                    },
                }
            },
        }
        i += 1;
    }
    assert(headers@.subrange(0, i as int) =~= headers@);
    map
}

/// When a response was checked: its `Date`, else now.
pub open spec fn checked_spec(headers: Seq<(String, Vec<u8>)>, now: i64) -> i64 {
    or_else(header_instant(headers, "date"@), now)
}

/// When the content last changed: its `Last-Modified`, else when it was checked.
pub open spec fn modified_spec(headers: Seq<(String, Vec<u8>)>, now: i64) -> i64 {
    or_else(header_instant(headers, "last-modified"@), checked_spec(headers, now))
}

impl FileMetadata {
    /// The record of an upstream response: `headers` are its headers with
    /// lower-case names, `now` the current time.
    pub fn new_response(url: String, headers: &Vec<(String, Vec<u8>)>, hash: [u8; 32], now: i64) -> (r: FileMetadata)
        ensures
            r.url@ == url@,
            r.hash@ == hash@,
            r.local_last_checked == checked_spec(headers@, now),
            r.local_last_modified == modified_spec(headers@, now),
            forall|name: Seq<char>| #[trigger] header_lookup(r.header_map@, name) == header_values(headers@, name),
    {
        let checked = match header_time(headers, "date") {
            Some(t) => t,
            None => now,
        };
        let modified = match header_time(headers, "last-modified") {
            Some(t) => t,
            None => checked,
        };
        FileMetadata {
            url,
            header_map: group_headers(headers),
            local_last_modified: modified,
            local_last_checked: checked,
            hash,
        }
    }

    /// The record after a successful re-validation: that of the new response,
    /// except that the time of last change never goes back.
    pub fn revalidated(&self, response: FileMetadata) -> (r: FileMetadata)
        ensures
            r.local_last_modified == if self.local_last_modified > response.local_last_modified {
                self.local_last_modified
            } else {
                response.local_last_modified
            },
            r.local_last_modified >= self.local_last_modified,
            r.local_last_checked == response.local_last_checked,
            r.url == response.url,
            r.header_map == response.header_map,
            r.hash == response.hash,
    {
        let mut r = response;
        if self.local_last_modified > r.local_last_modified {
            r.local_last_modified = self.local_last_modified;
        }
        r
    }

    }

/// The time of last change after re-validations whose responses say, in
/// order, `responses`; each step keeps the later of the old time and the new.
pub open spec fn modified_after(start: i64, responses: Seq<i64>) -> Seq<i64>
    decreases responses.len(),
{
    if responses.len() == 0 {
        seq![start]
    } else {
        let before = modified_after(start, responses.drop_last());
        let last = before.last();
        let next = responses.last();
        before.push(if last > next { last } else { next })
    }
}

/// Across any run of successful re-validations, a file's time of last
/// change never decreases.
pub proof fn lemma_last_modified_monotonic(start: i64, responses: Seq<i64>)
    ensures
        modified_after(start, responses).len() == responses.len() + 1,
        forall|i: int, j: int|
            0 <= i <= j < modified_after(start, responses).len() ==> #[trigger] modified_after(start, responses)[i]
                <= #[trigger] modified_after(start, responses)[j],
    decreases responses.len(),
{
    if responses.len() > 0 {
        lemma_last_modified_monotonic(start, responses.drop_last());
        let before = modified_after(start, responses.drop_last());
        let after = modified_after(start, responses);
        assert forall|i: int, j: int| 0 <= i <= j < after.len() implies #[trigger] after[i] <= #[trigger] after[j] by {
            if j < before.len() {
                assert(after[i] == before[i] && after[j] == before[j]);
            } else if i < before.len() {
                assert(after[i] == before[i]);
                assert(before[i] <= before[before.len() - 1]);
            }
        }
    }
}

impl FileMetadata {
    /// The upstream this record came from: the first remote upstream whose
    /// URL begins the record's URL.
    pub fn get_upstream(&self, config: &Repository) -> (r: Option<usize>)
        ensures
            match r {
                Some(i) => i < config.upstreams@.len() && source_of(config, self.url@, i as int),
                None => forall|i: int| 0 <= i < config.upstreams@.len() ==> !#[trigger] source_of(config, self.url@, i),
            },
            r matches Some(i) ==> forall|j: int| 0 <= j < i ==> !#[trigger] source_of(config, self.url@, j),
    {
        let mut i: usize = 0;
        while i < config.upstreams.len()
            invariant
                i <= config.upstreams@.len(),
                forall|j: int| 0 <= j < i ==> !#[trigger] source_of(config, self.url@, j),
            decreases config.upstreams.len() - i,
        {
            match &config.upstreams[i] {
                Upstream::Remote(remote) => {
                    if starts_with(self.url.as_str(), remote.url.as_str()) {
                        return Some(i);
                    }
                },
                Upstream::Local(_) => {},
            }
            i += 1;
        }
        None
    }

    /// The instant a re-validation asks about: the latest of the record's
    /// two times and of its stored `Last-Modified` and `Date` values.
    pub open spec fn since_spec(&self) -> i64 {
        let own = if self.local_last_checked > self.local_last_modified {
            self.local_last_checked
        } else {
            self.local_last_modified
        };
        latest_over(
            header_lookup(self.header_map@, "date"@),
            latest_over(header_lookup(self.header_map@, "last-modified"@), own),
        )
    }

    /// The headers of a conditional re-validation request: `If-None-Match`
    /// with the stored entity-tags joined by `, ` (where any are stored), and
    /// `If-Modified-Since` with the RFC 2822 text of `since_spec` (where that
    /// instant can be written so).
    pub fn get_request_headers(&self) -> (r: Vec<Header>)
        ensures
            ({
                let has_tags = last_key(string_keys(self.header_map@), "etag"@) is Some;
                let has_date = MIN_RFC2822_MILLIS <= self.since_spec() <= MAX_RFC2822_MILLIS;
                &&& r@.len() == (if has_tags { 1int } else { 0int }) + (if has_date { 1int } else { 0int })
                &&& has_tags ==> r@[0]@ == ("If-None-Match"@, join_comma(header_lookup(self.header_map@, "etag"@)))
                &&& has_date ==> r@.last()@ == ("If-Modified-Since"@, rfc2822_text(self.since_spec()))
            }),
    {
        let mut out: Vec<Header> = Vec::new();
        proof {
            lemma_last_key(string_keys(self.header_map@), "etag"@);
        }
        match crate::repository::find_key(&self.header_map, "etag") {
            Some(i) => {
                let tags = &self.header_map[i].1;
                let ghost tv = strs(tags@);
                let mut joined = String::new();
                let mut k: usize = 0;
                assert(tv.subrange(0, 0) =~= Seq::<Seq<char>>::empty());
                while k < tags.len()
                    invariant
                        k <= tags@.len(),
                        tv == strs(tags@),
                        joined@ == join_comma(tv.subrange(0, k as int)),
                    decreases tags.len() - k,
                {
                    assert(tv.subrange(0, k + 1).drop_last() =~= tv.subrange(0, k as int));
                    if k > 0 {
                        joined.append(", ");
                    }
                    joined.append(tags[k].as_str());
                    k += 1;
                }
                assert(tv.subrange(0, k as int) =~= tv);
                out.push(Header { name: String::from_str("If-None-Match"), value: joined });
            },
            None => {},
        }
        let mut latest = if self.local_last_checked > self.local_last_modified {
            self.local_last_checked
        } else {
            self.local_last_modified
        };
        latest = latest_of_headers(&self.header_map, "last-modified", latest);
        latest = latest_of_headers(&self.header_map, "date", latest);
        if MIN_RFC2822_MILLIS <= latest && latest <= MAX_RFC2822_MILLIS {
            out.push(Header { name: String::from_str("If-Modified-Since"), value: format_rfc2822(latest) });
        }
        out
    }
}

/// Texts joined by `, `.
pub open spec fn join_comma(vals: Seq<Seq<char>>) -> Seq<char>
    decreases vals.len(),
{
    if vals.len() == 0 {
        Seq::empty()
    } else if vals.len() == 1 {
        vals[0]
    } else {
        join_comma(vals.drop_last()) + ", "@ + vals.last()
    }
}

/// The latest of `start` and the instants the RFC 2822 texts among `vals` name.
pub open spec fn latest_over(vals: Seq<Seq<char>>, start: i64) -> i64
    decreases vals.len(),
{
    if vals.len() == 0 {
        start
    } else {
        let l = latest_over(vals.drop_last(), start);
        match rfc2822_millis(vals.last()) {
            Some(t) => if t > l {
                t
            } else {
                l
            },
            None => l,
        }
    }
}

/// The headers of a first re-validation, where the file has no record:
/// `If-Modified-Since` with the file's modification time, where it is known
/// and can be written as RFC 2822 text.
pub fn first_request_headers(mtime: Option<i64>) -> (r: Vec<Header>)
    ensures
        match mtime {
            Some(t) => if MIN_RFC2822_MILLIS <= t <= MAX_RFC2822_MILLIS {
                r@.len() == 1 && r@[0]@ == ("If-Modified-Since"@, rfc2822_text(t))
            } else {
                r@.len() == 0
            },
            None => r@.len() == 0,
        },
{
    let mut out: Vec<Header> = Vec::new();
    match mtime {
        Some(t) => {
            if MIN_RFC2822_MILLIS <= t && t <= MAX_RFC2822_MILLIS {
                out.push(Header { name: String::from_str("If-Modified-Since"), value: format_rfc2822(t) });
            }
        },
        None => {},
    }
    out
}

/// The `i`-th upstream is remote and its URL begins `url`.
pub open spec fn source_of(config: &Repository, url: Seq<char>, i: int) -> bool {
    match config.upstreams@[i] {
        Upstream::Remote(r) => is_prefix(r.url@, url),
        Upstream::Local(_) => false,
    }
}

/// The latest of `start` and the instants of the stored values of header `name`.
fn latest_of_headers(map: &Vec<(String, Vec<String>)>, name: &str, start: i64) -> (r: i64)
    ensures
        r == latest_over(header_lookup(map@, name@), start),
{
    let mut latest = start;
    proof {
        lemma_last_key(string_keys(map@), name@);
    }
    match crate::repository::find_key(map, name) {
        Some(i) => {
            let values = &map[i].1;
            let ghost vv = strs(values@);
            let mut k: usize = 0;
            assert(vv.subrange(0, 0) =~= Seq::<Seq<char>>::empty());
            while k < values.len()
                invariant
                    k <= values@.len(),
                    vv == strs(values@),
                    latest == latest_over(vv.subrange(0, k as int), start),
                decreases values.len() - k,
            {
                assert(vv.subrange(0, k + 1).drop_last() =~= vv.subrange(0, k as int));
                match parse_rfc2822(values[k].as_str()) {
                    Some(t) => {
                        if t > latest {
                            latest = t;
                        }
                    },
                    None => {},
                }
                k += 1;
            }
            assert(vv.subrange(0, k as int) =~= vv);
        },
        None => {},
    }
    latest
}

/// A cached copy is fresh while no more than `fresh` milliseconds have
/// passed since it was last checked, and that check is not in the future.
pub open spec fn is_fresh_spec(now: i64, last_checked: i64, fresh: u64) -> bool {
    0 <= now - last_checked <= fresh
}

/// Whether a cached copy may be served without asking upstream.
pub fn is_fresh(now: i64, last_checked: i64, fresh: u64) -> (r: bool)
    ensures
        r == is_fresh_spec(now, last_checked, fresh),
{
    let diff: i128 = now as i128 - last_checked as i128;
    0 <= diff && diff <= fresh as i128
}

/// The freshness window of a file: its upstream's, else the repository's,
/// else five minutes.
pub fn fresh_window(config: &Repository, upstream: Option<usize>) -> (r: u64)
    requires
        upstream matches Some(i) ==> i < config.upstreams@.len(),
    ensures
        r == match upstream {
            Some(i) => match config.upstreams@[i as int] {
                Upstream::Remote(u) => match u.time_fresh {
                    Some(f) => f,
                    None => match config.time_fresh {
                        Some(f) => f,
                        None => DEFAULT_FRESH_MILLIS,
                    },
                },
                Upstream::Local(_) => match config.time_fresh {
                    Some(f) => f,
                    None => DEFAULT_FRESH_MILLIS,
                },
            },
            None => match config.time_fresh {
                Some(f) => f,
                None => DEFAULT_FRESH_MILLIS,
            },
        },
{
    let own = match upstream {
        Some(i) => match &config.upstreams[i] {
            Upstream::Remote(u) => u.time_fresh,
            Upstream::Local(_) => None,
        },
        None => None,
    };
    match own {
        Some(f) => f,
        None => match config.time_fresh {
            Some(f) => f,
            None => DEFAULT_FRESH_MILLIS,
        },
    }
}

/// The targets of the remote upstreams whose URL begins the record's URL:
/// each its timeout and the record's URL.
pub open spec fn prefix_targets(ups: Seq<Upstream>, record: Seq<char>) -> Seq<(u64, Seq<char>)>
    decreases ups.len(),
{
    if ups.len() == 0 {
        Seq::empty()
    } else {
        let rest = prefix_targets(ups.drop_last(), record);
        match ups.last() {
            Upstream::Remote(u) => if is_prefix(u.url@, record) {
                rest.push((u.timeout, record))
            } else {
                rest
            },
            Upstream::Local(_) => rest,
        }
    }
}

/// The targets of every remote upstream: each its timeout and the request
/// path under its URL.
pub open spec fn path_targets(ups: Seq<Upstream>, path: Seq<char>) -> Seq<(u64, Seq<char>)>
    decreases ups.len(),
{
    if ups.len() == 0 {
        Seq::empty()
    } else {
        let rest = path_targets(ups.drop_last(), path);
        match ups.last() {
            Upstream::Remote(u) => rest.push((u.timeout, crate::resolve::remote_url_spec(u.url@, path))),
            Upstream::Local(_) => rest,
        }
    }
}

/// Where a re-validation asks: with a record, the upstreams it may have come
/// from; where there are none, or no record, every remote upstream.
pub open spec fn targets_spec(ups: Seq<Upstream>, record: Option<Seq<char>>, path: Seq<char>) -> Seq<(u64, Seq<char>)> {
    match record {
        Some(rec) => if prefix_targets(ups, rec).len() > 0 {
            prefix_targets(ups, rec)
        } else {
            path_targets(ups, path)
        },
        None => path_targets(ups, path),
    }
}

pub open spec fn opt_str(o: Option<&str>) -> Option<Seq<char>> {
    match o {
        Some(s) => Some(s@),
        None => None,
    }
}

pub open spec fn targets_view(v: Seq<(u64, String)>) -> Seq<(u64, Seq<char>)> {
    v.map_values(|t: (u64, String)| (t.0, t.1@))
}

/// The timeouts and URLs a re-validation asks, in the order of the upstreams.
pub fn revalidation_targets(config: &Repository, record_url: Option<&str>, str_path: &str) -> (r: Vec<(u64, String)>)
    ensures
        targets_view(r@) == targets_spec(config.upstreams@, opt_str(record_url), str_path@),
{
    let ghost ups = config.upstreams@;
    let mut out: Vec<(u64, String)> = Vec::new();
    match record_url {
        Some(rec) => {
            let mut i: usize = 0;
            assert(ups.subrange(0, 0) =~= Seq::<Upstream>::empty());
            assert(targets_view(out@) =~= Seq::<(u64, Seq<char>)>::empty());
            while i < config.upstreams.len()
                invariant
                    i <= ups.len(),
                    ups == config.upstreams@,
                    targets_view(out@) == prefix_targets(ups.subrange(0, i as int), rec@),
                decreases config.upstreams.len() - i,
            {
                assert(ups.subrange(0, i + 1).drop_last() =~= ups.subrange(0, i as int));
                assert(ups.subrange(0, i + 1).last() == ups[i as int]);
                match &config.upstreams[i] {
                    Upstream::Remote(u) => {
                        if starts_with(rec, u.url.as_str()) {
                            let ghost before = targets_view(out@);
                            out.push((u.timeout, rec.to_owned()));
                            assert(targets_view(out@) =~= before.push((u.timeout, rec@)));
                        }
                    },
                    Upstream::Local(_) => {},
                }
                i += 1;
            }
            assert(ups.subrange(0, i as int) =~= ups);
            if out.len() > 0 {
                return out;
            }
        },
        None => {},
    }
    let mut out: Vec<(u64, String)> = Vec::new();
    let mut i: usize = 0;
    assert(ups.subrange(0, 0) =~= Seq::<Upstream>::empty());
    assert(targets_view(out@) =~= Seq::<(u64, Seq<char>)>::empty());
    while i < config.upstreams.len()
        invariant
            i <= ups.len(),
            ups == config.upstreams@,
            targets_view(out@) == path_targets(ups.subrange(0, i as int), str_path@),
        decreases config.upstreams.len() - i,
    {
        assert(ups.subrange(0, i + 1).drop_last() =~= ups.subrange(0, i as int));
        assert(ups.subrange(0, i + 1).last() == ups[i as int]);
        match &config.upstreams[i] {
            Upstream::Remote(u) => {
                let ghost before = targets_view(out@);
                out.push((u.timeout, get_remote_url(u.url.as_str(), str_path)));
                assert(targets_view(out@) =~= before.push((u.timeout, crate::resolve::remote_url_spec(u.url@, str_path@))));
            },
            Upstream::Local(_) => {},
        }
        i += 1;
    }
    assert(ups.subrange(0, i as int) =~= ups);
    out
}

/// How a re-validation response is taken: 200 brings content, 304 confirms
/// the copy, anything else fails.
#[derive(Clone, Copy, Debug, PartialEq, Eq, Structural)]
pub enum Revalidation {
    Modified,
    NotModified,
    Failed,
}

/// Classifies a re-validation response by its status code.
pub fn classify_revalidation(code: u16) -> (r: Revalidation)
    ensures
        r == if code == 200 {
            Revalidation::Modified
        } else if code == 304 {
            Revalidation::NotModified
        } else {
            Revalidation::Failed
        },
{
    if code == 200 {
        Revalidation::Modified
    } else if code == 304 {
        Revalidation::NotModified
    } else {
        Revalidation::Failed
    }
}

/// Whether a chunk of a re-validation body equals the cached bytes at `pos`.
pub fn chunk_matches(cached: &[u8], pos: usize, chunk: &[u8]) -> (r: bool)
    ensures
        r == (pos + chunk@.len() <= cached@.len() && cached@.subrange(pos as int, pos + chunk@.len()) == chunk@),
{
    let n = cached.len();
    if pos > n || chunk.len() > n - pos {
        return false;
    }
    let mut k: usize = 0;
    while k < chunk.len()
        invariant
            n == cached@.len(),
            pos + chunk@.len() <= n,
            k <= chunk@.len(),
            forall|j: int| 0 <= j < k ==> cached@[pos + j] == chunk@[j],
        decreases chunk.len() - k,
    {
        if cached[pos + k] != chunk[k] {
            assert(cached@.subrange(pos as int, pos + chunk@.len())[k as int] != chunk@[k as int]);
            return false;
        }
        k += 1;
    }
    assert(cached@.subrange(pos as int, pos + chunk@.len()) =~= chunk@);
    true
}

/// The sidecar path of a file: `.<name>.json` in the same directory, or
/// `None` where the path has no file name.
pub open spec fn sidecar_path_spec(path: Seq<char>) -> Option<Seq<char>> {
    let start = match last_index(path, '/') {
        Some(i) => i + 1,
        None => 0,
    };
    let name = path.subrange(start, path.len() as int);
    if name.len() == 0 || name == ".."@ || name == "."@ {
        None
    } else {
        Some(path.subrange(0, start) + "."@ + name + ".json"@)
    }
}

/// Where the sidecar record of the file at `path` lives.
pub fn file_path_to_metadata_path(path: &str) -> (r: Option<String>)
    ensures
        match r {
            Some(s) => sidecar_path_spec(path@) == Some(s@),
            None => sidecar_path_spec(path@) is None,
        },
{
    proof {
        lemma_last_index(path@, '/');
    }
    let n = path.unicode_len();
    let start = match rfind_char(path, '/') {
        Some(i) => i + 1,
        None => 0,
    };
    let name = path.substring_char(start, n);
    if name.unicode_len() == 0 || str_eq(name, "..") || str_eq(name, ".") {
        return None;
    }
    let mut out = path.substring_char(0, start).to_owned();
    out.append(".");
    out.append(name);
    out.append(".json");
    Some(out)
}

} // verus!
