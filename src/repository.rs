//! Repository configuration: its settings, upstreams and access tokens, the
//! merge with the main configuration, and the authorization check.
use vstd::prelude::*;
use crate::auth::BasicAuthentication;
use crate::text::str_eq;

verus! {

/// Default upper bound on the size of a stored file: 4 GiB.
pub const DEFAULT_MAX_FILE_SIZE: u64 = 4294967296;

/// Default freshness window of a cached file: five minutes, in milliseconds.
pub const DEFAULT_FRESH_MILLIS: u64 = 300000;

#[derive(Clone, Debug)]
pub struct Header {
    pub name: String,
    pub value: String,
}

#[derive(Clone, Debug)]
pub struct LocalUpstream {
    pub path: String,
}

#[derive(Clone, Debug)]
pub struct RemoteUpstream {
    pub url: String,
    /// End-to-end timeout of a request, in milliseconds.
    pub timeout: u64,
    /// Freshness window of files fetched from here, in milliseconds.
    pub time_fresh: Option<u64>,
}

#[derive(Clone, Debug)]
pub enum Upstream {
    Local(LocalUpstream),
    Remote(RemoteUpstream),
}

#[derive(Clone, Copy, Debug, PartialEq, Eq, Structural)]
pub struct PathAuthorization {
    pub read: bool,
    pub put: bool,
    pub delete: bool,
}

#[derive(Clone, Debug)]
pub struct Token {
    /// The bcrypt hash of the token's password.
    pub hash: String,
    /// The permissions of each path, keyed by the exact path.
    pub paths: Vec<(String, PathAuthorization)>,
}

#[derive(Clone, Debug)]
pub struct Repository {
    pub stores_remote_upstream: Option<bool>,
    pub publicly_readable: Option<bool>,
    pub hide_directory_listings: Option<bool>,
    pub infer_content_type_on_file_extension: Option<bool>,
    /// Freshness window, in milliseconds.
    pub time_fresh: Option<u64>,
    pub max_file_size: Option<u64>,
    pub cache_control_file: Vec<Header>,
    pub cache_control_metadata: Vec<Header>,
    pub cache_control_dir_listings: Vec<Header>,
    /// Extra headers per response status code.
    pub cache_control_status_code: Vec<(u16, Vec<Header>)>,
    pub upstreams: Vec<Upstream>,
    /// Access tokens, keyed by user name.
    pub tokens: Vec<(String, Token)>,
}

/// The request methods the authorization check knows.
#[derive(Clone, Copy, Debug, PartialEq, Eq, Structural)]
pub enum Method {
    Get,
    Head,
    Put,
    Delete,
}

/// Why a request was refused by the authorization check.
#[derive(Clone, Copy, Debug, PartialEq, Eq, Structural)]
pub enum AuthFailure {
    /// 401: credentials are missing or do not fit.
    Unauthorized,
    /// 403: the credentials fit, but do not grant the method on the path.
    Forbidden,
    /// 500: the stored password hash could not be checked.
    VerifyFailed,
}

impl AuthFailure {
    pub open spec fn status_spec(self) -> u16 {
        match self {
            AuthFailure::Unauthorized => 401,
            AuthFailure::Forbidden => 403,
            AuthFailure::VerifyFailed => 500,
        }
    }

    /// The response status of the refusal.
    pub fn status(self) -> (r: u16)
        ensures
            r == self.status_spec(),
    {
        match self {
            AuthFailure::Unauthorized => 401,
            AuthFailure::Forbidden => 403,
            AuthFailure::VerifyFailed => 500,
        }
    }
}

impl View for Header {
    type V = (Seq<char>, Seq<char>);

    open spec fn view(&self) -> (Seq<char>, Seq<char>) {
        (self.name@, self.value@)
    }
}

pub open spec fn headers_view(v: Seq<Header>) -> Seq<(Seq<char>, Seq<char>)> {
    v.map_values(|h: Header| h@)
}

impl Header {
    /// A copy of this header.
    pub fn copied(&self) -> (r: Header)
        ensures
            r@ == self@,
    {
        Header { name: self.name.clone(), value: self.value.clone() }
    }
}

/// A copy of a list of headers.
pub fn copy_headers(v: &Vec<Header>) -> (r: Vec<Header>)
    ensures
        headers_view(r@) == headers_view(v@),
{
    let mut out: Vec<Header> = Vec::new();
    let mut i: usize = 0;
    while i < v.len()
        invariant
            i <= v@.len(),
            headers_view(out@) == headers_view(v@.subrange(0, i as int)),
        decreases v.len() - i,
    {
        out.push(v[i].copied());
        assert(headers_view(v@.subrange(0, i + 1)) =~= headers_view(v@.subrange(0, i as int)).push(v@[i as int]@));
        assert(headers_view(out@) =~= headers_view(out@.drop_last()).push(out@.last()@));
        i += 1;
    }
    assert(v@.subrange(0, i as int) =~= v@);
    out
}

/// Appends copies of `extra` to `v`.
pub fn extend_headers(v: &mut Vec<Header>, extra: &Vec<Header>)
    ensures
        headers_view(final(v)@) == headers_view(old(v)@) + headers_view(extra@),
{
    let ghost start = headers_view(v@);
    let mut i: usize = 0;
    while i < extra.len()
        invariant
            i <= extra@.len(),
            headers_view(v@) == start + headers_view(extra@.subrange(0, i as int)),
        decreases extra.len() - i,
    {
        let ghost before = v@;
        v.push(extra[i].copied());
        assert(headers_view(v@) =~= headers_view(before).push(extra@[i as int]@));
        assert(headers_view(extra@.subrange(0, i + 1)) =~= headers_view(extra@.subrange(0, i as int)).push(extra@[i as int]@));
        i += 1;
    }
    assert(extra@.subrange(0, i as int) =~= extra@);
}

/// The index of the last occurrence of `k` in `keys`: in a list of entries
/// read as a map, a later entry overrides an earlier one with the same key.
pub open spec fn last_key<K>(keys: Seq<K>, k: K) -> Option<int>
    decreases keys.len(),
{
    if keys.len() == 0 {
        None
    } else if keys.last() == k {
        Some(keys.len() - 1)
    } else {
        last_key(keys.drop_last(), k)
    }
}

pub proof fn lemma_last_key<K>(keys: Seq<K>, k: K)
    ensures
        match last_key(keys, k) {
            Some(i) => 0 <= i < keys.len() && keys[i] == k,
            None => forall|j: int| 0 <= j < keys.len() ==> keys[j] != k,
        },
    decreases keys.len(),
{
    if keys.len() > 0 {
        lemma_last_key(keys.drop_last(), k);
        if keys.last() != k {
            assert forall|j: int| 0 <= j < keys.len() - 1 implies keys[j] == keys.drop_last()[j] by {}
        }
    }
}

/// A lookup in `a + b` finds `b`'s entry where `b` has the key, else `a`'s.
pub proof fn lemma_last_key_append<K>(a: Seq<K>, b: Seq<K>, k: K)
    ensures
        last_key(a + b, k) == match last_key(b, k) {
            Some(i) => Some(a.len() + i),
            None => last_key(a, k),
        },
    decreases b.len(),
{
    if b.len() == 0 {
        assert(a + b =~= a);
    } else {
        assert((a + b).drop_last() =~= a + b.drop_last());
        lemma_last_key_append(a, b.drop_last(), k);
    }
}

/// The keys of a list of entries.
pub open spec fn string_keys<V>(entries: Seq<(String, V)>) -> Seq<Seq<char>> {
    entries.map_values(|e: (String, V)| e.0@)
}

/// Finds the entry with key `k` that a map reading of the list sees.
pub fn find_key<V>(entries: &Vec<(String, V)>, k: &str) -> (r: Option<usize>)
    ensures
        match r {
            Some(i) => last_key(string_keys(entries@), k@) == Some(i as int) && (i as int) < entries@.len(),
            None => last_key(string_keys(entries@), k@) is None,
        },
{
    let ghost keys = string_keys(entries@);
    let mut i: usize = entries.len();
    assert(keys.subrange(0, i as int) =~= keys);
    while i > 0
        invariant
            i <= entries@.len(),
            keys == string_keys(entries@),
            last_key(keys, k@) == last_key(keys.subrange(0, i as int), k@),
        decreases i,
    {
        let ghost pre = keys.subrange(0, i as int);
        assert(pre.drop_last() =~= keys.subrange(0, i - 1));
        if str_eq(entries[i - 1].0.as_str(), k) {
            return Some(i - 1);
        }
        i -= 1;
    }
    None
}

/// The codes of a list of status-code entries.
pub open spec fn code_keys(entries: Seq<(u16, Vec<Header>)>) -> Seq<u16> {
    entries.map_values(|e: (u16, Vec<Header>)| e.0)
}

/// What the bcrypt check of a password against a stored hash yields: whether
/// they fit, or `None` where the hash cannot be read.
pub uninterp spec fn bcrypt_check(password: Seq<char>, hash: Seq<char>) -> Option<bool>;

#[verifier::external_type_specification]
#[verifier::external_body]
pub struct ExBcryptError(bcrypt::BcryptError);

/// Relies on `bcrypt::verify`: whether the password fits the stored hash, or
/// an error where the hash is malformed.
#[verifier::external_body]
fn bcrypt_verify(password: &str, hash: &str) -> (r: Result<bool, bcrypt::BcryptError>)
    ensures
        match r {
            Ok(b) => bcrypt_check(password@, hash@) == Some(b),
            Err(_) => bcrypt_check(password@, hash@) is None,
        },
{
    bcrypt::verify(password, hash)
}

/// Whether the request method needs credentials under `publicly_readable`.
pub open spec fn needs_auth_spec(publicly_readable: Option<bool>, method: Method) -> bool {
    match method {
        Method::Get | Method::Head => publicly_readable == Some(false),
        _ => true,
    }
}

/// The permission bit for `method`.
pub open spec fn permits(p: PathAuthorization, method: Method) -> bool {
    match method {
        Method::Get | Method::Head => p.read,
        Method::Put => p.put,
        Method::Delete => p.delete,
    }
}

/// the verdict once the token and path entry are found, given what the
/// password check yielded.
pub open spec fn verdict_spec(p: PathAuthorization, method: Method, check: Option<bool>) -> Result<bool, AuthFailure> {
    match check {
        None => Err(AuthFailure::VerifyFailed),
        Some(false) => Err(AuthFailure::Unauthorized),
        Some(true) => if permits(p, method) {
            Ok(true)
        } else {
            Err(AuthFailure::Forbidden)
        },
    }
}

/// Decides a request once the password check has yielded `check`.
pub fn authorize(p: PathAuthorization, method: Method, check: Option<bool>) -> (r: Result<bool, AuthFailure>)
    ensures
        r == verdict_spec(p, method, check),
{
    match check {
        None => Err(AuthFailure::VerifyFailed),
        Some(false) => Err(AuthFailure::Unauthorized),
        Some(true) => {
            let allowed = match method {
                Method::Get | Method::Head => p.read,
                Method::Put => p.put,
                Method::Delete => p.delete,
            };
            if allowed {
                Ok(true)
            } else {
                Err(AuthFailure::Forbidden)
            }
        },
    }
}

impl Repository {
    /// The answer of the authorization check for `method` on `path` with the given credentials:
    /// `Ok(false)` where no credentials are needed, `Ok(true)` where they were
    /// needed and grant the method, else the refusal.
    pub open spec fn auth_spec(
        &self,
        method: Method,
        auth: Option<(Seq<char>, Seq<char>)>,
        path: Seq<char>,
    ) -> Result<bool, AuthFailure> {
        if !needs_auth_spec(self.publicly_readable, method) {
            Ok(false)
        } else {
            match auth {
                None => Err(AuthFailure::Unauthorized),
                Some((user, password)) => match last_key(string_keys(self.tokens@), user) {
                    None => Err(AuthFailure::Unauthorized),
                    Some(t) => {
                        let token = self.tokens@[t].1;
                        match last_key(string_keys(token.paths@), path) {
                            None => Err(AuthFailure::Unauthorized),
                            Some(k) => verdict_spec(
                                token.paths@[k].1,
                                method,
                                bcrypt_check(password, token.hash@),
                            ),
                        }
                    },
                },
            }
        }
    }

    /// Checks whether the request may proceed.
    pub fn check_auth(&self, method: Method, auth: Option<BasicAuthentication>, path: &str) -> (r: Result<
        bool,
        AuthFailure,
    >)
        ensures
            r == self.auth_spec(
                method,
                match auth {
                    Some(a) => Some((a.username@, a.password@)),
                    None => None,
                },
                path@,
            ),
    {
        let needs_auth = match method {
            Method::Get | Method::Head => match self.publicly_readable {
                Some(false) => true,
                _ => false,
            },
            _ => true,
        };
        if !needs_auth {
            return Ok(false);
        }
        let auth = match auth {
            None => {
                return Err(AuthFailure::Unauthorized);
            },
            Some(v) => v,
        };
        let t = match find_key(&self.tokens, auth.username.as_str()) {
            None => {
                return Err(AuthFailure::Unauthorized);
            },
            Some(t) => t,
        };
        let token = &self.tokens[t].1;
        let k = match find_key(&token.paths, path) {
            None => {
                return Err(AuthFailure::Unauthorized);
            },
            Some(k) => k,
        };
        let check = match bcrypt_verify(auth.password.as_str(), token.hash.as_str()) {
            Ok(b) => Some(b),
            Err(_) => None,
        };
        authorize(token.paths[k].1, method, check)
    }

    /// The extra headers configured for responses with status `code`.
    pub open spec fn status_headers(&self, code: u16) -> Seq<(Seq<char>, Seq<char>)> {
        match last_key(code_keys(self.cache_control_status_code@), code) {
            Some(i) => headers_view(self.cache_control_status_code@[i].1@),
            None => Seq::empty(),
        }
    }

    /// Adds the headers configured for status `code` to a response's headers.
    pub fn apply_cache_control(&self, code: u16, headers: &mut Vec<Header>)
        ensures
            headers_view(final(headers)@) == headers_view(old(headers)@) + self.status_headers(code),
    {
        let entries = &self.cache_control_status_code;
        let ghost keys = code_keys(entries@);
        let mut i: usize = entries.len();
        assert(keys.subrange(0, i as int) =~= keys);
        while i > 0
            invariant
                i <= entries@.len(),
                entries == &self.cache_control_status_code,
                keys == code_keys(entries@),
                headers@ == old(headers)@,
                last_key(keys, code) == last_key(keys.subrange(0, i as int), code),
            decreases i,
        {
            let ghost pre = keys.subrange(0, i as int);
            assert(pre.drop_last() =~= keys.subrange(0, i - 1));
            if entries[i - 1].0 == code {
                extend_headers(headers, &entries[i - 1].1);
                return;
            }
            i -= 1;
        }
        assert(headers_view(headers@) + Seq::empty() =~= headers_view(headers@));
    }
}

impl View for Token {
    type V = (Seq<char>, Seq<(Seq<char>, PathAuthorization)>);

    open spec fn view(&self) -> (Seq<char>, Seq<(Seq<char>, PathAuthorization)>) {
        (self.hash@, self.paths@.map_values(|e: (String, PathAuthorization)| (e.0@, e.1)))
    }
}

impl Token {
    /// A copy of this token.
    pub fn copied(&self) -> (r: Token)
        ensures
            r@ == self@,
    {
        let mut paths: Vec<(String, PathAuthorization)> = Vec::new();
        let mut i: usize = 0;
        while i < self.paths.len()
            invariant
                i <= self.paths@.len(),
                paths@.map_values(|e: (String, PathAuthorization)| (e.0@, e.1)) == self.paths@.subrange(
                    0,
                    i as int,
                ).map_values(|e: (String, PathAuthorization)| (e.0@, e.1)),
            decreases self.paths.len() - i,
        {
            let ghost before = paths@;
            paths.push((self.paths[i].0.clone(), self.paths[i].1));
            assert(paths@ == before.push(paths@.last()));
            assert(paths@.last().0@ == self.paths@[i as int].0@);
            assert(paths@.last().1 == self.paths@[i as int].1);
            assert(paths@.map_values(|e: (String, PathAuthorization)| (e.0@, e.1)) =~= before.map_values(
                |e: (String, PathAuthorization)| (e.0@, e.1),
            ).push((self.paths@[i as int].0@, self.paths@[i as int].1)));
            assert(self.paths@.subrange(0, i + 1) =~= self.paths@.subrange(0, i as int).push(self.paths@[i as int]));
            assert(paths@.map_values(|e: (String, PathAuthorization)| (e.0@, e.1)) =~= self.paths@.subrange(
                0,
                i + 1,
            ).map_values(|e: (String, PathAuthorization)| (e.0@, e.1)));
            i += 1;
        }
        assert(self.paths@.subrange(0, i as int) =~= self.paths@);
        Token { hash: self.hash.clone(), paths }
    }
}

/// The token a map reading of the list gives for user `k`.
pub open spec fn token_lookup(entries: Seq<(String, Token)>, k: Seq<char>) -> Option<
    (Seq<char>, Seq<(Seq<char>, PathAuthorization)>),
> {
    match last_key(string_keys(entries), k) {
        Some(i) => Some(entries[i].1@),
        None => None,
    }
}

/// The headers a map reading of the list gives for status `code`.
pub open spec fn status_lookup(entries: Seq<(u16, Vec<Header>)>, code: u16) -> Option<
    Seq<(Seq<char>, Seq<char>)>,
> {
    match last_key(code_keys(entries), code) {
        Some(i) => Some(headers_view(entries[i].1@)),
        None => None,
    }
}

/// A setting of `a`, or `b`'s where `a` has none.
pub open spec fn prefer<T>(a: Option<T>, b: Option<T>) -> Option<T> {
    match a {
        Some(v) => Some(v),
        None => b,
    }
}

/// Entries of `b` override those of `a`.
pub open spec fn override_lookup<T>(a: Option<T>, b: Option<T>) -> Option<T> {
    prefer(b, a)
}

impl Repository {
    /// A configuration with nothing set.
    pub open spec fn is_blank(&self) -> bool {
        &&& self.stores_remote_upstream is None
        &&& self.publicly_readable is None
        &&& self.hide_directory_listings is None
        &&& self.infer_content_type_on_file_extension is None
        &&& self.time_fresh is None
        &&& self.max_file_size is None
        &&& self.cache_control_file@.len() == 0
        &&& self.cache_control_metadata@.len() == 0
        &&& self.cache_control_dir_listings@.len() == 0
        &&& self.cache_control_status_code@.len() == 0
        &&& self.upstreams@.len() == 0
        &&& self.tokens@.len() == 0
    }

    /// Merges the main configuration `other` into this one: this one's
    /// settings win, header lists are concatenated, and `other`'s entries
    /// of the per-status headers and of the tokens override this one's.
    pub fn merge(&mut self, other: &Repository)
        ensures
            final(self).stores_remote_upstream == prefer(old(self).stores_remote_upstream, other.stores_remote_upstream),
            final(self).publicly_readable == prefer(old(self).publicly_readable, other.publicly_readable),
            final(self).hide_directory_listings == prefer(old(self).hide_directory_listings, other.hide_directory_listings),
            final(self).infer_content_type_on_file_extension == prefer(
                old(self).infer_content_type_on_file_extension,
                other.infer_content_type_on_file_extension,
            ),
            final(self).time_fresh == prefer(old(self).time_fresh, other.time_fresh),
            final(self).max_file_size == prefer(old(self).max_file_size, other.max_file_size),
            headers_view(final(self).cache_control_file@) == headers_view(old(self).cache_control_file@)
                + headers_view(other.cache_control_file@),
            headers_view(final(self).cache_control_metadata@) == headers_view(old(self).cache_control_metadata@)
                + headers_view(other.cache_control_metadata@),
            headers_view(final(self).cache_control_dir_listings@) == headers_view(
                old(self).cache_control_dir_listings@,
            ) + headers_view(other.cache_control_dir_listings@),
            forall|code: u16| #[trigger]
                status_lookup(final(self).cache_control_status_code@, code) == override_lookup(
                    status_lookup(old(self).cache_control_status_code@, code),
                    status_lookup(other.cache_control_status_code@, code),
                ),
            forall|k: Seq<char>| #[trigger]
                token_lookup(final(self).tokens@, k) == override_lookup(
                    token_lookup(old(self).tokens@, k),
                    token_lookup(other.tokens@, k),
                ),
            final(self).upstreams == old(self).upstreams,
    {
        if self.stores_remote_upstream.is_none() {
            self.stores_remote_upstream = other.stores_remote_upstream;
        }
        if self.publicly_readable.is_none() {
            self.publicly_readable = other.publicly_readable;
        }
        if self.hide_directory_listings.is_none() {
            self.hide_directory_listings = other.hide_directory_listings;
        }
        if self.infer_content_type_on_file_extension.is_none() {
            self.infer_content_type_on_file_extension = other.infer_content_type_on_file_extension;
        }
        if self.time_fresh.is_none() {
            self.time_fresh = other.time_fresh;
        }
        if self.max_file_size.is_none() {
            self.max_file_size = other.max_file_size;
        }
        extend_headers(&mut self.cache_control_file, &other.cache_control_file);
        extend_headers(&mut self.cache_control_metadata, &other.cache_control_metadata);
        extend_headers(&mut self.cache_control_dir_listings, &other.cache_control_dir_listings);
        extend_status_headers(&mut self.cache_control_status_code, &other.cache_control_status_code);
        extend_tokens(&mut self.tokens, &other.tokens);
    }
}

/// Appends copies of `extra`'s entries, which then override `v`'s.
pub fn extend_tokens(v: &mut Vec<(String, Token)>, extra: &Vec<(String, Token)>)
    ensures
        forall|k: Seq<char>| #[trigger]
            token_lookup(final(v)@, k) == override_lookup(token_lookup(old(v)@, k), token_lookup(extra@, k)),
{
    let ghost start = v@;
    let mut i: usize = 0;
    while i < extra.len()
        invariant
            i <= extra@.len(),
            v@.len() == start.len() + i,
            string_keys(v@) == string_keys(start) + string_keys(extra@.subrange(0, i as int)),
            forall|j: int| 0 <= j < start.len() ==> (#[trigger] v@[j]).1@ == start[j].1@,
            forall|j: int| 0 <= j < i ==> (#[trigger] v@[start.len() + j]).1@ == extra@[j].1@,
        decreases extra.len() - i,
    {
        let ghost before = v@;
        v.push((extra[i].0.clone(), extra[i].1.copied()));
        assert(string_keys(v@) =~= string_keys(before).push(extra@[i as int].0@));
        assert(string_keys(extra@.subrange(0, i + 1)) =~= string_keys(extra@.subrange(0, i as int)).push(
            extra@[i as int].0@,
        ));
        assert(v@[start.len() + i] == v@.last());
        i += 1;
    }
    assert(extra@.subrange(0, i as int) =~= extra@);
    assert forall|k: Seq<char>| #[trigger]
        token_lookup(v@, k) == override_lookup(token_lookup(start, k), token_lookup(extra@, k)) by {
        lemma_last_key_append(string_keys(start), string_keys(extra@), k);
        lemma_last_key(string_keys(extra@), k);
        lemma_last_key(string_keys(start), k);
    }
}

/// Appends copies of `extra`'s entries, which then override `v`'s.
pub fn extend_status_headers(v: &mut Vec<(u16, Vec<Header>)>, extra: &Vec<(u16, Vec<Header>)>)
    ensures
        forall|code: u16| #[trigger]
            status_lookup(final(v)@, code) == override_lookup(status_lookup(old(v)@, code), status_lookup(extra@, code)),
{
    let ghost start = v@;
    let mut i: usize = 0;
    while i < extra.len()
        invariant
            i <= extra@.len(),
            v@.len() == start.len() + i,
            code_keys(v@) == code_keys(start) + code_keys(extra@.subrange(0, i as int)),
            forall|j: int| 0 <= j < start.len() ==> headers_view((#[trigger] v@[j]).1@) == headers_view(start[j].1@),
            forall|j: int| 0 <= j < i ==> headers_view((#[trigger] v@[start.len() + j]).1@) == headers_view(extra@[j].1@),
        decreases extra.len() - i,
    {
        let ghost before = v@;
        v.push((extra[i].0, copy_headers(&extra[i].1)));
        assert(code_keys(v@) =~= code_keys(before).push(extra@[i as int].0));
        assert(code_keys(extra@.subrange(0, i + 1)) =~= code_keys(extra@.subrange(0, i as int)).push(
            extra@[i as int].0,
        ));
        assert(v@[start.len() + i] == v@.last());
        i += 1;
    }
    assert(extra@.subrange(0, i as int) =~= extra@);
    assert forall|code: u16| #[trigger]
        status_lookup(v@, code) == override_lookup(status_lookup(start, code), status_lookup(extra@, code)) by {
        lemma_last_key_append(code_keys(start), code_keys(extra@), code);
        lemma_last_key(code_keys(extra@), code);
        lemma_last_key(code_keys(start), code);
    }
}

impl Default for Repository {
    fn default() -> (r: Self)
        ensures
            r.is_blank(),
    {
        Repository {
            stores_remote_upstream: None,
            publicly_readable: None,
            hide_directory_listings: None,
            infer_content_type_on_file_extension: None,
            time_fresh: None,
            max_file_size: None,
            cache_control_file: Vec::new(),
            cache_control_metadata: Vec::new(),
            cache_control_dir_listings: Vec::new(),
            cache_control_status_code: Vec::new(),
            upstreams: Vec::new(),
            tokens: Vec::new(),
        }
    }
}

} // verus!
