use maven_proxy::auth::{AuthHeaderError, BasicAuthentication};
use maven_proxy::locations::get_repo_look_locations;
use maven_proxy::put::{check_put, PutRefusal};
use maven_proxy::repository::{
    AuthFailure, Header, LocalUpstream, Method, PathAuthorization, RemoteUpstream, Repository, Token, Upstream,
};
use maven_proxy::err::GetRepoFileError;

fn header(name: &str, value: &str) -> Header {
    Header { name: name.to_string(), value: value.to_string() }
}

fn local(path: &str) -> Upstream {
    Upstream::Local(LocalUpstream { path: path.to_string() })
}

fn remote(url: &str) -> Upstream {
    Upstream::Remote(RemoteUpstream { url: url.to_string(), timeout: 5000, time_fresh: None })
}

fn creds(user: &str, password: &str) -> BasicAuthentication {
    BasicAuthentication { username: user.to_string(), password: password.to_string() }
}

fn repo_with_token(path: &str, perm: PathAuthorization) -> Repository {
    let mut r = Repository::default();
    let hash = bcrypt::hash("secret", 4).unwrap();
    r.tokens.push(("alice".to_string(), Token { hash, paths: vec![(path.to_string(), perm)] }));
    r
}

const ALL: PathAuthorization = PathAuthorization { read: true, put: true, delete: true };
const READ_ONLY: PathAuthorization = PathAuthorization { read: true, put: false, delete: false };

#[test]
fn merge_prefers_own_settings_and_adds_lists() {
    let mut repo = Repository::default();
    repo.publicly_readable = Some(false);
    repo.cache_control_file.push(header("Cache-Control", "max-age=1"));
    repo.cache_control_status_code.push((404, vec![header("X-A", "repo")]));
    repo.cache_control_status_code.push((500, vec![header("X-B", "repo")]));
    let mut main = Repository::default();
    main.publicly_readable = Some(true);
    main.max_file_size = Some(10);
    main.time_fresh = Some(1000);
    main.cache_control_file.push(header("X-Main", "1"));
    main.cache_control_status_code.push((404, vec![header("X-A", "main")]));
    repo.merge(&main);
    assert_eq!(repo.publicly_readable, Some(false));
    assert_eq!(repo.max_file_size, Some(10));
    assert_eq!(repo.time_fresh, Some(1000));
    assert_eq!(repo.stores_remote_upstream, None);
    let names: Vec<&str> = repo.cache_control_file.iter().map(|h| h.name.as_str()).collect();
    assert_eq!(names, vec!["Cache-Control", "X-Main"]);
    let mut out = Vec::new();
    repo.apply_cache_control(404, &mut out);
    assert_eq!(out.len(), 1);
    assert_eq!(out[0].value, "main");
    let mut out = Vec::new();
    repo.apply_cache_control(500, &mut out);
    assert_eq!(out[0].value, "repo");
    let mut out = vec![header("Keep", "1")];
    repo.apply_cache_control(200, &mut out);
    assert_eq!(out.len(), 1);
}

#[test]
fn merge_lets_main_tokens_override() {
    let mut repo = Repository::default();
    repo.tokens.push(("bob".to_string(), Token { hash: "repo".to_string(), paths: vec![] }));
    let mut main = Repository::default();
    main.tokens.push(("bob".to_string(), Token { hash: "main".to_string(), paths: vec![] }));
    main.tokens.push(("eve".to_string(), Token { hash: "main-eve".to_string(), paths: vec![] }));
    repo.merge(&main);
    let bob: Vec<&str> = repo.tokens.iter().filter(|t| t.0 == "bob").map(|t| t.1.hash.as_str()).collect();
    assert_eq!(bob.last(), Some(&"main"));
    assert!(repo.tokens.iter().any(|t| t.0 == "eve"));
}

#[test]
fn public_reads_need_no_credentials() {
    let repo = Repository::default();
    assert_eq!(repo.check_auth(Method::Get, None, "a/b"), Ok(false));
    assert_eq!(repo.check_auth(Method::Head, None, "a/b"), Ok(false));
    assert_eq!(repo.check_auth(Method::Put, None, "a/b"), Err(AuthFailure::Unauthorized));
    assert_eq!(repo.check_auth(Method::Delete, None, "a/b"), Err(AuthFailure::Unauthorized));
}

#[test]
fn private_reads_need_a_fitting_token() {
    let mut repo = repo_with_token("a/b", READ_ONLY);
    repo.publicly_readable = Some(false);
    assert_eq!(repo.check_auth(Method::Get, None, "a/b"), Err(AuthFailure::Unauthorized));
    assert_eq!(repo.check_auth(Method::Get, Some(creds("alice", "secret")), "a/b"), Ok(true));
    assert_eq!(repo.check_auth(Method::Get, Some(creds("alice", "wrong")), "a/b"), Err(AuthFailure::Unauthorized));
    assert_eq!(repo.check_auth(Method::Get, Some(creds("mallory", "secret")), "a/b"), Err(AuthFailure::Unauthorized));
    assert_eq!(repo.check_auth(Method::Get, Some(creds("alice", "secret")), "a/b/c"), Err(AuthFailure::Unauthorized));
    assert_eq!(repo.check_auth(Method::Put, Some(creds("alice", "secret")), "a/b"), Err(AuthFailure::Forbidden));
    assert_eq!(AuthFailure::Forbidden.status(), 403);
    assert_eq!(AuthFailure::Unauthorized.status(), 401);
}

#[test]
fn malformed_stored_hash_fails_verification() {
    let mut repo = Repository::default();
    repo.tokens.push(("alice".to_string(), Token { hash: "not-a-hash".to_string(), paths: vec![("p".to_string(), ALL)] }));
    assert_eq!(repo.check_auth(Method::Put, Some(creds("alice", "x")), "p"), Err(AuthFailure::VerifyFailed));
    assert_eq!(AuthFailure::VerifyFailed.status(), 500);
}

#[test]
fn basic_header_parsing() {
    let a = BasicAuthentication::parse("Basic dXNlcjpwYXNz").unwrap();
    assert_eq!(a.username, "user");
    assert_eq!(a.password, "pass");
    assert_eq!(BasicAuthentication::parse("Bearer abc").err(), Some(AuthHeaderError::NotBasic));
    assert_eq!(BasicAuthentication::parse("Basic !!!").err(), Some(AuthHeaderError::InvalidBase64));
    assert_eq!(BasicAuthentication::parse("Basic bm9jb2xvbg==").err(), Some(AuthHeaderError::MissingColon));
    assert_eq!(BasicAuthentication::parse("Basic //46eA==").err(), Some(AuthHeaderError::InvalidUtf8));
    let b = BasicAuthentication::parse("Basic dXNlcjpwYXNz").unwrap();
    assert_eq!(b.password.len(), 4);
    assert_eq!(AuthHeaderError::NotBasic.status(), 400);
}

#[test]
fn cyclic_local_upstreams_expand_once() {
    let mut root = Repository::default();
    root.upstreams.push(local("s"));
    root.upstreams.push(remote("https://repo.example/maven"));
    let mut s = Repository::default();
    s.upstreams.push(local("r"));
    s.upstreams.push(local("t"));
    let mut t = Repository::default();
    t.upstreams.push(local("s"));
    t.upstreams.push(local("r"));
    let known = vec![("s".to_string(), s), ("t".to_string(), t)];
    let out = get_repo_look_locations("r", &root, &known);
    assert_eq!(out.paths, vec!["r".to_string(), "s".to_string(), "t".to_string()]);
    assert_eq!(out.sources, vec![0, 1]);
    assert!(out.errors.is_empty());
    assert!(out.missing.is_empty());
}

#[test]
fn missing_local_upstreams_are_reported_once() {
    let mut root = Repository::default();
    root.upstreams.push(local("gone"));
    root.upstreams.push(local("a"));
    let mut a = Repository::default();
    a.upstreams.push(local("gone"));
    let known = vec![("a".to_string(), a)];
    let out = get_repo_look_locations("r", &root, &known);
    assert_eq!(out.paths, vec!["r".to_string(), "a".to_string()]);
    assert_eq!(out.missing, vec!["gone".to_string()]);
    assert_eq!(out.errors, vec![GetRepoFileError::NotFound]);
}

#[test]
fn diamond_upstreams_expand_once() {
    let mut root = Repository::default();
    root.upstreams.push(local("b"));
    root.upstreams.push(local("c"));
    let mut b = Repository::default();
    b.upstreams.push(local("d"));
    let mut c = Repository::default();
    c.upstreams.push(local("d"));
    let d = Repository::default();
    let known = vec![("b".to_string(), b), ("c".to_string(), c), ("d".to_string(), d)];
    let out = get_repo_look_locations("a", &root, &known);
    assert_eq!(out.paths, vec!["a".to_string(), "b".to_string(), "c".to_string(), "d".to_string()]);
}

const SNAPSHOT_PATH: &str = "g/h/1.0-SNAPSHOT/h-1.0-20240101.120000-3.jar";

#[test]
fn put_without_credentials_is_unauthorized() {
    let repo = repo_with_token(SNAPSHOT_PATH, ALL);
    let r = check_put(&repo, None, SNAPSHOT_PATH);
    assert_eq!(r.as_ref().err(), Some(&PutRefusal::Auth(AuthFailure::Unauthorized)));
    assert_eq!(r.err().unwrap().status(), 401);
}

#[test]
fn put_with_read_only_token_is_forbidden() {
    let repo = repo_with_token(SNAPSHOT_PATH, READ_ONLY);
    let r = check_put(&repo, Some(creds("alice", "secret")), SNAPSHOT_PATH);
    assert_eq!(r.as_ref().err(), Some(&PutRefusal::Auth(AuthFailure::Forbidden)));
    assert_eq!(r.err().unwrap().status(), 403);
}

#[test]
fn put_with_fitting_token_parses_the_path() {
    let repo = repo_with_token(SNAPSHOT_PATH, ALL);
    let info = check_put(&repo, Some(creds("alice", "secret")), SNAPSHOT_PATH).ok().unwrap();
    assert_eq!(info.artifact, "h");
    assert_eq!(info.version, "1.0");
}

#[test]
fn put_to_repository_with_upstreams_is_forbidden() {
    let mut repo = repo_with_token(SNAPSHOT_PATH, ALL);
    repo.upstreams.push(remote("https://x.example"));
    let r = check_put(&repo, Some(creds("alice", "secret")), SNAPSHOT_PATH);
    assert_eq!(r.as_ref().err(), Some(&PutRefusal::HasUpstreams));
    assert_eq!(r.err().unwrap().status(), 403);
}
