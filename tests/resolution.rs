use maven_proxy::err::{aggregate_status, GetRepoFileError};
use maven_proxy::file_metadata::{
    chunk_matches, classify_revalidation, file_path_to_metadata_path, fresh_window, group_headers, header_time,
    is_fresh, revalidation_targets, FileMetadata, Revalidation,
};
use maven_proxy::repository::{Header, LocalUpstream, RemoteUpstream, Repository, Upstream};
use maven_proxy::resolve::{
    classify_upstream_status, combine, display_dir, downstream_url, get_remote_url, grow_download, local_step,
    remote_refusal, remote_targets, upstream_request_headers, Combined, Found, FsKind, Listing, LocalStep,
};
use maven_proxy::serve::{
    cache_headers, classify_file, content_hash, entries_to_content, is_sidecar_name, latest_mtime,
    redirect_location, sort_strings, str_lt, FileClass,
};
use maven_proxy::timings::ServerTimings;

fn remote(url: &str, fresh: Option<u64>) -> Upstream {
    Upstream::Remote(RemoteUpstream { url: url.to_string(), timeout: 5000, time_fresh: fresh })
}

fn h(name: &str, value: &[u8]) -> (String, Vec<u8>) {
    (name.to_string(), value.to_vec())
}

#[test]
fn local_hit_is_served() {
    assert_eq!(local_step(false, true, FsKind::File), LocalStep::OpenFile);
    assert_eq!(local_step(false, false, FsKind::File), LocalStep::OpenFile);
    assert_eq!(local_step(false, true, FsKind::Missing), LocalStep::Fail(GetRepoFileError::NotFound));
    assert_eq!(local_step(false, true, FsKind::Unreadable), LocalStep::Fail(GetRepoFileError::OpenFile));
}

#[test]
fn directory_without_slash_redirects() {
    assert_eq!(local_step(false, true, FsKind::Directory), LocalStep::IsADir);
    assert_eq!(local_step(false, false, FsKind::Directory), LocalStep::IsADir);
    assert_eq!(redirect_location("/R/a"), "/R/a/");
    assert_eq!(redirect_location("/R/a/"), "/R/a/");
}

#[test]
fn trailing_slash_lists_or_fails() {
    assert_eq!(local_step(true, true, FsKind::Directory), LocalStep::List);
    assert_eq!(local_step(true, true, FsKind::File), LocalStep::Fail(GetRepoFileError::NotFound));
    assert_eq!(local_step(true, true, FsKind::Missing), LocalStep::Fail(GetRepoFileError::NotFound));
    assert_eq!(local_step(true, false, FsKind::Directory), LocalStep::Fail(GetRepoFileError::NotFound));
    assert_eq!(remote_refusal("a/b/c.jar", true), Some(GetRepoFileError::NotFound));
    let errors = vec![GetRepoFileError::NotFound, GetRepoFileError::NotFound];
    assert_eq!(aggregate_status(&errors), 404);
}

#[test]
fn remote_phase_refuses_dot_components() {
    assert_eq!(remote_refusal("a/.b/c.jar", false), Some(GetRepoFileError::FileStartsWithDot));
    assert_eq!(remote_refusal("a/b/.c.jar.json", false), Some(GetRepoFileError::FileStartsWithDot));
    assert_eq!(remote_refusal("a/b/c.jar", false), None);
}

#[test]
fn listing_display_setting() {
    let mut main = Repository::default();
    let mut layer = Repository::default();
    assert!(display_dir(&main, &layer));
    layer.hide_directory_listings = Some(true);
    assert!(!display_dir(&main, &layer));
    main.hide_directory_listings = Some(false);
    assert!(display_dir(&main, &layer));
}

#[test]
fn combine_rules() {
    let a = Listing { entries: vec![("x".to_string(), false), ("d".to_string(), true)], mtimes: vec![Some(1)] };
    let b = Listing { entries: vec![("x".to_string(), true)], mtimes: vec![Some(2), None] };
    match combine(Some(Found::Listing(a)), Found::Listing(b)) {
        Combined::Pending(Found::Listing(m)) => {
            assert_eq!(m.mtimes, vec![Some(1), Some(2), None]);
            assert_eq!(m.entries.len(), 3);
            let last_x = m.entries.iter().rev().find(|e| e.0 == "x").unwrap();
            assert!(last_x.1);
        }
        _ => panic!("listings merge"),
    }
    assert!(matches!(combine(None, Found::File(7)), Combined::Winner(Found::File(7))));
    let l = Listing { entries: vec![], mtimes: vec![] };
    assert!(matches!(combine(Some(Found::Listing(l)), Found::IsADir), Combined::Winner(Found::IsADir)));
    let l = Listing { entries: vec![], mtimes: vec![] };
    assert!(matches!(combine(Some(Found::Listing(l)), Found::Passthrough(1)), Combined::Winner(Found::Passthrough(1))));
    let l = Listing { entries: vec![], mtimes: vec![] };
    assert!(matches!(combine(None, Found::Listing(l)), Combined::Pending(Found::Listing(_))));
}

#[test]
fn upstream_url_composition() {
    assert_eq!(get_remote_url("https://u.example/maven/", "a/b/c.jar"), "https://u.example/maven/a/b/c.jar");
    assert_eq!(get_remote_url("https://u.example/maven", "a/b/c.jar"), "https://u.example/maven/a/b/c.jar");
    assert_eq!(get_remote_url("https://u.example/maven", "/a"), "https://u.example/maven/a");
}

#[test]
fn downstream_link() {
    assert_eq!(downstream_url(Some("https"), false, Some("proxy.local"), "a/b"), "https://proxy.local/a/b");
    assert_eq!(downstream_url(None, true, None, "/a"), "https://unknown-host/a");
    assert_eq!(downstream_url(None, false, Some("h"), "a"), "http://h/a");
    let hs = upstream_request_headers("http://h/a", Some("10.0.0.1"));
    assert_eq!(hs.len(), 2);
    assert_eq!(hs[0].name, "X-Downstream-Repo-Link");
    assert_eq!(hs[1].name, "X-Forwarded-For");
    assert_eq!(hs[1].value, "10.0.0.1");
    assert!(upstream_request_headers("", None).is_empty());
}

#[test]
fn upstream_status_and_size() {
    assert_eq!(classify_upstream_status(200), Ok(()));
    assert_eq!(classify_upstream_status(404), Err(GetRepoFileError::NotFound));
    assert_eq!(classify_upstream_status(503), Err(GetRepoFileError::UpstreamStatus));
    assert_eq!(grow_download(0, 5, 10), Ok(5));
    assert_eq!(grow_download(5, 5, 10), Err(GetRepoFileError::UpstreamFileTooLarge));
    assert_eq!(grow_download(0, u64::MAX, 10), Err(GetRepoFileError::UpstreamFileTooLarge));
}

#[test]
fn remote_targets_are_deduplicated() {
    let mut a = Repository::default();
    a.upstreams.push(remote("https://one", None));
    a.upstreams.push(Upstream::Local(LocalUpstream { path: "b".to_string() }));
    let mut b = Repository::default();
    b.upstreams.push(remote("https://one", None));
    b.upstreams.push(remote("https://two", None));
    let targets = remote_targets(&vec![&a, &b]);
    assert_eq!(targets, vec![(0, 0), (1, 1)]);
}

#[test]
fn file_classes_and_cache_headers() {
    assert_eq!(classify_file("g/h/maven-metadata.xml"), FileClass::Metadata);
    assert_eq!(classify_file("g/h/maven-metadata.xml.sha1"), FileClass::MetadataChecksum);
    assert_eq!(classify_file("maven-metadata.xml.md5"), FileClass::MetadataChecksum);
    assert_eq!(classify_file("g/h/maven-metadata.xml.asc"), FileClass::Artifact);
    assert_eq!(classify_file("g/h/1.0/h-1.0.jar"), FileClass::Artifact);
    let mut c = Repository::default();
    c.cache_control_file.push(Header { name: "F".to_string(), value: "1".to_string() });
    c.cache_control_metadata.push(Header { name: "M".to_string(), value: "1".to_string() });
    c.cache_control_dir_listings.push(Header { name: "D".to_string(), value: "1".to_string() });
    assert_eq!(cache_headers(&c, true, FileClass::Artifact)[0].name, "D");
    assert_eq!(cache_headers(&c, false, FileClass::Metadata)[0].name, "M");
    assert_eq!(cache_headers(&c, false, FileClass::MetadataChecksum)[0].name, "M");
    assert_eq!(cache_headers(&c, false, FileClass::Artifact)[0].name, "F");
}

#[test]
fn latest_modification_time() {
    assert_eq!(latest_mtime(&vec![Some(3), None, Some(9), Some(4)]), Some(9));
    assert_eq!(latest_mtime(&vec![None]), None);
    assert_eq!(latest_mtime(&vec![]), None);
}

#[test]
fn sidecar_names_are_hidden() {
    assert!(is_sidecar_name(".c.jar.json"));
    assert!(!is_sidecar_name("c.jar.json"));
    assert!(!is_sidecar_name(".hidden"));
}

#[test]
fn listing_page_is_sorted_html() {
    let l = Listing {
        entries: vec![("b.jar".to_string(), false), ("a".to_string(), true), ("b.jar".to_string(), false)],
        mtimes: vec![],
    };
    let html = entries_to_content(&l);
    assert_eq!(
        html,
        "<!DOCTYPE HTML><html><head><meta charset=\"utf-8\"><meta name=\"color-scheme\" content=\"dark light\"></head><body><ul><li><a href=\"a/\">a/</a></li><li><a href=\"b.jar\">b.jar</a></li></ul></body></html>"
    );
    let sorted = sort_strings(vec!["b".to_string(), "a".to_string(), "ab".to_string(), "".to_string()]);
    assert_eq!(sorted, vec!["".to_string(), "a".to_string(), "ab".to_string(), "b".to_string()]);
    assert!(str_lt("a", "b"));
    assert!(!str_lt("b", "a"));
    assert!(str_lt("a", "ab"));
    assert!(!str_lt("a", "a"));
    assert_eq!(content_hash(html.as_bytes()).len(), 32);
}

#[test]
fn response_record_reads_dates() {
    let headers = vec![
        h("date", b"Wed, 01 Jan 2020 00:00:00 +0000"),
        h("etag", b"\"x\""),
        h("etag", b"\"y\""),
        h("x-bin", &[0xff, 0xfe]),
    ];
    let m = FileMetadata::new_response("https://u/a".to_string(), &headers, [7u8; 32], 5);
    assert_eq!(m.local_last_checked, 1_577_836_800_000);
    assert_eq!(m.local_last_modified, 1_577_836_800_000);
    assert_eq!(m.hash, [7u8; 32]);
    let etags = &m.header_map.iter().find(|e| e.0 == "etag").unwrap().1;
    assert_eq!(etags, &vec!["\"x\"".to_string(), "\"y\"".to_string()]);
    assert!(m.header_map.iter().all(|e| e.0 != "x-bin"));
    let none = FileMetadata::new_response("u".to_string(), &vec![], [0u8; 32], 42);
    assert_eq!(none.local_last_checked, 42);
    assert_eq!(none.local_last_modified, 42);
    let lm = vec![h("last-modified", b"Thu, 01 Jan 1970 00:00:01 +0000"), h("date", b"garbage")];
    let m = FileMetadata::new_response("u".to_string(), &lm, [0u8; 32], 42);
    assert_eq!(m.local_last_checked, 42);
    assert_eq!(m.local_last_modified, 1000);
    assert_eq!(header_time(&vec![h("date", b"Thu, 01 Jan 1970 00:00:01 \x01")], "date"), None);
    assert_eq!(group_headers(&vec![h("a", b"1"), h("b", b"2"), h("a", b"3")]).len(), 2);
}

#[test]
fn revalidation_never_moves_last_modified_back() {
    let old = FileMetadata::new_response("u".to_string(), &vec![], [0u8; 32], 1000);
    let newer = FileMetadata::new_response("u".to_string(), &vec![], [1u8; 32], 500);
    let r = old.revalidated(newer);
    assert_eq!(r.local_last_modified, 1000);
    assert_eq!(r.local_last_checked, 500);
    assert_eq!(r.hash, [1u8; 32]);
    let later = FileMetadata::new_response("u".to_string(), &vec![], [1u8; 32], 2000);
    assert_eq!(r.revalidated(later).local_last_modified, 2000);
}

#[test]
fn record_upstream_and_freshness() {
    let mut c = Repository::default();
    c.time_fresh = Some(60_000);
    c.upstreams.push(Upstream::Local(LocalUpstream { path: "x".to_string() }));
    c.upstreams.push(remote("https://one/maven", Some(1000)));
    let m = FileMetadata::new_response("https://one/maven/a/b.jar".to_string(), &vec![], [0u8; 32], 0);
    assert_eq!(m.get_upstream(&c), Some(1));
    assert_eq!(fresh_window(&c, Some(1)), 1000);
    assert_eq!(fresh_window(&c, None), 60_000);
    assert_eq!(fresh_window(&Repository::default(), None), 300_000);
    let other = FileMetadata::new_response("https://two/a".to_string(), &vec![], [0u8; 32], 0);
    assert_eq!(other.get_upstream(&c), None);
    assert!(is_fresh(1000, 0, 1000));
    assert!(!is_fresh(1001, 0, 1000));
    assert!(!is_fresh(0, 1, 1000));
}

#[test]
fn revalidation_request_headers() {
    let headers = vec![h("etag", b"\"x\""), h("etag", b"\"y\""), h("last-modified", b"Thu, 01 Jan 1970 00:00:10 +0000")];
    let m = FileMetadata::new_response("u".to_string(), &headers, [0u8; 32], 5000);
    let req = m.get_request_headers();
    assert_eq!(req.len(), 2);
    assert_eq!(req[0].name, "If-None-Match");
    assert_eq!(req[0].value, "\"x\", \"y\"");
    assert_eq!(req[1].name, "If-Modified-Since");
    assert_eq!(req[1].value, "Thu, 1 Jan 1970 00:00:10 +0000");
}

#[test]
fn revalidation_target_choice() {
    let mut c = Repository::default();
    c.upstreams.push(remote("https://one/maven", None));
    c.upstreams.push(remote("https://two/maven/", None));
    let t = revalidation_targets(&c, Some("https://one/maven/a/b.jar"), "a/b.jar");
    assert_eq!(t, vec![(5000, "https://one/maven/a/b.jar".to_string())]);
    let t = revalidation_targets(&c, None, "a/b.jar");
    assert_eq!(
        t,
        vec![(5000, "https://one/maven/a/b.jar".to_string()), (5000, "https://two/maven/a/b.jar".to_string())]
    );
    let t = revalidation_targets(&c, Some("https://elsewhere/a/b.jar"), "a/b.jar");
    assert_eq!(t.len(), 2);
    assert_eq!(classify_revalidation(304), Revalidation::NotModified);
    assert_eq!(classify_revalidation(200), Revalidation::Modified);
    assert_eq!(classify_revalidation(500), Revalidation::Failed);
}

#[test]
fn cached_bytes_comparison() {
    assert!(chunk_matches(b"abcdef", 2, b"cd"));
    assert!(!chunk_matches(b"abcdef", 2, b"cx"));
    assert!(!chunk_matches(b"abcdef", 5, b"fg"));
    assert!(chunk_matches(b"abc", 3, b""));
    assert!(!chunk_matches(b"abc", 4, b""));
}

#[test]
fn sidecar_path_naming() {
    assert_eq!(file_path_to_metadata_path("R/a/b/c.jar"), Some("R/a/b/.c.jar.json".to_string()));
    assert_eq!(file_path_to_metadata_path("c.jar"), Some(".c.jar.json".to_string()));
    assert_eq!(file_path_to_metadata_path("R/a/"), None);
    assert_eq!(file_path_to_metadata_path("R/.."), None);
}

#[test]
fn remote_fetch_and_cache_scenario() {
    let url = get_remote_url("https://u.example/repo", "a/b/c.jar");
    assert_eq!(url, "https://u.example/repo/a/b/c.jar");
    let body = b"artifact bytes";
    let hash = content_hash(body);
    let record = FileMetadata::new_response(url.clone(), &vec![], hash, 0);
    assert_eq!(record.url, "https://u.example/repo/a/b/c.jar");
    assert_eq!(record.hash, content_hash(body));
    assert_eq!(file_path_to_metadata_path("R/a/b/c.jar"), Some("R/a/b/.c.jar.json".to_string()));
}

#[test]
fn server_timing_value() {
    let mut t = ServerTimings::new();
    t.push("a;dur=1");
    t.push("b;dur=2");
    assert_eq!(t.value, "a;dur=1, b;dur=2");
    let mut u = ServerTimings::new();
    u.push_iter_nodelim(&vec!["c;dur=", "3", ";desc=\"x\""]);
    assert_eq!(u.value, "c;dur=3;desc=\"x\"");
    u.push_iter_nodelim(&vec![]);
    assert_eq!(u.value, "c;dur=3;desc=\"x\"");
    t.append(&u);
    assert_eq!(t.value, "a;dur=1, b;dur=2, c;dur=3;desc=\"x\"");
    let empty = ServerTimings::new();
    t.append(&empty);
    assert_eq!(t.value, "a;dur=1, b;dur=2, c;dur=3;desc=\"x\"");
    let mut v = ServerTimings::new();
    v.push_iter_nodelim(&vec!["d"]);
    v.push_iter_nodelim(&vec!["e", "f"]);
    assert_eq!(v.value, "d, ef");
}
