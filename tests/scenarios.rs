use maven_proxy::conditional::{evaluate_conditionals, CondOutcome, ConditionalHeaders};
use maven_proxy::err::{aggregate_status, GetRepoFileError};
use maven_proxy::etag::etag_header;
use maven_proxy::file_metadata::{file_path_to_metadata_path, first_request_headers, FileMetadata};
use maven_proxy::path_info::PathInfo;
use maven_proxy::repository::{Method, Repository};
use maven_proxy::resolve::{get_remote_url, local_step, remote_refusal, request_path, FsKind, LocalStep};
use maven_proxy::serve::{content_hash, header_check, latest_mtime, media_type, redirect_location, FileClass, MediaType};

fn no_conditions() -> ConditionalHeaders {
    ConditionalHeaders { if_none_match: vec![], if_match: vec![], if_modified_since: vec![], if_unmodified_since: vec![] }
}

const BODY: &[u8] = b"PK\x03\x04 jar bytes";

#[test]
fn scenario_local_hit_public() {
    let mut repo = Repository::default();
    repo.publicly_readable = Some(true);
    assert_eq!(repo.check_auth(Method::Get, None, "a/b/c.jar"), Ok(false));
    assert_eq!(local_step(false, true, FsKind::File), LocalStep::OpenFile);
    let hash = content_hash(BODY);
    let outcome = evaluate_conditionals(&no_conditions(), &hash, Some(1_000));
    assert_eq!(outcome.status(), 200);
    assert!(outcome.sends_body());
    let tag = etag_header(&hash);
    assert!(tag.starts_with("\"blake3-") && tag.ends_with('"'));
    assert_eq!(latest_mtime(&vec![Some(1_000)]), Some(1_000));
}

#[test]
fn scenario_remote_fetch_records_source() {
    let url = get_remote_url("https://upstream.example/maven", "a/b/c.jar");
    assert_eq!(url, "https://upstream.example/maven/a/b/c.jar");
    let record = FileMetadata::new_response(url, &vec![], content_hash(BODY), 0);
    assert_eq!(record.url, "https://upstream.example/maven/a/b/c.jar");
    assert_eq!(record.hash, content_hash(BODY));
    assert_eq!(file_path_to_metadata_path("R/a/b/c.jar"), Some("R/a/b/.c.jar.json".to_string()));
}

#[test]
fn scenario_conditional_304() {
    let hash = content_hash(BODY);
    let mut h = no_conditions();
    h.if_none_match.push(etag_header(&hash));
    let outcome = evaluate_conditionals(&h, &hash, Some(0));
    assert_eq!(outcome, CondOutcome::NotModified);
    assert_eq!(outcome.status(), 304);
    assert!(!outcome.sends_body());
}

#[test]
fn scenario_trailing_slash_on_file() {
    let local = local_step(true, true, FsKind::File);
    let mut errors = Vec::new();
    if let LocalStep::Fail(e) = local {
        errors.push(e);
    }
    errors.push(remote_refusal("a/b/c.jar", true).unwrap());
    assert_eq!(aggregate_status(&errors), 404);
    assert_eq!(errors, vec![GetRepoFileError::NotFound, GetRepoFileError::NotFound]);
}

#[test]
fn scenario_directory_redirect() {
    assert_eq!(local_step(false, true, FsKind::Directory), LocalStep::IsADir);
    assert_eq!(redirect_location("/R/a"), "/R/a/");
}

#[test]
fn media_types_by_class() {
    let mut config = Repository::default();
    assert_eq!(media_type(&config, FileClass::Artifact, true), MediaType::Html);
    assert_eq!(media_type(&config, FileClass::Metadata, false), MediaType::Xml);
    assert_eq!(media_type(&config, FileClass::MetadataChecksum, false), MediaType::PlainText);
    assert_eq!(media_type(&config, FileClass::Artifact, false), MediaType::FromExtension);
    config.infer_content_type_on_file_extension = Some(false);
    assert_eq!(media_type(&config, FileClass::Artifact, false), MediaType::Binary);
}

#[test]
fn first_revalidation_asks_since_mtime() {
    let h = first_request_headers(Some(10_000));
    assert_eq!(h.len(), 1);
    assert_eq!(h[0].name, "If-Modified-Since");
    assert_eq!(h[0].value, "Thu, 1 Jan 1970 00:00:10 +0000");
    assert!(first_request_headers(None).is_empty());
    assert!(first_request_headers(Some(i64::MAX)).is_empty());
}

#[test]
fn metadata_document_paths() {
    let info = PathInfo::parse("org/example/h/1.0-SNAPSHOT/h-1.0-20240101.120000-3.jar").ok().unwrap();
    assert_eq!(info.metadata_path("R", false), "R/org/example/h/maven-metadata.xml");
    assert_eq!(info.metadata_path("R", true), "R/org/example/h/1.0-SNAPSHOT/maven-metadata.xml");
}

#[test]
fn response_plan_for_a_file() {
    let mut config = Repository::default();
    config.cache_control_file.push(maven_proxy::repository::Header {
        name: "Cache-Control".to_string(),
        value: "max-age=60".to_string(),
    });
    let hash = content_hash(BODY);
    let plan = header_check(&config, "a/b/c.jar", false, &no_conditions(), &hash, &vec![Some(10_000), Some(5_000)]);
    assert_eq!(plan.outcome, CondOutcome::Serve);
    assert_eq!(plan.status, 200);
    assert_eq!(plan.media, MediaType::FromExtension);
    let names: Vec<&str> = plan.headers.iter().map(|h| h.name.as_str()).collect();
    assert_eq!(names, vec!["ETag", "Last-Modified", "Cache-Control"]);
    assert_eq!(plan.headers[0].value, etag_header(&hash));
    assert_eq!(plan.headers[1].value, "Thu, 1 Jan 1970 00:00:10 +0000");
    let mut h = no_conditions();
    h.if_none_match.push(etag_header(&hash));
    let plan = header_check(&config, "a/maven-metadata.xml", false, &h, &hash, &vec![]);
    assert_eq!(plan.status, 304);
    assert_eq!(plan.media, MediaType::Xml);
    assert_eq!(plan.headers.len(), 1);
}

#[test]
fn request_path_sanity() {
    assert_eq!(request_path("a/b/c.jar"), Ok("a/b/c.jar".to_string()));
    assert_eq!(request_path("a/b/"), Ok("a/b".to_string()));
    assert_eq!(request_path("a/../b"), Err(GetRepoFileError::BadRequestPath));
    assert_eq!(request_path("/etc/passwd"), Err(GetRepoFileError::BadRequestPath));
}
