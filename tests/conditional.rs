use maven_proxy::conditional::{evaluate_conditionals, scan_validators, CondOutcome, ConditionalHeaders, Scan};
use maven_proxy::err::{aggregate_status, GetRepoFileError};
use maven_proxy::etag::{etag_header, ETag, ETagValidator};
use maven_proxy::serve::{content_hash, error_body};

const ABC_BLAKE3_B64: &str = "ZDezrDhGUTP/tjt1JzqNtUjFWEZdedsD/TWcbNW9nYU=";

fn abc_hash() -> [u8; 32] {
    content_hash(b"abc")
}

fn headers(inm: &[&str], im: &[&str], ims: &[&str], ius: &[&str]) -> ConditionalHeaders {
    ConditionalHeaders {
        if_none_match: inm.iter().map(|s| s.to_string()).collect(),
        if_match: im.iter().map(|s| s.to_string()).collect(),
        if_modified_since: ims.iter().map(|s| s.to_string()).collect(),
        if_unmodified_since: ius.iter().map(|s| s.to_string()).collect(),
    }
}

#[test]
fn content_hash_is_blake3() {
    let h = content_hash(b"abc");
    let hex: String = h.iter().map(|b| format!("{:02x}", b)).collect();
    assert_eq!(hex, "6437b3ac38465133ffb63b75273a8db548c558465d79db03fd359c6cd5bd9d85");
    let empty = content_hash(b"");
    let hex: String = empty.iter().map(|b| format!("{:02x}", b)).collect();
    assert_eq!(hex, "af1349b9f5f9a1a6a0404dea36dcc9499bcb25c9adc112b7cc9a93cae41f3262");
}

#[test]
fn etag_header_is_quoted_blake3_base64() {
    let tag = etag_header(&abc_hash());
    assert_eq!(tag, format!("\"blake3-{}\"", ABC_BLAKE3_B64));
    assert_eq!(tag.len(), 2 + 7 + 44);
}

#[test]
fn etag_parse_forms() {
    let t = ETag::parse("\"abc\"").unwrap();
    assert!(!t.weak);
    assert_eq!(t.tag, "abc");
    let w = ETag::parse("W/\"x\"").unwrap();
    assert!(w.weak);
    assert_eq!(w.tag, "x");
    assert!(ETag::parse("abc").is_none());
    assert!(ETag::parse("\"").is_none());
    assert!(ETag::parse("W/abc").is_none());
    let e = ETag::parse("\"\"").unwrap();
    assert_eq!(e.tag, "");
}

#[test]
fn validator_parse_forms() {
    assert!(matches!(ETagValidator::parse("*"), Some(ETagValidator::Any)));
    match ETagValidator::parse("\"a\", W/\"b\",\"c\"") {
        Some(ETagValidator::Tags(v)) => {
            assert_eq!(v.len(), 3);
            assert_eq!(v[0].tag, "a");
            assert!(v[1].weak);
            assert_eq!(v[1].tag, "b");
            assert_eq!(v[2].tag, "c");
        }
        _ => panic!("expected tags"),
    }
    assert!(ETagValidator::parse("\"a\",  \"b\"").is_none());
    assert!(ETagValidator::parse("\"a\", b").is_none());
    assert!(ETagValidator::parse("").is_none());
}

#[test]
fn tag_matches_only_its_digest() {
    let own = ETag::parse(&etag_header(&abc_hash())).unwrap();
    assert!(own.matches(&abc_hash()));
    assert!(!own.matches(&content_hash(b"abd")));
    let plain = ETag::parse(&format!("\"{}\"", ABC_BLAKE3_B64)).unwrap();
    assert!(!plain.matches(&abc_hash()));
    let broken = ETag::parse("\"blake3-@@@\"").unwrap();
    assert!(!broken.matches(&abc_hash()));
    let short = ETag::parse("\"blake3-YWJj\"").unwrap();
    assert!(!short.matches(&abc_hash()));
}

#[test]
fn scan_reads_values_in_order() {
    let own = etag_header(&abc_hash());
    assert_eq!(scan_validators(&vec![], &abc_hash()), Scan::Absent);
    assert_eq!(scan_validators(&vec![own.clone()], &abc_hash()), Scan::Matched);
    assert_eq!(scan_validators(&vec!["\"x\"".to_string()], &abc_hash()), Scan::Unmatched);
    assert_eq!(scan_validators(&vec![own.clone(), "bad".to_string()], &abc_hash()), Scan::Malformed);
    assert_eq!(scan_validators(&vec!["*".to_string(), "bad".to_string()], &abc_hash()), Scan::Matched);
}

#[test]
fn own_etag_in_if_none_match_gives_304() {
    let own = etag_header(&abc_hash());
    let r = evaluate_conditionals(&headers(&[&own], &[], &[], &[]), &abc_hash(), Some(0));
    assert_eq!(r, CondOutcome::NotModified);
    assert_eq!(r.status(), 304);
    assert!(!r.sends_body());
    let listed = format!("\"other\", {}", own);
    let r = evaluate_conditionals(&headers(&[&listed], &[], &[], &[]), &abc_hash(), None);
    assert_eq!(r, CondOutcome::NotModified);
}

#[test]
fn if_none_match_any_gives_304() {
    let r = evaluate_conditionals(&headers(&["*"], &[], &[], &[]), &abc_hash(), Some(0));
    assert_eq!(r, CondOutcome::NotModified);
}

#[test]
fn foreign_if_match_gives_412() {
    let other = etag_header(&content_hash(b"something else"));
    let r = evaluate_conditionals(&headers(&[], &[&other], &[], &[]), &abc_hash(), Some(0));
    assert_eq!(r, CondOutcome::PreconditionFailed);
    assert_eq!(r.status(), 412);
    assert!(!r.sends_body());
    let own = etag_header(&abc_hash());
    let r = evaluate_conditionals(&headers(&[], &[&own], &[], &[]), &abc_hash(), Some(0));
    assert_eq!(r, CondOutcome::Serve);
    let r = evaluate_conditionals(&headers(&[], &["*"], &[], &[]), &abc_hash(), Some(0));
    assert_eq!(r, CondOutcome::Serve);
}

#[test]
fn malformed_validators_give_400() {
    let r = evaluate_conditionals(&headers(&["nope"], &[], &[], &[]), &abc_hash(), Some(0));
    assert_eq!(r, CondOutcome::BadIfNoneMatch);
    assert_eq!(r.status(), 400);
    let r = evaluate_conditionals(&headers(&[], &["nope"], &[], &[]), &abc_hash(), Some(0));
    assert_eq!(r, CondOutcome::BadIfMatch);
}

#[test]
fn modified_since_compares_with_mtime() {
    // 1 Jan 2020 00:00:00 UTC
    let t2020: i64 = 1_577_836_800_000;
    let date = "Wed, 01 Jan 2020 00:00:00 +0000";
    let r = evaluate_conditionals(&headers(&[], &[], &[date], &[]), &abc_hash(), Some(t2020));
    assert_eq!(r, CondOutcome::NotModified);
    let r = evaluate_conditionals(&headers(&[], &[], &[date], &[]), &abc_hash(), Some(t2020 + 1));
    assert_eq!(r, CondOutcome::Serve);
    let r = evaluate_conditionals(&headers(&[], &[], &["yesterday"], &[]), &abc_hash(), Some(t2020));
    assert_eq!(r, CondOutcome::BadDate);
    let r = evaluate_conditionals(&headers(&[], &[], &[date], &[]), &abc_hash(), None);
    assert_eq!(r, CondOutcome::NoModificationTime);
}

#[test]
fn modified_since_ignored_with_if_none_match() {
    let t2020: i64 = 1_577_836_800_000;
    let date = "Wed, 01 Jan 2020 00:00:00 +0000";
    let r = evaluate_conditionals(&headers(&["\"x\""], &[], &[date], &[]), &abc_hash(), Some(t2020));
    assert_eq!(r, CondOutcome::Serve);
    let r = evaluate_conditionals(&headers(&["\"x\""], &[], &["garbage"], &[]), &abc_hash(), None);
    assert_eq!(r, CondOutcome::Serve);
}

#[test]
fn unmodified_since_compares_with_mtime() {
    let t2020: i64 = 1_577_836_800_000;
    let date = "Wed, 01 Jan 2020 00:00:00 +0000";
    let r = evaluate_conditionals(&headers(&[], &[], &[], &[date]), &abc_hash(), Some(t2020));
    assert_eq!(r, CondOutcome::PreconditionFailed);
    let r = evaluate_conditionals(&headers(&[], &[], &[], &[date]), &abc_hash(), Some(t2020 - 1));
    assert_eq!(r, CondOutcome::Serve);
    let r = evaluate_conditionals(&headers(&[], &[], &[], &["bad"]), &abc_hash(), Some(t2020));
    assert_eq!(r, CondOutcome::BadDate);
}

#[test]
fn aggregate_status_intersects_allowed_codes() {
    assert_eq!(aggregate_status(&vec![GetRepoFileError::NotFound]), 404);
    assert_eq!(aggregate_status(&vec![GetRepoFileError::NotFound, GetRepoFileError::FileStartsWithDot]), 404);
    assert_eq!(aggregate_status(&vec![GetRepoFileError::BadRequestPath, GetRepoFileError::FileStartsWithDot]), 400);
    assert_eq!(aggregate_status(&vec![GetRepoFileError::NotFound, GetRepoFileError::BadRequestPath]), 500);
    assert_eq!(aggregate_status(&vec![]), 500);
    assert_eq!(aggregate_status(&vec![GetRepoFileError::UpstreamFileTooLarge]), 500);
    assert_eq!(GetRepoFileError::UpstreamFileTooLarge.get_status_code(), 507);
    assert_eq!(aggregate_status(&vec![GetRepoFileError::PutFileTooLarge]), 413);
    assert_eq!(aggregate_status(&vec![GetRepoFileError::OpenFile, GetRepoFileError::NotFound]), 500);
}

#[test]
fn error_codes_and_texts() {
    assert_eq!(GetRepoFileError::NotFound.get_status_code(), 404);
    assert_eq!(GetRepoFileError::FileStartsWithDot.allowed_status_codes_slice(), vec![400, 404, 500]);
    assert_eq!(GetRepoFileError::Panicked.get_status_code(), 500);
    assert!(GetRepoFileError::NotFound.allows_status(500));
    assert!(!GetRepoFileError::NotFound.allows_status(400));
    assert_eq!(GetRepoFileError::NotFound.get_err(), "File or Directory could not be found");
    assert_eq!(GetRepoFileError::PutFileTooLarge.get_err(), "The file is too Large.");
}

#[test]
fn error_body_has_one_line_per_error() {
    let body = error_body(&vec![GetRepoFileError::NotFound, GetRepoFileError::OpenFile]);
    assert_eq!(body, "File or Directory could not be found\nError whilst opening file\n");
    assert_eq!(error_body(&vec![]), "No error reported, despite being in an error state.\n");
}
