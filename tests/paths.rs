use maven_proxy::clock::CivilTime;
use maven_proxy::maven_metadata::{MavenMetadata, SnapshotVersions, Versioning, Versions};
use maven_proxy::path_info::{
    append_decimal, components, format_last_updated, get_timestamp_last_updated, parse_decimal, PathError, PathInfo,
};
use maven_proxy::put::{checksum_files, checksum_path, grow_upload};
use maven_proxy::err::GetRepoFileError;

fn empty_metadata() -> MavenMetadata {
    MavenMetadata {
        group_id: "g".to_string(),
        artifact_id: "h".to_string(),
        versioning: Versioning {
            latest: "1.0".to_string(),
            release: "1.0".to_string(),
            versions: None,
            snapshot: None,
            snapshot_versions: None,
            last_updated: None,
        },
    }
}

#[test]
fn snapshot_path_parses() {
    let info = PathInfo::parse("g/h/1.0-SNAPSHOT/h-1.0-20240101.120000-3.jar").ok().unwrap();
    assert_eq!(info.group, vec!["g".to_string()]);
    assert_eq!(info.artifact, "h");
    assert_eq!(info.version, "1.0");
    let s = info.snapshot.as_ref().unwrap();
    assert_eq!(s.timestamp, "20240101.120000");
    assert_eq!(s.build_number, 3);
    assert_eq!(info.classifier, None);
    assert_eq!(info.extension, Some("jar".to_string()));
}

#[test]
fn release_paths_parse() {
    let info = PathInfo::parse("org/example/lib/2.1/lib-2.1.pom").ok().unwrap();
    assert_eq!(info.group, vec!["org".to_string(), "example".to_string()]);
    assert_eq!(info.dotted_group(), "org.example");
    assert_eq!(info.artifact, "lib");
    assert_eq!(info.version, "2.1");
    assert!(info.snapshot.is_none());
    assert_eq!(info.classifier, None);
    assert_eq!(info.extension, Some("pom".to_string()));
    let c = PathInfo::parse("org/lib/2.1/lib-2.1-sources.jar").ok().unwrap();
    assert_eq!(c.classifier, Some("sources".to_string()));
    let s = PathInfo::parse("g/h/1.0-SNAPSHOT/h-1.0-20240101.120000-12-javadoc.jar").ok().unwrap();
    assert_eq!(s.snapshot.as_ref().unwrap().build_number, 12);
    assert_eq!(s.classifier, Some("javadoc".to_string()));
    let n = PathInfo::parse("./g//h/1/h-1").ok().unwrap();
    assert_eq!(n.extension, None);
    assert_eq!(n.version, "1");
    assert_eq!(n.group, vec!["g".to_string()]);
}

#[test]
fn bad_paths_are_refused() {
    assert_eq!(PathInfo::parse("/g/h/1.0/h-1.0.jar").err(), Some(PathError::BadRequestPath));
    assert_eq!(PathInfo::parse("g/../h/1.0/h-1.0.jar").err(), Some(PathError::BadRequestPath));
    assert_eq!(PathInfo::parse("").err(), Some(PathError::MissingFileName));
    assert_eq!(PathInfo::parse("h-1.0.jar").err(), Some(PathError::MissingVersion));
    assert_eq!(PathInfo::parse("1.0/h-1.0.jar").err(), Some(PathError::MissingArtifact));
    assert_eq!(PathInfo::parse("h/1.0/h-1.0.jar").err(), Some(PathError::MissingGroup));
    assert_eq!(PathInfo::parse("g/h/1.0/x-1.0.jar").err(), Some(PathError::NoArtifactPrefix));
    assert_eq!(PathInfo::parse("g/h/1.0/h-2.0.jar").err(), Some(PathError::NoVersion));
    assert_eq!(PathInfo::parse("g/h/1.0/h-1.0x.jar").err(), Some(PathError::NoVersion));
    assert_eq!(PathInfo::parse("g/h/1.0-SNAPSHOT/h-1.0.jar").err(), Some(PathError::NoVersion));
    assert_eq!(PathInfo::parse("g/h/1.0-SNAPSHOT/h-1.0-20240101.jar").err(), Some(PathError::NoSnapshotTimestamp));
    assert_eq!(PathInfo::parse("g/h/1.0-SNAPSHOT/h-1.0-20240101-x.jar").err(), Some(PathError::BadBuildNumber));
    assert_eq!(PathError::NoVersion.status(), 400);
}

#[test]
fn path_components_skip_empty_and_dot() {
    assert_eq!(components("a//b/./c/"), Some(vec!["a".to_string(), "b".to_string(), "c".to_string()]));
    assert_eq!(components("a/../b"), None);
    assert_eq!(components("/a"), None);
}

#[test]
fn decimal_numbers() {
    assert_eq!(parse_decimal("0"), Some(0));
    assert_eq!(parse_decimal("18446744073709551615"), Some(u64::MAX));
    assert_eq!(parse_decimal("18446744073709551616"), None);
    assert_eq!(parse_decimal(""), None);
    assert_eq!(parse_decimal("1a"), None);
    let mut s = String::from("v");
    append_decimal(&mut s, 1207);
    assert_eq!(s, "v1207");
}

#[test]
fn last_updated_format() {
    let t = CivilTime { year: 2024, month: 1, day: 2, hour: 3, minute: 4, second: 5 };
    assert_eq!(format_last_updated(t), "20240102030405");
    let t = CivilTime { year: 999, month: 12, day: 31, hour: 23, minute: 59, second: 59 };
    assert_eq!(format_last_updated(t), "09991231235959");
    let now = get_timestamp_last_updated().unwrap();
    assert_eq!(now.len(), 14);
    assert!(now.chars().all(|c| c.is_ascii_digit()));
}

#[test]
fn snapshot_publish_updates_both_documents() {
    let info = PathInfo::parse("g/h/1.0-SNAPSHOT/h-1.0-20240101.120000-3.jar").ok().unwrap();
    let mut project = info.new_metadata("20240101120000");
    assert_eq!(project.group_id, "g");
    assert_eq!(project.artifact_id, "h");
    assert_eq!(project.versioning.latest, "1.0");
    let mut version_level = empty_metadata();
    let changed = info.put_snapshot(&mut project, &mut version_level, "20240102000000");
    assert!(changed);
    let snap = version_level.versioning.snapshot.as_ref().unwrap();
    assert_eq!(snap.timestamp, "20240101.120000");
    assert_eq!(snap.build_number, 3);
    let builds = &version_level.versioning.snapshot_versions.as_ref().unwrap().snapshot_version;
    assert_eq!(builds.len(), 1);
    assert_eq!(builds[0].value, "1.0-20240101.120000-3");
    assert_eq!(builds[0].extension, Some("jar".to_string()));
    assert_eq!(builds[0].classifier, None);
    assert_eq!(builds[0].updated, "20240102000000");
    assert_eq!(version_level.versioning.last_updated, Some("20240102000000".to_string()));
    let versions = &project.versioning.versions.as_ref().unwrap().version;
    assert_eq!(versions, &vec!["1.0-SNAPSHOT".to_string()]);
    assert_eq!(project.versioning.last_updated, Some("20240102000000".to_string()));
    let again = info.put_snapshot(&mut project, &mut version_level, "20240102000000");
    assert!(!again);
    assert_eq!(version_level.versioning.snapshot_versions.as_ref().unwrap().snapshot_version.len(), 1);
}

#[test]
fn release_publish_adds_version_once() {
    let info = PathInfo::parse("g/h/2.0/h-2.0.jar").ok().unwrap();
    let mut project = empty_metadata();
    project.versioning.versions = Some(Versions { version: vec!["1.0".to_string()] });
    assert!(info.put_release(&mut project, "20240101000000"));
    assert!(!info.put_release(&mut project, "20240101000001"));
    let versions = &project.versioning.versions.as_ref().unwrap().version;
    assert_eq!(versions, &vec!["1.0".to_string(), "2.0".to_string()]);
    assert_eq!(project.versioning.last_updated, Some("20240101000000".to_string()));
}

#[test]
fn snapshot_builds_set_ignores_repeats() {
    let mut set = SnapshotVersions { snapshot_version: vec![] };
    let v = maven_proxy::maven_metadata::SnapshotVersion {
        value: "1.0-1-1".to_string(),
        extension: None,
        classifier: None,
        updated: "x".to_string(),
    };
    let w = maven_proxy::maven_metadata::SnapshotVersion {
        value: "1.0-1-1".to_string(),
        extension: None,
        classifier: None,
        updated: "x".to_string(),
    };
    assert!(set.insert(v));
    assert!(!set.insert(w));
}

#[test]
fn checksum_sidecars_hold_lowercase_hex() {
    let files = checksum_files("R/g/h/1.0/h-1.0.jar", b"abc");
    assert_eq!(files.len(), 4);
    assert_eq!(files[0].0, "R/g/h/1.0/h-1.0.jar.md5");
    assert_eq!(files[0].1, "900150983cd24fb0d6963f7d28e17f72");
    assert_eq!(files[1].0, "R/g/h/1.0/h-1.0.jar.sha1");
    assert_eq!(files[1].1, "a9993e364706816aba3e25717850c26c9cd0d89d");
    assert_eq!(files[2].0, "R/g/h/1.0/h-1.0.jar.sha256");
    assert_eq!(files[2].1, "ba7816bf8f01cfea414140de5dae2223b00361a396177a9cb410ff61f20015ad");
    assert_eq!(files[3].0, "R/g/h/1.0/h-1.0.jar.sha512");
    assert_eq!(
        files[3].1,
        "ddaf35a193617abacc417349ae20413112e6fa4e89a97ea20a9eeee64b55d39a2192992a274fc1a836ba3c23a3feebbd454d4423643ce80e2a9ac94fa54ca49f"
    );
    assert_eq!(checksum_path("x", "md5"), "x.md5");
}

#[test]
fn upload_limit() {
    assert_eq!(grow_upload(0, 10, 10), Ok(10));
    assert_eq!(grow_upload(5, 6, 10), Err(GetRepoFileError::PutFileTooLarge));
    assert_eq!(grow_upload(0, u64::MAX, 10), Err(GetRepoFileError::PutFileTooLarge));
}

#[test]
fn last_updated_of_an_instant() {
    assert_eq!(maven_proxy::path_info::last_updated_at(1_704_110_400_000), Some("20240101120000".to_string()));
    assert_eq!(maven_proxy::path_info::last_updated_at(0), Some("19700101000000".to_string()));
    assert_eq!(maven_proxy::path_info::last_updated_at(i64::MAX), None);
    assert_eq!(maven_proxy::path_info::last_updated_at(i64::MIN), None);
}
