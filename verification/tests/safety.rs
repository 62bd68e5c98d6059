use crabby::config::CrabbyConfig;
use crabby::manifest::CrabbyLock;
use crabby::depmap::DepMap;
use crabby::safety::{
    calculate_checksum, compare_checksum, validate_lockfile, validate_package_json,
    verify_checksum, Checksum, LockfileError, Verdict, CHUNK_SIZE,
};

#[test]
fn test_checksum_calculation() {
    let checksum = calculate_checksum(b"Hello, World!");
    assert!(!checksum.is_empty());
    assert_eq!(checksum, "0a0a9f2a6772942557ab5355d76af442f8f65e01");
}

#[test]
fn test_validate_package_json() {
    let valid_json = r#"{"name": "test", "version": "1.0.0"}"#;
    assert!(validate_package_json(valid_json).is_ok());

    let invalid_json = r#"{"name": "test", "version": }"#;
    assert!(validate_package_json(invalid_json).is_err());
}

#[test]
fn invalid_json_is_reported_with_a_reason() {
    let error = match validate_package_json("{") {
        Ok(()) => panic!("an opening brace alone is no JSON"),
        Err(e) => e,
    };
    assert!(!error.reason.is_empty());
    assert!(error.message().starts_with("Invalid JSON in package.json: "));
    assert!(error.message().ends_with(&error.reason));
}

#[test]
fn checksum_of_nothing_and_of_abc() {
    assert_eq!(calculate_checksum(b""), "da39a3ee5e6b4b0d3255bfef95601890afd80709");
    assert_eq!(calculate_checksum(b"abc"), "a9993e364706816aba3e25717850c26c9cd0d89d");
}

#[test]
fn checksum_of_a_million_bytes_goes_through_many_chunks() {
    let data = vec![b'a'; 1_000_000];
    assert!(data.len() > 100 * CHUNK_SIZE);
    assert_eq!(calculate_checksum(&data), "34aa973cd4c4daa4f61eeb2bdbad27316534016f");
}

#[test]
fn checksum_fed_in_pieces_is_the_checksum_of_the_whole() {
    let mut data = Vec::new();
    for i in 0..20_000u32 {
        data.push((i % 251) as u8);
    }
    let mut running = Checksum::new();
    running.update(&data[..1]);
    running.update(&data[1..CHUNK_SIZE + 7]);
    running.update(&[]);
    running.update(&data[CHUNK_SIZE + 7..]);
    assert_eq!(running.finish(), calculate_checksum(&data));
}

#[test]
fn checksum_is_lowercase_hex_of_forty_digits() {
    let checksum = calculate_checksum(b"crabby");
    assert_eq!(checksum.len(), 40);
    assert!(checksum.chars().all(|c| c.is_ascii_digit() || ('a'..='f').contains(&c)));
}

#[test]
fn verify_without_expected_hash_is_unverifiable() {
    assert_eq!(verify_checksum(b"abc", None), Verdict::Unverifiable);
    assert_eq!(verify_checksum(b"abc", Some("")), Verdict::Unverifiable);
}

#[test]
fn verify_tells_match_from_mismatch() {
    assert_eq!(
        verify_checksum(b"abc", Some("a9993e364706816aba3e25717850c26c9cd0d89d")),
        Verdict::Verified
    );
    assert_eq!(
        verify_checksum(b"abd", Some("a9993e364706816aba3e25717850c26c9cd0d89d")),
        Verdict::Mismatch
    );
    assert_eq!(
        verify_checksum(b"abc", Some("A9993E364706816ABA3E25717850C26C9CD0D89D")),
        Verdict::Mismatch
    );
}

#[test]
fn compare_checksum_cases() {
    assert_eq!(compare_checksum("h1", Some("h1")), Verdict::Verified);
    assert_eq!(compare_checksum("h2", Some("h1")), Verdict::Mismatch);
    assert_eq!(compare_checksum("h2", Some("")), Verdict::Unverifiable);
    assert_eq!(compare_checksum("h2", None), Verdict::Unverifiable);
    assert_eq!(compare_checksum("", Some("")), Verdict::Unverifiable);
}

#[test]
fn a_mismatch_stops_an_install_only_in_strict_mode() {
    assert!(Verdict::Mismatch.allows_install(false));
    assert!(!Verdict::Mismatch.allows_install(true));
    assert!(Verdict::Verified.allows_install(true));
    assert!(Verdict::Verified.allows_install(false));
    assert!(Verdict::Unverifiable.allows_install(true));
    assert!(Verdict::Unverifiable.allows_install(false));
}

#[test]
fn lockfile_with_names_and_versions_is_valid() {
    let mut lock = CrabbyLock::new();
    assert!(validate_lockfile(&lock).is_ok());
    lock.add_package(
        "a".to_string(),
        "1.0.0".to_string(),
        "https://example.org/a.tgz".to_string(),
        "".to_string(),
        DepMap::new(),
    );
    assert!(validate_lockfile(&lock).is_ok());
}

#[test]
fn lockfile_with_empty_name_is_refused() {
    let mut lock = CrabbyLock::new();
    lock.add_package("a".to_string(), "1.0.0".to_string(), "t".to_string(), "h".to_string(), DepMap::new());
    lock.add_package("".to_string(), "".to_string(), "t".to_string(), "h".to_string(), DepMap::new());
    match validate_lockfile(&lock) {
        Err(LockfileError::EmptyName) => {}
        _ => panic!("the empty name must be reported"),
    }
    assert_eq!(LockfileError::EmptyName.message(), "Empty package name in lock file");
}

#[test]
fn lockfile_with_empty_version_names_the_package() {
    let mut lock = CrabbyLock::new();
    lock.add_package("a".to_string(), "1.0.0".to_string(), "t".to_string(), "h".to_string(), DepMap::new());
    lock.add_package("b".to_string(), "".to_string(), "t".to_string(), "h".to_string(), DepMap::new());
    lock.add_package("c".to_string(), "".to_string(), "t".to_string(), "h".to_string(), DepMap::new());
    match validate_lockfile(&lock) {
        Err(LockfileError::EmptyVersion(name)) => {
            assert_eq!(name, "b");
            assert_eq!(
                LockfileError::EmptyVersion(name).message(),
                "Empty version for package: b"
            );
        }
        _ => panic!("the empty version must be reported"),
    }
}

#[test]
fn backups_are_named_by_file_and_time() {
    assert_eq!(
        crabby::safety::backup_name("package.json", 1700000000),
        "package.json.backup.1700000000"
    );
    assert_eq!(crabby::safety::backup_name("", 0), ".backup.0");
}

#[test]
fn settings_fall_back_to_the_defaults() {
    assert_eq!(CrabbyConfig::load(None).registry, "https://registry.npmjs.org");
    let read = CrabbyConfig { registry: "https://r.example".to_string() };
    assert_eq!(CrabbyConfig::load(Some(read)).registry, "https://r.example");
}
