use crabby::depmap::DepMap;
use crabby::registry::{DistTags, PackageDist, PackageMetadata, PackageVersion};
use crabby::resolver::{
    best_candidate, effective_constraint, find_version, resolve, settle, ResolveError,
    ResolveNote,
};

fn version(number: &str) -> (String, PackageVersion) {
    (
        number.to_string(),
        PackageVersion {
            version: number.to_string(),
            dist: PackageDist {
                tarball: format!("https://registry.example/left-pad/-/left-pad-{}.tgz", number),
                shasum: format!("hash-of-{}", number),
            },
            dependencies: DepMap::new(),
        },
    )
}

fn left_pad(latest: &str, numbers: &[&str]) -> PackageMetadata {
    PackageMetadata {
        name: "left-pad".to_string(),
        versions: numbers.iter().map(|n| version(n)).collect(),
        dist_tags: DistTags { latest: latest.to_string() },
    }
}

#[test]
fn caret_picks_the_greatest_compatible_version() {
    let metadata = left_pad("2.0.0", &["1.3.0", "1.3.1", "1.4.0", "2.0.0"]);
    let chosen = resolve(Some("^1.3.0"), &metadata).ok().expect("a version");
    assert_eq!(chosen.version, "1.4.0");
    assert_eq!(chosen.tarball, "https://registry.example/left-pad/-/left-pad-1.4.0.tgz");
    assert_eq!(chosen.shasum, "hash-of-1.4.0");
    assert_eq!(chosen.note, ResolveNote::Matched);
}

#[test]
fn the_order_of_the_version_table_does_not_matter() {
    let metadata = left_pad("2.0.0", &["1.4.0", "2.0.0", "1.3.0", "1.10.0", "1.9.0", "1.3.1"]);
    let chosen = resolve(Some("^1.3.0"), &metadata).ok().expect("a version");
    assert_eq!(chosen.version, "1.10.0");
}

#[test]
fn tilde_exact_and_comparators() {
    let metadata = left_pad("2.0.0", &["1.3.0", "1.3.1", "1.4.0", "2.0.0"]);
    assert_eq!(resolve(Some("~1.3.0"), &metadata).ok().unwrap().version, "1.3.1");
    assert_eq!(resolve(Some("=1.3.0"), &metadata).ok().unwrap().version, "1.3.0");
    assert_eq!(resolve(Some(">=1.4.0"), &metadata).ok().unwrap().version, "2.0.0");
    assert_eq!(resolve(Some("<1.4.0"), &metadata).ok().unwrap().version, "1.3.1");
    assert_eq!(resolve(Some("*"), &metadata).ok().unwrap().version, "2.0.0");
    assert_eq!(resolve(Some(">=1.3.1, <2.0.0"), &metadata).ok().unwrap().version, "1.4.0");
}

#[test]
fn latest_and_no_constraint_take_the_tagged_version() {
    let metadata = left_pad("1.3.1", &["1.3.0", "1.3.1", "1.4.0", "2.0.0"]);
    let by_tag = resolve(Some("latest"), &metadata).ok().unwrap();
    assert_eq!(by_tag.version, "1.3.1");
    assert_eq!(by_tag.note, ResolveNote::Latest);
    let by_default = resolve(None, &metadata).ok().unwrap();
    assert_eq!(by_default.version, "1.3.1");
    assert_eq!(by_default.shasum, "hash-of-1.3.1");
    assert_eq!(by_default.note, ResolveNote::Latest);
}

#[test]
fn unsatisfied_constraint_falls_back_to_latest() {
    let metadata = left_pad("1.4.0", &["1.3.0", "1.3.1", "1.4.0", "2.0.0"]);
    let chosen = resolve(Some("^3.0.0"), &metadata).ok().unwrap();
    assert_eq!(chosen.version, "1.4.0");
    assert_eq!(chosen.note, ResolveNote::FellBack);
}

#[test]
fn unreadable_constraint_is_met_by_every_version() {
    let metadata = left_pad("1.3.0", &["1.3.0", "1.3.1", "1.4.0", "2.0.0"]);
    let chosen = resolve(Some("not a range"), &metadata).ok().unwrap();
    assert_eq!(chosen.version, "2.0.0");
    assert_eq!(chosen.note, ResolveNote::MatchedAny);
}

#[test]
fn unreadable_version_keys_are_passed_over() {
    let metadata = left_pad("1.0.0", &["1.0.0", "banana", "1.2", "9.9.9.9", "1.1.0", "01.5.0"]);
    let chosen = resolve(Some("^1.0.0"), &metadata).ok().unwrap();
    assert_eq!(chosen.version, "1.1.0");
    let any = resolve(Some("???"), &metadata).ok().unwrap();
    assert_eq!(any.version, "1.1.0");
}

#[test]
fn prereleases_come_before_their_release() {
    let metadata = left_pad("1.0.0", &["1.0.0-alpha", "1.0.0-alpha.1", "1.0.0-rc.1", "1.0.0-beta.11", "1.0.0-beta.2"]);
    let chosen = resolve(Some("??"), &metadata).ok().unwrap();
    assert_eq!(chosen.version, "1.0.0-rc.1");
    let metadata = left_pad("1.0.0", &["1.0.0-rc.1", "1.0.0", "1.0.0-alpha"]);
    assert_eq!(resolve(Some("??"), &metadata).ok().unwrap().version, "1.0.0");
    assert_eq!(resolve(Some("^1.0.0"), &metadata).ok().unwrap().version, "1.0.0");
}

#[test]
fn numbers_are_compared_as_numbers() {
    let metadata = left_pad("1.5.0", &["1.5.0", "1.19.0"]);
    assert_eq!(resolve(Some("^1.0.0"), &metadata).ok().unwrap().version, "1.19.0");
}

#[test]
fn empty_version_table_is_an_error() {
    let metadata = left_pad("1.0.0", &[]);
    assert_eq!(resolve(Some("^1.0.0"), &metadata).err(), Some(ResolveError::NoVersions));
    assert_eq!(resolve(None, &metadata).err(), Some(ResolveError::NoVersions));
    assert_eq!(ResolveError::NoVersions.message(), "No versions published");
}

#[test]
fn missing_latest_is_an_error_only_when_latest_is_needed() {
    let metadata = left_pad("3.0.0", &["1.3.0", "1.4.0"]);
    assert_eq!(resolve(None, &metadata).err(), Some(ResolveError::MissingLatest));
    assert_eq!(resolve(Some("latest"), &metadata).err(), Some(ResolveError::MissingLatest));
    assert_eq!(resolve(Some("^2.0.0"), &metadata).err(), Some(ResolveError::MissingLatest));
    assert_eq!(resolve(Some("^1.0.0"), &metadata).ok().unwrap().version, "1.4.0");
    assert_eq!(ResolveError::MissingLatest.message(), "Latest version not found");
}

#[test]
fn effective_constraint_tries_the_exact_form() {
    assert_eq!(effective_constraint("^1.2.3"), Some("^1.2.3".to_string()));
    assert_eq!(effective_constraint("1.2.3"), Some("1.2.3".to_string()));
    assert_eq!(effective_constraint(" 1.2.3"), Some(" 1.2.3".to_string()));
    assert_eq!(effective_constraint("latest"), None);
    assert_eq!(effective_constraint(">=1.0.0 <2.0.0"), None);
    assert_eq!(effective_constraint(""), None);
}

#[test]
fn best_candidate_gives_a_position() {
    let metadata = left_pad("2.0.0", &["1.3.0", "1.4.0", "2.0.0", "1.3.1"]);
    assert_eq!(best_candidate(&metadata.versions, &Some("^1.3.0".to_string())), Some(1));
    assert_eq!(best_candidate(&metadata.versions, &Some("^5".to_string())), None);
    assert_eq!(best_candidate(&metadata.versions, &None), Some(2));
    assert_eq!(best_candidate(&Vec::new(), &None), None);
}

#[test]
fn find_version_gives_the_first_position() {
    let metadata = left_pad("2.0.0", &["1.3.0", "1.4.0", "1.3.0"]);
    assert_eq!(find_version(&metadata.versions, &"1.3.0".to_string()), Some(0));
    assert_eq!(find_version(&metadata.versions, &"1.4.0".to_string()), Some(1));
    assert_eq!(find_version(&metadata.versions, &"2.0.0".to_string()), None);
}

#[test]
fn settle_decides_from_what_was_found() {
    let metadata = left_pad("1.3.1", &["1.3.0", "1.3.1", "1.4.0"]);
    let matched = settle(&metadata, false, false, Some(2)).ok().unwrap();
    assert_eq!(matched.version, "1.4.0");
    assert_eq!(matched.note, ResolveNote::Matched);
    let any = settle(&metadata, false, true, Some(0)).ok().unwrap();
    assert_eq!(any.version, "1.3.0");
    assert_eq!(any.note, ResolveNote::MatchedAny);
    let fell_back = settle(&metadata, false, false, None).ok().unwrap();
    assert_eq!(fell_back.version, "1.3.1");
    assert_eq!(fell_back.note, ResolveNote::FellBack);
    let latest = settle(&metadata, true, false, Some(2)).ok().unwrap();
    assert_eq!(latest.version, "1.3.1");
    assert_eq!(latest.note, ResolveNote::Latest);
    let empty = left_pad("1.0.0", &[]);
    assert_eq!(settle(&empty, false, false, None).err(), Some(ResolveError::NoVersions));
    let untagged = left_pad("9.9.9", &["1.0.0"]);
    assert_eq!(settle(&untagged, true, false, None).err(), Some(ResolveError::MissingLatest));
}
