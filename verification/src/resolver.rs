//! Choosing the version that meets a constraint.
//!
//! Version numbers and constraints are read, matched and ordered by the
//! `semver` crate. What it finds is named here by four functions without a
//! body; everything else in this module is proved over those names.

use crate::install::latest_tag;
use crate::registry::{PackageMetadata, PackageVersion};
use vstd::prelude::*;

verus! {

/// Whether `semver::Version::parse` accepts `text`.
pub uninterp spec fn semver_version(text: Seq<char>) -> bool;

/// Whether `semver::VersionReq::parse` accepts `text`.
pub uninterp spec fn semver_req(text: Seq<char>) -> bool;

/// Whether `req` and `version` are both accepted and
/// `semver::VersionReq::matches` says that the version meets the requirement.
pub uninterp spec fn semver_admits(req: Seq<char>, version: Seq<char>) -> bool;

/// Whether `a` and `b` are both accepted as versions and `a` comes before
/// `b` in the order of `semver::Version`.
pub uninterp spec fn semver_below(a: Seq<char>, b: Seq<char>) -> bool;

/// Whether `text` is a version number.
///
/// Trusted: calls `semver::Version::parse` and reports whether it returned
/// `Ok`. The contract only gives that answer a name.
#[verifier::external_body]
fn is_version(text: &str) -> (ok: bool)
    ensures
        ok == semver_version(text@),
{
    semver::Version::parse(text).is_ok()
}

/// Whether `text` is a version requirement.
///
/// Trusted: calls `semver::VersionReq::parse` and reports whether it
/// returned `Ok`. The contract only gives that answer a name.
#[verifier::external_body]
fn is_requirement(text: &str) -> (ok: bool)
    ensures
        ok == semver_req(text@),
{
    semver::VersionReq::parse(text).is_ok()
}

/// Whether the version `version` meets the requirement `req`.
///
/// Trusted: parses both texts with the `semver` crate and calls
/// `semver::VersionReq::matches`; a text that does not parse gives
/// `false`. The contract only gives that answer a name.
#[verifier::external_body]
fn admits(req: &str, version: &str) -> (ok: bool)
    ensures
        ok == semver_admits(req@, version@),
{
    match (semver::VersionReq::parse(req), semver::Version::parse(version)) {
        (Ok(r), Ok(v)) => r.matches(&v),
        _ => false,
    }
}

/// Whether the version `a` comes before the version `b`.
///
/// Trusted: parses both texts with `semver::Version::parse` and compares
/// the two versions with `<`, the total order of `semver::Version`; a
/// text that does not parse gives `false`. The contract only gives that
/// answer a name.
#[verifier::external_body]
fn is_below(a: &str, b: &str) -> (below: bool)
    ensures
        below == semver_below(a@, b@),
{
    match (semver::Version::parse(a), semver::Version::parse(b)) {
        (Ok(x), Ok(y)) => x < y,
        _ => false,
    }
}

/// The requirement that a constraint stands for: the constraint itself
/// where it reads as a requirement, else the constraint taken as an exact
/// version, else nothing, which every version meets.
pub open spec fn effective_req(constraint: Seq<char>) -> Option<Seq<char>> {
    if semver_req(constraint) {
        Some(constraint)
    } else if semver_req(seq!['='] + constraint) {
        Some(seq!['='] + constraint)
    } else {
        None
    }
}

/// Whether the key `key` of a version table is a candidate under `req`:
/// it reads as a version, and it meets the requirement if there is one.
pub open spec fn admissible(req: Option<Seq<char>>, key: Seq<char>) -> bool {
    semver_version(key) && match req {
        Some(r) => semver_admits(r, key),
        None => true,
    }
}

/// The position of the greatest candidate among the first `n` keys, found
/// by going through them in order: a candidate takes the place of the
/// best so far when the best so far comes before it.
pub open spec fn best_match(keys: Seq<Seq<char>>, req: Option<Seq<char>>, n: int) -> Option<int>
    decreases n,
{
    if n <= 0 {
        None
    } else {
        let before = best_match(keys, req, n - 1);
        let key = keys[n - 1];
        if admissible(req, key) && (before is None || semver_below(keys[before->0], key)) {
            Some(n - 1)
        } else {
            before
        }
    }
}

/// The keys of a version table, in order.
pub open spec fn version_keys(versions: Seq<(String, PackageVersion)>) -> Seq<Seq<char>> {
    Seq::new(versions.len(), |i: int| versions[i].0@)
}

/// The best match is a position of the table, and a candidate.
pub proof fn lemma_best_match_is_candidate(keys: Seq<Seq<char>>, req: Option<Seq<char>>, n: int)
    requires
        0 <= n <= keys.len(),
    ensures
        best_match(keys, req, n) matches Some(i) ==> 0 <= i < n && admissible(req, keys[i]),
        best_match(keys, req, n) is None <==> forall|i: int|
            0 <= i < n ==> !admissible(req, #[trigger] keys[i]),
    decreases n,
{
    if n > 0 {
        lemma_best_match_is_candidate(keys, req, n - 1);
    }
}

/// Whether the order of versions is a strict order on `keys`: no key
/// comes before itself, and what comes before a key comes before all
/// that the key comes before.
pub open spec fn strictly_ordered(keys: Seq<Seq<char>>) -> bool {
    &&& forall|i: int| 0 <= i < keys.len() ==> !#[trigger] semver_below(keys[i], keys[i])
    &&& forall|i: int, j: int, k: int|
        #![trigger semver_below(keys[i], keys[j]), semver_below(keys[j], keys[k])]
        0 <= i < keys.len() && 0 <= j < keys.len() && 0 <= k < keys.len() && semver_below(
            keys[i],
            keys[j],
        ) && semver_below(keys[j], keys[k]) ==> semver_below(keys[i], keys[k])
}

/// Where the order of versions is a strict order on the keys, the best
/// match is a greatest candidate: it comes before no candidate.
pub proof fn lemma_best_match_is_greatest(keys: Seq<Seq<char>>, req: Option<Seq<char>>, n: int)
    requires
        0 <= n <= keys.len(),
    ensures
        strictly_ordered(keys) && best_match(keys, req, n) is Some ==> forall|i: int|
            0 <= i < n && admissible(req, keys[i]) ==> !#[trigger] semver_below(
                keys[best_match(keys, req, n)->0],
                keys[i],
            ),
    decreases n,
{
    if n > 0 {
        lemma_best_match_is_greatest(keys, req, n - 1);
        lemma_best_match_is_candidate(keys, req, n - 1);
    }
}

/// The requirement that `constraint` stands for.
pub fn effective_constraint(constraint: &str) -> (req: Option<String>)
    ensures
        match req {
            Some(r) => effective_req(constraint@) == Some(r@),
            None => effective_req(constraint@) is None,
        },
{
    if is_requirement(constraint) {
        Some(String::from_str(constraint))
    } else {
        let mut exact = String::from_str("=");
        proof {
            reveal_strlit("=");
        }
        assert("="@ =~= seq!['=']);
        exact.append(constraint);
        if is_requirement(exact.as_str()) {
            Some(exact)
        } else {
            None
        }
    }
}

/// The requirement as a character sequence, if there is one.
pub open spec fn req_view(req: &Option<String>) -> Option<Seq<char>> {
    match req {
        Some(r) => Some(r@),
        None => None,
    }
}

/// The position of the greatest version in `versions` that meets `req`.
pub fn best_candidate(versions: &Vec<(String, PackageVersion)>, req: &Option<String>) -> (best:
    Option<usize>)
    ensures
        match best {
            Some(i) => best_match(version_keys(versions@), req_view(req), versions.len() as int)
                == Some(i as int),
            None => best_match(version_keys(versions@), req_view(req), versions.len() as int)
                is None,
        },
        best matches Some(i) ==> i < versions.len(),
{
    let ghost keys = version_keys(versions@);
    let mut best: Option<usize> = None;
    let mut i: usize = 0;
    while i < versions.len()
        invariant
            i <= versions.len(),
            keys == version_keys(versions@),
            best matches Some(b) ==> b < i,
            match best {
                Some(b) => best_match(keys, req_view(req), i as int) == Some(b as int),
                None => best_match(keys, req_view(req), i as int) is None,
            },
        decreases versions.len() - i,
    {
        let key = versions[i].0.as_str();
        let candidate = is_version(key) && match req {
            Some(r) => admits(r.as_str(), key),
            None => true,
        };
        if candidate {
            let better = match best {
                Some(b) => is_below(versions[b].0.as_str(), key),
                None => true,
            };
            if better {
                best = Some(i);
            }
        }
        i += 1;
    }
    best
}

/// Why a version was chosen.
#[derive(Clone, Copy, PartialEq, Eq, Structural, Debug)]
pub enum ResolveNote {
    /// The request asked for the latest tag.
    Latest,
    /// The version is the greatest that meets the constraint.
    Matched,
    /// The constraint could not be read; the version is the greatest there is.
    MatchedAny,
    /// No version meets the constraint; the version is the one tagged latest.
    FellBack,
}

/// Why no version could be chosen.
#[derive(Clone, Copy, PartialEq, Eq, Structural, Debug)]
pub enum ResolveError {
    /// The registry lists no version of the package.
    NoVersions,
    /// The registry lists no version under the number tagged latest.
    MissingLatest,
}

impl ResolveError {
    /// A sentence that says what went wrong.
    pub fn message(&self) -> (text: String)
        ensures
            text@ == match self {
                ResolveError::NoVersions => "No versions published"@,
                ResolveError::MissingLatest => "Latest version not found"@,
            },
    {
        match self {
            ResolveError::NoVersions => String::from_str("No versions published"),
            ResolveError::MissingLatest => String::from_str("Latest version not found"),
        }
    }
}

/// The version chosen for a request.
pub struct Resolved {
    /// The concrete version.
    pub version: String,
    /// Where its archive is.
    pub tarball: String,
    /// The content hash that the registry gives for the archive.
    pub shasum: String,
    /// Why this version was chosen.
    pub note: ResolveNote,
}

impl Resolved {
    /// This is the version listed at position `i` of `versions`, chosen for the reason `note`.
    pub open spec fn is_entry(
        &self,
        versions: Seq<(String, PackageVersion)>,
        i: int,
        note: ResolveNote,
    ) -> bool {
        &&& self.version@ == versions[i].0@
        &&& self.tarball@ == versions[i].1.dist.tarball@
        &&& self.shasum@ == versions[i].1.dist.shasum@
        &&& self.note == note
    }
}

/// Whether the request asks for the latest tag: it has no constraint, or
/// the constraint is the tag's name.
pub open spec fn asks_latest(constraint: Option<Seq<char>>) -> bool {
    constraint is None || constraint->0 == latest_tag()
}

/// The first position of `versions` listed under `key`, if any.
pub open spec fn first_listed(versions: Seq<(String, PackageVersion)>, key: Seq<char>) -> Option<
    int,
> {
    if exists|i: int| 0 <= i < versions.len() && #[trigger] versions[i].0@ == key {
        Some(
            choose|i: int|
                0 <= i < versions.len() && #[trigger] versions[i].0@ == key && forall|j: int|
                    0 <= j < i ==> versions[j].0@ != key,
        )
    } else {
        None
    }
}

/// The first position of `versions` listed under `key`, if any.
pub fn find_version(versions: &Vec<(String, PackageVersion)>, key: &String) -> (found: Option<
    usize,
>)
    ensures
        match found {
            Some(i) => first_listed(versions@, key@) == Some(i as int) && i < versions.len(),
            None => first_listed(versions@, key@) is None,
        },
{
    let mut i: usize = 0;
    while i < versions.len()
        invariant
            i <= versions.len(),
            forall|j: int| 0 <= j < i ==> versions[j].0@ != key@,
        decreases versions.len() - i,
    {
        if versions[i].0 == *key {
            return Some(i);
        }
        i += 1;
    }
    None
}

/// What a request comes to, given the best candidate.
///
/// Without any version the registry's answer is of no use. The best
/// candidate is taken unless the request asks for the latest tag. In
/// every other case the version under the number tagged latest is taken,
/// and it is an error if there is none.
pub open spec fn settles(
    outcome: Result<Resolved, ResolveError>,
    metadata: &PackageMetadata,
    wants_latest: bool,
    any: bool,
    best: Option<int>,
) -> bool {
    let versions = metadata.versions@;
    let latest = first_listed(versions, metadata.dist_tags.latest@);
    if versions.len() == 0 {
        outcome == Err::<Resolved, ResolveError>(ResolveError::NoVersions)
    } else if !wants_latest && best is Some {
        outcome matches Ok(r) && r.is_entry(
            versions,
            best->0,
            if any {
                ResolveNote::MatchedAny
            } else {
                ResolveNote::Matched
            },
        )
    } else if latest is Some {
        outcome matches Ok(r) && r.is_entry(
            versions,
            latest->0,
            if wants_latest {
                ResolveNote::Latest
            } else {
                ResolveNote::FellBack
            },
        )
    } else {
        outcome == Err::<Resolved, ResolveError>(ResolveError::MissingLatest)
    }
}

/// What a request comes to, given what was found among the versions:
/// `wants_latest` says whether the request asks for the latest tag, `any`
/// whether its constraint could not be read, and `best` where the greatest
/// version that meets the constraint stands, if there is one.
pub fn settle(metadata: &PackageMetadata, wants_latest: bool, any: bool, best: Option<usize>) -> (outcome:
    Result<Resolved, ResolveError>)
    requires
        best matches Some(i) ==> i < metadata.versions.len(),
    ensures
        settles(
            outcome,
            metadata,
            wants_latest,
            any,
            match best {
                Some(i) => Some(i as int),
                None => None,
            },
        ),
{
    if metadata.versions.len() == 0 {
        return Err(ResolveError::NoVersions);
    }
    let chosen = match best {
        Some(i) if !wants_latest => Some(
            (
                i,
                if any {
                    ResolveNote::MatchedAny
                } else {
                    ResolveNote::Matched
                },
            ),
        ),
        _ => match find_version(&metadata.versions, &metadata.dist_tags.latest) {
            Some(i) => Some(
                (
                    i,
                    if wants_latest {
                        ResolveNote::Latest
                    } else {
                        ResolveNote::FellBack
                    },
                ),
            ),
            None => None,
        },
    };
    match chosen {
        Some((i, note)) => {
            let entry = &metadata.versions[i];
            Ok(
                Resolved {
                    version: entry.0.clone(),
                    tarball: entry.1.dist.tarball.clone(),
                    shasum: entry.1.dist.shasum.clone(),
                    note,
                },
            )
        },
        None => Err(ResolveError::MissingLatest),
    }
}

/// Chooses the version of a package that meets `constraint`, from what the
/// registry publishes about the package.
///
/// A request without a constraint, or for `latest`, gets the version
/// tagged latest. Otherwise the greatest version that meets the
/// constraint is chosen; a constraint that cannot be read is met by every
/// version. Where no version meets the constraint, the version tagged
/// latest is taken in its place.
pub fn resolve(constraint: Option<&str>, metadata: &PackageMetadata) -> (outcome: Result<
    Resolved,
    ResolveError,
>)
    ensures
        settles(
            outcome,
            metadata,
            asks_latest(crate::install::view_of(constraint)),
            !asks_latest(crate::install::view_of(constraint)) && effective_req(constraint->0@)
                is None,
            if asks_latest(crate::install::view_of(constraint)) {
                None
            } else {
                best_match(
                    version_keys(metadata.versions@),
                    effective_req(constraint->0@),
                    metadata.versions.len() as int,
                )
            },
        ),
{
    let asked = match constraint {
        Some(c) => {
            if String::from_str(c) == String::from_str("latest") {
                None
            } else {
                Some(c)
            }
        },
        None => None,
    };
    match asked {
        None => {
            let outcome = settle(metadata, true, false, None);
            outcome
        },
        Some(c) => {
            let req = effective_constraint(c);
            let best = best_candidate(&metadata.versions, &req);
            settle(metadata, false, req.is_none(), best)
        },
    }
}

} // verus!
