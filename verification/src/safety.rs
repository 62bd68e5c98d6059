//! Checks on what comes from outside: archives, manifests, lockfiles.
//!
//! Content hashes are computed by the `sha1` crate, and whether a text is
//! JSON is decided by `serde_json`. Both answers are named here by
//! functions without a body, and the rest is proved over those names.

use crate::manifest::{CrabbyLock, LockPair};
use vstd::prelude::*;
use vstd::slice::slice_subrange;

verus! {

/// The hasher of the `sha1` crate.
///
/// Trusted: Verus does not look into this type.
#[verifier::external_body]
pub struct Hasher {
    inner: sha1::Sha1,
}

/// The bytes that a hasher has been fed so far, in order.
pub uninterp spec fn fed(hasher: Hasher) -> Seq<u8>;

/// The SHA-1 digest of `data`, written as lowercase hexadecimal digits.
pub uninterp spec fn sha1_hex(data: Seq<u8>) -> Seq<char>;

/// A hasher that has been fed nothing yet.
///
/// Trusted: calls `Digest::new` of the `sha1` crate, which gives a fresh
/// hasher.
#[verifier::external_body]
fn hasher_new() -> (hasher: Hasher)
    ensures
        fed(hasher) == Seq::<u8>::empty(),
{
    Hasher { inner: sha1::Digest::new() }
}

/// Feeds `data` to the hasher.
///
/// Trusted: calls `Digest::update` of the `sha1` crate. Feeding a hasher
/// piece by piece is the same as feeding it the pieces joined.
#[verifier::external_body]
fn hasher_update(hasher: &mut Hasher, data: &[u8])
    ensures
        fed(*final(hasher)) == fed(*old(hasher)) + data@,
{
    sha1::Digest::update(&mut hasher.inner, data);
}

/// The digest of all that the hasher was fed.
///
/// Trusted: calls `Digest::finalize` of the `sha1` crate and writes the
/// twenty bytes it returns with the format `{:x}`.
#[verifier::external_body]
fn hasher_finish(hasher: Hasher) -> (hex: String)
    ensures
        hex@ == sha1_hex(fed(hasher)),
{
    format!("{:x}", sha1::Digest::finalize(hasher.inner))
}

/// The number of bytes that are hashed in one step.
pub const CHUNK_SIZE: usize = 8192;

/// A running computation of a content hash. Data may be fed in as many
/// pieces as it comes in.
pub struct Checksum {
    hasher: Hasher,
}

impl Checksum {
    /// The bytes fed so far.
    pub closed spec fn seen(&self) -> Seq<u8> {
        fed(self.hasher)
    }

    /// A computation that has been fed nothing yet.
    pub fn new() -> (state: Checksum)
        ensures
            state.seen() == Seq::<u8>::empty(),
    {
        Checksum { hasher: hasher_new() }
    }

    /// Feeds `data` to the computation, in steps of `CHUNK_SIZE` bytes.
    pub fn update(&mut self, data: &[u8])
        ensures
            final(self).seen() == old(self).seen() + data@,
    {
        let ghost before = self.seen();
        let mut done: usize = 0;
        while done < data.len()
            invariant
                done <= data.len(),
                self.seen() == before + data@.take(done as int),
            decreases data.len() - done,
        {
            let left = data.len() - done;
            let step = if left < CHUNK_SIZE {
                left
            } else {
                CHUNK_SIZE
            };
            let chunk = slice_subrange(data, done, done + step);
            hasher_update(&mut self.hasher, chunk);
            done += step;
        }
    }

    /// Ends the computation and gives the digest of all that was fed, in
    /// lowercase hexadecimal.
    pub fn finish(self) -> (hex: String)
        ensures
            hex@ == sha1_hex(self.seen()),
    {
        hasher_finish(self.hasher)
    }
}

/// The SHA-1 digest of `data`, in lowercase hexadecimal.
pub fn calculate_checksum(data: &[u8]) -> (hex: String)
    ensures
        hex@ == sha1_hex(data@),
{
    let mut state = Checksum::new();
    state.update(data);
    state.finish()
}

/// What a comparison of content hashes found.
#[derive(Clone, Copy, PartialEq, Eq, Structural, Debug)]
pub enum Verdict {
    /// The content has the expected hash.
    Verified,
    /// The content has another hash than expected.
    Mismatch,
    /// No hash was expected, so nothing could be compared.
    Unverifiable,
}

impl Verdict {
    /// Whether an installation goes on after this verdict. Only a
    /// mismatch can stop it, and only in strict mode.
    pub fn allows_install(self, strict: bool) -> (go_on: bool)
        ensures
            go_on == !(self == Verdict::Mismatch && strict),
    {
        match self {
            Verdict::Mismatch => !strict,
            _ => true,
        }
    }
}

/// The verdict on content whose hash is `actual` when `expected` was announced.
pub open spec fn verdict_of(actual: Seq<char>, expected: Option<Seq<char>>) -> Verdict {
    if expected is None || expected->0.len() == 0 {
        Verdict::Unverifiable
    } else if actual == expected->0 {
        Verdict::Verified
    } else {
        Verdict::Mismatch
    }
}

/// The hash that was announced, as a character sequence, if any.
pub open spec fn hash_view(expected: Option<&str>) -> Option<Seq<char>> {
    match expected {
        Some(e) => Some(e@),
        None => None,
    }
}

/// Compares the hash `actual` of some content with the hash `expected`
/// that was announced for it. Without an announced hash, or with an empty
/// one, nothing can be said.
pub fn compare_checksum(actual: &str, expected: Option<&str>) -> (verdict: Verdict)
    ensures
        verdict == verdict_of(actual@, hash_view(expected)),
{
    match expected {
        None => Verdict::Unverifiable,
        Some(e) => {
            if e.is_empty() {
                Verdict::Unverifiable
            } else if String::from_str(actual) == String::from_str(e) {
                Verdict::Verified
            } else {
                Verdict::Mismatch
            }
        },
    }
}

/// Checks the content `data` against the hash `expected_checksum` that
/// was announced for it.
pub fn verify_checksum(data: &[u8], expected_checksum: Option<&str>) -> (verdict: Verdict)
    ensures
        verdict == verdict_of(sha1_hex(data@), hash_view(expected_checksum)),
{
    match expected_checksum {
        None => Verdict::Unverifiable,
        Some(e) => {
            if e.is_empty() {
                Verdict::Unverifiable
            } else {
                let actual = calculate_checksum(data);
                compare_checksum(actual.as_str(), expected_checksum)
            }
        },
    }
}

#[verifier::external_type_specification]
#[verifier::external_body]
pub struct ExJsonError(serde_json::Error);

/// Whether `serde_json` reads `text` as one JSON value.
pub uninterp spec fn is_json(text: Seq<char>) -> bool;

/// Reads `text` as JSON and gives the error if it is none.
///
/// Trusted: calls `serde_json::from_str` for a `serde_json::Value` and
/// drops the value. The contract only gives the answer a name.
#[verifier::external_body]
fn read_json(text: &str) -> (outcome: Result<(), serde_json::Error>)
    ensures
        outcome is Ok == is_json(text@),
{
    match serde_json::from_str::<serde_json::Value>(text) {
        Ok(_) => Ok(()),
        Err(e) => Err(e),
    }
}

/// What `serde_json` says of an error.
///
/// Trusted: calls `to_string` on the error. Nothing is claimed of the text.
#[verifier::external_body]
fn json_error_text(error: &serde_json::Error) -> String {
    error.to_string()
}

/// A manifest that is not JSON.
pub struct InvalidJson {
    /// What the parser said.
    pub reason: String,
}

impl InvalidJson {
    /// A sentence that says what went wrong.
    pub fn message(&self) -> (text: String)
        ensures
            text@ == "Invalid JSON in package.json: "@ + self.reason@,
    {
        let mut text = String::from_str("Invalid JSON in package.json: ");
        text.append(self.reason.as_str());
        text
    }
}

/// Checks that `content` is JSON.
pub fn validate_package_json(content: &str) -> (outcome: Result<(), InvalidJson>)
    ensures
        outcome is Ok <==> is_json(content@),
{
    match read_json(content) {
        Ok(_) => Ok(()),
        Err(e) => Err(InvalidJson { reason: json_error_text(&e) }),
    }
}

/// The name of the copy that is kept of the file `file_name` before it
/// is changed, made at `timestamp` seconds after the epoch.
pub open spec fn backup_name_of(file_name: Seq<char>, timestamp: u64) -> Seq<char> {
    file_name + ".backup."@ + crate::ui::decimal_digits(timestamp as nat)
}

/// The name of the copy that is kept of the file `file_name` before it is changed.
pub fn backup_name(file_name: &str, timestamp: u64) -> (name: String)
    ensures
        name@ == backup_name_of(file_name@, timestamp),
{
    let mut name = String::from_str(file_name);
    name.append(".backup.");
    name.append(crate::ui::decimal(timestamp).as_str());
    name
}

/// What is wrong with a lockfile.
pub enum LockfileError {
    /// An entry has the empty name.
    EmptyName,
    /// The entry of this package has the empty version.
    EmptyVersion(String),
}

impl LockfileError {
    /// A sentence that says what went wrong.
    pub fn message(&self) -> (text: String)
        ensures
            text@ == match self {
                LockfileError::EmptyName => "Empty package name in lock file"@,
                LockfileError::EmptyVersion(name) => "Empty version for package: "@ + name@,
            },
    {
        match self {
            LockfileError::EmptyName => String::from_str("Empty package name in lock file"),
            LockfileError::EmptyVersion(name) => {
                let mut text = String::from_str("Empty version for package: ");
                text.append(name.as_str());
                text
            },
        }
    }
}

/// Whether an entry lacks its name or its version.
pub open spec fn flawed(entry: LockPair) -> bool {
    entry.0.len() == 0 || entry.1.version.len() == 0
}

/// `error` says what is wrong with `entry`.
pub open spec fn reports(error: LockfileError, entry: LockPair) -> bool {
    if entry.0.len() == 0 {
        error is EmptyName
    } else {
        error matches LockfileError::EmptyVersion(name) && name@ == entry.0
            && entry.1.version.len() == 0
    }
}

/// Checks that every entry of the lockfile has a name and a version. The
/// error is about the first entry that lacks one.
pub fn validate_lockfile(lockfile: &CrabbyLock) -> (outcome: Result<(), LockfileError>)
    ensures
        outcome is Ok <==> forall|i: int|
            0 <= i < lockfile.dependencies.pairs().len() ==> !flawed(
                #[trigger] lockfile.dependencies.pairs()[i],
            ),
        outcome matches Err(e) ==> exists|i: int|
            0 <= i < lockfile.dependencies.pairs().len() && reports(
                e,
                #[trigger] lockfile.dependencies.pairs()[i],
            ) && forall|j: int| 0 <= j < i ==> !flawed(#[trigger] lockfile.dependencies.pairs()[j]),
{
    let table = &lockfile.dependencies;
    let mut i: usize = 0;
    while i < table.len()
        invariant
            table == &lockfile.dependencies,
            i <= table.pairs().len(),
            forall|j: int| 0 <= j < i ==> !flawed(#[trigger] table.pairs()[j]),
        decreases table.pairs().len() - i,
    {
        let name = table.name_at(i);
        if name.as_str().is_empty() {
            return Err(LockfileError::EmptyName);
        }
        if table.record_at(i).version.as_str().is_empty() {
            let error = LockfileError::EmptyVersion(name.clone());
            return Err(error);
        }
        i += 1;
    }
    Ok(())
}

} // verus!
