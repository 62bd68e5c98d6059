//! What the registry publishes about a package, and how it is asked.
//!
//! The requests themselves are the caller's work. Here are the documents
//! that come back, the address a request goes to, and the rule that says
//! whether a failed attempt is tried again, and after how long.

use crate::depmap::DepMap;
use crate::text::strip_trailing;
use crate::text::without_trailing;
use crate::ui::{decimal, decimal_digits};
use vstd::prelude::*;

verus! {

/// The number of attempts that one request gets.
pub const MAX_RETRIES: u32 = 3;

/// The number of seconds after which an attempt is given up.
pub const TIMEOUT_SECS: u64 = 60;

/// Where the archive of one version is, and its content hash.
pub struct PackageDist {
    pub tarball: String,
    pub shasum: String,
}

/// What the registry publishes about one version of a package.
pub struct PackageVersion {
    pub version: String,
    pub dist: PackageDist,
    pub dependencies: DepMap,
}

/// The tags of a package. Every package has the tag `latest`.
pub struct DistTags {
    pub latest: String,
}

/// What the registry publishes about a package: its versions, each under
/// its version number, and its tags.
pub struct PackageMetadata {
    pub name: String,
    pub versions: Vec<(String, PackageVersion)>,
    pub dist_tags: DistTags,
}

/// The address of the metadata of the package `name` at `registry`: the
/// registry's address without slashes at its end, a slash, and the name.
pub open spec fn metadata_address(registry: Seq<char>, name: Seq<char>) -> Seq<char> {
    without_trailing(registry, '/') + seq!['/'] + name
}

/// The address of the metadata of the package `name` at `registry`.
pub fn metadata_url(registry: &str, name: &str) -> (url: String)
    ensures
        url@ == metadata_address(registry@, name@),
{
    let mut url = strip_trailing(registry, '/');
    proof {
        reveal_strlit("/");
    }
    url.append("/");
    url.append(name);
    url
}

/// How one attempt at a request ended.
#[derive(Clone, Copy, PartialEq, Eq, Structural, Debug)]
pub enum Attempt {
    /// The answer arrived and could be read.
    Success,
    /// The registry answered with a status outside the 200s.
    BadStatus,
    /// The connection failed.
    Network,
    /// No answer came within the time allowed.
    Timeout,
    /// The answer arrived and could not be read.
    Malformed,
}

/// What follows an attempt.
#[derive(Clone, Copy, PartialEq, Eq, Structural, Debug)]
pub enum NextStep {
    /// The request is done.
    Done,
    /// Wait this many seconds, then try again.
    RetryAfter(u64),
    /// Give up. The number says how many attempts were made.
    GiveUp(u32),
}

/// Two to the power of `n`.
pub open spec fn pow2(n: nat) -> nat
    decreases n,
{
    if n == 0 {
        1
    } else {
        2 * pow2((n - 1) as nat)
    }
}

/// Whether a failed attempt of this kind may be tried again.
pub open spec fn retriable(attempt: Attempt) -> bool {
    attempt == Attempt::BadStatus || attempt == Attempt::Network || attempt == Attempt::Timeout
}

/// What follows the attempt number `number` (the first is 1) that ended as
/// `attempt`. A success ends the request. An answer that cannot be read is
/// final at once. Any other failure is tried again after `2^(number-1)`
/// seconds, unless the attempt was the last one allowed.
pub open spec fn next_step(number: u32, attempt: Attempt) -> NextStep {
    if attempt == Attempt::Success {
        NextStep::Done
    } else if retriable(attempt) && 1 <= number < MAX_RETRIES {
        NextStep::RetryAfter(pow2((number - 1) as nat) as u64)
    } else {
        NextStep::GiveUp(number)
    }
}

/// What follows the attempt number `number` that ended as `attempt`.
pub fn after_attempt(number: u32, attempt: Attempt) -> (next: NextStep)
    ensures
        next == next_step(number, attempt),
{
    match attempt {
        Attempt::Success => NextStep::Done,
        Attempt::Malformed => NextStep::GiveUp(number),
        _ => {
            if 1 <= number && number < MAX_RETRIES {
                let mut seconds: u64 = 1;
                let mut i: u32 = 1;
                while i < number
                    invariant
                        1 <= i <= number < MAX_RETRIES,
                        seconds == pow2((i - 1) as nat),
                        seconds <= 2,
                    decreases number - i,
                {
                    seconds = seconds * 2;
                    i += 1;
                }
                NextStep::RetryAfter(seconds)
            } else {
                NextStep::GiveUp(number)
            }
        },
    }
}

/// The sentence that reports a request given up: what was asked for, of
/// which package, after how many attempts, and why.
pub open spec fn failure_report(
    what: Seq<char>,
    name: Seq<char>,
    attempts: u32,
    cause: Seq<char>,
) -> Seq<char> {
    "Failed to fetch "@ + what + " for package '"@ + name + "' after "@ + decimal_digits(
        attempts as nat,
    ) + " attempts: "@ + cause
}

/// The sentence that reports a request given up.
pub fn failure_message(what: &str, name: &str, attempts: u32, cause: &str) -> (text: String)
    ensures
        text@ == failure_report(what@, name@, attempts, cause@),
{
    let mut text = String::from_str("Failed to fetch ");
    text.append(what);
    text.append(" for package '");
    text.append(name);
    text.append("' after ");
    text.append(decimal(attempts as u64).as_str());
    text.append(" attempts: ");
    text.append(cause);
    text
}

} // verus!
