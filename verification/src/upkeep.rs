//! Housekeeping decisions: which generated files are removed, and how the
//! built-in defaults are seeded.
use vstd::prelude::*;
use crate::bumper::{extension_of, lowercase, path_extension, replace_all, replaced, to_lowercase};
use crate::text::{concat, push_str, str_eq, string_from};

verus! {

/// Synthesised speech older than this (15 minutes, in nanoseconds) is removed.
pub const TTS_MAX_AGE_NANOS: u64 = 900_000_000_000;

/// Files the speech cleanup may remove: extension `wav`, `pcm` or `mp3`, or none.
pub open spec fn speech_file(path: Seq<char>) -> bool {
    match extension_of(path) {
        Some(e) => e == "wav"@ || e == "pcm"@ || e == "mp3"@,
        None => true,
    }
}

/// Whether a synthesised-speech file is removed: it is one of ours and its
/// age (when the clock allows one) is over fifteen minutes.
pub fn tts_file_expired(path: &str, age_nanos: Option<u64>) -> (b: bool)
    ensures
        b == (speech_file(path@) && (age_nanos matches Some(a) && a > TTS_MAX_AGE_NANOS)),
{
    let ours = match path_extension(path) {
        Some(e) => str_eq(e.as_str(), "wav") || str_eq(e.as_str(), "pcm") || str_eq(e.as_str(), "mp3"),
        None => true,
    };
    ours && match age_nanos {
        Some(a) => a > TTS_MAX_AGE_NANOS,
        None => false,
    }
}

/// How a bumper back file is recorded when it lies in the bumper back directory.
pub open spec fn recorded_back(file_name: Seq<char>) -> Seq<char> {
    "bumper_backs/"@ + file_name
}

/// Whether a file in the bumper back directory is an orphan: no bumper back
/// records it.
pub fn is_orphan_back(file_name: &str, recorded: &[String]) -> (b: bool)
    ensures
        b == !(exists|i: int| 0 <= i < recorded@.len() && recorded@[i]@ == recorded_back(file_name@)),
{
    let rel = concat("bumper_backs/", file_name);
    let mut i: usize = 0;
    while i < recorded.len()
        invariant
            i <= recorded@.len(),
            rel@ == recorded_back(file_name@),
            forall|k: int| 0 <= k < i ==> recorded@[k]@ != rel@,
        decreases recorded@.len() - i,
    {
        if str_eq(recorded[i].as_str(), rel.as_str()) {
            return false;
        }
        i = i + 1;
    }
    true
}

/// Where a built-in bumper back's MLT file is seeded: its name in lower case
/// with spaces as underscores.
pub open spec fn seeded_mlt_path(name: Seq<char>) -> Seq<char> {
    "bumper_backs/"@ + replaced(lowercase(name), " "@, "_"@) + ".mlt"@
}

/// The seeded MLT path of a built-in bumper back (see `seeded_mlt_path`).
pub fn seed_mlt_path(name: &str) -> (r: String)
    ensures
        r@ == seeded_mlt_path(name@),
{
    proof {
        reveal_strlit(" ");
    }
    let lower = to_lowercase(name);
    let under = replace_all(lower.as_str(), " ", "_");
    let mut out: Vec<char> = Vec::new();
    push_str(&mut out, "bumper_backs/");
    push_str(&mut out, under.as_str());
    push_str(&mut out, ".mlt");
    string_from(out.as_slice())
}

/// What seeding does with a default item.
#[derive(Debug, PartialEq, Eq, Structural)]
pub enum SeedAction {
    /// Not there yet: insert it.
    Insert,
    /// There and built in: bring it up to date.
    Update,
    /// There and edited by the station: leave it.
    Keep,
}

/// The seeding decision for a default item, given whether an item of its name
/// exists and, if so, whether it is built in.
pub fn seed_action(existing_builtin: Option<bool>) -> (r: SeedAction)
    ensures
        r == (match existing_builtin {
            None => SeedAction::Insert,
            Some(true) => SeedAction::Update,
            Some(false) => SeedAction::Keep,
        }),
{
    match existing_builtin {
        None => SeedAction::Insert,
        Some(true) => SeedAction::Update,
        Some(false) => SeedAction::Keep,
    }
}

} // verus!
