//! The decisions behind the capture commands that the frontend calls.
use vstd::prelude::*;

use crate::text::{chars_of, range_equals};

verus! {

/// Which audio a capture records.
#[derive(Clone, Copy, PartialEq, Eq, Structural, Debug)]
pub enum CaptureSource {
    /// What the speakers play.
    System,
    /// The microphone.
    Microphone,
    /// Both, mixed into one stream.
    Both,
}

/// The capture source that the frontend names `name`, if it names one.
pub open spec fn source_named(name: Seq<char>) -> Option<CaptureSource> {
    if name == "system"@ {
        Some(CaptureSource::System)
    } else if name == "microphone"@ {
        Some(CaptureSource::Microphone)
    } else if name == "both"@ {
        Some(CaptureSource::Both)
    } else {
        None
    }
}

/// Whether `s` is exactly `word`.
fn is_word(s: &str, word: &str) -> (r: bool)
    ensures
        r == (s@ == word@),
{
    let chars = chars_of(s);
    let expected = chars_of(word);
    assert(chars@.subrange(0, chars@.len() as int) =~= chars@);
    range_equals(&chars, 0, chars.len(), &expected)
}

/// Reads the source the frontend asked for: `"system"`, `"microphone"` or
/// `"both"`; anything else is refused with `Unknown source: <name>`.
pub fn parse_capture_source(source: &str) -> (r: Result<CaptureSource, String>)
    ensures
        match r {
            Ok(s) => source_named(source@) == Some(s),
            Err(e) => source_named(source@) is None && e@ == "Unknown source: "@ + source@,
        },
{
    if is_word(source, "system") {
        Ok(CaptureSource::System)
    } else if is_word(source, "microphone") {
        Ok(CaptureSource::Microphone)
    } else if is_word(source, "both") {
        Ok(CaptureSource::Both)
    } else {
        Err(String::from_str("Unknown source: ").concat(source))
    }
}

/// A capture refuses to start while it is already running.
pub fn check_not_capturing(is_capturing: bool) -> (r: Result<(), String>)
    ensures
        r is Ok <==> !is_capturing,
        r matches Err(e) ==> e@ == "Already capturing"@,
{
    if is_capturing {
        Err(String::from_str("Already capturing"))
    } else {
        Ok(())
    }
}

/// Whether the app may record the screen's audio and the microphone.
pub struct PermissionStatus {
    pub screen_recording: String,
    pub microphone: String,
}

/// The permissions as far as this platform lets the app know them: both
/// `"unknown"`; the system asks the user on first use.
pub fn check_permissions() -> (status: PermissionStatus)
    ensures
        status.screen_recording@ == "unknown"@,
        status.microphone@ == "unknown"@,
{
    PermissionStatus {
        screen_recording: String::from_str("unknown"),
        microphone: String::from_str("unknown"),
    }
}

} // verus!
