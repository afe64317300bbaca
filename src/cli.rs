//! Small decisions of the command-line front end: uptime text, log-level
//! filtering and the device type of a platform.
use vstd::prelude::*;
use crate::text::{contains_spec, contains_text, decimal_spec, str_eq, u64_to_decimal};

verus! {

/// An uptime as text: hours and minutes, or minutes and seconds, or seconds.
pub open spec fn uptime_spec(seconds: nat) -> Seq<char> {
    let h = seconds / 3600;
    let m = (seconds % 3600) / 60;
    let s = seconds % 60;
    if h > 0 {
        decimal_spec(h) + "h "@ + decimal_spec(m) + "m"@
    } else if m > 0 {
        decimal_spec(m) + "m "@ + decimal_spec(s) + "s"@
    } else {
        decimal_spec(s) + "s"@
    }
}

/// Formats an uptime given in seconds.
pub fn format_uptime(seconds: u64) -> (r: String)
    ensures
        r@ == uptime_spec(seconds as nat),
{
    let hours = seconds / 3600;
    let minutes = (seconds % 3600) / 60;
    let secs = seconds % 60;
    if hours > 0 {
        let mut s = u64_to_decimal(hours);
        s.append("h ");
        s.append(u64_to_decimal(minutes).as_str());
        s.append("m");
        s
    } else if minutes > 0 {
        let mut s = u64_to_decimal(minutes);
        s.append("m ");
        s.append(u64_to_decimal(secs).as_str());
        s.append("s");
        s
    } else {
        let mut s = u64_to_decimal(secs);
        s.append("s");
        s
    }
}

/// The upper-case form of a string, as Unicode defines it.
pub uninterp spec fn upper_of(s: Seq<char>) -> Seq<char>;

/// Relies on str::to_uppercase: the Unicode upper-case mapping, which
/// depends on the characters alone.
#[verifier::external_body]
fn to_upper(s: &str) -> (r: String)
    ensures
        r@ == upper_of(s@),
{
    s.to_uppercase()
}

/// Whether a log line passes a level filter already in upper case.
pub fn line_has_level(line: &str, upper_level: &str) -> (r: bool)
    ensures
        r == contains_spec(line@, upper_level@),
{
    contains_text(line, upper_level)
}

/// Whether a log line is shown under an optional level filter: it is when
/// no filter is given, else when it mentions the level in upper case.
pub fn should_show_line(line: &str, level_filter: Option<&str>) -> (r: bool)
    ensures
        r == match level_filter {
            Some(level) => contains_spec(line@, upper_of(level@)),
            None => true,
        },
{
    match level_filter {
        Some(level) => {
            let upper = to_upper(level);
            line_has_level(line, upper.as_str())
        },
        None => true,
    }
}

/// The device type of a platform, by its operating-system name.
pub open spec fn device_type_spec(os: Seq<char>) -> Seq<char> {
    if os == "android"@ || os == "ios"@ {
        "phone"@
    } else if os == "macos"@ || os == "windows"@ || os == "linux"@ {
        "desktop"@
    } else {
        "unknown"@
    }
}

/// Phones for mobile systems, desktops for desktop systems, else unknown.
pub fn detect_device_type(os: &str) -> (r: String)
    ensures
        r@ == device_type_spec(os@),
{
    if str_eq(os, "android") || str_eq(os, "ios") {
        "phone".to_string()
    } else if str_eq(os, "macos") || str_eq(os, "windows") || str_eq(os, "linux") {
        "desktop".to_string()
    } else {
        "unknown".to_string()
    }
}

} // verus!
