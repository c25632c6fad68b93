//! Small self-contained helpers: duration parsing and formatting, the
//! subscription depth rule, and the reconnect-jitter generator.

use vstd::prelude::*;
use crate::digits::{dec_digits, digits_val, all_digits, parse_u64, u64_to_string};
use crate::strutil::{spec_trim, trim};

verus! {

/// The nearest supported book depth: the vendor accepts 10, 25, 100, 500
/// and 1000; anything else rounds up (and anything above the largest
/// rounds down to it).
pub open spec fn spec_normalize_depth(depth: u32) -> u32 {
    if depth <= 10 {
        10
    } else if depth <= 25 {
        25
    } else if depth <= 100 {
        100
    } else if depth <= 500 {
        500
    } else {
        1000
    }
}

/// Normalizes a requested depth to one the vendor supports.
pub fn normalize_depth(depth: u32) -> (r: u32)
    ensures
        r == spec_normalize_depth(depth),
{
    if depth <= 10 {
        10
    } else if depth <= 25 {
        25
    } else if depth <= 100 {
        100
    } else if depth <= 500 {
        500
    } else {
        1000
    }
}

/// The value of a non-empty all-digit numeral that fits in 64 bits.
pub open spec fn spec_digits_u64(s: Seq<char>) -> Option<u64> {
    if s.len() > 0 && all_digits(s) && digits_val(s) <= u64::MAX {
        Some(digits_val(s) as u64)
    } else {
        None
    }
}

/// A duration string, trimmed: `"<n>s"` means n seconds, `"<n>m"` means
/// n minutes, a bare numeral means seconds; anything else is rejected.
pub open spec fn spec_parse_duration(s: Seq<char>) -> Option<u64> {
    let t = spec_trim(s);
    if t.len() == 0 {
        None
    } else if t.last() == 's' {
        spec_digits_u64(t.drop_last())
    } else if t.last() == 'm' {
        match spec_digits_u64(t.drop_last()) {
            Some(v) => if v <= u64::MAX / 60 {
                Some((v * 60) as u64)
            } else {
                None
            },
            None => None,
        }
    } else {
        spec_digits_u64(t)
    }
}

/// Parses a duration in seconds from `"30s"`, `"2m"` or a bare numeral.
pub fn parse_duration(s: &str) -> (r: Option<u64>)
    ensures
        r == spec_parse_duration(s@),
{
    let t = trim(s);
    let n = t.unicode_len();
    if n == 0 {
        return None;
    }
    let last = t.get_char(n - 1);
    if last == 's' {
        let num = t.substring_char(0, n - 1);
        proof {
            assert(num@ =~= t@.drop_last());
        }
        parse_u64(num)
    } else if last == 'm' {
        let num = t.substring_char(0, n - 1);
        proof {
            assert(num@ =~= t@.drop_last());
        }
        match parse_u64(num) {
            Some(v) => {
                if v <= u64::MAX / 60 {
                    Some(v * 60)
                } else {
                    None
                }
            },
            None => None,
        }
    } else {
        parse_u64(t)
    }
}

/// The display form of an uptime: seconds below a minute, minutes and
/// seconds below an hour, hours and minutes beyond.
pub open spec fn spec_format_duration(seconds: u64) -> Seq<char> {
    if seconds < 60 {
        dec_digits(seconds as nat) + "s"@
    } else if seconds < 3600 {
        dec_digits((seconds / 60) as nat) + "m "@ + dec_digits((seconds % 60) as nat) + "s"@
    } else {
        dec_digits((seconds / 3600) as nat) + "h "@ + dec_digits(((seconds % 3600) / 60) as nat)
            + "m"@
    }
}

/// Formats an uptime for display.
pub fn format_duration(seconds: u64) -> (r: String)
    ensures
        r@ == spec_format_duration(seconds),
{
    if seconds < 60 {
        let mut out = u64_to_string(seconds);
        out.append("s");
        out
    } else if seconds < 3600 {
        let mut out = u64_to_string(seconds / 60);
        out.append("m ");
        let sec = u64_to_string(seconds % 60);
        out.append(sec.as_str());
        out.append("s");
        out
    } else {
        let mut out = u64_to_string(seconds / 3600);
        out.append("h ");
        let mins = u64_to_string((seconds % 3600) / 60);
        out.append(mins.as_str());
        out.append("m");
        out
    }
}

/// Advances the deterministic jitter generator: one step of the classic
/// linear congruential recurrence, modulo 2^64.
pub fn random(seed: u64) -> (r: u64)
    ensures
        r as nat == (seed * 1103515245 + 12345) % 18446744073709551616,
{
    let t = (seed as u128) * 1103515245 + 12345;
    let m = t % 18446744073709551616;
    m as u64
}

} // verus!
