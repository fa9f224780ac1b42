//! Matching text against regular expressions, as the `regex` crate does.

use vstd::prelude::*;
use crate::codec::{stringified, text_for};
use crate::json::{Json, JsonModel};
use crate::text::prefix;

verus! {

/// Longest pattern, in characters, that is tried.
pub const PATTERN_MAX: usize = 128;

/// Longest text, in characters, that a pattern is tried on; of a longer
/// one the start is taken.
pub const TEXT_MAX: usize = 1024;

/// Whether `regex::Regex::new` accepts the pattern.
pub uninterp spec fn pattern_compiles(pattern: Seq<char>) -> bool;

/// Whether the regular expression that `regex::Regex::new` makes of the
/// pattern has a match anywhere in the text (`Regex::is_match`).
pub uninterp spec fn pattern_matches(pattern: Seq<char>, text: Seq<char>) -> bool;

/// `regex::Regex::new`, then `Regex::is_match`: `None` where the pattern is
/// refused, else whether the text holds a match. Both depend on their
/// arguments alone.
#[verifier::external_body]
fn regex_match(pattern: &str, text: &str) -> (r: Option<bool>)
    ensures
        r == if pattern_compiles(pattern@) {
            Some(pattern_matches(pattern@, text@))
        } else {
            None::<bool>
        },
{
    regex::Regex::new(pattern).ok().map(|re| re.is_match(text))
}

/// Whether a pattern can be used: it is not longer than [`PATTERN_MAX`] and
/// it compiles.
pub open spec fn usable(pattern: Seq<char>) -> bool {
    pattern.len() <= PATTERN_MAX && pattern_compiles(pattern)
}

/// The start of `s` on which a pattern is tried.
pub open spec fn tried_text(s: Seq<char>) -> Seq<char> {
    if s.len() <= TEXT_MAX {
        s
    } else {
        s.take(TEXT_MAX as int)
    }
}

/// What matching `value` against `pattern` says. No verdict for the empty
/// pattern. A pattern that cannot be used fails every value when `strict`
/// and gives no verdict otherwise. A missing value fails a pattern of
/// admissible length. Otherwise the verdict is whether the start of the text
/// that stands for the value holds a match.
pub open spec fn match_verdict(pattern: Seq<char>, value: Option<JsonModel>, strict: bool)
    -> Option<bool> {
    if pattern.len() == 0 {
        None
    } else if pattern.len() > PATTERN_MAX {
        if strict {
            Some(false)
        } else {
            None
        }
    } else {
        match value {
            None => Some(false),
            Some(v) => if pattern_compiles(pattern) {
                Some(pattern_matches(pattern, tried_text(stringified(v))))
            } else if strict {
                Some(false)
            } else {
                None
            },
        }
    }
}

/// What matching `value` against `pattern` says.
pub fn maybe_match_regex(pattern: &str, value: Option<&Json>, strict: bool) -> (r: Option<bool>)
    ensures
        r == match_verdict(
            pattern@,
            match value {
                Some(v) => Some(v@),
                None => None,
            },
            strict,
        ),
{
    let n = pattern.unicode_len();
    if n == 0 {
        return None;
    }
    if n > PATTERN_MAX {
        return if strict {
            Some(false)
        } else {
            None
        };
    }
    match value {
        None => Some(false),
        Some(v) => {
            let s = text_for(v);
            let text = prefix(s.as_str(), TEXT_MAX);
            match regex_match(pattern, text.as_str()) {
                Some(b) => Some(b),
                None => if strict {
                    Some(false)
                } else {
                    None
                },
            }
        },
    }
}

/// Whether a pattern can be used.
pub fn pattern_usable(pattern: &str) -> (r: bool)
    ensures
        r == usable(pattern@),
{
    if pattern.unicode_len() > PATTERN_MAX {
        false
    } else {
        regex_match(pattern, "").is_some()
    }
}

} // verus!
