//! Flags that customize the text produced from a composition.
//!
//! A set of options is a `u32` bit set; combine flags with `|`.
use vstd::prelude::*;

verus! {

/// Default output with no extra transformations.
pub const NONE: u32 = 0;
/// Strip tone marks from the output.
pub const TONE_LESS: u32 = 1;
/// Strip diacritic marks (marks that change the vowel/consonant) from the output.
pub const MARK_LESS: u32 = 2;
/// Convert output to lowercase.
pub const LOWER_CASE: u32 = 4;
/// Return the full text including committed and active text.
pub const FULL_TEXT: u32 = 8;
/// Return only the text after the last space of the active composition.
pub const PUNCTUATION_MODE: u32 = 16;
/// Reserved for future use.
pub const IN_REVERSE_ORDER: u32 = 32;
/// Return raw input keys instead of transformed text.
pub const RAW: u32 = 64;

/// Whether the option set `options` holds every flag of `flag`.
pub open spec fn has(options: u32, flag: u32) -> bool {
    options & flag == flag
}

/// Whether the option set `options` holds every flag of `flag`.
pub fn contains(options: u32, flag: u32) -> (r: bool)
    ensures
        r == has(options, flag),
{
    options & flag == flag
}

} // verus!
