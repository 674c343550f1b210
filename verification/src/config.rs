//! Engine configuration.
use vstd::prelude::*;

verus! {

/// Bit of the flag word that enables free tone marking.
pub const EFREE_TONE_MARKING: u32 = 1;
/// Bit of the flag word that selects the standard tone placement.
pub const ESTD_TONE_STYLE: u32 = 2;
/// Bit of the flag word that enables spelling correction.
pub const EAUTO_CORRECT_ENABLED: u32 = 4;

/// Configuration options for the engine.
#[derive(Debug, Clone, Copy, PartialEq, Eq, Structural)]
pub struct Config {
    /// If true, allows typing tone marks at any position in the word (Free Tone Marking).
    pub free_tone_marking: bool,
    /// If true, uses the standard (new) tone placement (e.g., "hòa", "khỏe");
    /// if false, the old style (e.g., "hoà", "khoẻ").
    pub std_tone_style: bool,
    /// If true, enables automatic spelling correction.
    pub auto_correct: bool,
}

/// The flag word of a configuration: bit 0 free tone marking, bit 1 standard
/// tone style, bit 2 auto correction.
pub open spec fn spec_to_flags(c: Config) -> u32 {
    ((if c.free_tone_marking { 1u32 } else { 0u32 }) + (if c.std_tone_style { 2u32 } else { 0u32 })
        + (if c.auto_correct { 4u32 } else { 0u32 })) as u32
}

pub open spec fn spec_from_flags(flags: u32) -> Config {
    Config {
        free_tone_marking: flags & 1 != 0,
        std_tone_style: flags & 2 != 0,
        auto_correct: flags & 4 != 0,
    }
}

impl Default for Config {
    /// All three options enabled.
    fn default() -> (r: Self)
        ensures
            r == (Config { free_tone_marking: true, std_tone_style: true, auto_correct: true }),
    {
        Config { free_tone_marking: true, std_tone_style: true, auto_correct: true }
    }
}

impl Config {
    /// A configuration with all three options enabled.
    pub fn new() -> (r: Self)
        ensures
            r == (Config { free_tone_marking: true, std_tone_style: true, auto_correct: true }),
    {
        Config { free_tone_marking: true, std_tone_style: true, auto_correct: true }
    }

    /// The flag word of this configuration.
    pub fn to_flags(self) -> (r: u32)
        ensures
            r == spec_to_flags(self),
    {
        let mut flags: u32 = 0;
        if self.free_tone_marking {
            flags = flags + 1;
        }
        if self.std_tone_style {
            flags = flags + 2;
        }
        if self.auto_correct {
            flags = flags + 4;
        }
        flags
    }

    /// The configuration whose options are the bits 0, 1 and 2 of `flags`.
    pub fn from_flags(flags: u32) -> (r: Self)
        ensures
            r == spec_from_flags(flags),
    {
        Config {
            free_tone_marking: (flags & 1) != 0,
            std_tone_style: (flags & 2) != 0,
            auto_correct: (flags & 4) != 0,
        }
    }
}

/// Reading a configuration back from its flag word gives the same configuration.
pub proof fn lemma_flags_round_trip(c: Config)
    ensures
        spec_from_flags(spec_to_flags(c)) == c,
{
    let f = spec_to_flags(c);
    assert(f & 1 != 0 <==> c.free_tone_marking) by {
        assert(0u32 & 1 == 0 && 1u32 & 1 != 0 && 2u32 & 1 == 0 && 3u32 & 1 != 0 && 4u32 & 1 == 0
            && 5u32 & 1 != 0 && 6u32 & 1 == 0 && 7u32 & 1 != 0) by (bit_vector);
    }
    assert(f & 2 != 0 <==> c.std_tone_style) by {
        assert(0u32 & 2 == 0 && 1u32 & 2 == 0 && 2u32 & 2 != 0 && 3u32 & 2 != 0 && 4u32 & 2 == 0
            && 5u32 & 2 == 0 && 6u32 & 2 != 0 && 7u32 & 2 != 0) by (bit_vector);
    }
    assert(f & 4 != 0 <==> c.auto_correct) by {
        assert(0u32 & 4 == 0 && 1u32 & 4 == 0 && 2u32 & 4 == 0 && 3u32 & 4 == 0 && 4u32 & 4 != 0
            && 5u32 & 4 != 0 && 6u32 & 4 != 0 && 7u32 & 4 != 0) by (bit_vector);
    }
}

/// The flag word of the configuration read from `flags` keeps exactly its low three bits.
pub proof fn lemma_flags_low_bits(flags: u32)
    ensures
        spec_to_flags(spec_from_flags(flags)) == flags & 7,
{
    assert(flags & 7 == ((if flags & 1 != 0 { 1u32 } else { 0u32 }) + (if flags & 2 != 0 { 2u32 } else { 0u32 })
        + (if flags & 4 != 0 { 4u32 } else { 0u32 })) as u32) by (bit_vector);
}

} // verus!
