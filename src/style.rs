use vstd::prelude::*;

verus! {

/// Packed set of independent text-style flags: bold, italic, fixed width,
/// underline and strikethrough, one bit each.
#[derive(Debug, Clone, Copy, PartialEq, Eq, Structural)]
pub struct StyleBits(pub u32);

/// Whether `mask` is one of the five flag bits.
pub open spec fn is_flag(mask: u32) -> bool {
    mask == StyleBits::BOLD || mask == StyleBits::ITALIC || mask == StyleBits::FIXED || mask
        == StyleBits::UNDERLINE || mask == StyleBits::STRIKETHRU
}

impl Default for StyleBits {
    fn default() -> (r: Self)
        ensures
            r.0 == 0,
    {
        StyleBits::new()
    }
}

impl StyleBits {
    pub const BOLD: u32 = 1;
    pub const ITALIC: u32 = 2;
    pub const FIXED: u32 = 4;
    pub const UNDERLINE: u32 = 8;
    pub const STRIKETHRU: u32 = 16;

    /// Whether the flag `mask` is set.
    pub open spec fn has(self, mask: u32) -> bool {
        self.0 & mask != 0
    }

    /// These flags with `mask` set or cleared, the other bits as they were.
    pub open spec fn with_flag(self, mask: u32, enabled: bool) -> StyleBits {
        if enabled {
            StyleBits(self.0 | mask)
        } else {
            StyleBits(self.0 & !mask)
        }
    }

    /// No flag set.
    pub fn new() -> (r: Self)
        ensures
            r.0 == 0,
    {
        StyleBits(0)
    }

    pub fn is_bold(&self) -> (r: bool)
        ensures
            r == self.has(Self::BOLD),
    {
        self.0 & Self::BOLD != 0
    }

    pub fn is_italic(&self) -> (r: bool)
        ensures
            r == self.has(Self::ITALIC),
    {
        self.0 & Self::ITALIC != 0
    }

    pub fn is_fixed(&self) -> (r: bool)
        ensures
            r == self.has(Self::FIXED),
    {
        self.0 & Self::FIXED != 0
    }

    pub fn is_underline(&self) -> (r: bool)
        ensures
            r == self.has(Self::UNDERLINE),
    {
        self.0 & Self::UNDERLINE != 0
    }

    pub fn is_strikethru(&self) -> (r: bool)
        ensures
            r == self.has(Self::STRIKETHRU),
    {
        self.0 & Self::STRIKETHRU != 0
    }

    pub fn set_bold(&mut self, enabled: bool)
        ensures
            *final(self) == old(self).with_flag(Self::BOLD, enabled),
    {
        if enabled {
            self.0 = self.0 | Self::BOLD;
        } else {
            self.0 = self.0 & !Self::BOLD;
        }
    }

    pub fn set_italic(&mut self, enabled: bool)
        ensures
            *final(self) == old(self).with_flag(Self::ITALIC, enabled),
    {
        if enabled {
            self.0 = self.0 | Self::ITALIC;
        } else {
            self.0 = self.0 & !Self::ITALIC;
        }
    }
}

/// Setting or clearing a flag leaves it set or clear as asked.
pub proof fn lemma_flag_takes_effect(s: StyleBits, mask: u32, enabled: bool)
    requires
        is_flag(mask),
    ensures
        s.with_flag(mask, enabled).has(mask) == enabled,
{
    let w = s.0;
    assert(mask == 1u32 || mask == 2u32 || mask == 4u32 || mask == 8u32 || mask == 16u32 ==> ((w | mask)
        & mask != 0 && (w & !mask) & mask == 0)) by (bit_vector);
}

/// Setting or clearing one flag leaves every other flag as it was.
pub proof fn lemma_flags_independent(s: StyleBits, mask: u32, enabled: bool, other: u32)
    requires
        is_flag(mask),
        is_flag(other),
        mask != other,
    ensures
        s.with_flag(mask, enabled).has(other) == s.has(other),
{
    let w = s.0;
    assert((mask == 1u32 || mask == 2u32 || mask == 4u32 || mask == 8u32 || mask == 16u32) && (other
        == 1u32 || other == 2u32 || other == 4u32 || other == 8u32 || other == 16u32) && mask != other
        ==> (((w | mask) & other != 0) == (w & other != 0) && ((w & !mask) & other != 0) == (w & other
        != 0))) by (bit_vector);
}

/// Setting bold, then italic, then clearing bold leaves italic set and bold
/// clear, whatever the flags were before.
pub proof fn lemma_bold_italic_sequence(s: StyleBits)
    ensures
        ({
            let t = s.with_flag(StyleBits::BOLD, true).with_flag(StyleBits::ITALIC, true).with_flag(
                StyleBits::BOLD,
                false,
            );
            t.has(StyleBits::ITALIC) && !t.has(StyleBits::BOLD)
        }),
{
    let s1 = s.with_flag(StyleBits::BOLD, true);
    let s2 = s1.with_flag(StyleBits::ITALIC, true);
    lemma_flag_takes_effect(s1, StyleBits::ITALIC, true);
    lemma_flags_independent(s2, StyleBits::BOLD, false, StyleBits::ITALIC);
    lemma_flag_takes_effect(s2, StyleBits::BOLD, false);
}

} // verus!
