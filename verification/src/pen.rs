use crate::color::Color;
use vstd::prelude::*;

verus! {

/// The drawing attributes applied to printed characters.
#[derive(Debug, Copy, Clone, PartialEq, Eq, Structural)]
pub struct Pen {
    pub foreground: Option<Color>,
    pub background: Option<Color>,
    pub intensity: Intensity,
    pub attrs: u8,
}

#[derive(Debug, Copy, Clone, PartialEq, Eq, Structural)]
pub enum Intensity {
    Normal,
    Bold,
    Faint,
}

pub const ITALIC_MASK: u8 = 1;
pub const UNDERLINE_MASK: u8 = 2;
pub const STRIKETHROUGH_MASK: u8 = 4;
pub const BLINK_MASK: u8 = 8;
pub const INVERSE_MASK: u8 = 16;

/// Whether the attribute bit `mask` is set in `attrs`.
pub open spec fn has_attr(attrs: u8, mask: u8) -> bool {
    attrs & mask != 0
}

/// The attribute bits that the pen accessors report on, in a fixed order:
/// italic, underline, strikethrough, blink, inverse.
pub open spec fn attr_flags(attrs: u8) -> (bool, bool, bool, bool, bool) {
    (
        has_attr(attrs, ITALIC_MASK),
        has_attr(attrs, UNDERLINE_MASK),
        has_attr(attrs, STRIKETHROUGH_MASK),
        has_attr(attrs, BLINK_MASK),
        has_attr(attrs, INVERSE_MASK),
    )
}

/// Setting one attribute bit turns it on and leaves the others as they were;
/// clearing one turns it off and leaves the others as they were.
pub proof fn lemma_attr_bits(a: u8)
    ensures
        attr_flags(a | ITALIC_MASK) == (true, attr_flags(a).1, attr_flags(a).2, attr_flags(a).3, attr_flags(a).4),
        attr_flags(a | UNDERLINE_MASK) == (attr_flags(a).0, true, attr_flags(a).2, attr_flags(a).3, attr_flags(a).4),
        attr_flags(a | STRIKETHROUGH_MASK) == (attr_flags(a).0, attr_flags(a).1, true, attr_flags(a).3, attr_flags(a).4),
        attr_flags(a | BLINK_MASK) == (attr_flags(a).0, attr_flags(a).1, attr_flags(a).2, true, attr_flags(a).4),
        attr_flags(a | INVERSE_MASK) == (attr_flags(a).0, attr_flags(a).1, attr_flags(a).2, attr_flags(a).3, true),
        attr_flags(a & !ITALIC_MASK) == (false, attr_flags(a).1, attr_flags(a).2, attr_flags(a).3, attr_flags(a).4),
        attr_flags(a & !UNDERLINE_MASK) == (attr_flags(a).0, false, attr_flags(a).2, attr_flags(a).3, attr_flags(a).4),
        attr_flags(a & !STRIKETHROUGH_MASK) == (attr_flags(a).0, attr_flags(a).1, false, attr_flags(a).3, attr_flags(a).4),
        attr_flags(a & !BLINK_MASK) == (attr_flags(a).0, attr_flags(a).1, attr_flags(a).2, false, attr_flags(a).4),
        attr_flags(a & !INVERSE_MASK) == (attr_flags(a).0, attr_flags(a).1, attr_flags(a).2, attr_flags(a).3, false),
        attr_flags(0) == (false, false, false, false, false),
{
    assert(((a | 1u8) & 1u8 != 0) && ((a | 1u8) & 2u8 != 0) == (a & 2u8 != 0) && ((a | 1u8) & 4u8 != 0) == (a & 4u8 != 0) && ((a | 1u8) & 8u8 != 0) == (a & 8u8 != 0) && ((a | 1u8) & 16u8 != 0) == (a & 16u8 != 0)) by (bit_vector);
    assert(((a | 2u8) & 2u8 != 0) && ((a | 2u8) & 1u8 != 0) == (a & 1u8 != 0) && ((a | 2u8) & 4u8 != 0) == (a & 4u8 != 0) && ((a | 2u8) & 8u8 != 0) == (a & 8u8 != 0) && ((a | 2u8) & 16u8 != 0) == (a & 16u8 != 0)) by (bit_vector);
    assert(((a | 4u8) & 4u8 != 0) && ((a | 4u8) & 1u8 != 0) == (a & 1u8 != 0) && ((a | 4u8) & 2u8 != 0) == (a & 2u8 != 0) && ((a | 4u8) & 8u8 != 0) == (a & 8u8 != 0) && ((a | 4u8) & 16u8 != 0) == (a & 16u8 != 0)) by (bit_vector);
    assert(((a | 8u8) & 8u8 != 0) && ((a | 8u8) & 1u8 != 0) == (a & 1u8 != 0) && ((a | 8u8) & 2u8 != 0) == (a & 2u8 != 0) && ((a | 8u8) & 4u8 != 0) == (a & 4u8 != 0) && ((a | 8u8) & 16u8 != 0) == (a & 16u8 != 0)) by (bit_vector);
    assert(((a | 16u8) & 16u8 != 0) && ((a | 16u8) & 1u8 != 0) == (a & 1u8 != 0) && ((a | 16u8) & 2u8 != 0) == (a & 2u8 != 0) && ((a | 16u8) & 4u8 != 0) == (a & 4u8 != 0) && ((a | 16u8) & 8u8 != 0) == (a & 8u8 != 0)) by (bit_vector);
    assert(((a & !1u8) & 1u8 == 0) && ((a & !1u8) & 2u8 != 0) == (a & 2u8 != 0) && ((a & !1u8) & 4u8 != 0) == (a & 4u8 != 0) && ((a & !1u8) & 8u8 != 0) == (a & 8u8 != 0) && ((a & !1u8) & 16u8 != 0) == (a & 16u8 != 0)) by (bit_vector);
    assert(((a & !2u8) & 2u8 == 0) && ((a & !2u8) & 1u8 != 0) == (a & 1u8 != 0) && ((a & !2u8) & 4u8 != 0) == (a & 4u8 != 0) && ((a & !2u8) & 8u8 != 0) == (a & 8u8 != 0) && ((a & !2u8) & 16u8 != 0) == (a & 16u8 != 0)) by (bit_vector);
    assert(((a & !4u8) & 4u8 == 0) && ((a & !4u8) & 1u8 != 0) == (a & 1u8 != 0) && ((a & !4u8) & 2u8 != 0) == (a & 2u8 != 0) && ((a & !4u8) & 8u8 != 0) == (a & 8u8 != 0) && ((a & !4u8) & 16u8 != 0) == (a & 16u8 != 0)) by (bit_vector);
    assert(((a & !8u8) & 8u8 == 0) && ((a & !8u8) & 1u8 != 0) == (a & 1u8 != 0) && ((a & !8u8) & 2u8 != 0) == (a & 2u8 != 0) && ((a & !8u8) & 4u8 != 0) == (a & 4u8 != 0) && ((a & !8u8) & 16u8 != 0) == (a & 16u8 != 0)) by (bit_vector);
    assert(((a & !16u8) & 16u8 == 0) && ((a & !16u8) & 1u8 != 0) == (a & 1u8 != 0) && ((a & !16u8) & 2u8 != 0) == (a & 2u8 != 0) && ((a & !16u8) & 4u8 != 0) == (a & 4u8 != 0) && ((a & !16u8) & 8u8 != 0) == (a & 8u8 != 0)) by (bit_vector);
    assert((0u8 & 1u8 == 0) && (0u8 & 2u8 == 0) && (0u8 & 4u8 == 0) && (0u8 & 8u8 == 0) && (0u8 & 16u8 == 0)) by (bit_vector);
}

impl Pen {
    pub open spec fn spec_italic(self) -> bool {
        has_attr(self.attrs, ITALIC_MASK)
    }

    pub open spec fn spec_underline(self) -> bool {
        has_attr(self.attrs, UNDERLINE_MASK)
    }

    pub open spec fn spec_strikethrough(self) -> bool {
        has_attr(self.attrs, STRIKETHROUGH_MASK)
    }

    pub open spec fn spec_blink(self) -> bool {
        has_attr(self.attrs, BLINK_MASK)
    }

    pub open spec fn spec_inverse(self) -> bool {
        has_attr(self.attrs, INVERSE_MASK)
    }

    /// The pen with no colors, normal intensity and no attributes.
    pub open spec fn spec_default() -> Pen {
        Pen { foreground: None, background: None, intensity: Intensity::Normal, attrs: 0 }
    }

    /// Whether the pen looks like the default one.
    pub open spec fn spec_is_default(self) -> bool {
        &&& self.foreground.is_none()
        &&& self.background.is_none()
        &&& self.intensity == Intensity::Normal
        &&& !self.spec_italic()
        &&& !self.spec_underline()
        &&& !self.spec_strikethrough()
        &&& !self.spec_blink()
        &&& !self.spec_inverse()
    }

    /// `self` and `other` agree on everything but the attribute bits.
    pub open spec fn same_colors_and_intensity(self, other: Pen) -> bool {
        &&& self.foreground == other.foreground
        &&& self.background == other.background
        &&& self.intensity == other.intensity
    }

    pub fn new() -> (p: Pen)
        ensures
            p == Pen::spec_default(),
    {
        Pen { foreground: None, background: None, intensity: Intensity::Normal, attrs: 0 }
    }

    pub fn foreground(&self) -> (c: Option<Color>)
        ensures
            c == self.foreground,
    {
        self.foreground
    }

    pub fn background(&self) -> (c: Option<Color>)
        ensures
            c == self.background,
    {
        self.background
    }

    pub fn is_bold(&self) -> (b: bool)
        ensures
            b == (self.intensity == Intensity::Bold),
    {
        self.intensity == Intensity::Bold
    }

    pub fn is_faint(&self) -> (b: bool)
        ensures
            b == (self.intensity == Intensity::Faint),
    {
        self.intensity == Intensity::Faint
    }

    pub fn is_italic(&self) -> (b: bool)
        ensures
            b == self.spec_italic(),
    {
        (self.attrs & ITALIC_MASK) != 0
    }

    pub fn is_underline(&self) -> (b: bool)
        ensures
            b == self.spec_underline(),
    {
        (self.attrs & UNDERLINE_MASK) != 0
    }

    pub fn is_strikethrough(&self) -> (b: bool)
        ensures
            b == self.spec_strikethrough(),
    {
        (self.attrs & STRIKETHROUGH_MASK) != 0
    }

    pub fn is_blink(&self) -> (b: bool)
        ensures
            b == self.spec_blink(),
    {
        (self.attrs & BLINK_MASK) != 0
    }

    pub fn is_inverse(&self) -> (b: bool)
        ensures
            b == self.spec_inverse(),
    {
        (self.attrs & INVERSE_MASK) != 0
    }

    pub fn set_italic(&mut self)
        ensures
            final(self).same_colors_and_intensity(*old(self)),
            final(self).attrs == old(self).attrs | ITALIC_MASK,
            attr_flags(final(self).attrs) == (true, attr_flags(old(self).attrs).1, attr_flags(old(self).attrs).2, attr_flags(old(self).attrs).3, attr_flags(old(self).attrs).4),
    {
        proof { lemma_attr_bits(self.attrs); }
        self.attrs = self.attrs | ITALIC_MASK;
    }

    pub fn set_underline(&mut self)
        ensures
            final(self).same_colors_and_intensity(*old(self)),
            final(self).attrs == old(self).attrs | UNDERLINE_MASK,
            attr_flags(final(self).attrs) == (attr_flags(old(self).attrs).0, true, attr_flags(old(self).attrs).2, attr_flags(old(self).attrs).3, attr_flags(old(self).attrs).4),
    {
        proof { lemma_attr_bits(self.attrs); }
        self.attrs = self.attrs | UNDERLINE_MASK;
    }

    pub fn set_strikethrough(&mut self)
        ensures
            final(self).same_colors_and_intensity(*old(self)),
            final(self).attrs == old(self).attrs | STRIKETHROUGH_MASK,
            attr_flags(final(self).attrs) == (attr_flags(old(self).attrs).0, attr_flags(old(self).attrs).1, true, attr_flags(old(self).attrs).3, attr_flags(old(self).attrs).4),
    {
        proof { lemma_attr_bits(self.attrs); }
        self.attrs = self.attrs | STRIKETHROUGH_MASK;
    }

    pub fn set_blink(&mut self)
        ensures
            final(self).same_colors_and_intensity(*old(self)),
            final(self).attrs == old(self).attrs | BLINK_MASK,
            attr_flags(final(self).attrs) == (attr_flags(old(self).attrs).0, attr_flags(old(self).attrs).1, attr_flags(old(self).attrs).2, true, attr_flags(old(self).attrs).4),
    {
        proof { lemma_attr_bits(self.attrs); }
        self.attrs = self.attrs | BLINK_MASK;
    }

    pub fn set_inverse(&mut self)
        ensures
            final(self).same_colors_and_intensity(*old(self)),
            final(self).attrs == old(self).attrs | INVERSE_MASK,
            attr_flags(final(self).attrs) == (attr_flags(old(self).attrs).0, attr_flags(old(self).attrs).1, attr_flags(old(self).attrs).2, attr_flags(old(self).attrs).3, true),
    {
        proof { lemma_attr_bits(self.attrs); }
        self.attrs = self.attrs | INVERSE_MASK;
    }

    pub fn unset_italic(&mut self)
        ensures
            final(self).same_colors_and_intensity(*old(self)),
            final(self).attrs == old(self).attrs & !ITALIC_MASK,
            attr_flags(final(self).attrs) == (false, attr_flags(old(self).attrs).1, attr_flags(old(self).attrs).2, attr_flags(old(self).attrs).3, attr_flags(old(self).attrs).4),
    {
        proof { lemma_attr_bits(self.attrs); }
        self.attrs = self.attrs & !ITALIC_MASK;
    }

    pub fn unset_underline(&mut self)
        ensures
            final(self).same_colors_and_intensity(*old(self)),
            final(self).attrs == old(self).attrs & !UNDERLINE_MASK,
            attr_flags(final(self).attrs) == (attr_flags(old(self).attrs).0, false, attr_flags(old(self).attrs).2, attr_flags(old(self).attrs).3, attr_flags(old(self).attrs).4),
    {
        proof { lemma_attr_bits(self.attrs); }
        self.attrs = self.attrs & !UNDERLINE_MASK;
    }

    pub fn unset_strikethrough(&mut self)
        ensures
            final(self).same_colors_and_intensity(*old(self)),
            final(self).attrs == old(self).attrs & !STRIKETHROUGH_MASK,
            attr_flags(final(self).attrs) == (attr_flags(old(self).attrs).0, attr_flags(old(self).attrs).1, false, attr_flags(old(self).attrs).3, attr_flags(old(self).attrs).4),
    {
        proof { lemma_attr_bits(self.attrs); }
        self.attrs = self.attrs & !STRIKETHROUGH_MASK;
    }

    pub fn unset_blink(&mut self)
        ensures
            final(self).same_colors_and_intensity(*old(self)),
            final(self).attrs == old(self).attrs & !BLINK_MASK,
            attr_flags(final(self).attrs) == (attr_flags(old(self).attrs).0, attr_flags(old(self).attrs).1, attr_flags(old(self).attrs).2, false, attr_flags(old(self).attrs).4),
    {
        proof { lemma_attr_bits(self.attrs); }
        self.attrs = self.attrs & !BLINK_MASK;
    }

    pub fn unset_inverse(&mut self)
        ensures
            final(self).same_colors_and_intensity(*old(self)),
            final(self).attrs == old(self).attrs & !INVERSE_MASK,
            attr_flags(final(self).attrs) == (attr_flags(old(self).attrs).0, attr_flags(old(self).attrs).1, attr_flags(old(self).attrs).2, attr_flags(old(self).attrs).3, false),
    {
        proof { lemma_attr_bits(self.attrs); }
        self.attrs = self.attrs & !INVERSE_MASK;
    }

    pub fn is_default(&self) -> (b: bool)
        ensures
            b == self.spec_is_default(),
    {
        self.foreground.is_none() && self.background.is_none() && self.intensity == Intensity::Normal
            && !self.is_italic() && !self.is_underline() && !self.is_strikethrough()
            && !self.is_blink() && !self.is_inverse()
    }
}

impl Default for Pen {
    fn default() -> (p: Pen)
        ensures
            p == Pen::spec_default(),
    {
        Pen::new()
    }
}

/// The default pen reports no attributes and counts as default.
pub proof fn lemma_default_pen_is_default()
    ensures
        Pen::spec_default().spec_is_default(),
{
    lemma_attr_bits(0);
}

} // verus!
