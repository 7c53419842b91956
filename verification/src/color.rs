use vstd::prelude::*;

verus! {

/// Pips in a mana cost, in WUBRG order.
#[derive(Debug, Clone, Copy, PartialEq, Eq, Hash, Structural)]
pub enum Color {
    W,
    U,
    B,
    R,
    G,
}

/// The bit that stands for one color inside a `ColorSet`.
pub open spec fn spec_color_mask(c: Color) -> u8 {
    match c {
        Color::W => 0x01,
        Color::U => 0x02,
        Color::B => 0x04,
        Color::R => 0x08,
        Color::G => 0x10,
    }
}

/// How many of the five color bits are set.
pub open spec fn spec_color_count(bits: u8) -> int {
    (bits & 0x01) + ((bits >> 1) & 0x01) + ((bits >> 2) & 0x01) + ((bits >> 3) & 0x01) + ((bits
        >> 4) & 0x01)
}

/// A set of the five colors, kept as a 5-bit flag value
/// (bit 0 = White ... bit 4 = Green).
#[derive(Debug, Clone, Copy, PartialEq, Eq, Hash, Structural)]
pub struct ColorSet {
    pub bits: u8,
}

impl ColorSet {
    /// Only the five low bits may be set.
    pub open spec fn wf(self) -> bool {
        self.bits < 0x20
    }

    pub open spec fn spec_contains(self, c: Color) -> bool {
        self.bits & spec_color_mask(c) != 0
    }

    pub fn empty() -> (r: ColorSet)
        ensures
            r.bits == 0,
            r.wf(),
    {
        ColorSet { bits: 0 }
    }

    /// Keeps the five color bits of `bits` and drops the rest.
    pub fn from_bits_truncate(bits: u8) -> (r: ColorSet)
        ensures
            r.bits == bits & 0x1f,
            r.wf(),
    {
        proof {
            assert(bits & 0x1f < 0x20) by (bit_vector);
        }
        ColorSet { bits: bits & 0x1f }
    }

    pub fn bits(self) -> (r: u8)
        ensures
            r == self.bits,
    {
        self.bits
    }

    pub fn insert(&mut self, c: Color)
        ensures
            final(self).bits == old(self).bits | spec_color_mask(c),
            old(self).wf() ==> final(self).wf(),
    {
        let mask = match c {
            Color::W => 0x01u8,
            Color::U => 0x02u8,
            Color::B => 0x04u8,
            Color::R => 0x08u8,
            Color::G => 0x10u8,
        };
        proof {
            let b = self.bits;
            assert(b < 0x20 && mask < 0x20 ==> (b | mask) < 0x20) by (bit_vector);
        }
        self.bits = self.bits | mask;
    }

    pub fn contains(self, c: Color) -> (r: bool)
        ensures
            r == self.spec_contains(c),
    {
        let mask = match c {
            Color::W => 0x01u8,
            Color::U => 0x02u8,
            Color::B => 0x04u8,
            Color::R => 0x08u8,
            Color::G => 0x10u8,
        };
        self.bits & mask != 0
    }

    /// A card with no color bits set is colorless.
    pub fn is_colorless(self) -> (r: bool)
        ensures
            r == (self.bits == 0),
    {
        self.bits == 0
    }

    /// More than one of the five bits is set.
    pub fn is_multicolor(self) -> (r: bool)
        ensures
            r == (spec_color_count(self.bits) > 1),
    {
        let b = self.bits;
        proof {
            assert((b & 0x01) <= 1 && ((b >> 1) & 0x01) <= 1 && ((b >> 2) & 0x01) <= 1 && ((b >> 3)
                & 0x01) <= 1 && ((b >> 4) & 0x01) <= 1) by (bit_vector);
        }
        let count = (b & 0x01) + ((b >> 1) & 0x01) + ((b >> 2) & 0x01) + ((b >> 3) & 0x01) + ((b
            >> 4) & 0x01);
        count > 1
    }
}

} // verus!
