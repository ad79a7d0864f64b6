//! A colour packed into 32 bits: blue in bits 0-7, green in 8-15, red in 16-23
//! and alpha in 24-31.
use vstd::prelude::*;

verus! {

/// A packed colour. Every 32-bit value is a valid colour.
#[derive(Clone, Copy)]
pub struct Color(pub i32);

impl Color {
    /// The 32 bits of the colour, read as an unsigned number.
    pub open spec fn packed(self) -> u32 {
        self.0 as u32
    }

    /// Byte `k` of the packed value, counting from the least significant.
    pub open spec fn byte(self, k: nat) -> u8 {
        if k == 0 {
            (self.packed() % 0x100) as u8
        } else if k == 1 {
            (self.packed() / 0x100 % 0x100) as u8
        } else if k == 2 {
            (self.packed() / 0x1_0000 % 0x100) as u8
        } else {
            (self.packed() / 0x100_0000) as u8
        }
    }

    pub open spec fn spec_blue(self) -> u8 {
        self.byte(0)
    }

    pub open spec fn spec_green(self) -> u8 {
        self.byte(1)
    }

    pub open spec fn spec_red(self) -> u8 {
        self.byte(2)
    }

    pub open spec fn spec_alpha(self) -> u8 {
        self.byte(3)
    }

    /// The colour's four channels in output order: red, green, blue, alpha.
    pub open spec fn channels(self) -> Seq<u8> {
        seq![self.spec_red(), self.spec_green(), self.spec_blue(), self.spec_alpha()]
    }

    /// The sum of the four channels.
    pub open spec fn channel_sum(self) -> int {
        self.spec_red() + self.spec_green() + self.spec_blue() + self.spec_alpha()
    }

    /// The blue channel, bits 0-7.
    #[inline(always)]
    pub fn blue(&self) -> (r: u8)
        ensures
            r == self.spec_blue(),
    {
        let v = self.0;
        proof {
            assert((v & 0xFF) as u8 == ((v as u32) % 0x100) as u8) by (bit_vector);
        }
        (v & 0xFF) as u8
    }

    /// The green channel, bits 8-15.
    #[inline(always)]
    pub fn green(&self) -> (r: u8)
        ensures
            r == self.spec_green(),
    {
        let v = self.0;
        proof {
            assert(((v >> 8) & 0xFF) as u8 == ((v as u32) / 0x100 % 0x100) as u8) by (bit_vector);
        }
        ((v >> 8) & 0xFF) as u8
    }

    /// The red channel, bits 16-23.
    #[inline(always)]
    pub fn red(&self) -> (r: u8)
        ensures
            r == self.spec_red(),
    {
        let v = self.0;
        proof {
            assert(((v >> 16) & 0xFF) as u8 == ((v as u32) / 0x1_0000 % 0x100) as u8)
                by (bit_vector);
        }
        ((v >> 16) & 0xFF) as u8
    }

    /// The alpha channel, bits 24-31.
    #[inline(always)]
    pub fn alpha(&self) -> (r: u8)
        ensures
            r == self.spec_alpha(),
    {
        let v = self.0;
        proof {
            assert(((v >> 24) & 0xFF) as u8 == ((v as u32) / 0x100_0000) as u8) by (bit_vector);
        }
        ((v >> 24) & 0xFF) as u8
    }

    /// Channel `k` of the output order red, green, blue, alpha.
    pub fn channel(&self, k: usize) -> (r: u8)
        requires
            k < 4,
        ensures
            r == self.channels()[k as int],
    {
        if k == 0 {
            self.red()
        } else if k == 1 {
            self.green()
        } else if k == 2 {
            self.blue()
        } else {
            self.alpha()
        }
    }
}

} // verus!
