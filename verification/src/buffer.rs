//! Flat row-major RGBA output buffer.
//!
//! The buffer owns four bytes per pixel; rendering fills it and hands it
//! by value to whatever sink persists it.  Channel order is red, green,
//! blue, alpha.

use vstd::prelude::*;

verus! {

/// One RGBA pixel value: red, green, blue, alpha.
pub type Rgba = (u8, u8, u8, u8);

/// A width x height raster of RGBA bytes in row-major order.
#[derive(Debug)]
pub struct OutputBuffer {
    pub width: u32,
    pub height: u32,
    pub data: Vec<u8>,
}

impl OutputBuffer {
    /// The byte vector holds exactly four bytes per pixel.
    pub open spec fn wf(self) -> bool {
        self.data@.len() == 4 * (self.width as int) * (self.height as int)
    }

    /// Byte index of channel `ch` of pixel `(x, y)`.
    pub open spec fn byte_at(self, x: int, y: int, ch: int) -> int {
        4 * (y * self.width + x) + ch
    }

    /// Value of channel `ch` of pixel `(x, y)`.
    pub open spec fn chan(self, x: int, y: int, ch: int) -> u8 {
        self.data@[self.byte_at(x, y, ch)]
    }

    /// Pixel `(x, y)` holds the RGBA value `p`.
    pub open spec fn pixel_is(self, x: int, y: int, p: Rgba) -> bool {
        &&& self.chan(x, y, 0) == p.0
        &&& self.chan(x, y, 1) == p.1
        &&& self.chan(x, y, 2) == p.2
        &&& self.chan(x, y, 3) == p.3
    }

    /// A fresh buffer of the given size with every byte zero.
    pub fn new(width: u32, height: u32) -> (b: OutputBuffer)
        requires
            4 * (width as int) * (height as int) <= usize::MAX as int,
        ensures
            b.wf(),
            b.width == width,
            b.height == height,
            forall|i: int| 0 <= i < b.data@.len() ==> b.data@[i] == 0,
    {
        proof {
            assert((width as int) * (height as int) * 4 == 4 * (width as int) * (height as int))
                by (nonlinear_arith);
            assert(0 <= (width as int) * (height as int)) by (nonlinear_arith);
        }
        let n: usize = (width as usize) * (height as usize) * 4;
        let mut data: Vec<u8> = Vec::new();
        while data.len() < n
            invariant
                data@.len() <= n,
                forall|i: int| 0 <= i < data@.len() ==> data@[i] == 0,
            decreases n - data@.len(),
        {
            data.push(0);
        }
        OutputBuffer { width, height, data }
    }

    /// In-range byte indices of distinct in-range pixels never collide,
    /// and all lie below the buffer length.
    pub proof fn lemma_byte_at_range(self, x: int, y: int, ch: int)
        requires
            self.wf(),
            0 <= x < self.width,
            0 <= y < self.height,
            0 <= ch < 4,
        ensures
            0 <= self.byte_at(x, y, ch) < self.data@.len(),
    {
        assert(0 <= 4 * (y * (self.width as int) + x) + ch < 4 * (self.width as int) * (
        self.height as int)) by (nonlinear_arith)
            requires
                0 <= x < (self.width as int),
                0 <= y < (self.height as int),
                0 <= ch < 4,
        ;
    }

    /// Read pixel `(x, y)`.
    pub fn get_pixel(&self, x: u32, y: u32) -> (p: Rgba)
        requires
            self.wf(),
            x < self.width,
            y < self.height,
        ensures
            p == (
                self.chan(x as int, y as int, 0),
                self.chan(x as int, y as int, 1),
                self.chan(x as int, y as int, 2),
                self.chan(x as int, y as int, 3),
            ),
    {
        proof {
            self.lemma_byte_at_range(x as int, y as int, 0);
            self.lemma_byte_at_range(x as int, y as int, 3);
            vstd::std_specs::vec::axiom_spec_len(&self.data);
            assert(4 * ((y as int) * (self.width as int) + x as int) + 3 == self.byte_at(
                x as int,
                y as int,
                3,
            ));
        }
        let base: usize = 4 * ((y as usize) * (self.width as usize) + (x as usize));
        (self.data[base], self.data[base + 1], self.data[base + 2], self.data[base + 3])
    }

    /// Overwrite pixel `(x, y)` with `p`; every other pixel keeps its
    /// value.
    pub fn set_pixel(&mut self, x: u32, y: u32, p: Rgba)
        requires
            old(self).wf(),
            x < old(self).width,
            y < old(self).height,
        ensures
            final(self).wf(),
            final(self).width == old(self).width,
            final(self).height == old(self).height,
            final(self).pixel_is(x as int, y as int, p),
            forall|xx: int, yy: int, ch: int|
                0 <= xx < old(self).width && 0 <= yy < old(self).height && 0 <= ch < 4 && !(xx
                    == x && yy == y) ==> final(self).chan(xx, yy, ch) == old(self).chan(
                    xx,
                    yy,
                    ch,
                ),
    {
        proof {
            self.lemma_byte_at_range(x as int, y as int, 0);
            self.lemma_byte_at_range(x as int, y as int, 3);
            vstd::std_specs::vec::axiom_spec_len(&self.data);
            assert(4 * ((y as int) * (self.width as int) + x as int) + 3 == self.byte_at(
                x as int,
                y as int,
                3,
            ));
        }
        let base: usize = 4 * ((y as usize) * (self.width as usize) + (x as usize));
        self.data[base] = p.0;
        self.data[base + 1] = p.1;
        self.data[base + 2] = p.2;
        self.data[base + 3] = p.3;
        proof {
            let s = *self;
            assert forall|xx: int, yy: int, ch: int|
                0 <= xx < s.width && 0 <= yy < s.height && 0 <= ch < 4 && !(xx == x && yy == y)
                implies s.chan(xx, yy, ch) == old(self).chan(xx, yy, ch) by {
                s.lemma_byte_at_range(xx, yy, ch);
                assert(s.byte_at(xx, yy, ch) < base || s.byte_at(xx, yy, ch) > base + 3)
                    by (nonlinear_arith)
                    requires
                        0 <= xx < (s.width as int),
                        0 <= yy < (s.height as int),
                        0 <= ch < 4,
                        !(xx == x as int && yy == y as int),
                        0 <= (x as int) < (s.width as int),
                        0 <= (y as int) < (s.height as int),
                        s.byte_at(xx, yy, ch) == 4 * (yy * s.width as int + xx) + ch,
                        base == 4 * ((y as int) * (s.width as int) + x as int),
                ;
            }
        }
    }
}

} // verus!
