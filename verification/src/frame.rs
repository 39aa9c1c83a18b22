//! A raw pixel frame: a byte buffer of `width * height` pixels at `bytespp`
//! bytes per pixel — four for RGBx, two for packed 5-6-5 — with bounds-checked
//! pixel writes and rectangle fills.

use vstd::prelude::*;
use crate::draw::Color;

verus! {

/// The packed 5-6-5 encoding of a colour, for two-byte pixels.
pub open spec fn rgb565(c: Color) -> u16 {
    ((((c.red as u16) >> 3) << 11) | (((c.green as u16) >> 2) << 5)) | ((c.blue as u16) >> 3)
}

/// The first byte of a pixel at `(x, y)`.
pub open spec fn pixel_off(width: int, bytespp: int, x: int, y: int) -> int {
    y * width * bytespp + x * bytespp
}

/// The buffer after one pixel write: within bounds, the pixel's colour bytes
/// are set — three channel bytes at four bytes per pixel, the packed pair at
/// two — and outside bounds nothing changes.
pub open spec fn put_bytes(
    data: Seq<u8>,
    width: int,
    height: int,
    bytespp: int,
    x: int,
    y: int,
    c: Color,
) -> Seq<u8> {
    if 0 <= x < width && 0 <= y < height {
        let off = pixel_off(width, bytespp, x, y);
        if bytespp == 4 {
            data.update(off, c.red).update(off + 1, c.green).update(off + 2, c.blue)
        } else if bytespp == 2 {
            let d = rgb565(c);
            data.update(off, (d & 0xff) as u8).update(off + 1, (d >> 8) as u8)
        } else {
            data
        }
    } else {
        data
    }
}

/// The buffer after filling `w` pixels of row `y` starting at `startx`.
pub open spec fn fill_row_bytes(
    data: Seq<u8>,
    width: int,
    height: int,
    bytespp: int,
    startx: int,
    y: int,
    w: nat,
    c: Color,
) -> Seq<u8>
    decreases w,
{
    if w == 0 {
        data
    } else {
        put_bytes(
            fill_row_bytes(data, width, height, bytespp, startx, y, (w - 1) as nat, c),
            width,
            height,
            bytespp,
            startx + w - 1,
            y,
            c,
        )
    }
}

/// The buffer after filling the rectangle at `(startx, starty)`, `w` wide and
/// `h` high.
pub open spec fn fill_rect_bytes(
    data: Seq<u8>,
    width: int,
    height: int,
    bytespp: int,
    startx: int,
    starty: int,
    w: nat,
    h: nat,
    c: Color,
) -> Seq<u8>
    decreases h,
{
    if h == 0 {
        data
    } else {
        fill_row_bytes(
            fill_rect_bytes(data, width, height, bytespp, startx, starty, w, (h - 1) as nat, c),
            width,
            height,
            bytespp,
            startx,
            starty + h - 1,
            w,
            c,
        )
    }
}

/// A pixel frame.
pub struct Frame {
    pub width: usize,
    pub height: usize,
    pub bytespp: usize,
    pub data: Vec<u8>,
}

impl Frame {
    /// A frame is two or four bytes per pixel, with a buffer of exactly one
    /// pixel's bytes per coordinate.
    pub open spec fn wf(&self) -> bool {
        &&& (self.bytespp == 2 || self.bytespp == 4)
        &&& self.data@.len() == self.width * self.height * self.bytespp
    }

    /// A black frame of the given dimensions.
    pub fn new(width: usize, height: usize, bytespp: usize) -> (f: Frame)
        requires
            bytespp == 2 || bytespp == 4,
            width * height * bytespp <= usize::MAX,
        ensures
            f.wf(),
            f.width == width,
            f.height == height,
            f.bytespp == bytespp,
            forall|i: int| 0 <= i < f.data@.len() ==> f.data@[i] == 0,
    {
        proof {
            assert(width * height <= width * height * bytespp) by (nonlinear_arith)
                requires
                    bytespp >= 2,
            ;
        }
        let pixels = width * height;
        let total = pixels * bytespp;
        let mut data: Vec<u8> = Vec::new();
        let mut i: usize = 0;
        while i < total
            invariant
                i <= total,
                data@.len() == i,
                forall|j: int| 0 <= j < i ==> data@[j] == 0,
            decreases total - i,
        {
            data.push(0);
            i += 1;
        }
        proof {
            assert(width * height * bytespp == (width * height) * bytespp) by (nonlinear_arith);
        }
        Frame { width, height, bytespp, data }
    }

    pub fn width(&self) -> (r: usize)
        ensures
            r == self.width,
    {
        self.width
    }

    pub fn height(&self) -> (r: usize)
        ensures
            r == self.height,
    {
        self.height
    }

    pub fn bytespp(&self) -> (r: usize)
        ensures
            r == self.bytespp,
    {
        self.bytespp
    }

    /// Write one pixel; writes outside the frame are ignored.
    pub fn put_pixel(&mut self, x: usize, y: usize, color: Color)
        requires
            old(self).wf(),
        ensures
            final(self).wf(),
            final(self).width == old(self).width,
            final(self).height == old(self).height,
            final(self).bytespp == old(self).bytespp,
            final(self).data@ == put_bytes(
                old(self).data@,
                old(self).width as int,
                old(self).height as int,
                old(self).bytespp as int,
                x as int,
                y as int,
                color,
            ),
    {
        if x >= self.width || y >= self.height {
            return ;
        }
        let n = self.data.len();
        proof {
            assert(y * self.width * self.bytespp + x * self.bytespp + self.bytespp <= self.width
                * self.height * self.bytespp && y * self.width <= y * self.width * self.bytespp
                && y * self.width * self.bytespp >= 0 && x * self.bytespp >= 0)
                by (nonlinear_arith)
                requires
                    x < self.width,
                    y < self.height,
                    self.bytespp >= 2,
            ;
        }
        let pixel_offset = y * self.width * self.bytespp + x * self.bytespp;
        if self.bytespp == 4 {
            self.data.set(pixel_offset, color.red);
            self.data.set(pixel_offset + 1, color.green);
            self.data.set(pixel_offset + 2, color.blue);
        } else {
            // The format is 5-6-5.
            let d = (((color.red as u16) >> 3) << 11) | (((color.green as u16) >> 2) << 5) | (
            (color.blue as u16) >> 3);
            self.data.set(pixel_offset, (d & 0xff) as u8);
            self.data.set(pixel_offset + 1, (d >> 8) as u8);
        }
    }

    /// Fill a rectangle, clipped to the frame.
    pub fn fill_rect(&mut self, startx: usize, starty: usize, width: usize, height: usize, color: Color)
        requires
            old(self).wf(),
            startx + width <= usize::MAX,
            starty + height <= usize::MAX,
        ensures
            final(self).wf(),
            final(self).width == old(self).width,
            final(self).height == old(self).height,
            final(self).bytespp == old(self).bytespp,
            final(self).data@ == fill_rect_bytes(
                old(self).data@,
                old(self).width as int,
                old(self).height as int,
                old(self).bytespp as int,
                startx as int,
                starty as int,
                width as nat,
                height as nat,
                color,
            ),
    {
        let ghost d0 = self.data@;
        let mut y = starty;
        while y < starty + height
            invariant
                self.wf(),
                self.width == old(self).width,
                self.height == old(self).height,
                self.bytespp == old(self).bytespp,
                starty <= y <= starty + height,
                starty + height <= usize::MAX,
                startx + width <= usize::MAX,
                self.data@ == fill_rect_bytes(
                    d0,
                    self.width as int,
                    self.height as int,
                    self.bytespp as int,
                    startx as int,
                    starty as int,
                    width as nat,
                    (y - starty) as nat,
                    color,
                ),
            decreases starty + height - y,
        {
            let ghost row0 = self.data@;
            let mut x = startx;
            while x < startx + width
                invariant
                    self.wf(),
                    self.width == old(self).width,
                    self.height == old(self).height,
                    self.bytespp == old(self).bytespp,
                    startx <= x <= startx + width,
                    startx + width <= usize::MAX,
                    y < starty + height,
                    self.data@ == fill_row_bytes(
                        row0,
                        self.width as int,
                        self.height as int,
                        self.bytespp as int,
                        startx as int,
                        y as int,
                        (x - startx) as nat,
                        color,
                    ),
                decreases startx + width - x,
            {
                self.put_pixel(x, y, color);
                x += 1;
            }
            y += 1;
        }
    }
}

} // verus!
