//! The pixel grid that carries a payload: rows of RGB pixels, three channel
//! bytes each.

use vstd::prelude::*;

verus! {

/// An RGB raster image held in memory, row by row from the top, each pixel as
/// its red, green and blue byte.
pub struct PixelGrid {
    width: u32,
    height: u32,
    data: Vec<u8>,
}

impl View for PixelGrid {
    type V = Seq<u8>;

    /// The channel bytes in storage order.
    closed spec fn view(&self) -> Seq<u8> {
        self.data@
    }
}

/// The place of channel `c` of the pixel at column `x` and row `y` among the
/// channel bytes of a grid that is `width` pixels wide.
pub open spec fn channel_index(width: int, x: int, y: int, c: int) -> int {
    3 * (y * width + x) + c
}

/// Every channel of a pixel inside the grid lies inside its channel bytes.
pub proof fn lemma_channel_in_bounds(width: int, height: int, x: int, y: int, c: int)
    requires
        0 <= x < width,
        0 <= y < height,
        0 <= c < 3,
    ensures
        0 <= y * width <= y * width + x < width * height,
        0 <= channel_index(width, x, y, c) < 3 * (width * height),
{
    assert(0 <= y * width && y * width + width <= width * height) by (nonlinear_arith)
        requires
            0 <= y < height,
            0 < width,
    ;
}

/// The pixel with number `pixel` in raster order lies at column
/// `pixel % width` of row `pixel / width`.
pub proof fn lemma_raster(width: int, height: int, pixel: int)
    requires
        0 <= pixel < width * height,
        0 <= width,
        0 <= height,
    ensures
        0 < width,
        0 <= pixel % width < width,
        0 <= pixel / width < height,
        (pixel / width) * width + pixel % width == pixel,
{
    assert(0 < width) by (nonlinear_arith)
        requires
            0 <= pixel < width * height,
            0 <= width,
    ;
    vstd::arithmetic::div_mod::lemma_fundamental_div_mod(pixel, width);
    vstd::arithmetic::div_mod::lemma_multiply_divide_lt(pixel, width, height);
    assert((pixel / width) * width == width * (pixel / width)) by (nonlinear_arith);
    assert(0 <= pixel / width) by (nonlinear_arith)
        requires
            0 <= pixel,
            0 < width,
    ;
}

impl PixelGrid {
    /// The number of pixels in a row.
    pub closed spec fn spec_width(&self) -> u32 {
        self.width
    }

    /// The number of rows.
    pub closed spec fn spec_height(&self) -> u32 {
        self.height
    }

    /// The number of pixels.
    pub open spec fn pixels(&self) -> int {
        self.spec_width() * self.spec_height()
    }

    /// The grid holds three channel bytes for each of its pixels.
    pub open spec fn wf(&self) -> bool {
        self@.len() == 3 * self.pixels()
    }

    /// The channel bytes of a grid are no more than a vector can hold.
    pub proof fn lemma_size(&self)
        ensures
            self@.len() <= usize::MAX,
    {
        assert(self.data@.len() == self.data.len());
    }

    /// The grid of the given size over the given channel bytes, if there are
    /// three of them for each pixel.
    pub fn from_raw(width: u32, height: u32, data: Vec<u8>) -> (grid: Option<PixelGrid>)
        ensures
            grid is Some <==> data@.len() == 3 * (width * height),
            grid matches Some(g) ==> g.wf() && g.spec_width() == width && g.spec_height()
                == height && g@ == data@,
    {
        assert(width * height <= 0xffff_ffff * 0xffff_ffff) by (nonlinear_arith)
            requires
                0 <= width <= 0xffff_ffff,
                0 <= height <= 0xffff_ffff,
        ;
        let wanted: u128 = 3u128 * (width as u128 * height as u128);
        if data.len() as u128 == wanted {
            Some(PixelGrid { width, height, data })
        } else {
            None
        }
    }

    /// The number of pixels in a row.
    #[verifier::when_used_as_spec(spec_width)]
    pub fn width(&self) -> (w: u32)
        ensures
            w == self.spec_width(),
    {
        self.width
    }

    /// The number of rows.
    #[verifier::when_used_as_spec(spec_height)]
    pub fn height(&self) -> (h: u32)
        ensures
            h == self.spec_height(),
    {
        self.height
    }

    /// The number of pixels.
    pub fn pixel_count(&self) -> (n: usize)
        requires
            self.wf(),
        ensures
            n == self.pixels(),
    {
        self.data.len() / 3
    }

    /// The channel bytes in storage order.
    pub fn as_raw(&self) -> (data: &Vec<u8>)
        ensures
            data@ == self@,
    {
        &self.data
    }

    /// Gives up the grid for its channel bytes.
    pub fn into_raw(self) -> (data: Vec<u8>)
        ensures
            data@ == self@,
    {
        self.data
    }

    /// The column and the row of the pixel with number `pixel` in raster
    /// order, left to right and top to bottom.
    pub fn coordinate(&self, pixel: usize) -> (xy: (u32, u32))
        requires
            self.wf(),
            pixel < self.pixels(),
        ensures
            xy.0 == pixel % (self.spec_width() as usize),
            xy.1 == pixel / (self.spec_width() as usize),
            xy.0 < self.spec_width(),
            xy.1 < self.spec_height(),
            forall|c: int|
                channel_index(self.spec_width() as int, xy.0 as int, xy.1 as int, c) == 3 * pixel
                    + c,
    {
        proof {
            lemma_raster(self.width as int, self.height as int, pixel as int);
        }
        let width: usize = self.width as usize;
        ((pixel % width) as u32, (pixel / width) as u32)
    }

    /// Channel `c` (0 red, 1 green, 2 blue) of the pixel at column `x` and
    /// row `y`.
    pub fn channel(&self, x: u32, y: u32, c: usize) -> (value: &u8)
        requires
            self.wf(),
            x < self.spec_width(),
            y < self.spec_height(),
            c < 3,
        ensures
            *value == self@[channel_index(self.spec_width() as int, x as int, y as int, c as int)],
    {
        proof {
            lemma_channel_in_bounds(
                self.width as int,
                self.height as int,
                x as int,
                y as int,
                c as int,
            );
        }
        let len: usize = self.data.len();
        assert(3 * (y * self.width + x) + c < len);
        let pixel: usize = y as usize * self.width as usize + x as usize;
        &self.data[3 * pixel + c]
    }

    /// Channel `c` (0 red, 1 green, 2 blue) of the pixel at column `x` and
    /// row `y`, to be written through; every other channel byte stays.
    pub fn channel_mut(&mut self, x: u32, y: u32, c: usize) -> (value: &mut u8)
        requires
            old(self).wf(),
            x < old(self).spec_width(),
            y < old(self).spec_height(),
            c < 3,
        ensures
            *value == old(self)@[channel_index(
                old(self).spec_width() as int,
                x as int,
                y as int,
                c as int,
            )],
            final(self)@ == old(self)@.update(
                channel_index(old(self).spec_width() as int, x as int, y as int, c as int),
                *final(value),
            ),
            final(self).spec_width() == old(self).spec_width(),
            final(self).spec_height() == old(self).spec_height(),
            final(self).wf(),
    {
        proof {
            lemma_channel_in_bounds(
                self.width as int,
                self.height as int,
                x as int,
                y as int,
                c as int,
            );
        }
        let len: usize = self.data.len();
        assert(3 * (y * self.width + x) + c < len);
        let pixel: usize = y as usize * self.width as usize + x as usize;
        &mut self.data[3 * pixel + c]
    }
}

impl Clone for PixelGrid {
    /// A copy of the same size with the same channel bytes.
    fn clone(&self) -> (copy: PixelGrid)
        ensures
            copy@ == self@,
            copy.spec_width() == self.spec_width(),
            copy.spec_height() == self.spec_height(),
    {
        PixelGrid { width: self.width, height: self.height, data: self.data.clone() }
    }
}

} // verus!
