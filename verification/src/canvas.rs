//! The pixel buffer that a rendering is written to.

use vstd::prelude::*;

use crate::colors::Color;
use crate::scalar::{Scalar, BYTE_MAX};

verus! {

/// A rectangle of colors, `width` across and `height` down.
#[derive(Debug)]
pub struct Canvas {
    height: u32,
    width: u32,
    data: Vec<Vec<Color>>,
}

/// A channel as a byte of an image: 255 times the channel, cut down to a
/// byte.
pub open spec fn channel_byte(channel: Scalar) -> u8 {
    Scalar { bits: BYTE_MAX }.times(channel).byte()
}

impl Canvas {
    /// The buffer holds `rows()` rows of `columns()` pixels each.
    pub closed spec fn wf(&self) -> bool {
        &&& self.data@.len() == self.height
        &&& forall|j: int|
            0 <= j < self.data@.len() ==> (#[trigger] self.data@[j])@.len() == self.width
    }

    /// The number of pixels across.
    pub closed spec fn columns(&self) -> nat {
        self.width as nat
    }

    /// The number of pixels down.
    pub closed spec fn rows(&self) -> nat {
        self.height as nat
    }

    /// The color at column `x` of row `y`.
    pub closed spec fn pixel(&self, x: int, y: int) -> Color {
        self.data@[y]@[x]
    }

    /// The number of pixels across.
    pub fn width(&self) -> (w: u32)
        ensures
            w == self.columns(),
    {
        self.width
    }

    /// The number of pixels down.
    pub fn height(&self) -> (h: u32)
        ensures
            h == self.rows(),
    {
        self.height
    }
}

/// A canvas of the given size, all black.
pub fn build_canvas(width: u32, height: u32) -> (canvas: Canvas)
    ensures
        canvas.wf(),
        canvas.columns() == width,
        canvas.rows() == height,
        forall|x: int, y: int|
            0 <= x < width && 0 <= y < height ==> #[trigger] canvas.pixel(x, y) == Color::dark(),
{
    let mut data: Vec<Vec<Color>> = Vec::new();
    let mut j: u32 = 0;
    while j < height
        invariant
            j <= height,
            data@.len() == j,
            forall|y: int| 0 <= y < j ==> (#[trigger] data@[y])@.len() == width,
            forall|x: int, y: int|
                0 <= x < width && 0 <= y < j ==> #[trigger] data@[y]@[x] == Color::dark(),
        decreases height - j,
    {
        let mut row: Vec<Color> = Vec::new();
        let mut i: u32 = 0;
        while i < width
            invariant
                i <= width,
                row@.len() == i,
                forall|x: int| 0 <= x < i ==> #[trigger] row@[x] == Color::dark(),
            decreases width - i,
        {
            row.push(Color::black());
            i = i + 1;
        }
        data.push(row);
        j = j + 1;
    }
    Canvas { width: width, height: height, data: data }
}

/// The color at column `x` of row `y`.
pub fn pixel_at(canvas: &Canvas, x: u32, y: u32) -> (color: Color)
    requires
        canvas.wf(),
        x < canvas.columns(),
        y < canvas.rows(),
    ensures
        color == canvas.pixel(x as int, y as int),
{
    canvas.data[y as usize][x as usize]
}

/// Sets the color at column `x` of row `y`; every other pixel stays.
pub fn write_pixel(canvas: &mut Canvas, x: u32, y: u32, color: Color)
    requires
        old(canvas).wf(),
        x < old(canvas).columns(),
        y < old(canvas).rows(),
    ensures
        final(canvas).wf(),
        final(canvas).columns() == old(canvas).columns(),
        final(canvas).rows() == old(canvas).rows(),
        final(canvas).pixel(x as int, y as int) == color,
        forall|i: int, j: int|
            0 <= i < old(canvas).columns() && 0 <= j < old(canvas).rows() && (i != x || j != y)
                ==> #[trigger] final(canvas).pixel(i, j) == old(canvas).pixel(i, j),
{
    canvas.data[y as usize][x as usize] = color;
}

/// The three bytes of a color in an image.
pub fn quantize(color: &Color) -> (bytes: (u8, u8, u8))
    ensures
        bytes.0 == channel_byte(color.r),
        bytes.1 == channel_byte(color.g),
        bytes.2 == channel_byte(color.b),
{
    let full = Scalar { bits: BYTE_MAX };
    (full.mul(color.r).to_byte(), full.mul(color.g).to_byte(), full.mul(color.b).to_byte())
}

/// The canvas as the bytes of an 8-bit RGB image, row after row from the
/// top, three bytes to the pixel.
pub fn rgb_bytes(canvas: &Canvas) -> (bytes: Vec<u8>)
    requires
        canvas.wf(),
        3 * canvas.columns() * canvas.rows() <= usize::MAX,
    ensures
        bytes@.len() == 3 * canvas.columns() * canvas.rows(),
        forall|x: int, y: int|
            0 <= x < canvas.columns() && 0 <= y < canvas.rows() ==> {
                let at = 3 * (y * canvas.columns() + x);
                let color = #[trigger] canvas.pixel(x, y);
                &&& bytes@[at] == channel_byte(color.r)
                &&& bytes@[at + 1] == channel_byte(color.g)
                &&& bytes@[at + 2] == channel_byte(color.b)
            },
{
    let width = canvas.width;
    let height = canvas.height;
    let mut bytes: Vec<u8> = Vec::new();
    let mut y: u32 = 0;
    while y < height
        invariant
            canvas.wf(),
            width == canvas.width,
            height == canvas.height,
            3 * width * height <= usize::MAX,
            y <= height,
            bytes@.len() == 3 * (y * width),
            forall|i: int, j: int|
                0 <= i < width && 0 <= j < y ==> {
                    let at = 3 * (j * width + i);
                    let color = #[trigger] canvas.pixel(i, j);
                    &&& bytes@[at] == channel_byte(color.r)
                    &&& bytes@[at + 1] == channel_byte(color.g)
                    &&& bytes@[at + 2] == channel_byte(color.b)
                },
        decreases height - y,
    {
        let mut x: u32 = 0;
        while x < width
            invariant
                canvas.wf(),
                width == canvas.width,
                height == canvas.height,
                3 * width * height <= usize::MAX,
                y < height,
                x <= width,
                bytes@.len() == 3 * (y * width + x),
                forall|i: int, j: int|
                    0 <= i < width && (0 <= j < y || (j == y && i < x)) ==> {
                        let at = 3 * (j * width + i);
                        let color = #[trigger] canvas.pixel(i, j);
                        &&& bytes@[at] == channel_byte(color.r)
                        &&& bytes@[at + 1] == channel_byte(color.g)
                        &&& bytes@[at + 2] == channel_byte(color.b)
                    },
            decreases width - x,
        {
            let color = canvas.data[y as usize][x as usize];
            let (r, g, b) = quantize(&color);
            proof {
                let w = width as int;
                let before = 3 * (y * w + x);
                assert forall|i: int, j: int|
                    0 <= i < w && (0 <= j < y || (j == y && i < x)) implies {
                        let color = #[trigger] canvas.pixel(i, j);
                        3 * (j * w + i) + 2 < before
                    } by {
                    assert(j * w + i < y * w + x) by (nonlinear_arith)
                        requires
                            0 <= i < w,
                            0 <= j < y || (j == y && i < x),
                    ;
                }
                assert(3 * (y * w + x) + 3 <= 3 * w * height) by (nonlinear_arith)
                    requires
                        0 <= x < w,
                        0 <= y < height,
                ;
            }
            bytes.push(r);
            bytes.push(g);
            bytes.push(b);
            x = x + 1;
        }
        y = y + 1;
        proof {
            assert(3 * ((y - 1) * width + width) == 3 * (y * width)) by (nonlinear_arith);
        }
    }
    proof {
        assert(3 * (height * width) == 3 * width * height) by (nonlinear_arith);
    }
    bytes
}

} // verus!
