//! Colors and the fixed-size pixel grid.
//!
//! A `Color` carries its three channels as IEEE-754 single-precision bit
//! patterns, so channel values are kept exactly (including values outside
//! `[0, 1]`) and color equality is bit-for-bit. A `Canvas` owns a row-major
//! buffer of `width * height` colors; the color at `(x, y)` sits at index
//! `x + width * y`.

use vstd::prelude::*;

verus! {

use crate::channel::{scale_channel, scaled_channel};
use crate::ppm::{ppm_bytes, Ppm};

/// A color as (red, green, blue) channels, each the bit pattern of an
/// IEEE-754 single-precision number. Channels are unbounded: values outside
/// `[0, 1]` are kept as given and only reduced to `0..=255` at serialization.
#[derive(Clone, Copy, PartialEq, Eq, Structural, Debug)]
pub struct Color {
    pub red: u32,
    pub green: u32,
    pub blue: u32,
}

impl Color {
    pub fn new(red: u32, green: u32, blue: u32) -> (c: Color)
        ensures
            c == (Color { red, green, blue }),
    {
        Color { red, green, blue }
    }

    /// The channels as stored, in (red, green, blue) order.
    pub fn get_raw(&self) -> (rgb: (u32, u32, u32))
        ensures
            rgb == (self.red, self.green, self.blue),
    {
        (self.red, self.green, self.blue)
    }

    /// The channels reduced to 8 bits, in (red, green, blue) order.
    pub fn get_rgb(&self) -> (rgb: (u8, u8, u8))
        ensures
            rgb == (scaled_channel(self.red), scaled_channel(self.green), scaled_channel(self.blue)),
    {
        (scale_channel(self.red), scale_channel(self.green), scale_channel(self.blue))
    }
}

/// Failure of a bounds-checked pixel read.
#[derive(Clone, Copy, PartialEq, Eq, Structural, Debug)]
pub enum CanvasError {
    OutOfBounds,
}

/// The color a canvas is filled with at creation: the given one, or black.
pub open spec fn fill_color(color: Option<Color>) -> Color {
    match color {
        Some(c) => c,
        None => Color { red: 0, green: 0, blue: 0 },
    }
}

/// A fixed-size grid of colors, stored row-major: `(x, y)` at `x + width * y`.
pub struct Canvas {
    width: usize,
    height: usize,
    buffer: Vec<Color>,
}

impl View for Canvas {
    type V = Seq<Color>;

    closed spec fn view(&self) -> Seq<Color> {
        self.buffer@
    }
}

/// In-range coordinates reach an in-range row-major index.
pub proof fn lemma_row_major_in_range(x: nat, y: nat, w: nat, h: nat)
    requires
        x < w,
        y < h,
    ensures
        x + w * y < w * h,
{
    assert(x + w * y < w * h) by (nonlinear_arith)
        requires
            x < w,
            y < h,
    ;
}

/// Distinct in-range coordinates reach distinct row-major indices.
pub proof fn lemma_row_major_index_injective(x1: nat, y1: nat, x2: nat, y2: nat, w: nat, h: nat)
    requires
        x1 < w,
        y1 < h,
        x2 < w,
        y2 < h,
        x1 + w * y1 == x2 + w * y2,
    ensures
        x1 == x2,
        y1 == y2,
{
    assert(x1 == x2 && y1 == y2) by (nonlinear_arith)
        requires
            x1 < w,
            x2 < w,
            x1 + w * y1 == x2 + w * y2,
    ;
}

/// Writing an in-range pixel changes that pixel to the written color and no
/// other: reading back `(x, y)` gives `c`, and any other in-range `(x2, y2)`
/// reads as before the write.
pub proof fn lemma_write_then_read(
    before: Seq<Color>,
    w: nat,
    h: nat,
    x: nat,
    y: nat,
    c: Color,
    x2: nat,
    y2: nat,
)
    requires
        before.len() == w * h,
        x < w,
        y < h,
        x2 < w,
        y2 < h,
    ensures
        before.update((x + w * y) as int, c)[(x + w * y) as int] == c,
        !(x2 == x && y2 == y) ==> before.update((x + w * y) as int, c)[(x2 + w * y2) as int]
            == before[(x2 + w * y2) as int],
{
    lemma_row_major_in_range(x, y, w, h);
    lemma_row_major_in_range(x2, y2, w, h);
    if !(x2 == x && y2 == y) && x2 + w * y2 == x + w * y {
        lemma_row_major_index_injective(x, y, x2, y2, w, h);
    }
}

impl Canvas {
    /// The buffer holds exactly one color per coordinate.
    #[verifier::type_invariant]
    pub closed spec fn wf(&self) -> bool {
        &&& self.buffer@.len() == self.width * self.height
        &&& self.width * self.height <= usize::MAX
    }

    pub closed spec fn spec_width(&self) -> nat {
        self.width as nat
    }

    pub closed spec fn spec_height(&self) -> nat {
        self.height as nat
    }

    /// A `width` by `height` canvas with every pixel set to `color`, or to
    /// black when no color is given. Zero dimensions give an empty canvas.
    pub fn new(width: usize, height: usize, color: Option<Color>) -> (cv: Canvas)
        requires
            width * height <= usize::MAX,
        ensures
            cv.spec_width() == width,
            cv.spec_height() == height,
            cv@.len() == width * height,
            forall|i: int| 0 <= i < cv@.len() ==> cv@[i] == fill_color(color),
    {
        let fill = match color {
            Some(c) => c,
            None => Color::new(0, 0, 0),
        };
        let n: usize = width * height;
        let mut buffer: Vec<Color> = Vec::new();
        let mut i: usize = 0;
        while i < n
            invariant
                i <= n,
                buffer@.len() == i,
                fill == fill_color(color),
                forall|j: int| 0 <= j < i ==> buffer@[j] == fill_color(color),
            decreases n - i,
        {
            buffer.push(fill);
            i = i + 1;
            proof {
                assert(buffer@[i - 1] == fill);
            }
        }
        Canvas { width, height, buffer }
    }

    pub fn get_height(&self) -> (h: usize)
        ensures
            h == self.spec_height(),
    {
        self.height
    }

    pub fn get_width(&self) -> (w: usize)
        ensures
            w == self.spec_width(),
    {
        self.width
    }

    /// The number of pixels, `width * height`.
    pub fn len(&self) -> (n: usize)
        ensures
            n == self@.len(),
            n == self.spec_width() * self.spec_height(),
    {
        proof {
            use_type_invariant(self);
        }
        self.width * self.height
    }

    /// The row-major buffer index of in-range coordinates.
    fn get_index(&self, x: usize, y: usize) -> (i: usize)
        requires
            x < self.spec_width(),
            y < self.spec_height(),
        ensures
            i == x + self.spec_width() * y,
            i < self@.len(),
    {
        proof {
            use_type_invariant(self);
            lemma_row_major_in_range(x as nat, y as nat, self.spec_width(), self.spec_height());
        }
        x + self.width * y
    }

    /// Sets the pixel at in-range `(x, y)` to `color`; a write outside the
    /// canvas is deliberately a silent no-op.
    pub fn write_pixel(&mut self, x: usize, y: usize, color: &Color)
        ensures
            final(self).spec_width() == old(self).spec_width(),
            final(self).spec_height() == old(self).spec_height(),
            x < old(self).spec_width() && y < old(self).spec_height() ==> final(self)@ == old(
                self,
            )@.update((x + old(self).spec_width() * y) as int, *color),
            !(x < old(self).spec_width() && y < old(self).spec_height()) ==> final(self)@ == old(
                self,
            )@,
    {
        proof {
            use_type_invariant(&*self);
        }
        if x < self.width && y < self.height {
            let idx = self.get_index(x, y);
            self.buffer[idx] = *color;
        }
    }

    /// The color at `(x, y)`, or `OutOfBounds` when a coordinate is outside
    /// the canvas.
    pub fn pixel_at(&self, x: usize, y: usize) -> (r: Result<Color, CanvasError>)
        ensures
            x < self.spec_width() && y < self.spec_height() ==> r == Ok::<Color, CanvasError>(
                self@[(x + self.spec_width() * y) as int],
            ),
            !(x < self.spec_width() && y < self.spec_height()) ==> r == Err::<Color, CanvasError>(
                CanvasError::OutOfBounds,
            ),
    {
        if x < self.width && y < self.height {
            let idx = self.get_index(x, y);
            Ok(self.buffer[idx])
        } else {
            Err(CanvasError::OutOfBounds)
        }
    }

    /// The color at row-major index `i`.
    pub(crate) fn color_at(&self, i: usize) -> (c: Color)
        requires
            i < self@.len(),
        ensures
            c == self@[i as int],
    {
        self.buffer[i]
    }

    /// Serializes the canvas.
    pub fn to_ppm(&self) -> (p: Ppm)
        ensures
            p@ == ppm_bytes(self.spec_width(), self.spec_height(), self@),
    {
        Ppm::stringify(self)
    }
}

/// A restartable forward pass over a canvas's pixels in row-major order.
pub struct CanvasIter<'a> {
    inner: &'a Canvas,
    index: usize,
}

impl<'a> CanvasIter<'a> {
    pub closed spec fn spec_canvas(&self) -> Canvas {
        *self.inner
    }

    pub closed spec fn spec_index(&self) -> nat {
        self.index as nat
    }

    pub fn new(canvas: &'a Canvas) -> (it: CanvasIter<'a>)
        ensures
            it.spec_canvas() == *canvas,
            it.spec_index() == 0,
    {
        CanvasIter { inner: canvas, index: 0 }
    }

    /// The next pixel in row-major order, or `None` once all have been seen.
    pub fn next(&mut self) -> (r: Option<Color>)
        ensures
            final(self).spec_canvas() == old(self).spec_canvas(),
            old(self).spec_index() < old(self).spec_canvas()@.len() ==> {
                &&& final(self).spec_index() == old(self).spec_index() + 1
                &&& r == Some::<Color>(old(self).spec_canvas()@[old(self).spec_index() as int])
            },
            old(self).spec_index() >= old(self).spec_canvas()@.len() ==> {
                &&& final(self).spec_index() == old(self).spec_index()
                &&& r is None
            },
    {
        if self.index < self.inner.len() {
            let c = self.inner.color_at(self.index);
            self.index = self.index + 1;
            Some(c)
        } else {
            None
        }
    }
}

} // verus!
