//! Textures: colours looked up by surface coordinates.
use crate::math::vector::{Color, P3, V3};
use crate::scalar::{floor_div_wide, real_mul, spec_mul, Real, ONE, ONE_WIDE};
use vstd::prelude::*;

verus! {

/// One colour everywhere.
#[derive(Debug)]
pub struct SolidColor {
    pub color: Color,
}

/// Two colours that alternate in squares of side `1 / inv_scale`.
#[derive(Debug)]
pub struct CheckeredTexture {
    pub color1: Color,
    pub color2: Color,
    pub inv_scale: Real,
}

/// A grid of colours, row by row from the top, each multiplied by a tint.
#[derive(Debug)]
pub struct ImageTexture {
    pub width: u32,
    pub height: u32,
    pub data: Vec<Color>,
    pub tint: Color,
}

#[derive(Debug)]
pub enum Texture {
    SolidColor(SolidColor),
    Checkered(CheckeredTexture),
    Image(ImageTexture),
}

/// The whole part of a real, rounded down.
pub open spec fn whole_part(x: int) -> int {
    x / (ONE as int)
}

/// A real cut off to the interval from zero to one.
pub open spec fn clamp_unit(x: Real) -> Real {
    if x < 0 {
        0
    } else if x > ONE {
        ONE
    } else {
        x
    }
}

/// The cell of a row of `n` cells that holds the fraction `x` of the row:
/// the last cell for `x == ONE`.
pub open spec fn cell_index(x: Real, n: u32) -> int {
    let i = (clamp_unit(x) * n) / (ONE as int);
    if i >= n {
        n - 1
    } else {
        i
    }
}

impl SolidColor {
    pub fn new(color: Color) -> (t: SolidColor)
        ensures
            t.color == color,
    {
        SolidColor { color }
    }
}

impl Default for CheckeredTexture {
    /// White and black squares, sixty-four to a unit.
    fn default() -> (t: CheckeredTexture)
        ensures
            t.color1 == (V3 { x: ONE, y: ONE, z: ONE }),
            t.color2 == (V3 { x: 0, y: 0, z: 0 }),
            t.inv_scale == 64 * ONE,
    {
        CheckeredTexture {
            color1: V3 { x: ONE, y: ONE, z: ONE },
            color2: V3 { x: 0, y: 0, z: 0 },
            inv_scale: 64 * ONE,
        }
    }
}

impl CheckeredTexture {
    /// Squares of side `scale`.
    pub fn new(color1: Color, color2: Color, scale: Real) -> (t: CheckeredTexture)
        ensures
            t.color1 == color1,
            t.color2 == color2,
            t.inv_scale == crate::scalar::spec_div(ONE, scale),
    {
        CheckeredTexture { color1, color2, inv_scale: crate::scalar::real_div(ONE, scale) }
    }

    /// The colour of the square that holds `uv`: the first colour where the
    /// square's two indices add up to an even number.
    pub open spec fn spec_color(self, uv: (Real, Real)) -> Color {
        let x = whole_part(spec_mul(uv.0, self.inv_scale));
        let y = whole_part(spec_mul(uv.1, self.inv_scale));
        if (x + y) % 2 == 0 {
            self.color1
        } else {
            self.color2
        }
    }
}

impl ImageTexture {
    /// The grid has a cell, and a colour within bounds for every cell.
    pub open spec fn wf(self) -> bool {
        &&& self.width > 0
        &&& self.height > 0
        &&& self.data@.len() == self.width * self.height
        &&& self.tint.wf()
        &&& forall|i: int| 0 <= i < self.data@.len() ==> (#[trigger] self.data@[i]).wf()
    }

    /// The cell that holds `uv`, with `v` counted from the bottom row.
    pub open spec fn spec_index(self, uv: (Real, Real)) -> int {
        let i = cell_index(uv.0, self.width);
        let j = cell_index((ONE - clamp_unit(uv.1)) as Real, self.height);
        j * self.width + i
    }

    pub open spec fn spec_color(self, uv: (Real, Real)) -> Color {
        self.data@[self.spec_index(uv)].spec_component_mul(self.tint)
    }

    /// `None` unless `data` holds `width * height` colours, with at least one
    /// row and one column.
    pub fn new(width: u32, height: u32, data: Vec<Color>, tint: Color) -> (t: Option<ImageTexture>)
        ensures
            t is Some <==> (width > 0 && height > 0 && data@.len() == width * height),
            t matches Some(img) ==> img.width == width && img.height == height && img.data@
                == data@ && img.tint == tint,
    {
        if width == 0 || height == 0 {
            return None;
        }
        assert(width * height <= 0xffff_ffff * 0xffff_ffff) by (nonlinear_arith)
            requires
                0 <= width <= 0xffff_ffff,
                0 <= height <= 0xffff_ffff,
        ;
        let cells: u64 = (width as u64) * (height as u64);
        if data.len() as u64 != cells {
            return None;
        }
        Some(ImageTexture { width, height, data, tint })
    }
}

/// The cell of a row of `n` cells that holds the fraction `x`.
fn cell(x: Real, n: u32) -> (i: u32)
    requires
        n > 0,
    ensures
        i == cell_index(x, n),
        i < n,
{
    let c: Real = if x < 0 {
        0
    } else if x > ONE {
        ONE
    } else {
        x
    };
    assert(0 <= c * n <= 0x10_0000 * 0xffff_ffff) by (nonlinear_arith)
        requires
            0 <= c <= 0x10_0000,
            0 <= n <= 0xffff_ffff,
    ;
    let wide: i128 = (c as i128) * (n as i128);
    let q: i128 = floor_div_wide(wide, ONE_WIDE);
    proof {
        assert(c * n <= 0x10_0000 * n) by (nonlinear_arith)
            requires
                0 <= c <= 0x10_0000,
                0 <= n,
        ;
        vstd::arithmetic::div_mod::lemma_div_pos_is_pos(wide as int, 0x10_0000);
        vstd::arithmetic::div_mod::lemma_div_is_ordered(wide as int, 0x10_0000 * n, 0x10_0000);
        vstd::arithmetic::div_mod::lemma_div_multiples_vanish(n as int, 0x10_0000);
    }
    if q >= n as i128 {
        n - 1
    } else {
        q as u32
    }
}

impl Texture {
    /// Every colour of the texture lies within the saturation bounds.
    pub open spec fn wf(self) -> bool {
        match self {
            Texture::SolidColor(t) => t.color.wf(),
            Texture::Checkered(t) => t.color1.wf() && t.color2.wf(),
            Texture::Image(t) => t.wf(),
        }
    }

    /// Every colour of the texture has its components between zero and one.
    pub open spec fn is_reflectance(self) -> bool {
        match self {
            Texture::SolidColor(t) => t.color.is_unit_color(),
            Texture::Checkered(t) => t.color1.is_unit_color() && t.color2.is_unit_color(),
            Texture::Image(t) => t.tint.is_unit_color() && forall|i: int|
                0 <= i < t.data@.len() ==> (#[trigger] t.data@[i]).is_unit_color(),
        }
    }

    /// The colour at the surface coordinates `uv`.
    pub open spec fn spec_color(self, uv: (Real, Real)) -> Color {
        match self {
            Texture::SolidColor(t) => t.color,
            Texture::Checkered(t) => t.spec_color(uv),
            Texture::Image(t) => t.spec_color(uv),
        }
    }

    /// The colour at the surface coordinates `uv`. The point in space is
    /// there for textures that vary in space; none of these does.
    pub fn color(&self, uv: (Real, Real), point: &P3) -> (c: Color)
        requires
            self.wf(),
        ensures
            c == self.spec_color(uv),
            c.wf(),
    {
        match self {
            Texture::SolidColor(t) => t.color,
            Texture::Checkered(t) => {
                let x: i128 = floor_div_wide(real_mul(uv.0, t.inv_scale) as i128, ONE_WIDE);
                let y: i128 = floor_div_wide(real_mul(uv.1, t.inv_scale) as i128, ONE_WIDE);
                let s: i128 = x + y;
                if s % 2 == 0 {
                    t.color1
                } else {
                    t.color2
                }
            },
            Texture::Image(t) => {
                let i: u32 = cell(uv.0, t.width);
                let c: Real = if uv.1 < 0 {
                    0
                } else if uv.1 > ONE {
                    ONE
                } else {
                    uv.1
                };
                let j: u32 = cell(ONE - c, t.height);
                assert(0 <= j * t.width && j * t.width + i < t.width * t.height)
                    by (nonlinear_arith)
                    requires
                        0 <= i < t.width,
                        0 <= j < t.height,
                ;
                let n: usize = t.data.len();
                assert(j * t.width <= j * t.width + i < n);
                let idx: usize = (j as usize) * (t.width as usize) + (i as usize);
                assert(t.data@[idx as int].wf());
                t.data[idx].component_mul(&t.tint)
            },
        }
    }
}

/// The product of two colours between zero and one lies between zero and one.
pub proof fn lemma_unit_color_product(a: Color, b: Color)
    requires
        a.is_unit_color(),
        b.is_unit_color(),
    ensures
        a.spec_component_mul(b).is_unit_color(),
{
    lemma_unit_product(a.x, b.x);
    lemma_unit_product(a.y, b.y);
    lemma_unit_product(a.z, b.z);
}

/// The product of two reals between zero and one lies between zero and one.
pub proof fn lemma_unit_product(a: Real, b: Real)
    requires
        0 <= a <= ONE,
        0 <= b <= ONE,
    ensures
        0 <= spec_mul(a, b) <= ONE,
{
    assert(0 <= a * b <= 0x10_0000 * 0x10_0000) by (nonlinear_arith)
        requires
            0 <= a <= 0x10_0000,
            0 <= b <= 0x10_0000,
    ;
    vstd::arithmetic::div_mod::lemma_div_pos_is_pos(a * b, 0x10_0000);
    vstd::arithmetic::div_mod::lemma_div_is_ordered(a * b, 0x100_0000_0000int, 0x10_0000);
}

} // verus!
