//! Textures: a solid color, or a checker pattern alternating between two
//! textures on a cubic lattice.

use crate::arith::floor_div_i64;
use crate::vec3::{Color, Point3, Vec3};
use crate::S_ONE;
use vstd::prelude::*;

verus! {

/// A texture that is the same color everywhere.
pub struct SolidColor {
    pub color_value: Color,
}

/// A texture alternating between two others on a cubic lattice of the given
/// cell size.
pub struct CheckerTexture {
    pub cell: i64,
    pub even: Texture,
    pub odd: Texture,
}

/// A closed set of textures.
pub enum Texture {
    Solid(SolidColor),
    Checker(Box<CheckerTexture>),
}

/// Valid texture data: positive cell sizes and color channels in
/// `[0, S_ONE]`.
pub open spec fn texture_wf(t: Texture) -> bool
    decreases t,
{
    match t {
        Texture::Solid(s) => 0 <= s.color_value.x <= S_ONE && 0 <= s.color_value.y <= S_ONE && 0
            <= s.color_value.z <= S_ONE,
        Texture::Checker(c) => 1 <= c.cell && texture_wf(c.even) && texture_wf(c.odd),
    }
}

/// The color of the texture at a surface point: for a checker, the parity of
/// the lattice cell that contains the point picks the sub-texture.
pub open spec fn texture_value(t: Texture, p: Vec3) -> Color
    decreases t,
{
    match t {
        Texture::Solid(s) => s.color_value,
        Texture::Checker(c) => {
            if (p.x / c.cell + p.y / c.cell + p.z / c.cell) % 2 == 0 {
                texture_value(c.even, p)
            } else {
                texture_value(c.odd, p)
            }
        },
    }
}

impl SolidColor {
    /// A solid color from its three channels.
    pub fn from_rgb(red: i64, green: i64, blue: i64) -> (r: SolidColor)
        ensures
            r.color_value == (Vec3 { x: red, y: green, z: blue }),
    {
        SolidColor { color_value: Vec3 { x: red, y: green, z: blue } }
    }
}

impl From<Color> for SolidColor {
    fn from(color_value: Color) -> (r: SolidColor) {
        SolidColor { color_value }
    }
}

impl vstd::std_specs::convert::FromSpecImpl<Color> for SolidColor {
    open spec fn obeys_from_spec() -> bool {
        true
    }

    open spec fn from_spec(v: Color) -> SolidColor {
        SolidColor { color_value: v }
    }
}

impl CheckerTexture {
    /// A checker of two textures with the given lattice cell size (on the
    /// `S_ONE` scale).
    pub fn new(scale: i64, even: Texture, odd: Texture) -> (r: CheckerTexture)
        requires
            1 <= scale,
        ensures
            r.cell == scale,
            r.even == even,
            r.odd == odd,
    {
        CheckerTexture { cell: scale, even, odd }
    }

    /// A checker of two solid colors.
    pub fn from_color(scale: i64, c1: Color, c2: Color) -> (r: CheckerTexture)
        requires
            1 <= scale,
        ensures
            r.cell == scale,
            r.even == Texture::Solid(SolidColor { color_value: c1 }),
            r.odd == Texture::Solid(SolidColor { color_value: c2 }),
    {
        CheckerTexture {
            cell: scale,
            even: Texture::Solid(SolidColor { color_value: c1 }),
            odd: Texture::Solid(SolidColor { color_value: c2 }),
        }
    }
}

impl Texture {
    /// The color at surface coordinates `(u, v)` and point `p`; the surface
    /// coordinates are carried for texture kinds that will use them.
    #[allow(unused_variables)]
    pub fn value(&self, u: i64, v: i64, p: Point3) -> (r: Color)
        requires
            texture_wf(*self),
            p.in_bounds(0x100_0000_0000),
        ensures
            r == texture_value(*self, p),
            0 <= r.x <= S_ONE && 0 <= r.y <= S_ONE && 0 <= r.z <= S_ONE,
        decreases *self,
    {
        match self {
            Texture::Solid(s) => s.color_value,
            Texture::Checker(c) => {
                let ix = floor_div_i64(p.x, c.cell);
                let iy = floor_div_i64(p.y, c.cell);
                let iz = floor_div_i64(p.z, c.cell);
                proof {
                    crate::vec3::lemma_div_bound(p.x as int, c.cell as int, 0x100_0000_0000);
                    crate::vec3::lemma_div_bound(p.y as int, c.cell as int, 0x100_0000_0000);
                    crate::vec3::lemma_div_bound(p.z as int, c.cell as int, 0x100_0000_0000);
                }
                let sum = ix + iy + iz;
                let half = floor_div_i64(sum, 2);
                let parity = sum - 2 * half;
                proof {
                    vstd::arithmetic::div_mod::lemma_fundamental_div_mod(sum as int, 2);
                }
                if parity == 0 {
                    c.even.value(u, v, p)
                } else {
                    c.odd.value(u, v, p)
                }
            },
        }
    }
}

impl Clone for SolidColor {
    fn clone(&self) -> (r: Self)
        ensures
            r == *self,
    {
        SolidColor { color_value: self.color_value }
    }
}

impl Clone for Texture {
    fn clone(&self) -> (r: Self)
        ensures
            r == *self,
        decreases *self,
    {
        match self {
            Texture::Solid(s) => Texture::Solid(s.clone()),
            Texture::Checker(c) => Texture::Checker(
                Box::new(
                    CheckerTexture { cell: c.cell, even: c.even.clone(), odd: c.odd.clone() },
                ),
            ),
        }
    }
}

impl Clone for CheckerTexture {
    fn clone(&self) -> (r: Self)
        ensures
            r == *self,
    {
        CheckerTexture { cell: self.cell, even: self.even.clone(), odd: self.odd.clone() }
    }
}

} // verus!
