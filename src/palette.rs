//! What a renderer draws for each tile: colours, shades and glyphs. The
//! drawing itself is left to the renderer.

use crate::climate::{Biome, UNIT};
use crate::landmass::{Feature, Landmass};
use vstd::prelude::*;

verus! {

/// A colour as red, green and blue channels.
pub type Rgb = (u8, u8, u8);

/// `v` saturated to a byte, as a float-to-byte cast saturates.
pub open spec fn byte_of(v: int) -> u8 {
    if v < 0 {
        0
    } else if v > 255 {
        255
    } else {
        v as u8
    }
}

/// The grey level of a normalised map value: `127 (v + 1)`, rounded down.
pub open spec fn level_shade(v: int) -> u8 {
    byte_of((127 * (v + UNIT)) / UNIT as int)
}

/// The grey level of a normalised map value in an exported image:
/// `127 v + 128`, rounded down.
pub open spec fn image_shade(v: int) -> u8 {
    byte_of((127 * v) / UNIT as int + 128)
}

/// The colour of each biome.
pub open spec fn biome_color(b: Biome) -> Rgb {
    match b {
        Biome::Tundra => (147, 168, 173),
        Biome::BorealForest => (0, 80, 70),
        Biome::TemperateRainforest => (25, 55, 0),
        Biome::TemperateSeasonalForest => (145, 215, 70),
        Biome::Shrubland => (130, 150, 100),
        Biome::ColdDesert => (210, 190, 140),
        Biome::TropicalRainforest => (48, 127, 55),
        Biome::Savanna => (202, 139, 43),
        Biome::SubtropicalDesert => (245, 200, 80),
    }
}

/// Channel `c` darkened by height: `c (1 + height) / 2`, rounded down.
pub open spec fn shaded(c: int, height: int) -> u8 {
    byte_of((c * (UNIT + height)) / (2 * UNIT) as int)
}

/// How a tile of biome `b` and height `height` is drawn, as foreground,
/// background and glyph. The background is the biome colour darkened by
/// height; forests get a tree glyph of their own colour; high ground (above
/// 0.6, and above 0.4) a mountain glyph.
pub open spec fn biome_tile(b: Biome, height: int) -> (Rgb, Rgb, char) {
    let c = biome_color(b);
    let bg = (shaded(c.0 as int, height), shaded(c.1 as int, height), shaded(c.2 as int, height));
    if height > 600_000 {
        ((255, 255, 255), bg, '^')
    } else if height > 400_000 {
        ((90, 70, 70), bg, '^')
    } else {
        match b {
            Biome::TropicalRainforest => ((0, 100, 0), bg, 't'),
            Biome::BorealForest => ((0, 60, 0), bg, 't'),
            Biome::TemperateSeasonalForest => ((70, 100, 40), bg, 'p'),
            _ => (bg, bg, '#'),
        }
    }
}

/// How a tile with feature `f` and height `height` is drawn.
pub open spec fn feature_tile(f: Feature, height: int) -> (Rgb, Rgb, char) {
    let v = level_shade(height);
    match f {
        Feature::RiverSource => ((0, 255, 255), (0, 0, v), 'o'),
        Feature::River => ((0, 80, v), (0, 0, v), '~'),
        Feature::Ocean => ((0, 0, v), (0, 0, v), '~'),
    }
}

/// `v` saturated to a byte.
fn to_byte(v: i128) -> (r: u8)
    ensures
        r == byte_of(v as int),
{
    if v < 0 {
        0
    } else if v > 255 {
        255
    } else {
        v as u8
    }
}

/// `a / d`, rounded down, for a positive `d`.
fn floor_div(a: i128, d: i128) -> (r: i128)
    requires
        d > 0,
    ensures
        r == a / d,
{
    if a >= 0 {
        a / d
    } else {
        let q = (-(a + 1)) / d;
        proof {
            let m = -(a + 1);
            let r1 = m % (d as int);
            vstd::arithmetic::div_mod::lemma_fundamental_div_mod(m, d as int);
            assert(a as int == (-q - 1) * d + (d - 1 - r1)) by (nonlinear_arith)
                requires
                    m == d * q + r1,
                    m == -(a + 1),
            ;
            vstd::arithmetic::div_mod::lemma_fundamental_div_mod_converse_div(a as int, d as int, -q - 1, d - 1 - r1);
        }
        -q - 1
    }
}

/// The grey level of a normalised map value; see `level_shade`.
pub fn shade_of_level(v: i64) -> (r: u8)
    ensures
        r == level_shade(v as int),
{
    to_byte(floor_div(127 * (v as i128 + UNIT as i128), UNIT as i128))
}

/// The grey level of a normalised map value in an exported image; see
/// `image_shade`.
pub fn image_shade_of_level(v: i64) -> (r: u8)
    ensures
        r == image_shade(v as int),
{
    to_byte(floor_div(127 * (v as i128), UNIT as i128) + 128)
}

impl Biome {
    /// The colour of this biome.
    pub fn get_color(&self) -> (r: Rgb)
        ensures
            r == biome_color(*self),
    {
        match self {
            Biome::Tundra => (147, 168, 173),
            Biome::BorealForest => (0, 80, 70),
            Biome::TemperateRainforest => (25, 55, 0),
            Biome::TemperateSeasonalForest => (145, 215, 70),
            Biome::Shrubland => (130, 150, 100),
            Biome::ColdDesert => (210, 190, 140),
            Biome::TropicalRainforest => (48, 127, 55),
            Biome::Savanna => (202, 139, 43),
            Biome::SubtropicalDesert => (245, 200, 80),
        }
    }
}

/// Channel `c` darkened by height; see `shaded`.
fn shade_channel(c: u8, height: i64) -> (r: u8)
    ensures
        r == shaded(c as int, height as int),
{
    let level = UNIT as i128 + height as i128;
    assert(-(256 * 0x1_0000_0000_0000_0000) <= (c as i128) * level <= 256 * 0x1_0000_0000_0000_0000) by (nonlinear_arith)
        requires
            0 <= c < 256,
            -0x1_0000_0000_0000_0000 <= level <= 0x1_0000_0000_0000_0000,
    ;
    to_byte(floor_div((c as i128) * level, 2 * UNIT as i128))
}

impl<const X: usize, const Y: usize> Landmass<X, Y> {
    /// How tile `(x, y)` is drawn as biome `biome`; see `biome_tile`.
    pub fn get_biome_tile(&self, biome: Biome, x: usize, y: usize) -> (r: (Rgb, Rgb, char))
        requires
            self.wf(),
            x < X,
            y < Y,
        ensures
            r == biome_tile(biome, self.height_map@[x as int][y as int] as int),
    {
        let h = *self.height_map.get(x, y);
        let c = biome.get_color();
        let bg = (shade_channel(c.0, h), shade_channel(c.1, h), shade_channel(c.2, h));
        let mut fg = bg;
        let mut glyph = '#';
        match biome {
            Biome::TropicalRainforest => {
                fg = (0, 100, 0);
                glyph = 't';
            },
            Biome::BorealForest => {
                fg = (0, 60, 0);
                glyph = 't';
            },
            Biome::TemperateSeasonalForest => {
                fg = (70, 100, 40);
                glyph = 'p';
            },
            _ => {},
        }
        if h > 600_000 {
            fg = (255, 255, 255);
            glyph = '^';
        } else if h > 400_000 {
            fg = (90, 70, 70);
            glyph = '^';
        }
        (fg, bg, glyph)
    }

    /// How tile `(x, y)` is drawn on the terrain map: by its feature if it
    /// has one, else by its biome.
    pub fn terrain_tile(&self, x: usize, y: usize) -> (r: (Rgb, Rgb, char))
        requires
            self.wf(),
            x < X,
            y < Y,
        ensures
            r == match self.feature_at((x, y)) {
                Some(f) => feature_tile(f, self.height_map@[x as int][y as int] as int),
                None => biome_tile(
                    self.biome_map@[x as int][y as int],
                    self.height_map@[x as int][y as int] as int,
                ),
            },
    {
        let h = *self.height_map.get(x, y);
        let v = shade_of_level(h);
        match self.feature(x, y) {
            Some(Feature::RiverSource) => ((0, 255, 255), (0, 0, v), 'o'),
            Some(Feature::River) => ((0, 80, v), (0, 0, v), '~'),
            Some(Feature::Ocean) => ((0, 0, v), (0, 0, v), '~'),
            None => {
                let biome = *self.biome_map.get(x, y);
                self.get_biome_tile(biome, x, y)
            },
        }
    }
}

} // verus!
