//! The world: its maps, the feature overlay, and the generation pipeline
//! height, precipitation, temperature, biome, ocean, rivers.

use crate::climate::{
    classify_biome, height_level, is_unit_level, precip_map_value_to_cm_rainfall,
    precipitation_level, precipitation_value, temp_map_value_to_degrees_c, temperature_level,
    temperature_value, tile_biome, Biome, UNIT,
};
use crate::grid::{adjacent, in_grid, lemma_push_contains_any, lemma_slot_injective, Grid};
use crate::lake::{is_flood_fill, lemma_fill_in_grid, lowest_on_frontier, Lake};
use crate::random::draw_below;
use std::collections::HashMap;
use vstd::prelude::*;

verus! {

broadcast use vstd::std_specs::hash::group_hash_axioms;

/// A tag laid over a tile, apart from its biome.
#[derive(Clone, Copy, Debug, PartialEq, Eq, Structural)]
pub enum Feature {
    RiverSource,
    River,
    Ocean,
}

/// The inputs of a generation run. Continuous values are fixed point, with
/// `UNIT` standing for `1.0`.
pub struct AutoGenConfig {
    /// Grid columns per unit of noise input along x.
    pub x_scale: i64,
    /// Grid rows per unit of noise input along y.
    pub y_scale: i64,
    /// The frequency of the height noise pass.
    pub landmass_frequency: i64,
    /// The frequency of the precipitation noise pass.
    pub precip_frequency: i64,
    /// Added to every tile's precipitation before it is saturated.
    pub precip_offset: i64,
    /// The frequency of the temperature noise pass.
    pub temperature_frequency: i64,
    /// Added to every tile's temperature before it is saturated.
    pub temperature_offset: i64,
    /// Tiles lower than this are sea.
    pub ocean_height: i64,
    /// The most tiles one river may claim, its source included.
    pub river_tile_limit: usize,
    /// The seed of every noise pass; when absent, each pass draws its own.
    pub seed: Option<u32>,
}

/// A generated world of `X` by `Y` tiles.
pub struct Landmass<const X: usize, const Y: usize> {
    pub height_map: Grid<i64, X, Y>,
    pub precip_map: Grid<i64, X, Y>,
    pub biome_map: Grid<Biome, X, Y>,
    pub temperature_map: Grid<i64, X, Y>,
    /// The sparse overlay: tile `(x, y)` is keyed by its slot `x * Y + y`.
    pub features: HashMap<usize, Feature>,
    pub render: bool,
}

/// Whether tile `p` lies, past its source, on one of the flood fills
/// `fills`.
pub open spec fn covered_by(fills: Seq<Seq<(usize, usize)>>, p: (usize, usize)) -> bool {
    exists|i: int| 0 <= i < fills.len() && #[trigger] fills[i].drop_first().contains(p)
}

/// Adding a fill covers what it covers besides what was covered.
proof fn lemma_covered_push(fills: Seq<Seq<(usize, usize)>>, c: Seq<(usize, usize)>, p: (usize, usize))
    ensures
        covered_by(fills.push(c), p) <==> covered_by(fills, p) || c.drop_first().contains(p),
{
    let f = fills.push(c);
    assert(f[fills.len() as int] == c);
    if covered_by(fills, p) {
        let i = choose|i: int| 0 <= i < fills.len() && #[trigger] fills[i].drop_first().contains(p);
        assert(f[i] == fills[i]);
    }
    if covered_by(f, p) {
        let i = choose|i: int| 0 <= i < f.len() && #[trigger] f[i].drop_first().contains(p);
        if i < fills.len() {
            assert(f[i] == fills[i]);
        }
    }
}

/// The first `n` slots are `n` in number.
proof fn lemma_slots_len(n: nat)
    requires
        n <= usize::MAX + 1,
    ensures
        Set::new(|k: usize| k < n).finite(),
        Set::new(|k: usize| k < n).len() == n,
    decreases n,
{
    if n == 0 {
        assert(Set::new(|k: usize| k < n) =~= Set::<usize>::empty());
    } else {
        lemma_slots_len((n - 1) as nat);
        let last = (n - 1) as usize;
        assert(Set::new(|k: usize| k < n) =~= Set::new(|k: usize| k < (n - 1) as nat).insert(last));
        assert(!Set::new(|k: usize| k < (n - 1) as nat).contains(last));
    }
}

/// Whether `a` is visited before `b` by a pass over the tiles in row-major
/// order (by `x`, then by `y`).
pub open spec fn visited_before(a: (usize, usize), b: (usize, usize)) -> bool {
    a.0 < b.0 || (a.0 == b.0 && a.1 < b.1)
}

/// Whether `f` is a river source tag.
pub open spec fn is_source(f: Option<Feature>) -> bool {
    f == Some(Feature::RiverSource)
}

/// Whether a river-source draw `draw` (in millionths, from `[0, UNIT)`)
/// makes a source of a tile of precipitation `precip`: `draw / UNIT` exceeds
/// `1 - 0.1 precip / UNIT`.
pub open spec fn draw_spawns_source(precip: int, draw: int) -> bool {
    10 * draw > 10 * UNIT - precip
}

/// Decides whether a river-source draw makes a source; see
/// `draw_spawns_source`.
pub fn spawns_river_source(precip: i64, draw: u64) -> (r: bool)
    ensures
        r == draw_spawns_source(precip as int, draw as int),
{
    10 * (draw as i128) > 10 * (UNIT as i128) - precip as i128
}

impl AutoGenConfig {
    /// The seed of one noise pass: the configured seed, or else a fresh draw
    /// from the process-wide random source.
    pub fn pass_seed(&self) -> (r: u32)
        ensures
            self.seed matches Some(s) ==> r == s,
    {
        match self.seed {
            Some(s) => s,
            None => draw_below(4_294_967_296) as u32,
        }
    }
}

impl<const X: usize, const Y: usize> Landmass<X, Y> {
    /// The feature that a seeding pass, which turned `before` into `self`,
    /// found on neighbour `q` when it visited tile `p`: its final feature if
    /// `q` was visited earlier, its feature before the pass otherwise.
    pub open spec fn feature_when_visited(&self, before: &Self, q: (usize, usize), p: (usize, usize)) -> Option<
        Feature,
    > {
        if visited_before(q, p) {
            self.feature_at(q)
        } else {
            before.feature_at(q)
        }
    }

    /// Whether the seeding pass that turned `before` into `self` found a
    /// river source next to tile `p` when it visited `p`.
    pub open spec fn source_seen(&self, before: &Self, p: (usize, usize)) -> bool {
        exists|q: (usize, usize)|
            in_grid(q, X as int, Y as int) && adjacent(q, p) && is_source(
                #[trigger] self.feature_when_visited(before, q, p),
            )
    }

    /// The feature that the seeding pass, which turned `before` into `self`
    /// with the draws `draws`, leaves on tile `p`: a new river source where no
    /// source was seen next to `p` and the draw succeeds, else what `p` had.
    pub open spec fn seeded_feature(&self, before: &Self, draws: Seq<Seq<u64>>, p: (usize, usize)) -> Option<
        Feature,
    > {
        if !self.source_seen(before, p) && draw_spawns_source(
            before.precip_map@[p.0 as int][p.1 as int] as int,
            draws[p.0 as int][p.1 as int] as int,
        ) {
            Some(Feature::RiverSource)
        } else {
            before.feature_at(p)
        }
    }

    /// Well-formed: every map is well-formed and every overlay key is the
    /// slot of a tile.
    pub open spec fn wf(&self) -> bool {
        &&& self.height_map.wf()
        &&& self.precip_map.wf()
        &&& self.biome_map.wf()
        &&& self.temperature_map.wf()
        &&& forall|k: usize| #[trigger] self.features@.contains_key(k) ==> k < X * Y
    }

    /// The feature on tile `p`, if any.
    pub open spec fn feature_at(&self, p: (usize, usize)) -> Option<Feature> {
        let k = (p.0 * Y + p.1) as usize;
        if self.features@.contains_key(k) {
            Some(self.features@[k])
        } else {
            None
        }
    }

    /// The height of tile `p`.
    pub open spec fn height_of(&self, p: (usize, usize)) -> int {
        self.height_map@[p.0 as int][p.1 as int] as int
    }

    /// `self` and `other` hold the same maps; only the overlay may differ.
    pub open spec fn same_maps(&self, other: &Self) -> bool {
        &&& self.height_map == other.height_map
        &&& self.precip_map == other.precip_map
        &&& self.biome_map == other.biome_map
        &&& self.temperature_map == other.temperature_map
        &&& self.render == other.render
    }

    /// Whether `self` is `before` after tagging every tile lower than
    /// `ocean_height` as ocean, every other tile keeping its feature.
    pub open spec fn ocean_populated(&self, before: &Self, ocean_height: int) -> bool {
        &&& self.same_maps(before)
        &&& forall|p: (usize, usize)|
            in_grid(p, X as int, Y as int) ==> #[trigger] self.feature_at(p) == if before.height_of(p)
                < ocean_height {
                Some(Feature::Ocean)
            } else {
                before.feature_at(p)
            }
    }

    /// Whether every tile's biome is the classification of its temperature
    /// and precipitation.
    pub open spec fn biomes_classified(&self) -> bool {
        forall|x: int, y: int|
            0 <= x < X && 0 <= y < Y ==> #[trigger] self.biome_map@[x][y] == tile_biome(
                self.temperature_map@[x][y] as int,
                self.precip_map@[x][y] as int,
            )
    }

    /// The biome map is a function of the temperature and precipitation maps
    /// alone: worlds that agree on those maps get the same biome map, and
    /// within one world, tiles with equal temperature and precipitation get
    /// equal biomes.
    pub proof fn lemma_biome_map_is_pure(a: &Self, b: &Self)
        requires
            a.wf(),
            b.wf(),
            a.biomes_classified(),
            b.biomes_classified(),
            a.temperature_map@ == b.temperature_map@,
            a.precip_map@ == b.precip_map@,
        ensures
            a.biome_map@ == b.biome_map@,
            forall|x1: int, y1: int, x2: int, y2: int|
                0 <= x1 < X && 0 <= y1 < Y && 0 <= x2 < X && 0 <= y2 < Y && a.temperature_map@[x1][y1]
                    == a.temperature_map@[x2][y2] && a.precip_map@[x1][y1] == a.precip_map@[x2][y2]
                    ==> #[trigger] a.biome_map@[x1][y1] == #[trigger] a.biome_map@[x2][y2],
    {
        assert forall|x: int| 0 <= x < X implies #[trigger] a.biome_map@[x] =~= b.biome_map@[x] by {
            assert forall|y: int| 0 <= y < Y implies a.biome_map@[x][y] == b.biome_map@[x][y] by {
                assert(a.biome_map@[x][y] == tile_biome(
                    a.temperature_map@[x][y] as int,
                    a.precip_map@[x][y] as int,
                ));
                assert(b.biome_map@[x][y] == tile_biome(
                    b.temperature_map@[x][y] as int,
                    b.precip_map@[x][y] as int,
                ));
            }
        }
        assert(a.biome_map@ =~= b.biome_map@);
    }

    /// A world with every map at zero, every biome tundra, and no features.
    pub fn new() -> (r: Self)
        requires
            X * Y <= usize::MAX,
        ensures
            r.wf(),
            forall|x: int, y: int|
                0 <= x < X && 0 <= y < Y ==> {
                    &&& #[trigger] r.height_map@[x][y] == 0
                    &&& r.precip_map@[x][y] == 0
                    &&& r.temperature_map@[x][y] == 0
                    &&& r.biome_map@[x][y] == Biome::Tundra
                },
            r.features@ == Map::<usize, Feature>::empty(),
            !r.render,
    {
        Landmass {
            height_map: Grid::filled(0),
            precip_map: Grid::filled(0),
            biome_map: Grid::filled(Biome::Tundra),
            temperature_map: Grid::filled(0),
            features: HashMap::new(),
            render: false,
        }
    }

    /// The feature on tile `(x, y)`, if any.
    pub fn feature(&self, x: usize, y: usize) -> (r: Option<Feature>)
        requires
            self.wf(),
            x < X,
            y < Y,
        ensures
            r == self.feature_at((x, y)),
    {
        let k = self.height_map.slot(x, y);
        match self.features.get(&k) {
            Some(f) => Some(*f),
            None => None,
        }
    }

    /// Tags every tile lower than `ocean_height` as ocean; every other tile
    /// keeps its feature.
    pub fn populate_ocean(&mut self, ocean_height: i64)
        requires
            old(self).wf(),
        ensures
            final(self).wf(),
            final(self).ocean_populated(old(self), ocean_height as int),
    {
        let mut x: usize = 0;
        while x < X
            invariant
                self.wf(),
                self.same_maps(old(self)),
                x <= X,
                forall|p: (usize, usize)|
                    in_grid(p, X as int, Y as int) ==> #[trigger] self.feature_at(p) == if p.0 < x
                        && self.height_of(p) < ocean_height {
                        Some(Feature::Ocean)
                    } else {
                        old(self).feature_at(p)
                    },
            decreases X - x,
        {
            let mut y: usize = 0;
            while y < Y
                invariant
                    self.wf(),
                    self.same_maps(old(self)),
                    x < X,
                    y <= Y,
                    forall|p: (usize, usize)|
                        in_grid(p, X as int, Y as int) ==> #[trigger] self.feature_at(p) == if (p.0 < x || (
                        p.0 == x && p.1 < y)) && self.height_of(p) < ocean_height {
                            Some(Feature::Ocean)
                        } else {
                            old(self).feature_at(p)
                        },
                decreases Y - y,
            {
                if *self.height_map.get(x, y) < ocean_height {
                    self.put_feature(x, y, Feature::Ocean);
                }
                y += 1;
            }
            x += 1;
        }
    }

    /// Sets each tile's height from its noise sample: the sample, saturated
    /// to `[-UNIT, UNIT]`.
    pub fn generate_height_map(&mut self, noise: &Grid<i64, X, Y>)
        requires
            old(self).wf(),
            noise.wf(),
        ensures
            final(self).wf(),
            forall|x: int, y: int|
                0 <= x < X && 0 <= y < Y ==> #[trigger] final(self).height_map@[x][y] == height_level(
                    noise@[x][y] as int,
                ),
            forall|x: int, y: int|
                0 <= x < X && 0 <= y < Y ==> is_unit_level(#[trigger] final(self).height_map@[x][y] as int),
            final(self).precip_map == old(self).precip_map,
            final(self).biome_map == old(self).biome_map,
            final(self).temperature_map == old(self).temperature_map,
            final(self).features == old(self).features,
            final(self).render == old(self).render,
    {
        let mut x: usize = 0;
        while x < X
            invariant
                self.wf(),
                noise.wf(),
                self.precip_map == old(self).precip_map,
                self.biome_map == old(self).biome_map,
                self.temperature_map == old(self).temperature_map,
                self.features == old(self).features,
                self.render == old(self).render,
                x <= X,
                forall|i: int, j: int|
                    0 <= i < x && 0 <= j < Y ==> #[trigger] self.height_map@[i][j] == height_level(
                        noise@[i][j] as int,
                    ),
            decreases X - x,
        {
            let mut y: usize = 0;
            while y < Y
                invariant
                    self.wf(),
                    noise.wf(),
                    self.precip_map == old(self).precip_map,
                    self.biome_map == old(self).biome_map,
                    self.temperature_map == old(self).temperature_map,
                    self.features == old(self).features,
                    self.render == old(self).render,
                    x < X,
                    y <= Y,
                    forall|i: int, j: int|
                        (0 <= i < x && 0 <= j < Y) || (i == x && 0 <= j < y) ==> #[trigger] self.height_map@[i][j]
                            == height_level(noise@[i][j] as int),
                decreases Y - y,
            {
                let s = *noise.get(x, y);
                let h = if s > UNIT {
                    UNIT
                } else if s < -UNIT {
                    -UNIT
                } else {
                    s
                };
                self.height_map.set(x, y, h);
                y += 1;
            }
            x += 1;
        }
    }

    /// Sets each tile's precipitation from its noise sample; see
    /// `precipitation_level`.
    pub fn generate_precipitation_map(&mut self, config: &AutoGenConfig, noise: &Grid<i64, X, Y>)
        requires
            old(self).wf(),
            noise.wf(),
        ensures
            final(self).wf(),
            forall|x: int, y: int|
                0 <= x < X && 0 <= y < Y ==> #[trigger] final(self).precip_map@[x][y]
                    == precipitation_level(noise@[x][y] as int, config.precip_offset as int),
            forall|x: int, y: int|
                0 <= x < X && 0 <= y < Y ==> is_unit_level(#[trigger] final(self).precip_map@[x][y] as int),
            final(self).height_map == old(self).height_map,
            final(self).biome_map == old(self).biome_map,
            final(self).temperature_map == old(self).temperature_map,
            final(self).features == old(self).features,
            final(self).render == old(self).render,
    {
        let mut x: usize = 0;
        while x < X
            invariant
                self.wf(),
                noise.wf(),
                self.height_map == old(self).height_map,
                self.biome_map == old(self).biome_map,
                self.temperature_map == old(self).temperature_map,
                self.features == old(self).features,
                self.render == old(self).render,
                x <= X,
                forall|i: int, j: int|
                    0 <= i < x && 0 <= j < Y ==> #[trigger] self.precip_map@[i][j] == precipitation_level(
                        noise@[i][j] as int,
                        config.precip_offset as int,
                    ),
            decreases X - x,
        {
            let mut y: usize = 0;
            while y < Y
                invariant
                    self.wf(),
                    noise.wf(),
                    self.height_map == old(self).height_map,
                    self.biome_map == old(self).biome_map,
                    self.temperature_map == old(self).temperature_map,
                    self.features == old(self).features,
                    self.render == old(self).render,
                    x < X,
                    y <= Y,
                    forall|i: int, j: int|
                        (0 <= i < x && 0 <= j < Y) || (i == x && 0 <= j < y) ==> #[trigger] self.precip_map@[i][j]
                            == precipitation_level(noise@[i][j] as int, config.precip_offset as int),
                decreases Y - y,
            {
                let v = precipitation_value(*noise.get(x, y), config.precip_offset);
                self.precip_map.set(x, y, v);
                y += 1;
            }
            x += 1;
        }
    }

    /// Sets each tile's temperature from its row, its height and its noise
    /// sample; see `temperature_level`.
    pub fn generate_temperature_map(&mut self, config: &AutoGenConfig, noise: &Grid<i64, X, Y>)
        requires
            old(self).wf(),
            noise.wf(),
        ensures
            final(self).wf(),
            forall|x: int, y: int|
                0 <= x < X && 0 <= y < Y ==> #[trigger] final(self).temperature_map@[x][y]
                    == temperature_level(
                    y,
                    Y as int,
                    old(self).height_map@[x][y] as int,
                    noise@[x][y] as int,
                    config.temperature_offset as int,
                ),
            forall|x: int, y: int|
                0 <= x < X && 0 <= y < Y ==> is_unit_level(
                    #[trigger] final(self).temperature_map@[x][y] as int,
                ),
            final(self).height_map == old(self).height_map,
            final(self).precip_map == old(self).precip_map,
            final(self).biome_map == old(self).biome_map,
            final(self).features == old(self).features,
            final(self).render == old(self).render,
    {
        let mut x: usize = 0;
        while x < X
            invariant
                self.wf(),
                noise.wf(),
                self.height_map == old(self).height_map,
                self.precip_map == old(self).precip_map,
                self.biome_map == old(self).biome_map,
                self.features == old(self).features,
                self.render == old(self).render,
                x <= X,
                forall|i: int, j: int|
                    0 <= i < x && 0 <= j < Y ==> #[trigger] self.temperature_map@[i][j] == temperature_level(
                        j,
                        Y as int,
                        self.height_map@[i][j] as int,
                        noise@[i][j] as int,
                        config.temperature_offset as int,
                    ),
            decreases X - x,
        {
            let mut y: usize = 0;
            while y < Y
                invariant
                    self.wf(),
                    noise.wf(),
                    self.height_map == old(self).height_map,
                    self.precip_map == old(self).precip_map,
                    self.biome_map == old(self).biome_map,
                    self.features == old(self).features,
                    self.render == old(self).render,
                    x < X,
                    y <= Y,
                    forall|i: int, j: int|
                        (0 <= i < x && 0 <= j < Y) || (i == x && 0 <= j < y) ==> #[trigger] self.temperature_map@[i][j]
                            == temperature_level(
                            j,
                            Y as int,
                            self.height_map@[i][j] as int,
                            noise@[i][j] as int,
                            config.temperature_offset as int,
                        ),
                decreases Y - y,
            {
                let h = *self.height_map.get(x, y);
                let v = temperature_value(y, Y, h, *noise.get(x, y), config.temperature_offset);
                self.temperature_map.set(x, y, v);
                y += 1;
            }
            x += 1;
        }
    }

    /// Classifies every tile by its temperature and precipitation; see
    /// `tile_biome`.
    pub fn generate_biome_map(&mut self)
        requires
            old(self).wf(),
            forall|x: int, y: int|
                0 <= x < X && 0 <= y < Y ==> is_unit_level(#[trigger] old(self).temperature_map@[x][y] as int)
                    && is_unit_level(old(self).precip_map@[x][y] as int),
        ensures
            final(self).wf(),
            final(self).biomes_classified(),
            forall|x: int, y: int|
                0 <= x < X && 0 <= y < Y ==> #[trigger] final(self).biome_map@[x][y] == tile_biome(
                    old(self).temperature_map@[x][y] as int,
                    old(self).precip_map@[x][y] as int,
                ),
            final(self).height_map == old(self).height_map,
            final(self).precip_map == old(self).precip_map,
            final(self).temperature_map == old(self).temperature_map,
            final(self).features == old(self).features,
            final(self).render == old(self).render,
    {
        let mut x: usize = 0;
        while x < X
            invariant
                self.wf(),
                self.height_map == old(self).height_map,
                self.precip_map == old(self).precip_map,
                self.temperature_map == old(self).temperature_map,
                self.features == old(self).features,
                self.render == old(self).render,
                forall|i: int, j: int|
                    0 <= i < X && 0 <= j < Y ==> is_unit_level(#[trigger] self.temperature_map@[i][j] as int)
                        && is_unit_level(self.precip_map@[i][j] as int),
                x <= X,
                forall|i: int, j: int|
                    0 <= i < x && 0 <= j < Y ==> #[trigger] self.biome_map@[i][j] == tile_biome(
                        self.temperature_map@[i][j] as int,
                        self.precip_map@[i][j] as int,
                    ),
            decreases X - x,
        {
            let mut y: usize = 0;
            while y < Y
                invariant
                    self.wf(),
                    self.height_map == old(self).height_map,
                    self.precip_map == old(self).precip_map,
                    self.temperature_map == old(self).temperature_map,
                    self.features == old(self).features,
                    self.render == old(self).render,
                    forall|i: int, j: int|
                        0 <= i < X && 0 <= j < Y ==> is_unit_level(
                            #[trigger] self.temperature_map@[i][j] as int,
                        ) && is_unit_level(self.precip_map@[i][j] as int),
                    x < X,
                    y <= Y,
                    forall|i: int, j: int|
                        (0 <= i < x && 0 <= j < Y) || (i == x && 0 <= j < y) ==> #[trigger] self.biome_map@[i][j]
                            == tile_biome(
                            self.temperature_map@[i][j] as int,
                            self.precip_map@[i][j] as int,
                        ),
                decreases Y - y,
            {
                let norm_temp = *self.temperature_map.get(x, y);
                let norm_precip = *self.precip_map.get(x, y);
                let temp = temp_map_value_to_degrees_c(norm_temp);
                let precip = precip_map_value_to_cm_rainfall(norm_precip, norm_temp);
                let biome = classify_biome(temp, precip);
                self.biome_map.set(x, y, biome);
                y += 1;
            }
            x += 1;
        }
    }

    /// Runs the whole pipeline: height, precipitation, temperature, biome,
    /// ocean, then rivers. The three noise grids hold one sample per tile of
    /// the noise passes for height, precipitation and temperature.
    pub fn autogen(
        &mut self,
        config: &AutoGenConfig,
        height_noise: &Grid<i64, X, Y>,
        precip_noise: &Grid<i64, X, Y>,
        temperature_noise: &Grid<i64, X, Y>,
    )
        requires
            old(self).wf(),
            height_noise.wf(),
            precip_noise.wf(),
            temperature_noise.wf(),
        ensures
            final(self).wf(),
            final(self).render == old(self).render,
            forall|x: int, y: int|
                0 <= x < X && 0 <= y < Y ==> {
                    &&& #[trigger] final(self).height_map@[x][y] == height_level(height_noise@[x][y] as int)
                    &&& final(self).precip_map@[x][y] == precipitation_level(
                        precip_noise@[x][y] as int,
                        config.precip_offset as int,
                    )
                    &&& final(self).temperature_map@[x][y] == temperature_level(
                        y,
                        Y as int,
                        final(self).height_map@[x][y] as int,
                        temperature_noise@[x][y] as int,
                        config.temperature_offset as int,
                    )
                    &&& final(self).biome_map@[x][y] == tile_biome(
                        final(self).temperature_map@[x][y] as int,
                        final(self).precip_map@[x][y] as int,
                    )
                    &&& is_unit_level(final(self).height_map@[x][y] as int)
                    &&& is_unit_level(final(self).precip_map@[x][y] as int)
                    &&& is_unit_level(final(self).temperature_map@[x][y] as int)
                },
            exists|flooded: Self|
                #[trigger] final(self).rivers_filled_from(
                    &flooded,
                    config.ocean_height as int,
                    config.river_tile_limit as int,
                ) && flooded.same_maps(final(self)) && forall|p: (usize, usize)|
                    in_grid(p, X as int, Y as int) ==> #[trigger] flooded.feature_at(p) == if final(self).height_of(p)
                        < config.ocean_height {
                        Some(Feature::Ocean)
                    } else {
                        old(self).feature_at(p)
                    },
            (forall|p: (usize, usize)| in_grid(p, X as int, Y as int) ==> #[trigger] old(self).no_source_at(p))
                ==> final(self).sources_apart(),
            forall|p: (usize, usize)|
                in_grid(p, X as int, Y as int) ==> {
                    &&& #[trigger] final(self).feature_at(p) == Some(Feature::River) ==> final(self).height_of(p)
                        >= config.ocean_height || old(self).feature_at(p) == Some(Feature::River)
                    &&& final(self).height_of(p) < config.ocean_height && final(self).precip_map@[p.0 as int][p.1 as int]
                        <= 0 ==> final(self).feature_at(p) == Some(Feature::Ocean)
                    &&& final(self).feature_at(p) == Some(Feature::Ocean) ==> final(self).height_of(p)
                        < config.ocean_height || old(self).feature_at(p) == Some(Feature::Ocean)
                    &&& final(self).height_of(p) < config.ocean_height ==> {
                        ||| final(self).feature_at(p) == Some(Feature::Ocean)
                        ||| final(self).feature_at(p) == Some(Feature::River)
                        ||| final(self).feature_at(p) == Some(Feature::RiverSource)
                    }
                },
    {
        self.generate_height_map(height_noise);
        self.generate_precipitation_map(config, precip_noise);
        self.generate_temperature_map(config, temperature_noise);
        self.generate_biome_map();
        let ghost classified = *self;
        self.populate_ocean(config.ocean_height);
        let ghost flooded = *self;
        self.fill_rivers(config);
        proof {
            assert(self.rivers_filled_from(&flooded, config.ocean_height as int, config.river_tile_limit as int));
            if forall|p: (usize, usize)| in_grid(p, X as int, Y as int) ==> #[trigger] old(self).no_source_at(p) {
                assert forall|p: (usize, usize)| in_grid(p, X as int, Y as int) implies #[trigger] flooded.no_source_at(
                    p,
                ) by {
                    assert(old(self).no_source_at(p));
                    assert(flooded.feature_at(p) == if classified.height_of(p) < config.ocean_height {
                        Some(Feature::Ocean)
                    } else {
                        classified.feature_at(p)
                    });
                }
            }
        }
        assert forall|p: (usize, usize)| in_grid(p, X as int, Y as int) implies {
            &&& #[trigger] self.feature_at(p) == Some(Feature::River) ==> self.height_of(p)
                >= config.ocean_height || old(self).feature_at(p) == Some(Feature::River)
            &&& self.height_of(p) < config.ocean_height && self.precip_map@[p.0 as int][p.1 as int] <= 0
                ==> self.feature_at(p) == Some(Feature::Ocean)
            &&& self.feature_at(p) == Some(Feature::Ocean) ==> self.height_of(p) < config.ocean_height
                || old(self).feature_at(p) == Some(Feature::Ocean)
            &&& self.height_of(p) < config.ocean_height ==> {
                ||| self.feature_at(p) == Some(Feature::Ocean)
                ||| self.feature_at(p) == Some(Feature::River)
                ||| self.feature_at(p) == Some(Feature::RiverSource)
            }
        } by {
            assert(flooded.feature_at(p) == if classified.height_of(p) < config.ocean_height {
                Some(Feature::Ocean)
            } else {
                classified.feature_at(p)
            });
        }
    }

    /// Whether `self` comes from `before` by the two river stages: `mid` is
    /// `before` after seeding river sources with the draws `draws` (each
    /// below `UNIT`), and `self` is `mid` with a river drawn from each of its
    /// sources (`srcs`, with the flood fills `fills`).
    pub open spec fn grows_rivers(
        &self,
        before: &Self,
        mid: Self,
        draws: Seq<Seq<u64>>,
        srcs: Seq<(usize, usize)>,
        fills: Seq<Seq<(usize, usize)>>,
        ocean_height: int,
        river_tile_limit: int,
    ) -> bool {
        &&& forall|x: int, y: int| 0 <= x < X && 0 <= y < Y ==> #[trigger] draws[x][y] < UNIT
        &&& mid.same_maps(before)
        &&& forall|p: (usize, usize)|
            in_grid(p, X as int, Y as int) ==> #[trigger] mid.feature_at(p) == mid.seeded_feature(
                before,
                draws,
                p,
            )
        &&& self.paints_rivers(&mid, srcs, fills, ocean_height, river_tile_limit)
    }

    /// Whether `self` comes from `before` by the two river stages, for some
    /// draws; see `grows_rivers`.
    pub open spec fn rivers_filled_from(&self, before: &Self, ocean_height: int, river_tile_limit: int) -> bool {
        exists|mid: Self, draws: Seq<Seq<u64>>, srcs: Seq<(usize, usize)>, fills: Seq<Seq<(usize, usize)>>|
            #[trigger] self.grows_rivers(before, mid, draws, srcs, fills, ocean_height, river_tile_limit)
    }

    /// Whether no two adjacent tiles both carry a river source.
    pub open spec fn sources_apart(&self) -> bool {
        forall|a: (usize, usize), b: (usize, usize)|
            in_grid(a, X as int, Y as int) && in_grid(b, X as int, Y as int) && adjacent(a, b) ==> !(
            is_source(#[trigger] self.feature_at(a)) && is_source(#[trigger] self.feature_at(b)))
    }

    /// Whether tile `p` carries no river source.
    pub open spec fn no_source_at(&self, p: (usize, usize)) -> bool {
        !is_source(self.feature_at(p))
    }

    /// A seeding pass over a world without river sources leaves no two
    /// sources next to each other.
    pub proof fn lemma_seeded_sources_apart(&self, before: &Self, draws: Seq<Seq<u64>>)
        requires
            forall|p: (usize, usize)|
                in_grid(p, X as int, Y as int) ==> #[trigger] self.feature_at(p) == self.seeded_feature(
                    before,
                    draws,
                    p,
                ),
            forall|p: (usize, usize)| in_grid(p, X as int, Y as int) ==> #[trigger] before.no_source_at(p),
        ensures
            self.sources_apart(),
    {
        assert forall|a: (usize, usize), b: (usize, usize)|
            in_grid(a, X as int, Y as int) && in_grid(b, X as int, Y as int) && adjacent(a, b) implies !(
            is_source(#[trigger] self.feature_at(a)) && is_source(#[trigger] self.feature_at(b))) by {
            if is_source(self.feature_at(a)) && is_source(self.feature_at(b)) {
                assert(before.no_source_at(a));
                assert(before.no_source_at(b));
                if visited_before(a, b) {
                    assert(is_source(self.feature_when_visited(before, a, b)));
                } else {
                    assert(is_source(self.feature_when_visited(before, b, a)));
                }
            }
        }
    }

    /// Places river sources and grows rivers from them: one draw from the
    /// process-wide random source per tile, then `seed_river_sources` and
    /// `path_rivers`. Whatever the draws, the result is those two stages for
    /// some draws below `UNIT`: every river source gets its flood fill tagged
    /// river, a new river tile lies at or above sea level, and no two river
    /// sources end next to each other where there were none before. Seeding
    /// visits every tile, sea included, but a sea tile without precipitation
    /// never becomes a source, so it ends as sea or river.
    pub fn fill_rivers(&mut self, config: &AutoGenConfig)
        requires
            old(self).wf(),
        ensures
            final(self).wf(),
            final(self).same_maps(old(self)),
            final(self).rivers_filled_from(old(self), config.ocean_height as int, config.river_tile_limit as int),
            forall|s: (usize, usize)|
                in_grid(s, X as int, Y as int) && is_source(#[trigger] old(self).feature_at(s))
                    ==> final(self).has_painted_river(
                    old(self),
                    s,
                    config.ocean_height as int,
                    config.river_tile_limit as int,
                ),
            forall|p: (usize, usize)|
                in_grid(p, X as int, Y as int) && #[trigger] final(self).feature_at(p) == Some(Feature::River)
                    ==> old(self).feature_at(p) == Some(Feature::River) || old(self).height_of(p)
                    >= config.ocean_height,
            (forall|p: (usize, usize)| in_grid(p, X as int, Y as int) ==> #[trigger] old(self).no_source_at(p))
                ==> final(self).sources_apart(),
            forall|p: (usize, usize)|
                in_grid(p, X as int, Y as int) ==> {
                    ||| #[trigger] final(self).feature_at(p) == old(self).feature_at(p)
                    ||| final(self).feature_at(p) == Some(Feature::River)
                    ||| final(self).feature_at(p) == Some(Feature::RiverSource)
                },
            forall|p: (usize, usize)|
                in_grid(p, X as int, Y as int) && #[trigger] old(self).feature_at(p) == Some(Feature::Ocean)
                    && old(self).precip_map@[p.0 as int][p.1 as int] <= 0 ==> final(self).feature_at(p) == Some(
                    Feature::Ocean,
                ) || final(self).feature_at(p) == Some(Feature::River),
    {
        proof {
            self.height_map.lemma_size_fits();
        }
        let mut draws: Grid<u64, X, Y> = Grid::filled(0);
        let mut x: usize = 0;
        while x < X
            invariant
                draws.wf(),
                x <= X,
                forall|i: int, j: int| 0 <= i < X && 0 <= j < Y ==> #[trigger] draws@[i][j] < UNIT,
            decreases X - x,
        {
            let mut y: usize = 0;
            while y < Y
                invariant
                    draws.wf(),
                    x < X,
                    y <= Y,
                    forall|i: int, j: int| 0 <= i < X && 0 <= j < Y ==> #[trigger] draws@[i][j] < UNIT,
                decreases Y - y,
            {
                draws.set(x, y, draw_below(UNIT as u64));
                y += 1;
            }
            x += 1;
        }
        let ghost start = *self;
        let ghost ocean = config.ocean_height as int;
        let ghost limit = config.river_tile_limit as int;
        self.seed_river_sources(&draws);
        let ghost seeded = *self;
        self.path_rivers(config.ocean_height, config.river_tile_limit);
        proof {
            let (srcs, fills) = choose|srcs: Seq<(usize, usize)>, fills: Seq<Seq<(usize, usize)>>|
                #[trigger] self.paints_rivers(&seeded, srcs, fills, ocean, limit);
            assert(self.grows_rivers(&start, seeded, draws@, srcs, fills, ocean, limit));
            assert forall|s: (usize, usize)|
                in_grid(s, X as int, Y as int) && is_source(#[trigger] start.feature_at(s))
                    implies self.has_painted_river(&start, s, ocean, limit) by {
                assert(seeded.feature_at(s) == seeded.seeded_feature(&start, draws@, s));
                assert(is_source(seeded.feature_at(s)));
                assert(self.has_painted_river(&seeded, s, ocean, limit));
                let c = choose|c: Seq<(usize, usize)>|
                    #[trigger] is_flood_fill(seeded.height_map@, s, ocean, limit, c, X as int, Y as int)
                        && self.river_painted(&seeded, s, c, ocean, limit);
                assert(is_flood_fill(start.height_map@, s, ocean, limit, c, X as int, Y as int));
            }
            assert forall|p: (usize, usize)|
                in_grid(p, X as int, Y as int) && #[trigger] self.feature_at(p) == Some(Feature::River) implies start.feature_at(
                p,
            ) == Some(Feature::River) || start.height_of(p) >= ocean by {
                assert(seeded.feature_at(p) == seeded.seeded_feature(&start, draws@, p));
            }
            if forall|p: (usize, usize)| in_grid(p, X as int, Y as int) ==> #[trigger] start.no_source_at(p) {
                seeded.lemma_seeded_sources_apart(&start, draws@);
                assert forall|a: (usize, usize), b: (usize, usize)|
                    in_grid(a, X as int, Y as int) && in_grid(b, X as int, Y as int) && adjacent(a, b) implies !(
                    is_source(#[trigger] self.feature_at(a)) && is_source(#[trigger] self.feature_at(b))) by {
                    assert(is_source(self.feature_at(a)) ==> is_source(seeded.feature_at(a)));
                    assert(is_source(self.feature_at(b)) ==> is_source(seeded.feature_at(b)));
                }
            }
            assert forall|p: (usize, usize)| in_grid(p, X as int, Y as int) implies {
                ||| #[trigger] self.feature_at(p) == start.feature_at(p)
                ||| self.feature_at(p) == Some(Feature::River)
                ||| self.feature_at(p) == Some(Feature::RiverSource)
            } by {
                assert(seeded.feature_at(p) == seeded.seeded_feature(&start, draws@, p));
            }
            assert forall|p: (usize, usize)|
                in_grid(p, X as int, Y as int) && #[trigger] start.feature_at(p) == Some(Feature::Ocean)
                    && start.precip_map@[p.0 as int][p.1 as int] <= 0 implies self.feature_at(p) == Some(
                Feature::Ocean,
            ) || self.feature_at(p) == Some(Feature::River) by {
                assert(draws@[p.0 as int][p.1 as int] < UNIT);
                assert(seeded.feature_at(p) == seeded.seeded_feature(&start, draws@, p));
            }
        }
    }

    /// Places river sources, visiting the tiles in row-major order. A tile
    /// next to a river source (one placed earlier in this pass, or one that
    /// was there before it) gets none; any other tile becomes a source when
    /// its draw succeeds (see `draw_spawns_source`). Sea tiles are visited
    /// like any other, so a source may replace the sea tag. `draws` holds one
    /// draw per tile, each meant to be uniform over `[0, UNIT)`.
    pub fn seed_river_sources(&mut self, draws: &Grid<u64, X, Y>)
        requires
            old(self).wf(),
            draws.wf(),
        ensures
            final(self).wf(),
            final(self).same_maps(old(self)),
            forall|p: (usize, usize)|
                in_grid(p, X as int, Y as int) ==> #[trigger] final(self).feature_at(p)
                    == final(self).seeded_feature(old(self), draws@, p),
            (forall|p: (usize, usize)| in_grid(p, X as int, Y as int) ==> #[trigger] old(self).no_source_at(p))
                ==> final(self).sources_apart(),
    {
        let mut x: usize = 0;
        while x < X
            invariant
                self.wf(),
                draws.wf(),
                self.same_maps(old(self)),
                x <= X,
                forall|p: (usize, usize)|
                    in_grid(p, X as int, Y as int) ==> #[trigger] self.feature_at(p) == if p.0 < x {
                        self.seeded_feature(old(self), draws@, p)
                    } else {
                        old(self).feature_at(p)
                    },
            decreases X - x,
        {
            let mut y: usize = 0;
            while y < Y
                invariant
                    self.wf(),
                    draws.wf(),
                    self.same_maps(old(self)),
                    x < X,
                    y <= Y,
                    forall|p: (usize, usize)|
                        in_grid(p, X as int, Y as int) ==> #[trigger] self.feature_at(p) == if visited_before(
                            p,
                            (x, y),
                        ) {
                            self.seeded_feature(old(self), draws@, p)
                        } else {
                            old(self).feature_at(p)
                        },
                decreases Y - y,
            {
                let seen = self.source_next_to(x, y);
                proof {
                    self.lemma_seen_now(old(self), (x, y));
                }
                let precip = *self.precip_map.get(x, y);
                let draw = *draws.get(x, y);
                if !seen && spawns_river_source(precip, draw) {
                    let ghost mid = *self;
                    self.put_feature(x, y, Feature::RiverSource);
                    proof {
                        assert forall|p: (usize, usize)| in_grid(p, X as int, Y as int) && visited_before(p, (x, y))
                            implies self.source_seen(old(self), p) == mid.source_seen(old(self), p) by {
                            Self::lemma_seen_stable(&*self, &mid, old(self), (x, y), p);
                        }
                        Self::lemma_seen_stable(&*self, &mid, old(self), (x, y), (x, y));
                    }
                }
                y += 1;
            }
            x += 1;
        }
        proof {
            if forall|p: (usize, usize)| in_grid(p, X as int, Y as int) ==> #[trigger] old(self).no_source_at(p) {
                self.lemma_seeded_sources_apart(old(self), draws@);
            }
        }
    }

    /// `true` when a neighbour of `(x, y)` carries a river source.
    fn source_next_to(&self, x: usize, y: usize) -> (r: bool)
        requires
            self.wf(),
            x < X,
            y < Y,
        ensures
            r == exists|q: (usize, usize)|
                in_grid(q, X as int, Y as int) && adjacent(q, (x, y)) && is_source(
                    #[trigger] self.feature_at(q),
                ),
    {
        let neighbors = self.height_map.get_neighbors(&(x, y));
        let mut j: usize = 0;
        while j < neighbors.len()
            invariant
                self.wf(),
                j <= neighbors@.len(),
                forall|i: int|
                    0 <= i < neighbors@.len() ==> in_grid(#[trigger] neighbors@[i], X as int, Y as int)
                        && adjacent(neighbors@[i], (x, y)),
                forall|i: int| 0 <= i < j ==> !is_source(self.feature_at(#[trigger] neighbors@[i])),
            decreases neighbors@.len() - j,
        {
            let n = neighbors[j];
            match self.feature(n.0, n.1) {
                Some(Feature::RiverSource) => {
                    return true;
                },
                _ => {},
            }
            j += 1;
        }
        proof {
            assert forall|q: (usize, usize)|
                in_grid(q, X as int, Y as int) && adjacent(q, (x, y)) implies !is_source(
                #[trigger] self.feature_at(q),
            ) by {
                assert(neighbors@.contains(q));
                let i = choose|i: int| 0 <= i < neighbors@.len() && neighbors@[i] == q;
                assert(!is_source(self.feature_at(neighbors@[i])));
            }
        }
        false
    }

    /// While a seeding pass is at tile `p` (earlier tiles done, later ones
    /// untouched), the sources it sees next to `p` are the current ones.
    proof fn lemma_seen_now(&self, before: &Self, p: (usize, usize))
        requires
            forall|q: (usize, usize)|
                in_grid(q, X as int, Y as int) && !visited_before(q, p) ==> #[trigger] self.feature_at(q)
                    == before.feature_at(q),
        ensures
            self.source_seen(before, p) == exists|q: (usize, usize)|
                in_grid(q, X as int, Y as int) && adjacent(q, p) && is_source(#[trigger] self.feature_at(q)),
    {
        if self.source_seen(before, p) {
            let q = choose|q: (usize, usize)|
                in_grid(q, X as int, Y as int) && adjacent(q, p) && is_source(
                    #[trigger] self.feature_when_visited(before, q, p),
                );
            assert(is_source(self.feature_at(q)));
        }
        if exists|q: (usize, usize)|
            in_grid(q, X as int, Y as int) && adjacent(q, p) && is_source(#[trigger] self.feature_at(q)) {
            let q = choose|q: (usize, usize)|
                in_grid(q, X as int, Y as int) && adjacent(q, p) && is_source(#[trigger] self.feature_at(q));
            assert(is_source(self.feature_when_visited(before, q, p)));
        }
    }

    /// Changing only tile `t` leaves what the pass saw at tiles visited
    /// before `t`, and at `t` itself.
    proof fn lemma_seen_stable(a: &Self, b: &Self, before: &Self, t: (usize, usize), p: (usize, usize))
        requires
            visited_before(p, t) || p == t,
            forall|q: (usize, usize)|
                in_grid(q, X as int, Y as int) && q != t ==> #[trigger] a.feature_at(q) == b.feature_at(q),
        ensures
            a.source_seen(before, p) == b.source_seen(before, p),
    {
        if a.source_seen(before, p) {
            let q = choose|q: (usize, usize)|
                in_grid(q, X as int, Y as int) && adjacent(q, p) && is_source(
                    #[trigger] a.feature_when_visited(before, q, p),
                );
            assert(is_source(b.feature_when_visited(before, q, p)));
        }
        if b.source_seen(before, p) {
            let q = choose|q: (usize, usize)|
                in_grid(q, X as int, Y as int) && adjacent(q, p) && is_source(
                    #[trigger] b.feature_when_visited(before, q, p),
                );
            assert(is_source(a.feature_when_visited(before, q, p)));
        }
    }

    /// Whether a flood fill `c` from river source `s`, over `before`'s
    /// heights, has all of its tiles but `s` tagged as river in `self`.
    pub open spec fn river_painted(
        &self,
        before: &Self,
        s: (usize, usize),
        c: Seq<(usize, usize)>,
        ocean_height: int,
        river_tile_limit: int,
    ) -> bool {
        &&& is_flood_fill(before.height_map@, s, ocean_height, river_tile_limit, c, X as int, Y as int)
        &&& forall|i: int| 1 <= i < c.len() ==> #[trigger] self.feature_at(c[i]) == Some(Feature::River)
    }

    /// Whether some flood fill from river source `s`, over `before`'s heights,
    /// has all of its tiles but `s` tagged as river in `self`.
    pub open spec fn has_painted_river(
        &self,
        before: &Self,
        s: (usize, usize),
        ocean_height: int,
        river_tile_limit: int,
    ) -> bool {
        exists|c: Seq<(usize, usize)>|
            #[trigger] is_flood_fill(
                before.height_map@,
                s,
                ocean_height,
                river_tile_limit,
                c,
                X as int,
                Y as int,
            ) && self.river_painted(before, s, c, ocean_height, river_tile_limit)
    }

    /// Whether `self` is `before` with a river drawn from each river source
    /// of `before`: `srcs` lists those sources, `fills[i]` is the flood fill
    /// from `srcs[i]` over `before`'s heights, the tiles that the fills cover
    /// past their sources are river, and every other tile is as it was.
    pub open spec fn paints_rivers(
        &self,
        before: &Self,
        srcs: Seq<(usize, usize)>,
        fills: Seq<Seq<(usize, usize)>>,
        ocean_height: int,
        river_tile_limit: int,
    ) -> bool {
        &&& self.same_maps(before)
        &&& srcs.len() == fills.len()
        &&& forall|s: (usize, usize)|
            #[trigger] srcs.contains(s) <==> in_grid(s, X as int, Y as int) && is_source(before.feature_at(s))
        &&& forall|i: int|
            0 <= i < fills.len() ==> #[trigger] is_flood_fill(
                before.height_map@,
                srcs[i],
                ocean_height,
                river_tile_limit,
                fills[i],
                X as int,
                Y as int,
            )
        &&& forall|p: (usize, usize)|
            in_grid(p, X as int, Y as int) ==> #[trigger] self.feature_at(p) == if covered_by(fills, p) {
                Some(Feature::River)
            } else {
                before.feature_at(p)
            }
    }

    /// After rivers are drawn, each source's fill is river throughout, and a
    /// tile that became river lies at or above sea level.
    pub proof fn lemma_painted_rivers(
        &self,
        before: &Self,
        srcs: Seq<(usize, usize)>,
        fills: Seq<Seq<(usize, usize)>>,
        ocean_height: int,
        river_tile_limit: int,
    )
        requires
            self.paints_rivers(before, srcs, fills, ocean_height, river_tile_limit),
        ensures
            forall|s: (usize, usize)|
                in_grid(s, X as int, Y as int) && is_source(#[trigger] before.feature_at(s))
                    ==> self.has_painted_river(before, s, ocean_height, river_tile_limit),
            forall|p: (usize, usize)|
                in_grid(p, X as int, Y as int) && #[trigger] self.feature_at(p) == Some(Feature::River) ==> before.feature_at(
                    p,
                ) == Some(Feature::River) || before.height_of(p) >= ocean_height,
    {
        let m = before.height_map@;
        assert forall|s: (usize, usize)|
            in_grid(s, X as int, Y as int) && is_source(#[trigger] before.feature_at(s)) implies self.has_painted_river(
            before,
            s,
            ocean_height,
            river_tile_limit,
        ) by {
            assert(srcs.contains(s));
            let i = choose|i: int| 0 <= i < srcs.len() && srcs[i] == s;
            let c = fills[i];
            assert(is_flood_fill(m, srcs[i], ocean_height, river_tile_limit, fills[i], X as int, Y as int));
            lemma_fill_in_grid(m, s, ocean_height, river_tile_limit, c, X as int, Y as int);
            assert forall|j: int| 1 <= j < c.len() implies #[trigger] self.feature_at(c[j]) == Some(
                Feature::River,
            ) by {
                assert(c.drop_first()[j - 1] == c[j]);
                assert(c.drop_first().contains(c[j]));
                assert(fills[i].drop_first().contains(c[j]));
                assert(covered_by(fills, c[j]));
            }
            assert(self.river_painted(before, s, c, ocean_height, river_tile_limit));
        }
        assert forall|p: (usize, usize)|
            in_grid(p, X as int, Y as int) && #[trigger] self.feature_at(p) == Some(Feature::River) implies before.feature_at(
            p,
        ) == Some(Feature::River) || before.height_of(p) >= ocean_height by {
            if covered_by(fills, p) {
                let i = choose|i: int| 0 <= i < fills.len() && #[trigger] fills[i].drop_first().contains(p);
                let c = fills[i];
                assert(is_flood_fill(m, srcs[i], ocean_height, river_tile_limit, fills[i], X as int, Y as int));
                let j = choose|j: int| 0 <= j < c.drop_first().len() && c.drop_first()[j] == p;
                assert(c[j + 1] == p);
                assert(lowest_on_frontier(m, c, j + 1, X as int, Y as int));
            }
        }
    }

    /// Grows a river from every river source (see `Lake::fill`), the sources
    /// taken as they stood before any river was drawn, and tags the tiles of
    /// each river, its source excepted, as river. Exactly the tiles that the
    /// fills cover change, whatever the order of the sources.
    pub fn path_rivers(&mut self, ocean_height: i64, river_tile_limit: usize)
        requires
            old(self).wf(),
        ensures
            final(self).wf(),
            exists|srcs: Seq<(usize, usize)>, fills: Seq<Seq<(usize, usize)>>|
                #[trigger] final(self).paints_rivers(
                    old(self),
                    srcs,
                    fills,
                    ocean_height as int,
                    river_tile_limit as int,
                ),
            forall|s: (usize, usize)|
                in_grid(s, X as int, Y as int) && is_source(#[trigger] old(self).feature_at(s))
                    ==> final(self).has_painted_river(
                    old(self),
                    s,
                    ocean_height as int,
                    river_tile_limit as int,
                ),
            forall|p: (usize, usize)|
                in_grid(p, X as int, Y as int) && #[trigger] final(self).feature_at(p) == Some(Feature::River)
                    ==> old(self).feature_at(p) == Some(Feature::River) || old(self).height_of(p)
                    >= ocean_height,
    {
        let sources = self.river_sources();
        let ghost ocean = ocean_height as int;
        let ghost limit = river_tile_limit as int;
        let ghost mut fills: Seq<Seq<(usize, usize)>> = Seq::empty();
        let mut k: usize = 0;
        while k < sources.len()
            invariant
                ocean == ocean_height as int,
                limit == river_tile_limit as int,
                self.wf(),
                self.same_maps(old(self)),
                k <= sources@.len(),
                fills.len() == k,
                forall|p: (usize, usize)|
                    #[trigger] sources@.contains(p) <==> in_grid(p, X as int, Y as int) && is_source(
                        old(self).feature_at(p),
                    ),
                forall|i: int|
                    0 <= i < k ==> #[trigger] is_flood_fill(
                        old(self).height_map@,
                        sources@[i],
                        ocean,
                        limit,
                        fills[i],
                        X as int,
                        Y as int,
                    ),
                forall|p: (usize, usize)|
                    in_grid(p, X as int, Y as int) ==> #[trigger] self.feature_at(p) == if covered_by(fills, p) {
                        Some(Feature::River)
                    } else {
                        old(self).feature_at(p)
                    },
            decreases sources@.len() - k,
        {
            let s = sources[k];
            assert(sources@.contains(s));
            let ghost mid = *self;
            self.river_path(s, ocean_height, river_tile_limit);
            proof {
                let c = choose|c: Seq<(usize, usize)>|
                    #[trigger] is_flood_fill(mid.height_map@, s, ocean, limit, c, X as int, Y as int) && forall|
                        p: (usize, usize),
                    |
                        in_grid(p, X as int, Y as int) ==> #[trigger] self.feature_at(p) == if c.drop_first().contains(
                            p,
                        ) {
                            Some(Feature::River)
                        } else {
                            mid.feature_at(p)
                        };
                let old_fills = fills;
                fills = fills.push(c);
                assert forall|i: int| 0 <= i < k + 1 implies #[trigger] is_flood_fill(
                    old(self).height_map@,
                    sources@[i],
                    ocean,
                    limit,
                    fills[i],
                    X as int,
                    Y as int,
                ) by {
                    if i < k {
                        assert(fills[i] == old_fills[i]);
                    }
                }
                assert forall|p: (usize, usize)| in_grid(p, X as int, Y as int) implies #[trigger] self.feature_at(p)
                    == if covered_by(fills, p) {
                    Some(Feature::River)
                } else {
                    old(self).feature_at(p)
                } by {
                    lemma_covered_push(old_fills, c, p);
                    assert(mid.feature_at(p) == if covered_by(old_fills, p) {
                        Some(Feature::River)
                    } else {
                        old(self).feature_at(p)
                    });
                }
            }
            k += 1;
        }
        proof {
            assert(self.paints_rivers(old(self), sources@, fills, ocean, limit));
            self.lemma_painted_rivers(old(self), sources@, fills, ocean, limit);
        }
    }

    /// Grows a river from `start` (see `Lake::fill`) and tags every tile it
    /// filled, `start` excepted, as river, whatever feature it had.
    pub fn river_path(&mut self, start: (usize, usize), ocean_height: i64, river_tile_limit: usize)
        requires
            old(self).wf(),
            in_grid(start, X as int, Y as int),
        ensures
            final(self).wf(),
            final(self).same_maps(old(self)),
            exists|c: Seq<(usize, usize)>|
                #[trigger] is_flood_fill(
                    old(self).height_map@,
                    start,
                    ocean_height as int,
                    river_tile_limit as int,
                    c,
                    X as int,
                    Y as int,
                ) && forall|p: (usize, usize)|
                    in_grid(p, X as int, Y as int) ==> #[trigger] final(self).feature_at(p) == if c.drop_first().contains(
                        p,
                    ) {
                        Some(Feature::River)
                    } else {
                        old(self).feature_at(p)
                    },
    {
        let mut lake = Lake::new(&self.height_map);
        let tiles = lake.fill(start, ocean_height, river_tile_limit);
        let ghost c = lake.claimed();
        self.paint_river(&tiles);
        assert(is_flood_fill(
            old(self).height_map@,
            start,
            ocean_height as int,
            river_tile_limit as int,
            c,
            X as int,
            Y as int,
        ));
    }

    /// Tags every tile of `tiles` as river.
    fn paint_river(&mut self, tiles: &Vec<(usize, usize)>)
        requires
            old(self).wf(),
            forall|i: int| 0 <= i < tiles@.len() ==> in_grid(#[trigger] tiles@[i], X as int, Y as int),
        ensures
            final(self).wf(),
            final(self).same_maps(old(self)),
            forall|p: (usize, usize)|
                in_grid(p, X as int, Y as int) ==> #[trigger] final(self).feature_at(p) == if tiles@.contains(p) {
                    Some(Feature::River)
                } else {
                    old(self).feature_at(p)
                },
    {
        let mut k: usize = 0;
        while k < tiles.len()
            invariant
                self.wf(),
                self.same_maps(old(self)),
                k <= tiles@.len(),
                forall|i: int| 0 <= i < tiles@.len() ==> in_grid(#[trigger] tiles@[i], X as int, Y as int),
                forall|p: (usize, usize)|
                    in_grid(p, X as int, Y as int) ==> #[trigger] self.feature_at(p) == if tiles@.take(
                        k as int,
                    ).contains(p) {
                        Some(Feature::River)
                    } else {
                        old(self).feature_at(p)
                    },
            decreases tiles@.len() - k,
        {
            let t = tiles[k];
            self.put_feature(t.0, t.1, Feature::River);
            proof {
                assert(tiles@.take(k + 1) =~= tiles@.take(k as int).push(t));
                lemma_push_contains_any(tiles@.take(k as int), t);
            }
            k += 1;
        }
        assert(tiles@.take(tiles@.len() as int) =~= tiles@);
    }

    /// The river sources, in row-major order.
    fn river_sources(&self) -> (r: Vec<(usize, usize)>)
        requires
            self.wf(),
        ensures
            forall|p: (usize, usize)|
                #[trigger] r@.contains(p) <==> in_grid(p, X as int, Y as int) && is_source(self.feature_at(p)),
    {
        let mut out: Vec<(usize, usize)> = Vec::new();
        let mut x: usize = 0;
        while x < X
            invariant
                self.wf(),
                x <= X,
                forall|p: (usize, usize)|
                    #[trigger] out@.contains(p) <==> in_grid(p, X as int, Y as int) && p.0 < x && is_source(
                        self.feature_at(p),
                    ),
            decreases X - x,
        {
            let mut y: usize = 0;
            while y < Y
                invariant
                    self.wf(),
                    x < X,
                    y <= Y,
                    forall|p: (usize, usize)|
                        #[trigger] out@.contains(p) <==> in_grid(p, X as int, Y as int) && visited_before(
                            p,
                            (x, y),
                        ) && is_source(self.feature_at(p)),
                decreases Y - y,
            {
                match self.feature(x, y) {
                    Some(Feature::RiverSource) => {
                        proof {
                            lemma_push_contains_any(out@, (x, y));
                        }
                        out.push((x, y));
                    },
                    _ => {},
                }
                y += 1;
            }
            x += 1;
        }
        out
    }

    /// Tagging the ocean on a world that has no ocean tile yet leaves a tile
    /// tagged ocean exactly when it is lower than `ocean_height`.
    pub proof fn lemma_ocean_iff_below(after: &Self, before: &Self, ocean_height: int)
        requires
            after.ocean_populated(before, ocean_height),
            forall|p: (usize, usize)|
                in_grid(p, X as int, Y as int) ==> #[trigger] before.feature_at(p) != Some(Feature::Ocean),
        ensures
            forall|p: (usize, usize)|
                in_grid(p, X as int, Y as int) ==> (#[trigger] after.feature_at(p) == Some(Feature::Ocean)
                    <==> after.height_of(p) < ocean_height),
    {
        assert forall|p: (usize, usize)| in_grid(p, X as int, Y as int) implies (#[trigger] after.feature_at(p)
            == Some(Feature::Ocean) <==> after.height_of(p) < ocean_height) by {
            assert(before.feature_at(p) != Some(Feature::Ocean));
        }
    }

    /// A sea level above every height makes every tile ocean, whatever the
    /// tiles held before.
    pub proof fn lemma_high_sea_floods_all(after: &Self, before: &Self, ocean_height: int)
        requires
            after.wf(),
            after.ocean_populated(before, ocean_height),
            forall|p: (usize, usize)|
                in_grid(p, X as int, Y as int) ==> #[trigger] before.height_of(p) < ocean_height,
        ensures
            forall|p: (usize, usize)|
                in_grid(p, X as int, Y as int) ==> #[trigger] after.feature_at(p) == Some(Feature::Ocean),
            after.features@.len() == X * Y,
    {
        assert forall|p: (usize, usize)| in_grid(p, X as int, Y as int) implies #[trigger] after.feature_at(p)
            == Some(Feature::Ocean) by {
            assert(before.height_of(p) < ocean_height);
        }
        after.height_map.lemma_size_fits();
        let n = (X * Y) as nat;
        assert forall|k: usize| #[trigger] after.features@.dom().contains(k) <==> k < n by {
            if k < n {
                let x = k / Y;
                let y = k % Y;
                vstd::arithmetic::div_mod::lemma_fundamental_div_mod(k as int, Y as int);
                assert(x * Y <= k) by (nonlinear_arith)
                    requires
                        x == k / Y,
                        Y > 0,
                        k >= 0,
                ;
                assert(x < X) by (nonlinear_arith)
                    requires
                        x * Y <= k,
                        k < X * Y,
                        Y > 0,
                ;
                assert(x * Y + y == k) by (nonlinear_arith)
                    requires
                        k == Y * x + y,
                ;
                let p = (x as usize, y as usize);
                assert(after.feature_at(p) == Some(Feature::Ocean));
                assert(after.features@.contains_key(k));
            } else if after.features@.dom().contains(k) {
                assert(after.features@.contains_key(k));
            }
        }
        assert(after.features@.dom() =~= Set::new(|k: usize| k < n));
        lemma_slots_len(n);
    }

    /// Tags tile `(x, y)` with `f`, replacing any feature it had.
    fn put_feature(&mut self, x: usize, y: usize, f: Feature)
        requires
            old(self).wf(),
            x < X,
            y < Y,
        ensures
            final(self).wf(),
            final(self).same_maps(old(self)),
            forall|p: (usize, usize)|
                in_grid(p, X as int, Y as int) ==> #[trigger] final(self).feature_at(p) == if p == (x, y) {
                    Some(f)
                } else {
                    old(self).feature_at(p)
                },
    {
        let k = self.height_map.slot(x, y);
        self.features.insert(k, f);
        proof {
            self.height_map.lemma_size_fits();
            assert forall|p: (usize, usize)| in_grid(p, X as int, Y as int) implies #[trigger] self.feature_at(p)
                == if p == (x, y) {
                Some(f)
            } else {
                old(self).feature_at(p)
            } by {
                assert(0 <= p.0 * Y + p.1 < X * Y) by (nonlinear_arith)
                    requires
                        p.0 < X,
                        p.1 < Y,
                ;
                if p != (x, y) && p.0 * Y + p.1 == x * Y + y {
                    lemma_slot_injective(p.0 as int, p.1 as int, x as int, y as int, Y as int);
                }
            }
        }
    }
}

} // verus!
