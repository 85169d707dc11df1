//! The flood fill that grows a river: starting from a source tile it keeps
//! claiming the lowest tile on the edge of the claimed region, until it
//! reaches the sea or its tile budget.

use crate::grid::{adjacent, in_grid, lemma_push_contains_any, Grid};
use vstd::prelude::*;

verus! {

/// The height that map `m` gives tile `p`.
pub open spec fn height_at(m: Seq<Seq<i64>>, p: (usize, usize)) -> int {
    m[p.0 as int][p.1 as int] as int
}

/// Whether `p` lies on the frontier of the claimed tiles `c` in a `w` by `h`
/// grid: inside the grid, not claimed, and adjacent to a claimed tile.
pub open spec fn on_frontier(c: Seq<(usize, usize)>, p: (usize, usize), w: int, h: int) -> bool {
    &&& in_grid(p, w, h)
    &&& !c.contains(p)
    &&& exists|i: int| 0 <= i < c.len() && adjacent(#[trigger] c[i], p)
}

/// Whether `c[k]` was a lowest tile on the frontier of the first `k` tiles
/// of `c` when it was claimed.
pub open spec fn lowest_on_frontier(
    m: Seq<Seq<i64>>,
    c: Seq<(usize, usize)>,
    k: int,
    w: int,
    h: int,
) -> bool {
    &&& on_frontier(c.take(k), c[k], w, h)
    &&& forall|q: (usize, usize)|
        on_frontier(c.take(k), q, w, h) ==> height_at(m, c[k]) <= #[trigger] height_at(m, q)
}

/// Whether a fill that has claimed `c` is done: the claim count has reached
/// `limit`, or nothing is left on the frontier, or the frontier holds a tile
/// below `ocean` (so its lowest tile lies below sea level).
pub open spec fn fill_stops(
    m: Seq<Seq<i64>>,
    c: Seq<(usize, usize)>,
    ocean: int,
    limit: int,
    w: int,
    h: int,
) -> bool {
    ||| c.len() >= limit
    ||| forall|q: (usize, usize)| !on_frontier(c, q, w, h)
    ||| exists|q: (usize, usize)| on_frontier(c, q, w, h) && height_at(m, q) < ocean
}

/// Whether `c` is the claim order of a flood fill over heights `m` from
/// `source`: it starts at the source; each later tile was a lowest tile on
/// the frontier at its step, was not below `ocean`, and was claimed while
/// fewer than `limit` tiles were; and the fill stopped as soon as it had to.
/// Among frontier tiles of equal height the choice is left open.
pub open spec fn is_flood_fill(
    m: Seq<Seq<i64>>,
    source: (usize, usize),
    ocean: int,
    limit: int,
    c: Seq<(usize, usize)>,
    w: int,
    h: int,
) -> bool {
    &&& c.len() >= 1
    &&& c[0] == source
    &&& forall|k: int|
        1 <= k < c.len() ==> {
            &&& #[trigger] lowest_on_frontier(m, c, k, w, h)
            &&& height_at(m, c[k]) >= ocean
            &&& k < limit
        }
    &&& fill_stops(m, c, ocean, limit, w, h)
}

/// Every tile that a flood fill from a tile of the grid claims lies in the
/// grid.
pub proof fn lemma_fill_in_grid(
    m: Seq<Seq<i64>>,
    source: (usize, usize),
    ocean: int,
    limit: int,
    c: Seq<(usize, usize)>,
    w: int,
    h: int,
)
    requires
        is_flood_fill(m, source, ocean, limit, c, w, h),
        in_grid(source, w, h),
    ensures
        forall|i: int| 0 <= i < c.len() ==> in_grid(#[trigger] c[i], w, h),
{
    assert forall|i: int| 0 <= i < c.len() implies in_grid(#[trigger] c[i], w, h) by {
        if i >= 1 {
            assert(lowest_on_frontier(m, c, i, w, h));
        }
    }
}

/// Claiming `t` changes the frontier by dropping `t` and adding the
/// unclaimed tiles around it.
proof fn lemma_frontier_after_claim(c: Seq<(usize, usize)>, t: (usize, usize), p: (usize, usize), w: int, h: int)
    ensures
        on_frontier(c.push(t), p, w, h) <==> ((on_frontier(c, p, w, h) && p != t) || (in_grid(p, w, h)
            && !c.push(t).contains(p) && adjacent(t, p))),
{
    let d = c.push(t);
    assert(d[c.len() as int] == t);
    if c.contains(p) {
        let i = choose|i: int| 0 <= i < c.len() && c[i] == p;
        assert(d[i] == p);
    }
    if d.contains(p) && p != t {
        let i = choose|i: int| 0 <= i < d.len() && d[i] == p;
        assert(c[i] == p);
    }
    if exists|i: int| 0 <= i < c.len() && adjacent(#[trigger] c[i], p) {
        let i = choose|i: int| 0 <= i < c.len() && adjacent(#[trigger] c[i], p);
        assert(d[i] == c[i]);
    }
    if exists|i: int| 0 <= i < d.len() && adjacent(#[trigger] d[i], p) {
        let i = choose|i: int| 0 <= i < d.len() && adjacent(#[trigger] d[i], p);
        if i < c.len() {
            assert(c[i] == d[i]);
        }
    }
}

/// `true` when `v` holds `t`.
fn holds_tile(v: &Vec<(usize, usize)>, t: (usize, usize)) -> (r: bool)
    ensures
        r == v@.contains(t),
{
    let mut i: usize = 0;
    while i < v.len()
        invariant
            i <= v@.len(),
            forall|j: int| 0 <= j < i ==> v@[j] != t,
        decreases v@.len() - i,
    {
        if v[i].0 == t.0 && v[i].1 == t.1 {
            return true;
        }
        i += 1;
    }
    false
}

/// The region a river fills: the tiles claimed so far, in claim order, and
/// the perimeter, the unclaimed tiles next to them. It reads the height map
/// and never changes it.
///
/// Both sets are kept as vectors of distinct tiles: the perimeter's order,
/// the order in which its tiles were found, breaks ties between equally low
/// tiles the same way in every run, which a hash set's walk would not.
pub struct Lake<'a, const X: usize, const Y: usize> {
    height_map: &'a Grid<i64, X, Y>,
    tiles: Vec<(usize, usize)>,
    perimeter: Vec<(usize, usize)>,
}

impl<'a, const X: usize, const Y: usize> Lake<'a, X, Y> {
    /// The heights the fill runs over.
    pub closed spec fn heights(&self) -> Seq<Seq<i64>> {
        self.height_map@
    }

    /// The claimed tiles, in the order they were claimed.
    pub closed spec fn claimed(&self) -> Seq<(usize, usize)> {
        self.tiles@
    }

    /// The perimeter, in the order its tiles were found.
    pub closed spec fn frontier(&self) -> Seq<(usize, usize)> {
        self.perimeter@
    }

    /// Well-formed: the claimed tiles are distinct tiles of the grid, and the
    /// perimeter lists each frontier tile of the claimed region exactly once.
    pub closed spec fn wf(&self) -> bool {
        &&& self.height_map.wf()
        &&& self.tiles@.no_duplicates()
        &&& forall|i: int| 0 <= i < self.tiles@.len() ==> in_grid(#[trigger] self.tiles@[i], X as int, Y as int)
        &&& self.perimeter@.no_duplicates()
        &&& forall|p: (usize, usize)|
            #[trigger] self.perimeter@.contains(p) <==> on_frontier(self.tiles@, p, X as int, Y as int)
    }

    /// The perimeter holds exactly the frontier of the claimed tiles.
    pub proof fn lemma_perimeter_is_frontier(&self, p: (usize, usize))
        requires
            self.wf(),
        ensures
            self.frontier().contains(p) <==> on_frontier(self.claimed(), p, X as int, Y as int),
            self.frontier().no_duplicates(),
    {
    }

    /// An empty lake over `height_map`.
    pub fn new(height_map: &'a Grid<i64, X, Y>) -> (r: Self)
        requires
            height_map.wf(),
        ensures
            r.wf(),
            r.heights() == height_map@,
            r.claimed() == Seq::<(usize, usize)>::empty(),
    {
        Lake { height_map, tiles: Vec::new(), perimeter: Vec::new() }
    }

    /// Grows a river from `tile` over this lake's heights and returns the
    /// tiles it filled, in the order they were claimed, without `tile`.
    ///
    /// `tile` is claimed first. Then, while fewer than `river_tile_limit`
    /// tiles are claimed, the lowest perimeter tile is claimed, unless it
    /// lies below `ocean_height`: the river has then reached the sea. The fill
    /// also ends when the perimeter is empty. Of equal lowest perimeter tiles
    /// the one found first is taken.
    pub fn fill(&mut self, tile: (usize, usize), ocean_height: i64, river_tile_limit: usize) -> (r: Vec<
        (usize, usize),
    >)
        requires
            old(self).wf(),
            old(self).claimed().len() == 0,
            in_grid(tile, X as int, Y as int),
        ensures
            final(self).wf(),
            final(self).heights() == old(self).heights(),
            is_flood_fill(
                old(self).heights(),
                tile,
                ocean_height as int,
                river_tile_limit as int,
                final(self).claimed(),
                X as int,
                Y as int,
            ),
            r@ == final(self).claimed().drop_first(),
            forall|i: int| 0 <= i < r@.len() ==> in_grid(#[trigger] r@[i], X as int, Y as int),
            r@.len() <= river_tile_limit,
            forall|i: int|
                0 <= i < r@.len() ==> height_at(old(self).heights(), #[trigger] r@[i]) >= ocean_height,
    {
        let ghost m = self.heights();
        let ghost ocean = ocean_height as int;
        let ghost limit = river_tile_limit as int;
        self.claim(tile);
        let mut count: usize = 1;
        loop
            invariant_except_break
                forall|k: int|
                    1 <= k < count ==> {
                        &&& #[trigger] lowest_on_frontier(m, self.claimed(), k, X as int, Y as int)
                        &&& height_at(m, self.claimed()[k]) >= ocean
                        &&& k < limit
                    },
            invariant
                ocean == ocean_height as int,
                limit == river_tile_limit as int,
                self.wf(),
                self.heights() == m,
                count == self.claimed().len(),
                count >= 1,
                self.claimed()[0] == tile,
            ensures
                self.wf(),
                self.heights() == m,
                is_flood_fill(m, tile, ocean, limit, self.claimed(), X as int, Y as int),
            decreases limit - count,
        {
            let n = self.perimeter.len();
            if n == 0 {
                assert forall|q: (usize, usize)| !#[trigger] on_frontier(self.claimed(), q, X as int, Y as int) by {
                    assert(!self.perimeter@.contains(q));
                }
                break;
            }
            assert(self.perimeter@.contains(self.perimeter@[0]));
            let first = self.perimeter[0];
            let mut best: usize = 0;
            let mut best_h: i64 = *self.height_map.get(first.0, first.1);
            let mut i: usize = 1;
            let ghost before = *self;
            while i < n
                invariant
                    *self == before,
                    self.wf(),
                    self.heights() == m,
                    n == self.perimeter@.len(),
                    1 <= i <= n,
                    best < n,
                    best_h == height_at(m, self.perimeter@[best as int]),
                    forall|j: int| 0 <= j < i ==> best_h <= height_at(m, #[trigger] self.perimeter@[j]),
                decreases n - i,
            {
                let p = self.perimeter[i];
                assert(self.perimeter@.contains(p));
                let h = *self.height_map.get(p.0, p.1);
                if h < best_h {
                    best = i;
                    best_h = h;
                }
                i += 1;
            }
            let lowest = self.perimeter[best];
            let ghost c = self.claimed();
            assert(self.perimeter@.contains(lowest));
            assert forall|q: (usize, usize)| on_frontier(c, q, X as int, Y as int) implies best_h
                <= #[trigger] height_at(m, q) by {
                assert(self.perimeter@.contains(q));
                let j = choose|j: int| 0 <= j < n && self.perimeter@[j] == q;
                assert(best_h <= height_at(m, self.perimeter@[j]));
            }
            if best_h < ocean_height {
                assert(on_frontier(c, lowest, X as int, Y as int));
                assert(height_at(m, lowest) == best_h);
                break;
            }
            if count >= river_tile_limit {
                break;
            }
            self.claim(lowest);
            proof {
                let d = self.claimed();
                assert(d.take(count as int) =~= c);
                assert(d[count as int] == lowest);
                assert(lowest_on_frontier(m, d, count as int, X as int, Y as int));
                assert forall|k: int| 1 <= k < count + 1 implies {
                    &&& #[trigger] lowest_on_frontier(m, d, k, X as int, Y as int)
                    &&& height_at(m, d[k]) >= ocean
                    &&& k < limit
                } by {
                    if k < count {
                        assert(d.take(k) =~= c.take(k));
                        assert(d[k] == c[k]);
                        assert(lowest_on_frontier(m, c, k, X as int, Y as int));
                    }
                }
            }
            count += 1;
        }
        let ghost c = self.claimed();
        let mut out: Vec<(usize, usize)> = Vec::new();
        let mut k: usize = 1;
        while k < self.tiles.len()
            invariant
                c == self.tiles@,
                1 <= k <= c.len(),
                out@ =~= c.subrange(1, k as int),
            decreases c.len() - k,
        {
            out.push(self.tiles[k]);
            k += 1;
        }
        proof {
            if c.len() >= 2 {
                assert(lowest_on_frontier(m, c, c.len() - 1, X as int, Y as int));
            }
            assert forall|i: int| 0 <= i < out@.len() implies height_at(m, #[trigger] out@[i]) >= ocean by {
                assert(out@[i] == c[i + 1]);
                assert(lowest_on_frontier(m, c, i + 1, X as int, Y as int));
            }
        }
        out
    }

    /// Claims `t`: moves it from the perimeter to the claimed tiles, and adds
    /// its unclaimed neighbours to the perimeter.
    fn claim(&mut self, t: (usize, usize))
        requires
            old(self).wf(),
            in_grid(t, X as int, Y as int),
            !old(self).claimed().contains(t),
        ensures
            final(self).wf(),
            final(self).heights() == old(self).heights(),
            final(self).claimed() == old(self).claimed().push(t),
    {
        let ghost c0 = self.tiles@;
        let ghost m = self.height_map@;
        let ghost p0 = self.perimeter@;
        self.tiles.push(t);
        let ghost c1 = self.tiles@;
        assert(c1[c0.len() as int] == t);
        assert forall|a: int, b: int| 0 <= a < b < c1.len() implies c1[a] != c1[b] by {
            if b == c0.len() {
                assert(c0[a] == c1[a]);
            }
        }
        let mut k: usize = 0;
        while k < self.perimeter.len()
            invariant
                self.perimeter@ == p0,
                k <= p0.len(),
                forall|j: int| 0 <= j < k ==> p0[j] != t,
            ensures
                k <= p0.len(),
                forall|j: int| 0 <= j < k ==> p0[j] != t,
                k < p0.len() ==> p0[k as int] == t,
            decreases p0.len() - k,
        {
            if self.perimeter[k].0 == t.0 && self.perimeter[k].1 == t.1 {
                break;
            }
            k += 1;
        }
        if k < self.perimeter.len() {
            self.perimeter.remove(k);
        }
        let ghost p1 = self.perimeter@;
        assert forall|p: (usize, usize)| #[trigger] p1.contains(p) <==> (p0.contains(p) && p != t) by {
            if k < p0.len() {
                assert(p0[k as int] == t);
                if p1.contains(p) {
                    let i = choose|i: int| 0 <= i < p1.len() && p1[i] == p;
                    if i < k {
                        assert(p0[i] == p);
                        assert(p != t);
                    } else {
                        assert(p0[i + 1] == p);
                        assert(p != t);
                    }
                }
                if p0.contains(p) && p != t {
                    let i = choose|i: int| 0 <= i < p0.len() && p0[i] == p;
                    if i < k {
                        assert(p1[i] == p);
                    } else {
                        assert(i != k);
                        assert(p1[i - 1] == p);
                    }
                }
            }
        }
        assert(p1.no_duplicates()) by {
            if k < p0.len() {
                assert forall|a: int, b: int| 0 <= a < b < p1.len() implies p1[a] != p1[b] by {
                    let a0 = if a < k { a } else { a + 1 };
                    let b0 = if b < k { b } else { b + 1 };
                    assert(p1[a] == p0[a0]);
                    assert(p1[b] == p0[b0]);
                }
            }
        }
        let neighbors = self.height_map.get_neighbors(&t);
        let mut j: usize = 0;
        while j < neighbors.len()
            invariant
                self.tiles@ == c1,
                self.height_map.wf(),
                self.height_map@ == m,
                j <= neighbors@.len(),
                self.perimeter@.no_duplicates(),
                forall|i: int| 0 <= i < neighbors@.len() ==> in_grid(#[trigger] neighbors@[i], X as int, Y as int)
                    && adjacent(neighbors@[i], t),
                forall|p: (usize, usize)|
                    #[trigger] self.perimeter@.contains(p) <==> ((p0.contains(p) && p != t) || (
                    neighbors@.take(j as int).contains(p) && !c1.contains(p))),
            decreases neighbors@.len() - j,
        {
            let n = neighbors[j];
            let ghost before = self.perimeter@;
            assert(neighbors@.take(j + 1) =~= neighbors@.take(j as int).push(n));
            proof {
                lemma_push_contains_any(neighbors@.take(j as int), n);
            }
            if !holds_tile(&self.tiles, n) && !holds_tile(&self.perimeter, n) {
                self.perimeter.push(n);
                proof {
                    lemma_push_contains_any(before, n);
                    assert forall|a: int, b: int| 0 <= a < b < self.perimeter@.len() implies self.perimeter@[a]
                        != self.perimeter@[b] by {
                        if b == before.len() {
                            assert(before[a] == self.perimeter@[a]);
                        }
                    }
                }
            }
            j += 1;
        }
        proof {
            assert(neighbors@.take(neighbors@.len() as int) =~= neighbors@);
            assert forall|p: (usize, usize)| #[trigger]
                self.perimeter@.contains(p) <==> on_frontier(c1, p, X as int, Y as int) by {
                lemma_frontier_after_claim(c0, t, p, X as int, Y as int);
                if neighbors@.contains(p) {
                    let i = choose|i: int| 0 <= i < neighbors@.len() && neighbors@[i] == p;
                    assert(in_grid(neighbors@[i], X as int, Y as int));
                }
            }
        }
    }
}

} // verus!
