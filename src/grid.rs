//! A dense, fixed-size two-dimensional grid with edge-clipped neighbours.

use vstd::prelude::*;

verus! {

/// Whether `p` names a tile of a grid `w` tiles wide and `h` tiles high.
pub open spec fn in_grid(p: (usize, usize), w: int, h: int) -> bool {
    p.0 < w && p.1 < h
}

/// Whether two tiles touch: they differ, and lie at most one step apart on
/// each axis (diagonal neighbours included).
pub open spec fn adjacent(a: (usize, usize), b: (usize, usize)) -> bool {
    &&& a != b
    &&& -1 <= a.0 - b.0 <= 1
    &&& -1 <= a.1 - b.1 <= 1
}

/// `seq![t]` where `c` holds, else the empty sequence.
pub open spec fn tile_if(c: bool, t: (usize, usize)) -> Seq<(usize, usize)> {
    if c {
        seq![t]
    } else {
        Seq::empty()
    }
}

/// The tiles around `(x, y)` inside a `w` by `h` grid, in the order east
/// `(x + 1, y)`, `(x + 1, y + 1)`, `(x + 1, y - 1)`, west `(x - 1, y)`,
/// `(x - 1, y + 1)`, `(x - 1, y - 1)`, then `(x, y - 1)` and `(x, y + 1)`,
/// each present only where it lies in the grid.
pub open spec fn neighbor_order(x: usize, y: usize, w: int, h: int) -> Seq<(usize, usize)> {
    let east = x + 1 < w;
    let west = x > 0;
    let down = y > 0;
    let up = y + 1 < h;
    tile_if(east, ((x + 1) as usize, y)) + tile_if(east && up, ((x + 1) as usize, (y + 1) as usize))
        + tile_if(east && down, ((x + 1) as usize, (y - 1) as usize)) + tile_if(west, ((x - 1) as usize, y))
        + tile_if(west && up, ((x - 1) as usize, (y + 1) as usize)) + tile_if(
        west && down,
        ((x - 1) as usize, (y - 1) as usize),
    ) + tile_if(down, (x, (y - 1) as usize)) + tile_if(up, (x, (y + 1) as usize))
}

/// `X * Y` values, one per tile, stored row-major by `x` in one buffer.
pub struct Grid<T, const X: usize, const Y: usize> {
    value: Vec<T>,
}

impl<T, const X: usize, const Y: usize> View for Grid<T, X, Y> {
    /// The grid as `X` columns of `Y` values: `g@[x][y]` is the value at `(x, y)`.
    type V = Seq<Seq<T>>;

    closed spec fn view(&self) -> Seq<Seq<T>> {
        Seq::new(X as nat, |x: int| Seq::new(Y as nat, |y: int| self.value@[x * Y + y]))
    }
}

/// The flat position of tile `(x, y)` lies inside the buffer.
proof fn lemma_slot_in_range(x: int, y: int, w: int, h: int)
    requires
        0 <= x < w,
        0 <= y < h,
    ensures
        0 <= x * h + y < w * h,
{
    assert(0 <= x * h + y < w * h) by (nonlinear_arith)
        requires
            0 <= x < w,
            0 <= y < h,
    ;
}

/// Distinct tiles occupy distinct flat positions.
pub proof fn lemma_slot_injective(x1: int, y1: int, x2: int, y2: int, h: int)
    requires
        0 <= x1,
        0 <= x2,
        0 <= y1 < h,
        0 <= y2 < h,
        x1 * h + y1 == x2 * h + y2,
    ensures
        x1 == x2,
        y1 == y2,
{
    if x1 < x2 {
        assert(x1 * h + y1 < x2 * h + y2) by (nonlinear_arith)
            requires
                x1 < x2,
                0 <= y1 < h,
                0 <= y2,
        ;
    } else if x2 < x1 {
        assert(x2 * h + y2 < x1 * h + y1) by (nonlinear_arith)
            requires
                x2 < x1,
                0 <= y2 < h,
                0 <= y1,
        ;
    }
}

/// What a sequence holds after an item is appended.
pub proof fn lemma_push_contains_any<A>(s: Seq<A>, b: A)
    ensures
        forall|a: A| #[trigger] s.push(b).contains(a) <==> (s.contains(a) || a == b),
{
    assert(s.push(b)[s.len() as int] == b);
    assert forall|a: A| #[trigger] s.push(b).contains(a) <==> (s.contains(a) || a == b) by {
        if s.contains(a) {
            let i = choose|i: int| 0 <= i < s.len() && s[i] == a;
            assert(s.push(b)[i] == a);
        }
        if s.push(b).contains(a) && a != b {
            let i = choose|i: int| 0 <= i < s.len() + 1 && s.push(b)[i] == a;
            assert(s[i] == a);
        }
    }
}

/// Appends `t` to `out`, keeping track of what `out` holds.
fn push_tile(out: &mut Vec<(usize, usize)>, t: (usize, usize))
    ensures
        final(out)@ == old(out)@.push(t),
        final(out)@.contains(t),
        forall|q: (usize, usize)| old(out)@.contains(q) ==> #[trigger] final(out)@.contains(q),
{
    proof {
        lemma_push_contains_any(out@, t);
    }
    out.push(t);
}

impl<T, const X: usize, const Y: usize> Grid<T, X, Y> {
    /// The buffer holds exactly one value per tile.
    pub closed spec fn buffer_fits(&self) -> bool {
        &&& self.value@.len() == X * Y
        &&& X * Y <= usize::MAX
    }

    /// Well-formed: one value per tile, seen as `X` columns of `Y` values.
    pub open spec fn wf(&self) -> bool {
        &&& self.buffer_fits()
        &&& self@.len() == X
        &&& forall|x: int| 0 <= x < X ==> #[trigger] self@[x].len() == Y
    }

    /// A grid holding `v` at every tile.
    pub fn filled(v: T) -> (r: Self) where T: Copy
        requires
            X * Y <= usize::MAX,
        ensures
            r.wf(),
            forall|x: int, y: int| 0 <= x < X && 0 <= y < Y ==> #[trigger] r@[x][y] == v,
    {
        let n: usize = X * Y;
        let mut value: Vec<T> = Vec::new();
        while value.len() < n
            invariant
                n == X * Y,
                value@.len() <= n,
                forall|i: int| 0 <= i < value@.len() ==> value@[i] == v,
            decreases n - value@.len(),
        {
            value.push(v);
        }
        let r = Grid { value };
        assert forall|x: int, y: int| 0 <= x < X && 0 <= y < Y implies #[trigger] r@[x][y] == v by {
            lemma_slot_in_range(x, y, X as int, Y as int);
        }
        r
    }

    /// A grid whose value at `(x, y)` is `grid[x][y]`.
    pub fn new(grid: [[T; Y]; X]) -> (r: Self) where T: Copy
        requires
            X * Y <= usize::MAX,
        ensures
            r.wf(),
            forall|x: int, y: int| 0 <= x < X && 0 <= y < Y ==> #[trigger] r@[x][y] == grid@[x]@[y],
    {
        let mut value: Vec<T> = Vec::new();
        let mut x: usize = 0;
        while x < X
            invariant
                X * Y <= usize::MAX,
                x <= X,
                value@.len() == x * Y,
                forall|i: int, j: int|
                    0 <= i < x && 0 <= j < Y ==> value@[i * Y + j] == grid@[i]@[j],
            decreases X - x,
        {
            let mut y: usize = 0;
            while y < Y
                invariant
                    X * Y <= usize::MAX,
                    x < X,
                    y <= Y,
                    value@.len() == x * Y + y,
                    forall|i: int, j: int|
                        0 <= i < x && 0 <= j < Y ==> value@[i * Y + j] == grid@[i]@[j],
                    forall|j: int| 0 <= j < y ==> value@[x * Y + j] == grid@[x as int]@[j],
                decreases Y - y,
            {
                proof {
                    lemma_slot_in_range(x as int, y as int, X as int, Y as int);
                }
                let ghost before = value@;
                value.push(grid[x][y]);
                assert forall|i: int, j: int| 0 <= i < x && 0 <= j < Y implies value@[i * Y + j]
                    == grid@[i]@[j] by {
                    lemma_slot_in_range(i, j, x as int, Y as int);
                    assert(value@[i * Y + j] == before[i * Y + j]);
                }
                y += 1;
            }
            assert(value@.len() == (x + 1) * Y) by (nonlinear_arith)
                requires
                    value@.len() == x * Y + Y,
            ;
            x += 1;
        }
        assert(value@.len() == X * Y);
        Grid { value }
    }

    /// The value at `(x, y)`.
    pub fn get(&self, x: usize, y: usize) -> (r: &T)
        requires
            self.wf(),
            x < X,
            y < Y,
        ensures
            *r == self@[x as int][y as int],
    {
        let i = self.slot(x, y);
        &self.value[i]
    }

    /// Replaces the value at `(x, y)` with `v`, leaving every other tile.
    pub fn set(&mut self, x: usize, y: usize, v: T)
        requires
            old(self).wf(),
            x < X,
            y < Y,
        ensures
            final(self).wf(),
            final(self)@ == old(self)@.update(x as int, old(self)@[x as int].update(y as int, v)),
    {
        let i = self.slot(x, y);
        self.value.set(i, v);
        proof {
            let a = old(self)@.update(x as int, old(self)@[x as int].update(y as int, v));
            assert forall|p: int| 0 <= p < X implies #[trigger] self@[p] =~= a[p] by {
                assert forall|q: int| 0 <= q < Y implies self@[p][q] == a[p][q] by {
                    lemma_slot_in_range(p, q, X as int, Y as int);
                    if p != x || q != y {
                        if p * Y + q == x * Y + y {
                            lemma_slot_injective(p, q, x as int, y as int, Y as int);
                        }
                    }
                }
            }
            assert(self@ =~= a);
        }
    }

    /// A well-formed grid has at most `usize::MAX` tiles.
    pub proof fn lemma_size_fits(&self)
        requires
            self.wf(),
        ensures
            X * Y <= usize::MAX,
    {
    }

    /// The row-major position of tile `(x, y)`: `x * Y + y`.
    pub fn slot(&self, x: usize, y: usize) -> (r: usize)
        requires
            self.wf(),
            x < X,
            y < Y,
        ensures
            r == x * Y + y,
            r < X * Y,
    {
        proof {
            lemma_slot_in_range(x as int, y as int, X as int, Y as int);
        }
        let n = self.value.len();
        assert(x * Y <= x * Y + y < n);
        x * Y + y
    }

    /// The tiles adjacent to `point` (diagonals included) that lie inside the
    /// grid, each once; edges and corners have fewer, and nothing wraps
    /// around. The order is fixed: east, north-east, south-east, west,
    /// north-west, south-west, then the two on the same column.
    #[verifier::rlimit(60)]
    pub fn get_neighbors(&self, point: &(usize, usize)) -> (r: Vec<(usize, usize)>)
        requires
            in_grid(*point, X as int, Y as int),
        ensures
            forall|i: int|
                0 <= i < r@.len() ==> in_grid(#[trigger] r@[i], X as int, Y as int) && adjacent(
                    r@[i],
                    *point,
                ),
            forall|q: (usize, usize)|
                in_grid(q, X as int, Y as int) && adjacent(q, *point) ==> #[trigger] r@.contains(q),
            r@.no_duplicates(),
            r@.len() <= 8,
            r@ == neighbor_order(point.0, point.1, X as int, Y as int),
    {
        let (x, y) = *point;
        let ghost east = x + 1 < X;
        let ghost west = x > 0;
        let ghost down = y > 0;
        let ghost up = y + 1 < Y;
        let mut output: Vec<(usize, usize)> = Vec::new();
        if x + 1 < X {
            push_tile(&mut output, (x + 1, y));
            if y + 1 < Y {
                push_tile(&mut output, (x + 1, y + 1));
            }
            if y > 0 {
                push_tile(&mut output, (x + 1, y - 1));
            }
        }
        let ghost part1 = output@;
        assert(part1 =~= tile_if(east, ((x + 1) as usize, y)) + tile_if(east && up, ((x + 1) as usize, (y + 1) as usize))
            + tile_if(east && down, ((x + 1) as usize, (y - 1) as usize)));
        if x > 0 {
            push_tile(&mut output, (x - 1, y));
            if y + 1 < Y {
                push_tile(&mut output, (x - 1, y + 1));
            }
            if y > 0 {
                push_tile(&mut output, (x - 1, y - 1));
            }
        }
        let ghost part2 = output@;
        assert(part2 =~= part1 + tile_if(west, ((x - 1) as usize, y)) + tile_if(
            west && up,
            ((x - 1) as usize, (y + 1) as usize),
        ) + tile_if(west && down, ((x - 1) as usize, (y - 1) as usize)));
        if y > 0 {
            push_tile(&mut output, (x, y - 1));
        }
        if y + 1 < Y {
            push_tile(&mut output, (x, y + 1));
        }
        assert(output@ =~= part2 + tile_if(down, (x, (y - 1) as usize)) + tile_if(up, (x, (y + 1) as usize)));
        output
    }

    /// The number of columns.
    pub fn width(&self) -> (r: usize)
        ensures
            r == X,
    {
        X
    }

    /// The number of rows.
    pub fn height(&self) -> (r: usize)
        ensures
            r == Y,
    {
        Y
    }
}

} // verus!
