//! Monochrome pixel grid with XOR-sprite blitting, collision detection, and
//! horizontal and vertical wraparound.

use vstd::prelude::*;

use vstd::arithmetic::div_mod::lemma_add_mod_noop;
use vstd::arithmetic::div_mod::lemma_fundamental_div_mod_converse;
use vstd::arithmetic::div_mod::lemma_mod_bound;
use vstd::arithmetic::div_mod::lemma_small_mod;
use vstd::arithmetic::div_mod::lemma_sub_mod_noop;
use vstd::arithmetic::div_mod::lemma_sub_mod_noop_right;

verus! {

/// Display width in pixels.
pub const DISPLAY_W: usize = 64;

/// Display height in pixels.
pub const DISPLAY_H: usize = 32;

/// The monochrome display: a 64 x 32 pixel grid, row-major.
pub struct Display {
    pub pixels: Vec<bool>,
}

/// Whether bit `j` of a sprite row byte is set; bit 0 is the leftmost pixel
/// (the most significant bit of the byte).
pub open spec fn sprite_bit(b: u8, j: int) -> bool {
    b & (0x80u8 >> (j as u8)) != 0
}

/// Whether blitting sprite row byte `b` with its left edge at column `x` on
/// pixel row `y` (both taken modulo the display size) flips the pixel at flat
/// grid index `k`.
pub open spec fn row_flip(x: int, y: int, b: u8, k: int) -> bool {
    let j = ((k % 64) - x) % 64;
    &&& k / 64 == y % 32
    &&& j < 8
    &&& sprite_bit(b, j)
}

/// As `row_flip`, restricted to sprite columns below `jmax`.
pub open spec fn row_flip_upto(x: int, y: int, b: u8, k: int, jmax: int) -> bool {
    let j = ((k % 64) - x) % 64;
    &&& k / 64 == y % 32
    &&& j < jmax
    &&& sprite_bit(b, j)
}

/// One sprite row XOR-composited onto the grid.
pub open spec fn blit_row(g: Seq<bool>, x: int, y: int, b: u8) -> Seq<bool> {
    Seq::new(g.len(), |k: int| g[k] != row_flip(x, y, b, k))
}

/// Whether one sprite row turns any already-set pixel off.
pub open spec fn row_collision(g: Seq<bool>, x: int, y: int, b: u8) -> bool {
    exists|k: int| 0 <= k < g.len() && g[k] && row_flip(x, y, b, k)
}

/// A whole sprite XOR-composited onto the grid, one row at a time from the
/// top; row `i` lands on pixel row `(y + i) % 32`.
pub open spec fn blit(g: Seq<bool>, x: int, y: int, data: Seq<u8>) -> Seq<bool>
    decreases data.len(),
{
    if data.len() == 0 {
        g
    } else {
        blit(blit_row(g, x, y, data[0]), x, y + 1, data.subrange(1, data.len() as int))
    }
}

/// Whether blitting a whole sprite turns any already-set pixel off, with each
/// row judged against the grid as the rows above it left it.
pub open spec fn blit_collision(g: Seq<bool>, x: int, y: int, data: Seq<u8>) -> bool
    decreases data.len(),
{
    if data.len() == 0 {
        false
    } else {
        ||| row_collision(g, x, y, data[0])
        ||| blit_collision(
            blit_row(g, x, y, data[0]),
            x,
            y + 1,
            data.subrange(1, data.len() as int),
        )
    }
}

/// Whether any row of the sprite flips the pixel at flat grid index `k`.
pub open spec fn sprite_flips(x: int, y: int, data: Seq<u8>, k: int) -> bool {
    exists|i: int| 0 <= i < data.len() && row_flip(x, y + i, #[trigger] data[i], k)
}

/// The sprite column that lands on grid column `(x + j) % 64` is `j` itself.
proof fn lemma_col_id(x: int, j: int)
    requires
        0 <= x,
        0 <= j < 64,
    ensures
        (((x + j) % 64) - x) % 64 == j,
{
    lemma_sub_mod_noop_right((x + j) % 64, x, 64);
    lemma_sub_mod_noop(x + j, x, 64);
    lemma_small_mod(j as nat, 64);
}

/// Conversely, a grid column whose recovered sprite column is `j` must be
/// `(x + j) % 64`: each sprite column lands on exactly one grid column.
proof fn lemma_col_unique(x: int, j: int, c: int)
    requires
        0 <= x,
        0 <= j < 64,
        0 <= c < 64,
        (c - x) % 64 == j,
    ensures
        c == (x + j) % 64,
{
    lemma_add_mod_noop(c - x, x, 64);
    lemma_small_mod(c as nat, 64);
    lemma_small_mod(j as nat, 64);
    lemma_add_mod_noop(j, x, 64);
}

/// Row and column recover from a flat grid index.
proof fn lemma_cell_id(r: int, c: int)
    requires
        0 <= r < 32,
        0 <= c < 64,
    ensures
        (r * 64 + c) / 64 == r,
        (r * 64 + c) % 64 == c,
{
    lemma_fundamental_div_mod_converse(r * 64 + c, 64, r, c);
}

/// Two sprite rows less than 32 apart land on distinct pixel rows.
proof fn lemma_row_distinct(y: int, m: int)
    requires
        1 <= m < 32,
    ensures
        y % 32 != (y + m) % 32,
{
    lemma_sub_mod_noop(y + m, y, 32);
    lemma_sub_mod_noop_right(y + m, y, 32);
    lemma_small_mod(m as nat, 32);
    if y % 32 == (y + m) % 32 {
        assert((((y + m) % 32) - (y % 32)) % 32 == 0) by {
            lemma_small_mod(0, 32);
        }
    }
}

impl Display {
    /// The display is well-formed when it holds exactly one pixel per grid
    /// cell.
    pub open spec fn wf(&self) -> bool {
        self.pixels@.len() == DISPLAY_W * DISPLAY_H
    }

    /// A fresh display with every pixel off.
    pub fn new() -> (r: Display)
        ensures
            r.wf(),
            r.pixels@ == Seq::new((DISPLAY_W * DISPLAY_H) as nat, |i: int| false),
    {
        Display { pixels: vec![false; DISPLAY_W * DISPLAY_H] }
    }

    /// Turn every pixel off.
    pub fn clear(&mut self)
        ensures
            final(self).wf(),
            final(self).pixels@ == Seq::new((DISPLAY_W * DISPLAY_H) as nat, |i: int| false),
    {
        self.pixels = vec![false; DISPLAY_W * DISPLAY_H];
    }

    /// Read the pixel at column `x`, row `y`.
    pub fn at(&self, x: usize, y: usize) -> (r: bool)
        requires
            self.wf(),
            x < DISPLAY_W,
            y < DISPLAY_H,
        ensures
            r == self.pixels@[y * DISPLAY_W + x],
    {
        self.pixels[y * DISPLAY_W + x]
    }

    /// Whether bit `j` of sprite row byte `b` is set.
    fn row_bit(b: u8, j: usize) -> (r: bool)
        requires
            j < 8,
        ensures
            r == sprite_bit(b, j as int),
    {
        b & (0x80u8 >> (j as u8)) != 0
    }

    /// Blit each byte of `data` as 8 horizontal pixels starting at column
    /// `x`, one byte per row starting at row `y`, XOR-composited with
    /// horizontal and vertical wraparound. Returns true when any bit of the
    /// sprite turned an already-set pixel off.
    pub fn draw(&mut self, x: usize, y: usize, data: &[u8]) -> (collision: bool)
        requires
            old(self).wf(),
        ensures
            final(self).wf(),
            final(self).pixels@ == blit(old(self).pixels@, x as int, y as int, data@),
            collision == blit_collision(old(self).pixels@, x as int, y as int, data@),
    {
        let n = data.len();
        let mut collision = false;
        let mut i: usize = 0;
        let mut yr: usize = y % DISPLAY_H;
        proof {
            assert(data@.subrange(0, n as int) =~= data@);
        }
        while i < n
            invariant
                i <= n,
                n == data@.len(),
                self.pixels@.len() == DISPLAY_W * DISPLAY_H,
                yr < DISPLAY_H,
                yr == (y as int + i as int) % 32,
                blit(old(self).pixels@, x as int, y as int, data@) == blit(
                    self.pixels@,
                    x as int,
                    y as int + i as int,
                    data@.subrange(i as int, n as int),
                ),
                blit_collision(old(self).pixels@, x as int, y as int, data@) == (collision
                    || blit_collision(
                    self.pixels@,
                    x as int,
                    y as int + i as int,
                    data@.subrange(i as int, n as int),
                )),
            decreases n - i,
        {
            let ghost gr = self.pixels@;
            let ghost yrow = y as int + i as int;
            let b = data[i];
            let mut rowcoll = false;
            let mut j: usize = 0;
            let mut xj: usize = x % DISPLAY_W;
            while j < 8
                invariant
                    j <= 8,
                    yr < DISPLAY_H,
                    yr == yrow % 32,
                    0 <= yrow,
                    xj < DISPLAY_W,
                    xj == (x as int + j as int) % 64,
                    gr.len() == DISPLAY_W * DISPLAY_H,
                    self.pixels@.len() == DISPLAY_W * DISPLAY_H,
                    self.pixels@ == Seq::new(
                        gr.len(),
                        |k: int| gr[k] != row_flip_upto(x as int, yrow, b, k, j as int),
                    ),
                    rowcoll == exists|k: int|
                        0 <= k < gr.len() && gr[k] && row_flip_upto(x as int, yrow, b, k, j as int),
                decreases 8 - j,
            {
                let idx = yr * DISPLAY_W + xj;
                proof {
                    lemma_cell_id(yr as int, xj as int);
                    lemma_col_id(x as int, j as int);
                }
                let val = Self::row_bit(b, j);
                let cur = self.pixels[idx];
                proof {
                    assert(!row_flip_upto(x as int, yrow, b, idx as int, j as int));
                    assert(cur == gr[idx as int]);
                }
                if cur && val {
                    rowcoll = true;
                }
                self.pixels.set(idx, cur != val);
                proof {
                    assert forall|k: int|
                        0 <= k < gr.len() && k != idx implies row_flip_upto(
                        x as int,
                        yrow,
                        b,
                        k,
                        j as int + 1,
                    ) == row_flip_upto(x as int, yrow, b, k, j as int) by {
                        lemma_mod_bound(k, 64);
                        lemma_mod_bound((k % 64) - x as int, 64);
                        if k / 64 == yrow % 32 && ((k % 64) - x as int) % 64 == j as int {
                            lemma_col_unique(x as int, j as int, k % 64);
                            vstd::arithmetic::div_mod::lemma_fundamental_div_mod(k, 64);
                            assert(k == idx);
                        }
                    }
                    assert(row_flip_upto(x as int, yrow, b, idx as int, j as int + 1)
                        == sprite_bit(b, j as int));
                    assert(self.pixels@ =~= Seq::new(
                        gr.len(),
                        |k: int| gr[k] != row_flip_upto(x as int, yrow, b, k, j as int + 1),
                    ));
                }
                j = j + 1;
                xj = if xj + 1 == DISPLAY_W {
                    0
                } else {
                    xj + 1
                };
                proof {
                    lemma_wrap_succ(x as int, j as int);
                }
            }
            proof {
                assert forall|k: int| 0 <= k < gr.len() implies row_flip_upto(
                    x as int,
                    yrow,
                    b,
                    k,
                    8,
                ) == row_flip(x as int, yrow, b, k) by {}
                assert(self.pixels@ =~= blit_row(gr, x as int, yrow, b));
                assert(rowcoll == row_collision(gr, x as int, yrow, b));
                let d_rest = data@.subrange(i as int, n as int);
                assert(d_rest[0] == data@[i as int]);
                assert(d_rest.subrange(1, d_rest.len() as int) =~= data@.subrange(
                    i as int + 1,
                    n as int,
                ));
                lemma_add_mod_noop(yrow, 1, 32);
                lemma_small_mod(1, 32);
            }
            collision = collision || rowcoll;
            i = i + 1;
            yr = if yr + 1 == DISPLAY_H {
                0
            } else {
                yr + 1
            };
            proof {
                lemma_wrap_succ_32(y as int, i as int);
            }
        }
        proof {
            assert(data@.subrange(n as int, n as int) =~= Seq::<u8>::empty());
        }
        collision
    }
}

/// Incrementing a wrapped column index keeps it wrapped:
/// `((x + j) % 64 + 1) % 64 == (x + j + 1) % 64`, stated through the branch
/// the executable code takes.
proof fn lemma_wrap_succ(x: int, j1: int)
    requires
        0 <= x,
        1 <= j1,
    ensures
        ((x + (j1 - 1)) % 64 + 1) % 64 == (x + j1) % 64,
        (x + (j1 - 1)) % 64 + 1 == 64 ==> (x + j1) % 64 == 0,
        (x + (j1 - 1)) % 64 + 1 < 64 ==> (x + j1) % 64 == (x + (j1 - 1)) % 64 + 1,
{
    lemma_add_mod_noop((x + (j1 - 1)) % 64, 1, 64);
    vstd::arithmetic::div_mod::lemma_mod_twice(x + (j1 - 1), 64);
    lemma_small_mod(1, 64);
    lemma_mod_bound(x + (j1 - 1), 64);
    if (x + (j1 - 1)) % 64 + 1 == 64 {
        assert(((x + (j1 - 1)) % 64 + 1) % 64 == 0) by {
            vstd::arithmetic::div_mod::lemma_mod_self_0(64);
        }
    } else {
        lemma_small_mod(((x + (j1 - 1)) % 64 + 1) as nat, 64);
    }
}

/// Blitting never changes the size of the grid.
pub proof fn lemma_blit_len(g: Seq<bool>, x: int, y: int, data: Seq<u8>)
    ensures
        blit(g, x, y, data).len() == g.len(),
    decreases data.len(),
{
    if data.len() != 0 {
        lemma_blit_len(blit_row(g, x, y, data[0]), x, y + 1, data.subrange(1, data.len() as int));
    }
}

/// A sprite flips a cell exactly when its first row does or the rest of the
/// sprite, shifted down one row, does.
proof fn lemma_flips_unfold(x: int, y: int, data: Seq<u8>, k: int)
    requires
        data.len() > 0,
    ensures
        sprite_flips(x, y, data, k) == (row_flip(x, y, data[0], k) || sprite_flips(
            x,
            y + 1,
            data.subrange(1, data.len() as int),
            k,
        )),
{
    let d = data.subrange(1, data.len() as int);
    if sprite_flips(x, y, data, k) {
        let i = choose|i: int| 0 <= i < data.len() && row_flip(x, y + i, #[trigger] data[i], k);
        if i != 0 {
            assert(d[i - 1] == data[i]);
            assert(row_flip(x, (y + 1) + (i - 1), d[i - 1], k));
            assert(sprite_flips(x, y + 1, d, k));
        }
    }
    if row_flip(x, y, data[0], k) {
        assert(sprite_flips(x, y, data, k));
    }
    if sprite_flips(x, y + 1, d, k) {
        let i = choose|i: int| 0 <= i < d.len() && row_flip(x, (y + 1) + i, #[trigger] d[i], k);
        assert(data[i + 1] == d[i]);
        assert(row_flip(x, y + (i + 1), data[i + 1], k));
        assert(sprite_flips(x, y, data, k));
    }
}

/// For a sprite of at most 32 rows, the rows land on pairwise distinct pixel
/// rows, so blitting flips exactly the cells some row flips: the whole blit,
/// read pointwise.
pub proof fn lemma_blit_pointwise(g: Seq<bool>, x: int, y: int, data: Seq<u8>)
    requires
        0 <= x,
        0 <= y,
        data.len() <= 32,
    ensures
        forall|k: int|
            0 <= k < g.len() ==> blit(g, x, y, data)[k] == (g[k] != sprite_flips(x, y, data, k)),
    decreases data.len(),
{
    lemma_blit_len(g, x, y, data);
    if data.len() == 0 {
        assert forall|k: int| 0 <= k < g.len() implies blit(g, x, y, data)[k] == (g[k]
            != sprite_flips(x, y, data, k)) by {
            if sprite_flips(x, y, data, k) {
                let i = choose|i: int|
                    0 <= i < data.len() && row_flip(x, y + i, #[trigger] data[i], k);
                assert(false);
            }
        }
    } else {
        let g1 = blit_row(g, x, y, data[0]);
        let d = data.subrange(1, data.len() as int);
        lemma_blit_pointwise(g1, x, y + 1, d);
        assert forall|k: int| 0 <= k < g.len() implies blit(g, x, y, data)[k] == (g[k]
            != sprite_flips(x, y, data, k)) by {
            lemma_flips_unfold(x, y, data, k);
            if row_flip(x, y, data[0], k) && sprite_flips(x, y + 1, d, k) {
                let i = choose|i: int| 0 <= i < d.len() && row_flip(x, (y + 1) + i, #[trigger] d[i], k);
                lemma_row_distinct(y, 1 + i);
                assert(false);
            }
            assert(g1[k] == (g[k] != row_flip(x, y, data[0], k)));
            assert(blit(g, x, y, data)[k] == blit(g1, x, y + 1, d)[k]);
        }
    }
}

/// A blit collides exactly when some cell that a sprite row flips was
/// already set before the whole draw began.
pub proof fn lemma_blit_collision_iff(g: Seq<bool>, x: int, y: int, data: Seq<u8>)
    requires
        0 <= x,
        0 <= y,
        data.len() <= 32,
    ensures
        blit_collision(g, x, y, data) == exists|k: int|
            0 <= k < g.len() && #[trigger] g[k] && sprite_flips(x, y, data, k),
    decreases data.len(),
{
    if data.len() == 0 {
        if exists|k: int| 0 <= k < g.len() && #[trigger] g[k] && sprite_flips(x, y, data, k) {
            let k = choose|k: int| 0 <= k < g.len() && #[trigger] g[k] && sprite_flips(x, y, data, k);
            let i = choose|i: int| 0 <= i < data.len() && row_flip(x, y + i, #[trigger] data[i], k);
            assert(false);
        }
    } else {
        let g1 = blit_row(g, x, y, data[0]);
        let d = data.subrange(1, data.len() as int);
        lemma_blit_collision_iff(g1, x, y + 1, d);
        if row_collision(g, x, y, data[0]) {
            let k = choose|k: int| 0 <= k < g.len() && g[k] && row_flip(x, y, data[0], k);
            lemma_flips_unfold(x, y, data, k);
            assert(0 <= k < g.len() && g[k] && sprite_flips(x, y, data, k));
        }
        if blit_collision(g1, x, y + 1, d) {
            let k = choose|k: int| 0 <= k < g1.len() && #[trigger] g1[k] && sprite_flips(x, y + 1, d, k);
            let i = choose|i: int| 0 <= i < d.len() && row_flip(x, (y + 1) + i, #[trigger] d[i], k);
            if row_flip(x, y, data[0], k) {
                lemma_row_distinct(y, 1 + i);
            }
            assert(g[k] == g1[k]);
            lemma_flips_unfold(x, y, data, k);
            assert(0 <= k < g.len() && g[k] && sprite_flips(x, y, data, k));
        }
        if exists|k: int| 0 <= k < g.len() && #[trigger] g[k] && sprite_flips(x, y, data, k) {
            let k = choose|k: int| 0 <= k < g.len() && #[trigger] g[k] && sprite_flips(x, y, data, k);
            lemma_flips_unfold(x, y, data, k);
            if row_flip(x, y, data[0], k) {
                assert(row_collision(g, x, y, data[0]));
            } else {
                let i = choose|i: int| 0 <= i < d.len() && row_flip(x, (y + 1) + i, #[trigger] d[i], k);
                assert(g1[k] == (g[k] != row_flip(x, y, data[0], k)));
                assert(0 <= k < g1.len() && g1[k] && sprite_flips(x, y + 1, d, k));
                assert(blit_collision(g1, x, y + 1, d));
            }
        }
    }
}

/// Drawing the same sprite twice at the same coordinates toggles every
/// touched pixel back, restoring the grid exactly.
pub proof fn lemma_draw_twice_restores(g: Seq<bool>, x: int, y: int, data: Seq<u8>)
    requires
        0 <= x,
        0 <= y,
        data.len() <= 32,
    ensures
        blit(blit(g, x, y, data), x, y, data) == g,
{
    let g1 = blit(g, x, y, data);
    lemma_blit_len(g, x, y, data);
    lemma_blit_len(g1, x, y, data);
    lemma_blit_pointwise(g, x, y, data);
    lemma_blit_pointwise(g1, x, y, data);
    assert(blit(g1, x, y, data) =~= g);
}

/// On a blank screen, a sprite with any set bit collides with itself: the
/// first draw sets every touched pixel, so drawing the same sprite again
/// reports a collision.
pub proof fn lemma_second_draw_collides(
    g: Seq<bool>,
    x: int,
    y: int,
    data: Seq<u8>,
    i: int,
    j: int,
)
    requires
        g.len() == DISPLAY_W * DISPLAY_H,
        forall|k: int| 0 <= k < g.len() ==> !g[k],
        0 <= x,
        0 <= y,
        data.len() <= 32,
        0 <= i < data.len(),
        0 <= j < 8,
        sprite_bit(data[i], j),
    ensures
        blit_collision(blit(g, x, y, data), x, y, data),
{
    let g1 = blit(g, x, y, data);
    lemma_blit_len(g, x, y, data);
    lemma_blit_pointwise(g, x, y, data);
    lemma_blit_collision_iff(g1, x, y, data);
    let k = ((y + i) % 32) * 64 + ((x + j) % 64);
    lemma_mod_bound(y + i, 32);
    lemma_mod_bound(x + j, 64);
    lemma_cell_id((y + i) % 32, (x + j) % 64);
    lemma_col_id(x, j);
    assert(row_flip(x, y + i, data[i], k));
    assert(sprite_flips(x, y, data, k));
    assert(0 <= k < g.len());
    assert(!g[k]);
    assert(blit(g, x, y, data)[k] == (g[k] != sprite_flips(x, y, data, k)));
    assert(g1[k]);
}

/// The same wraparound step for the 32-row grid.
proof fn lemma_wrap_succ_32(y: int, i1: int)
    requires
        0 <= y,
        1 <= i1,
    ensures
        (y + (i1 - 1)) % 32 + 1 == 32 ==> (y + i1) % 32 == 0,
        (y + (i1 - 1)) % 32 + 1 < 32 ==> (y + i1) % 32 == (y + (i1 - 1)) % 32 + 1,
{
    lemma_add_mod_noop((y + (i1 - 1)) % 32, 1, 32);
    vstd::arithmetic::div_mod::lemma_mod_twice(y + (i1 - 1), 32);
    lemma_small_mod(1, 32);
    lemma_mod_bound(y + (i1 - 1), 32);
    if (y + (i1 - 1)) % 32 + 1 == 32 {
        assert(((y + (i1 - 1)) % 32 + 1) % 32 == 0) by {
            vstd::arithmetic::div_mod::lemma_mod_self_0(32);
        }
    } else {
        lemma_small_mod(((y + (i1 - 1)) % 32 + 1) as nat, 32);
    }
}

} // verus!
