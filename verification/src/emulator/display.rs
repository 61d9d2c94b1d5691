//! Monochrome 64x32 framebuffer with toroidal sprite drawing.
//!
//! Sprites are up to 15 rows of 8 pixels (one byte per row, most significant
//! bit leftmost) and are composited by XOR: a sprite bit flips the pixel it
//! lands on.  Coordinates wrap around both edges (toroidal addressing), so a
//! sprite is never clipped.  [`Display::draw`] reports a collision exactly
//! when at least one pixel went from set to unset.

use vstd::arithmetic::div_mod::{lemma_add_mod_noop, lemma_add_mod_noop_right, lemma_small_mod};
use vstd::prelude::*;

verus! {

/// Top-left coordinate a sprite is drawn at, before wraparound.
pub struct Point {
    pub x: usize,
    pub y: usize,
}

/// The framebuffer: `screen[row][column]` is true when the pixel is set.
pub struct Display {
    pub screen: Vec<Vec<bool>>,
}

/// The grid with every pixel unset.
pub open spec fn blank_grid() -> Seq<Seq<bool>> {
    Seq::new(32, |r: int| Seq::new(64, |c: int| false))
}

/// Bit `j` of sprite row byte `b`, counted from the most significant bit,
/// so that bit 0 is the leftmost pixel of the row.
pub open spec fn bit_at(b: u8, j: int) -> bool {
    if j == 0 {
        b / 128 % 2 == 1
    } else if j == 1 {
        b / 64 % 2 == 1
    } else if j == 2 {
        b / 32 % 2 == 1
    } else if j == 3 {
        b / 16 % 2 == 1
    } else if j == 4 {
        b / 8 % 2 == 1
    } else if j == 5 {
        b / 4 % 2 == 1
    } else if j == 6 {
        b / 2 % 2 == 1
    } else if j == 7 {
        b % 2 == 1
    } else {
        false
    }
}

/// Whether the sprite drawn at origin `(px, py)` puts a set bit onto grid
/// cell `(r, c)`.  The sprite row landing on display row `r` is
/// `(r - py) mod 32` and the sprite column landing on display column `c` is
/// `(c - px) mod 64`: toroidal addressing, each cell is hit by at most one
/// sprite bit since a sprite spans at most 15 rows and 8 columns.
pub open spec fn hits(sprite: Seq<u8>, px: int, py: int, r: int, c: int) -> bool {
    let i = (r - py) % 32;
    let j = (c - px) % 64;
    i < sprite.len() && j < 8 && bit_at(sprite[i], j)
}

/// The grid after the sprite is XOR-composited at `(px, py)`: every cell a
/// set sprite bit lands on is flipped, every other cell keeps its value.
pub open spec fn draw_result(g: Seq<Seq<bool>>, px: int, py: int, sprite: Seq<u8>) -> Seq<
    Seq<bool>,
> {
    Seq::new(32, |r: int| Seq::new(64, |c: int| g[r][c] != hits(sprite, px, py, r, c)))
}

/// The collision signal of a draw: true exactly when some pixel goes from
/// set to unset, i.e. a set sprite bit lands on an already set cell.
pub open spec fn draw_collision(g: Seq<Seq<bool>>, px: int, py: int, sprite: Seq<u8>) -> bool {
    exists|r: int, c: int|
        0 <= r < 32 && 0 <= c < 64 && #[trigger] hits(sprite, px, py, r, c) && g[r][c]
}

/// Like [`hits`], restricted to the sprite bits before row `i`, plus those
/// of row `i` before column `j`.
spec fn hits_upto(sprite: Seq<u8>, px: int, py: int, i: int, j: int, r: int, c: int) -> bool {
    let di = (r - py) % 32;
    let dj = (c - px) % 64;
    di < sprite.len() && dj < 8 && (di < i || (di == i && dj < j)) && bit_at(sprite[di], dj)
}

/// The grid after only the sprite bits counted by [`hits_upto`] are applied.
spec fn draw_upto(g: Seq<Seq<bool>>, px: int, py: int, sprite: Seq<u8>, i: int, j: int) -> Seq<
    Seq<bool>,
> {
    Seq::new(32, |r: int| Seq::new(64, |c: int| g[r][c] != hits_upto(sprite, px, py, i, j, r, c)))
}

/// The collision signal restricted to the sprite bits counted by [`hits_upto`].
spec fn collision_upto(g: Seq<Seq<bool>>, px: int, py: int, sprite: Seq<u8>, i: int, j: int) -> bool {
    exists|r: int, c: int|
        0 <= r < 32 && 0 <= c < 64 && #[trigger] hits_upto(sprite, px, py, i, j, r, c) && g[r][c]
}

/// Adding the origin back to a wrapped offset recovers the cell: for a cell
/// index `r` below `m`, `(p + ((r - p) mod m)) mod m == r`.
proof fn lemma_wrap_unwrap(p: int, r: int, m: int)
    requires
        0 < m,
        0 <= r < m,
    ensures
        (p + ((r - p) % m)) % m == r,
{
    lemma_add_mod_noop_right(p, r - p, m);
    lemma_small_mod(r as nat, m as nat);
}

/// Wrapping a cell computed from an offset recovers the offset: for an
/// offset `i` below `m`, `(((p + i) mod m) - p) mod m == i`.
proof fn lemma_unwrap_wrap(p: int, i: int, m: int)
    requires
        0 < m,
        0 <= i < m,
    ensures
        (((p + i) % m) - p) % m == i,
{
    lemma_add_mod_noop(p + i, -p, m);
    lemma_add_mod_noop_right((p + i) % m, -p, m);
    lemma_small_mod(i as nat, m as nat);
}

/// Normalizing the origin before adding a small offset does not change the
/// wrapped cell: `((p mod m) + i) mod m == (p + i) mod m`.
proof fn lemma_mod_shift(p: int, i: int, m: int)
    requires
        0 < m,
        0 <= i < m,
    ensures
        ((p % m) + i) % m == (p + i) % m,
{
    lemma_add_mod_noop(p, i, m);
    lemma_small_mod(i as nat, m as nat);
}

/// After a clear, every one of the 2048 cells reads unset.
pub proof fn lemma_blank_grid_unset(r: int, c: int)
    requires
        0 <= r < 32,
        0 <= c < 64,
    ensures
        !blank_grid()[r][c],
{
}

/// Drawing the same sprite twice at the same origin returns the grid to the
/// state before the first draw: XOR compositing is its own inverse.
pub proof fn lemma_draw_self_inverse(g: Seq<Seq<bool>>, px: int, py: int, sprite: Seq<u8>)
    requires
        g.len() == 32,
        forall|r: int| 0 <= r < 32 ==> (#[trigger] g[r]).len() == 64,
    ensures
        draw_result(draw_result(g, px, py, sprite), px, py, sprite) == g,
{
    assert(draw_result(draw_result(g, px, py, sprite), px, py, sprite) =~~= g);
}

/// If the first of two identical draws set at least one pixel that was
/// unset, the second draw reports a collision: the pixel the first draw set
/// is erased again by the same sprite bit.
pub proof fn lemma_redraw_collides(g: Seq<Seq<bool>>, px: int, py: int, sprite: Seq<u8>)
    requires
        g.len() == 32,
        forall|r: int| 0 <= r < 32 ==> (#[trigger] g[r]).len() == 64,
        exists|r: int, c: int|
            0 <= r < 32 && 0 <= c < 64 && #[trigger] hits(sprite, px, py, r, c) && !g[r][c],
    ensures
        draw_collision(draw_result(g, px, py, sprite), px, py, sprite),
{
    let (r, c) = choose|r: int, c: int|
        0 <= r < 32 && 0 <= c < 64 && #[trigger] hits(sprite, px, py, r, c) && !g[r][c];
    assert(draw_result(g, px, py, sprite)[r][c]);
}

impl Display {
    /// Well-formed: 32 rows of 64 pixels each.
    pub open spec fn wf(&self) -> bool {
        &&& self.screen@.len() == 32
        &&& forall|r: int| 0 <= r < 32 ==> (#[trigger] self.screen@[r])@.len() == 64
    }

    /// The framebuffer as a mathematical grid of rows.
    pub open spec fn grid(&self) -> Seq<Seq<bool>> {
        Seq::new(self.screen@.len(), |r: int| self.screen@[r]@)
    }

    /// A fresh framebuffer with every pixel unset.
    pub fn new() -> (d: Display)
        ensures
            d.wf(),
            d.grid() == blank_grid(),
    {
        let screen = blank_screen();
        let d = Display { screen };
        proof {
            assert(d.grid() =~~= blank_grid());
        }
        d
    }

    /// Reset every pixel to unset.
    pub fn clear(&mut self)
        ensures
            final(self).wf(),
            final(self).grid() == blank_grid(),
    {
        self.screen = blank_screen();
        proof {
            assert(self.grid() =~~= blank_grid());
        }
    }

    /// XOR-composite `sprite` at `point` (wrapping both coordinates) and
    /// report whether any pixel was erased by the draw.
    pub fn draw(&mut self, point: Point, sprite: &[u8]) -> (collision: bool)
        requires
            old(self).wf(),
            sprite@.len() <= 15,
        ensures
            final(self).wf(),
            final(self).grid() == draw_result(
                old(self).grid(),
                point.x as int,
                point.y as int,
                sprite@,
            ),
            collision == draw_collision(
                old(self).grid(),
                point.x as int,
                point.y as int,
                sprite@,
            ),
    {
        let ghost g0 = self.grid();
        let ghost px = point.x as int;
        let ghost py = point.y as int;
        let x0 = point.x % 64;
        let y0 = point.y % 32;
        let mut collision = false;
        let mut i: usize = 0;
        proof {
            assert(self.grid() =~~= draw_upto(g0, px, py, sprite@, 0, 0));
        }
        while i < sprite.len()
            invariant
                self.wf(),
                i <= sprite@.len() <= 15,
                x0 == px % 64,
                y0 == py % 32,
                0 <= px,
                0 <= py,
                g0.len() == 32,
                forall|r: int| 0 <= r < 32 ==> (#[trigger] g0[r]).len() == 64,
                self.grid() == draw_upto(g0, px, py, sprite@, i as int, 0),
                collision == collision_upto(g0, px, py, sprite@, i as int, 0),
            decreases sprite@.len() - i,
        {
            let byte = sprite[i];
            let ry = (y0 + i) % 32;
            proof {
                lemma_mod_shift(py, i as int, 32);
            }
            let mut j: usize = 0;
            proof {
                assert(draw_upto(g0, px, py, sprite@, i as int, 0) =~~= draw_upto(
                    g0,
                    px,
                    py,
                    sprite@,
                    i as int,
                    0,
                ));
            }
            while j < 8
                invariant
                    self.wf(),
                    i < sprite@.len() <= 15,
                    j <= 8,
                    x0 == px % 64,
                    y0 == py % 32,
                    0 <= px,
                    0 <= py,
                    byte == sprite@[i as int],
                    ry == (py + i) % 32,
                    ry < 32,
                    g0.len() == 32,
                    forall|r: int| 0 <= r < 32 ==> (#[trigger] g0[r]).len() == 64,
                    self.grid() == draw_upto(g0, px, py, sprite@, i as int, j as int),
                    collision == collision_upto(g0, px, py, sprite@, i as int, j as int),
                decreases 8 - j,
            {
                let cx = (x0 + j) % 64;
                let divisor: u8 = if j == 0 {
                    128
                } else if j == 1 {
                    64
                } else if j == 2 {
                    32
                } else if j == 3 {
                    16
                } else if j == 4 {
                    8
                } else if j == 5 {
                    4
                } else if j == 6 {
                    2
                } else {
                    1
                };
                let bit = byte / divisor % 2 == 1;
                let row_ref: &Vec<bool> = &self.screen[ry];
                let cur = row_ref[cx];
                let newv = cur != bit;
                self.set_cell(ry, cx, newv);
                if cur && bit {
                    collision = true;
                }
                proof {
                    let ii = i as int;
                    let jj = j as int;
                    let g1 = draw_upto(g0, px, py, sprite@, ii, jj);
                    lemma_mod_shift(px, jj, 64);
                    lemma_unwrap_wrap(py, ii, 32);
                    lemma_unwrap_wrap(px, jj, 64);
                    assert(bit == bit_at(sprite@[ii], jj));
                    // The pair (i, j) lands exactly on (ry, cx); it is not
                    // yet counted by hits_upto(i, j), so the cell still held
                    // its original value before this flip.
                    assert(!hits_upto(sprite@, px, py, ii, jj, ry as int, cx as int));
                    assert(cur == g0[ry as int][cx as int]);
                    // Every other cell is untouched by the pair (i, j).
                    assert forall|r: int, c: int|
                        0 <= r < 32 && 0 <= c < 64 && !(r == ry as int && c == cx as int) implies (
                    hits_upto(sprite@, px, py, ii, jj + 1, r, c) == hits_upto(
                        sprite@,
                        px,
                        py,
                        ii,
                        jj,
                        r,
                        c,
                    )) by {
                        lemma_wrap_unwrap(py, r, 32);
                        lemma_wrap_unwrap(px, c, 64);
                    }
                    assert(hits_upto(sprite@, px, py, ii, jj + 1, ry as int, cx as int) == bit);
                    assert(self.grid() =~~= draw_upto(g0, px, py, sprite@, ii, jj + 1));
                    if cur && bit {
                        assert(hits_upto(sprite@, px, py, ii, jj + 1, ry as int, cx as int));
                        assert(collision_upto(g0, px, py, sprite@, ii, jj + 1));
                    } else {
                        if collision_upto(g0, px, py, sprite@, ii, jj + 1) {
                            let (r, c) = choose|r: int, c: int|
                                0 <= r < 32 && 0 <= c < 64 && #[trigger] hits_upto(
                                    sprite@,
                                    px,
                                    py,
                                    ii,
                                    jj + 1,
                                    r,
                                    c,
                                ) && g0[r][c];
                            if r == ry as int && c == cx as int {
                                assert(false);
                            } else {
                                assert(hits_upto(sprite@, px, py, ii, jj, r, c));
                            }
                        }
                        if collision_upto(g0, px, py, sprite@, ii, jj) {
                            let (r, c) = choose|r: int, c: int|
                                0 <= r < 32 && 0 <= c < 64 && #[trigger] hits_upto(
                                    sprite@,
                                    px,
                                    py,
                                    ii,
                                    jj,
                                    r,
                                    c,
                                ) && g0[r][c];
                            assert(hits_upto(sprite@, px, py, ii, jj + 1, r, c));
                        }
                    }
                }
                j = j + 1;
            }
            proof {
                assert(draw_upto(g0, px, py, sprite@, i as int, 8) =~~= draw_upto(
                    g0,
                    px,
                    py,
                    sprite@,
                    i as int + 1,
                    0,
                ));
                if collision_upto(g0, px, py, sprite@, i as int, 8) {
                    let (r, c) = choose|r: int, c: int|
                        0 <= r < 32 && 0 <= c < 64 && #[trigger] hits_upto(
                            sprite@,
                            px,
                            py,
                            i as int,
                            8,
                            r,
                            c,
                        ) && g0[r][c];
                    assert(hits_upto(sprite@, px, py, i as int + 1, 0, r, c));
                }
                if collision_upto(g0, px, py, sprite@, i as int + 1, 0) {
                    let (r, c) = choose|r: int, c: int|
                        0 <= r < 32 && 0 <= c < 64 && #[trigger] hits_upto(
                            sprite@,
                            px,
                            py,
                            i as int + 1,
                            0,
                            r,
                            c,
                        ) && g0[r][c];
                    assert(hits_upto(sprite@, px, py, i as int, 8, r, c));
                }
                assert(collision_upto(g0, px, py, sprite@, i as int, 8) == collision_upto(
                    g0,
                    px,
                    py,
                    sprite@,
                    i as int + 1,
                    0,
                ));
            }
            i = i + 1;
        }
        proof {
            let n = sprite@.len() as int;
            assert forall|r: int, c: int| 0 <= r < 32 && 0 <= c < 64 implies (hits_upto(
                sprite@,
                px,
                py,
                n,
                0,
                r,
                c,
            ) == hits(sprite@, px, py, r, c)) by {}
            assert(self.grid() =~~= draw_result(g0, px, py, sprite@));
            if collision_upto(g0, px, py, sprite@, n, 0) {
                let (r, c) = choose|r: int, c: int|
                    0 <= r < 32 && 0 <= c < 64 && #[trigger] hits_upto(
                        sprite@,
                        px,
                        py,
                        n,
                        0,
                        r,
                        c,
                    ) && g0[r][c];
                assert(hits(sprite@, px, py, r, c));
            }
            if draw_collision(g0, px, py, sprite@) {
                let (r, c) = choose|r: int, c: int|
                    0 <= r < 32 && 0 <= c < 64 && #[trigger] hits(sprite@, px, py, r, c)
                        && g0[r][c];
                assert(hits_upto(sprite@, px, py, n, 0, r, c));
            }
            assert(collision == draw_collision(g0, px, py, sprite@));
        }
        collision
    }

    /// Overwrite the single pixel at row `r`, column `c`.
    fn set_cell(&mut self, r: usize, c: usize, v: bool)
        requires
            old(self).wf(),
            r < 32,
            c < 64,
        ensures
            final(self).wf(),
            final(self).grid() == old(self).grid().update(
                r as int,
                old(self).grid()[r as int].update(c as int, v),
            ),
    {
        let mut row: Vec<bool> = Vec::new();
        let mut k: usize = 0;
        while k < 64
            invariant
                old(self) == self,
                self.wf(),
                r < 32,
                c < 64,
                k <= 64,
                row@.len() == k,
                forall|t: int|
                    0 <= t < k ==> row@[t] == (if t == c {
                        v
                    } else {
                        self.grid()[r as int][t]
                    }),
            decreases 64 - k,
        {
            let row_ref: &Vec<bool> = &self.screen[r];
            let cell = row_ref[k];
            row.push(if k == c {
                v
            } else {
                cell
            });
            k = k + 1;
        }
        self.screen.set(r, row);
        proof {
            assert(self.grid() =~~= old(self).grid().update(
                r as int,
                old(self).grid()[r as int].update(c as int, v),
            ));
        }
    }
}

/// 32 rows of 64 unset pixels.
fn blank_screen() -> (screen: Vec<Vec<bool>>)
    ensures
        screen@.len() == 32,
        forall|r: int| 0 <= r < 32 ==> (#[trigger] screen@[r])@.len() == 64,
        forall|r: int, c: int| 0 <= r < 32 && 0 <= c < 64 ==> !(#[trigger] screen@[r]@[c]),
{
    let mut screen: Vec<Vec<bool>> = Vec::new();
    let mut r: usize = 0;
    while r < 32
        invariant
            r <= 32,
            screen@.len() == r,
            forall|t: int| 0 <= t < r ==> (#[trigger] screen@[t])@.len() == 64,
            forall|t: int, c: int| 0 <= t < r && 0 <= c < 64 ==> !(#[trigger] screen@[t]@[c]),
        decreases 32 - r,
    {
        let mut row: Vec<bool> = Vec::new();
        let mut c: usize = 0;
        while c < 64
            invariant
                c <= 64,
                row@.len() == c,
                forall|t: int| 0 <= t < c ==> !(#[trigger] row@[t]),
            decreases 64 - c,
        {
            row.push(false);
            c = c + 1;
        }
        screen.push(row);
        r = r + 1;
    }
    screen
}

} // verus!
