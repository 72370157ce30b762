//! Position enumeration and neighbor enumeration: all cell coordinates
//! in row-major order, and the in-bounds 4- or 8-connected neighbors of
//! a cell, in the fixed order of the directional offset tables
//! (up, left, right, down, then the four diagonals).

use vstd::arithmetic::div_mod::{lemma_fundamental_div_mod, lemma_fundamental_div_mod_converse};
use vstd::prelude::*;

use crate::grid::Grid;
use crate::pos::Pos;

verus! {

/// One candidate coordinate: itself when it lies inside the `w` by `h`
/// rectangle, nothing otherwise.
pub open spec fn opt_pos(w: int, h: int, x: int, y: int) -> Seq<Pos> {
    if 0 <= x < w && 0 <= y < h {
        seq![Pos { x: x as i32, y: y as i32 }]
    } else {
        Seq::empty()
    }
}

/// The in-bounds 4-connected neighbors of `p`, in offset-table order:
/// up, left, right, down.
pub open spec fn neighbors4_of(w: int, h: int, p: Pos) -> Seq<Pos> {
    opt_pos(w, h, p.x as int, p.y - 1) + opt_pos(w, h, p.x - 1, p.y as int) + opt_pos(
        w,
        h,
        p.x + 1,
        p.y as int,
    ) + opt_pos(w, h, p.x as int, p.y + 1)
}

/// The in-bounds 8-connected neighbors of `p`: the four orthogonal
/// offsets in their order, then the four diagonals.
pub open spec fn neighbors8_of(w: int, h: int, p: Pos) -> Seq<Pos> {
    neighbors4_of(w, h, p) + opt_pos(w, h, p.x - 1, p.y - 1) + opt_pos(w, h, p.x + 1, p.y - 1)
        + opt_pos(w, h, p.x - 1, p.y + 1) + opt_pos(w, h, p.x + 1, p.y + 1)
}

/// Appends the candidate `(nx, ny)` exactly when it is in bounds.
fn push_neighbor(out: &mut Vec<Pos>, w: usize, h: usize, nx: i32, ny: i32)
    requires
        w <= i32::MAX,
        h <= i32::MAX,
    ensures
        final(out)@ == old(out)@ + opt_pos(w as int, h as int, nx as int, ny as int),
{
    if 0 <= nx && 0 <= ny && nx < w as i32 && ny < h as i32 {
        out.push(Pos::new(nx, ny));
        proof {
            assert(out@ =~= old(out)@ + opt_pos(w as int, h as int, nx as int, ny as int));
        }
    } else {
        proof {
            assert(out@ =~= old(out)@ + opt_pos(w as int, h as int, nx as int, ny as int));
        }
    }
}

impl<T> Grid<T> {
    /// All cell coordinates in row-major order: `y` outer, `x` inner,
    /// each cell exactly once.
    #[verifier::loop_isolation(false)]
    pub fn positions(&self) -> (r: Vec<Pos>)
        requires
            self.spec_width() <= i32::MAX,
            self.spec_height() <= i32::MAX,
        ensures
            r@.len() == self.spec_width() * self.spec_height(),
            self.spec_width() > 0 ==> forall|k: int|
                0 <= k < r@.len() ==> (#[trigger] r@[k]) == (Pos {
                    x: (k % self.spec_width()) as i32,
                    y: (k / self.spec_width()) as i32,
                }),
            forall|y: int, x: int|
                0 <= y < self.spec_height() && 0 <= x < self.spec_width() ==> r@[
                    #[trigger] (y * self.spec_width() + x)] == (Pos { x: x as i32, y: y as i32 }),
            forall|k: int|
                0 <= k < r@.len() ==> (#[trigger] r@[k]).in_rect(
                    self.spec_width(),
                    self.spec_height(),
                ),
            forall|i: int, j: int| 0 <= i < j < r@.len() ==> r@[i] != r@[j],
    {
        let w = self.width();
        let h = self.height();
        let area = self.area();
        let ghost wi = w as int;
        let mut r: Vec<Pos> = Vec::new();
        let mut y: usize = 0;
        while y < h
            invariant
                w == self.spec_width(),
                h == self.spec_height(),
                w <= i32::MAX,
                h <= i32::MAX,
                0 <= y <= h,
                area == w * h,
                r@.len() == y * w,
                w > 0 ==> forall|k: int|
                    0 <= k < r@.len() ==> (#[trigger] r@[k]) == (Pos {
                        x: (k % wi) as i32,
                        y: (k / wi) as i32,
                    }),
            decreases h - y,
        {
            let mut x: usize = 0;
            while x < w
                invariant
                    w == self.spec_width(),
                    h == self.spec_height(),
                    w <= i32::MAX,
                    h <= i32::MAX,
                    0 <= y < h,
                    0 <= x <= w,
                    area == w * h,
                    r@.len() == y * w + x,
                    w > 0 ==> forall|k: int|
                        0 <= k < r@.len() ==> (#[trigger] r@[k]) == (Pos {
                            x: (k % wi) as i32,
                            y: (k / wi) as i32,
                        }),
                decreases w - x,
            {
                proof {
                    assert(y * w + x < h * w && h * w == w * h) by (nonlinear_arith)
                        requires
                            0 <= x < w,
                            0 <= y < h,
                    ;
                    assert(y * w + x <= usize::MAX);
                    lemma_fundamental_div_mod_converse((y * w + x) as int, wi, y as int, x as int);
                }
                r.push(Pos::new(x as i32, y as i32));
                x = x + 1;
            }
            proof {
                assert(y * w + w == (y + 1) * w) by (nonlinear_arith);
            }
            y = y + 1;
        }
        proof {
            assert(h * w == w * h) by (nonlinear_arith);
            if w > 0 {
                assert forall|yy: int, xx: int|
                    0 <= yy < h && 0 <= xx < w implies r@[#[trigger] (yy * wi + xx)] == (Pos {
                    x: xx as i32,
                    y: yy as i32,
                }) by {
                    assert(0 <= yy * wi + xx < r@.len()) by (nonlinear_arith)
                        requires
                            0 <= yy < h,
                            0 <= xx < wi,
                            r@.len() == wi * h,
                    ;
                    lemma_fundamental_div_mod_converse(yy * wi + xx, wi, yy, xx);
                }
                assert forall|k: int| 0 <= k < r@.len() implies (#[trigger] r@[k]).in_rect(
                    wi,
                    h as int,
                ) by {
                    lemma_fundamental_div_mod(k, wi);
                    assert(0 <= k % wi < wi && 0 <= k / wi < h) by (nonlinear_arith)
                        requires
                            0 <= k < wi * (h as int),
                            wi > 0,
                            k % wi == k - wi * (k / wi),
                            0 <= k % wi < wi,
                    ;
                }
                assert forall|i: int, j: int| 0 <= i < j < r@.len() implies r@[i] != r@[j] by {
                    if r@[i] == r@[j] {
                        lemma_fundamental_div_mod(i, wi);
                        lemma_fundamental_div_mod(j, wi);
                        assert(0 <= i % wi < wi && 0 <= j % wi < wi && 0 <= i / wi && 0 <= j / wi
                            && i / wi < h && j / wi < h) by (nonlinear_arith)
                            requires
                                0 <= i < j < wi * (h as int),
                                wi > 0,
                                i == wi * (i / wi) + i % wi,
                                j == wi * (j / wi) + j % wi,
                                0 <= i % wi < wi,
                                0 <= j % wi < wi,
                        ;
                        assert((i % wi) as i32 == (j % wi) as i32 && (i / wi) as i32 == (j
                            / wi) as i32);
                        assert(i % wi == j % wi && i / wi == j / wi);
                        assert(i == j) by (nonlinear_arith)
                            requires
                                i == wi * (i / wi) + i % wi,
                                j == wi * (j / wi) + j % wi,
                                i % wi == j % wi,
                                i / wi == j / wi,
                        ;
                    }
                }
            }
        }
        r
    }

    /// The in-bounds 4-connected neighbors of `pos`, in the fixed offset
    /// order up, left, right, down.
    pub fn neighbor_positions4(&self, pos: Pos) -> (r: Vec<Pos>)
        requires
            self.spec_width() <= i32::MAX,
            self.spec_height() <= i32::MAX,
            pos.in_rect(self.spec_width(), self.spec_height()),
        ensures
            r@ == neighbors4_of(self.spec_width(), self.spec_height(), pos),
            forall|k: int|
                0 <= k < r@.len() ==> (#[trigger] r@[k]).in_rect(
                    self.spec_width(),
                    self.spec_height(),
                ),
    {
        let w = self.width();
        let h = self.height();
        let mut out: Vec<Pos> = Vec::new();
        push_neighbor(&mut out, w, h, pos.x, pos.y - 1);
        push_neighbor(&mut out, w, h, pos.x - 1, pos.y);
        push_neighbor(&mut out, w, h, pos.x + 1, pos.y);
        push_neighbor(&mut out, w, h, pos.x, pos.y + 1);
        proof {
            assert(out@ =~= neighbors4_of(w as int, h as int, pos));
            lemma_neighbors_in_rect(w as int, h as int, pos);
        }
        out
    }

    /// The in-bounds 8-connected neighbors of `pos`: up, left, right,
    /// down, then the four diagonals in their fixed order.
    pub fn neighbor_positions8(&self, pos: Pos) -> (r: Vec<Pos>)
        requires
            self.spec_width() <= i32::MAX,
            self.spec_height() <= i32::MAX,
            pos.in_rect(self.spec_width(), self.spec_height()),
        ensures
            r@ == neighbors8_of(self.spec_width(), self.spec_height(), pos),
            forall|k: int|
                0 <= k < r@.len() ==> (#[trigger] r@[k]).in_rect(
                    self.spec_width(),
                    self.spec_height(),
                ),
    {
        let w = self.width();
        let h = self.height();
        let mut out: Vec<Pos> = Vec::new();
        push_neighbor(&mut out, w, h, pos.x, pos.y - 1);
        push_neighbor(&mut out, w, h, pos.x - 1, pos.y);
        push_neighbor(&mut out, w, h, pos.x + 1, pos.y);
        push_neighbor(&mut out, w, h, pos.x, pos.y + 1);
        push_neighbor(&mut out, w, h, pos.x - 1, pos.y - 1);
        push_neighbor(&mut out, w, h, pos.x + 1, pos.y - 1);
        push_neighbor(&mut out, w, h, pos.x - 1, pos.y + 1);
        push_neighbor(&mut out, w, h, pos.x + 1, pos.y + 1);
        proof {
            assert(out@ =~= neighbors8_of(w as int, h as int, pos));
            lemma_neighbors_in_rect(w as int, h as int, pos);
        }
        out
    }
}

/// Every coordinate either neighbor enumeration yields is in bounds.
pub proof fn lemma_neighbors_in_rect(w: int, h: int, p: Pos)
    requires
        w <= i32::MAX,
        h <= i32::MAX,
    ensures
        forall|k: int|
            0 <= k < neighbors4_of(w, h, p).len() ==> (#[trigger] neighbors4_of(w, h, p)[k]).in_rect(
                w,
                h,
            ),
        forall|k: int|
            0 <= k < neighbors8_of(w, h, p).len() ==> (#[trigger] neighbors8_of(w, h, p)[k]).in_rect(
                w,
                h,
            ),
{
}

/// An interior cell has exactly four 4-connected neighbors.
pub proof fn lemma_neighbors4_interior(w: int, h: int, p: Pos)
    requires
        1 <= p.x <= w - 2,
        1 <= p.y <= h - 2,
    ensures
        neighbors4_of(w, h, p).len() == 4,
{
}

/// In a grid at least two wide and two high, a corner cell has exactly
/// two 4-connected neighbors.
pub proof fn lemma_neighbors4_corner(w: int, h: int, p: Pos)
    requires
        w >= 2,
        h >= 2,
        p.x == 0 || p.x == w - 1,
        p.y == 0 || p.y == h - 1,
    ensures
        neighbors4_of(w, h, p).len() == 2,
{
}

/// An interior cell has exactly eight 8-connected neighbors.
pub proof fn lemma_neighbors8_interior(w: int, h: int, p: Pos)
    requires
        1 <= p.x <= w - 2,
        1 <= p.y <= h - 2,
    ensures
        neighbors8_of(w, h, p).len() == 8,
{
}

/// In a grid at least two wide and two high, a corner cell has exactly
/// three 8-connected neighbors.
pub proof fn lemma_neighbors8_corner(w: int, h: int, p: Pos)
    requires
        w >= 2,
        h >= 2,
        p.x == 0 || p.x == w - 1,
        p.y == 0 || p.y == h - 1,
    ensures
        neighbors8_of(w, h, p).len() == 3,
{
}

} // verus!
