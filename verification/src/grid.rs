//! The grid container: a dense, row-major buffer of `width * height`
//! elements together with its two dimensions.

use vstd::arithmetic::div_mod::lemma_fundamental_div_mod;
use vstd::prelude::*;

use crate::pos::Pos;

verus! {

/// A two-dimensional grid. The element at column `x`, row `y` lives at
/// offset `y * width + x` of the flat buffer. Its abstract value (`@`)
/// is the sequence of its rows, each a sequence of `width` elements.
pub struct Grid<T> {
    buf: Vec<T>,
    width: usize,
    height: usize,
}

impl<T> View for Grid<T> {
    type V = Seq<Seq<T>>;

    closed spec fn view(&self) -> Seq<Seq<T>> {
        Seq::new(
            self.height as nat,
            |y: int| self.buf@.subrange(y * self.width as int, (y + 1) * self.width as int),
        )
    }
}

impl<T> Grid<T> {
    /// Every grid ever constructed has at least one row and a buffer of
    /// exactly `width * height` elements.
    #[verifier::type_invariant]
    spec fn inv(self) -> bool {
        &&& self.buf@.len() == self.width * self.height
        &&& self.height >= 1
    }

    /// The number of columns.
    pub closed spec fn spec_width(&self) -> int {
        self.width as int
    }

    /// The number of rows.
    pub closed spec fn spec_height(&self) -> int {
        self.height as int
    }

    /// The shape every grid has: one row view per row, each of the
    /// grid's width.
    pub open spec fn wf(&self) -> bool {
        &&& self@.len() == self.spec_height()
        &&& self.spec_height() >= 1
        &&& self.spec_width() >= 0
        &&& forall|y: int| 0 <= y < self@.len() ==> (#[trigger] self@[y]).len() == self.spec_width()
    }
}

/// The shape facts of `Grid::wf`, derived from the internal invariant,
/// together with the row-major layout of the flat buffer.
proof fn lemma_shape<T>(g: Grid<T>)
    requires
        g.inv(),
    ensures
        g.wf(),
        forall|y: int, x: int|
            0 <= y < g.spec_height() && 0 <= x < g.spec_width() ==> (#[trigger] g@[y][x]) == g.buf@[y
                * g.spec_width() + x],
{
    let w = g.spec_width();
    let h = g.spec_height();
    assert forall|y: int| 0 <= y < g@.len() implies (#[trigger] g@[y]).len() == w by {
        assert((y + 1) * w <= h * w && h * w == w * h && 0 <= y * w && (y + 1) * w == y * w
            + w) by (nonlinear_arith)
            requires
                0 <= y < h,
                w >= 0,
        ;
    }
    assert forall|y: int, x: int| 0 <= y < h && 0 <= x < w implies (#[trigger] g@[y][x]) == g.buf@[y
        * w + x] by {
        assert((y + 1) * w <= h * w && h * w == w * h && 0 <= y * w && (y + 1) * w == y * w
            + w) by (nonlinear_arith)
            requires
                0 <= y < h,
                w >= 0,
        ;
    }
}

impl<T> Grid<T> {
    /// Assembles a grid from an already flattened row-major buffer.
    /// `rows` names the intended row decomposition; the buffer must hold
    /// exactly those rows in order.
    pub(crate) fn from_flat(buf: Vec<T>, width: usize, height: usize, Ghost(rows): Ghost<Seq<Seq<T>>>) -> (g:
        Grid<T>)
        requires
            height >= 1,
            rows.len() == height,
            forall|y: int| 0 <= y < rows.len() ==> (#[trigger] rows[y]).len() == width,
            buf@.len() == width * height,
            forall|y: int|
                0 <= y < rows.len() ==> buf@.subrange(y * width, (y + 1) * width) == (
                #[trigger] rows[y]),
        ensures
            g@ == rows,
            g.spec_width() == width,
            g.spec_height() == height,
            g.wf(),
    {
        let g = Grid { buf, width, height };
        proof {
            lemma_shape(g);
            assert(g@ =~= rows);
        }
        g
    }

    /// The fixed number of columns.
    pub fn width(&self) -> (w: usize)
        ensures
            w == self.spec_width(),
            self.wf(),
    {
        proof {
            use_type_invariant(self);
            lemma_shape(*self);
        }
        self.width
    }

    /// The number of cells, `width * height`; it always fits in `usize`
    /// because the grid's buffer holds exactly that many elements.
    pub fn area(&self) -> (a: usize)
        ensures
            a == self.spec_width() * self.spec_height(),
            self.wf(),
    {
        proof {
            use_type_invariant(self);
            lemma_shape(*self);
        }
        self.buf.len()
    }

    /// The fixed number of rows.
    pub fn height(&self) -> (h: usize)
        ensures
            h == self.spec_height(),
            self.wf(),
    {
        proof {
            use_type_invariant(self);
            lemma_shape(*self);
        }
        self.height
    }

    /// Reads the element at column `x`, row `y`. Both coordinates must be
    /// in bounds; a violation is a caller error, not a recoverable one.
    pub fn get(&self, x: usize, y: usize) -> (r: &T)
        requires
            0 <= x < self.spec_width(),
            0 <= y < self.spec_height(),
        ensures
            *r == self@[y as int][x as int],
            self.wf(),
    {
        proof {
            use_type_invariant(self);
            lemma_shape(*self);
            vstd::std_specs::vec::axiom_spec_len(&self.buf);
            assert(y * self.spec_width() + x < self.spec_width() * self.spec_height()
                && 0 <= y * self.spec_width()) by (nonlinear_arith)
                requires
                    0 <= x < self.spec_width(),
                    0 <= y < self.spec_height(),
            ;
        }
        let i = y * self.width + x;
        &self.buf[i]
    }

    /// Replaces the element at column `x`, row `y`; the rest of the grid
    /// and its dimensions are unchanged.
    pub fn set(&mut self, x: usize, y: usize, value: T)
        requires
            0 <= x < old(self).spec_width(),
            0 <= y < old(self).spec_height(),
        ensures
            final(self)@ == old(self)@.update(y as int, old(self)@[y as int].update(x as int, value)),
            final(self).spec_width() == old(self).spec_width(),
            final(self).spec_height() == old(self).spec_height(),
            final(self).wf(),
    {
        proof {
            use_type_invariant(&*self);
            lemma_shape(*self);
            vstd::std_specs::vec::axiom_spec_len(&self.buf);
            assert(y * self.spec_width() + x < self.spec_width() * self.spec_height()
                && 0 <= y * self.spec_width()) by (nonlinear_arith)
                requires
                    0 <= x < self.spec_width(),
                    0 <= y < self.spec_height(),
            ;
        }
        let ghost pre = *self;
        let i = y * self.width + x;
        self.buf[i] = value;
        proof {
            use_type_invariant(&*self);
            lemma_shape(*self);
            lemma_shape(pre);
            let w = pre.spec_width();
            let h = pre.spec_height();
            let j = y * w + x;
            let target = pre@.update(y as int, pre@[y as int].update(x as int, value));
            assert forall|yy: int, k: int|
                0 <= yy < h && 0 <= k < w implies #[trigger] self@[yy][k] == target[yy][k] by {
                assert(0 <= yy * w && (yy + 1) * w == yy * w + w && (yy + 1) * w <= h * w && h * w
                    == w * h && ((yy != y || k != x) ==> yy * w + k != j)) by (nonlinear_arith)
                    requires
                        0 <= yy < h,
                        0 <= k < w,
                        0 <= y < h,
                        0 <= x < w,
                        j == y * w + x,
                ;
                assert(self.buf@ == pre.buf@.update(j, value));
                assert(self@[yy][k] == self.buf@[yy * w + k]);
                assert(pre@[yy][k] == pre.buf@[yy * w + k]);
                if yy == y as int && k == x as int {
                    assert(self.buf@[yy * w + k] == value);
                    assert(target[yy][k] == value);
                } else {
                    assert(self.buf@[yy * w + k] == pre.buf@[yy * w + k]);
                    assert(target[yy][k] == pre@[yy][k]);
                }
            }
            assert forall|yy: int| 0 <= yy < h implies #[trigger] self@[yy] == target[yy] by {
                assert(self@[yy] =~= target[yy]);
            }
            assert(self@ =~= target);
        }
    }
}


impl<T> Grid<T> {
    /// Reads the element at the coordinate `p`; both components must be
    /// non-negative and in bounds, as when indexing by a signed pair.
    pub fn get_pos(&self, p: Pos) -> (r: &T)
        requires
            p.in_rect(self.spec_width(), self.spec_height()),
        ensures
            *r == self@[p.y as int][p.x as int],
            self.wf(),
    {
        self.get(p.x as usize, p.y as usize)
    }

    /// Replaces the element at the coordinate `p`; the shape rules are
    /// those of [`Grid::set`].
    pub fn set_pos(&mut self, p: Pos, value: T)
        requires
            p.in_rect(old(self).spec_width(), old(self).spec_height()),
        ensures
            final(self)@ == old(self)@.update(
                p.y as int,
                old(self)@[p.y as int].update(p.x as int, value),
            ),
            final(self).spec_width() == old(self).spec_width(),
            final(self).spec_height() == old(self).spec_height(),
            final(self).wf(),
    {
        self.set(p.x as usize, p.y as usize, value)
    }

    /// The grid's rows, top to bottom, each a vector of `width` clones
    /// of the row's elements.
    #[verifier::loop_isolation(false)]
    pub fn rows(&self) -> (r: Vec<Vec<T>>) where T: Clone
        ensures
            r@.len() == self.spec_height(),
            forall|y: int| 0 <= y < r@.len() ==> (#[trigger] r@[y])@.len() == self.spec_width(),
            forall|y: int, x: int|
                0 <= y < self.spec_height() && 0 <= x < self.spec_width() ==> cloned(
                    self@[y][x],
                    #[trigger] r@[y]@[x],
                ),
            self.wf(),
    {
        let w = self.width();
        let h = self.height();
        let mut r: Vec<Vec<T>> = Vec::new();
        let mut y: usize = 0;
        while y < h
            invariant
                0 <= y <= h,
                r@.len() == y,
                forall|yy: int| 0 <= yy < y ==> (#[trigger] r@[yy])@.len() == w,
                forall|yy: int, x: int|
                    0 <= yy < y && 0 <= x < w ==> cloned(self@[yy][x], #[trigger] r@[yy]@[x]),
            decreases h - y,
        {
            let mut row: Vec<T> = Vec::new();
            let mut x: usize = 0;
            while x < w
                invariant
                    0 <= y < h,
                    0 <= x <= w,
                    row@.len() == x,
                    forall|xx: int| 0 <= xx < x ==> cloned(self@[y as int][xx], #[trigger] row@[xx]),
                decreases w - x,
            {
                row.push(self.get(x, y).clone());
                x = x + 1;
            }
            r.push(row);
            y = y + 1;
        }
        r
    }

    /// Applies `f` to every element in row-major order, consuming the
    /// grid and producing a new grid of the results with the same
    /// dimensions.
    #[verifier::loop_isolation(false)]
    pub fn map<U, F: Fn(T) -> U>(self, f: F) -> (r: Grid<U>)
        requires
            forall|y: int, x: int|
                0 <= y < self.spec_height() && 0 <= x < self.spec_width() ==> call_requires(
                    f,
                    (#[trigger] self@[y][x],),
                ),
        ensures
            r.spec_width() == self.spec_width(),
            r.spec_height() == self.spec_height(),
            r.wf(),
            forall|y: int, x: int|
                0 <= y < self.spec_height() && 0 <= x < self.spec_width() ==> call_ensures(
                    f,
                    (self@[y][x],),
                    #[trigger] r@[y][x],
                ),
    {
        proof {
            use_type_invariant(&self);
            lemma_shape(self);
            vstd::std_specs::vec::axiom_spec_len(&self.buf);
        }
        let ghost gold = self;
        let ghost w = self.spec_width();
        let ghost h = self.spec_height();
        let Grid { buf, width, height } = self;
        proof {
            assert forall|j: int| 0 <= j < gold.buf@.len() implies call_requires(
                f,
                (#[trigger] gold.buf@[j],),
            ) by {
                assert(w > 0) by (nonlinear_arith)
                    requires
                        0 <= j < w * h,
                        h >= 1,
                        w >= 0,
                ;
                lemma_fundamental_div_mod(j, w);
                assert(0 <= j % w < w && 0 <= j / w < h) by (nonlinear_arith)
                    requires
                        0 <= j < w * h,
                        w > 0,
                        j == w * (j / w) + j % w,
                        0 <= j % w < w,
                ;
                assert(gold@[j / w][j % w] == gold.buf@[(j / w) * w + (j % w)]);
                assert((j / w) * w + (j % w) == j) by (nonlinear_arith)
                    requires
                        j == w * (j / w) + j % w,
                ;
            }
        }
        let mut src = buf;
        let mut out: Vec<U> = Vec::new();
        let mut k: usize = 0;
        while src.len() > 0
            invariant
                k + src@.len() == gold.buf@.len(),
                src@ == gold.buf@.skip(k as int),
                out@.len() == k,
                forall|j: int|
                    0 <= j < k ==> call_ensures(f, (gold.buf@[j],), #[trigger] out@[j]),
            decreases src@.len(),
        {
            let v = src.remove(0);
            proof {
                assert(gold.buf@.skip(k as int).remove(0) =~= gold.buf@.skip(k as int + 1));
                assert(v == gold.buf@[k as int]);
            }
            out.push(f(v));
            k = k + 1;
        }
        let g = Grid { buf: out, width, height };
        proof {
            lemma_shape(g);
            assert forall|y: int, x: int|
                0 <= y < h && 0 <= x < w implies call_ensures(
                f,
                (gold@[y][x],),
                #[trigger] g@[y][x],
            ) by {
                assert(0 <= y * w + x < w * h && (y + 1) * w <= h * w) by (nonlinear_arith)
                    requires
                        0 <= y < h,
                        0 <= x < w,
                ;
                assert(g@[y][x] == g.buf@[y * w + x]);
                assert(gold@[y][x] == gold.buf@[y * w + x]);
            }
        }
        g
    }
}

} // verus!
