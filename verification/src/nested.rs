//! Construction from nested rows: a sequence of row sequences whose
//! lengths must all agree.

use vstd::prelude::*;

use crate::error::GridError;
use crate::grid::Grid;

verus! {

/// The rows a nested vector holds, as a sequence of sequences.
pub open spec fn rows_view<T>(v: Seq<Vec<T>>) -> Seq<Seq<T>> {
    Seq::new(v.len(), |i: int| v[i]@)
}

/// All rows have the length of the first one.
pub open spec fn is_rect<T>(rows: Seq<Seq<T>>) -> bool {
    forall|i: int| 0 <= i < rows.len() ==> (#[trigger] rows[i]).len() == rows[0].len()
}

/// Row `i` (0-based) disagrees with the established width.
pub open spec fn mismatch_at<T>(rows: Seq<Seq<T>>, i: int) -> bool {
    0 <= i < rows.len() && rows[i].len() != rows[0].len()
}

impl<T> Grid<T> {
    /// Builds a grid from nested rows, consuming them: the height is the
    /// number of rows, the width the length of the first row, and every
    /// row must have that same length. Callers must guard both; invalid
    /// nested input is a fatal error, not a recoverable one.
    pub fn from_nested(v: Vec<Vec<T>>) -> (g: Grid<T>)
        requires
            v@.len() >= 1,
            is_rect(rows_view(v@)),
        ensures
            g@ == rows_view(v@),
            g.spec_width() == v@[0]@.len(),
            g.spec_height() == v@.len(),
            g.wf(),
    {
        let ghost orig = v@;
        let ghost rows0 = rows_view(v@);
        let height = v.len();
        let width = v[0].len();
        let mut v = v;
        let mut buf: Vec<T> = Vec::new();
        let mut done: usize = 0;
        while v.len() > 0
            invariant
                orig.len() == height,
                rows0 == rows_view(orig),
                is_rect(rows0),
                width == rows0[0].len(),
                height >= 1,
                done + v@.len() == height,
                v@ == orig.skip(done as int),
                buf@.len() == done * width,
                forall|y: int|
                    0 <= y < done ==> buf@.subrange(y * width, (y + 1) * width) == (
                    #[trigger] rows0[y]),
            decreases v@.len(),
        {
            let ghost pre_buf = buf@;
            let mut row = v.remove(0);
            proof {
                assert(orig.skip(done as int).remove(0) =~= orig.skip(done as int + 1));
                assert(row@ == rows0[done as int]);
                assert((done + 1) * width == done * width + width) by (nonlinear_arith);
            }
            buf.append(&mut row);
            done = done + 1;
            proof {
                assert forall|y: int|
                    0 <= y < done implies buf@.subrange(y * width, (y + 1) * width) == (
                #[trigger] rows0[y]) by {
                    assert((y + 1) * width == y * width + width && 0 <= y * width && (y + 1) * width
                        <= done * width) by (nonlinear_arith)
                        requires
                            0 <= y < done,
                            width >= 0,
                    ;
                    if y < done - 1 {
                        assert((y + 1) * width <= (done - 1) * width) by (nonlinear_arith)
                            requires
                                y + 1 <= done - 1,
                                width >= 0,
                        ;
                        assert(buf@.subrange(y * width, (y + 1) * width) =~= pre_buf.subrange(
                            y * width,
                            (y + 1) * width,
                        ));
                    } else {
                        assert(buf@.subrange(y * width, (y + 1) * width) =~= rows0[y]);
                    }
                }
            }
        }
        proof {
            assert(done * width == width * height) by (nonlinear_arith)
                requires
                    done == height,
            ;
        }
        Grid::from_flat(buf, width, height, Ghost(rows0))
    }

    /// Checking variant of [`Grid::from_nested`]: reports empty input and
    /// the first row whose length disagrees with the first row's, instead
    /// of demanding well-shaped input.
    pub fn try_from_nested(v: Vec<Vec<T>>) -> (r: Result<Grid<T>, GridError>)
        ensures
            r is Ok <==> v@.len() >= 1 && is_rect(rows_view(v@)),
            r == Err::<Grid<T>, GridError>(GridError::Empty) <==> v@.len() == 0,
            r matches Ok(g) ==> g@ == rows_view(v@) && g.spec_width() == v@[0]@.len()
                && g.spec_height() == v@.len() && g.wf(),
            r matches Err(GridError::WidthMismatch { row }) ==> 2 <= row <= v@.len()
                && mismatch_at(rows_view(v@), row - 1) && (forall|i: int|
                0 <= i < row - 1 ==> !mismatch_at(rows_view(v@), i)),
    {
        if v.len() == 0 {
            return Err(GridError::Empty);
        }
        let width = v[0].len();
        let mut y: usize = 1;
        while y < v.len()
            invariant
                v@.len() >= 1,
                width == v@[0]@.len(),
                1 <= y <= v@.len(),
                forall|i: int| 0 <= i < y ==> !mismatch_at(rows_view(v@), i),
            decreases v@.len() - y,
        {
            if v[y].len() != width {
                proof {
                    assert(rows_view(v@)[y as int] == v@[y as int]@);
                    assert(rows_view(v@)[0] == v@[0]@);
                    assert(mismatch_at(rows_view(v@), y as int));
                }
                return Err(GridError::WidthMismatch { row: y + 1 });
            }
            y = y + 1;
        }
        proof {
            assert forall|i: int| 0 <= i < rows_view(v@).len() implies (#[trigger] rows_view(v@)[i]).len()
                == rows_view(v@)[0].len() by {
                assert(!mismatch_at(rows_view(v@), i));
            }
        }
        Ok(Grid::from_nested(v))
    }

    /// Builds a grid by cloning a borrowed slice of rows; the shape rules
    /// are those of [`Grid::from_nested`]. Each cell of the result is a
    /// clone of the corresponding input cell.
    pub fn from_nested_slice(v: &[Vec<T>]) -> (g: Grid<T>) where T: Clone
        requires
            v@.len() >= 1,
            is_rect(rows_view(v@)),
        ensures
            g.spec_width() == v@[0]@.len(),
            g.spec_height() == v@.len(),
            g.wf(),
            forall|y: int, x: int|
                0 <= y < v@.len() && 0 <= x < v@[0]@.len() ==> cloned(v@[y]@[x], #[trigger] g@[y][x]),
    {
        let height = v.len();
        let width = v[0].len();
        let mut buf: Vec<T> = Vec::new();
        let ghost mut rows_built: Seq<Seq<T>> = Seq::empty();
        let mut done: usize = 0;
        while done < height
            invariant
                height == v@.len(),
                height >= 1,
                is_rect(rows_view(v@)),
                width == v@[0]@.len(),
                0 <= done <= height,
                rows_built.len() == done,
                forall|y: int| 0 <= y < done ==> (#[trigger] rows_built[y]).len() == width,
                forall|y: int, x: int|
                    0 <= y < done && 0 <= x < width ==> cloned(v@[y]@[x], #[trigger] rows_built[y][x]),
                buf@.len() == done * width,
                forall|y: int|
                    0 <= y < done ==> buf@.subrange(y * width, (y + 1) * width) == (
                    #[trigger] rows_built[y]),
            decreases height - done,
        {
            let ghost pre_buf = buf@;
            let ghost pre_rows = rows_built;
            let mut row = v[done].clone();
            proof {
                assert(rows_view(v@)[done as int] == v@[done as int]@);
                assert(rows_view(v@)[0] == v@[0]@);
                assert(v@[done as int]@.len() == width);
                rows_built = rows_built.push(row@);
                assert((done + 1) * width == done * width + width) by (nonlinear_arith);
            }
            buf.append(&mut row);
            done = done + 1;
            proof {
                assert forall|y: int|
                    0 <= y < done implies buf@.subrange(y * width, (y + 1) * width) == (
                #[trigger] rows_built[y]) by {
                    assert((y + 1) * width == y * width + width && 0 <= y * width && (y + 1) * width
                        <= done * width) by (nonlinear_arith)
                        requires
                            0 <= y < done,
                            width >= 0,
                    ;
                    if y < done - 1 {
                        assert((y + 1) * width <= (done - 1) * width) by (nonlinear_arith)
                            requires
                                y + 1 <= done - 1,
                                width >= 0,
                        ;
                        assert(buf@.subrange(y * width, (y + 1) * width) =~= pre_buf.subrange(
                            y * width,
                            (y + 1) * width,
                        ));
                        assert(pre_rows[y] == rows_built[y]);
                    } else {
                        assert(buf@.subrange(y * width, (y + 1) * width) =~= rows_built[y]);
                    }
                }
            }
        }
        proof {
            assert(done * width == width * height) by (nonlinear_arith)
                requires
                    done == height,
            ;
        }
        Grid::from_flat(buf, width, height, Ghost(rows_built))
    }
}

} // verus!
