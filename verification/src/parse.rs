//! Construction from a flat sequence with a designated separator value:
//! each run between separators becomes one row, and every completed row
//! must match the width of the first.

use vstd::prelude::*;
use vstd::std_specs::cmp::PartialEqSpec;
use vstd::string::{StrSliceExecFns, StringSliceAdditionalSpecFns};

use crate::error::GridError;
use crate::grid::Grid;
use crate::nested::{is_rect, mismatch_at};

verus! {

/// Splits `s` at every element satisfying `p`: each separator ends a
/// part, the remainder after the last separator is the final part. An
/// empty input is one empty part.
pub open spec fn split_when<T>(s: Seq<T>, p: spec_fn(T) -> bool) -> Seq<Seq<T>>
    decreases s.len(),
{
    if s.len() == 0 {
        seq![Seq::<T>::empty()]
    } else {
        let prev = split_when(s.drop_last(), p);
        if p(s.last()) {
            prev.push(Seq::empty())
        } else {
            prev.update(prev.len() - 1, prev.last().push(s.last()))
        }
    }
}

/// The rows a separator-delimited sequence holds: split at every element
/// equal to `sep` (equality in the sense of `T`'s `==`).
pub open spec fn split_by<T: PartialEq>(s: Seq<T>, sep: T) -> Seq<Seq<T>> {
    split_when(s, |t: T| t.eq_spec(&sep))
}

/// Splitting a prefix settles every part the prefix has completed: the
/// full split has at least as many parts, and agrees on all parts of the
/// prefix's split but its last.
pub proof fn lemma_split_prefix<T>(s: Seq<T>, p: spec_fn(T) -> bool, k: int)
    requires
        0 <= k <= s.len(),
    ensures
        split_when(s.take(k), p).len() <= split_when(s, p).len(),
        forall|r: int|
            0 <= r < split_when(s.take(k), p).len() - 1 ==> split_when(s.take(k), p)[r]
                == split_when(s, p)[r],
    decreases s.len() - k,
{
    if k == s.len() {
        assert(s.take(k) =~= s);
    } else {
        let a = split_when(s.take(k), p);
        let b = split_when(s.take(k + 1), p);
        assert(s.take(k + 1).drop_last() =~= s.take(k));
        assert(s.take(k + 1).last() == s[k]);
        assert(a.len() >= 1) by {
            lemma_split_nonempty(s.take(k), p);
        }
        if p(s[k]) {
            assert(b == a.push(Seq::<T>::empty()));
        } else {
            assert(b == a.update(a.len() - 1, a.last().push(s[k])));
        }
        lemma_split_prefix(s, p, k + 1);
    }
}

/// A split always has at least one part.
pub proof fn lemma_split_nonempty<T>(s: Seq<T>, p: spec_fn(T) -> bool)
    ensures
        split_when(s, p).len() >= 1,
    decreases s.len(),
{
    if s.len() > 0 {
        lemma_split_nonempty(s.drop_last(), p);
    }
}

impl<T: PartialEq> Grid<T> {
    /// Checking variant of [`Grid::from_separated`]: reports an input
    /// without any separator and the first row whose length disagrees
    /// with the first row's, instead of demanding well-shaped input.
    #[verifier::loop_isolation(false)]
    pub fn try_from_separated(s: Vec<T>, sep: T) -> (r: Result<Grid<T>, GridError>)
        requires
            T::obeys_eq_spec(),
            s@.len() < usize::MAX,
        ensures
            r is Ok <==> split_by(s@, sep).len() >= 2 && is_rect(split_by(s@, sep)),
            r == Err::<Grid<T>, GridError>(GridError::Empty) <==> split_by(s@, sep).len() == 1,
            r matches Ok(g) ==> g@ == split_by(s@, sep) && g.spec_width() == split_by(s@, sep)[0].len()
                && g.spec_height() == split_by(s@, sep).len() && g.wf(),
            r matches Err(GridError::WidthMismatch { row }) ==> 2 <= row <= split_by(s@, sep).len()
                && mismatch_at(split_by(s@, sep), row - 1) && (forall|i: int|
                0 <= i < row - 1 ==> !mismatch_at(split_by(s@, sep), i)),
    {
        let ghost orig = s@;
        let ghost pfn = |t: T| t.eq_spec(&sep);
        let mut s = s;
        let mut buf: Vec<T> = Vec::new();
        let mut cur: Vec<T> = Vec::new();
        let mut width: usize = 0;
        let mut nrows: usize = 0;
        let mut idx: usize = 0;
        let ghost mut rows_done: Seq<Seq<T>> = Seq::empty();
        proof {
            assert(orig.take(0) =~= Seq::<T>::empty());
            assert(pfn =~= (|t: T| t.eq_spec(&sep)));
            assert(split_by(orig, sep) == split_when(orig, pfn));
            vstd::std_specs::vec::axiom_spec_len(&s);
        }
        while s.len() > 0
            invariant
                T::obeys_eq_spec(),
                pfn == (|t: T| t.eq_spec(&sep)),
                orig.len() < usize::MAX,
                idx + s@.len() == orig.len(),
                s@ == orig.skip(idx as int),
                nrows <= idx,
                split_when(orig.take(idx as int), pfn).len() == nrows + 1,
                cur@ == split_when(orig.take(idx as int), pfn).last(),
                rows_done == split_when(orig.take(idx as int), pfn).take(nrows as int),
                forall|r: int| 0 <= r < nrows ==> (#[trigger] rows_done[r]).len() == width,
                nrows >= 1 ==> width == rows_done[0].len(),
                buf@.len() == nrows * width,
                nrows == 0 ==> buf@.len() == 0,
                forall|r: int|
                    0 <= r < nrows ==> buf@.subrange(r * width, (r + 1) * width) == (
                    #[trigger] rows_done[r]),
            decreases s@.len(),
        {
            let ghost pre_parts = split_when(orig.take(idx as int), pfn);
            let ghost pre_buf = buf@;
            let ghost pre_rows = rows_done;
            let item = s.remove(0);
            idx = idx + 1;
            proof {
                assert(orig.skip(idx as int - 1).remove(0) =~= orig.skip(idx as int));
                assert(item == orig[idx as int - 1]);
                assert(orig.take(idx as int).drop_last() =~= orig.take(idx as int - 1));
                assert(orig.take(idx as int).last() == orig[idx as int - 1]);
            }
            let ghost parts = split_when(orig.take(idx as int), pfn);
            if item == sep {
                proof {
                    assert(pfn(orig[idx as int - 1]));
                    assert(parts == pre_parts.push(Seq::<T>::empty()));
                }
                if nrows == 0 {
                    width = cur.len();
                } else if cur.len() != width {
                    proof {
                        let full = split_when(orig, pfn);
                        lemma_split_prefix(orig, pfn, idx as int);
                        assert(parts[nrows as int] == pre_parts.last());
                        assert(full[nrows as int] == parts[nrows as int]);
                        assert(full[0] == parts[0]);
                        assert(parts[0] == pre_rows[0]);
                        assert(mismatch_at(full, nrows as int));
                        assert forall|i: int| 0 <= i < nrows implies !mismatch_at(full, i) by {
                            assert(full[i] == parts[i]);
                            assert(parts[i] == pre_rows[i]);
                        }
                        assert(full.len() >= nrows + 2);
                    }
                    return Err(GridError::WidthMismatch { row: nrows + 1 });
                }
                proof {
                    rows_done = rows_done.push(cur@);
                    assert(rows_done =~= parts.take(nrows as int + 1));
                    assert((nrows + 1) * width == nrows * width + width) by (nonlinear_arith);
                }
                buf.append(&mut cur);
                nrows = nrows + 1;
                proof {
                    assert forall|r: int|
                        0 <= r < nrows implies buf@.subrange(r * width, (r + 1) * width) == (
                    #[trigger] rows_done[r]) by {
                        assert((r + 1) * width == r * width + width && 0 <= r * width && (r + 1)
                            * width <= nrows * width) by (nonlinear_arith)
                            requires
                                0 <= r < nrows,
                                width >= 0,
                        ;
                        if r < nrows - 1 {
                            assert((r + 1) * width <= (nrows - 1) * width) by (nonlinear_arith)
                                requires
                                    r + 1 <= nrows - 1,
                                    width >= 0,
                            ;
                            assert(buf@.subrange(r * width, (r + 1) * width) =~= pre_buf.subrange(
                                r * width,
                                (r + 1) * width,
                            ));
                        } else {
                            assert(buf@.subrange(r * width, (r + 1) * width) =~= rows_done[r]);
                        }
                    }
                }
            } else {
                proof {
                    assert(!pfn(orig[idx as int - 1]));
                    assert(parts == pre_parts.update(
                        pre_parts.len() - 1,
                        pre_parts.last().push(orig[idx as int - 1]),
                    ));
                    assert(parts.take(nrows as int) =~= pre_parts.take(nrows as int));
                }
                cur.push(item);
            }
        }
        proof {
            assert(orig.take(idx as int) =~= orig);
        }
        let ghost full = split_when(orig, pfn);
        if nrows == 0 {
            return Err(GridError::Empty);
        }
        if cur.len() != width {
            proof {
                assert(mismatch_at(full, nrows as int));
                assert forall|i: int| 0 <= i < nrows implies !mismatch_at(full, i) by {
                    assert(full[i] == rows_done[i]);
                }
            }
            return Err(GridError::WidthMismatch { row: nrows + 1 });
        }
        proof {
            rows_done = rows_done.push(cur@);
            assert(rows_done =~= full);
            assert((nrows + 1) * width == nrows * width + width) by (nonlinear_arith);
        }
        buf.append(&mut cur);
        let height = nrows + 1;
        proof {
            assert forall|r: int|
                0 <= r < height implies buf@.subrange(r * width, (r + 1) * width) == (
            #[trigger] rows_done[r]) by {
                assert((r + 1) * width == r * width + width && 0 <= r * width && (r + 1) * width
                    <= height * width) by (nonlinear_arith)
                    requires
                        0 <= r < height,
                        width >= 0,
                ;
                if r < height - 1 {
                    assert((r + 1) * width <= (height - 1) * width) by (nonlinear_arith)
                        requires
                            r + 1 <= height - 1,
                            width >= 0,
                    ;
                    assert(buf@.subrange(r * width, (r + 1) * width) =~= rows_done[r]);
                } else {
                    assert(buf@.subrange(r * width, (r + 1) * width) =~= rows_done[r]);
                }
            }
            assert(height * width == width * height) by (nonlinear_arith);
        }
        let g = Grid::from_flat(buf, width, height, Ghost(rows_done));
        proof {
            assert(is_rect(full));
        }
        Ok(g)
    }

    /// Builds a grid from a flat sequence of elements and a separator:
    /// each run between separators becomes one row. The input must hold
    /// at least one separator and all rows must have the length of the
    /// first; invalid input is a fatal error, not a recoverable one.
    pub fn from_separated(s: Vec<T>, sep: T) -> (g: Grid<T>)
        requires
            T::obeys_eq_spec(),
            s@.len() < usize::MAX,
            split_by(s@, sep).len() >= 2,
            is_rect(split_by(s@, sep)),
        ensures
            g@ == split_by(s@, sep),
            g.spec_width() == split_by(s@, sep)[0].len(),
            g.spec_height() == split_by(s@, sep).len(),
            g.wf(),
    {
        let r = Grid::try_from_separated(s, sep);
        match r {
            Ok(g) => g,
            Err(_) => vstd::pervasive::unreached(),
        }
    }
}

impl Grid<u8> {
    /// Checking variant of [`Grid::from_str_bytes`].
    pub fn try_from_str_bytes(s: &str) -> (r: Result<Grid<u8>, GridError>)
        requires
            s.spec_bytes().len() < usize::MAX,
        ensures
            r is Ok <==> split_by(s.spec_bytes(), 10u8).len() >= 2 && is_rect(
                split_by(s.spec_bytes(), 10u8),
            ),
            r == Err::<Grid<u8>, GridError>(GridError::Empty) <==> split_by(s.spec_bytes(), 10u8).len()
                == 1,
            r matches Ok(g) ==> g@ == split_by(s.spec_bytes(), 10u8) && g.spec_width() == split_by(
                s.spec_bytes(),
                10u8,
            )[0].len() && g.spec_height() == split_by(s.spec_bytes(), 10u8).len() && g.wf(),
            r matches Err(GridError::WidthMismatch { row }) ==> 2 <= row <= split_by(
                s.spec_bytes(),
                10u8,
            ).len() && mismatch_at(split_by(s.spec_bytes(), 10u8), row - 1) && (forall|i: int|
                0 <= i < row - 1 ==> !mismatch_at(split_by(s.spec_bytes(), 10u8), i)),
    {
        let bytes = s.as_bytes_vec();
        Grid::try_from_separated(bytes, 10u8)
    }

    /// Builds a grid of bytes from newline-separated text: the general
    /// separator constructor specialized to the newline byte.
    pub fn from_str_bytes(s: &str) -> (g: Grid<u8>)
        requires
            s.spec_bytes().len() < usize::MAX,
            split_by(s.spec_bytes(), 10u8).len() >= 2,
            is_rect(split_by(s.spec_bytes(), 10u8)),
        ensures
            g@ == split_by(s.spec_bytes(), 10u8),
            g.spec_width() == split_by(s.spec_bytes(), 10u8)[0].len(),
            g.spec_height() == split_by(s.spec_bytes(), 10u8).len(),
            g.wf(),
    {
        let bytes = s.as_bytes_vec();
        Grid::from_separated(bytes, 10u8)
    }
}

} // verus!
