//! Construction from character text: the input splits at line endings
//! (`\n`, or `\r\n` with the carriage return stripped; a final line
//! ending is optional), each line becomes one row of characters, and
//! every line must have the character count of the first.

use vstd::prelude::*;
use vstd::string::StrSliceExecFns;

use crate::error::GridError;
use crate::grid::Grid;
use crate::nested::{is_rect, mismatch_at};
use crate::parse::{lemma_split_prefix, split_when};

verus! {

/// Drops a single trailing carriage return, if any.
pub open spec fn strip_cr(line: Seq<char>) -> Seq<char> {
    if line.len() > 0 && line.last() == '\r' {
        line.drop_last()
    } else {
        line
    }
}

/// The lines of a text: split at every newline, drop the part after a
/// final newline if it is empty, and strip the carriage return of every
/// newline-terminated part.
pub open spec fn lines_of(s: Seq<char>) -> Seq<Seq<char>> {
    let parts = split_when(s, |c: char| c == '\n');
    let term = Seq::new((parts.len() - 1) as nat, |r: int| strip_cr(parts[r]));
    if parts.last().len() == 0 {
        term
    } else {
        term.push(parts.last())
    }
}

impl Grid<char> {
    /// Checking variant of [`Grid::from_str_chars`]: reports text without
    /// any line and the first line whose character count disagrees with
    /// the first line's, instead of demanding well-shaped input.
    #[verifier::loop_isolation(false)]
    #[verifier::rlimit(100)]
    pub fn try_from_str_chars(s: &str) -> (r: Result<Grid<char>, GridError>)
        ensures
            r is Ok <==> lines_of(s@).len() >= 1 && is_rect(lines_of(s@)),
            r == Err::<Grid<char>, GridError>(GridError::Empty) <==> lines_of(s@).len() == 0,
            r matches Ok(g) ==> g@ == lines_of(s@) && g.spec_width() == lines_of(s@)[0].len()
                && g.spec_height() == lines_of(s@).len() && g.wf(),
            r matches Err(GridError::WidthMismatch { row }) ==> 2 <= row <= lines_of(s@).len()
                && mismatch_at(lines_of(s@), row - 1) && (forall|i: int|
                0 <= i < row - 1 ==> !mismatch_at(lines_of(s@), i)),
    {
        let ghost nl = |c: char| c == '\n';
        let n = s.unicode_len();
        let mut buf: Vec<char> = Vec::new();
        let mut cur: Vec<char> = Vec::new();
        let mut width: usize = 0;
        let mut nrows: usize = 0;
        let mut i: usize = 0;
        let ghost mut rows_done: Seq<Seq<char>> = Seq::empty();
        proof {
            assert(s@.take(0) =~= Seq::<char>::empty());
            assert(nl =~= (|c: char| c == '\n'));
        }
        while i < n
            invariant
                n == s@.len(),
                0 <= i <= n,
                nrows <= i,
                nrows + cur@.len() <= i,
                split_when(s@.take(i as int), nl).len() == nrows + 1,
                cur@ == split_when(s@.take(i as int), nl).last(),
                rows_done.len() == nrows,
                forall|r: int|
                    0 <= r < nrows ==> (#[trigger] rows_done[r]) == strip_cr(
                        split_when(s@.take(i as int), nl)[r],
                    ),
                forall|r: int| 0 <= r < nrows ==> (#[trigger] rows_done[r]).len() == width,
                nrows >= 1 ==> width == rows_done[0].len(),
                buf@.len() == nrows * width,
                nrows == 0 ==> buf@.len() == 0,
                forall|r: int|
                    0 <= r < nrows ==> buf@.subrange(r * width, (r + 1) * width) == (
                    #[trigger] rows_done[r]),
            decreases n - i,
        {
            let ghost pre_parts = split_when(s@.take(i as int), nl);
            let ghost pre_buf = buf@;
            let ghost width0 = width;
            let c = s.get_char(i);
            i = i + 1;
            proof {
                assert(s@.take(i as int).drop_last() =~= s@.take(i as int - 1));
                assert(s@.take(i as int).last() == s@[i as int - 1]);
            }
            let ghost parts = split_when(s@.take(i as int), nl);
            if c == '\n' {
                proof {
                    assert(nl(s@[i as int - 1]));
                    assert(parts == pre_parts.push(Seq::<char>::empty()));
                    assert(forall|r: int| 0 <= r < pre_parts.len() ==> parts[r] == pre_parts[r]);
                }
                let ghost rawcur = cur@;
                if cur.len() > 0 {
                    if cur[cur.len() - 1] == '\r' {
                        cur.pop();
                        proof {
                            assert(cur@ =~= rawcur.drop_last());
                        }
                    }
                }
                proof {
                    assert(cur@ == strip_cr(rawcur));
                    assert(rawcur == parts[nrows as int]);
                }
                if nrows == 0 {
                    width = cur.len();
                } else if cur.len() != width {
                    proof {
                        let full = split_when(s@, nl);
                        lemma_split_prefix(s@, nl, i as int);
                        assert(full[nrows as int] == parts[nrows as int]);
                        assert(forall|r: int| 0 <= r <= nrows ==> full[r] == parts[r]);
                        assert(full.len() >= nrows + 2);
                        let lns = lines_of(s@);
                        assert(lns.len() >= full.len() - 1 >= nrows + 1);
                        assert(forall|r: int| 0 <= r <= nrows ==> lns[r] == strip_cr(full[r]));
                        assert(lns[nrows as int] == cur@);
                        assert(lns[0] == rows_done[0]);
                        assert(mismatch_at(lns, nrows as int));
                        assert forall|r: int| 0 <= r < nrows implies !mismatch_at(lns, r) by {
                            assert(lns[r] == rows_done[r]);
                        }
                    }
                    return Err(GridError::WidthMismatch { row: nrows + 1 });
                }
                proof {
                    rows_done = rows_done.push(cur@);
                }
                buf.append(&mut cur);
                nrows = nrows + 1;
                proof {
                    assert(pre_buf.len() == (nrows - 1) * width) by (nonlinear_arith)
                        requires
                            pre_buf.len() == (nrows - 1) * width0,
                            nrows - 1 == 0 || width == width0,
                            nrows - 1 == 0 ==> pre_buf.len() == 0,
                    ;
                    assert(buf@.len() == nrows * width) by (nonlinear_arith)
                        requires
                            buf@.len() == (nrows - 1) * width + width,
                    ;
                    assert forall|r: int|
                        0 <= r < nrows implies buf@.subrange(r * width, (r + 1) * width) == (
                    #[trigger] rows_done[r]) by {
                        assert((r + 1) * width == r * width + width && 0 <= r * width && (r + 1)
                            * width <= nrows * width) by (nonlinear_arith)
                            requires
                                0 <= r < nrows,
                                width >= 0,
                        ;
                        if r < nrows - 1 {
                            assert((r + 1) * width <= (nrows - 1) * width) by (nonlinear_arith)
                                requires
                                    r + 1 <= nrows - 1,
                                    width >= 0,
                            ;
                            assert(buf@.subrange(r * width, (r + 1) * width) =~= pre_buf.subrange(
                                r * width,
                                (r + 1) * width,
                            ));
                        } else {
                            assert(pre_buf.len() == r * width) by (nonlinear_arith)
                                requires
                                    pre_buf.len() == (nrows - 1) * width,
                                    r == nrows - 1,
                            ;
                            assert(buf@ == pre_buf + rows_done[r]);
                            assert forall|k: int| 0 <= k < width implies buf@[r * width + k]
                                == rows_done[r][k] by {
                                assert(buf@[r * width + k] == rows_done[r][r * width + k - pre_buf.len()]);
                            }
                            assert(buf@.subrange(r * width, (r + 1) * width) =~= rows_done[r]);
                        }
                    }
                }
            } else {
                proof {
                    assert(!nl(s@[i as int - 1]));
                    assert(parts == pre_parts.update(
                        pre_parts.len() - 1,
                        pre_parts.last().push(s@[i as int - 1]),
                    ));
                    assert(forall|r: int| 0 <= r < nrows ==> parts[r] == pre_parts[r]);
                }
                cur.push(c);
            }
        }
        proof {
            assert(s@.take(i as int) =~= s@);
        }
        let ghost full = split_when(s@, nl);
        let ghost lns = lines_of(s@);
        proof {
            assert(full.len() == nrows + 1);
            assert(forall|r: int| 0 <= r < nrows ==> lns[r] == strip_cr(full[r]));
            assert(forall|r: int| 0 <= r < nrows ==> lns[r] == rows_done[r]);
        }
        let ghost end_width0 = width;
        if cur.len() > 0 {
            proof {
                assert(lns == Seq::new(nrows as nat, |r: int| strip_cr(full[r])).push(cur@));
                assert(lns.len() == nrows + 1);
            }
            if nrows == 0 {
                width = cur.len();
            } else if cur.len() != width {
                proof {
                    assert(lns[nrows as int] == cur@);
                    assert(lns[0] == rows_done[0]);
                    assert(mismatch_at(lns, nrows as int));
                    assert forall|r: int| 0 <= r < nrows implies !mismatch_at(lns, r) by {
                        assert(lns[r] == rows_done[r]);
                    }
                }
                return Err(GridError::WidthMismatch { row: nrows + 1 });
            }
            let ghost end_pre_buf = buf@;
            proof {
                rows_done = rows_done.push(cur@);
            }
            buf.append(&mut cur);
            nrows = nrows + 1;
            proof {
                assert(end_pre_buf.len() == (nrows - 1) * width) by (nonlinear_arith)
                    requires
                        end_pre_buf.len() == (nrows - 1) * end_width0,
                        nrows - 1 == 0 || width == end_width0,
                        nrows - 1 == 0 ==> end_pre_buf.len() == 0,
                ;
                assert(buf@.len() == nrows * width) by (nonlinear_arith)
                    requires
                        buf@.len() == (nrows - 1) * width + width,
                ;
                assert forall|r: int|
                    0 <= r < nrows implies buf@.subrange(r * width, (r + 1) * width) == (
                #[trigger] rows_done[r]) by {
                    assert((r + 1) * width == r * width + width && 0 <= r * width && (r + 1) * width
                        <= nrows * width) by (nonlinear_arith)
                        requires
                            0 <= r < nrows,
                            width >= 0,
                    ;
                    if r < nrows - 1 {
                        assert((r + 1) * width <= (nrows - 1) * width) by (nonlinear_arith)
                            requires
                                r + 1 <= nrows - 1,
                                width >= 0,
                        ;
                        assert(buf@.subrange(r * width, (r + 1) * width) =~= end_pre_buf.subrange(
                            r * width,
                            (r + 1) * width,
                        ));
                    } else {
                        assert(end_pre_buf.len() == r * width) by (nonlinear_arith)
                            requires
                                end_pre_buf.len() == (nrows - 1) * width,
                                r == nrows - 1,
                        ;
                        assert(buf@ == end_pre_buf + rows_done[r]);
                        assert forall|k: int| 0 <= k < width implies buf@[r * width + k]
                            == rows_done[r][k] by {
                            assert(buf@[r * width + k] == rows_done[r][r * width + k
                                - end_pre_buf.len()]);
                        }
                        assert(buf@.subrange(r * width, (r + 1) * width) =~= rows_done[r]);
                    }
                }
            }
        } else {
            proof {
                assert(lns == Seq::new(nrows as nat, |r: int| strip_cr(full[r])));
                assert(lns.len() == nrows);
            }
        }
        if nrows == 0 {
            return Err(GridError::Empty);
        }
        proof {
            assert(rows_done =~= lns);
            assert(buf@.len() == nrows * width);
            assert(nrows * width == width * nrows) by (nonlinear_arith);
            assert(buf@.len() == width * nrows);
            assert forall|r: int| 0 <= r < lns.len() implies (#[trigger] lns[r]).len() == lns[0].len() by {
                assert(lns[r] == rows_done[r]);
                assert(lns[0] == rows_done[0]);
            }
        }
        let g = Grid::from_flat(buf, width, nrows, Ghost(rows_done));
        Ok(g)
    }

    /// Builds a grid of characters from line-delimited text: each line is
    /// one row, all lines must have the same character count, and the
    /// text must hold at least one line. Invalid text is a fatal error,
    /// not a recoverable one.
    pub fn from_str_chars(s: &str) -> (g: Grid<char>)
        requires
            lines_of(s@).len() >= 1,
            is_rect(lines_of(s@)),
        ensures
            g@ == lines_of(s@),
            g.spec_width() == lines_of(s@)[0].len(),
            g.spec_height() == lines_of(s@).len(),
            g.wf(),
    {
        let r = Grid::try_from_str_chars(s);
        match r {
            Ok(g) => g,
            Err(_) => vstd::pervasive::unreached(),
        }
    }
}

} // verus!
