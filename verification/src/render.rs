//! Rendering: a plain form with the elements' representations separated
//! by single spaces, one row per line, and an annotated form that pads
//! cells to the widest representation and colors each cell by optional
//! red and green classifiers, red taking priority, with a neutral gray
//! for unclassified cells. Styling uses ANSI escape sequences.

use vstd::prelude::*;

use crate::grid::Grid;

verus! {

/// A type with a canonical text representation, the one the renderers
/// print for each cell.
pub trait ToText {
    /// The characters of the canonical representation.
    spec fn text_spec(&self) -> Seq<char>;

    /// Appends the representation to `out`.
    fn push_text(&self, out: &mut Vec<char>)
        ensures
            final(out)@ == old(out)@ + self.text_spec(),
    ;
}

impl ToText for char {
    open spec fn text_spec(&self) -> Seq<char> {
        seq![*self]
    }

    fn push_text(&self, out: &mut Vec<char>) {
        out.push(*self);
        proof {
            assert(out@ =~= old(out)@ + self.text_spec());
        }
    }
}

/// The decimal digit character for `d`.
pub open spec fn digit_char(d: nat) -> char
    recommends
        d < 10,
{
    ((48 + d) as u8) as char
}

/// The decimal representation of `n`, most significant digit first.
pub open spec fn dec_of(n: nat) -> Seq<char>
    decreases n,
{
    if n < 10 {
        seq![digit_char(n)]
    } else {
        dec_of(n / 10).push(digit_char(n % 10))
    }
}

/// Appends the decimal representation of `n`.
fn push_dec(n: u8, out: &mut Vec<char>)
    ensures
        final(out)@ == old(out)@ + dec_of(n as nat),
    decreases n,
{
    if n < 10 {
        out.push((48 + n) as char);
        proof {
            assert(out@ =~= old(out)@ + dec_of(n as nat));
        }
    } else {
        push_dec(n / 10, out);
        out.push((48 + n % 10) as char);
        proof {
            assert(out@ =~= old(out)@ + dec_of(n as nat));
        }
    }
}

impl ToText for u8 {
    open spec fn text_spec(&self) -> Seq<char> {
        dec_of(*self as nat)
    }

    fn push_text(&self, out: &mut Vec<char>) {
        push_dec(*self, out);
    }
}

/// Relies on `String`'s `FromIterator<char>` implementation: a string
/// collected from characters holds exactly those characters in order.
#[verifier::external_body]
pub(crate) fn string_from_chars(v: Vec<char>) -> (r: String)
    ensures
        r@ == v@,
{
    v.into_iter().collect()
}

/// One row as plain text: the representations of its elements separated
/// by single spaces.
pub open spec fn plain_row<T: ToText>(row: Seq<T>) -> Seq<char>
    decreases row.len(),
{
    if row.len() == 0 {
        Seq::empty()
    } else if row.len() == 1 {
        row[0].text_spec()
    } else {
        plain_row(row.drop_last()) + seq![' '] + row.last().text_spec()
    }
}

/// The whole grid as plain text: one line per row, each ended by a
/// newline.
pub open spec fn plain_text<T: ToText>(g: Seq<Seq<T>>) -> Seq<char>
    decreases g.len(),
{
    if g.len() == 0 {
        Seq::empty()
    } else {
        plain_text(g.drop_last()) + plain_row(g.last()) + seq!['\n']
    }
}

impl<T: ToText> Grid<T> {
    /// The plain rendering: every row on its own line, elements
    /// separated by single spaces, rows top to bottom.
    #[verifier::loop_isolation(false)]
    pub fn render(&self) -> (r: String)
        ensures
            r@ == plain_text(self@),
    {
        let w = self.width();
        let h = self.height();
        let mut out: Vec<char> = Vec::new();
        let mut y: usize = 0;
        proof {
            assert(self@.take(0) =~= Seq::<Seq<T>>::empty());
        }
        while y < h
            invariant
                0 <= y <= h,
                out@ == plain_text(self@.take(y as int)),
            decreases h - y,
        {
            let mut x: usize = 0;
            while x < w
                invariant
                    0 <= y < h,
                    0 <= x <= w,
                    out@ == plain_text(self@.take(y as int)) + plain_row(
                        self@[y as int].take(x as int),
                    ),
                decreases w - x,
            {
                let ghost row = self@[y as int];
                if x > 0 {
                    out.push(' ');
                }
                self.get(x, y).push_text(&mut out);
                proof {
                    assert(row.take(x as int + 1).drop_last() =~= row.take(x as int));
                    assert(row.take(x as int + 1).last() == row[x as int]);
                    assert(out@ =~= plain_text(self@.take(y as int)) + plain_row(
                        row.take(x as int + 1),
                    ));
                }
                x = x + 1;
            }
            out.push('\n');
            proof {
                assert(self@.take(y as int + 1).drop_last() =~= self@.take(y as int));
                assert(self@.take(y as int + 1).last() == self@[y as int]);
                assert(self@[y as int].take(w as int) =~= self@[y as int]);
                assert(out@ =~= plain_text(self@.take(y as int + 1)));
            }
            y = y + 1;
        }
        proof {
            assert(self@.take(h as int) =~= self@);
        }
        string_from_chars(out)
    }
}

} // verus!
