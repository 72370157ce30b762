//! Relations between the constructors, the accessors and the renderers
//! that hold beyond any one function's contract.

use vstd::prelude::*;
use vstd::std_specs::cmp::PartialEqSpec;
use vstd::utf8::{encode_utf8, is_ascii_chars, is_ascii_chars_encode_utf8};

use crate::parse::{split_by, split_when};
use crate::render::{plain_row, plain_text, ToText};
use crate::text::{lines_of, strip_cr};

verus! {

/// Reading a character grid back row by row reproduces the lines of the
/// text it was built from: the grid view a character constructor
/// guarantees, copied out cell by cell (as `Grid::rows` does, by
/// cloning), is those lines again.
pub proof fn lemma_text_round_trip(s: Seq<char>, g: Seq<Seq<char>>, out: Seq<Seq<char>>)
    requires
        g == lines_of(s),
        out.len() == g.len(),
        forall|y: int| 0 <= y < g.len() ==> (#[trigger] out[y]).len() == g[y].len(),
        forall|y: int, x: int|
            0 <= y < g.len() && 0 <= x < g[y].len() ==> cloned(g[y][x], #[trigger] out[y][x]),
    ensures
        out == lines_of(s),
{
    assert forall|y: int| 0 <= y < g.len() implies #[trigger] out[y] == g[y] by {
        assert forall|x: int| 0 <= x < g[y].len() implies #[trigger] out[y][x] == g[y][x] by {
            assert(cloned(g[y][x], out[y][x]));
        }
        assert(out[y] =~= g[y]);
    }
    assert(out =~= g);
}

/// The characters of `s` as bytes, one byte per character.
pub open spec fn ascii_bytes(s: Seq<char>) -> Seq<u8> {
    Seq::new(s.len(), |i: int| s[i] as u8)
}

/// Splitting the one-byte-per-character encoding of an ASCII text at
/// the newline byte mirrors, part by part, splitting the text at the
/// newline character.
proof fn lemma_split_ascii(s: Seq<char>)
    requires
        forall|i: int| 0 <= i < s.len() ==> '\0' <= #[trigger] s[i] <= '\u{7f}',
    ensures
        split_by(ascii_bytes(s), 10u8).len() == split_when(s, |c: char| c == '\n').len(),
        forall|r: int|
            0 <= r < split_by(ascii_bytes(s), 10u8).len() ==> #[trigger] split_by(
                ascii_bytes(s),
                10u8,
            )[r] == ascii_bytes(split_when(s, |c: char| c == '\n')[r]),
    decreases s.len(),
{
    let nl = |c: char| c == '\n';
    let sep = |t: u8| t.eq_spec(&10u8);
    let bs = ascii_bytes(s);
    if s.len() == 0 {
        assert(bs =~= Seq::<u8>::empty());
        assert(split_by(bs, 10u8)[0] =~= ascii_bytes(split_when(s, nl)[0]));
    } else {
        lemma_split_ascii(s.drop_last());
        let sp = s.drop_last();
        let c = s.last();
        assert(bs.drop_last() =~= ascii_bytes(sp));
        assert(bs.last() == c as u8);
        let pb = split_by(ascii_bytes(sp), 10u8);
        let pc = split_when(sp, nl);
        assert(pb.len() >= 1 && pc.len() >= 1) by {
            crate::parse::lemma_split_nonempty(ascii_bytes(sp), sep);
            crate::parse::lemma_split_nonempty(sp, nl);
        }
        assert((c as u8 == 10) <==> c == '\n') by {
            if c as u8 == 10 {
                assert((c as u32) < 128);
                assert((c as u32) == 10);
            }
        }
        if c == '\n' {
            assert(split_by(bs, 10u8) == pb.push(Seq::<u8>::empty()));
            assert(split_when(s, nl) == pc.push(Seq::<char>::empty()));
            assert(split_by(bs, 10u8).last() =~= ascii_bytes(split_when(s, nl).last()));
        } else {
            assert(split_by(bs, 10u8) == pb.update(pb.len() - 1, pb.last().push(c as u8)));
            assert(split_when(s, nl) == pc.update(pc.len() - 1, pc.last().push(c)));
            assert(pb.last().push(c as u8) =~= ascii_bytes(pc.last().push(c)));
        }
    }
}

/// For ASCII text without carriage returns and without a trailing
/// newline, the byte constructor and the character constructor agree
/// cell for cell: the byte grid holds, at every coordinate, exactly the
/// byte value of the character the character grid holds.
pub proof fn lemma_bytes_match_chars(s: Seq<char>)
    requires
        s.len() >= 1,
        s.last() != '\n',
        forall|i: int| 0 <= i < s.len() ==> #[trigger] s[i] != '\r',
        is_ascii_chars(s),
    ensures
        split_by(encode_utf8(s), 10u8).len() == lines_of(s).len(),
        forall|y: int|
            0 <= y < lines_of(s).len() ==> #[trigger] split_by(encode_utf8(s), 10u8)[y].len()
                == lines_of(s)[y].len(),
        forall|y: int, x: int|
            0 <= y < lines_of(s).len() && 0 <= x < lines_of(s)[y].len() ==> #[trigger] split_by(
                encode_utf8(s),
                10u8,
            )[y][x] == lines_of(s)[y][x] as u8,
{
    let nl = |c: char| c == '\n';
    is_ascii_chars_encode_utf8(s);
    assert(encode_utf8(s) =~= ascii_bytes(s));
    lemma_split_ascii(s);
    let parts = split_when(s, nl);
    let bparts = split_by(ascii_bytes(s), 10u8);
    crate::parse::lemma_split_nonempty(s, nl);
    // Every part holds characters of `s`, so none holds '\r'; and with no
    // trailing newline the final part is nonempty.
    lemma_split_contents(s, nl);
    assert(parts.last().len() >= 1) by {
        crate::parse::lemma_split_nonempty(s.drop_last(), nl);
        let prev = split_when(s.drop_last(), nl);
        assert(!nl(s.last()));
        assert(split_when(s, nl) == prev.update(prev.len() - 1, prev.last().push(s.last())));
        assert(split_when(s, nl).last() == prev.last().push(s.last()));
    }
    let term = Seq::new((parts.len() - 1) as nat, |r: int| strip_cr(parts[r]));
    assert(lines_of(s) == term.push(parts.last()));
    assert forall|r: int| 0 <= r < parts.len() implies #[trigger] strip_cr(parts[r]) == parts[r] by {
        if parts[r].len() > 0 && parts[r].last() == '\r' {
            assert(false);
        }
    }
    assert(lines_of(s) =~= parts);
    assert forall|y: int| 0 <= y < lines_of(s).len() implies #[trigger] split_by(
        encode_utf8(s),
        10u8,
    )[y].len() == lines_of(s)[y].len() by {
        assert(bparts[y] == ascii_bytes(parts[y]));
    }
    assert forall|y: int, x: int|
        0 <= y < lines_of(s).len() && 0 <= x < lines_of(s)[y].len() implies #[trigger] split_by(
        encode_utf8(s),
        10u8,
    )[y][x] == lines_of(s)[y][x] as u8 by {
        assert(bparts[y] == ascii_bytes(parts[y]));
    }
}

/// Every character in any part of a split occurs in the input.
proof fn lemma_split_contents(s: Seq<char>, p: spec_fn(char) -> bool)
    ensures
        forall|r: int, k: int|
            0 <= r < split_when(s, p).len() && 0 <= k < split_when(s, p)[r].len()
                ==> s.contains(#[trigger] split_when(s, p)[r][k]),
    decreases s.len(),
{
    if s.len() == 0 {
    } else {
        lemma_split_contents(s.drop_last(), p);
        crate::parse::lemma_split_nonempty(s.drop_last(), p);
        let prev = split_when(s.drop_last(), p);
        assert forall|c: char| s.drop_last().contains(c) implies s.contains(c) by {
            let i = choose|i: int| 0 <= i < s.drop_last().len() && s.drop_last()[i] == c;
            assert(s[i] == c);
        }
        assert(s.contains(s.last())) by {
            assert(s[s.len() - 1] == s.last());
        }
        assert forall|r: int, k: int|
            0 <= r < split_when(s, p).len() && 0 <= k < split_when(s, p)[r].len() implies s.contains(
            #[trigger] split_when(s, p)[r][k],
        ) by {
            if p(s.last()) {
                assert(split_when(s, p) == prev.push(Seq::<char>::empty()));
                if r < prev.len() {
                    assert(split_when(s, p)[r] == prev[r]);
                    assert(s.drop_last().contains(prev[r][k]));
                }
            } else {
                assert(split_when(s, p) == prev.update(
                    prev.len() - 1,
                    prev.last().push(s.last()),
                ));
                if r < prev.len() - 1 {
                    assert(split_when(s, p)[r] == prev[r]);
                    assert(s.drop_last().contains(prev[r][k]));
                } else {
                    assert(split_when(s, p)[r] == prev.last().push(s.last()));
                    if k < prev.last().len() {
                        assert(split_when(s, p)[r][k] == prev[prev.len() - 1][k]);
                        assert(s.drop_last().contains(prev[prev.len() - 1][k]));
                    } else {
                        assert(split_when(s, p)[r][k] == s.last());
                    }
                }
            }
        }
    }
}

/// Rendering a one-column character grid and parsing the text back with
/// the character constructor reproduces the grid exactly. (Wider grids
/// do not round-trip: the plain rendering separates the cells of a row
/// with spaces, which the parser reads as cells of their own.)
pub proof fn lemma_render_reparse_single_column(g: Seq<Seq<char>>)
    requires
        g.len() >= 1,
        forall|y: int| 0 <= y < g.len() ==> (#[trigger] g[y]).len() == 1,
        forall|y: int| 0 <= y < g.len() ==> (#[trigger] g[y])[0] != '\n' && g[y][0] != '\r',
    ensures
        lines_of(plain_text(g)) == g,
{
    let nl = |c: char| c == '\n';
    lemma_plain_parts(g);
    let parts = split_when(plain_text(g), nl);
    assert(parts == g.push(Seq::<char>::empty()));
    assert(parts.last().len() == 0);
    let term = Seq::new((parts.len() - 1) as nat, |r: int| strip_cr(parts[r]));
    assert(lines_of(plain_text(g)) == term);
    assert forall|y: int| 0 <= y < g.len() implies #[trigger] term[y] == g[y] by {
        assert(parts[y] == g[y]);
        assert(g[y].len() == 1 && g[y].last() == g[y][0]);
        assert(strip_cr(g[y]) == g[y]);
    }
    assert(term =~= g);
}

/// The plain text of a one-column grid splits at newlines into the
/// grid's rows followed by one empty part (from the trailing newline).
proof fn lemma_plain_parts(g: Seq<Seq<char>>)
    requires
        forall|y: int| 0 <= y < g.len() ==> (#[trigger] g[y]).len() == 1,
        forall|y: int| 0 <= y < g.len() ==> (#[trigger] g[y])[0] != '\n' && g[y][0] != '\r',
    ensures
        split_when(plain_text(g), |c: char| c == '\n') == g.push(Seq::<char>::empty()),
    decreases g.len(),
{
    let nl = |c: char| c == '\n';
    if g.len() == 0 {
        assert(plain_text(g) =~= Seq::<char>::empty());
        assert(split_when(plain_text(g), nl) =~= g.push(Seq::<char>::empty()));
    } else {
        lemma_plain_parts(g.drop_last());
        let bl = g.drop_last();
        let row = g.last();
        let c = row[0];
        assert(plain_row(row) == row) by {
            assert(row[0].text_spec() =~= row);
        }
        let s1 = plain_text(bl);
        let s2 = s1 + row;
        let s3 = s2 + seq!['\n'];
        assert(plain_text(g) == s3) by {
            assert(plain_text(bl) + plain_row(row) + seq!['\n'] =~= s3);
            assert(plain_text(g) == plain_text(bl) + plain_row(row) + seq!['\n']);
        }
        let p1 = split_when(s1, nl);
        assert(p1 == bl.push(Seq::<char>::empty()));
        assert(s2.len() > 0 && s2.drop_last() =~= s1 && s2.last() == c);
        assert(!nl(c));
        let p2 = split_when(s2, nl);
        assert(p2 == p1.update(p1.len() - 1, p1.last().push(c)));
        assert(p1.last().push(c) =~= row);
        assert(s3.len() > 0 && s3.drop_last() =~= s2 && s3.last() == '\n');
        let p3 = split_when(s3, nl);
        assert(p3 == p2.push(Seq::<char>::empty()));
        assert(p3 =~= g.push(Seq::<char>::empty()));
    }
}

} // verus!
