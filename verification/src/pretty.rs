//! The annotated renderer: a borrowing view over a grid that pads every
//! cell to the width of the widest representation (plus one separating
//! space, and only when that width exceeds one character) and colors
//! each cell bold red or bold green by optional per-coordinate
//! classifiers, red taking priority, with a neutral gray otherwise.

use vstd::arithmetic::div_mod::lemma_fundamental_div_mod_converse;
use vstd::prelude::*;

use crate::grid::Grid;
use crate::render::{string_from_chars, ToText};

verus! {

/// `n` spaces (none for a non-positive count).
pub open spec fn spaces(n: int) -> Seq<char> {
    Seq::new(if n >= 0 { n as nat } else { 0 }, |i: int| ' ')
}

/// Bold, then red foreground.
pub open spec fn red_prefix() -> Seq<char> {
    seq!['\u{1b}', '[', '1', 'm', '\u{1b}', '[', '3', '1', 'm']
}

/// Bold, then green foreground.
pub open spec fn green_prefix() -> Seq<char> {
    seq!['\u{1b}', '[', '1', 'm', '\u{1b}', '[', '3', '2', 'm']
}

/// The neutral gray tone, as an explicit RGB foreground.
pub open spec fn gray_prefix() -> Seq<char> {
    seq!['\u{1b}', '[', '3', '8', ';', '2', ';', '1', '9', '2', ';', '1', '9', '2', ';', '1', '9', '2', 'm']
}

/// Back to unstyled text.
pub open spec fn reset_chars() -> Seq<char> {
    seq!['\u{1b}', '[', '0', 'm']
}

/// `s` wrapped in a style: the prefix, the text, the reset.
pub open spec fn style_wrap(prefix: Seq<char>, s: Seq<char>) -> Seq<char> {
    prefix + s + reset_chars()
}

/// The larger of two lengths.
pub open spec fn nat_max(a: nat, b: nat) -> nat {
    if a > b {
        a
    } else {
        b
    }
}

/// The widest representation in one row.
pub open spec fn row_text_max<T: ToText>(row: Seq<T>) -> nat
    decreases row.len(),
{
    if row.len() == 0 {
        0
    } else {
        nat_max(row_text_max(row.drop_last()), row.last().text_spec().len())
    }
}

/// The widest representation in the whole grid.
pub open spec fn grid_text_max<T: ToText>(g: Seq<Seq<T>>) -> nat
    decreases g.len(),
{
    if g.len() == 0 {
        0
    } else {
        nat_max(grid_text_max(g.drop_last()), row_text_max(g.last()))
    }
}

/// No representation is wider than the row's widest.
pub proof fn lemma_row_text_max_ge<T: ToText>(row: Seq<T>, x: int)
    requires
        0 <= x < row.len(),
    ensures
        row[x].text_spec().len() <= row_text_max(row),
    decreases row.len(),
{
    if x < row.len() - 1 {
        lemma_row_text_max_ge(row.drop_last(), x);
    }
}

/// No representation is wider than the grid's widest.
pub proof fn lemma_grid_text_max_ge<T: ToText>(g: Seq<Seq<T>>, y: int, x: int)
    requires
        0 <= y < g.len(),
        0 <= x < g[y].len(),
    ensures
        g[y][x].text_spec().len() <= grid_text_max(g),
    decreases g.len(),
{
    if y < g.len() - 1 {
        lemma_grid_text_max_ge(g.drop_last(), y, x);
    } else {
        lemma_row_text_max_ge(g[y], x);
    }
}

/// One annotated cell: the alignment padding, then exactly one style —
/// red if the red classifier fired, else green if the green one fired,
/// else the neutral gray.
pub open spec fn pretty_cell<T: ToText>(t: T, red: bool, green: bool, maxlen: nat) -> Seq<char> {
    let text = t.text_spec();
    let padding = if maxlen > 1 {
        spaces(maxlen - text.len() + 1)
    } else {
        Seq::empty()
    };
    padding + if red {
        style_wrap(red_prefix(), text)
    } else if green {
        style_wrap(green_prefix(), text)
    } else {
        style_wrap(gray_prefix(), text)
    }
}

/// The first `x` cells of one annotated row, concatenated.
pub open spec fn pretty_row_upto<T: ToText>(
    row: Seq<T>,
    red: Seq<bool>,
    green: Seq<bool>,
    maxlen: nat,
    x: int,
) -> Seq<char>
    decreases x,
{
    if x <= 0 {
        Seq::empty()
    } else {
        pretty_row_upto(row, red, green, maxlen, x - 1) + pretty_cell(
            row[x - 1],
            red[x - 1],
            green[x - 1],
            maxlen,
        )
    }
}

/// The first `y` annotated rows, each ended by a newline. The masks are
/// flat, row-major, of width `w`.
pub open spec fn pretty_upto<T: ToText>(
    g: Seq<Seq<T>>,
    red: Seq<bool>,
    green: Seq<bool>,
    w: int,
    maxlen: nat,
    y: int,
) -> Seq<char>
    decreases y,
{
    if y <= 0 {
        Seq::empty()
    } else {
        pretty_upto(g, red, green, w, maxlen, y - 1) + pretty_row_upto(
            g[y - 1],
            red.subrange((y - 1) * w, y * w),
            green.subrange((y - 1) * w, y * w),
            maxlen,
            w,
        ) + seq!['\n']
    }
}

/// The whole annotated rendering, with flat row-major classifier masks.
pub open spec fn pretty_text<T: ToText>(
    g: Seq<Seq<T>>,
    red: Seq<bool>,
    green: Seq<bool>,
    w: int,
) -> Seq<char> {
    pretty_upto(g, red, green, w, grid_text_max(g), g.len() as int)
}

/// An absent classifier never fires: its mask is all false.
pub open spec fn mask_or(m: Option<Seq<bool>>, n: int) -> Seq<bool> {
    match m {
        Option::Some(s) => s,
        Option::None => Seq::new(if n >= 0 { n as nat } else { 0 }, |i: int| false),
    }
}

/// Reads one bit of an optional mask; absent means false.
fn mask_bit(m: &Option<Vec<bool>>, i: usize, Ghost(n): Ghost<int>) -> (b: bool)
    requires
        (m matches Some(v) ==> i < v@.len()),
        (m matches Some(v) ==> v@.len() == n),
        0 <= i < n,
    ensures
        b == mask_or(
            match m {
                Option::Some(v) => Option::Some(v@),
                Option::None => Option::None,
            },
            n,
        )[i as int],
{
    match m {
        Some(v) => v[i],
        None => false,
    }
}

/// A transient, borrowing view over a grid that renders it with color
/// annotations. Configured in builder style: it starts with no
/// classifiers, and `with_red` / `with_green` each record one.
pub struct PrettyGrid<'a, T> {
    grid: &'a Grid<T>,
    red: Option<Vec<bool>>,
    green: Option<Vec<bool>>,
}

impl<'a, T> PrettyGrid<'a, T> {
    #[verifier::type_invariant]
    spec fn inv(self) -> bool {
        &&& (self.red matches Some(v) ==> v@.len() == self.grid.spec_width()
            * self.grid.spec_height())
        &&& (self.green matches Some(v) ==> v@.len() == self.grid.spec_width()
            * self.grid.spec_height())
    }

    /// The grid under view.
    pub closed spec fn spec_grid(&self) -> Grid<T> {
        *self.grid
    }

    /// The recorded red mask, row-major, if a red classifier was set.
    pub closed spec fn spec_red(&self) -> Option<Seq<bool>> {
        match self.red {
            Option::Some(v) => Option::Some(v@),
            Option::None => Option::None,
        }
    }

    /// The recorded green mask, row-major, if a green classifier was set.
    pub closed spec fn spec_green(&self) -> Option<Seq<bool>> {
        match self.green {
            Option::Some(v) => Option::Some(v@),
            Option::None => Option::None,
        }
    }

    /// A renderer over `grid` with no classifiers: nothing is red and
    /// nothing is green.
    pub fn new(grid: &'a Grid<T>) -> (r: PrettyGrid<'a, T>)
        ensures
            r.spec_grid() == *grid,
            r.spec_red() is None,
            r.spec_green() is None,
    {
        PrettyGrid { grid, red: None, green: None }
    }

    /// Evaluates `f` on every coordinate, row-major, into a flat mask.
    #[verifier::loop_isolation(false)]
    fn eval_mask<F: Fn((usize, usize)) -> bool>(grid: &Grid<T>, f: F) -> (m: Vec<bool>)
        requires
            forall|x: usize, y: usize|
                x < grid.spec_width() && y < grid.spec_height() ==> call_requires(
                    f,
                    ((x, y),),
                ),
        ensures
            m@.len() == grid.spec_width() * grid.spec_height(),
            forall|x: int, y: int|
                0 <= x < grid.spec_width() && 0 <= y < grid.spec_height() ==> call_ensures(
                    f,
                    ((x as usize, y as usize),),
                    m@[#[trigger] (y * grid.spec_width() + x)],
                ),
    {
        let w = grid.width();
        let h = grid.height();
        let area = grid.area();
        let ghost wi = w as int;
        let mut m: Vec<bool> = Vec::new();
        let mut y: usize = 0;
        while y < h
            invariant
                0 <= y <= h,
                m@.len() == y * w,
                w > 0 ==> forall|k: int|
                    0 <= k < m@.len() ==> call_ensures(
                        f,
                        (((k % wi) as usize, (k / wi) as usize),),
                        #[trigger] m@[k],
                    ),
            decreases h - y,
        {
            let mut x: usize = 0;
            while x < w
                invariant
                    0 <= y < h,
                    0 <= x <= w,
                    m@.len() == y * w + x,
                    w > 0 ==> forall|k: int|
                        0 <= k < m@.len() ==> call_ensures(
                            f,
                            (((k % wi) as usize, (k / wi) as usize),),
                            #[trigger] m@[k],
                        ),
                decreases w - x,
            {
                proof {
                    assert(y * w + x < h * w && h * w == w * h) by (nonlinear_arith)
                        requires
                            0 <= x < w,
                            0 <= y < h,
                    ;
                    lemma_fundamental_div_mod_converse((y * w + x) as int, wi, y as int, x as int);
                }
                let b = f((x, y));
                m.push(b);
                x = x + 1;
            }
            proof {
                assert(y * w + w == (y + 1) * w) by (nonlinear_arith);
            }
            y = y + 1;
        }
        proof {
            assert(h * w == w * h) by (nonlinear_arith);
            if w > 0 {
                assert forall|x: int, y: int|
                    0 <= x < wi && 0 <= y < h implies call_ensures(
                    f,
                    ((x as usize, y as usize),),
                    m@[#[trigger] (y * wi + x)],
                ) by {
                    assert(0 <= y * wi + x < m@.len()) by (nonlinear_arith)
                        requires
                            0 <= y < h,
                            0 <= x < wi,
                            m@.len() == wi * (h as int),
                    ;
                    lemma_fundamental_div_mod_converse(y * wi + x, wi, y, x);
                }
            }
        }
        m
    }

    /// Records a red classifier: cell `(x, y)` is rendered bold red when
    /// `f((x, y))` returned true. Replaces any earlier red classifier
    /// and returns the renderer for chaining.
    pub fn with_red<F: Fn((usize, usize)) -> bool>(self, f: F) -> (r: PrettyGrid<'a, T>)
        requires
            forall|x: usize, y: usize|
                x < self.spec_grid().spec_width() && y < self.spec_grid().spec_height()
                    ==> call_requires(f, ((x, y),)),
        ensures
            r.spec_grid() == self.spec_grid(),
            r.spec_green() == self.spec_green(),
            r.spec_red() matches Some(m) && m.len() == self.spec_grid().spec_width()
                * self.spec_grid().spec_height() && (forall|x: int, y: int|
                0 <= x < self.spec_grid().spec_width() && 0 <= y
                    < self.spec_grid().spec_height() ==> call_ensures(
                    f,
                    ((x as usize, y as usize),),
                    m[#[trigger] (y * self.spec_grid().spec_width() + x)],
                )),
    {
        proof {
            use_type_invariant(&self);
        }
        let m = Self::eval_mask(self.grid, f);
        PrettyGrid { grid: self.grid, red: Some(m), green: self.green }
    }

    /// Records a green classifier: cell `(x, y)` is rendered bold green
    /// when `f((x, y))` returned true and the red classifier did not
    /// claim the cell. Replaces any earlier green classifier and returns
    /// the renderer for chaining.
    pub fn with_green<F: Fn((usize, usize)) -> bool>(self, f: F) -> (r: PrettyGrid<'a, T>)
        requires
            forall|x: usize, y: usize|
                x < self.spec_grid().spec_width() && y < self.spec_grid().spec_height()
                    ==> call_requires(f, ((x, y),)),
        ensures
            r.spec_grid() == self.spec_grid(),
            r.spec_red() == self.spec_red(),
            r.spec_green() matches Some(m) && m.len() == self.spec_grid().spec_width()
                * self.spec_grid().spec_height() && (forall|x: int, y: int|
                0 <= x < self.spec_grid().spec_width() && 0 <= y
                    < self.spec_grid().spec_height() ==> call_ensures(
                    f,
                    ((x as usize, y as usize),),
                    m[#[trigger] (y * self.spec_grid().spec_width() + x)],
                )),
    {
        proof {
            use_type_invariant(&self);
        }
        let m = Self::eval_mask(self.grid, f);
        PrettyGrid { grid: self.grid, red: self.red, green: Some(m) }
    }
}

impl<T> Grid<T> {
    /// A renderer over this grid with no classifiers yet.
    pub fn pretty<'a>(&'a self) -> (r: PrettyGrid<'a, T>)
        ensures
            r.spec_grid() == *self,
            r.spec_red() is None,
            r.spec_green() is None,
    {
        PrettyGrid::new(self)
    }
}


/// Appends the bold-red style prefix.
fn push_red_prefix(out: &mut Vec<char>)
    ensures
        final(out)@ == old(out)@ + red_prefix(),
{
    out.push('\u{1b}');
    out.push('[');
    out.push('1');
    out.push('m');
    out.push('\u{1b}');
    out.push('[');
    out.push('3');
    out.push('1');
    out.push('m');
    proof {
        assert(out@ =~= old(out)@ + red_prefix());
    }
}

/// Appends the bold-green style prefix.
fn push_green_prefix(out: &mut Vec<char>)
    ensures
        final(out)@ == old(out)@ + green_prefix(),
{
    out.push('\u{1b}');
    out.push('[');
    out.push('1');
    out.push('m');
    out.push('\u{1b}');
    out.push('[');
    out.push('3');
    out.push('2');
    out.push('m');
    proof {
        assert(out@ =~= old(out)@ + green_prefix());
    }
}

/// Appends the neutral gray style prefix.
fn push_gray_prefix(out: &mut Vec<char>)
    ensures
        final(out)@ == old(out)@ + gray_prefix(),
{
    out.push('\u{1b}');
    out.push('[');
    out.push('3');
    out.push('8');
    out.push(';');
    out.push('2');
    out.push(';');
    out.push('1');
    out.push('9');
    out.push('2');
    out.push(';');
    out.push('1');
    out.push('9');
    out.push('2');
    out.push(';');
    out.push('1');
    out.push('9');
    out.push('2');
    out.push('m');
    proof {
        assert(out@ =~= old(out)@ + gray_prefix());
    }
}

/// Appends the style reset.
fn push_reset(out: &mut Vec<char>)
    ensures
        final(out)@ == old(out)@ + reset_chars(),
{
    out.push('\u{1b}');
    out.push('[');
    out.push('0');
    out.push('m');
    proof {
        assert(out@ =~= old(out)@ + reset_chars());
    }
}

impl<'a, T: ToText> PrettyGrid<'a, T> {
    /// The annotated rendering: every cell padded to the grid's widest
    /// representation (when that exceeds one character), then styled —
    /// bold red where the red classifier fired, else bold green where
    /// the green one fired, else neutral gray — one row per line.
    #[verifier::loop_isolation(false)]
    #[verifier::rlimit(100)]
    pub fn render(&self) -> (r: String)
        requires
            grid_text_max(self.spec_grid()@) < usize::MAX,
        ensures
            r@ == pretty_text(
                self.spec_grid()@,
                mask_or(
                    self.spec_red(),
                    self.spec_grid().spec_width() * self.spec_grid().spec_height(),
                ),
                mask_or(
                    self.spec_green(),
                    self.spec_grid().spec_width() * self.spec_grid().spec_height(),
                ),
                self.spec_grid().spec_width(),
            ),
    {
        proof {
            use_type_invariant(self);
        }
        let g = self.grid;
        let w = g.width();
        let h = g.height();
        let area = g.area();
        let ghost gv = g@;
        let ghost wi = w as int;
        let ghost redm = mask_or(self.spec_red(), area as int);
        let ghost greenm = mask_or(self.spec_green(), area as int);
        // First pass: the widest representation in the grid.
        let mut maxlen: usize = 0;
        let mut y: usize = 0;
        proof {
            assert(gv.take(0) =~= Seq::<Seq<T>>::empty());
        }
        while y < h
            invariant
                0 <= y <= h,
                maxlen == grid_text_max(gv.take(y as int)),
            decreases h - y,
        {
            let mut x: usize = 0;
            while x < w
                invariant
                    0 <= y < h,
                    0 <= x <= w,
                    maxlen == nat_max(
                        grid_text_max(gv.take(y as int)),
                        row_text_max(gv[y as int].take(x as int)),
                    ),
                decreases w - x,
            {
                let mut tmp: Vec<char> = Vec::new();
                g.get(x, y).push_text(&mut tmp);
                if tmp.len() > maxlen {
                    maxlen = tmp.len();
                }
                proof {
                    let row = gv[y as int];
                    assert(row.take(x as int + 1).drop_last() =~= row.take(x as int));
                    assert(row.take(x as int + 1).last() == row[x as int]);
                }
                x = x + 1;
            }
            proof {
                assert(gv.take(y as int + 1).drop_last() =~= gv.take(y as int));
                assert(gv.take(y as int + 1).last() == gv[y as int]);
                assert(gv[y as int].take(w as int) =~= gv[y as int]);
            }
            y = y + 1;
        }
        proof {
            assert(gv.take(h as int) =~= gv);
        }
        // Second pass: emit every cell.
        let mut out: Vec<char> = Vec::new();
        let mut y: usize = 0;
        while y < h
            invariant
                0 <= y <= h,
                out@ == pretty_upto(gv, redm, greenm, wi, maxlen as nat, y as int),
            decreases h - y,
        {
            let ghost redrow = redm.subrange(y as int * wi, (y as int + 1) * wi);
            let ghost greenrow = greenm.subrange(y as int * wi, (y as int + 1) * wi);
            let mut x: usize = 0;
            while x < w
                invariant
                    0 <= y < h,
                    0 <= x <= w,
                    redrow == redm.subrange(y as int * wi, (y as int + 1) * wi),
                    greenrow == greenm.subrange(y as int * wi, (y as int + 1) * wi),
                    out@ == pretty_upto(gv, redm, greenm, wi, maxlen as nat, y as int)
                        + pretty_row_upto(gv[y as int], redrow, greenrow, maxlen as nat, x as int),
                decreases w - x,
            {
                proof {
                    assert(y * w + x < h * w && h * w == w * h && 0 <= y * w && (y + 1) * w == y * w
                        + w && (y + 1) * w <= h * w) by (nonlinear_arith)
                        requires
                            0 <= x < w,
                            0 <= y < h,
                    ;
                }
                let idx = y * w + x;
                let is_red = mask_bit(&self.red, idx, Ghost(area as int));
                let is_green = mask_bit(&self.green, idx, Ghost(area as int));
                proof {
                    assert(redrow[x as int] == redm[y as int * wi + x]);
                    assert(greenrow[x as int] == greenm[y as int * wi + x]);
                }
                let ghost rowbase = out@;
                let mut tmp: Vec<char> = Vec::new();
                g.get(x, y).push_text(&mut tmp);
                let len = tmp.len();
                proof {
                    lemma_grid_text_max_ge(gv, y as int, x as int);
                }
                if maxlen > 1 {
                    let mut p = maxlen - len + 1;
                    let ghost pad = p;
                    while p > 0
                        invariant
                            0 <= p <= pad,
                            out@ == rowbase + spaces(pad - p),
                        decreases p,
                    {
                        out.push(' ');
                        proof {
                            assert(out@ =~= rowbase + spaces(pad - p + 1));
                        }
                        p = p - 1;
                    }
                    proof {
                        assert(spaces(pad as int) == spaces(
                            maxlen as int - gv[y as int][x as int].text_spec().len() + 1,
                        ));
                    }
                }
                if is_red {
                    push_red_prefix(&mut out);
                } else if is_green {
                    push_green_prefix(&mut out);
                } else {
                    push_gray_prefix(&mut out);
                }
                out.append(&mut tmp);
                push_reset(&mut out);
                proof {
                    assert(out@ =~= rowbase + pretty_cell(
                        gv[y as int][x as int],
                        redrow[x as int],
                        greenrow[x as int],
                        maxlen as nat,
                    ));
                }
                x = x + 1;
            }
            out.push('\n');
            proof {
                assert(out@ =~= pretty_upto(gv, redm, greenm, wi, maxlen as nat, y as int + 1));
            }
            y = y + 1;
        }
        proof {
            assert(maxlen as nat == grid_text_max(gv));
        }
        string_from_chars(out)
    }
}


/// The first cell's rendering is a prefix of the row's rendering.
proof fn lemma_row_first_cell<T: ToText>(
    row: Seq<T>,
    red: Seq<bool>,
    green: Seq<bool>,
    maxlen: nat,
    x: int,
)
    requires
        x >= 1,
    ensures
        ({
            let cell0 = pretty_cell(row[0], red[0], green[0], maxlen);
            &&& pretty_row_upto(row, red, green, maxlen, x).len() >= cell0.len()
            &&& pretty_row_upto(row, red, green, maxlen, x).take(cell0.len() as int) == cell0
        }),
    decreases x,
{
    let cell0 = pretty_cell(row[0], red[0], green[0], maxlen);
    if x == 1 {
        assert(pretty_row_upto(row, red, green, maxlen, 0) == Seq::<char>::empty());
        assert(pretty_row_upto(row, red, green, maxlen, 1) =~= cell0);
        assert(cell0.take(cell0.len() as int) =~= cell0);
    } else {
        lemma_row_first_cell(row, red, green, maxlen, x - 1);
        let a = pretty_row_upto(row, red, green, maxlen, x - 1);
        assert(a.len() >= cell0.len());
        assert(pretty_row_upto(row, red, green, maxlen, x).take(cell0.len() as int) =~= a.take(
            cell0.len() as int,
        ));
    }
}

/// The first cell's rendering is a prefix of the whole rendering.
proof fn lemma_grid_first_cell<T: ToText>(
    g: Seq<Seq<T>>,
    red: Seq<bool>,
    green: Seq<bool>,
    w: int,
    maxlen: nat,
    y: int,
)
    requires
        y >= 1,
        w >= 1,
        red.len() >= w,
        green.len() >= w,
    ensures
        ({
            let cell0 = pretty_cell(g[0][0], red[0], green[0], maxlen);
            &&& pretty_upto(g, red, green, w, maxlen, y).len() >= cell0.len()
            &&& pretty_upto(g, red, green, w, maxlen, y).take(cell0.len() as int) == cell0
        }),
    decreases y,
{
    let cell0 = pretty_cell(g[0][0], red[0], green[0], maxlen);
    let redrow = red.subrange(0, w);
    let greenrow = green.subrange(0, w);
    assert(redrow[0] == red[0] && greenrow[0] == green[0]);
    if y == 1 {
        lemma_row_first_cell(g[0], redrow, greenrow, maxlen, w);
        let a = pretty_row_upto(g[0], redrow, greenrow, maxlen, w);
        assert(pretty_upto(g, red, green, w, maxlen, 0) == Seq::<char>::empty());
        assert(pretty_upto(g, red, green, w, maxlen, 1) =~= a + seq!['\n']);
        assert(a.len() >= cell0.len());
        assert((a + seq!['\n']).take(cell0.len() as int) =~= a.take(cell0.len() as int));
    } else {
        lemma_grid_first_cell(g, red, green, w, maxlen, y - 1);
        let a = pretty_upto(g, red, green, w, maxlen, y - 1);
        assert(a.len() >= cell0.len());
        assert(pretty_upto(g, red, green, w, maxlen, y).take(cell0.len() as int) =~= a.take(
            cell0.len() as int,
        ));
    }
}

/// A red-classified top-left cell shows as red: the annotated rendering
/// begins with that cell — its alignment padding, then the bold red
/// marker, the cell's text, and the style reset. No other style opens
/// the output.
pub proof fn lemma_first_cell_red(
    g: Seq<Seq<char>>,
    red: Seq<bool>,
    green: Seq<bool>,
    w: int,
)
    requires
        g.len() >= 1,
        g[0].len() >= 1,
        w >= 1,
        red.len() >= w,
        green.len() >= w,
        red[0],
    ensures
        ({
            let maxlen = grid_text_max(g);
            let text = g[0][0].text_spec();
            let padding = if maxlen > 1 {
                spaces(maxlen - text.len() + 1)
            } else {
                Seq::<char>::empty()
            };
            let cell0 = padding + red_prefix() + text + reset_chars();
            pretty_text(g, red, green, w).take(cell0.len() as int) == cell0
        }),
{
    let maxlen = grid_text_max(g);
    lemma_grid_first_cell(g, red, green, w, maxlen, g.len() as int);
    let text = g[0][0].text_spec();
    let padding = if maxlen > 1 {
        spaces(maxlen - text.len() + 1)
    } else {
        Seq::<char>::empty()
    };
    assert(pretty_cell(g[0][0], red[0], green[0], maxlen) =~= padding + red_prefix() + text
        + reset_chars());
}

} // verus!
