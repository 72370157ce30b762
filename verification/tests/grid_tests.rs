use grid2d::{Grid, GridError, Pos};

fn err_of<T>(r: Result<Grid<T>, GridError>) -> GridError {
    match r {
        Err(e) => e,
        Ok(_) => panic!("expected an error"),
    }
}

#[test]
fn grid_from_str() {
    let s = "abc\ndef\nghi\njkl";
    let g = Grid::from_str_chars(s);
    assert_eq!(g.width(), 3);
    assert_eq!(g.height(), 4);
    assert_eq!(*g.get(0, 0), 'a');
    assert_eq!(*g.get(1, 2), 'h');
    assert_eq!(*g.get(2, 3), 'l');
}

#[test]
fn grid_from_str_bytes() {
    let s = "abc\ndef\nghi\njkl";
    let g = Grid::from_str_bytes(s);
    assert_eq!(g.width(), 3);
    assert_eq!(g.height(), 4);
    assert_eq!(*g.get(0, 0), b'a');
    assert_eq!(*g.get(1, 2), b'h');
    assert_eq!(*g.get(2, 3), b'l');
}

#[test]
fn from_nested_matches_input() {
    let v = vec![vec![1u8, 2, 3], vec![4, 5, 6]];
    let g = Grid::from_nested(v);
    assert_eq!(g.width(), 3);
    assert_eq!(g.height(), 2);
    for y in 0..2 {
        for x in 0..3 {
            assert_eq!(*g.get(x, y), (y * 3 + x + 1) as u8);
        }
    }
}

#[test]
fn from_nested_slice_clones() {
    let v = vec![vec!['a', 'b'], vec!['c', 'd']];
    let g = Grid::from_nested_slice(&v);
    assert_eq!(g.width(), 2);
    assert_eq!(g.height(), 2);
    assert_eq!(*g.get(0, 0), 'a');
    assert_eq!(*g.get(1, 1), 'd');
    // the source is still usable: the grid holds clones
    assert_eq!(v[1][0], 'c');
}

#[test]
fn try_from_nested_empty() {
    let v: Vec<Vec<u8>> = Vec::new();
    assert_eq!(err_of(Grid::try_from_nested(v)), GridError::Empty);
}

#[test]
fn try_from_nested_mismatch() {
    let v = vec![vec![1u8, 2], vec![3]];
    assert_eq!(
        err_of(Grid::try_from_nested(v)),
        GridError::WidthMismatch { row: 2 }
    );
}

#[test]
fn try_from_str_chars_errors() {
    assert_eq!(err_of(Grid::try_from_str_chars("")), GridError::Empty);
    assert_eq!(
        err_of(Grid::try_from_str_chars("ab\nabc")),
        GridError::WidthMismatch { row: 2 }
    );
    assert_eq!(
        err_of(Grid::try_from_str_chars("ab\ncd\nefg\nh")),
        GridError::WidthMismatch { row: 3 }
    );
}

#[test]
fn try_from_separated_errors() {
    // no separator at all: no row is ever completed
    assert_eq!(
        err_of(Grid::try_from_separated(vec![1u8, 2, 3], 9)),
        GridError::Empty
    );
    assert_eq!(
        err_of(Grid::try_from_separated(Vec::<u8>::new(), 9)),
        GridError::Empty
    );
    // second run between separators is longer than the first
    assert_eq!(
        err_of(Grid::try_from_separated(vec![1u8, 9, 2, 3], 9)),
        GridError::WidthMismatch { row: 2 }
    );
}

#[test]
fn trailing_separator_is_a_mismatch() {
    // a trailing separator opens a new, empty row, which cannot match a
    // positive width; the report names that final row
    assert_eq!(
        err_of(Grid::try_from_str_bytes("ab\ncd\n")),
        GridError::WidthMismatch { row: 3 }
    );
}

#[test]
fn zero_width_rows() {
    // a lone newline: one empty character line, but two empty byte rows
    let gc = Grid::from_str_chars("\n");
    assert_eq!(gc.width(), 0);
    assert_eq!(gc.height(), 1);
    let gb = Grid::from_str_bytes("\n");
    assert_eq!(gb.width(), 0);
    assert_eq!(gb.height(), 2);
}

#[test]
fn carriage_returns_are_line_endings() {
    let g = Grid::from_str_chars("ab\r\ncd");
    assert_eq!(g.width(), 2);
    assert_eq!(g.height(), 2);
    assert_eq!(*g.get(1, 1), 'd');
}

#[test]
fn set_and_get() {
    let mut g = Grid::from_str_bytes("ab\ncd");
    g.set(1, 0, b'z');
    assert_eq!(*g.get(1, 0), b'z');
    assert_eq!(*g.get(0, 0), b'a');
    g.set_pos(Pos::new(0, 1), b'q');
    assert_eq!(*g.get_pos(Pos::new(0, 1)), b'q');
}

#[test]
fn positions_cover_rectangle_once() {
    let g = Grid::from_str_bytes("abc\ndef");
    let ps = g.positions();
    assert_eq!(ps.len(), 6);
    let expected = vec![
        Pos::new(0, 0),
        Pos::new(1, 0),
        Pos::new(2, 0),
        Pos::new(0, 1),
        Pos::new(1, 1),
        Pos::new(2, 1),
    ];
    assert_eq!(ps, expected);
    for i in 0..ps.len() {
        for j in (i + 1)..ps.len() {
            assert_ne!(ps[i], ps[j]);
        }
    }
}

#[test]
fn neighbors4_counts_and_order() {
    let g = Grid::from_str_bytes("abc\ndef\nghi");
    // interior cell: up, left, right, down
    let n = g.neighbor_positions4(Pos::new(1, 1));
    assert_eq!(
        n,
        vec![Pos::new(1, 0), Pos::new(0, 1), Pos::new(2, 1), Pos::new(1, 2)]
    );
    // corner cells have exactly two
    assert_eq!(g.neighbor_positions4(Pos::new(0, 0)).len(), 2);
    assert_eq!(g.neighbor_positions4(Pos::new(2, 0)).len(), 2);
    assert_eq!(g.neighbor_positions4(Pos::new(0, 2)).len(), 2);
    assert_eq!(g.neighbor_positions4(Pos::new(2, 2)).len(), 2);
    // an edge (non-corner) cell has three
    assert_eq!(g.neighbor_positions4(Pos::new(1, 0)).len(), 3);
}

#[test]
fn neighbors8_counts_and_order() {
    let g = Grid::from_str_bytes("abc\ndef\nghi");
    let n = g.neighbor_positions8(Pos::new(1, 1));
    assert_eq!(n.len(), 8);
    assert_eq!(
        n,
        vec![
            Pos::new(1, 0),
            Pos::new(0, 1),
            Pos::new(2, 1),
            Pos::new(1, 2),
            Pos::new(0, 0),
            Pos::new(2, 0),
            Pos::new(0, 2),
            Pos::new(2, 2),
        ]
    );
    assert_eq!(g.neighbor_positions8(Pos::new(0, 0)).len(), 3);
    assert_eq!(g.neighbor_positions8(Pos::new(2, 2)).len(), 3);
}

#[test]
fn rows_reproduce_lines() {
    let g = Grid::from_str_chars("abc\ndef");
    let rows = g.rows();
    assert_eq!(rows, vec![vec!['a', 'b', 'c'], vec!['d', 'e', 'f']]);
}

#[test]
fn map_transforms_every_cell() {
    let g = Grid::from_str_bytes("ab\ncd");
    let h = g.map(|b: u8| (b as char).to_ascii_uppercase());
    assert_eq!(h.width(), 2);
    assert_eq!(h.height(), 2);
    assert_eq!(*h.get(0, 0), 'A');
    assert_eq!(*h.get(1, 1), 'D');
}

#[test]
fn render_plain_chars() {
    let g = Grid::from_str_chars("ab\ncd");
    assert_eq!(g.render(), "a b\nc d\n");
}

#[test]
fn render_plain_bytes_decimal() {
    let g = Grid::from_str_bytes("ab\ncd");
    assert_eq!(g.render(), "97 98\n99 100\n");
}

#[test]
fn render_reparse_single_column() {
    let g = Grid::from_str_chars("a\nb\nc");
    let again = Grid::from_str_chars(&g.render());
    assert_eq!(again.width(), 1);
    assert_eq!(again.height(), 3);
    assert_eq!(again.rows(), g.rows());
}

const GRAY: &str = "\u{1b}[38;2;192;192;192m";
const RED: &str = "\u{1b}[1m\u{1b}[31m";
const GREEN: &str = "\u{1b}[1m\u{1b}[32m";
const RESET: &str = "\u{1b}[0m";

#[test]
fn pretty_plain_gray() {
    let g = Grid::from_str_chars("ab");
    let out = g.pretty().render();
    assert_eq!(out, format!("{GRAY}a{RESET}{GRAY}b{RESET}\n"));
}

#[test]
fn pretty_red_cell() {
    let g = Grid::from_str_chars("ab\ncd");
    let out = g.pretty().with_red(|p: (usize, usize)| p == (0, 0)).render();
    // the red cell carries the bold red marker, every other cell is gray
    assert!(out.starts_with(&format!("{RED}a{RESET}")));
    assert_eq!(out.matches(RED).count(), 1);
    assert_eq!(out.matches(GRAY).count(), 3);
    assert_eq!(
        out,
        format!("{RED}a{RESET}{GRAY}b{RESET}\n{GRAY}c{RESET}{GRAY}d{RESET}\n")
    );
}

#[test]
fn pretty_red_beats_green() {
    let g = Grid::from_str_chars("ab");
    let out = g
        .pretty()
        .with_red(|p: (usize, usize)| p.0 == 0)
        .with_green(|_p: (usize, usize)| true)
        .render();
    assert_eq!(out, format!("{RED}a{RESET}{GREEN}b{RESET}\n"));
}

#[test]
fn pretty_pads_wide_cells() {
    let v = vec![vec![1u8, 23], vec![103, 7]];
    let g = Grid::from_nested(v);
    let out = g.pretty().render();
    // the widest cell is three digits wide; every cell is preceded by
    // (3 - len + 1) spaces
    assert_eq!(
        out,
        format!(
            "   {GRAY}1{RESET}  {GRAY}23{RESET}\n {GRAY}103{RESET}   {GRAY}7{RESET}\n"
        )
    );
}
