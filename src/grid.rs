//! The board as text: eight rows of four squares, each square shown twice,
//! once as a glyph and once as its two-digit index, both highlighted by
//! whether the square is set.
use vstd::prelude::*;
use vstd::string::StringExecFns;
use colored::Colorize;
use crate::board::{Board, SQUARES, is_set};

verus! {

/// The escape that turns the terminal's text green.
pub open spec fn green_code() -> Seq<char> {
    seq!['\x1b', '[', '3', '2', 'm']
}

/// The escape that turns the terminal's text red.
pub open spec fn red_code() -> Seq<char> {
    seq!['\x1b', '[', '3', '1', 'm']
}

/// The escape that resets the terminal's colours.
pub open spec fn reset_code() -> Seq<char> {
    seq!['\x1b', '[', '0', 'm']
}

/// Whether `s` holds no escape character.
pub open spec fn no_escape(s: Seq<char>) -> bool {
    forall|k: int| 0 <= k < s.len() ==> s[k] != '\x1b'
}

/// `r` shows `text` highlighted for a set square (green) or a clear one
/// (red): the text alone where colouring is off, or the text between the
/// colour's escape and the reset escape where it is on. Colouring can be
/// switched off by another thread while the text is being written; the
/// colour's escape is then left out and the reset escape still follows.
pub open spec fn highlighted(text: Seq<char>, set: bool, r: Seq<char>) -> bool {
    r == text || r == (if set {
        green_code()
    } else {
        red_code()
    }) + text + reset_code() || r == text + reset_code()
}

/// Relies on colored's `Colorize::green` for `&str` and `ColoredString`'s
/// `Display`: the text comes back as it is where colouring is switched off
/// (by the environment, the terminal or an override), else between
/// `ESC[32m` and `ESC[0m`. `Display` reads the process-wide switch again
/// before it writes the colour's escape, and writes the reset whatever it
/// read: a switch turned off in between leaves the text and the reset alone.
/// Without an escape character in the text, none of it is rewritten.
#[verifier::external_body]
fn paint_green(text: &str) -> (r: String)
    requires
        no_escape(text@),
    ensures
        highlighted(text@, true, r@),
{
    text.green().to_string()
}

/// Relies on colored's `Colorize::red` for `&str` and `ColoredString`'s
/// `Display`: the text comes back as it is where colouring is switched off
/// (by the environment, the terminal or an override), else between
/// `ESC[31m` and `ESC[0m`. `Display` reads the process-wide switch again
/// before it writes the colour's escape, and writes the reset whatever it
/// read: a switch turned off in between leaves the text and the reset alone.
/// Without an escape character in the text, none of it is rewritten.
#[verifier::external_body]
fn paint_red(text: &str) -> (r: String)
    requires
        no_escape(text@),
    ensures
        highlighted(text@, false, r@),
{
    text.red().to_string()
}

/// `text` highlighted as a set square (`set`) or a clear one.
pub fn highlight(text: &str, set: bool) -> (r: String)
    requires
        no_escape(text@),
    ensures
        highlighted(text@, set, r@),
{
    if set {
        paint_green(text)
    } else {
        paint_red(text)
    }
}

/// What stands between two cells of a row.
pub open spec fn gap() -> Seq<char> {
    seq![' ', ' ']
}

/// The cells one after the other, each after a gap.
pub open spec fn joined(cells: Seq<String>) -> Seq<char>
    decreases cells.len(),
{
    if cells.len() == 0 {
        Seq::empty()
    } else {
        joined(cells.drop_last()) + gap() + cells.last()@
    }
}

/// `prev` followed by the cells that `formatter` makes for columns `i`
/// up to 3, each after a gap; from column 4 on, `prev` as it is.
pub fn gen_col_loop<F: Fn(u32) -> String>(i: u32, prev: String, formatter: F) -> (r: String)
    requires
        forall|j: u32| i <= j < 4 ==> formatter.requires((j,)),
    ensures
        exists|cells: Seq<String>|
            #![trigger joined(cells)]
            cells.len() == (if i < 4 {
                4 - i
            } else {
                0
            }) && (forall|k: int|
                0 <= k < cells.len() ==> formatter.ensures(((i + k) as u32,), #[trigger] cells[k]))
                && r@ == prev@ + joined(cells),
{
    let ghost p = prev@;
    let ghost cells: Seq<String> = Seq::empty();
    let mut out = prev;
    let mut j: u32 = i;
    proof {
        reveal_strlit("  ");
    }
    while j < 4
        invariant
            i <= j,
            j <= 4 || j == i,
            cells.len() == j - i,
            forall|j2: u32| i <= j2 < 4 ==> formatter.requires((j2,)),
            forall|k: int|
                0 <= k < cells.len() ==> formatter.ensures(((i + k) as u32,), #[trigger] cells[k]),
            out@ == p + joined(cells),
            "  "@ == gap(),
        decreases 4 - j,
    {
        let cell = formatter(j);
        out.append("  ");
        out.append(cell.as_str());
        proof {
            let before = cells;
            cells = cells.push(cell);
            assert(cells.drop_last() =~= before);
            assert(out@ =~= p + joined(cells));
        }
        j = j + 1;
    }
    assert(out@ == p + joined(cells));
    out
}

/// The cells that `formatter` makes for columns 0 to 3, each after a gap.
pub fn gen_col<F: Fn(u32) -> String>(formatter: F) -> (r: String)
    requires
        forall|j: u32| j < 4 ==> formatter.requires((j,)),
    ensures
        exists|cells: Seq<String>|
            #![trigger joined(cells)]
            cells.len() == 4 && (forall|k: int|
                0 <= k < 4 ==> formatter.ensures((k as u32,), #[trigger] cells[k])) && r@ == joined(
                cells,
            ),
{
    let r = gen_col_loop(0, String::new(), formatter);
    assert(forall|s: Seq<char>| Seq::<char>::empty() + s == s) by {
        assert forall|s: Seq<char>| Seq::<char>::empty() + s == s by {
            assert(Seq::<char>::empty() + s =~= s);
        }
    }
    r
}

/// The glyph of a set square (`xx`) or a clear one (`oo`).
pub open spec fn glyph(set: bool) -> Seq<char> {
    if set {
        seq!['x', 'x']
    } else {
        seq!['o', 'o']
    }
}

/// The decimal digit `d`.
pub open spec fn digit_char(d: nat) -> char {
    if d == 0 {
        '0'
    } else if d == 1 {
        '1'
    } else if d == 2 {
        '2'
    } else if d == 3 {
        '3'
    } else if d == 4 {
        '4'
    } else if d == 5 {
        '5'
    } else if d == 6 {
        '6'
    } else if d == 7 {
        '7'
    } else if d == 8 {
        '8'
    } else {
        '9'
    }
}

/// Index `i` below 100 written with two digits, a leading zero included.
pub open spec fn label(i: nat) -> Seq<char> {
    seq![digit_char(i / 10), digit_char(i % 10)]
}

fn digit_str(d: u32) -> (r: &'static str)
    requires
        d < 10,
    ensures
        r@ == seq![digit_char(d as nat)],
{
    proof {
        reveal_strlit("0");
        reveal_strlit("1");
        reveal_strlit("2");
        reveal_strlit("3");
        reveal_strlit("4");
        reveal_strlit("5");
        reveal_strlit("6");
        reveal_strlit("7");
        reveal_strlit("8");
        reveal_strlit("9");
    }
    let r = if d == 0 {
        "0"
    } else if d == 1 {
        "1"
    } else if d == 2 {
        "2"
    } else if d == 3 {
        "3"
    } else if d == 4 {
        "4"
    } else if d == 5 {
        "5"
    } else if d == 6 {
        "6"
    } else if d == 7 {
        "7"
    } else if d == 8 {
        "8"
    } else {
        "9"
    };
    assert(r@ =~= seq![digit_char(d as nat)]);
    r
}

/// Index `i` written with two digits.
pub fn label_text(i: u32) -> (r: String)
    requires
        i < 100,
    ensures
        r@ == label(i as nat),
{
    let mut r = String::new();
    r.append(digit_str(i / 10));
    r.append(digit_str(i % 10));
    assert(r@ =~= label(i as nat));
    r
}

/// Square `idx` of mask `m` shown as a highlighted glyph.
pub fn glyph_cell(m: u32, idx: u32) -> (r: String)
    requires
        idx < SQUARES,
    ensures
        highlighted(glyph(is_set(m, idx)), is_set(m, idx), r@),
{
    let set = (m >> idx) & 1u32 == 1u32;
    proof {
        reveal_strlit("xx");
        reveal_strlit("oo");
    }
    let text = if set {
        "xx"
    } else {
        "oo"
    };
    assert(text@ =~= glyph(set));
    highlight(text, set)
}

/// Square `idx` of mask `m` shown as its highlighted two-digit index.
pub fn label_cell(m: u32, idx: u32) -> (r: String)
    requires
        idx < SQUARES,
    ensures
        highlighted(label(idx as nat), is_set(m, idx), r@),
{
    let set = (m >> idx) & 1u32 == 1u32;
    let text = label_text(idx);
    highlight(text.as_str(), set)
}

/// Space before a row's cells: even rows are indented.
pub open spec fn lead(row: int) -> Seq<char> {
    if row % 2 == 0 {
        gap()
    } else {
        Seq::empty()
    }
}

/// Space after a row's glyphs: odd rows make up for their missing indent.
pub open spec fn trail(row: int) -> Seq<char> {
    if row % 2 == 0 {
        Seq::empty()
    } else {
        gap()
    }
}

/// Row `row` of the grid: its glyph cells, two tabs, its index cells.
pub open spec fn row_text(row: int, gs: Seq<String>, ls: Seq<String>) -> Seq<char> {
    lead(row) + joined(gs.subrange(4 * row, 4 * row + 4)) + trail(row) + seq!['\t', '\t'] + lead(
        row,
    ) + joined(ls.subrange(4 * row, 4 * row + 4)) + seq!['\n']
}

/// The first `rows` rows of the grid, one line each.
pub open spec fn grid_text(rows: nat, gs: Seq<String>, ls: Seq<String>) -> Seq<char>
    decreases rows,
{
    if rows == 0 {
        Seq::empty()
    } else {
        grid_text((rows - 1) as nat, gs, ls) + row_text(rows - 1, gs, ls)
    }
}

/// `gs` and `ls` show the first `n` squares of mask `m`: square `i` as its
/// highlighted glyph in `gs[i]` and as its highlighted index in `ls[i]`.
pub open spec fn shows_squares(m: u32, n: nat, gs: Seq<String>, ls: Seq<String>) -> bool {
    gs.len() == n && ls.len() == n && forall|i: int|
        0 <= i < n ==> highlighted(glyph(is_set(m, i as u32)), is_set(m, i as u32), #[trigger] gs[i]@)
            && highlighted(label(i as nat), is_set(m, i as u32), ls[i]@)
}

proof fn lemma_grid_prefix(n: nat, gs: Seq<String>, ls: Seq<String>, gs2: Seq<String>, ls2: Seq<String>)
    requires
        4 * n <= gs.len(),
        4 * n <= ls.len(),
        4 * n <= gs2.len(),
        4 * n <= ls2.len(),
        forall|k: int| 0 <= k < 4 * n ==> gs[k] == gs2[k] && ls[k] == ls2[k],
    ensures
        grid_text(n, gs, ls) == grid_text(n, gs2, ls2),
    decreases n,
{
    if n > 0 {
        lemma_grid_prefix((n - 1) as nat, gs, ls, gs2, ls2);
        let r = n - 1;
        assert(gs.subrange(4 * r, 4 * r + 4) =~= gs2.subrange(4 * r, 4 * r + 4));
        assert(ls.subrange(4 * r, 4 * r + 4) =~= ls2.subrange(4 * r, 4 * r + 4));
    }
}

impl Board {
    /// The board as eight lines of text. Line `row` holds squares
    /// `4 * row` to `4 * row + 3`: first their glyphs, then two tabs, then
    /// their two-digit indexes; every cell is highlighted by whether its
    /// square is set, and even rows are indented to give a staggered layout.
    pub fn render(&self) -> (r: String)
        ensures
            exists|gs: Seq<String>, ls: Seq<String>|
                #![trigger grid_text(8, gs, ls)]
                shows_squares(self@, 32, gs, ls) && r@ == grid_text(8, gs, ls),
    {
        let m = self.to_uint();
        let ghost gs: Seq<String> = Seq::empty();
        let ghost ls: Seq<String> = Seq::empty();
        let mut out = String::new();
        let mut row: u32 = 0;
        proof {
            reveal_strlit("  ");
            reveal_strlit("\t\t");
            reveal_strlit("\n");
        }
        while row < 8
            invariant
                row <= 8,
                m == self@,
                shows_squares(m, 4 * row as nat, gs, ls),
                out@ == grid_text(row as nat, gs, ls),
                "  "@ == gap(),
                "\t\t"@ == seq!['\t', '\t'],
                "\n"@ == seq!['\n'],
            decreases 8 - row,
        {
            let indent_line = row % 2 == 0;
            let glyph_of = |col: u32| -> (s: String)
                requires
                    col < 4,
                    row < 8,
                ensures
                    highlighted(glyph(is_set(m, (row * 4 + col) as u32)), is_set(m, (row * 4 + col) as u32), s@),
                { glyph_cell(m, row * 4 + col) };
            let label_of = |col: u32| -> (s: String)
                requires
                    col < 4,
                    row < 8,
                ensures
                    highlighted(label((row * 4 + col) as nat), is_set(m, (row * 4 + col) as u32), s@),
                { label_cell(m, row * 4 + col) };
            let glyphs = gen_col(glyph_of);
            let labels = gen_col(label_of);
            let ghost gc = choose|cells: Seq<String>|
                #![trigger joined(cells)]
                cells.len() == 4 && (forall|k: int|
                    0 <= k < 4 ==> glyph_of.ensures((k as u32,), #[trigger] cells[k])) && glyphs@
                    == joined(cells);
            let ghost lc = choose|cells: Seq<String>|
                #![trigger joined(cells)]
                cells.len() == 4 && (forall|k: int|
                    0 <= k < 4 ==> label_of.ensures((k as u32,), #[trigger] cells[k])) && labels@
                    == joined(cells);
            let ghost out0 = out@;
            if indent_line {
                out.append("  ");
            }
            out.append(glyphs.as_str());
            if !indent_line {
                out.append("  ");
            }
            out.append("\t\t");
            if indent_line {
                out.append("  ");
            }
            out.append(labels.as_str());
            out.append("\n");
            proof {
                let gs2 = gs + gc;
                let ls2 = ls + lc;
                let r = row as int;
                assert(gs2.subrange(4 * r, 4 * r + 4) =~= gc);
                assert(ls2.subrange(4 * r, 4 * r + 4) =~= lc);
                lemma_grid_prefix(row as nat, gs, ls, gs2, ls2);
                assert(out@ =~= out0 + row_text(r, gs2, ls2));
                assert forall|i: int| 0 <= i < 4 * (r + 1) implies highlighted(
                    glyph(is_set(m, i as u32)),
                    is_set(m, i as u32),
                    #[trigger] gs2[i]@,
                ) && highlighted(label(i as nat), is_set(m, i as u32), ls2[i]@) by {
                    if i >= 4 * r {
                        let k = i - 4 * r;
                        assert(glyph_of.ensures((k as u32,), gc[k]));
                        assert(label_of.ensures((k as u32,), lc[k]));
                        assert(gs2[i] == gc[k]);
                        assert(ls2[i] == lc[k]);
                        assert((row * 4 + (k as u32)) as u32 == i as u32);
                    } else {
                        assert(gs2[i] == gs[i]);
                        assert(ls2[i] == ls[i]);
                        assert(highlighted(glyph(is_set(m, i as u32)), is_set(m, i as u32), gs[i]@));
                    }
                }
                gs = gs2;
                ls = ls2;
            }
            row = row + 1;
        }
        out
    }
}

} // verus!
