use vstd::prelude::*;

use crate::color::Color;
use crate::screen::{default_cell, fresh_row, row_print, Cell, RowModel, MAX_ROWS, ROW_LEN};
use crate::renderer::{
    cell_html, cur_cell, escape_char, ground_parser, init_render, m_emit_html, m_linefeed,
    m_print, m_step, m_steps, row_html_m, row_html_upto, rows_html_upto, RenderModel,
};

verus! {

/// A character the terminal prints as itself: no escape byte, no
/// control byte but the linefeed, and no delete byte.
pub open spec fn plain_char(c: char) -> bool {
    c != '\u{1b}' && ((c as u32) >= 0x20 || c == '\n') && c != '\u{7f}'
}

pub open spec fn plain_input(s: Seq<char>) -> bool {
    forall|i: int| 0 <= i < s.len() ==> plain_char(#[trigger] s[i])
}

/// The cell a plain character is printed as: the character in the
/// default style.
pub open spec fn plain_cell(c: char) -> Cell {
    Cell {
        text: c,
        foreground: Color::EightBit(15),
        background: Color::EightBit(0),
        bold: false,
        italic: false,
        underline: false,
        dim: false,
    }
}

/// The row a line of plain text fills: the line's characters, padded
/// with blank cells to the row width, the cursor after the text.
pub open spec fn plain_row(l: Seq<char>) -> RowModel {
    let w = if l.len() < ROW_LEN as nat {
        ROW_LEN as nat
    } else {
        l.len()
    };
    RowModel {
        cells: Seq::new(
            w,
            |i: int| if i < l.len() {
                plain_cell(l[i])
            } else {
                default_cell()
            },
        ),
        pos: l.len(),
    }
}

/// The lines of a text as the screen sees them: every linefeed opens a
/// new line, so a trailing linefeed leaves a final empty line.
pub open spec fn rows_split(s: Seq<char>) -> Seq<Seq<char>>
    decreases s.len(),
{
    if s.len() == 0 {
        seq![Seq::<char>::empty()]
    } else if s.last() == '\n' {
        rows_split(s.drop_last()).push(Seq::empty())
    } else {
        let r = rows_split(s.drop_last());
        r.update(r.len() - 1, r.last().push(s.last()))
    }
}

pub proof fn lemma_rows_split_len(s: Seq<char>)
    ensures
        rows_split(s).len() >= 1,
    decreases s.len(),
{
    if s.len() > 0 {
        lemma_rows_split_len(s.drop_last());
    }
}

/// A line padded with spaces to the row width.
pub open spec fn pad_line(l: Seq<char>) -> Seq<char> {
    if l.len() < ROW_LEN as nat {
        l + Seq::new((ROW_LEN as nat - l.len()) as nat, |i: int| ' ')
    } else {
        l
    }
}

/// The first `n` characters, HTML-escaped.
pub open spec fn escape_upto(t: Seq<char>, n: int) -> Seq<char>
    decreases n,
{
    if n <= 0 {
        Seq::empty()
    } else {
        escape_upto(t, n - 1) + escape_char(t[n - 1])
    }
}

/// The HTML of one plain line: its padded text, escaped, closed by a
/// newline.
pub open spec fn line_html(l: Seq<char>) -> Seq<char> {
    escape_upto(pad_line(l), pad_line(l).len() as int) + seq!['\n']
}

/// The HTML of the lines `[lo, hi)`, in order.
pub open spec fn lines_html_seg(ls: Seq<Seq<char>>, lo: int, hi: int) -> Seq<char>
    decreases hi - lo,
{
    if lo >= hi {
        Seq::empty()
    } else {
        line_html(ls[lo]) + lines_html_seg(ls, lo + 1, hi)
    }
}

/// How many of the text's lines are still on screen.
pub open spec fn visible_count(ls: Seq<Seq<char>>) -> nat {
    if ls.len() <= MAX_ROWS as nat {
        ls.len()
    } else {
        MAX_ROWS as nat
    }
}

/// The renderer state that plain text drives the renderer into: scanner
/// at ground, default attributes, an empty style dictionary, the last
/// lines on screen and the scrolled-out ones already rendered.
pub open spec fn plain_state(s: Seq<char>, m: RenderModel) -> bool {
    let ls = rows_split(s);
    let nv = visible_count(ls);
    &&& m.parser == ground_parser()
    &&& !m.bold
    &&& !m.italic
    &&& !m.underline
    &&& !m.dim
    &&& m.foreground == Color::EightBit(15)
    &&& m.background == Color::EightBit(0)
    &&& m.styles == Seq::<(Color, bool)>::empty()
    &&& m.prev.bold == false
    &&& m.prev.foreground == Color::EightBit(15)
    &&& m.rows.len() == nv
    &&& m.cur == nv - 1
    &&& (forall|i: int|
        0 <= i < nv ==> m.rows[i] == plain_row(#[trigger] ls[ls.len() - nv + i]))
    &&& m.out == lines_html_seg(ls, 0, ls.len() - nv)
}

/// Printing a plain character extends the plain row.
proof fn lemma_plain_row_print(l: Seq<char>, c: char)
    ensures
        row_print(plain_row(l), plain_cell(c)) == plain_row(l.push(c)),
{
    let r = plain_row(l);
    let r2 = plain_row(l.push(c));
    if l.len() < ROW_LEN as nat {
        assert(r.cells.update(l.len() as int, plain_cell(c)) =~= r2.cells);
    } else {
        assert(r.cells.push(plain_cell(c)) =~= r2.cells);
    }
}

/// Rendering cells that all carry the default style opens no span: the
/// output is the escaped text alone, the dictionary stays as it was,
/// and the running style cell keeps the default weight and color.
proof fn lemma_row_html_plain(cells: Seq<Cell>, n: int, prev: Cell, styles: Seq<(Color, bool)>)
    requires
        0 <= n <= cells.len(),
        forall|i: int|
            0 <= i < cells.len() ==> !(#[trigger] cells[i]).bold && cells[i].foreground
                == Color::EightBit(15),
        !prev.bold,
        prev.foreground == Color::EightBit(15),
    ensures
        ({
            let (h, p, st) = row_html_upto(cells, n, prev, styles);
            &&& h == escape_upto(texts(cells), n)
            &&& !p.bold
            &&& p.foreground == Color::EightBit(15)
            &&& st == styles
        }),
    decreases n,
{
    if n > 0 {
        lemma_row_html_plain(cells, n - 1, prev, styles);
        let (h1, p1, s1) = row_html_upto(cells, n - 1, prev, styles);
        let (hc, p2, s2) = cell_html(cells[n - 1], p1, s1);
        assert(texts(cells)[n - 1] == cells[n - 1].text);
    }
}

/// The text carried by a row's cells.
pub open spec fn texts(cells: Seq<Cell>) -> Seq<char> {
    Seq::new(cells.len(), |i: int| cells[i].text)
}

/// The texts of a plain row are the padded line.
proof fn lemma_plain_row_texts(l: Seq<char>)
    ensures
        texts(plain_row(l).cells) =~= pad_line(l),
{
}

/// Folding one whole plain row yields the line's HTML.
proof fn lemma_plain_line_html(l: Seq<char>, prev: Cell, styles: Seq<(Color, bool)>)
    requires
        !prev.bold,
        prev.foreground == Color::EightBit(15),
    ensures
        ({
            let (h, p, st) = row_html_m(plain_row(l).cells, prev, styles);
            &&& h == line_html(l)
            &&& !p.bold
            &&& p.foreground == Color::EightBit(15)
            &&& st == styles
        }),
{
    let cells = plain_row(l).cells;
    assert(forall|i: int|
        0 <= i < cells.len() ==> !(#[trigger] cells[i]).bold && cells[i].foreground
            == Color::EightBit(15));
    lemma_row_html_plain(cells, cells.len() as int, prev, styles);
    lemma_plain_row_texts(l);
    assert(escape_upto(texts(cells), cells.len() as int) == escape_upto(
        pad_line(l),
        pad_line(l).len() as int,
    )) by {
        lemma_escape_congruent(texts(cells), pad_line(l), cells.len() as int);
    }
}

proof fn lemma_escape_congruent(a: Seq<char>, b: Seq<char>, n: int)
    requires
        a =~= b,
    ensures
        escape_upto(a, n) == escape_upto(b, n),
    decreases n,
{
    if n > 0 {
        lemma_escape_congruent(a, b, n - 1);
    }
}

/// A pushed line changes no earlier line's HTML.
proof fn lemma_seg_push(ls: Seq<Seq<char>>, x: Seq<char>, lo: int, hi: int)
    requires
        0 <= lo,
        hi <= ls.len(),
    ensures
        lines_html_seg(ls.push(x), lo, hi) == lines_html_seg(ls, lo, hi),
    decreases hi - lo,
{
    if lo < hi {
        lemma_seg_push(ls, x, lo + 1, hi);
    }
}

/// A segment grows at its upper end.
proof fn lemma_seg_snoc(ls: Seq<Seq<char>>, lo: int, hi: int)
    requires
        0 <= lo <= hi < ls.len(),
    ensures
        lines_html_seg(ls, lo, hi + 1) == lines_html_seg(ls, lo, hi) + line_html(ls[hi]),
    decreases hi - lo,
{
    if lo < hi {
        lemma_seg_snoc(ls, lo + 1, hi);
        assert(line_html(ls[lo]) + (lines_html_seg(ls, lo + 1, hi) + line_html(ls[hi]))
            =~= (line_html(ls[lo]) + lines_html_seg(ls, lo + 1, hi)) + line_html(ls[hi]));
    } else {
        assert(lines_html_seg(ls, lo, hi) =~= Seq::<char>::empty());
        assert(Seq::<char>::empty() + line_html(ls[hi]) =~= line_html(ls[hi]));
        assert(line_html(ls[hi]) + lines_html_seg(ls, hi + 1, hi + 1) =~= line_html(ls[hi]));
    }
}

/// Feeding one more character steps the final state once more.
pub proof fn lemma_steps_snoc(m: RenderModel, s: Seq<char>, c: char)
    ensures
        m_steps(m, s.push(c)) == m_step(m_steps(m, s), c),
    decreases s.len(),
{
    if s.len() == 0 {
        assert(s.push(c)[0] == c);
        assert(s.push(c).drop_first() =~= Seq::<char>::empty());
        assert(m_steps(m, s.push(c)) == m_steps(m_step(m, c), s.push(c).drop_first()));
        assert(m_steps(m_step(m, c), Seq::<char>::empty()) == m_step(m, c));
        assert(m_steps(m, s) == m);
    } else {
        assert(s.push(c)[0] == s[0]);
        assert(s.push(c).drop_first() =~= s.drop_first().push(c));
        assert(m_steps(m, s.push(c)) == m_steps(m_step(m, s[0]), s.drop_first().push(c)));
        lemma_steps_snoc(m_step(m, s[0]), s.drop_first(), c);
        assert(m_steps(m, s) == m_steps(m_step(m, s[0]), s.drop_first()));
    }
}

/// One plain character preserves the plain-state picture.
proof fn lemma_plain_step(s: Seq<char>, m: RenderModel, c: char)
    requires
        plain_state(s, m),
        plain_char(c),
    ensures
        plain_state(s.push(c), m_step(m, c)),
{
    let ls = rows_split(s);
    let nv = visible_count(ls);
    lemma_rows_split_len(s);
    let s2 = s.push(c);
    let ls2 = rows_split(s2);
    assert(s2.drop_last() =~= s);
    if c == '\n' {
        assert(ls2 == ls.push(Seq::<char>::empty()));
        let m2 = m_step(m, c);
        assert(m2 == m_linefeed(m));
        let nv2 = visible_count(ls2);
        if nv == MAX_ROWS as nat {
            let victim = m.rows[0];
            assert(m.rows[0] == plain_row(ls[ls.len() - nv + 0]));
            assert(victim == plain_row(ls[ls.len() - nv]));
            lemma_plain_line_html(ls[ls.len() - nv], m.prev, m.styles);
            assert(m2.out == m.out + line_html(ls[ls.len() - nv]));
            lemma_seg_push(ls, Seq::empty(), 0, ls.len() - nv);
            lemma_seg_snoc(ls2, 0, ls.len() - nv);
            assert(ls2[ls.len() - nv] == ls[ls.len() - nv]);
            assert(m2.out == lines_html_seg(ls2, 0, ls2.len() - nv2));
            assert(m2.rows.len() == nv2);
            assert forall|i: int|
                0 <= i < nv2 implies m2.rows[i] == plain_row(
                #[trigger] ls2[ls2.len() - nv2 + i]) by {
                assert(m2.rows == m.rows.drop_first().push(fresh_row()));
                if i < nv2 - 1 {
                    assert(m2.rows[i] == m.rows.drop_first()[i]);
                    assert(m.rows.drop_first()[i] == m.rows[i + 1]);
                    assert(m.rows[i + 1] == plain_row(ls[ls.len() - nv + (i + 1)]));
                    assert(ls2[ls2.len() - nv2 + i] == ls[ls.len() - nv + (i + 1)]);
                } else {
                    assert(m2.rows[i] == fresh_row());
                    assert(ls2[ls2.len() - nv2 + i] == ls2[ls2.len() - 1]);
                    assert(ls2[ls2.len() - 1] =~= Seq::<char>::empty());
                    assert(plain_row(Seq::<char>::empty()).cells =~= fresh_row().cells);
                    assert(plain_row(Seq::<char>::empty()).pos == fresh_row().pos);
                    assert(plain_row(ls2[ls2.len() - 1]) == fresh_row());
                }
            }
        } else {
            assert(m.cur == m.rows.len() - 1);
            let nv2 = visible_count(ls2);
            assert(nv2 == nv + 1);
            lemma_seg_push(ls, Seq::empty(), 0, ls.len() - nv);
            assert(m2.out == lines_html_seg(ls2, 0, ls2.len() - nv2));
            assert forall|i: int|
                0 <= i < nv2 implies m2.rows[i] == plain_row(
                #[trigger] ls2[ls2.len() - nv2 + i]) by {
                assert(m2.rows == m.rows.push(fresh_row()));
                if i < nv2 - 1 {
                    assert(m2.rows[i] == m.rows[i]);
                    assert(m.rows[i] == plain_row(ls[ls.len() - nv + i]));
                    assert(ls2[ls2.len() - nv2 + i] == ls[ls.len() - nv + i]);
                } else {
                    assert(m2.rows[i] == fresh_row());
                    assert(ls2[ls2.len() - nv2 + i] == ls2[ls2.len() - 1]);
                    assert(ls2[ls2.len() - 1] =~= Seq::<char>::empty());
                    assert(plain_row(Seq::<char>::empty()).cells =~= fresh_row().cells);
                    assert(plain_row(ls2[ls2.len() - 1]) == fresh_row());
                }
            }
        }
    } else {
        assert((c as u32) >= 0x20);
        let m2 = m_step(m, c);
        assert(m2 == m_print(m, c));
        assert(cur_cell(m, c) == plain_cell(c));
        let last = ls[ls.len() - 1];
        assert(ls2 == ls.update(ls.len() - 1, last.push(c)));
        assert(ls2.len() == ls.len());
        let nv2 = visible_count(ls2);
        assert(nv2 == nv);
        lemma_plain_row_print(last, c);
        assert(m.rows[nv - 1] == plain_row(ls[ls.len() - nv + (nv - 1)]));
        assert(ls[ls.len() - nv + (nv - 1)] == last);
        assert(m.rows[m.cur as int] == plain_row(last));
        assert forall|i: int|
            0 <= i < nv implies m2.rows[i] == plain_row(#[trigger] ls2[ls2.len() - nv + i]) by {
            if i == nv - 1 {
                assert(m2.rows[i] == row_print(plain_row(last), plain_cell(c)));
            } else {
                assert(m2.rows[i] == m.rows[i]);
                assert(ls2[ls2.len() - nv + i] == ls[ls.len() - nv + i]);
            }
        }
        assert(lines_html_seg(ls2, 0, ls2.len() - nv2) == lines_html_seg(ls, 0, ls.len() - nv))
            by {
            lemma_seg_update_last(ls, last.push(c), 0, ls.len() - nv);
        }
    }
}

/// Updating the last line changes no earlier line's HTML.
proof fn lemma_seg_update_last(ls: Seq<Seq<char>>, x: Seq<char>, lo: int, hi: int)
    requires
        ls.len() >= 1,
        0 <= lo,
        hi < ls.len(),
    ensures
        lines_html_seg(ls.update(ls.len() - 1, x), lo, hi) == lines_html_seg(ls, lo, hi),
    decreases hi - lo,
{
    if lo < hi {
        lemma_seg_update_last(ls, x, lo + 1, hi);
    }
}

/// Plain text drives the renderer into exactly the plain state.
pub proof fn lemma_plain_run(s: Seq<char>)
    requires
        plain_input(s),
    ensures
        plain_state(s, m_steps(init_render(), s)),
    decreases s.len(),
{
    if s.len() == 0 {
        assert(m_steps(init_render(), s) == init_render());
        assert(rows_split(s) == seq![Seq::<char>::empty()]);
        assert(plain_row(Seq::<char>::empty()).cells =~= fresh_row().cells);
        assert(init_render().rows[0] == fresh_row());
        assert(lines_html_seg(rows_split(s), 0, 0) =~= Seq::<char>::empty());
    } else {
        let s0 = s.drop_last();
        assert(plain_input(s0)) by {
            assert(forall|i: int| 0 <= i < s0.len() ==> s0[i] == s[i]);
        }
        lemma_plain_run(s0);
        lemma_steps_snoc(init_render(), s0, s.last());
        assert(s0.push(s.last()) =~= s);
        lemma_plain_step(s0, m_steps(init_render(), s0), s.last());
    }
}

/// Finalizing from the plain state renders the remaining lines in order.
proof fn lemma_plain_emit(s: Seq<char>, m: RenderModel)
    requires
        plain_state(s, m),
    ensures
        ({
            let ls = rows_split(s);
            let nv = visible_count(ls);
            m_emit_html(m).out == lines_html_seg(ls, 0, ls.len() - nv) + "<span>"@
                + lines_html_seg(ls, ls.len() - nv, ls.len() as int) + "</span>"@
        }),
{
    let ls = rows_split(s);
    let nv = visible_count(ls);
    lemma_rows_split_len(s);
    lemma_plain_rows_fold(m.rows, nv as int, ls, m.prev, m.styles);
}

/// Folding the visible plain rows yields the HTML of the visible lines.
proof fn lemma_plain_rows_fold(
    rows: Seq<RowModel>,
    n: int,
    ls: Seq<Seq<char>>,
    prev: Cell,
    styles: Seq<(Color, bool)>,
)
    requires
        0 <= n <= rows.len(),
        rows.len() == visible_count(ls),
        ls.len() >= visible_count(ls),
        forall|i: int|
            0 <= i < rows.len() ==> rows[i] == plain_row(
                #[trigger] ls[ls.len() - visible_count(ls) + i],
            ),
        !prev.bold,
        prev.foreground == Color::EightBit(15),
        styles == Seq::<(Color, bool)>::empty(),
    ensures
        ({
            let (h, p, st) = rows_html_upto(rows, n, prev, styles);
            let base = ls.len() - visible_count(ls);
            &&& h == lines_html_seg(ls, base, base + n)
            &&& !p.bold
            &&& p.foreground == Color::EightBit(15)
            &&& st == styles
        }),
    decreases n,
{
    let base = ls.len() - visible_count(ls);
    if n == 0 {
        assert(lines_html_seg(ls, base, base) =~= Seq::<char>::empty());
    } else {
        lemma_plain_rows_fold(rows, n - 1, ls, prev, styles);
        let (h1, p1, s1) = rows_html_upto(rows, n - 1, prev, styles);
        lemma_plain_line_html(ls[base + n - 1], p1, s1);
        lemma_seg_snoc(ls, base, base + n - 1);
    }
}

/// The plain-text law: an input with no escape byte and no control byte
/// but the linefeed renders to exactly its own lines — each padded to
/// the row width, HTML-escaped (`<` and `>` become entities) and closed
/// by a newline, in order, with the lines that scrolled out first and
/// one enclosing span around the rest; no style span is ever opened and
/// the style dictionary stays empty, so stripping the one span leaves
/// the escaped, padded input itself.
pub proof fn lemma_plain_text_rendering(s: Seq<char>)
    requires
        plain_input(s),
    ensures
        ({
            let ls = rows_split(s);
            let nv = visible_count(ls);
            &&& m_emit_html(m_steps(init_render(), s)).out == lines_html_seg(
                ls,
                0,
                ls.len() - nv,
            ) + "<span>"@ + lines_html_seg(ls, ls.len() - nv, ls.len() as int) + "</span>"@
            &&& m_emit_html(m_steps(init_render(), s)).styles == Seq::<(Color, bool)>::empty()
        }),
{
    lemma_plain_run(s);
    lemma_plain_emit(s, m_steps(init_render(), s));
    let m = m_steps(init_render(), s);
    let ls = rows_split(s);
    let nv = visible_count(ls);
    lemma_rows_split_len(s);
    lemma_plain_rows_fold(m.rows, nv as int, ls, m.prev, m.styles);
}

} // verus!
