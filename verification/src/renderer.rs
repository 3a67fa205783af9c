use vstd::prelude::*;

use crate::color::Color;
use crate::screen::{Cell, Row, RowModel, default_cell, fresh_row, row_print, MAX_ROWS};
use crate::styles::{styles_get, Styles};

verus! {

/// Highest number of parameters one control sequence may carry; further
/// parameters are dropped.
pub const MAX_PARAMS: usize = 32;

/// States of the control-sequence scanner.
#[derive(Clone, Copy, Debug, PartialEq, Eq, Structural)]
pub enum PState {
    /// Printable text and C0 controls.
    Ground,
    /// An ESC byte has been seen.
    Escape,
    /// Inside `ESC [ ... `, collecting parameters.
    Csi,
    /// Inside `ESC ( `, about to consume the charset designator.
    Charset,
}

/// Mathematical view of the scanner.
pub ghost struct ParserModel {
    pub state: PState,
    pub params: Seq<u16>,
    pub cur: u16,
}

/// The control-sequence scanner: recognizes C0 executes and
/// `ESC [ params FINAL` sequences, plus `ESC ( X` charset designation.
pub struct Parser {
    pub state: PState,
    pub params: Vec<u16>,
    pub cur: u16,
}

impl View for Parser {
    type V = ParserModel;

    open spec fn view(&self) -> ParserModel {
        ParserModel { state: self.state, params: self.params@, cur: self.cur }
    }
}

/// Mathematical view of the whole renderer: scanner, current attributes,
/// the row ring with its cursor, the style dictionary, the last styled
/// cell, the HTML emitted so far, and the rows scrolled out so far.
pub ghost struct RenderModel {
    pub parser: ParserModel,
    pub bold: bool,
    pub italic: bool,
    pub underline: bool,
    pub dim: bool,
    pub foreground: Color,
    pub background: Color,
    pub rows: Seq<RowModel>,
    pub cur: nat,
    pub styles: Seq<(Color, bool)>,
    pub prev: Cell,
    pub out: Seq<char>,
    pub history: Seq<Seq<Cell>>,
}

/// The well-formed states: at least one row, never more than the ring
/// bound, the cursor on a row, and no row cursor past its buffer.
pub open spec fn wf_render(m: RenderModel) -> bool {
    &&& 1 <= m.rows.len() <= MAX_ROWS
    &&& m.cur < m.rows.len()
    &&& forall|i: int| 0 <= i < m.rows.len() ==> (#[trigger] m.rows[i]).pos <= m.rows[i].cells.len()
}

/// The state of a freshly created renderer.
pub open spec fn init_render() -> RenderModel {
    RenderModel {
        parser: ParserModel { state: PState::Ground, params: Seq::empty(), cur: 0 },
        bold: false,
        italic: false,
        underline: false,
        dim: false,
        foreground: Color::EightBit(15),
        background: Color::EightBit(0),
        rows: seq![fresh_row()],
        cur: 0,
        styles: Seq::empty(),
        prev: default_cell(),
        out: Seq::empty(),
        history: Seq::empty(),
    }
}

/// The cell that printing `c` under the current attributes produces.
pub open spec fn cur_cell(m: RenderModel, c: char) -> Cell {
    Cell {
        text: c,
        foreground: m.foreground,
        background: m.background,
        bold: m.bold,
        italic: m.italic,
        underline: m.underline,
        dim: m.dim,
    }
}

/// HTML escaping: `<` and `>` become entities, everything else is
/// emitted as is.
pub open spec fn escape_char(c: char) -> Seq<char> {
    if c == '<' {
        "&lt"@
    } else if c == '>' {
        "&gt"@
    } else {
        seq![c]
    }
}

/// The HTML one cell contributes, with the style state it leaves behind:
/// a style change is only emitted for a non-space cell whose bold flag or
/// foreground differs from the previous styled cell.
pub open spec fn cell_html(cell: Cell, prev: Cell, styles: Seq<(Color, bool)>) -> (Seq<char>, Cell, Seq<(Color, bool)>) {
    if cell.text != ' ' {
        if cell.bold != prev.bold || cell.foreground != prev.foreground {
            let (name, styles2) = styles_get(styles, (cell.foreground, cell.bold));
            ("</span><span class='"@ + name + "'>"@ + escape_char(cell.text), cell, styles2)
        } else {
            (escape_char(cell.text), cell, styles)
        }
    } else {
        (escape_char(cell.text), prev, styles)
    }
}

/// The HTML of the first `n` cells of a row, folded left to right.
pub open spec fn row_html_upto(cells: Seq<Cell>, n: int, prev: Cell, styles: Seq<(Color, bool)>) -> (Seq<char>, Cell, Seq<(Color, bool)>)
    decreases n,
{
    if n <= 0 {
        (Seq::<char>::empty(), prev, styles)
    } else {
        let (h1, p1, s1) = row_html_upto(cells, n - 1, prev, styles);
        let (hc, p2, s2) = cell_html(cells[n - 1], p1, s1);
        (h1 + hc, p2, s2)
    }
}

/// The HTML of one whole row, closed by a newline.
pub open spec fn row_html_m(cells: Seq<Cell>, prev: Cell, styles: Seq<(Color, bool)>) -> (Seq<char>, Cell, Seq<(Color, bool)>) {
    let (h, p, s) = row_html_upto(cells, cells.len() as int, prev, styles);
    (h + seq!['\n'], p, s)
}

/// Printing one character into the current row.
pub open spec fn m_print(m: RenderModel, c: char) -> RenderModel {
    let row = m.rows[m.cur as int];
    RenderModel { rows: m.rows.update(m.cur as int, row_print(row, cur_cell(m, c))), ..m }
}

/// A tab prints four spaces.
pub open spec fn m_put_tab(m: RenderModel) -> RenderModel {
    m_print(m_print(m_print(m_print(m, ' '), ' '), ' '), ' ')
}

/// Backspace moves the row cursor left, saturating at column 0.
pub open spec fn m_backspace(m: RenderModel) -> RenderModel {
    let row = m.rows[m.cur as int];
    let p = if row.pos > 0 {
        (row.pos - 1) as nat
    } else {
        0nat
    };
    RenderModel { rows: m.rows.update(m.cur as int, RowModel { pos: p, ..row }), ..m }
}

/// Carriage return moves the row cursor to column 0.
pub open spec fn m_carriage_return(m: RenderModel) -> RenderModel {
    let row = m.rows[m.cur as int];
    RenderModel { rows: m.rows.update(m.cur as int, RowModel { pos: 0, ..row }), ..m }
}

/// A linefeed at the last ring slot evicts the oldest row: its HTML is
/// appended to the output, it is recorded in the history, and a fresh row
/// joins at the tail. Below the bound the cursor just moves down,
/// allocating a row when needed.
pub open spec fn m_linefeed(m: RenderModel) -> RenderModel {
    if m.cur == (MAX_ROWS - 1) as nat {
        let victim = m.rows[0];
        let (h, p2, s2) = row_html_m(victim.cells, m.prev, m.styles);
        RenderModel {
            rows: m.rows.drop_first().push(fresh_row()),
            out: m.out + h,
            prev: p2,
            styles: s2,
            history: m.history.push(victim.cells),
            ..m
        }
    } else if m.cur == (m.rows.len() - 1) as nat {
        RenderModel { rows: m.rows.push(fresh_row()), cur: m.cur + 1, ..m }
    } else {
        RenderModel { cur: m.cur + 1, ..m }
    }
}

/// Erase-in-line: mode 0 truncates after the cursor, mode 1 blanks the
/// cells before it, mode 2 blanks the text of the whole row.
pub open spec fn m_erase_in_line(m: RenderModel, mode: Option<u16>) -> RenderModel {
    let row = m.rows[m.cur as int];
    let md: u16 = match mode {
        Some(v) => v,
        None => 0,
    };
    if md == 0 {
        let cells2 = if row.pos < row.cells.len() {
            row.cells.take(row.pos as int + 1)
        } else {
            row.cells
        };
        RenderModel { rows: m.rows.update(m.cur as int, RowModel { cells: cells2, ..row }), ..m }
    } else if md == 1 {
        let cells2 = row.cells.map(
            |i: int, c: Cell| if i < row.pos { default_cell() } else { c },
        );
        RenderModel { rows: m.rows.update(m.cur as int, RowModel { cells: cells2, ..row }), ..m }
    } else if md == 2 {
        let cells2 = row.cells.map(|i: int, c: Cell| Cell { text: ' ', ..c });
        RenderModel { rows: m.rows.update(m.cur as int, RowModel { cells: cells2, ..row }), ..m }
    } else {
        m
    }
}

/// Erase-in-display is recognized and deliberately left without effect:
/// whole-screen clears are ignored, other modes are unsupported.
pub open spec fn m_erase_in_display(m: RenderModel, mode: Option<u16>) -> RenderModel {
    m
}

/// Cursor up by `n`, saturating at the top row.
pub open spec fn m_move_up(m: RenderModel, n: u16) -> RenderModel {
    let c = if m.cur >= n as nat {
        (m.cur - n as nat) as nat
    } else {
        0nat
    };
    RenderModel { cur: c, ..m }
}

/// Cursor down by `n`: `n` linefeeds, so scroll-out can occur.
pub open spec fn m_move_down(m: RenderModel, n: nat) -> RenderModel
    decreases n,
{
    if n == 0 {
        m
    } else {
        m_move_down(m_linefeed(m), (n - 1) as nat)
    }
}

/// Place the cursor at column index `p`; the row is padded with blank
/// cells up to the new cursor.
pub open spec fn m_set_pos(m: RenderModel, p: nat) -> RenderModel {
    let row = m.rows[m.cur as int];
    let cells2 = if row.cells.len() < p {
        row.cells + Seq::new((p - row.cells.len()) as nat, |i: int| default_cell())
    } else {
        row.cells
    };
    RenderModel { rows: m.rows.update(m.cur as int, RowModel { cells: cells2, pos: p }), ..m }
}

/// Set the cursor column to `n`, 1-based; a zero parameter means
/// column 1.
pub open spec fn m_set_column(m: RenderModel, n: u16) -> RenderModel {
    m_set_pos(
        m,
        if n >= 1 {
            (n - 1) as nat
        } else {
            0nat
        },
    )
}

/// Cursor right by `n` cells: the column grows by exactly `n`,
/// saturating at the machine bound.
pub open spec fn m_move_right(m: RenderModel, n: u16) -> RenderModel {
    let row = m.rows[m.cur as int];
    let p: nat = if row.pos + n <= usize::MAX {
        (row.pos + n) as nat
    } else {
        usize::MAX as nat
    };
    m_set_pos(m, p)
}

/// Cursor left by `n`, saturating at column 0.
pub open spec fn m_move_left(m: RenderModel, n: u16) -> RenderModel {
    let row = m.rows[m.cur as int];
    let p = if row.pos >= n as nat {
        (row.pos - n as nat) as nat
    } else {
        0nat
    };
    RenderModel { rows: m.rows.update(m.cur as int, RowModel { pos: p, ..row }), ..m }
}

/// Absolute cursor move, 1-based in both coordinates; a missing or zero
/// parameter means 1. The cursor lands on row index `row - 1`: upward
/// motion jumps there, downward motion performs linefeeds so scroll-out
/// can occur; then the column is set.
pub open spec fn m_handle_move(m: RenderModel, row: u16, col: u16) -> RenderModel {
    let target: nat = if row >= 1 {
        (row - 1) as nat
    } else {
        0nat
    };
    let moved = if target <= m.cur {
        RenderModel { cur: target, ..m }
    } else {
        m_move_down(m, (target - m.cur) as nat)
    };
    m_set_column(moved, col)
}

/// Select-graphic-rendition parameter 0: all attributes off, bright
/// white on black.
pub open spec fn m_sgr_reset(m: RenderModel) -> RenderModel {
    RenderModel {
        bold: false,
        italic: false,
        underline: false,
        dim: false,
        foreground: Color::EightBit(15),
        background: Color::EightBit(0),
        ..m
    }
}

pub open spec fn with_fg(m: RenderModel, c: Color) -> RenderModel {
    RenderModel { foreground: c, ..m }
}

pub open spec fn with_bg(m: RenderModel, c: Color) -> RenderModel {
    RenderModel { background: c, ..m }
}

/// One pass over the SGR parameters from position `i` on: each
/// recognized parameter updates the attributes; the extended-color forms
/// 38/48 consume their sub-parameters, and ill-formed ones are skipped.
pub open spec fn m_sgr(m: RenderModel, params: Seq<u16>, i: int) -> RenderModel
    decreases params.len() - i,
{
    if i < 0 || i >= params.len() {
        m
    } else {
        let p = params[i];
        if p == 0 {
            m_sgr(m_sgr_reset(m), params, i + 1)
        } else if p == 1 {
            m_sgr(RenderModel { bold: true, ..m }, params, i + 1)
        } else if p == 2 {
            m_sgr(RenderModel { dim: true, ..m }, params, i + 1)
        } else if p == 3 {
            m_sgr(RenderModel { italic: true, ..m }, params, i + 1)
        } else if p == 4 {
            m_sgr(RenderModel { underline: true, ..m }, params, i + 1)
        } else if p == 22 {
            m_sgr(RenderModel { bold: false, dim: false, ..m }, params, i + 1)
        } else if p == 23 {
            m_sgr(RenderModel { italic: false, ..m }, params, i + 1)
        } else if 30 <= p <= 37 {
            m_sgr(with_fg(m, Color::EightBit((p - 30) as u8)), params, i + 1)
        } else if p == 38 || p == 48 {
            if i + 1 < params.len() && params[i + 1] == 5 {
                if i + 2 < params.len() {
                    let m2 = if params[i + 2] <= 255 {
                        let c = Color::EightBit(params[i + 2] as u8);
                        if p == 38 {
                            with_fg(m, c)
                        } else {
                            with_bg(m, c)
                        }
                    } else {
                        m
                    };
                    m_sgr(m2, params, i + 3)
                } else {
                    m
                }
            } else if i + 1 < params.len() && params[i + 1] == 2 {
                if i + 4 < params.len() {
                    let m2 = if params[i + 2] <= 255 && params[i + 3] <= 255 && params[i + 4]
                        <= 255 {
                        let c = Color::Rgb(
                            params[i + 2] as u8,
                            params[i + 3] as u8,
                            params[i + 4] as u8,
                        );
                        if p == 38 {
                            with_fg(m, c)
                        } else {
                            with_bg(m, c)
                        }
                    } else {
                        m
                    };
                    m_sgr(m2, params, i + 5)
                } else {
                    m
                }
            } else if i + 1 < params.len() {
                m_sgr(m, params, i + 2)
            } else {
                m
            }
        } else if p == 39 {
            m_sgr(with_fg(m, Color::EightBit(15)), params, i + 1)
        } else if 40 <= p <= 47 {
            m_sgr(with_bg(m, Color::EightBit((p - 40) as u8)), params, i + 1)
        } else if p == 49 {
            m_sgr(with_bg(m, Color::EightBit(0)), params, i + 1)
        } else if 90 <= p <= 97 {
            m_sgr(with_fg(m, Color::EightBit((p - 90 + 8) as u8)), params, i + 1)
        } else if 100 <= p <= 107 {
            m_sgr(with_bg(m, Color::EightBit((p - 100 + 8) as u8)), params, i + 1)
        } else {
            m_sgr(m, params, i + 1)
        }
    }
}

/// A cursor-motion count parameter: missing and zero both mean 1.
pub open spec fn count_param(n: u16) -> u16 {
    if n == 0 {
        1u16
    } else {
        n
    }
}

/// A motion count as received: zero stands for the default of one.
fn count_exec(n: u16) -> (r: u16)
    ensures
        r == count_param(n),
{
    if n == 0 {
        1
    } else {
        n
    }
}

/// Dispatch of one complete `ESC [ params ACTION` sequence; anything
/// unrecognized is ignored.
pub open spec fn m_csi(m: RenderModel, params: Seq<u16>, action: char) -> RenderModel {
    if action == 'm' {
        m_sgr(m, params, 0)
    } else if action == 'H' {
        let row = if params.len() >= 1 {
            params[0]
        } else {
            1
        };
        let col = if params.len() >= 2 {
            params[1]
        } else {
            1
        };
        m_handle_move(m, row, col)
    } else if action == 'A' {
        if params.len() >= 1 {
            m_move_up(m, count_param(params[0]))
        } else {
            m
        }
    } else if action == 'B' {
        if params.len() >= 1 {
            m_move_down(m, count_param(params[0]) as nat)
        } else {
            m
        }
    } else if action == 'C' {
        if params.len() >= 1 {
            m_move_right(m, count_param(params[0]))
        } else {
            m
        }
    } else if action == 'D' {
        if params.len() >= 1 {
            m_move_left(m, count_param(params[0]))
        } else {
            m
        }
    } else if action == 'J' {
        m_erase_in_display(
            m,
            if params.len() == 1 {
                Some(params[0])
            } else {
                None
            },
        )
    } else if action == 'K' {
        m_erase_in_line(
            m,
            if params.len() == 1 {
                Some(params[0])
            } else {
                None
            },
        )
    } else if action == 'F' {
        let n = if params.len() == 1 {
            count_param(params[0])
        } else {
            1
        };
        m_set_column(m_move_up(m, n), 1)
    } else if action == 'G' {
        let n = if params.len() == 1 {
            params[0]
        } else {
            1
        };
        m_set_column(m, n)
    } else {
        m
    }
}

/// C0 executes: tab, backspace, carriage return, and the linefeed family;
/// everything else is ignored.
pub open spec fn m_execute(m: RenderModel, c: char) -> RenderModel {
    let b = c as u32;
    if b == 9 {
        m_put_tab(m)
    } else if b == 8 {
        m_backspace(m)
    } else if b == 13 {
        m_carriage_return(m)
    } else if b == 10 || b == 11 || b == 12 {
        m_linefeed(m)
    } else {
        m
    }
}

/// Appending a parameter, dropping it once the bound is reached.
pub open spec fn push_param(params: Seq<u16>, v: u16) -> Seq<u16> {
    if params.len() < MAX_PARAMS {
        params.push(v)
    } else {
        params
    }
}

pub open spec fn with_parser(m: RenderModel, p: ParserModel) -> RenderModel {
    RenderModel { parser: p, ..m }
}

pub open spec fn ground_parser() -> ParserModel {
    ParserModel { state: PState::Ground, params: Seq::empty(), cur: 0 }
}

/// One character of input: the scanner either forwards a printable or a
/// C0 execute, or advances through an escape sequence, dispatching it on
/// its final byte. Sequences the honored grammar does not cover are
/// dropped.
pub open spec fn m_step(m: RenderModel, c: char) -> RenderModel {
    let b = c as u32;
    match m.parser.state {
        PState::Ground => {
            if b == 0x1b {
                with_parser(m, ParserModel { state: PState::Escape, ..m.parser })
            } else if b < 0x20 {
                m_execute(m, c)
            } else if b == 0x7f {
                m
            } else {
                m_print(m, c)
            }
        },
        PState::Escape => {
            if c == '[' {
                with_parser(m, ParserModel { state: PState::Csi, params: Seq::empty(), cur: 0 })
            } else if c == '(' {
                with_parser(m, ParserModel { state: PState::Charset, ..m.parser })
            } else if b == 0x1b {
                m
            } else if b < 0x20 {
                m_execute(m, c)
            } else {
                with_parser(m, ParserModel { state: PState::Ground, ..m.parser })
            }
        },
        PState::Csi => {
            if 0x30 <= b && b <= 0x39 {
                let d = (b - 0x30) as u16;
                let v = m.parser.cur as int * 10 + d;
                let cur2: u16 = if v > 0xffff {
                    0xffff
                } else {
                    v as u16
                };
                with_parser(m, ParserModel { cur: cur2, ..m.parser })
            } else if c == ';' {
                with_parser(
                    m,
                    ParserModel { params: push_param(m.parser.params, m.parser.cur), cur: 0, ..m.parser },
                )
            } else if c == '?' {
                m
            } else if 0x40 <= b && b <= 0x7e {
                let ps = push_param(m.parser.params, m.parser.cur);
                m_csi(with_parser(m, ground_parser()), ps, c)
            } else if b < 0x20 {
                m_execute(m, c)
            } else {
                with_parser(m, ParserModel { state: PState::Ground, ..m.parser })
            }
        },
        PState::Charset => with_parser(m, ParserModel { state: PState::Ground, ..m.parser }),
    }
}

/// Feeding a whole sequence of characters, one step at a time.
pub open spec fn m_steps(m: RenderModel, s: Seq<char>) -> RenderModel
    decreases s.len(),
{
    if s.len() == 0 {
        m
    } else {
        m_steps(m_step(m, s[0]), s.drop_first())
    }
}

/// How one renderer state may follow from another: it is well formed,
/// and both the emitted HTML and the history of scrolled-out rows only
/// ever grow at the end — a row handed to the sink is never taken back,
/// reordered or handed out twice.
pub open spec fn evolves(m1: RenderModel, m2: RenderModel) -> bool {
    &&& wf_render(m2)
    &&& m1.history.is_prefix_of(m2.history)
    &&& m1.out.is_prefix_of(m2.out)
}

pub proof fn lemma_evolves_trans(m1: RenderModel, m2: RenderModel, m3: RenderModel)
    requires
        evolves(m1, m2),
        evolves(m2, m3),
    ensures
        evolves(m1, m3),
{
    assert(m1.history =~= m3.history.take(m1.history.len() as int));
    assert(m1.out =~= m3.out.take(m1.out.len() as int));
}

pub proof fn lemma_print_props(m: RenderModel, c: char)
    requires
        wf_render(m),
    ensures
        evolves(m, m_print(m, c)),
{
    assert(m.history.is_prefix_of(m.history));
    assert(m.out.is_prefix_of(m.out));
}

pub proof fn lemma_put_tab_props(m: RenderModel)
    requires
        wf_render(m),
    ensures
        evolves(m, m_put_tab(m)),
{
    lemma_print_props(m, ' ');
    lemma_print_props(m_print(m, ' '), ' ');
    lemma_print_props(m_print(m_print(m, ' '), ' '), ' ');
    lemma_print_props(m_print(m_print(m_print(m, ' '), ' '), ' '), ' ');
}

/// A linefeed preserves the ring bound; when it evicts, it hands exactly
/// the oldest row to the sink, exactly once, recording it at the end of
/// the history.
pub proof fn lemma_linefeed_props(m: RenderModel)
    requires
        wf_render(m),
    ensures
        evolves(m, m_linefeed(m)),
        m_linefeed(m).history == m.history || m_linefeed(m).history == m.history.push(
            m.rows[0].cells,
        ),
        m.cur == (MAX_ROWS - 1) as nat ==> m_linefeed(m).history == m.history.push(
            m.rows[0].cells,
        ) && m_linefeed(m).rows =~= m.rows.drop_first().push(fresh_row()),
{
    if m.cur == (MAX_ROWS - 1) as nat {
        let m2 = m_linefeed(m);
        assert(m.rows.len() == MAX_ROWS);
        assert(m2.rows.len() == MAX_ROWS);
        assert(forall|i: int|
            0 <= i < m2.rows.len() ==> (#[trigger] m2.rows[i]).pos <= m2.rows[i].cells.len())
            by {
            assert(forall|i: int|
                0 <= i < MAX_ROWS - 1 ==> m2.rows[i] == m.rows.drop_first()[i] && m2.rows[i]
                    == m.rows[i + 1]);
        }
        assert(m.history.is_prefix_of(m2.history));
        assert(m.out.is_prefix_of(m2.out));
    } else {
        assert(m.history.is_prefix_of(m.history));
        assert(m.out.is_prefix_of(m.out));
    }
}

pub proof fn lemma_move_down_props(m: RenderModel, n: nat)
    requires
        wf_render(m),
    ensures
        evolves(m, m_move_down(m, n)),
    decreases n,
{
    if n == 0 {
        assert(m.history.is_prefix_of(m.history));
        assert(m.out.is_prefix_of(m.out));
    } else {
        lemma_linefeed_props(m);
        lemma_move_down_props(m_linefeed(m), (n - 1) as nat);
        lemma_evolves_trans(m, m_linefeed(m), m_move_down(m, n));
    }
}

pub proof fn lemma_set_pos_props(m: RenderModel, p: nat)
    requires
        wf_render(m),
    ensures
        evolves(m, m_set_pos(m, p)),
{
    assert(m.history.is_prefix_of(m.history));
    assert(m.out.is_prefix_of(m.out));
}

pub proof fn lemma_set_column_props(m: RenderModel, n: u16)
    requires
        wf_render(m),
    ensures
        evolves(m, m_set_column(m, n)),
{
    lemma_set_pos_props(
        m,
        if n >= 1 {
            (n - 1) as nat
        } else {
            0nat
        },
    );
}

pub proof fn lemma_simple_row_props(m: RenderModel)
    requires
        wf_render(m),
    ensures
        evolves(m, m_backspace(m)),
        evolves(m, m_carriage_return(m)),
        forall|n: u16| evolves(m, #[trigger] m_move_up(m, n)),
        forall|n: u16| evolves(m, #[trigger] m_move_left(m, n)),
        forall|md: Option<u16>| evolves(m, #[trigger] m_erase_in_line(m, md)),
        forall|md: Option<u16>| evolves(m, #[trigger] m_erase_in_display(m, md)),
{
    assert(m.history.is_prefix_of(m.history));
    assert(m.out.is_prefix_of(m.out));
    assert forall|md: Option<u16>| evolves(m, #[trigger] m_erase_in_line(m, md)) by {
        let m2 = m_erase_in_line(m, md);
        assert(wf_render(m2));
    }
}

pub proof fn lemma_move_right_props(m: RenderModel, n: u16)
    requires
        wf_render(m),
    ensures
        evolves(m, m_move_right(m, n)),
{
    let row = m.rows[m.cur as int];
    let p: nat = if row.pos + n <= usize::MAX {
        (row.pos + n) as nat
    } else {
        usize::MAX as nat
    };
    lemma_set_pos_props(m, p);
}

pub proof fn lemma_handle_move_props(m: RenderModel, row: u16, col: u16)
    requires
        wf_render(m),
    ensures
        evolves(m, m_handle_move(m, row, col)),
{
    let target: nat = if row >= 1 {
        (row - 1) as nat
    } else {
        0nat
    };
    if target <= m.cur {
        let moved = RenderModel { cur: target, ..m };
        assert(wf_render(moved));
        assert(m.history.is_prefix_of(moved.history));
        assert(m.out.is_prefix_of(moved.out));
        lemma_set_column_props(moved, col);
        lemma_evolves_trans(m, moved, m_handle_move(m, row, col));
    } else {
        lemma_move_down_props(m, (target - m.cur) as nat);
        lemma_set_column_props(m_move_down(m, (target - m.cur) as nat), col);
        lemma_evolves_trans(
            m,
            m_move_down(m, (target - m.cur) as nat),
            m_handle_move(m, row, col),
        );
    }
}

/// SGR only rewrites the attribute fields: screen, output, styles and
/// history are untouched.
pub proof fn lemma_sgr_same(m: RenderModel, params: Seq<u16>, i: int)
    ensures
        m_sgr(m, params, i).rows == m.rows,
        m_sgr(m, params, i).cur == m.cur,
        m_sgr(m, params, i).out == m.out,
        m_sgr(m, params, i).history == m.history,
        m_sgr(m, params, i).styles == m.styles,
        m_sgr(m, params, i).prev == m.prev,
        m_sgr(m, params, i).parser == m.parser,
    decreases params.len() - i,
{
    if 0 <= i < params.len() {
        let p = params[i];
        if p == 0 {
            lemma_sgr_same(m_sgr_reset(m), params, i + 1);
        } else if p == 1 {
            lemma_sgr_same(RenderModel { bold: true, ..m }, params, i + 1);
        } else if p == 2 {
            lemma_sgr_same(RenderModel { dim: true, ..m }, params, i + 1);
        } else if p == 3 {
            lemma_sgr_same(RenderModel { italic: true, ..m }, params, i + 1);
        } else if p == 4 {
            lemma_sgr_same(RenderModel { underline: true, ..m }, params, i + 1);
        } else if p == 22 {
            lemma_sgr_same(RenderModel { bold: false, dim: false, ..m }, params, i + 1);
        } else if p == 23 {
            lemma_sgr_same(RenderModel { italic: false, ..m }, params, i + 1);
        } else if 30 <= p <= 37 {
            lemma_sgr_same(with_fg(m, Color::EightBit((p - 30) as u8)), params, i + 1);
        } else if p == 38 || p == 48 {
            if i + 1 < params.len() && params[i + 1] == 5 {
                if i + 2 < params.len() {
                    let m2 = if params[i + 2] <= 255 {
                        let c = Color::EightBit(params[i + 2] as u8);
                        if p == 38 {
                            with_fg(m, c)
                        } else {
                            with_bg(m, c)
                        }
                    } else {
                        m
                    };
                    lemma_sgr_same(m2, params, i + 3);
                }
            } else if i + 1 < params.len() && params[i + 1] == 2 {
                if i + 4 < params.len() {
                    let m2 = if params[i + 2] <= 255 && params[i + 3] <= 255 && params[i + 4]
                        <= 255 {
                        let c = Color::Rgb(
                            params[i + 2] as u8,
                            params[i + 3] as u8,
                            params[i + 4] as u8,
                        );
                        if p == 38 {
                            with_fg(m, c)
                        } else {
                            with_bg(m, c)
                        }
                    } else {
                        m
                    };
                    lemma_sgr_same(m2, params, i + 5);
                }
            } else if i + 1 < params.len() {
                lemma_sgr_same(m, params, i + 2);
            }
        } else if p == 39 {
            lemma_sgr_same(with_fg(m, Color::EightBit(15)), params, i + 1);
        } else if 40 <= p <= 47 {
            lemma_sgr_same(with_bg(m, Color::EightBit((p - 40) as u8)), params, i + 1);
        } else if p == 49 {
            lemma_sgr_same(with_bg(m, Color::EightBit(0)), params, i + 1);
        } else if 90 <= p <= 97 {
            lemma_sgr_same(with_fg(m, Color::EightBit((p - 90 + 8) as u8)), params, i + 1);
        } else if 100 <= p <= 107 {
            lemma_sgr_same(with_bg(m, Color::EightBit((p - 100 + 8) as u8)), params, i + 1);
        } else {
            lemma_sgr_same(m, params, i + 1);
        }
    }
}

pub proof fn lemma_sgr_props(m: RenderModel, params: Seq<u16>, i: int)
    requires
        wf_render(m),
    ensures
        evolves(m, m_sgr(m, params, i)),
{
    lemma_sgr_same(m, params, i);
    assert(m.history.is_prefix_of(m_sgr(m, params, i).history));
    assert(m.out.is_prefix_of(m_sgr(m, params, i).out));
}

pub proof fn lemma_csi_props(m: RenderModel, params: Seq<u16>, action: char)
    requires
        wf_render(m),
    ensures
        evolves(m, m_csi(m, params, action)),
{
    assert(m.history.is_prefix_of(m.history));
    assert(m.out.is_prefix_of(m.out));
    if action == 'm' {
        lemma_sgr_props(m, params, 0);
    } else if action == 'H' {
        let row = if params.len() >= 1 {
            params[0]
        } else {
            1u16
        };
        let col = if params.len() >= 2 {
            params[1]
        } else {
            1u16
        };
        lemma_handle_move_props(m, row, col);
    } else if action == 'A' || action == 'D' {
        lemma_simple_row_props(m);
    } else if action == 'B' {
        if params.len() >= 1 {
            lemma_move_down_props(m, count_param(params[0]) as nat);
        }
    } else if action == 'C' {
        if params.len() >= 1 {
            lemma_move_right_props(m, count_param(params[0]));
        }
    } else if action == 'K' || action == 'J' {
        lemma_simple_row_props(m);
    } else if action == 'F' {
        let n = if params.len() == 1 {
            count_param(params[0])
        } else {
            1u16
        };
        lemma_simple_row_props(m);
        lemma_set_column_props(m_move_up(m, n), 1);
        lemma_evolves_trans(m, m_move_up(m, n), m_csi(m, params, action));
    } else if action == 'G' {
        let n = if params.len() == 1 {
            params[0]
        } else {
            1u16
        };
        lemma_set_column_props(m, n);
    }
}

pub proof fn lemma_execute_props(m: RenderModel, c: char)
    requires
        wf_render(m),
    ensures
        evolves(m, m_execute(m, c)),
{
    assert(m.history.is_prefix_of(m.history));
    assert(m.out.is_prefix_of(m.out));
    let b = c as u32;
    if b == 9 {
        lemma_put_tab_props(m);
    } else if b == 8 || b == 13 {
        lemma_simple_row_props(m);
    } else if b == 10 || b == 11 || b == 12 {
        lemma_linefeed_props(m);
    }
}

/// One input character keeps the renderer well formed and only appends
/// to the emitted HTML and to the history of scrolled-out rows.
pub proof fn lemma_step_props(m: RenderModel, c: char)
    requires
        wf_render(m),
    ensures
        evolves(m, m_step(m, c)),
{
    assert(m.history.is_prefix_of(m.history));
    assert(m.out.is_prefix_of(m.out));
    let b = c as u32;
    match m.parser.state {
        PState::Ground => {
            if b == 0x1b {
            } else if b < 0x20 {
                lemma_execute_props(m, c);
            } else if b == 0x7f {
            } else {
                lemma_print_props(m, c);
            }
        },
        PState::Escape => {
            if c == '[' || c == '(' {
            } else if b == 0x1b {
            } else if b < 0x20 {
                lemma_execute_props(m, c);
            }
        },
        PState::Csi => {
            if 0x30 <= b && b <= 0x39 {
            } else if c == ';' || c == '?' {
            } else if 0x40 <= b && b <= 0x7e {
                let ps = push_param(m.parser.params, m.parser.cur);
                lemma_csi_props(with_parser(m, ground_parser()), ps, c);
            } else if b < 0x20 {
                lemma_execute_props(m, c);
            }
        },
        PState::Charset => {},
    }
}

/// The ring bound and the FIFO discipline hold over any whole input: the
/// screen never exceeds its bound, and rows already handed to the sink
/// stay exactly where they are, in order, never repeated.
pub proof fn lemma_steps_props(m: RenderModel, s: Seq<char>)
    requires
        wf_render(m),
    ensures
        evolves(m, m_steps(m, s)),
    decreases s.len(),
{
    if s.len() == 0 {
        assert(m.history.is_prefix_of(m.history));
        assert(m.out.is_prefix_of(m.out));
    } else {
        lemma_step_props(m, s[0]);
        lemma_steps_props(m_step(m, s[0]), s.drop_first());
        lemma_evolves_trans(m, m_step(m, s[0]), m_steps(m, s));
    }
}

/// The HTML of the first `n` rows, rendered in order.
pub open spec fn rows_html_upto(rows: Seq<RowModel>, n: int, prev: Cell, styles: Seq<(Color, bool)>) -> (Seq<char>, Cell, Seq<(Color, bool)>)
    decreases n,
{
    if n <= 0 {
        (Seq::<char>::empty(), prev, styles)
    } else {
        let (h1, p1, s1) = rows_html_upto(rows, n - 1, prev, styles);
        let (h2, p2, s2) = row_html_m(rows[n - 1].cells, p1, s1);
        (h1 + h2, p2, s2)
    }
}

/// Finalizing the buffered output: the rows still on screen are rendered
/// inside one enclosing span, and the screen is reset to a single fresh
/// row.
pub open spec fn m_emit_html(m: RenderModel) -> RenderModel {
    let (h, p, s) = rows_html_upto(m.rows, m.rows.len() as int, m.prev, m.styles);
    RenderModel {
        out: m.out + "<span>"@ + h + "</span>"@,
        prev: p,
        styles: s,
        rows: seq![fresh_row()],
        cur: 0,
        ..m
    }
}

/// The CSS rule for one style-dictionary entry.
pub open spec fn css_rule(idx: int, key: (Color, bool)) -> Seq<char> {
    seq!['.'] + crate::styles::base26(idx as nat) + "{color:"@ + crate::color::spec_color_css(key.0)
        + ";font-weight:"@ + (if key.1 {
        "bold"@
    } else {
        "normal"@
    }) + "}"@ + seq!['\n']
}

/// The CSS rules of the first `n` dictionary entries, in insertion order.
pub open spec fn css_upto(styles: Seq<(Color, bool)>, n: int) -> Seq<char>
    decreases n,
{
    if n <= 0 {
        Seq::<char>::empty()
    } else {
        css_upto(styles, n - 1) + css_rule(n - 1, styles[n - 1])
    }
}

/// The whole CSS block for a style dictionary.
pub open spec fn css_of(styles: Seq<(Color, bool)>) -> Seq<char> {
    css_upto(styles, styles.len() as int)
}

/// The streaming terminal-to-HTML renderer: it owns the scanner, the
/// current attributes, the screen ring, the style dictionary and the
/// output buffer, and consumes input one character at a time.
pub struct Renderer {
    pub name: String,
    pub bold: bool,
    pub italic: bool,
    pub underline: bool,
    pub dim: bool,
    pub foreground: Color,
    pub background: Color,
    current_row: usize,
    rows: Vec<Row>,
    styles: Styles,
    out: Vec<char>,
    prev: Cell,
    parser: Parser,
    history: Ghost<Seq<Seq<Cell>>>,
}

impl View for Renderer {
    type V = RenderModel;

    closed spec fn view(&self) -> RenderModel {
        RenderModel {
            parser: self.parser@,
            bold: self.bold,
            italic: self.italic,
            underline: self.underline,
            dim: self.dim,
            foreground: self.foreground,
            background: self.background,
            rows: Seq::new(self.rows@.len(), |i: int| self.rows@[i]@),
            cur: self.current_row as nat,
            styles: self.styles@,
            prev: self.prev,
            out: self.out@,
            history: self.history@,
        }
    }
}

impl Renderer {
    pub fn new(name: String) -> (r: Self)
        ensures
            r@ == init_render(),
    {
        let r = Renderer {
            name,
            bold: false,
            italic: false,
            underline: false,
            dim: false,
            foreground: Color::bright_white(),
            background: Color::black(),
            current_row: 0,
            rows: {
                let mut v: Vec<Row> = Vec::new();
                v.push(Row::new());
                v
            },
            styles: Styles::new(),
            out: Vec::new(),
            prev: Cell::default(),
            parser: Parser { state: PState::Ground, params: Vec::new(), cur: 0 },
            history: Ghost(Seq::empty()),
        };
        proof {
            assert(r@.rows =~= init_render().rows);
            assert(r@.parser.params =~= init_render().parser.params);
        }
        r
    }

    /// The index of the row under the cursor.
    pub fn current_row(&self) -> (i: usize)
        ensures
            i as nat == self@.cur,
    {
        self.current_row
    }

    /// Print one character at the cursor in the current attributes.
    pub fn print(&mut self, c: char)
        requires
            wf_render(old(self)@),
        ensures
            final(self)@ == m_print(old(self)@, c),
    {
        let cell = Cell {
            text: c,
            background: self.background,
            foreground: self.foreground,
            bold: self.bold,
            italic: self.italic,
            underline: self.underline,
            dim: self.dim,
        };
        let i = self.current_row;
        self.rows[i].print(cell);
        proof {
            assert(final(self)@.rows =~= m_print(old(self)@, c).rows);
        }
    }

    /// A tab prints four spaces.
    pub fn put_tab(&mut self)
        requires
            wf_render(old(self)@),
        ensures
            final(self)@ == m_put_tab(old(self)@),
    {
        proof {
            lemma_print_props(old(self)@, ' ');
            lemma_print_props(m_print(old(self)@, ' '), ' ');
            lemma_print_props(m_print(m_print(old(self)@, ' '), ' '), ' ');
        }
        self.print(' ');
        self.print(' ');
        self.print(' ');
        self.print(' ');
    }

    /// Move the cursor one column left, saturating at column 0.
    pub fn backspace(&mut self)
        requires
            wf_render(old(self)@),
        ensures
            final(self)@ == m_backspace(old(self)@),
    {
        let i = self.current_row;
        let p = self.rows[i].position;
        let np: usize = if p > 0 {
            p - 1
        } else {
            0
        };
        self.rows[i].seek(np);
        proof {
            assert(final(self)@.rows =~= m_backspace(old(self)@).rows);
        }
    }

    /// Move the cursor to column 0.
    pub fn carriage_return(&mut self)
        requires
            wf_render(old(self)@),
        ensures
            final(self)@ == m_carriage_return(old(self)@),
    {
        let i = self.current_row;
        self.rows[i].seek(0);
        proof {
            assert(final(self)@.rows =~= m_carriage_return(old(self)@).rows);
        }
    }

    /// Render one row into the output buffer, reusing the running style
    /// state.
    #[verifier::rlimit(60)]
    fn render_row(&mut self, row: &Row)
        ensures
            final(self)@ == (RenderModel {
                out: old(self)@.out + row_html_m(row@.cells, old(self)@.prev, old(self)@.styles).0,
                prev: row_html_m(row@.cells, old(self)@.prev, old(self)@.styles).1,
                styles: row_html_m(row@.cells, old(self)@.prev, old(self)@.styles).2,
                ..old(self)@
            }),
    {
        let n = row.cells.len();
        let mut i: usize = 0;
        while i < n
            invariant
                n == row.cells@.len(),
                self.name == old(self).name,
                self.bold == old(self).bold,
                self.italic == old(self).italic,
                self.underline == old(self).underline,
                self.dim == old(self).dim,
                self.foreground == old(self).foreground,
                self.background == old(self).background,
                self.current_row == old(self).current_row,
                self.rows == old(self).rows,
                self.parser == old(self).parser,
                self.history == old(self).history,
                i <= n,
                (self.out@, self.prev, self.styles@) == {
                    let (h, p, s) = row_html_upto(
                        row@.cells,
                        i as int,
                        old(self)@.prev,
                        old(self)@.styles,
                    );
                    (old(self)@.out + h, p, s)
                },
            decreases n - i,
        {
            let ghost (h0, p0, s0) = row_html_upto(
                row@.cells,
                i as int,
                old(self)@.prev,
                old(self)@.styles,
            );
            let cell = row.cells[i];
            let ghost (hc, pc, sc) = cell_html(cell, self.prev, self.styles@);
            if cell.text != ' ' {
                if cell.bold != self.prev.bold || cell.foreground != self.prev.foreground {
                    crate::seqs::push_str_chars(&mut self.out, "</span><span class='");
                    let name = self.styles.with(cell.foreground, cell.bold);
                    let mut nv = crate::strutil::chars_of(name.as_str());
                    self.out.append(&mut nv);
                    crate::seqs::push_str_chars(&mut self.out, "'>");
                    proof {
                        assert(self.out@ =~= old(self)@.out + h0 + ("</span><span class='"@
                            + name@ + "'>"@));
                    }
                }
                self.prev = cell;
            }
            let ghost out_mid = self.out@;
            if cell.text == '<' {
                crate::seqs::push_str_chars(&mut self.out, "&lt");
            } else if cell.text == '>' {
                crate::seqs::push_str_chars(&mut self.out, "&gt");
            } else {
                self.out.push(cell.text);
            }
            proof {
                assert(self.out@ =~= out_mid + escape_char(cell.text));
                assert(self.out@ =~= old(self)@.out + (h0 + hc));
                assert((h0 + hc, pc, sc) == row_html_upto(
                    row@.cells,
                    i + 1,
                    old(self)@.prev,
                    old(self)@.styles,
                ));
            }
            i += 1;
        }
        self.out.push('\n');
        proof {
            let (h, p, s) = row_html_upto(row@.cells, n as int, old(self)@.prev, old(self)@.styles);
            assert(self.out@ =~= old(self)@.out + (h + seq!['\n']));
        }
    }

    /// Advance to the next row; at the bottom of a full ring this scrolls
    /// the oldest row out to the HTML output.
    pub fn linefeed(&mut self)
        requires
            wf_render(old(self)@),
        ensures
            final(self)@ == m_linefeed(old(self)@),
    {
        if self.current_row == MAX_ROWS - 1 {
            let row = self.rows.remove(0);
            let ghost mid = self@;
            proof {
                assert forall|k: int|
                    0 <= k < MAX_ROWS - 1 implies mid.rows[k] == old(self)@.rows[k + 1] by {
                    assert(self.rows@[k] == old(self).rows@[k + 1]);
                }
            }
            self.render_row(&row);
            let ghost pre_push = self@;
            let ghost pre_vec = self.rows@;
            let mut row = row;
            let ghost victim = row@.cells;
            row.clear();
            self.rows.push(row);
            proof {
                self.history@ = self.history@.push(victim);
                assert(mid.rows.len() == (MAX_ROWS - 1) as nat);
                assert(pre_push.rows == mid.rows);
                assert(pre_vec.len() == pre_push.rows.len());
                assert(self.rows@.len() == MAX_ROWS as nat);
                assert forall|k: int|
                    0 <= k < MAX_ROWS implies self@.rows[k] == m_linefeed(old(self)@).rows[k] by {
                    if k < MAX_ROWS - 1 {
                        assert(self@.rows[k] == self.rows@[k]@);
                        assert(self.rows@[k] == pre_vec[k]);
                        assert(pre_vec[k]@ == pre_push.rows[k]);
                        assert(pre_push.rows[k] == mid.rows[k]);
                        assert(old(self)@.rows.drop_first()[k] == old(self)@.rows[k + 1]);
                    } else {
                        assert(self.rows@[k]@ == fresh_row());
                    }
                }
                assert(self@.rows =~= m_linefeed(old(self)@).rows);
                assert(self@.history =~= m_linefeed(old(self)@).history);
            }
        } else if self.current_row == self.rows.len() - 1 {
            self.rows.push(Row::new());
            self.current_row = self.current_row + 1;
            proof {
                assert(final(self)@.rows =~= m_linefeed(old(self)@).rows);
            }
        } else {
            self.current_row = self.current_row + 1;
            proof {
                assert(final(self)@.rows =~= m_linefeed(old(self)@).rows);
            }
        }
    }

    /// Whole-screen erase requests are recognized and ignored.
    pub fn erase_in_display(&mut self, mode: Option<u16>)
        requires
            wf_render(old(self)@),
        ensures
            final(self)@ == m_erase_in_display(old(self)@, mode),
    {
    }

    /// Erase within the current row: truncate after the cursor, blank
    /// before it, or blank the whole row.
    pub fn erase_in_line(&mut self, mode: Option<u16>)
        requires
            wf_render(old(self)@),
        ensures
            final(self)@ == m_erase_in_line(old(self)@, mode),
    {
        let md: u16 = match mode {
            Some(v) => v,
            None => 0,
        };
        let i = self.current_row;
        if md == 0 {
            self.rows[i].trunc_line();
            proof {
                assert(final(self)@.rows =~= m_erase_in_line(old(self)@, mode).rows);
            }
        } else if md == 1 {
            self.rows[i].blank_before();
            proof {
                assert(final(self)@.rows =~= m_erase_in_line(old(self)@, mode).rows);
            }
        } else if md == 2 {
            self.rows[i].erase();
            proof {
                assert(final(self)@.rows =~= m_erase_in_line(old(self)@, mode).rows);
            }
        } else {
            proof {
                assert(final(self)@.rows =~= m_erase_in_line(old(self)@, mode).rows);
            }
        }
    }

    /// Absolute cursor positioning, 1-based.
    pub fn handle_move(&mut self, row: u16, col: u16)
        requires
            wf_render(old(self)@),
        ensures
            final(self)@ == m_handle_move(old(self)@, row, col),
    {
        let target: usize = if row >= 1 {
            (row - 1) as usize
        } else {
            0
        };
        if target <= self.current_row {
            let diff = self.current_row - target;
            self.move_up_by(diff as u16);
            proof {
                assert(self@ == (RenderModel { cur: target as nat, ..old(self)@ }));
                assert(wf_render(self@));
            }
        } else {
            let diff = target - self.current_row;
            self.move_down_by(diff as u16);
            proof {
                lemma_move_down_props(old(self)@, diff as nat);
            }
        }
        self.set_column(col);
    }

    /// Cursor up, saturating at the top of the screen.
    pub fn move_up_by(&mut self, cells: u16)
        requires
            wf_render(old(self)@),
        ensures
            final(self)@ == m_move_up(old(self)@, cells),
    {
        let n = cells as usize;
        if self.current_row >= n {
            self.current_row = self.current_row - n;
        } else {
            self.current_row = 0;
        }
    }

    /// Cursor down: repeated linefeeds, so scroll-out may occur.
    pub fn move_down_by(&mut self, cells: u16)
        requires
            wf_render(old(self)@),
        ensures
            final(self)@ == m_move_down(old(self)@, cells as nat),
    {
        let mut j: u16 = 0;
        proof {
            lemma_move_down_shift(old(self)@, cells as nat);
        }
        while j < cells
            invariant
                j <= cells,
                wf_render(self@),
                m_move_down(old(self)@, cells as nat) == m_move_down(
                    self@,
                    (cells - j) as nat,
                ),
            decreases cells - j,
        {
            proof {
                lemma_linefeed_props(self@);
                lemma_move_down_shift(m_linefeed(self@), (cells - j - 1) as nat);
            }
            self.linefeed();
            j += 1;
        }
    }

    /// Cursor right: a saturating 1-based column set.
    pub fn move_right_by(&mut self, cells: u16)
        requires
            wf_render(old(self)@),
        ensures
            final(self)@ == m_move_right(old(self)@, cells),
    {
        let i = self.current_row;
        let pos = self.rows[i].position;
        let p = pos.saturating_add(cells as usize);
        self.rows[i].set_col(p);
        proof {
            assert(final(self)@.rows =~= m_move_right(old(self)@, cells).rows);
        }
    }

    /// Cursor left, saturating at column 0.
    pub fn move_left_by(&mut self, cells: u16)
        requires
            wf_render(old(self)@),
        ensures
            final(self)@ == m_move_left(old(self)@, cells),
    {
        let i = self.current_row;
        let p = self.rows[i].position;
        let n = cells as usize;
        let np: usize = if p >= n {
            p - n
        } else {
            0
        };
        self.rows[i].seek(np);
        proof {
            assert(final(self)@.rows =~= m_move_left(old(self)@, cells).rows);
        }
    }

    /// Set the cursor column, 1-based; the row is padded out to the new
    /// cursor.
    pub fn set_column(&mut self, cells: u16)
        requires
            wf_render(old(self)@),
        ensures
            final(self)@ == m_set_column(old(self)@, cells),
    {
        let p: usize = if cells >= 1 {
            (cells - 1) as usize
        } else {
            0
        };
        let i = self.current_row;
        self.rows[i].set_col(p);
        proof {
            assert(final(self)@.rows =~= m_set_column(old(self)@, cells).rows);
        }
    }
}

/// Unrolling one linefeed out of a positive repetition count.
pub proof fn lemma_move_down_shift(m: RenderModel, n: nat)
    ensures
        n > 0 ==> m_move_down(m, n) == m_move_down(m_linefeed(m), (n - 1) as nat),
{
}

impl Renderer {
    /// Apply one C0 control character.
    pub fn execute(&mut self, byte: char)
        requires
            wf_render(old(self)@),
        ensures
            final(self)@ == m_execute(old(self)@, byte),
    {
        let b = byte as u32;
        if b == 9 {
            self.put_tab();
        } else if b == 8 {
            self.backspace();
        } else if b == 13 {
            self.carriage_return();
        } else if b == 10 || b == 11 || b == 12 {
            self.linefeed();
        }
    }

    /// Walk the SGR parameter list, updating the current attributes.
    fn sgr_params(&mut self, params: &Vec<u16>)
        requires
            wf_render(old(self)@),
        ensures
            final(self)@ == m_sgr(old(self)@, params@, 0),
    {
        let n = params.len();
        let mut i: usize = 0;
        while i < n
            invariant
                n == params@.len(),
                i <= n,
                wf_render(self@),
                m_sgr(old(self)@, params@, 0) == m_sgr(self@, params@, i as int),
            decreases n - i,
        {
            let ghost v = self@;
            let p = params[i];
            if p == 0 {
                self.bold = false;
                self.italic = false;
                self.underline = false;
                self.dim = false;
                self.foreground = Color::bright_white();
                self.background = Color::black();
                proof {
                    assert(self@ == m_sgr_reset(v));
                }
                i += 1;
            } else if p == 1 {
                self.bold = true;
                i += 1;
            } else if p == 2 {
                self.dim = true;
                i += 1;
            } else if p == 3 {
                self.italic = true;
                i += 1;
            } else if p == 4 {
                self.underline = true;
                i += 1;
            } else if p == 22 {
                self.bold = false;
                self.dim = false;
                i += 1;
            } else if p == 23 {
                self.italic = false;
                i += 1;
            } else if 30 <= p && p <= 37 {
                self.foreground = Color::EightBit((p - 30) as u8);
                i += 1;
            } else if p == 38 || p == 48 {
                if n - i > 1 && params[i + 1] == 5 {
                    if n - i > 2 {
                        match Color::parse_8bit(params[i + 2]) {
                            Some(c) => {
                                if p == 38 {
                                    self.foreground = c;
                                } else {
                                    self.background = c;
                                }
                            },
                            None => {},
                        }
                        i += 3;
                    } else {
                        i = n;
                    }
                } else if n - i > 1 && params[i + 1] == 2 {
                    if n - i > 4 {
                        match Color::parse_rgb(params[i + 2], params[i + 3], params[i + 4]) {
                            Some(c) => {
                                if p == 38 {
                                    self.foreground = c;
                                } else {
                                    self.background = c;
                                }
                            },
                            None => {},
                        }
                        i += 5;
                    } else {
                        i = n;
                    }
                } else if n - i > 1 {
                    i += 2;
                } else {
                    i = n;
                }
            } else if p == 39 {
                self.foreground = Color::bright_white();
                i += 1;
            } else if 40 <= p && p <= 47 {
                self.background = Color::EightBit((p - 40) as u8);
                i += 1;
            } else if p == 49 {
                self.background = Color::black();
                i += 1;
            } else if 90 <= p && p <= 97 {
                self.foreground = Color::EightBit((p - 90 + 8) as u8);
                i += 1;
            } else if 100 <= p && p <= 107 {
                self.background = Color::EightBit((p - 100 + 8) as u8);
                i += 1;
            } else {
                i += 1;
            }
        }
    }

    /// Apply one complete control sequence.
    pub fn csi_dispatch(&mut self, params: &Vec<u16>, action: char)
        requires
            wf_render(old(self)@),
        ensures
            final(self)@ == m_csi(old(self)@, params@, action),
    {
        if action == 'm' {
            self.sgr_params(params);
        } else if action == 'H' {
            let row = if params.len() >= 1 {
                params[0]
            } else {
                1
            };
            let col = if params.len() >= 2 {
                params[1]
            } else {
                1
            };
            self.handle_move(row, col);
        } else if action == 'A' {
            if params.len() >= 1 {
                self.move_up_by(count_exec(params[0]));
            }
        } else if action == 'B' {
            if params.len() >= 1 {
                self.move_down_by(count_exec(params[0]));
            }
        } else if action == 'C' {
            if params.len() >= 1 {
                self.move_right_by(count_exec(params[0]));
            }
        } else if action == 'D' {
            if params.len() >= 1 {
                self.move_left_by(count_exec(params[0]));
            }
        } else if action == 'J' {
            let md = if params.len() == 1 {
                Some(params[0])
            } else {
                None
            };
            self.erase_in_display(md);
        } else if action == 'K' {
            let md = if params.len() == 1 {
                Some(params[0])
            } else {
                None
            };
            self.erase_in_line(md);
        } else if action == 'F' {
            let nn = if params.len() == 1 {
                count_exec(params[0])
            } else {
                1
            };
            self.move_up_by(nn);
            proof {
                lemma_simple_row_props(old(self)@);
            }
            self.set_column(1);
        } else if action == 'G' {
            let nn = if params.len() == 1 {
                params[0]
            } else {
                1
            };
            self.set_column(nn);
        }
    }

    /// Feed one character of raw input through the scanner.
    pub fn feed_char(&mut self, c: char)
        requires
            wf_render(old(self)@),
        ensures
            final(self)@ == m_step(old(self)@, c),
            wf_render(final(self)@),
    {
        proof {
            lemma_step_props(old(self)@, c);
        }
        let b = c as u32;
        match self.parser.state {
            PState::Ground => {
                if b == 0x1b {
                    self.parser.state = PState::Escape;
                } else if b < 0x20 {
                    self.execute(c);
                } else if b == 0x7f {
                } else {
                    self.print(c);
                }
            },
            PState::Escape => {
                if c == '[' {
                    self.parser.state = PState::Csi;
                    self.parser.params.clear();
                    self.parser.cur = 0;
                    proof {
                        assert(self@.parser.params =~= Seq::<u16>::empty());
                    }
                } else if c == '(' {
                    self.parser.state = PState::Charset;
                } else if b == 0x1b {
                } else if b < 0x20 {
                    self.execute(c);
                } else {
                    self.parser.state = PState::Ground;
                }
            },
            PState::Csi => {
                if 0x30 <= b && b <= 0x39 {
                    let d = (b - 0x30) as u16;
                    let v: u32 = self.parser.cur as u32 * 10 + d as u32;
                    self.parser.cur = if v > 0xffff {
                        0xffff
                    } else {
                        v as u16
                    };
                } else if c == ';' {
                    if self.parser.params.len() < MAX_PARAMS {
                        self.parser.params.push(self.parser.cur);
                    }
                    self.parser.cur = 0;
                } else if c == '?' {
                } else if 0x40 <= b && b <= 0x7e {
                    if self.parser.params.len() < MAX_PARAMS {
                        let cur = self.parser.cur;
                        self.parser.params.push(cur);
                    }
                    let mut params: Vec<u16> = Vec::new();
                    core::mem::swap(&mut params, &mut self.parser.params);
                    self.parser.state = PState::Ground;
                    self.parser.cur = 0;
                    proof {
                        assert(self@.parser =~= ground_parser());
                        assert(self@.parser.params =~= Seq::<u16>::empty());
                        assert(params@ == push_param(old(self)@.parser.params, old(
                            self,
                        )@.parser.cur));
                    }
                    self.csi_dispatch(&params, c);
                } else if b < 0x20 {
                    self.execute(c);
                } else {
                    self.parser.state = PState::Ground;
                }
            },
            PState::Charset => {
                self.parser.state = PState::Ground;
            },
        }
    }

    /// Feed a buffer of characters in order.
    pub fn feed_chars(&mut self, cs: &Vec<char>)
        requires
            wf_render(old(self)@),
        ensures
            final(self)@ == m_steps(old(self)@, cs@),
            wf_render(final(self)@),
    {
        let n = cs.len();
        let mut i: usize = 0;
        proof {
            assert(cs@.skip(0) =~= cs@);
        }
        while i < n
            invariant
                n == cs@.len(),
                i <= n,
                wf_render(self@),
                m_steps(old(self)@, cs@) == m_steps(self@, cs@.skip(i as int)),
            decreases n - i,
        {
            proof {
                assert(cs@.skip(i as int).drop_first() =~= cs@.skip(i as int + 1));
                assert(cs@.skip(i as int)[0] == cs@[i as int]);
            }
            self.feed_char(cs[i]);
            i += 1;
        }
        proof {
            assert(cs@.skip(n as int) =~= Seq::<char>::empty());
        }
    }

    /// Feed a whole string of input.
    pub fn feed_str(&mut self, s: &str)
        requires
            wf_render(old(self)@),
        ensures
            final(self)@ == m_steps(old(self)@, s@),
            wf_render(final(self)@),
    {
        let cs = crate::strutil::chars_of(s);
        self.feed_chars(&cs);
    }

    /// Render the rows still on screen inside one enclosing span and
    /// reset the screen to a single fresh row.
    pub fn emit_html(&mut self)
        requires
            wf_render(old(self)@),
        ensures
            final(self)@ == m_emit_html(old(self)@),
            wf_render(final(self)@),
    {
        crate::seqs::push_str_chars(&mut self.out, "<span>");
        let ghost mut k: int = 0;
        while self.rows.len() > 0
            invariant
                0 <= k <= old(self)@.rows.len(),
                self@.rows =~= old(self)@.rows.skip(k),
                self@.bold == old(self)@.bold,
                self@.italic == old(self)@.italic,
                self@.underline == old(self)@.underline,
                self@.dim == old(self)@.dim,
                self@.foreground == old(self)@.foreground,
                self@.background == old(self)@.background,
                self@.cur == old(self)@.cur,
                self@.parser == old(self)@.parser,
                self@.history == old(self)@.history,
                (self.out@, self.prev, self.styles@) == {
                    let (h, p, s) = rows_html_upto(
                        old(self)@.rows,
                        k,
                        old(self)@.prev,
                        old(self)@.styles,
                    );
                    (old(self)@.out + "<span>"@ + h, p, s)
                },
            decreases self.rows@.len(),
        {
            let ghost pre_rows = self.rows@;
            let row = self.rows.remove(0);
            proof {
                let all = old(self)@.rows;
                assert(all.skip(k).len() == all.len() - k);
                assert(pre_rows.len() == all.len() - k);
                assert(row == pre_rows[0]);
                vstd::seq_lib::lemma_seq_skip_index::<RowModel>(all, k, 0);
                assert(pre_rows[0]@ == all.skip(k)[0]);
                assert(all.skip(k)[0] == all[k]);
                assert forall|j: int|
                    0 <= j < self.rows@.len() implies self@.rows[j] == all.skip(k + 1)[j] by {
                    assert(self.rows@[j] == pre_rows[j + 1]);
                    vstd::seq_lib::lemma_seq_skip_index::<RowModel>(all, k, j + 1);
                    vstd::seq_lib::lemma_seq_skip_index::<RowModel>(all, k + 1, j);
                    assert(pre_rows[j + 1]@ == all.skip(k)[j + 1]);
                    assert(all.skip(k)[j + 1] == all[j + 1 + k]);
                    assert(all.skip(k + 1)[j] == all[j + k + 1]);
                }
                assert(self@.rows =~= all.skip(k + 1));
            }
            self.render_row(&row);
            proof {
                let (h, p, st) = rows_html_upto(
                    old(self)@.rows,
                    k,
                    old(self)@.prev,
                    old(self)@.styles,
                );
                let (h2, p2, st2) = rows_html_upto(
                    old(self)@.rows,
                    k + 1,
                    old(self)@.prev,
                    old(self)@.styles,
                );
                assert(self.out@ =~= old(self)@.out + "<span>"@ + h2);
                k = k + 1;
            }
        }
        proof {
            assert(k == old(self)@.rows.len());
        }
        crate::seqs::push_str_chars(&mut self.out, "</span>");
        self.rows.push(Row::new());
        self.current_row = 0;
        proof {
            let (h, p, st) = rows_html_upto(
                old(self)@.rows,
                old(self)@.rows.len() as int,
                old(self)@.prev,
                old(self)@.styles,
            );
            assert(self.out@ =~= old(self)@.out + "<span>"@ + h + "</span>"@);
            assert(self@.rows =~= seq![fresh_row()]);
        }
    }

    /// Hand the buffered HTML out as a string, leaving the buffer empty.
    pub fn take_output(&mut self) -> (r: String)
        ensures
            r@ == old(self)@.out,
            final(self)@ == (RenderModel { out: Seq::<char>::empty(), ..old(self)@ }),
    {
        let mut v: Vec<char> = Vec::new();
        core::mem::swap(&mut v, &mut self.out);
        proof {
            assert(self@.out =~= Seq::<char>::empty());
        }
        crate::strutil::string_from_chars(&v)
    }

    /// Hand the buffered HTML out as characters, leaving the buffer
    /// empty.
    pub fn take_output_chars(&mut self) -> (r: Vec<char>)
        ensures
            r@ == old(self)@.out,
            final(self)@ == (RenderModel { out: Seq::<char>::empty(), ..old(self)@ }),
    {
        let mut v: Vec<char> = Vec::new();
        core::mem::swap(&mut v, &mut self.out);
        proof {
            assert(self@.out =~= Seq::<char>::empty());
        }
        v
    }

    /// The CSS block for every style class handed out so far, in
    /// insertion order.
    pub fn emit_css(&self) -> (r: String)
        ensures
            r@ == css_of(self@.styles),
    {
        let mut out: Vec<char> = Vec::new();
        let n = self.styles.known.len();
        let mut i: usize = 0;
        while i < n
            invariant
                n == self.styles@.len(),
                i <= n,
                out@ == css_upto(self.styles@, i as int),
            decreases n - i,
        {
            let (color, bold) = self.styles.known[i];
            let ghost key = self.styles@[i as int];
            out.push('.');
            let name = crate::styles::class_name(i);
            let mut nv = crate::strutil::chars_of(name.as_str());
            out.append(&mut nv);
            crate::seqs::push_str_chars(&mut out, "{color:");
            let cs = color.as_str();
            let mut cv = crate::strutil::chars_of(cs.as_str());
            out.append(&mut cv);
            crate::seqs::push_str_chars(&mut out, ";font-weight:");
            if bold {
                crate::seqs::push_str_chars(&mut out, "bold");
            } else {
                crate::seqs::push_str_chars(&mut out, "normal");
            }
            crate::seqs::push_str_chars(&mut out, "}");
            out.push('\n');
            proof {
                assert(key == (color, bold));
                assert(out@ =~= css_upto(self.styles@, i as int + 1));
            }
            i += 1;
        }
        crate::strutil::string_from_chars(&out)
    }
}

} // verus!
