pub mod constants;
pub mod graph;
pub mod graph_eq;
pub mod sci_error;
pub mod sci_mode;

use vstd::prelude::*;
use vstd::utf8::is_ascii_chars;
use vstd::std_specs::iter::IteratorSpec;
use crate::gui::constants::{ConstantsState, ConstantsModel};
use crate::gui::graph_eq::{GraphEqState, GraphEqModel};
use crate::gui::sci_error::SciErrorState;
use crate::gui::sci_mode::{SciModeState, SciModel};
use crate::parser::ExpressionError;

verus! {

/// 128 px wide by 64 px tall.
pub const DISPLAY_WIDTH: usize = 128;

pub const DISPLAY_HEIGHT: usize = 64;

/// 16 characters across by 4 lines.
pub const DISPLAY_TEXT_WIDTH: usize = 16;

pub const DISPLAY_TEXT_HEIGHT: usize = 4;

/// The screen the calculator shows.
#[derive(Debug, Clone, Copy, PartialEq, Eq, Structural)]
pub enum CalculatorMenu {
    Sci,
    SciError,
    GraphEq,
    Graph,
    Constants,
}

/// The state of the calculator's screens, keyboard modifiers and texts.
pub struct CalculatorState {
    pub second: bool,
    pub alpha: bool,
    pub degrees: bool,
    pub mode: CalculatorMenu,
    pub sci_state: SciModeState,
    pub sci_err_state: SciErrorState,
    pub constants_state: ConstantsState,
    pub graph_eq_state: GraphEqState,
}

/// The model of the calculator's state.
pub struct CalcModel {
    pub second: bool,
    pub alpha: bool,
    pub degrees: bool,
    pub mode: CalculatorMenu,
    pub sci: SciModel,
    pub error: ExpressionError,
    pub constants: ConstantsModel,
    pub graph_eq: GraphEqModel,
}

impl CalculatorState {
    pub open spec fn model(&self) -> CalcModel {
        CalcModel {
            second: self.second,
            alpha: self.alpha,
            degrees: self.degrees,
            mode: self.mode,
            sci: self.sci_state.model(),
            error: self.sci_err_state.0,
            constants: self.constants_state.model(),
            graph_eq: self.graph_eq_state.model(),
        }
    }

    /// What every screen keeps true of its own state; an error position is a
    /// column the cursor can be put on.
    pub open spec fn wf(&self) -> bool {
        &&& self.sci_err_state.0 matches ExpressionError::InvalidSyntax(p) ==> p <= isize::MAX
        &&& self.sci_state.wf()
        &&& self.constants_state.wf()
        &&& self.graph_eq_state.wf()
    }

    /// The state at power-on: the scientific screen, an empty line.
    pub fn new() -> (r: Self)
        ensures
            r.wf(),
            !r.second && !r.alpha && !r.degrees,
            r.mode == CalculatorMenu::Sci,
            r.sci_state.model() == SciModeState::new_model(),
            r.sci_err_state.0 == ExpressionError::DivisionByZero,
            r.constants_state.model() == ConstantsState::new_model(),
            r.graph_eq_state.model() == GraphEqState::new_model(),
    {
        Self {
            second: false,
            alpha: false,
            degrees: false,
            mode: CalculatorMenu::Sci,
            sci_state: SciModeState::new(),
            sci_err_state: SciErrorState::new(),
            constants_state: ConstantsState::new(),
            graph_eq_state: GraphEqState::new(),
        }
    }
}

/// One write to the display over SPI: an instruction byte, a data byte, or
/// the end of the transmission.
#[derive(Debug, Clone, Copy, PartialEq, Eq, Structural)]
pub enum DisplayWrite {
    Instruction(u8),
    Data(u8),
    End,
}

pub open spec fn spec_encode(w: DisplayWrite) -> Seq<u8> {
    match w {
        DisplayWrite::Instruction(x) => seq![0x81u8, x],
        DisplayWrite::Data(x) => seq![0x82u8, x],
        DisplayWrite::End => seq![0x00u8],
    }
}

impl DisplayWrite {
    /// The bytes sent for this write: `0x81` before an instruction, `0x82`
    /// before data, a lone `0x00` at the end.
    pub fn encode(&self) -> (r: Vec<u8>)
        ensures
            r@ == spec_encode(*self),
    {
        match *self {
            DisplayWrite::Instruction(x) => vec![0x81u8, x],
            DisplayWrite::Data(x) => vec![0x82u8, x],
            DisplayWrite::End => vec![0x00u8],
        }
    }
}

/// The text address of the start of column `col` (two characters per
/// address) on row `row`: the rows start at `0x80`, `0x90`, `0x88`, `0x98`.
pub open spec fn cursor_index(row: u8, col: u8) -> u8 {
    (0x80 + 16 * (row % 2) + 8 * ((row / 2) % 2) + (col % 16) / 2) as u8
}

/// The display address of character position (`row`, `col`).
pub fn get_cursor_index(row: u8, col: u8) -> (r: u8)
    ensures
        r == cursor_index(row, col),
{
    let c = (col & 0x0F) / 2;
    let rw = row & 0x03;
    let mut data = 0x80 | ((rw & 0x01) << 4);
    data |= (rw & 0x02) << 2;
    data |= c;
    assert(data == (0x80 + 16 * (row % 2) + 8 * ((row / 2) % 2) + (col % 16) / 2) as u8)
        by (bit_vector)
        requires
            c == (col & 0x0Fu8) / 2,
            rw == row & 0x03u8,
            data == 0x80u8 | ((rw & 0x01u8) << 4u8) | ((rw & 0x02u8) << 2u8) | c,
    ;
    data
}

/// The writes that blank the graphics memory: for each of the 32 rows its
/// address, then 32 zero bytes.
pub open spec fn clear_gdram_writes() -> Seq<DisplayWrite> {
    Seq::new(
        32 * 34,
        |k: int|
            if k % 34 == 0 {
                DisplayWrite::Instruction((0x80 + k / 34) as u8)
            } else if k % 34 == 1 {
                DisplayWrite::Instruction(0x80)
            } else {
                DisplayWrite::Data(0)
            },
    )
}

/// Appends the writes that blank the graphics memory.
pub fn clear_gdram(out: &mut Vec<DisplayWrite>)
    ensures
        final(out)@ == old(out)@ + clear_gdram_writes(),
{
    let ghost start = out@;
    let ghost all = clear_gdram_writes();
    for i in 0..32u8
        invariant
            all == clear_gdram_writes(),
            out@ == start + all.take(i * 34),
    {
        assert(0x80u8 | i == 0x80u8 + i) by (bit_vector)
            requires
                i < 32;
        out.push(DisplayWrite::Instruction(0x80 | i));
        out.push(DisplayWrite::Instruction(0x80));
        assert(all[i * 34] == DisplayWrite::Instruction((0x80 + i) as u8));
        assert(all[i * 34 + 1] == DisplayWrite::Instruction(0x80));
        assert(out@ =~= start + all.take(i * 34 + 2));
        for j in 0..16u8
            invariant
                0 <= i < 32,
                all == clear_gdram_writes(),
                out@ == start + all.take(i * 34 + 2 + j * 2),
        {
            out.push(DisplayWrite::Data(0x00));
            out.push(DisplayWrite::Data(0x00));
            assert(all[i * 34 + 2 + j * 2] == DisplayWrite::Data(0));
            assert(all[i * 34 + 3 + j * 2] == DisplayWrite::Data(0));
            assert(out@ =~= start + all.take(i * 34 + 2 + (j + 1) * 2));
        }
    }
    assert(all.take(32 * 34int) =~= all);
}

/// Appends the characters of an ASCII text as data writes.
pub fn push_text(out: &mut Vec<DisplayWrite>, text: &str)
    requires
        is_ascii_chars(text@),
    ensures
        final(out)@ == old(out)@ + text_writes(text@),
{
    broadcast use vstd::string::group_string_axioms;
    let ghost start = out@;
    let mut chars = text.chars();
    let ghost mut i: int = 0;
    loop
        invariant
            0 <= i <= text@.len(),
            start == old(out)@,
            is_ascii_chars(text@),
            chars.remaining() == text@.skip(i),
            out@ == start + text_writes(text@.take(i)),
        decreases text@.len() - i,
    {
        let ghost rest = text@.skip(i);
        match chars.next() {
            None => {
                assert(text@.take(i) =~= text@);
                return;
            },
            Some(c) => {
                assert(c == text@[i]);
                assert(rest.drop_first() =~= text@.skip(i + 1));
                out.push(DisplayWrite::Data(c as u8));
                assert(text_writes(text@.take(i + 1)) =~= text_writes(text@.take(i)).push(
                    DisplayWrite::Data(c as u8),
                ));
                proof {
                    i = i + 1;
                }
            },
        }
    }
}

/// One data write per character.
pub open spec fn text_writes(t: Seq<char>) -> Seq<DisplayWrite> {
    t.map_values(|c: char| DisplayWrite::Data(c as u8))
}

/// `n` copies of `w`.
pub open spec fn repeat(w: DisplayWrite, n: nat) -> Seq<DisplayWrite> {
    Seq::new(n, |_i: int| w)
}

pub fn push_repeat(out: &mut Vec<DisplayWrite>, w: DisplayWrite, n: usize)
    ensures
        final(out)@ == old(out)@ + repeat(w, n as nat),
{
    let ghost start = out@;
    for i in 0..n
        invariant
            out@ == start + repeat(w, i as nat),
    {
        out.push(w);
        assert(out@ =~= start + repeat(w, (i + 1) as nat));
    }
}

/// One line of the highlight bar on text row `y`: its graphics address, then
/// 16 filled bytes.
pub open spec fn bar_line(y: int, vert: int) -> Seq<DisplayWrite> {
    let address = y * 16 + vert;
    seq![
        DisplayWrite::Instruction((0x80 + address % 32) as u8),
        DisplayWrite::Instruction(if address >= 32 { 0x88u8 } else { 0x80u8 }),
    ] + repeat(DisplayWrite::Data(0xFF), 16)
}

/// Lines 1 up to `vert` (excluded) of the highlight bar on text row `y`.
pub open spec fn bar_lines(y: int, vert: int) -> Seq<DisplayWrite>
    decreases vert,
{
    if vert <= 1 {
        Seq::empty()
    } else {
        bar_lines(y, vert - 1) + bar_line(y, vert - 1)
    }
}

/// Texts on consecutive display rows from the top, each after the address of
/// its row.
pub open spec fn rows_writes(texts: Seq<Seq<char>>) -> Seq<DisplayWrite>
    decreases texts.len(),
{
    if texts.len() == 0 {
        Seq::empty()
    } else {
        rows_writes(texts.drop_last()) + seq![
            DisplayWrite::Instruction(cursor_index((texts.len() - 1) as u8, 0)),
        ] + text_writes(texts.last())
    }
}

/// The first of `width` visible positions after scrolling just enough to show
/// `cursor`, the first being `offset` before.
pub open spec fn scroll_to_show(offset: int, cursor: int, width: int) -> int {
    if cursor - offset < 0 {
        cursor
    } else if cursor - offset >= width {
        cursor - (width - 1)
    } else {
        offset
    }
}

/// Scrolling shows the cursor, and moves nothing when it was shown already.
pub proof fn law_scroll_shows_cursor(offset: int, cursor: int, width: int)
    requires
        width >= 1,
    ensures
        0 <= cursor - scroll_to_show(offset, cursor, width) < width,
        0 <= cursor - offset < width ==> scroll_to_show(offset, cursor, width) == offset,
{
}

} // verus!
