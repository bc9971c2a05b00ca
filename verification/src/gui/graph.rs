use vstd::prelude::*;
use crate::gui::{CalculatorMenu, CalculatorState, CalcModel, DisplayWrite};
use crate::util::abs;

verus! {

/// What a key does on the graph screen: 36 goes back to the equation, 37 to
/// the scientific screen.
pub open spec fn graph_press(m: CalcModel, key_id: u8) -> CalcModel {
    if key_id == 36 {
        CalcModel { mode: CalculatorMenu::GraphEq, ..m }
    } else if key_id == 37 {
        CalcModel { mode: CalculatorMenu::Sci, ..m }
    } else {
        m
    }
}

pub fn handle_button_press(key_id: u8, calc_state: &mut CalculatorState)
    requires
        old(calc_state).wf(),
    ensures
        final(calc_state).wf(),
        final(calc_state).model() == graph_press(old(calc_state).model(), key_id),
{
    match key_id {
        36 => {
            calc_state.mode = CalculatorMenu::GraphEq;
        },
        37 => {
            calc_state.mode = CalculatorMenu::Sci;
        },
        _ => {},
    }
}

/// The column of the y axis.
pub const ORIGIN_X_PX_IDX: usize = 63;

/// The row of the x axis.
pub const ORIGIN_Y_PX_IDX: usize = 32;

/// Whether the pixel in column `index` and display row `vertical_pos` (0 at
/// the top) is drawn, given the curve's height in each column (`values`, 0 at
/// the bottom, -1 below the display, 127 above it): the curve passes through
/// it on its way to the next column, or stands on it (unless it jumps away
/// from a flat stretch), or it is on the y axis. `i` is the pixel's place in
/// its byte.
pub open spec fn pixel_on(values: Seq<i8>, vertical_pos: int, index: int, i: int) -> bool {
    let vert = 63 - vertical_pos;
    let here = values[index] as int;
    let next = values[index + 1] as int;
    let same_as_prev = i > 0 && values[index - 1] == values[index];
    ||| (here > vert && vert > next)
    ||| (here < vert && vert < next)
    ||| (here == vert && !(same_as_prev && (if here - next < 0 { next - here } else { here
        - next }) > 1))
    ||| index == 63
}

/// The first `n` pixels, from the left, of the byte that starts at column
/// `base` on display row `vertical_pos`.
pub open spec fn pixel_bits(values: Seq<i8>, vertical_pos: int, base: int, n: int) -> u8
    decreases n,
{
    if n <= 0 {
        0
    } else {
        pixel_bits(values, vertical_pos, base, n - 1) | if pixel_on(
            values,
            vertical_pos,
            base + n - 1,
            n - 1,
        ) {
            (0x80u8 >> ((n - 1) as u8)) as u8
        } else {
            0u8
        }
    }
}

/// The two bytes drawn at byte column `horizontal_pos` of display row
/// `vertical_pos`: a full line on the x axis, else the curve's pixels.
pub open spec fn graph_bytes(values: Seq<i8>, vertical_pos: int, horizontal_pos: int) -> Seq<
    DisplayWrite,
> {
    if vertical_pos == 32 {
        seq![DisplayWrite::Data(0xFF), DisplayWrite::Data(0xFF)]
    } else {
        seq![
            DisplayWrite::Data(pixel_bits(values, vertical_pos, horizontal_pos * 16, 8)),
            DisplayWrite::Data(pixel_bits(values, vertical_pos, horizontal_pos * 16 + 8, 8)),
        ]
    }
}

/// The first `n` byte columns of display row `vertical_pos`.
pub open spec fn graph_row_bytes(values: Seq<i8>, vertical_pos: int, n: int) -> Seq<DisplayWrite>
    decreases n,
{
    if n <= 0 {
        Seq::empty()
    } else {
        graph_row_bytes(values, vertical_pos, n - 1) + graph_bytes(values, vertical_pos, n - 1)
    }
}

/// Display row `vertical_pos`: its graphics address (rows 32 and on are the
/// right half of the graphics memory), then its 16 bytes.
pub open spec fn graph_row(values: Seq<i8>, vertical_pos: int) -> Seq<DisplayWrite> {
    seq![
        DisplayWrite::Instruction(
            (0x80 + if vertical_pos >= 32 { vertical_pos - 32 } else { vertical_pos }) as u8,
        ),
        DisplayWrite::Instruction(if vertical_pos >= 32 { 0x88u8 } else { 0x80u8 }),
    ] + graph_row_bytes(values, vertical_pos, 8)
}

/// The first `n` display rows.
pub open spec fn graph_rows(values: Seq<i8>, n: int) -> Seq<DisplayWrite>
    decreases n,
{
    if n <= 0 {
        Seq::empty()
    } else {
        graph_rows(values, n - 1) + graph_row(values, n - 1)
    }
}

/// The writes that draw the graph of a curve with the given heights.
pub open spec fn graph_frame(values: Seq<i8>) -> Seq<DisplayWrite> {
    seq![
        DisplayWrite::Instruction(0x01),
        DisplayWrite::Instruction(0x0C),
        DisplayWrite::Instruction(0x34),
        DisplayWrite::Instruction(0x36),
    ] + graph_rows(values, 64) + seq![DisplayWrite::Instruction(0x30), DisplayWrite::End]
}

proof fn lemma_bit_kept(x: u8, y: u8, m: u8)
    requires
        x & m != 0,
    ensures
        (x | y) & m != 0,
{
    assert((x & m != 0) ==> ((x | y) & m != 0)) by (bit_vector);
}

proof fn lemma_bit_set(x: u8, i: u8)
    requires
        i < 8,
    ensures
        (x | (0x80u8 >> i)) & (0x80u8 >> i) != 0,
{
    assert(i < 8 ==> (x | (0x80u8 >> i)) & (0x80u8 >> i) != 0) by (bit_vector);
}

proof fn lemma_pixel_bits_bit(values: Seq<i8>, vertical_pos: int, base: int, n: int, i: int)
    requires
        0 <= i < n <= 8,
        pixel_on(values, vertical_pos, base + i, i),
    ensures
        pixel_bits(values, vertical_pos, base, n) & (0x80u8 >> (i as u8)) != 0,
    decreases n,
{
    let prev = pixel_bits(values, vertical_pos, base, n - 1);
    if n - 1 == i {
        lemma_bit_set(prev, i as u8);
        assert((0x80u8 >> (i as u8)) as u8 == 0x80u8 >> (i as u8));
    } else {
        lemma_pixel_bits_bit(values, vertical_pos, base, n - 1, i);
        let add = if pixel_on(values, vertical_pos, base + n - 1, n - 1) {
            (0x80u8 >> ((n - 1) as u8)) as u8
        } else {
            0u8
        };
        lemma_bit_kept(prev, add, 0x80u8 >> (i as u8));
    }
}

/// The curve is drawn joined: in every column, the pixels strictly between
/// the curve's height there and its height in the next column are lit, for
/// a rising curve as for a falling one. Column `c` of display row
/// `vertical_pos` is bit `c % 8` (from the left) of the byte that the row
/// draws for it.
pub proof fn law_graph_joins_curve(values: Seq<i8>, vertical_pos: int, c: int)
    requires
        values.len() == 129,
        0 <= vertical_pos < 64,
        vertical_pos != 32,
        0 <= c < 128,
        (values[c] < 63 - vertical_pos < values[c + 1]) || (values[c + 1] < 63 - vertical_pos
            < values[c]),
    ensures
        graph_bytes(values, vertical_pos, c / 16)[(c % 16) / 8] matches DisplayWrite::Data(b) && b
            & (0x80u8 >> ((c % 8) as u8)) != 0,
{
    let hp = c / 16;
    let half = (c % 16) / 8;
    let i = c % 8;
    let base = hp * 16 + half * 8;
    assert(base + i == c && 0 <= half < 2 && 0 <= i < 8) by (nonlinear_arith)
        requires
            0 <= c < 128,
            hp == c / 16,
            half == (c % 16) / 8,
            i == c % 8,
            base == hp * 16 + half * 8,
    ;
    assert(pixel_on(values, vertical_pos, c, i));
    lemma_pixel_bits_bit(values, vertical_pos, base, 8, i);
    if half == 0 {
        assert(base == hp * 16);
    } else {
        assert(base == hp * 16 + 8);
    }
}

fn byte_of_pixels(values: &[i8], vertical_pos: usize, base: usize) -> (r: u8)
    requires
        values@.len() == 129,
        forall|k: int| 0 <= k < 129 ==> values@[k] >= -1,
        vertical_pos < 64,
        vertical_pos != 32,
        base + 8 < 129,
    ensures
        r == pixel_bits(values@, vertical_pos as int, base as int, 8),
{
    let vert = (63 - vertical_pos) as i8;
    let mut bits: u8 = 0;
    for i in 0..8usize
        invariant
            values@.len() == 129,
            forall|k: int| 0 <= k < 129 ==> values@[k] >= -1,
            vertical_pos < 64,
            vertical_pos != 32,
            base + 8 < 129,
            vert == 63 - vertical_pos,
            bits == pixel_bits(values@, vertical_pos as int, base as int, i as int),
    {
        let index = base + i;
        let same_as_prev = if i > 0 {
            values[index - 1] == values[index]
        } else {
            false
        };
        if (values[index] > vert && vert > values[index + 1]) || (values[index] < vert && vert
            < values[index + 1]) || (values[index] == vert && !(same_as_prev && abs(
            values[index] - values[index + 1],
        ) > 1)) || (index == ORIGIN_X_PX_IDX) {
            bits |= 0x80 >> i;
        } else {
            bits |= 0;
        }
        assert((0x80u8 >> (i as u8)) == (0x80u8 >> i)) by (bit_vector)
            requires
                i < 8;
    }
    bits
}

/// The writes that draw the graph screen: the curve whose height in each of
/// the 129 columns is given (the last one only to join the curve), the axes.
pub fn render_graph(values: &[i8]) -> (r: Vec<DisplayWrite>)
    requires
        values@.len() == 129,
        forall|k: int| 0 <= k < 129 ==> values@[k] >= -1,
    ensures
        r@ == graph_frame(values@),
{
    let mut out: Vec<DisplayWrite> = Vec::new();
    out.push(DisplayWrite::Instruction(0x01));
    out.push(DisplayWrite::Instruction(0x0C));
    out.push(DisplayWrite::Instruction(0x34));
    out.push(DisplayWrite::Instruction(0x36));
    let ghost start = out@;
    for vertical_pos in 0..64usize
        invariant
            values@.len() == 129,
            forall|k: int| 0 <= k < 129 ==> values@[k] >= -1,
            out@ == start + graph_rows(values@, vertical_pos as int),
    {
        let row_address: u8 = if vertical_pos >= 32 {
            vertical_pos as u8 - 32
        } else {
            vertical_pos as u8
        };
        assert(0x80u8 | row_address == (0x80 + row_address) as u8) by (bit_vector)
            requires
                row_address < 32;
        assert(0x80u8 | 8u8 == 0x88u8 && 0x80u8 | 0u8 == 0x80u8) by (bit_vector);
        out.push(DisplayWrite::Instruction(0x80 | row_address));
        out.push(
            DisplayWrite::Instruction(
                0x80 | if vertical_pos >= 32 {
                    8u8
                } else {
                    0u8
                },
            ),
        );
        let ghost row_start = out@;
        for horizontal_pos in 0..8usize
            invariant
                values@.len() == 129,
                forall|k: int| 0 <= k < 129 ==> values@[k] >= -1,
                vertical_pos < 64,
                out@ == row_start + graph_row_bytes(values@, vertical_pos as int, horizontal_pos as int),
        {
            let mut msb: u8 = 0;
            let mut lsb: u8 = 0;
            if vertical_pos != ORIGIN_Y_PX_IDX {
                msb = byte_of_pixels(values, vertical_pos, horizontal_pos * 16);
                lsb = byte_of_pixels(values, vertical_pos, horizontal_pos * 16 + 8);
            } else {
                msb = 0xFF;
                lsb = 0xFF;
            }
            out.push(DisplayWrite::Data(msb));
            out.push(DisplayWrite::Data(lsb));
            assert(out@ =~= row_start + graph_row_bytes(
                values@,
                vertical_pos as int,
                horizontal_pos + 1,
            ));
        }
        assert(out@ =~= start + graph_rows(values@, vertical_pos + 1));
    }
    out.push(DisplayWrite::Instruction(0x30));
    out.push(DisplayWrite::End);
    out
}

} // verus!
