use vstd::prelude::*;
use crate::gui::{
    bar_lines,
    push_repeat,
    scroll_to_show,
    rows_writes,
    CalculatorMenu,
    CalculatorState,
    CalcModel,
    DisplayWrite,
    clear_gdram,
    clear_gdram_writes,
    get_cursor_index,
    cursor_index,
    push_text,
    text_writes,
};

verus! {

/// The names listed on the constants screen.
pub open spec fn constant_names() -> Seq<Seq<char>> {
    seq![seq!['P', 'i'], seq!['e']]
}

fn constant_name(i: usize) -> (r: &'static str)
    requires
        i < 2,
    ensures
        r@ == constant_names()[i as int],
        vstd::utf8::is_ascii_chars(r@),
{
    proof {
        reveal_strlit("Pi");
        reveal_strlit("e");
    }
    if i == 0 {
        assert("Pi"@ =~= seq!['P', 'i']);
        "Pi"
    } else {
        assert("e"@ =~= seq!['e']);
        "e"
    }
}

/// The constants screen: which name the cursor is on and which is shown at
/// the top.
pub struct ConstantsState {
    display_vertical_offset: usize,
    cursor_vertical_position: usize,
    pub previous_screen: CalculatorMenu,
}

pub struct ConstantsModel {
    pub offset: int,
    pub cursor: int,
    pub previous: CalculatorMenu,
}

impl ConstantsState {
    pub closed spec fn model(&self) -> ConstantsModel {
        ConstantsModel {
            offset: self.display_vertical_offset as int,
            cursor: self.cursor_vertical_position as int,
            previous: self.previous_screen,
        }
    }

    /// The cursor, and the name at the top of the display, are in the list.
    pub closed spec fn wf(&self) -> bool {
        &&& self.cursor_vertical_position < 2
        &&& self.display_vertical_offset < 2
    }

    pub open spec fn new_model() -> ConstantsModel {
        ConstantsModel { offset: 0, cursor: 0, previous: CalculatorMenu::Sci }
    }

    /// Records the screen that the constants screen goes back to.
    pub fn set_previous_screen(&mut self, screen: CalculatorMenu)
        ensures
            final(self).model() == (ConstantsModel { previous: screen, ..old(self).model() }),
            old(self).wf() ==> final(self).wf(),
    {
        self.previous_screen = screen;
    }

    pub fn new() -> (r: Self)
        ensures
            r.wf(),
            r.model() == Self::new_model(),
    {
        Self {
            display_vertical_offset: 0,
            cursor_vertical_position: 0,
            previous_screen: CalculatorMenu::Sci,
        }
    }
}

/// What a key does on the constants screen: key 18 goes back to the screen
/// it was opened from, 39 moves up and 41 down within the list.
pub open spec fn constants_press(m: CalcModel, key_id: u8) -> CalcModel {
    if key_id == 18 {
        CalcModel { mode: m.constants.previous, ..m }
    } else if key_id == 39 {
        if m.constants.cursor > 0 {
            CalcModel {
                constants: ConstantsModel { cursor: m.constants.cursor - 1, ..m.constants },
                ..m
            }
        } else {
            m
        }
    } else if key_id == 41 {
        if m.constants.cursor < constant_names().len() - 1 {
            CalcModel {
                constants: ConstantsModel { cursor: m.constants.cursor + 1, ..m.constants },
                ..m
            }
        } else {
            m
        }
    } else {
        m
    }
}

pub fn handle_button_press(key_id: u8, calc_state: &mut CalculatorState)
    requires
        old(calc_state).wf(),
    ensures
        final(calc_state).wf(),
        final(calc_state).model() == constants_press(old(calc_state).model(), key_id),
{
    match key_id {
        18 => {
            let previous = calc_state.constants_state.previous_screen;
            calc_state.mode = previous;

        },
        39 => {
            if calc_state.constants_state.cursor_vertical_position > 0 {
                calc_state.constants_state.cursor_vertical_position -= 1;
            }
        },
        41 => {
            if calc_state.constants_state.cursor_vertical_position < 2 - 1 {
                calc_state.constants_state.cursor_vertical_position += 1;
            }
        },
        _ => {},
    }
}

/// A well-formed constants screen has its cursor, and the name shown at the
/// top, within the list.
pub proof fn lemma_constants_in_list(c: ConstantsState)
    requires
        c.wf(),
    ensures
        0 <= c.model().cursor < constant_names().len(),
        0 <= c.model().offset < constant_names().len(),
{
}

/// The keys of the constants screen keep the cursor within the list: 39
/// moves it up and 41 down, stopping at the ends, 18 goes back to the
/// screen the list was opened from, and nothing else changes; the name shown
/// at the top stays.
pub proof fn law_constants_keys(m: CalcModel, key_id: u8)
    requires
        0 <= m.constants.cursor < constant_names().len(),
    ensures
        0 <= constants_press(m, key_id).constants.cursor < constant_names().len(),
        constants_press(m, key_id).constants.offset == m.constants.offset,
        constants_press(m, key_id).constants.previous == m.constants.previous,
        key_id == 39 ==> constants_press(m, key_id).constants.cursor == (if m.constants.cursor
            > 0 {
            m.constants.cursor - 1
        } else {
            0
        }),
        key_id == 41 ==> constants_press(m, key_id).constants.cursor == (if m.constants.cursor
            + 1 < constant_names().len() {
            m.constants.cursor + 1
        } else {
            constant_names().len() - 1
        }),
        key_id == 18 ==> constants_press(m, key_id) == (CalcModel {
            mode: m.constants.previous,
            ..m
        }),
        key_id == 39 || key_id == 41 ==> constants_press(m, key_id) == (CalcModel {
            constants: ConstantsModel {
                cursor: constants_press(m, key_id).constants.cursor,
                ..m.constants
            },
            ..m
        }),
        key_id != 18 && key_id != 39 && key_id != 41 ==> constants_press(m, key_id) == m,
{
}

/// The writes that draw the constants screen with the list shown from
/// `offset` and the bar on the cursor.
pub open spec fn constants_frame(offset: int, cursor: int) -> Seq<DisplayWrite> {
    seq![
        DisplayWrite::Instruction(0x01),
        DisplayWrite::Instruction(0x0C),
        DisplayWrite::Instruction(0x34),
        DisplayWrite::Instruction(0x36),
    ] + clear_gdram_writes() + bar_lines(cursor - offset, 14) + seq![
        DisplayWrite::Instruction(0x30),
    ] + rows_writes(constant_names().subrange(offset, constant_names().len() as int)) + seq![
        DisplayWrite::End,
    ]
}

/// Scrolls the list so that the cursor shows and returns the writes that draw
/// the screen: the names, and a bar over the one under the cursor.
pub fn update_gui(state: &mut CalculatorState) -> (r: Vec<DisplayWrite>)
    requires
        old(state).wf(),
    ensures
        final(state).wf(),
        final(state).model() == (CalcModel {
            constants: ConstantsModel {
                offset: scroll_to_show(
                    old(state).model().constants.offset,
                    old(state).model().constants.cursor,
                    4,
                ),
                ..old(state).model().constants
            },
            ..old(state).model()
        }),
        r@ == constants_frame(final(state).model().constants.offset, final(state).model().constants.cursor),
{
    let cursor = state.constants_state.cursor_vertical_position;
    let offset = state.constants_state.display_vertical_offset;
    let cursor_display_position: isize = cursor as isize - offset as isize;
    if cursor_display_position < 0 {
        state.constants_state.display_vertical_offset = cursor;
    } else if cursor_display_position > 3 {
        state.constants_state.display_vertical_offset = cursor - 3;
    }
    let offset = state.constants_state.display_vertical_offset;
    let cursor_display_y = cursor - offset;
    let mut out: Vec<DisplayWrite> = Vec::new();
    out.push(DisplayWrite::Instruction(0x01));
    out.push(DisplayWrite::Instruction(0x0C));
    out.push(DisplayWrite::Instruction(0x34));
    out.push(DisplayWrite::Instruction(0x36));
    clear_gdram(&mut out);
    let ghost before_bar = out@;
    for vert in 1..14usize
        invariant
            cursor_display_y <= 1,
            out@ == before_bar + bar_lines(cursor_display_y as int, vert as int),
    {
        let vertical_address = cursor_display_y * 16 + vert;
        assert(0x80u8 | ((vertical_address % 32) as u8) == (0x80 + vertical_address % 32) as u8)
            by (bit_vector)
            requires
                vertical_address < 64;
        out.push(DisplayWrite::Instruction(0x80 | (vertical_address % 32) as u8));
        out.push(
            DisplayWrite::Instruction(
                0x80 | if vertical_address >= 32 {
                    8u8
                } else {
                    0u8
                },
            ),
        );
        assert(0x80u8 | 8u8 == 0x88u8 && 0x80u8 | 0u8 == 0x80u8) by (bit_vector);
        push_repeat(&mut out, DisplayWrite::Data(0xFF), 16);
        assert(out@ =~= before_bar + bar_lines(cursor_display_y as int, vert + 1));
    }
    out.push(DisplayWrite::Instruction(0x30));
    let ghost before_rows = out@;
    let ghost names = constant_names().subrange(offset as int, 2);
    for i in 0..2 - offset
        invariant
            offset <= 1,
            names == constant_names().subrange(offset as int, 2),
            out@ == before_rows + rows_writes(names.take(i as int)),
    {
        out.push(DisplayWrite::Instruction(get_cursor_index(i as u8, 0)));
        let name = constant_name(offset + i);
        push_text(&mut out, name);
        assert(names.take(i + 1).drop_last() =~= names.take(i as int));
        assert(names.take(i + 1).last() == name@);
    }
    assert(names.take((2 - offset) as int) =~= names);
    out.push(DisplayWrite::End);
    out
}

} // verus!
