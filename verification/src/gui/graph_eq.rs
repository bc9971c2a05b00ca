use vstd::prelude::*;
use vstd::utf8::is_ascii_chars;
use vstd::string::StrSliceExecFns;
use crate::gui::{
    CalculatorMenu,
    CalculatorState,
    CalcModel,
    DisplayWrite,
    clear_gdram,
    clear_gdram_writes,
    push_text,
    text_writes,
    scroll_to_show,
};
use crate::keymaps::{get_key_text, key_text, lemma_key_text_ascii};
use crate::text::{string_insert_str, string_remove, string_clear, char_len, lemma_ascii_splice, lemma_ascii_remove};

verus! {

/// What the equation is shown after.
pub open spec fn eq_prefix() -> Seq<char> {
    seq!['Y', '=']
}

/// The equation screen: the text after `Y=`, and the cursor and the left
/// edge of the display counted from the start of `Y=`.
pub struct GraphEqState {
    pub eq1: String,
    pub cursor_pos: usize,
    pub display_offset: usize,
}

pub struct GraphEqModel {
    pub eq1: Seq<char>,
    pub cursor: int,
    pub offset: int,
}

impl GraphEqState {
    pub open spec fn model(&self) -> GraphEqModel {
        GraphEqModel {
            eq1: self.eq1@,
            cursor: self.cursor_pos as int,
            offset: self.display_offset as int,
        }
    }

    /// The equation is ASCII text.
    pub open spec fn wf(&self) -> bool {
        is_ascii_chars(self.eq1@)
    }

    pub open spec fn new_model() -> GraphEqModel {
        GraphEqModel { eq1: Seq::empty(), cursor: 2, offset: 0 }
    }

    pub fn new() -> (r: Self)
        ensures
            r.wf(),
            r.model() == Self::new_model(),
    {
        proof {
            reveal_strlit("Y=");
        }
        Self { eq1: String::new(), cursor_pos: 2, display_offset: 0 }
    }
}

/// When a key can be handled on the equation screen: text goes in at a
/// cursor within the equation, a deletion after `Y=` has a character to its
/// left, and no count passes `usize::MAX`.
pub open spec fn graph_eq_press_ok(m: CalcModel, key_id: u8) -> bool {
    let g = m.graph_eq;
    match key_text(key_id, m.second) {
        Some(t) => g.cursor >= 2 ==> g.cursor - 2 <= g.eq1.len() && g.cursor + t.len()
            <= usize::MAX,
        None => {
            &&& key_id == 19 && g.cursor >= 2 && g.eq1.len() > 0 ==> 3 <= g.cursor <= g.eq1.len() + 2
            &&& key_id == 40 ==> g.eq1.len() + 2 <= usize::MAX
        },
    }
}

/// What a key does on the equation screen: text keys type at the cursor
/// (not inside `Y=`), 19 deletes left of the cursor, 13 clears the
/// equation, 38 and 40 move left and right, 36 goes to the scientific screen.
pub open spec fn graph_eq_press(m: CalcModel, key_id: u8) -> CalcModel {
    let g = m.graph_eq;
    match key_text(key_id, m.second) {
        Some(t) => if g.cursor >= 2 {
            CalcModel {
                graph_eq: GraphEqModel {
                    eq1: g.eq1.take(g.cursor - 2) + t + g.eq1.skip(g.cursor - 2),
                    cursor: g.cursor + t.len(),
                    ..g
                },
                ..m
            }
        } else {
            m
        },
        None => if key_id == 19 {
            if g.cursor >= 2 {
                CalcModel {
                    graph_eq: GraphEqModel {
                        eq1: if g.eq1.len() > 0 {
                            g.eq1.take(g.cursor - 3) + g.eq1.skip(g.cursor - 2)
                        } else {
                            g.eq1
                        },
                        cursor: if g.cursor > 2 { g.cursor - 1 } else { g.cursor },
                        ..g
                    },
                    ..m
                }
            } else {
                m
            }
        } else if key_id == 13 {
            CalcModel { graph_eq: GraphEqModel { eq1: Seq::empty(), cursor: 2, ..g }, ..m }
        } else if key_id == 38 {
            if g.cursor > 0 {
                CalcModel { graph_eq: GraphEqModel { cursor: g.cursor - 1, ..g }, ..m }
            } else {
                m
            }
        } else if key_id == 40 {
            if g.cursor < g.eq1.len() + 2 {
                CalcModel { graph_eq: GraphEqModel { cursor: g.cursor + 1, ..g }, ..m }
            } else {
                m
            }
        } else if key_id == 36 {
            CalcModel { mode: CalculatorMenu::Sci, ..m }
        } else {
            m
        },
    }
}

/// The deletion key undoes a key that typed one character: the equation and
/// the cursor are as they were.
pub proof fn law_graph_eq_delete_undoes_typing(m: CalcModel, key_id: u8)
    requires
        key_text(key_id, m.second) matches Some(t) && t.len() == 1,
        key_text(19, m.second) is None,
        2 <= m.graph_eq.cursor <= m.graph_eq.eq1.len() + 2,
    ensures
        graph_eq_press(graph_eq_press(m, key_id), 19) == m,
{
    let g = m.graph_eq;
    let t = key_text(key_id, m.second)->Some_0;
    let typed = g.eq1.take(g.cursor - 2) + t + g.eq1.skip(g.cursor - 2);
    assert(typed.take(g.cursor - 2) + typed.skip(g.cursor - 1) =~= g.eq1);
}

/// The arrow keys of the equation screen: 40 moves the cursor one place
/// right, up to the end of `Y=` and the equation, and 38 one place left, down
/// to the start; nothing else changes.
pub proof fn law_graph_eq_arrow_keys(m: CalcModel)
    ensures
        graph_eq_press(m, 40) == (CalcModel {
            graph_eq: GraphEqModel {
                cursor: if m.graph_eq.cursor < m.graph_eq.eq1.len() + 2 {
                    m.graph_eq.cursor + 1
                } else {
                    m.graph_eq.cursor
                },
                ..m.graph_eq
            },
            ..m
        }),
        graph_eq_press(m, 38) == (CalcModel {
            graph_eq: GraphEqModel {
                cursor: if m.graph_eq.cursor > 0 {
                    m.graph_eq.cursor - 1
                } else {
                    m.graph_eq.cursor
                },
                ..m.graph_eq
            },
            ..m
        }),
        0 <= m.graph_eq.cursor < m.graph_eq.eq1.len() + 2 ==> graph_eq_press(
            graph_eq_press(m, 40),
            38,
        ) == m,
{
}

/// The clearing key empties the equation and puts the cursor right after
/// `Y=`; the deletion key, with the cursor after at least one character of
/// the equation, removes the character left of the cursor and moves the
/// cursor onto where it was, keeping the rest.
pub proof fn law_graph_eq_delete_and_clear(m: CalcModel)
    requires
        key_text(19, m.second) is None,
        key_text(13, m.second) is None,
    ensures
        graph_eq_press(m, 13) == (CalcModel {
            graph_eq: GraphEqModel { eq1: Seq::empty(), cursor: 2, ..m.graph_eq },
            ..m
        }),
        3 <= m.graph_eq.cursor <= m.graph_eq.eq1.len() + 2 ==> ({
            let c = m.graph_eq.cursor - 2;
            let old_eq = m.graph_eq.eq1;
            let g = graph_eq_press(m, 19).graph_eq;
            &&& g.cursor == m.graph_eq.cursor - 1
            &&& g.eq1.len() == old_eq.len() - 1
            &&& g.eq1.take(c - 1) == old_eq.take(c - 1)
            &&& g.eq1.skip(c - 1) == old_eq.skip(c)
            &&& g.offset == m.graph_eq.offset
        }),
{
    if 3 <= m.graph_eq.cursor <= m.graph_eq.eq1.len() + 2 {
        let c = m.graph_eq.cursor - 2;
        let old_eq = m.graph_eq.eq1;
        let g = graph_eq_press(m, 19).graph_eq;
        assert(g.eq1.take(c - 1) =~= old_eq.take(c - 1));
        assert(g.eq1.skip(c - 1) =~= old_eq.skip(c));
    }
}

/// A key that types, with the cursor after `Y=` and within the equation:
/// the text goes in at the cursor, everything before and after it stays,
/// and the cursor moves past the text.
pub proof fn law_graph_eq_typing(m: CalcModel, key_id: u8)
    requires
        key_text(key_id, m.second) is Some,
        2 <= m.graph_eq.cursor <= m.graph_eq.eq1.len() + 2,
    ensures
        ({
            let t = key_text(key_id, m.second)->Some_0;
            let c = m.graph_eq.cursor - 2;
            let old_eq = m.graph_eq.eq1;
            let g = graph_eq_press(m, key_id).graph_eq;
            &&& g.cursor == m.graph_eq.cursor + t.len()
            &&& g.eq1.len() == old_eq.len() + t.len()
            &&& g.eq1.take(c) == old_eq.take(c)
            &&& g.eq1.subrange(c, c + t.len()) == t
            &&& g.eq1.skip(c + t.len()) == old_eq.skip(c)
            &&& g.offset == m.graph_eq.offset
        }),
{
    let t = key_text(key_id, m.second)->Some_0;
    let c = m.graph_eq.cursor - 2;
    let old_eq = m.graph_eq.eq1;
    let g = graph_eq_press(m, key_id).graph_eq;
    assert(g.eq1.take(c) =~= old_eq.take(c));
    assert(g.eq1.subrange(c, c + t.len()) =~= t);
    assert(g.eq1.skip(c + t.len()) =~= old_eq.skip(c));
}

pub fn handle_button_press(key_id: u8, calc_state: &mut CalculatorState)
    requires
        old(calc_state).wf(),
        graph_eq_press_ok(old(calc_state).model(), key_id),
    ensures
        final(calc_state).wf(),
        final(calc_state).model() == graph_eq_press(old(calc_state).model(), key_id),
{
    proof {
        lemma_key_text_ascii(key_id, calc_state.second);
    }
    if let Some(text) = get_key_text(key_id, calc_state) {
        if calc_state.graph_eq_state.cursor_pos >= 2 {
            let ghost before = calc_state.graph_eq_state.eq1@;
            string_insert_str(
                &mut calc_state.graph_eq_state.eq1,
                calc_state.graph_eq_state.cursor_pos - 2,
                text,
            );
            proof {
                lemma_ascii_splice(before, calc_state.graph_eq_state.cursor_pos - 2, text@);
            }
            let n = text.unicode_len();
            calc_state.graph_eq_state.cursor_pos += n;
        }
    } else {
        match key_id {
            19 => {
                if calc_state.graph_eq_state.cursor_pos >= 2 {
                    if char_len(&calc_state.graph_eq_state.eq1) != 0 {
                        let ghost before = calc_state.graph_eq_state.eq1@;
                        string_remove(
                            &mut calc_state.graph_eq_state.eq1,
                            calc_state.graph_eq_state.cursor_pos - 3,
                        );
                        proof {
                            lemma_ascii_remove(before, calc_state.graph_eq_state.cursor_pos - 3);
                        }
                    }
                    if calc_state.graph_eq_state.cursor_pos > 2 {
                        calc_state.graph_eq_state.cursor_pos -= 1;
                    }
                }
            },
            13 => {
                string_clear(&mut calc_state.graph_eq_state.eq1);
                calc_state.graph_eq_state.cursor_pos = 2;
            },
            38 => {
                if calc_state.graph_eq_state.cursor_pos > 0 {
                    calc_state.graph_eq_state.cursor_pos -= 1;
                }
            },
            40 => {
                if calc_state.graph_eq_state.cursor_pos < char_len(&calc_state.graph_eq_state.eq1)
                    + 2 {
                    calc_state.graph_eq_state.cursor_pos += 1;
                }
            },
            36 => {
                calc_state.mode = CalculatorMenu::Sci;
            },
            _ => {},
        }
    }
}

/// The cursor as two display bytes: filled where it stands (left or right
/// character of its byte pair), blank in the other.
pub open spec fn cursor_bytes(x: int) -> Seq<DisplayWrite> {
    if x % 2 == 0 {
        seq![DisplayWrite::Data(0xFF), DisplayWrite::Data(0x00)]
    } else {
        seq![DisplayWrite::Data(0x00), DisplayWrite::Data(0xFF)]
    }
}

/// The writes that draw the equation screen shown from `offset`: the
/// visible part of `Y=` and of the equation, then the cursor at `cursor`.
pub open spec fn graph_eq_frame(eq1: Seq<char>, cursor: int, offset: int) -> Seq<DisplayWrite> {
    let eq_begin = vstd::math::min(vstd::math::max(offset - 2, 0), eq1.len() as int);
    let eq_end = vstd::math::min(offset + 14, eq1.len() as int);
    let prefix_begin = vstd::math::min(offset, 2);
    let x = cursor - offset;
    seq![DisplayWrite::Instruction(0x01)] + text_writes(eq_prefix().subrange(prefix_begin, 2))
        + text_writes(eq1.subrange(eq_begin, eq_end)) + seq![
        DisplayWrite::Instruction(0x0C),
        DisplayWrite::Instruction(0x34),
        DisplayWrite::Instruction(0x36),
    ] + clear_gdram_writes() + seq![
        DisplayWrite::Instruction(0x8F),
        DisplayWrite::Instruction((0x80 + x / 2) as u8),
    ] + cursor_bytes(x) + seq![DisplayWrite::Instruction(0x30), DisplayWrite::End]
}

/// The left edge after scrolling just enough to show `cursor` on a display
/// 16 characters wide.
fn corrected_offset(offset: usize, cursor: usize) -> (r: usize)
    requires
        cursor <= isize::MAX,
        offset <= isize::MAX,
    ensures
        r == scroll_to_show(offset as int, cursor as int, 16),
{
    let cursor_display_x = cursor as isize - offset as isize;
    let bg_correct_x = if cursor_display_x < 0 {
        cursor_display_x
    } else if cursor_display_x >= 16 {
        cursor_display_x - (16 - 1)
    } else {
        0
    };
    (offset as isize + bg_correct_x) as usize
}

/// Scrolls the equation so that the cursor shows, then returns the writes
/// that draw the screen.
#[verifier::spinoff_prover]
#[verifier::rlimit(40)]
pub fn update_gui(state: &mut CalculatorState) -> (r: Vec<DisplayWrite>)
    requires
        old(state).wf(),
        old(state).graph_eq_state.cursor_pos + 16 <= isize::MAX,
        old(state).graph_eq_state.display_offset <= isize::MAX,
    ensures
        final(state).wf(),
        final(state).model() == (CalcModel {
            graph_eq: GraphEqModel {
                offset: scroll_to_show(
                    old(state).model().graph_eq.offset,
                    old(state).model().graph_eq.cursor,
                    16,
                ),
                ..old(state).model().graph_eq
            },
            ..old(state).model()
        }),
        r@ == graph_eq_frame(
            final(state).model().graph_eq.eq1,
            final(state).model().graph_eq.cursor,
            final(state).model().graph_eq.offset,
        ),
{
    let cursor = state.graph_eq_state.cursor_pos;
    let new_offset = corrected_offset(state.graph_eq_state.display_offset, cursor);
    state.graph_eq_state.display_offset = new_offset;
    let offset = state.graph_eq_state.display_offset;
    let len = char_len(&state.graph_eq_state.eq1);
    let padding: usize = 2;
    let eq_begin = if offset >= padding {
        if offset - padding < len { offset - padding } else { len }
    } else {
        0
    };
    let eq_end = if offset + 16 - padding < len { offset + 16 - padding } else { len };
    let prefix_begin = if offset < padding { offset } else { padding };
    proof {
        reveal_strlit("Y=");
        assert("Y="@ =~= eq_prefix());
    }
    let prefix = "Y=".substring_ascii(prefix_begin, 2);
    let eq = state.graph_eq_state.eq1.as_str().substring_ascii(eq_begin, eq_end);
    let cursor_display_x = cursor - offset;
    let horizontal_address = (cursor_display_x as u8) / 2;
    let first_byte = cursor_display_x % 2 == 0;
    let mut out: Vec<DisplayWrite> = Vec::new();
    out.push(DisplayWrite::Instruction(0x01));
    push_text(&mut out, prefix);
    push_text(&mut out, eq);
    let ghost text_part = out@;
    out.push(DisplayWrite::Instruction(0x0C));
    out.push(DisplayWrite::Instruction(0x34));
    out.push(DisplayWrite::Instruction(0x36));
    clear_gdram(&mut out);
    let ghost clear_part = out@;
    assert(0x80u8 | 15u8 == 0x8Fu8) by (bit_vector);
    assert(0x80u8 | horizontal_address == (0x80 + horizontal_address) as u8) by (bit_vector)
        requires
            horizontal_address < 8;
    out.push(DisplayWrite::Instruction(0x80 | 15));
    out.push(DisplayWrite::Instruction(0x80 | horizontal_address));
    if first_byte {
        out.push(DisplayWrite::Data(0xFF));
        out.push(DisplayWrite::Data(0x00));
    } else {
        out.push(DisplayWrite::Data(0x00));
        out.push(DisplayWrite::Data(0xFF));
    }
    out.push(DisplayWrite::Instruction(0x30));
    out.push(DisplayWrite::End);
    let ghost eqv = state.graph_eq_state.eq1@;
    assert(text_part =~= seq![DisplayWrite::Instruction(0x01)] + text_writes(
        eq_prefix().subrange(prefix_begin as int, 2),
    ) + text_writes(eqv.subrange(eq_begin as int, eq_end as int)));
    assert(out@ =~= clear_part + seq![
        DisplayWrite::Instruction(0x8F),
        DisplayWrite::Instruction((0x80 + (cursor - offset) / 2) as u8),
    ] + cursor_bytes(cursor - offset) + seq![DisplayWrite::Instruction(0x30), DisplayWrite::End]);
    assert(out@ =~= graph_eq_frame(
        state.graph_eq_state.eq1@,
        cursor as int,
        offset as int,
    ));
    out
}


/// Whether `handle_button_press` may be called with this key (see
/// `graph_eq_press_ok`).
pub fn graph_eq_press_is_ok(key_id: u8, calc_state: &CalculatorState) -> (r: bool)
    ensures
        r == graph_eq_press_ok(calc_state.model(), key_id),
{
    let g = &calc_state.graph_eq_state;
    let len = char_len(&g.eq1);
    let cursor = g.cursor_pos;
    match get_key_text(key_id, calc_state) {
        Some(t) => {
            let n = t.unicode_len();
            cursor < 2 || (cursor - 2 <= len && n <= usize::MAX - cursor)
        },
        None => {
            let delete_ok = !(key_id == 19 && cursor >= 2 && len > 0) || (3 <= cursor && cursor
                - 2 <= len);
            let right_ok = key_id != 40 || len <= usize::MAX - 2;
            delete_ok && right_ok
        },
    }
}

} // verus!
