use vstd::prelude::*;
use vstd::utf8::{is_ascii_chars, encode_utf8, is_char_boundary, valid_utf8};
use vstd::string::StrSliceExecFns;
use crate::gui::{
    DisplayWrite,
    cursor_index,
    get_cursor_index,
    push_repeat,
    repeat,
    scroll_to_show,
};
use crate::gui::graph_eq::cursor_bytes;
use crate::gui::sci_mode::{Line, SciModeState, SciModel, empty_line, splice, clamp_col, line_model, min};
use crate::parser::{parse, spec_parse};
use crate::parser::expression::{Expression, SpecExpr};
use crate::parser::tokenizer::{literals_are_numbers, check_literals};
use crate::text::{string_insert_str, char_len, lemma_ascii_splice};

verus! {

/// The text a key types: digits, the point and the four operators.
pub open spec fn program_key_text(key: u8) -> Option<Seq<char>> {
    if key == 2 {
        Some(seq!['.'])
    } else if key == 3 {
        Some(seq!['0'])
    } else if key == 8 {
        Some(seq!['7'])
    } else if key == 9 {
        Some(seq!['8'])
    } else if key == 10 {
        Some(seq!['9'])
    } else if key == 14 {
        Some(seq!['4'])
    } else if key == 15 {
        Some(seq!['5'])
    } else if key == 16 {
        Some(seq!['6'])
    } else if key == 20 {
        Some(seq!['1'])
    } else if key == 21 {
        Some(seq!['2'])
    } else if key == 22 {
        Some(seq!['3'])
    } else if key == 29 {
        Some(seq!['+'])
    } else if key == 23 {
        Some(seq!['-'])
    } else if key == 17 {
        Some(seq!['*'])
    } else if key == 11 {
        Some(seq!['/'])
    } else {
        None
    }
}

/// The text that key `key` types.
pub fn get_key_text(key: u8) -> (r: Option<&'static str>)
    ensures
        match r {
            Some(t) => program_key_text(key) == Some(t@),
            None => program_key_text(key) is None,
        },
{
    match key {
        2 => {
            proof {
                reveal_strlit(".");
            }
            assert("."@ =~= seq!['.']);
            Some(".")
        },
        3 => {
            proof {
                reveal_strlit("0");
            }
            assert("0"@ =~= seq!['0']);
            Some("0")
        },
        8 => {
            proof {
                reveal_strlit("7");
            }
            assert("7"@ =~= seq!['7']);
            Some("7")
        },
        9 => {
            proof {
                reveal_strlit("8");
            }
            assert("8"@ =~= seq!['8']);
            Some("8")
        },
        10 => {
            proof {
                reveal_strlit("9");
            }
            assert("9"@ =~= seq!['9']);
            Some("9")
        },
        14 => {
            proof {
                reveal_strlit("4");
            }
            assert("4"@ =~= seq!['4']);
            Some("4")
        },
        15 => {
            proof {
                reveal_strlit("5");
            }
            assert("5"@ =~= seq!['5']);
            Some("5")
        },
        16 => {
            proof {
                reveal_strlit("6");
            }
            assert("6"@ =~= seq!['6']);
            Some("6")
        },
        20 => {
            proof {
                reveal_strlit("1");
            }
            assert("1"@ =~= seq!['1']);
            Some("1")
        },
        21 => {
            proof {
                reveal_strlit("2");
            }
            assert("2"@ =~= seq!['2']);
            Some("2")
        },
        22 => {
            proof {
                reveal_strlit("3");
            }
            assert("3"@ =~= seq!['3']);
            Some("3")
        },
        29 => {
            proof {
                reveal_strlit("+");
            }
            assert("+"@ =~= seq!['+']);
            Some("+")
        },
        23 => {
            proof {
                reveal_strlit("-");
            }
            assert("-"@ =~= seq!['-']);
            Some("-")
        },
        17 => {
            proof {
                reveal_strlit("*");
            }
            assert("*"@ =~= seq!['*']);
            Some("*")
        },
        11 => {
            proof {
                reveal_strlit("/");
            }
            assert("/"@ =~= seq!['/']);
            Some("/")
        },
        _ => None,
    }
}

/// What the program does after a key: redraw the lines, answer that there is
/// nothing to show, or evaluate an expression and then call
/// `finish_evaluation`.
pub enum KeyAction {
    Redraw,
    NoData,
    Evaluate(Expression),
}

pub enum SpecKeyAction {
    Redraw,
    NoData,
    Evaluate(SpecExpr),
}

impl View for KeyAction {
    type V = SpecKeyAction;

    open spec fn view(&self) -> SpecKeyAction {
        match *self {
            KeyAction::Redraw => SpecKeyAction::Redraw,
            KeyAction::NoData => SpecKeyAction::NoData,
            KeyAction::Evaluate(e) => SpecKeyAction::Evaluate(e@),
        }
    }
}

/// The text put on the answer line when the input does not parse.
pub open spec fn parse_err_text() -> Seq<char> {
    seq!['p', 'a', 'r', 's', 'e', ' ', 'e', 'r', 'r']
}

/// The text put on the answer line when evaluation fails.
pub open spec fn eval_err_text() -> Seq<char> {
    seq!['e', 'v', 'a', 'l', ' ', 'e', 'r', 'r']
}

/// `s` with an answer line and an empty line added at the end, and the
/// cursor two lines down at the start.
pub open spec fn with_answer(s: SciModel, answer: Seq<char>) -> SciModel {
    SciModel {
        lines: s.lines.push((answer, true)).push(empty_line()),
        line: s.line + 2,
        col: 0,
        ..s
    }
}

/// What a key does to the lines and the cursor: a text key types on a line
/// that is not an answer, 38 to 41 move the cursor left, up, right and down,
/// 5 on a line that is neither an answer nor empty adds its answer (here only
/// when the line does not parse: `parse err`).
pub open spec fn program_key(s: SciModel, key: u8) -> SciModel {
    match program_key_text(key) {
        Some(t) => {
            let lines1 = if s.lines.len() == 0 { seq![empty_line()] } else { s.lines };
            let line1 = if s.line >= lines1.len() { lines1.len() - 1 } else { s.line };
            if !lines1[line1].1 {
                SciModel {
                    lines: lines1.update(line1, (splice(lines1[line1].0, s.col, t), false)),
                    line: line1,
                    col: s.col + t.len(),
                    ..s
                }
            } else {
                SciModel { lines: lines1, line: line1, ..s }
            }
        },
        None => if key == 38 {
            SciModel { col: if s.col > 0 { s.col - 1 } else { s.col }, ..s }
        } else if key == 39 {
            if s.line > 0 {
                SciModel { line: s.line - 1, col: clamp_col(s.lines, s.line - 1, s.col), ..s }
            } else {
                s
            }
        } else if key == 40 {
            SciModel { col: if s.col < s.lines[s.line].0.len() { s.col + 1 } else { s.col }, ..s }
        } else if key == 41 {
            if s.line < s.lines.len() - 1 {
                SciModel { line: s.line + 1, col: clamp_col(s.lines, s.line + 1, s.col), ..s }
            } else {
                s
            }
        } else if key == 5 && !s.lines[s.line].1 && s.lines[s.line].0.len() > 0 && spec_parse(
            s.lines[s.line].0,
        ) is Err {
            with_answer(s, parse_err_text())
        } else {
            s
        },
    }
}

/// What the program does next after a key (see `KeyAction`).
pub open spec fn program_action(s: SciModel, key: u8) -> SpecKeyAction {
    match program_key_text(key) {
        Some(t) => {
            let lines1 = if s.lines.len() == 0 { seq![empty_line()] } else { s.lines };
            let line1 = if s.line >= lines1.len() { lines1.len() - 1 } else { s.line };
            if !lines1[line1].1 {
                SpecKeyAction::Redraw
            } else {
                SpecKeyAction::NoData
            }
        },
        None => if 38 <= key <= 41 {
            SpecKeyAction::Redraw
        } else if key == 5 && !s.lines[s.line].1 && s.lines[s.line].0.len() > 0 {
            match spec_parse(s.lines[s.line].0) {
                Ok(e) => SpecKeyAction::Evaluate(e),
                Err(()) => SpecKeyAction::Redraw,
            }
        } else {
            SpecKeyAction::NoData
        },
    }
}

/// When the program can handle a key: text goes in at a column within the
/// line, the line to evaluate has only literals that are numbers, and no
/// count passes `isize::MAX`.
pub open spec fn program_key_ok(s: SciModel, key: u8) -> bool {
    &&& s.lines.len() + 2 <= isize::MAX
    &&& match program_key_text(key) {
        Some(t) => !s.lines[s.line].1 ==> s.col <= s.lines[s.line].0.len() && s.col + t.len()
            <= isize::MAX && s.lines[s.line].0.len() + t.len() <= isize::MAX,
        None => key == 5 && !s.lines[s.line].1 ==> literals_are_numbers(s.lines[s.line].0),
    }
}

/// Handles a key pressed in the scientific mode of the program.
pub fn handle_key(state: &mut SciModeState, key: u8) -> (r: KeyAction)
    requires
        old(state).wf(),
        program_key_ok(old(state).model(), key),
    ensures
        final(state).wf(),
        final(state).model() == program_key(old(state).model(), key),
        r@ == program_action(old(state).model(), key),
{
    let ghost m = state.model();
    if let Some(text) = get_key_text(key) {
        if state.text.len() == 0 {
            state.text.push(Line::new(false, String::new()));
        }
        if state.line_number >= state.text.len() as isize {
            state.line_number = (state.text.len() - 1) as isize;
        }
        let line = state.line_number as usize;
        if !state.text[line].is_ans {
            let col = state.column_number as usize;
            let ghost before = state.text@[line as int].content();
            string_insert_str(&mut state.text[line].text, col, text);
            proof {
                lemma_ascii_splice(before, col as int, text@);
            }
            let n = text.unicode_len();
            state.column_number += n as isize;
            assert(state.model().lines =~= program_key(m, key).lines);
            return KeyAction::Redraw;
        }
        return KeyAction::NoData;
    }
    let line = state.line_number as usize;
    match key {
        38 => {
            if state.column_number > 0 {
                state.column_number -= 1;
            }
            assert(state.wf());
            KeyAction::Redraw
        },
        39 => {
            if state.line_number > 0 {
                state.line_number -= 1;
                let len = char_len(&state.text[state.line_number as usize].text) as isize;
                if state.column_number > len {
                    state.column_number = len;
                }
            }
            assert(state.wf());
            KeyAction::Redraw
        },
        40 => {
            if state.column_number < char_len(&state.text[line].text) as isize {
                state.column_number += 1;
            }
            assert(state.wf());
            KeyAction::Redraw
        },
        41 => {
            if state.line_number < state.text.len() as isize - 1 {
                state.line_number += 1;
                let len = char_len(&state.text[state.line_number as usize].text) as isize;
                if state.column_number > len {
                    state.column_number = len;
                }
            }
            KeyAction::Redraw
        },
        5 => {
            if !state.text[line].is_ans && char_len(&state.text[line].text) != 0 {
                match parse(state.text[line].text.as_str()) {
                    Ok(e) => KeyAction::Evaluate(e),
                    Err(_) => {
                        proof {
                            reveal_strlit("parse err");
                            assert("parse err"@ =~= parse_err_text());
                        }
                        add_answer(state, "parse err".to_owned());
                        assert(state.wf());
                        KeyAction::Redraw
                    },
                }
            } else {
                KeyAction::NoData
            }
        },
        _ => KeyAction::NoData,
    }
}

fn add_answer(state: &mut SciModeState, answer: String)
    requires
        old(state).wf(),
        old(state).text@.len() + 2 <= isize::MAX,
        is_ascii_chars(answer@),
        answer@.len() <= isize::MAX,
    ensures
        final(state).wf(),
        final(state).model() == with_answer(old(state).model(), answer@),
{
    let ghost m = state.model();
    state.text.push(Line::new(true, answer));
    state.text.push(Line::new(false, String::new()));
    state.line_number += 2;
    state.column_number = 0;
    assert(state.model().lines =~= with_answer(m, answer@).lines);
}

/// Adds the answer of an evaluation: its text (already formatted), or
/// `eval err` when the evaluation failed.
pub fn finish_evaluation(state: &mut SciModeState, answer: Option<String>)
    requires
        old(state).wf(),
        old(state).text@.len() + 2 <= isize::MAX,
        answer matches Some(t) ==> is_ascii_chars(t@) && t@.len() <= isize::MAX,
    ensures
        final(state).wf(),
        final(state).model() == with_answer(
            old(state).model(),
            match answer {
                Some(t) => t@,
                None => eval_err_text(),
            },
        ),
{
    match answer {
        Some(t) => add_answer(state, t),
        None => {
            proof {
                reveal_strlit("eval err");
                assert("eval err"@ =~= eval_err_text());
            }
            add_answer(state, "eval err".to_owned());
        },
    }
}

/// The keymap of the firmware's main loop and the calculator's keymap with
/// second off agree: every key that the main loop types with types the same
/// text on the calculator's screens.
pub proof fn law_keymaps_agree(key: u8)
    requires
        program_key_text(key) is Some,
    ensures
        crate::keymaps::key_text(key, false) == program_key_text(key),
{
}

/// The arrow keys of the firmware's scientific mode: 41 moves the cursor
/// down a line and 39 up a line (not past the last or the first), keeping
/// its column but not past the end of the new line; 40 moves it right and 38
/// left within its line (not past its end or its start).
pub proof fn law_program_arrow_keys(s: SciModel)
    requires
        0 <= s.line < s.lines.len(),
    ensures
        ({
            let down = if s.line < s.lines.len() - 1 { s.line + 1 } else { s.line };
            let up = if s.line > 0 { s.line - 1 } else { s.line };
            &&& program_key(s, 41) == (SciModel {
                line: down,
                col: if down != s.line && s.col > s.lines[down].0.len() {
                    s.lines[down].0.len() as int
                } else {
                    s.col
                },
                ..s
            })
            &&& program_key(s, 39) == (SciModel {
                line: up,
                col: if up != s.line && s.col > s.lines[up].0.len() {
                    s.lines[up].0.len() as int
                } else {
                    s.col
                },
                ..s
            })
            &&& program_key(s, 40) == (SciModel {
                col: if s.col < s.lines[s.line].0.len() { s.col + 1 } else { s.col },
                ..s
            })
            &&& program_key(s, 38) == (SciModel { col: if s.col > 0 { s.col - 1 } else { s.col }, ..s })
            &&& program_action(s, 38) == SpecKeyAction::Redraw
            &&& program_action(s, 39) == SpecKeyAction::Redraw
            &&& program_action(s, 40) == SpecKeyAction::Redraw
            &&& program_action(s, 41) == SpecKeyAction::Redraw
        }),
{
}

/// A key that types, on a line that is not an answer with the cursor within
/// it: the text goes in at the cursor, everything before and after the
/// cursor stays, the cursor moves past the text, and the screen is redrawn.
pub proof fn law_program_typing(s: SciModel, key: u8)
    requires
        program_key_text(key) is Some,
        0 <= s.line < s.lines.len(),
        !s.lines[s.line].1,
        0 <= s.col <= s.lines[s.line].0.len(),
    ensures
        ({
            let t = program_key_text(key)->Some_0;
            let r = program_key(s, key);
            let old_line = s.lines[s.line].0;
            let new_line = r.lines[s.line].0;
            &&& r.lines.len() == s.lines.len()
            &&& r.line == s.line
            &&& r.col == s.col + t.len()
            &&& new_line.len() == old_line.len() + t.len()
            &&& new_line.take(s.col) == old_line.take(s.col)
            &&& new_line.subrange(s.col, s.col + t.len()) == t
            &&& new_line.skip(s.col + t.len()) == old_line.skip(s.col)
            &&& forall|i: int| 0 <= i < s.lines.len() && i != s.line ==> r.lines[i] == s.lines[i]
            &&& program_action(s, key) == SpecKeyAction::Redraw
        }),
{
    let t = program_key_text(key)->Some_0;
    let new_line = program_key(s, key).lines[s.line].0;
    let old_line = s.lines[s.line].0;
    assert(new_line.take(s.col) =~= old_line.take(s.col));
    assert(new_line.subrange(s.col, s.col + t.len()) =~= t);
    assert(new_line.skip(s.col + t.len()) =~= old_line.skip(s.col));
}

/// Answer lines are read-only: with the cursor on an answer, no key changes
/// the lines, and none asks for an evaluation.
pub proof fn law_answer_lines_read_only(s: SciModel, key: u8)
    requires
        0 <= s.line < s.lines.len(),
        s.lines[s.line].1,
    ensures
        program_key(s, key).lines == s.lines,
        program_action(s, key) !is Evaluate,
{
}

/// No key changes an answer that is already on the screen, and no key
/// removes a line.
pub proof fn law_answers_stay(s: SciModel, key: u8, i: int)
    requires
        0 <= s.line < s.lines.len(),
        0 <= i < s.lines.len(),
        s.lines[i].1,
    ensures
        i < program_key(s, key).lines.len(),
        program_key(s, key).lines[i] == s.lines[i],
{
}

/// Finishing an evaluation adds exactly the answer line and a fresh line to
/// type on, and puts the cursor at the start of that fresh line.
pub proof fn law_answer_then_fresh_line(s: SciModel, answer: Seq<char>)
    ensures
        with_answer(s, answer).lines.len() == s.lines.len() + 2,
        with_answer(s, answer).lines.take(s.lines.len() as int) == s.lines,
        with_answer(s, answer).lines[s.lines.len() as int] == (answer, true),
        with_answer(s, answer).lines[s.lines.len() + 1int] == empty_line(),
        with_answer(s, answer).line == s.line + 2,
        with_answer(s, answer).col == 0,
{
    assert(with_answer(s, answer).lines.take(s.lines.len() as int) =~= s.lines);
}


/// The lines as the display model sees them.
pub open spec fn lines_model(lines: Seq<Line>) -> Seq<(Seq<char>, bool)> {
    lines.map_values(|l: Line| line_model(l))
}

/// One data write per byte.
pub open spec fn byte_writes(b: Seq<u8>) -> Seq<DisplayWrite> {
    b.map_values(|x: u8| DisplayWrite::Data(x))
}

/// The bytes of `line`'s UTF-8 encoding from `hoff` on, 16 at most.
pub open spec fn visible_bytes(line: Seq<char>, hoff: int) -> Seq<u8> {
    let b = encode_utf8(line);
    b.subrange(hoff, min(hoff + 16, b.len() as int))
}

/// The first `n` display rows, showing the lines from `voff` on, each from
/// byte `hoff` of its UTF-8 encoding on, 16 bytes at most.
pub open spec fn plain_rows(lines: Seq<(Seq<char>, bool)>, voff: int, hoff: int, n: int) -> Seq<
    DisplayWrite,
>
    decreases n,
{
    if n <= 0 {
        Seq::empty()
    } else {
        plain_rows(lines, voff, hoff, n - 1) + seq![
            DisplayWrite::Instruction(cursor_index((n - 1) as u8, 0)),
        ] + byte_writes(visible_bytes(lines[voff + n - 1].0, hoff))
    }
}

/// The writes that draw the lines scrolled to (`voff`, `hoff`), and the
/// cursor at (`line`, `col`).
pub open spec fn fix_display_frame(
    lines: Seq<(Seq<char>, bool)>,
    voff: int,
    hoff: int,
    line: int,
    col: int,
) -> Seq<DisplayWrite> {
    let x = col - hoff;
    let address = 15 + 16 * (line - voff);
    seq![DisplayWrite::Instruction(0x01), DisplayWrite::Instruction(0x02)] + plain_rows(
        lines,
        voff,
        hoff,
        min(voff + 4, lines.len() as int) - voff,
    ) + seq![
        DisplayWrite::Instruction(0x0C),
        DisplayWrite::Instruction(0x34),
        DisplayWrite::Instruction(0x36),
        DisplayWrite::Instruction(0x8F),
        DisplayWrite::Instruction(0x80),
    ] + repeat(DisplayWrite::Data(0), 32) + seq![
        DisplayWrite::Instruction(0x9F),
        DisplayWrite::Instruction(0x80),
    ] + repeat(DisplayWrite::Data(0), 32) + seq![
        DisplayWrite::Instruction((0x80 + address % 32) as u8),
        DisplayWrite::Instruction((0x80 + if address >= 32 { x / 2 + 8 } else { x / 2 }) as u8),
    ] + cursor_bytes(x) + seq![DisplayWrite::Instruction(0x30), DisplayWrite::End]
}

/// Where a line in view can be cut for the display: its UTF-8 encoding
/// reaches byte `h`, and both `h` and the end of the part shown (16 bytes
/// on, or the end of the line) fall on character boundaries.
pub open spec fn cuttable(line: Seq<char>, h: int) -> bool {
    let b = encode_utf8(line);
    &&& h <= b.len()
    &&& is_char_boundary(b, h)
    &&& is_char_boundary(b, min(h + 16, b.len() as int))
}

/// When the lines can be drawn: the cursor is on a line, every line in view
/// can be cut at the edges of the view, and the counts fit in an `isize`.
pub open spec fn fix_display_ok(
    lines: Seq<(Seq<char>, bool)>,
    voff: int,
    hoff: int,
    line: int,
    col: int,
) -> bool {
    let v = scroll_to_show(voff, line, 4);
    let h = scroll_to_show(hoff, col, 16);
    &&& 0 <= line < lines.len()
    &&& 0 <= col && col + 16 <= isize::MAX
    &&& 0 <= voff && 0 <= hoff <= isize::MAX
    &&& lines.len() + 4 <= isize::MAX
    &&& forall|i: int| v <= i < min(v + 4, lines.len() as int) ==> cuttable((#[trigger] lines[i]).0, h)
}

/// The start of the view after scrolling just enough to show `cursor` in a
/// view `width` wide.
fn corrected_offset(offset: isize, cursor: isize, width: isize) -> (r: isize)
    requires
        0 <= offset,
        0 <= cursor,
        cursor + width <= isize::MAX,
        1 <= width <= 16,
    ensures
        r == scroll_to_show(offset as int, cursor as int, width as int),
{
    let old_cursor_display: isize = cursor - offset;
    let bg_correct: isize = if old_cursor_display < 0 {
        old_cursor_display
    } else if old_cursor_display >= width {
        old_cursor_display - (width - 1)
    } else {
        0
    };
    offset + bg_correct
}

fn push_plain_rows(out: &mut Vec<DisplayWrite>, lines: &Vec<Line>, v: isize, h: isize)
    requires
        0 <= v <= lines@.len(),
        0 <= h <= isize::MAX,
        forall|k: int|
            v <= k < min(v + 4, lines@.len() as int) ==> cuttable(
                (#[trigger] lines@[k]).content(),
                h as int,
            ),
    ensures
        final(out)@ == old(out)@ + plain_rows(
            lines_model(lines@),
            v as int,
            h as int,
            min(v + 4, lines@.len() as int) - v,
        ),
{
    let ghost lm = lines_model(lines@);
    let len = lines.len();
    let rows_end = if (v as usize) + 4 < len { v as usize + 4 } else { len };
    let n_rows = rows_end - v as usize;
    let ghost rows_start = out@;
    for i in 0..n_rows
        invariant
            lm == lines_model(lines@),
            0 <= v,
            0 <= h <= isize::MAX,
            n_rows <= 4,
            v + n_rows <= lm.len(),
            n_rows == min(v + 4, lm.len() as int) - v,
            lines@.len() == lm.len(),
            rows_start == old(out)@,
            forall|k: int|
                v <= k < min(v + 4, lines@.len() as int) ==> cuttable(
                    (#[trigger] lines@[k]).content(),
                    h as int,
                ),
            out@ == rows_start + plain_rows(lm, v as int, h as int, i as int),
    {
        let l = &lines[v as usize + i];
        assert(lm[v + i] == line_model(*l));
        assert(cuttable(lines@[v + i].content(), h as int));
        let bytes = l.text.as_str().as_bytes();
        let ghost b = encode_utf8(l.text@);
        assert(bytes@ == b);
        let b_len = bytes.len();
        let end = if (h as usize) + 16 < b_len { h as usize + 16 } else { b_len };
        out.push(DisplayWrite::Instruction(get_cursor_index(i as u8, 0)));
        let ghost row_start = out@;
        let mut k = h as usize;
        while k < end
            invariant
                bytes@ == b,
                0 <= h <= k <= end,
                end <= b.len(),
                out@ == row_start + byte_writes(b.subrange(h as int, k as int)),
            decreases end - k,
        {
            out.push(DisplayWrite::Data(bytes[k]));
            assert(b.subrange(h as int, k + 1) =~= b.subrange(h as int, k as int).push(b[k as int]));
            assert(byte_writes(b.subrange(h as int, k + 1)) =~= byte_writes(
                b.subrange(h as int, k as int),
            ).push(DisplayWrite::Data(b[k as int])));
            k += 1;
        }
        assert(b.subrange(h as int, end as int) == visible_bytes(lm[v + i].0, h as int));
        assert(out@ =~= rows_start + plain_rows(lm, v as int, h as int, i + 1));
    }
}

/// The writes after the rows: blank both cursor rows of the graphics memory,
/// then draw the cursor at display position (`x`, `y`).
pub open spec fn plain_cursor_writes(x: int, y: int) -> Seq<DisplayWrite> {
    let address = 15 + 16 * y;
    seq![
        DisplayWrite::Instruction(0x0C),
        DisplayWrite::Instruction(0x34),
        DisplayWrite::Instruction(0x36),
        DisplayWrite::Instruction(0x8F),
        DisplayWrite::Instruction(0x80),
    ] + repeat(DisplayWrite::Data(0), 32) + seq![
        DisplayWrite::Instruction(0x9F),
        DisplayWrite::Instruction(0x80),
    ] + repeat(DisplayWrite::Data(0), 32) + seq![
        DisplayWrite::Instruction((0x80 + address % 32) as u8),
        DisplayWrite::Instruction((0x80 + if address >= 32 { x / 2 + 8 } else { x / 2 }) as u8),
    ] + cursor_bytes(x) + seq![DisplayWrite::Instruction(0x30), DisplayWrite::End]
}

fn push_plain_cursor(out: &mut Vec<DisplayWrite>, cursor_display_x: u8, cursor_display_y: u8)
    requires
        cursor_display_x < 16,
        cursor_display_y < 4,
    ensures
        final(out)@ == old(out)@ + plain_cursor_writes(
            cursor_display_x as int,
            cursor_display_y as int,
        ),
{
    let ghost start = out@;
    out.push(DisplayWrite::Instruction(0x0C));
    out.push(DisplayWrite::Instruction(0x34));
    out.push(DisplayWrite::Instruction(0x36));
    assert(0x80u8 | 15u8 == 0x8Fu8 && 0x80u8 | 31u8 == 0x9Fu8) by (bit_vector);
    out.push(DisplayWrite::Instruction(0x80 | 15));
    out.push(DisplayWrite::Instruction(0x80));
    push_repeat(out, DisplayWrite::Data(0x00), 32);
    out.push(DisplayWrite::Instruction(0x80 | 31));
    out.push(DisplayWrite::Instruction(0x80));
    push_repeat(out, DisplayWrite::Data(0x00), 32);
    let vertical_address = 15 + 16 * cursor_display_y;
    let horizontal_address = cursor_display_x / 2;
    let first_byte = cursor_display_x % 2 == 0;
    assert(0x80u8 | (vertical_address % 32) == (0x80 + vertical_address % 32) as u8) by (bit_vector)
        requires
            vertical_address < 64;
    assert(0x80u8 | ((horizontal_address + 8) as u8) == (0x80 + horizontal_address + 8) as u8
        && 0x80u8 | horizontal_address == (0x80 + horizontal_address) as u8) by (bit_vector)
        requires
            horizontal_address < 8;
    out.push(DisplayWrite::Instruction(0x80 | (vertical_address % 32)));
    out.push(
        DisplayWrite::Instruction(
            0x80 | if vertical_address >= 32 {
                horizontal_address + 8
            } else {
                horizontal_address
            },
        ),
    );
    if first_byte {
        out.push(DisplayWrite::Data(0xFF));
        out.push(DisplayWrite::Data(0x00));
    } else {
        out.push(DisplayWrite::Data(0x00));
        out.push(DisplayWrite::Data(0xFF));
    }
    out.push(DisplayWrite::Instruction(0x30));
    out.push(DisplayWrite::End);
    assert(out@ =~= start + plain_cursor_writes(cursor_display_x as int, cursor_display_y as int));
}

/// Scrolls so that the cursor at (`cursor_line`, `cursor_column`) shows, and
/// returns the writes that draw the lines and the cursor.
pub fn sci_mode_fix_display(
    lines: &Vec<Line>,
    vertical: &mut isize,
    horizontal: &mut isize,
    cursor_line: isize,
    cursor_column: isize,
) -> (r: Vec<DisplayWrite>)
    requires
        fix_display_ok(
            lines_model(lines@),
            *old(vertical) as int,
            *old(horizontal) as int,
            cursor_line as int,
            cursor_column as int,
        ),
    ensures
        *final(vertical) == scroll_to_show(*old(vertical) as int, cursor_line as int, 4),
        *final(horizontal) == scroll_to_show(*old(horizontal) as int, cursor_column as int, 16),
        r@ == fix_display_frame(
            lines_model(lines@),
            *final(vertical) as int,
            *final(horizontal) as int,
            cursor_line as int,
            cursor_column as int,
        ),
{
    let ghost lm = lines_model(lines@);
    *horizontal = corrected_offset(*horizontal, cursor_column, 16);
    *vertical = corrected_offset(*vertical, cursor_line, 4);
    let h = *horizontal;
    let v = *vertical;
    proof {
        crate::gui::law_scroll_shows_cursor(*old(vertical) as int, cursor_line as int, 4);
        crate::gui::law_scroll_shows_cursor(*old(horizontal) as int, cursor_column as int, 16);
        assert forall|k: int| v <= k < min(v + 4, lines@.len() as int) implies cuttable(
            (#[trigger] lines@[k]).content(),
            h as int,
        ) by {
            assert(lm[k].0 == lines@[k].content());
        }
    }
    let mut out: Vec<DisplayWrite> = Vec::new();
    out.push(DisplayWrite::Instruction(0x01));
    out.push(DisplayWrite::Instruction(0x02));
    push_plain_rows(&mut out, lines, v, h);
    push_plain_cursor(&mut out, (cursor_column - h) as u8, (cursor_line - v) as u8);
    out
}


/// Whether `handle_key` may be called with this key (see `program_key_ok`).
pub fn key_is_ok(state: &SciModeState, key: u8) -> (r: bool)
    requires
        state.wf(),
    ensures
        r == program_key_ok(state.model(), key),
{
    if state.text.len() > (isize::MAX - 2) as usize {
        return false;
    }
    let line = state.line_number as usize;
    let col = state.column_number;
    let len = char_len(&state.text[line].text);
    assert(state.text@[line as int].content().len() <= isize::MAX);
    let on_answer = state.text[line].is_ans;
    match get_key_text(key) {
        Some(t) => {
            let n = t.unicode_len();
            assert(len <= isize::MAX);
            on_answer || (col as usize <= len && n as isize <= isize::MAX - col && n <= (
            isize::MAX as usize) - len)
        },
        None => !(key == 5 && !on_answer) || check_literals(state.text[line].text.as_str()),
    }
}

/// Whether `x` falls on a character boundary of the UTF-8 bytes `b`.
fn byte_is_boundary(b: &[u8], x: usize) -> (r: bool)
    requires
        valid_utf8(b@),
        x <= b@.len(),
    ensures
        r == is_char_boundary(b@, x as int),
{
    proof {
        vstd::utf8::is_char_boundary_start_end_of_seq(b@);
    }
    if x == b.len() {
        true
    } else {
        proof {
            vstd::utf8::is_char_boundary_iff_not_is_continuation_byte(b@, x as int);
        }
        let byte = b[x];
        !(0x80 <= byte && byte <= 0xbf)
    }
}

/// Whether `sci_mode_fix_display` may be called (see `fix_display_ok`).
pub fn fix_display_is_ok(
    lines: &Vec<Line>,
    vertical: isize,
    horizontal: isize,
    cursor_line: isize,
    cursor_column: isize,
) -> (r: bool)
    ensures
        r == fix_display_ok(
            lines_model(lines@),
            vertical as int,
            horizontal as int,
            cursor_line as int,
            cursor_column as int,
        ),
{
    let ghost lm = lines_model(lines@);
    let len = lines.len();
    if len > (isize::MAX - 4) as usize || cursor_line < 0 || cursor_line >= len as isize
        || cursor_column < 0 || cursor_column > isize::MAX - 16 || vertical < 0 || horizontal
        < 0 {
        return false;
    }
    let v = corrected_offset(vertical, cursor_line, 4);
    let h = corrected_offset(horizontal, cursor_column, 16);
    let rows_end = if (v as usize) + 4 < len { v as usize + 4 } else { len };
    let mut k = v as usize;
    while k < rows_end
        invariant
            lm == lines_model(lines@),
            len == lines@.len(),
            0 <= v <= k <= rows_end,
            v == scroll_to_show(vertical as int, cursor_line as int, 4),
            h == scroll_to_show(horizontal as int, cursor_column as int, 16),
            rows_end == min(v + 4, len as int),
            0 <= h,
            forall|j: int| v <= j < k ==> cuttable((#[trigger] lm[j]).0, h as int),
        decreases rows_end - k,
    {
        assert(lm[k as int].0 == lines@[k as int].content());
        let bytes = lines[k].text.as_str().as_bytes();
        let ghost b = encode_utf8(lines@[k as int].content());
        assert(bytes@ == b);
        proof {
            vstd::utf8::encode_utf8_valid_utf8(lines@[k as int].content());
        }
        let b_len = bytes.len();
        if (h as usize) > b_len {
            return false;
        }
        let end = if (h as usize) + 16 < b_len { h as usize + 16 } else { b_len };
        if !byte_is_boundary(bytes, h as usize) || !byte_is_boundary(bytes, end) {
            return false;
        }
        k += 1;
    }
    true
}

} // verus!
