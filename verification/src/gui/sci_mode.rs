use vstd::prelude::*;
use vstd::utf8::is_ascii_chars;
use vstd::string::StrSliceExecFns;
use crate::gui::{
    CalculatorMenu,
    CalculatorState,
    CalcModel,
    DisplayWrite,
    clear_gdram,
    clear_gdram_writes,
    cursor_index,
    get_cursor_index,
    push_repeat,
    push_text,
    repeat,
    scroll_to_show,
    text_writes,
};
use crate::gui::graph_eq::cursor_bytes;
use crate::gui::constants::ConstantsModel;
use crate::keymaps::{get_key_text, key_text, lemma_key_text_ascii};
use crate::parser::{ExpressionError, parse, spec_parse};
use crate::parser::expression::{Expression, SpecExpr};
use crate::parser::tokenizer::{literals_are_numbers, check_literals};
use crate::text::{string_insert_str, string_remove, string_clear, char_len, lemma_ascii_splice, lemma_ascii_remove};

verus! {

/// A line of the scientific screen: something typed, or an answer.
pub struct Line {
    pub text: String,
    pub is_ans: bool,
}

impl Line {
    pub open spec fn content(&self) -> Seq<char> {
        self.text@
    }

    pub fn new(is_ans: bool, text: String) -> (r: Self)
        ensures
            r.content() == text@,
            r.is_ans == is_ans,
    {
        Self { text, is_ans }
    }
}

/// The model of a line: its text and whether it is an answer.
pub open spec fn line_model(l: Line) -> (Seq<char>, bool) {
    (l.content(), l.is_ans)
}

/// The scientific screen: its lines, the cursor, and which part of the
/// lines the display shows.
pub struct SciModeState {
    pub text: Vec<Line>,
    pub text_vertical_offset: isize,
    pub text_horizontal_offset: isize,
    pub line_number: isize,
    pub column_number: isize,
}

pub struct SciModel {
    pub lines: Seq<(Seq<char>, bool)>,
    pub voff: int,
    pub hoff: int,
    pub line: int,
    pub col: int,
}

impl SciModeState {
    pub open spec fn model(&self) -> SciModel {
        SciModel {
            lines: self.text@.map_values(|l: Line| line_model(l)),
            voff: self.text_vertical_offset as int,
            hoff: self.text_horizontal_offset as int,
            line: self.line_number as int,
            col: self.column_number as int,
        }
    }

    /// There is a line, the cursor is on one, the texts are ASCII, and the
    /// counts fit in an `isize`.
    pub open spec fn wf(&self) -> bool {
        &&& self.text@.len() >= 1
        &&& self.text@.len() <= isize::MAX
        &&& 0 <= self.line_number < self.text@.len()
        &&& 0 <= self.column_number
        &&& 0 <= self.text_vertical_offset
        &&& 0 <= self.text_horizontal_offset
        &&& forall|i: int|
            0 <= i < self.text@.len() ==> is_ascii_chars(#[trigger] self.text@[i].content())
                && self.text@[i].content().len() <= isize::MAX
    }

    pub open spec fn new_model() -> SciModel {
        SciModel { lines: seq![(Seq::empty(), false)], voff: 0, hoff: 0, line: 0, col: 0 }
    }

    pub fn new() -> (r: Self)
        ensures
            r.wf(),
            r.model() == Self::new_model(),
    {
        let r = Self {
            text: vec![Line::new(false, String::new())],
            text_vertical_offset: 0,
            text_horizontal_offset: 0,
            line_number: 0,
            column_number: 0,
        };
        assert(r.model().lines =~= seq![(Seq::<char>::empty(), false)]);
        r
    }
}


/// `t` put into `a` at position `i`.
pub open spec fn splice(a: Seq<char>, i: int, t: Seq<char>) -> Seq<char> {
    a.take(i) + t + a.skip(i)
}

/// `a` without the character at position `i`.
pub open spec fn remove_at(a: Seq<char>, i: int) -> Seq<char> {
    a.take(i) + a.skip(i + 1)
}

pub open spec fn empty_line() -> (Seq<char>, bool) {
    (Seq::empty(), false)
}

/// The column clamped to the length of line `line`.
pub open spec fn clamp_col(lines: Seq<(Seq<char>, bool)>, line: int, col: int) -> int {
    if col > lines[line].0.len() {
        lines[line].0.len() as int
    } else {
        col
    }
}

/// A text key: on a line that is not an answer, the text goes in at the
/// cursor and the cursor moves past it; answers cannot be typed on.
pub open spec fn sci_type(s: SciModel, t: Seq<char>) -> SciModel {
    let lines1 = if s.lines.len() == 0 { seq![empty_line()] } else { s.lines };
    let line1 = if s.line >= lines1.len() { lines1.len() - 1 } else { s.line };
    if !lines1[line1].1 {
        SciModel {
            lines: lines1.update(line1, (splice(lines1[line1].0, s.col, t), false)),
            line: line1,
            col: s.col + t.len(),
            ..s
        }
    } else {
        SciModel { lines: lines1, line: line1, ..s }
    }
}

/// Key 19 deletes the character left of the cursor (the first one when the
/// cursor is at the start) and moves the cursor left.
pub open spec fn sci_delete(s: SciModel) -> SciModel {
    let cur = s.lines[s.line];
    let lines1 = if cur.0.len() > 0 {
        s.lines.update(
            s.line,
            (remove_at(cur.0, if s.col - 1 > 0 { s.col - 1 } else { 0 }), cur.1),
        )
    } else {
        s.lines
    };
    SciModel { lines: lines1, col: if s.col > 0 { s.col - 1 } else { s.col }, ..s }
}

/// Key 13 on a line that is not an answer: the line goes, with its answer
/// if one follows; the last line is emptied instead.
pub open spec fn sci_clear(s: SciModel) -> SciModel {
    let line = s.line;
    if !s.lines[line].1 {
        let lines1 = if line + 1 < s.lines.len() {
            if s.lines[line + 1].1 {
                s.lines.take(line) + s.lines.skip(line + 2)
            } else {
                s.lines.take(line) + s.lines.skip(line + 1)
            }
        } else {
            s.lines.update(line, (Seq::empty(), s.lines[line].1))
        };
        let lines2 = if lines1.len() == 0 { seq![empty_line()] } else { lines1 };
        let line2 = if line == lines2.len() { line - 1 } else { line };
        let col2 = if s.col > lines2[line2].0.len() && !lines2[line2].1 {
            lines2[line2].0.len() as int
        } else {
            s.col
        };
        SciModel { lines: lines2, line: line2, col: col2, ..s }
    } else {
        s
    }
}

/// Whether key 5 asks for the line under the cursor to be evaluated: it is
/// not an answer and not empty.
pub open spec fn sci_eval_applies(s: SciModel) -> bool {
    !s.lines[s.line].1 && s.lines[s.line].0.len() > 0
}

/// What a key does on the scientific screen (evaluation aside): text keys
/// type, 18 opens the constants, 19 deletes, 13 clears, 38 to 41 move the
/// cursor left, up, right and down, 36 opens the equation screen, and 5 on a
/// line that does not parse shows the error screen.
pub open spec fn sci_press(m: CalcModel, key_id: u8) -> CalcModel {
    let s = m.sci;
    match key_text(key_id, m.second) {
        Some(t) => CalcModel { sci: sci_type(s, t), ..m },
        None => if key_id == 18 {
            CalcModel {
                constants: ConstantsModel { previous: CalculatorMenu::Sci, ..m.constants },
                mode: CalculatorMenu::Constants,
                ..m
            }
        } else if key_id == 19 {
            CalcModel { sci: sci_delete(s), ..m }
        } else if key_id == 13 {
            CalcModel { sci: sci_clear(s), ..m }
        } else if key_id == 38 {
            if s.col > 0 && !s.lines[s.line].1 {
                CalcModel { sci: SciModel { col: s.col - 1, ..s }, ..m }
            } else {
                m
            }
        } else if key_id == 39 {
            if s.line > 0 {
                CalcModel {
                    sci: SciModel {
                        line: s.line - 1,
                        col: clamp_col(s.lines, s.line - 1, s.col),
                        ..s
                    },
                    ..m
                }
            } else {
                m
            }
        } else if key_id == 40 {
            if s.col < s.lines[s.line].0.len() && !s.lines[s.line].1 {
                CalcModel { sci: SciModel { col: s.col + 1, ..s }, ..m }
            } else {
                m
            }
        } else if key_id == 41 {
            if s.line < s.lines.len() - 1 {
                CalcModel {
                    sci: SciModel {
                        line: s.line + 1,
                        col: clamp_col(s.lines, s.line + 1, s.col),
                        ..s
                    },
                    ..m
                }
            } else {
                m
            }
        } else if key_id == 36 {
            CalcModel { mode: CalculatorMenu::GraphEq, ..m }
        } else if key_id == 5 && sci_eval_applies(s) && spec_parse(s.lines[s.line].0) is Err {
            CalcModel {
                error: ExpressionError::InvalidSyntax(0),
                mode: CalculatorMenu::SciError,
                ..m
            }
        } else {
            m
        },
    }
}

/// The expression that key `key_id` hands over to be evaluated: the line
/// under the cursor, parsed, when the key is 5 and evaluation applies.
pub open spec fn sci_eval_request(m: CalcModel, key_id: u8) -> Option<SpecExpr> {
    if key_text(key_id, m.second) is None && key_id == 5 && sci_eval_applies(m.sci) {
        match spec_parse(m.sci.lines[m.sci.line].0) {
            Ok(e) => Some(e),
            Err(()) => None,
        }
    } else {
        None
    }
}

/// When a key can be handled on the scientific screen: text goes in at a
/// column within the line, a deletion has a character to remove, the line to
/// evaluate has only literals that are numbers, and no count passes
/// `isize::MAX`.
pub open spec fn sci_press_ok(m: CalcModel, key_id: u8) -> bool {
    let s = m.sci;
    match key_text(key_id, m.second) {
        Some(t) => !s.lines[s.line].1 ==> s.col <= s.lines[s.line].0.len() && s.col + t.len()
            <= isize::MAX && s.lines[s.line].0.len() + t.len() <= isize::MAX,
        None => {
            &&& key_id == 19 && s.lines[s.line].0.len() > 0 ==> (if s.col - 1 > 0 {
                s.col - 1
            } else {
                0
            }) < s.lines[s.line].0.len()
            &&& key_id == 5 && sci_eval_applies(s) ==> literals_are_numbers(s.lines[s.line].0)
        },
    }
}

/// Handles a key on the scientific screen. For the evaluation key on a line
/// that parses, returns the parsed expression: evaluating it, and then
/// `finish_evaluation`, is left to the caller.
pub fn handle_button_press(key_id: u8, calc_state: &mut CalculatorState) -> (r: Option<
    Expression,
>)
    requires
        old(calc_state).wf(),
        sci_press_ok(old(calc_state).model(), key_id),
    ensures
        final(calc_state).wf(),
        final(calc_state).model() == sci_press(old(calc_state).model(), key_id),
        match r {
            Some(e) => sci_eval_request(old(calc_state).model(), key_id) == Some(e@),
            None => sci_eval_request(old(calc_state).model(), key_id) is None,
        },
{
    proof {
        lemma_key_text_ascii(key_id, calc_state.second);
    }
    let ghost m = calc_state.model();
    if let Some(text) = get_key_text(key_id, calc_state) {
        if calc_state.sci_state.text.len() == 0 {
            calc_state.sci_state.text.push(Line::new(false, String::new()));
        }
        if calc_state.sci_state.line_number >= calc_state.sci_state.text.len() as isize {
            calc_state.sci_state.line_number = (calc_state.sci_state.text.len() - 1) as isize;
        }
        let line = calc_state.sci_state.line_number as usize;
        if !calc_state.sci_state.text[line].is_ans {
            let col = calc_state.sci_state.column_number as usize;
            let ghost before = calc_state.sci_state.text@[line as int].content();
            string_insert_str(&mut calc_state.sci_state.text[line].text, col, text);
            proof {
                lemma_ascii_splice(before, col as int, text@);
            }
            let n = text.unicode_len();
            calc_state.sci_state.column_number += n as isize;
            assert(calc_state.model().sci.lines =~= sci_type(m.sci, text@).lines);
        }
        return None;
    }
    let line = calc_state.sci_state.line_number as usize;
    match key_id {
        18 => {
            calc_state.constants_state.set_previous_screen(CalculatorMenu::Sci);
            calc_state.mode = CalculatorMenu::Constants;
        },
        19 => {
            if char_len(&calc_state.sci_state.text[line].text) != 0 {
                let col = calc_state.sci_state.column_number;
                let at = if col - 1 > 0 { col - 1 } else { 0 };
                let ghost before = calc_state.sci_state.text@[line as int].content();
                string_remove(&mut calc_state.sci_state.text[line].text, at as usize);
                proof {
                    lemma_ascii_remove(before, at as int);
                }
            }
            if calc_state.sci_state.column_number > 0 {
                calc_state.sci_state.column_number -= 1;
            }
            assert(calc_state.model().sci.lines =~= sci_delete(m.sci).lines);
        },
        13 => {
            clear_line(&mut calc_state.sci_state);
        },
        38 => {
            if calc_state.sci_state.column_number > 0 && !calc_state.sci_state.text[line].is_ans {
                calc_state.sci_state.column_number -= 1;
            }
        },
        39 => {
            if calc_state.sci_state.line_number > 0 {
                calc_state.sci_state.line_number -= 1;
                let len = char_len(
                    &calc_state.sci_state.text[calc_state.sci_state.line_number as usize].text,
                ) as isize;
                if calc_state.sci_state.column_number > len {
                    calc_state.sci_state.column_number = len;
                }
            }
        },
        40 => {
            let len = char_len(&calc_state.sci_state.text[line].text) as isize;
            if calc_state.sci_state.column_number < len && !calc_state.sci_state.text[line].is_ans {
                calc_state.sci_state.column_number += 1;
            }
        },
        41 => {
            if calc_state.sci_state.line_number < calc_state.sci_state.text.len() as isize - 1 {
                calc_state.sci_state.line_number += 1;
                let len = char_len(
                    &calc_state.sci_state.text[calc_state.sci_state.line_number as usize].text,
                ) as isize;
                if calc_state.sci_state.column_number > len {
                    calc_state.sci_state.column_number = len;
                }
            }
        },
        36 => {
            calc_state.mode = CalculatorMenu::GraphEq;
        },
        5 => {
            if !calc_state.sci_state.text[line].is_ans && char_len(
                &calc_state.sci_state.text[line].text,
            ) != 0 {
                match parse(calc_state.sci_state.text[line].text.as_str()) {
                    Ok(e) => {
                        return Some(e);
                    },
                    Err(e) => {
                        calc_state.sci_err_state.0 = e;
                        calc_state.mode = CalculatorMenu::SciError;
                    },
                }
            }
        },
        _ => {},
    }
    None
}

/// Key 13 on the scientific screen (see `sci_clear`).
fn clear_line(s: &mut SciModeState)
    requires
        old(s).wf(),
    ensures
        final(s).wf(),
        final(s).model() == sci_clear(old(s).model()),
{
    let ghost m = s.model();
    let line = s.line_number as usize;
    if !s.text[line].is_ans {
        let next_is_ans = if line + 1 < s.text.len() {
            Some(s.text[line + 1].is_ans)
        } else {
            None
        };
        match next_is_ans {
            Some(true) => {
                s.text.remove(line);
                s.text.remove(line);
            },
            Some(false) => {
                s.text.remove(line);
            },
            None => {
                string_clear(&mut s.text[line].text);
            },
        }
        if s.text.len() == 0 {
            s.text.push(Line::new(false, String::new()));
        }
        if s.line_number == s.text.len() as isize {
            s.line_number -= 1;
        }
        let l = s.line_number as usize;
        let len = char_len(&s.text[l].text) as isize;
        if s.column_number > len && !s.text[l].is_ans {
            s.column_number = len;
        }
        assert(s.model().lines =~= sci_clear(m).lines);
    }
}

/// Answer lines are read-only: with the cursor on an answer, no key but the
/// deletion key changes the lines, the cursor stays in its column, and no
/// key asks for an evaluation.
pub proof fn law_sci_answer_lines_read_only(m: CalcModel, key_id: u8)
    requires
        0 <= m.sci.line < m.sci.lines.len(),
        m.sci.lines[m.sci.line].1,
        key_id != 19 || key_text(key_id, m.second) is Some,
    ensures
        sci_press(m, key_id).sci.lines == m.sci.lines,
        sci_press(m, key_id).sci.col == m.sci.col || key_id == 39 || key_id == 41,
        sci_eval_request(m, key_id) is None,
{
}

/// The state of the scientific screen that every key keeps: there is a line,
/// every line is ASCII, the cursor is on a line, and on a line that is not
/// an answer it is within the line or just after it.
pub open spec fn sci_invariant(s: SciModel) -> bool {
    &&& s.lines.len() >= 1
    &&& 0 <= s.line < s.lines.len()
    &&& 0 <= s.col
    &&& s.lines[s.line].1 || s.col <= s.lines[s.line].0.len()
    &&& forall|i: int| 0 <= i < s.lines.len() ==> is_ascii_chars(#[trigger] s.lines[i].0)
}

/// Every key keeps the invariant of the scientific screen (a deletion on an
/// answer line must have a character at the cursor to remove, else the key
/// cannot be handled).
pub proof fn law_sci_keys_keep_invariant(m: CalcModel, key_id: u8)
    requires
        sci_invariant(m.sci),
        key_id == 19 && key_text(key_id, m.second) is None && m.sci.lines[m.sci.line].0.len() > 0
            ==> (if m.sci.col - 1 > 0 {
            m.sci.col - 1
        } else {
            0
        }) < m.sci.lines[m.sci.line].0.len(),
    ensures
        sci_invariant(sci_press(m, key_id).sci),
{
    let s = m.sci;
    let r = sci_press(m, key_id).sci;
    lemma_key_text_ascii(key_id, m.second);
    match key_text(key_id, m.second) {
        Some(t) => {
            if !s.lines[s.line].1 {
                lemma_ascii_splice(s.lines[s.line].0, s.col, t);
                assert forall|i: int| 0 <= i < r.lines.len() implies is_ascii_chars(
                    #[trigger] r.lines[i].0,
                ) by {
                    if i != s.line {
                        assert(r.lines[i] == s.lines[i]);
                    }
                }
            }
        },
        None => {
            if key_id == 19 {
                let cur = s.lines[s.line];
                if cur.0.len() > 0 {
                    lemma_ascii_remove(cur.0, if s.col - 1 > 0 { s.col - 1 } else { 0 });
                }
                assert forall|i: int| 0 <= i < r.lines.len() implies is_ascii_chars(
                    #[trigger] r.lines[i].0,
                ) by {
                    if i != s.line {
                        assert(r.lines[i] == s.lines[i]);
                    }
                }
            } else if key_id == 13 && !s.lines[s.line].1 {
                let line = s.line;
                if line + 1 < s.lines.len() {
                    let d: int = if s.lines[line + 1].1 { 2 } else { 1 };
                    let lines1 = s.lines.take(line) + s.lines.skip(line + d);
                    assert forall|i: int| 0 <= i < lines1.len() implies is_ascii_chars(
                        #[trigger] lines1[i].0,
                    ) by {
                        if i < line {
                            assert(lines1[i] == s.lines[i]);
                        } else {
                            assert(lines1[i] == s.lines[i + d]);
                        }
                    }
                } else {
                    assert(is_ascii_chars(Seq::<char>::empty()));
                    assert forall|i: int| 0 <= i < r.lines.len() implies is_ascii_chars(
                        #[trigger] r.lines[i].0,
                    ) by {
                        if i != line {
                            assert(r.lines[i] == s.lines[i]);
                        }
                    }
                }
                assert(is_ascii_chars(Seq::<char>::empty()));
            }
        },
    }
}

/// Showing the outcome of an evaluation keeps the invariant of the
/// scientific screen when an answer is ASCII.
pub proof fn law_sci_finish_keeps_invariant(
    m: CalcModel,
    outcome: Result<Seq<char>, ExpressionError>,
)
    requires
        sci_invariant(m.sci),
        outcome matches Ok(t) ==> is_ascii_chars(t),
    ensures
        sci_invariant(sci_finish(m, outcome).sci),
{
    let s = m.sci;
    let r = sci_finish(m, outcome).sci;
    assert(is_ascii_chars(Seq::<char>::empty()));
    assert forall|i: int| 0 <= i < r.lines.len() implies is_ascii_chars(#[trigger] r.lines[i].0) by {
        if i < s.lines.len() && (outcome is Err || i != s.line + 1 || s.line >= s.lines.len() - 2) {
            assert(r.lines[i] == s.lines[i]);
        }
    }
}

/// The arrow keys of the scientific screen: 41 moves the cursor down a line
/// and 39 up a line (not past the last or the first), keeping its column
/// but not past the end of the new line; 40 moves it right and 38 left
/// within a line that is not an answer (not past its end or its start).
/// Nothing else changes.
pub proof fn law_sci_arrow_keys(m: CalcModel)
    requires
        0 <= m.sci.line < m.sci.lines.len(),
    ensures
        ({
            let s = m.sci;
            let down = if s.line < s.lines.len() - 1 { s.line + 1 } else { s.line };
            let up = if s.line > 0 { s.line - 1 } else { s.line };
            let on_ans = s.lines[s.line].1;
            &&& sci_press(m, 41) == (CalcModel {
                sci: SciModel {
                    line: down,
                    col: if down != s.line && s.col > s.lines[down].0.len() {
                        s.lines[down].0.len() as int
                    } else {
                        s.col
                    },
                    ..s
                },
                ..m
            })
            &&& sci_press(m, 39) == (CalcModel {
                sci: SciModel {
                    line: up,
                    col: if up != s.line && s.col > s.lines[up].0.len() {
                        s.lines[up].0.len() as int
                    } else {
                        s.col
                    },
                    ..s
                },
                ..m
            })
            &&& sci_press(m, 40) == (CalcModel {
                sci: SciModel {
                    col: if !on_ans && s.col < s.lines[s.line].0.len() {
                        s.col + 1
                    } else {
                        s.col
                    },
                    ..s
                },
                ..m
            })
            &&& sci_press(m, 38) == (CalcModel {
                sci: SciModel { col: if !on_ans && s.col > 0 { s.col - 1 } else { s.col }, ..s },
                ..m
            })
        }),
{
}

/// Down then up comes back to where the cursor was, when its column fits
/// on the next line; right then left too, when the cursor is before the end
/// of a line that is not an answer.
pub proof fn law_sci_arrows_come_back(m: CalcModel)
    requires
        0 <= m.sci.line < m.sci.lines.len(),
        0 <= m.sci.col,
    ensures
        m.sci.line < m.sci.lines.len() - 1 && m.sci.col <= m.sci.lines[m.sci.line + 1].0.len()
            && m.sci.col <= m.sci.lines[m.sci.line].0.len() ==> sci_press(sci_press(m, 41), 39)
            == m,
        !m.sci.lines[m.sci.line].1 && m.sci.col < m.sci.lines[m.sci.line].0.len() ==> sci_press(
            sci_press(m, 40),
            38,
        ) == m,
{
    law_sci_arrow_keys(m);
    if m.sci.line < m.sci.lines.len() - 1 {
        law_sci_arrow_keys(sci_press(m, 41));
    }
    if !m.sci.lines[m.sci.line].1 && m.sci.col < m.sci.lines[m.sci.line].0.len() {
        law_sci_arrow_keys(sci_press(m, 40));
    }
}

/// Showing an evaluation's outcome. An answer evaluated on the last line
/// is added below it, with a new empty line after it for the cursor; one
/// evaluated on an earlier line replaces the line after it (as the line
/// after the cursor is its old answer) and the cursor moves onto it, except
/// on the line before the last, where an empty line is added and the cursor
/// moves onto it. An error shows the error screen and changes no line.
pub proof fn law_sci_finish_places_answer(m: CalcModel, outcome: Result<Seq<char>, ExpressionError>)
    requires
        0 <= m.sci.line < m.sci.lines.len(),
    ensures
        ({
            let s = m.sci;
            let r = sci_finish(m, outcome);
            match outcome {
                Ok(res) => {
                    &&& r.mode == m.mode
                    &&& r.sci.voff == s.voff && r.sci.hoff == s.hoff
                    &&& r.sci.lines.take(s.lines.len() as int) == s.lines || (s.line
                        < s.lines.len() - 2 && r.sci.lines.len() == s.lines.len())
                    &&& (s.line == s.lines.len() - 1 ==> r.sci.lines.len() == s.lines.len() + 2
                        && r.sci.lines[s.line + 1] == (res, true) && r.sci.lines[s.line + 2] == (
                    Seq::<char>::empty(), false) && r.sci.line == s.line + 2 && r.sci.col == 0)
                    &&& (s.line == s.lines.len() - 2 ==> r.sci.lines.len() == s.lines.len() + 1
                        && r.sci.lines[s.line + 2] == (Seq::<char>::empty(), false) && r.sci.line
                        == s.line + 2 && r.sci.col == 0)
                    &&& (s.line < s.lines.len() - 2 ==> r.sci.lines[s.line + 1] == (res, true)
                        && r.sci.line == s.line + 1 && r.sci.col == s.col && forall|i: int|
                        0 <= i < s.lines.len() && i != s.line + 1 ==> r.sci.lines[i] == s.lines[i])
                },
                Err(e) => {
                    &&& r.mode == CalculatorMenu::SciError
                    &&& r.error == e
                    &&& r.sci == s
                },
            }
        }),
{
    let s = m.sci;
    let r = sci_finish(m, outcome);
    if outcome is Ok && s.line >= s.lines.len() - 2 {
        assert(r.sci.lines.take(s.lines.len() as int) =~= s.lines);
    }
}

/// The clearing key on a line that is not an answer removes that line, and
/// the answer after it if there is one, keeping every other line in order;
/// on the last line it empties the line instead. On an answer it does
/// nothing.
pub proof fn law_sci_clear(m: CalcModel)
    requires
        key_text(13, m.second) is None,
        0 <= m.sci.line < m.sci.lines.len(),
    ensures
        ({
            let s = m.sci;
            let r = sci_press(m, 13).sci;
            let line = s.line;
            &&& s.lines[line].1 ==> sci_press(m, 13) == m
            &&& !s.lines[line].1 && line + 1 < s.lines.len() ==> {
                let gone: int = if s.lines[line + 1].1 { 2 } else { 1 };
                &&& (s.lines.len() > gone ==> r.lines.len() == s.lines.len() - gone
                    && r.lines.take(line) == s.lines.take(line) && r.lines.skip(line)
                    == s.lines.skip(line + gone))
                &&& (s.lines.len() == gone ==> r.lines == seq![(Seq::<char>::empty(), false)])
            }
            &&& !s.lines[line].1 && line + 1 == s.lines.len() ==> r.lines == s.lines.update(
                line,
                (Seq::<char>::empty(), false),
            ) && r.line == line
        }),
{
    let s = m.sci;
    let r = sci_press(m, 13).sci;
    let line = s.line;
    if !s.lines[line].1 && line + 1 < s.lines.len() {
        let gone: int = if s.lines[line + 1].1 { 2 } else { 1 };
        let lines1 = s.lines.take(line) + s.lines.skip(line + gone);
        assert(lines1.take(line) =~= s.lines.take(line));
        assert(lines1.skip(line) =~= s.lines.skip(line + gone));
        if s.lines.len() == gone {
            assert(lines1.len() == 0);
        }
    }
}

/// A key that types, on a line that is not an answer with the cursor within
/// it: the text goes in at the cursor, everything before and after the
/// cursor stays, the cursor moves past the text, and no other line changes.
pub proof fn law_sci_typing(m: CalcModel, key_id: u8)
    requires
        key_text(key_id, m.second) is Some,
        0 <= m.sci.line < m.sci.lines.len(),
        !m.sci.lines[m.sci.line].1,
        0 <= m.sci.col <= m.sci.lines[m.sci.line].0.len(),
    ensures
        ({
            let t = key_text(key_id, m.second)->Some_0;
            let s = m.sci;
            let r = sci_press(m, key_id).sci;
            let old_line = s.lines[s.line].0;
            let new_line = r.lines[s.line].0;
            &&& r.lines.len() == s.lines.len()
            &&& r.line == s.line
            &&& r.col == s.col + t.len()
            &&& !r.lines[s.line].1
            &&& new_line.len() == old_line.len() + t.len()
            &&& new_line.take(s.col) == old_line.take(s.col)
            &&& new_line.subrange(s.col, s.col + t.len()) == t
            &&& new_line.skip(s.col + t.len()) == old_line.skip(s.col)
            &&& forall|i: int| 0 <= i < s.lines.len() && i != s.line ==> r.lines[i] == s.lines[i]
            &&& r.voff == s.voff && r.hoff == s.hoff
            &&& sci_press(m, key_id).mode == m.mode
        }),
{
    let t = key_text(key_id, m.second)->Some_0;
    let s = m.sci;
    let new_line = sci_press(m, key_id).sci.lines[s.line].0;
    let old_line = s.lines[s.line].0;
    assert(new_line == old_line.take(s.col) + t + old_line.skip(s.col));
    assert(new_line.take(s.col) =~= old_line.take(s.col));
    assert(new_line.subrange(s.col, s.col + t.len()) =~= t);
    assert(new_line.skip(s.col + t.len()) =~= old_line.skip(s.col));
}

/// The deletion key with the cursor after the first character of a line:
/// the character left of the cursor goes, everything else on the line
/// stays, and the cursor moves left onto where it was.
pub proof fn law_sci_delete(m: CalcModel)
    requires
        key_text(19, m.second) is None,
        0 <= m.sci.line < m.sci.lines.len(),
        1 <= m.sci.col <= m.sci.lines[m.sci.line].0.len(),
    ensures
        ({
            let s = m.sci;
            let r = sci_press(m, 19).sci;
            let old_line = s.lines[s.line].0;
            let new_line = r.lines[s.line].0;
            &&& r.lines.len() == s.lines.len()
            &&& r.line == s.line
            &&& r.col == s.col - 1
            &&& new_line.len() == old_line.len() - 1
            &&& new_line.take(s.col - 1) == old_line.take(s.col - 1)
            &&& new_line.skip(s.col - 1) == old_line.skip(s.col)
            &&& r.lines[s.line].1 == s.lines[s.line].1
            &&& forall|i: int| 0 <= i < s.lines.len() && i != s.line ==> r.lines[i] == s.lines[i]
        }),
{
    let s = m.sci;
    let new_line = sci_press(m, 19).sci.lines[s.line].0;
    let old_line = s.lines[s.line].0;
    assert(new_line.take(s.col - 1) =~= old_line.take(s.col - 1));
    assert(new_line.skip(s.col - 1) =~= old_line.skip(s.col));
}

/// On a line that is not an answer, the deletion key undoes a key that typed
/// one character: the lines and the cursor are as they were.
pub proof fn law_sci_delete_undoes_typing(m: CalcModel, key_id: u8)
    requires
        key_text(key_id, m.second) matches Some(t) && t.len() == 1,
        key_text(19, m.second) is None,
        0 <= m.sci.line < m.sci.lines.len(),
        !m.sci.lines[m.sci.line].1,
        0 <= m.sci.col <= m.sci.lines[m.sci.line].0.len(),
    ensures
        sci_press(sci_press(m, key_id), 19) == m,
{
    let s = m.sci;
    let t = key_text(key_id, m.second)->Some_0;
    let typed = splice(s.lines[s.line].0, s.col, t);
    assert(remove_at(typed, s.col) =~= s.lines[s.line].0);
    let after = sci_press(m, key_id).sci;
    assert(after.lines.update(s.line, (remove_at(typed, s.col), false)) =~= s.lines);
}

/// Puts the outcome of an evaluation on the screen. An answer goes on the
/// line after the cursor's, as a new line with an empty line after it when
/// the cursor was on the last line (an empty line only, when it was on the
/// line before the last), and the cursor moves past it. An error shows the
/// error screen.
pub open spec fn sci_finish(m: CalcModel, outcome: Result<Seq<char>, ExpressionError>) -> CalcModel {
    let s = m.sci;
    match outcome {
        Ok(res) => if s.line == s.lines.len() - 1 {
            CalcModel {
                sci: SciModel {
                    lines: s.lines.push((res, true)).push(empty_line()),
                    line: s.line + 2,
                    col: 0,
                    ..s
                },
                ..m
            }
        } else if s.line == s.lines.len() - 2 {
            CalcModel {
                sci: SciModel {
                    lines: s.lines.push(empty_line()),
                    line: s.line + 2,
                    col: 0,
                    ..s
                },
                ..m
            }
        } else {
            CalcModel {
                sci: SciModel { lines: s.lines.update(s.line + 1, (res, true)), line: s.line + 1, ..s },
                ..m
            }
        },
        Err(e) => CalcModel { error: e, mode: CalculatorMenu::SciError, ..m },
    }
}

pub open spec fn outcome_view(outcome: Result<String, ExpressionError>) -> Result<Seq<char>, ExpressionError> {
    match outcome {
        Ok(t) => Ok(t@),
        Err(e) => Err(e),
    }
}

/// Shows the outcome of evaluating the expression that
/// `handle_button_press` handed over: the answer's text, or the error.
pub fn finish_evaluation(calc_state: &mut CalculatorState, outcome: Result<String, ExpressionError>)
    requires
        old(calc_state).wf(),
        old(calc_state).sci_state.text@.len() + 2 <= isize::MAX,
        outcome matches Ok(t) ==> is_ascii_chars(t@) && t@.len() <= isize::MAX,
        outcome matches Err(ExpressionError::InvalidSyntax(p)) ==> p <= isize::MAX,
    ensures
        final(calc_state).wf(),
        final(calc_state).model() == sci_finish(old(calc_state).model(), outcome_view(outcome)),
{
    let ghost m = calc_state.model();
    match outcome {
        Ok(res) => {
            let len = calc_state.sci_state.text.len() as isize;
            if calc_state.sci_state.line_number == len - 1 {
                calc_state.sci_state.text.push(Line::new(true, res));
                calc_state.sci_state.text.push(Line::new(false, String::new()));
                calc_state.sci_state.line_number += 2;
                calc_state.sci_state.column_number = 0;
            } else if calc_state.sci_state.line_number == len - 2 {
                calc_state.sci_state.text.push(Line::new(false, String::new()));
                calc_state.sci_state.line_number += 2;
                calc_state.sci_state.column_number = 0;
            } else {
                let next = calc_state.sci_state.line_number as usize + 1;
                calc_state.sci_state.text.set(next, Line::new(true, res));
                calc_state.sci_state.line_number += 1;
            }
            assert(calc_state.model().sci.lines =~= sci_finish(m, outcome_view(outcome)).sci.lines);
        },
        Err(e) => {
            calc_state.sci_err_state.0 = e;
            calc_state.mode = CalculatorMenu::SciError;
        },
    }
}


pub open spec fn min(a: int, b: int) -> int {
    if a < b { a } else { b }
}

pub open spec fn max(a: int, b: int) -> int {
    if a > b { a } else { b }
}

/// The part of a line that the display shows when scrolled `hoff`
/// characters to the right: up to 16 characters; an answer is aligned to the
/// right edge.
pub open spec fn visible_part(l: (Seq<char>, bool), hoff: int) -> Seq<char> {
    let len = l.0.len() as int;
    if l.1 {
        let padding = max(16 - len, 0);
        let start = min(max(hoff - padding, 0), len);
        l.0.subrange(start, min(start + 16, len))
    } else {
        l.0.subrange(min(hoff, len), min(hoff + 16, len))
    }
}

/// Display row `i` showing line `l`: the row's address, the spaces that
/// push a short answer to the right, the visible text.
pub open spec fn row_writes(i: int, l: (Seq<char>, bool), hoff: int) -> Seq<DisplayWrite> {
    let part = visible_part(l, hoff);
    seq![DisplayWrite::Instruction(cursor_index(i as u8, 0))] + (if l.1 && part.len() < 16 {
        repeat(DisplayWrite::Data(0x20), (16 - part.len() - hoff) as nat)
    } else {
        Seq::empty()
    }) + text_writes(part)
}

/// The first `n` display rows, showing the lines from `voff` on.
pub open spec fn text_rows(lines: Seq<(Seq<char>, bool)>, voff: int, hoff: int, n: int) -> Seq<
    DisplayWrite,
>
    decreases n,
{
    if n <= 0 {
        Seq::empty()
    } else {
        text_rows(lines, voff, hoff, n - 1) + row_writes(n - 1, lines[voff + n - 1], hoff)
    }
}

/// How many lines the display shows from `voff` on.
pub open spec fn shown_rows(lines: Seq<(Seq<char>, bool)>, voff: int) -> int {
    min(voff + 4, lines.len() as int) - voff
}

/// One line of the bar that marks an answer on display row `y`, over the
/// characters from `start` up to `end`.
pub open spec fn answer_bar_line(y: int, vert: int, start: int, end: int) -> Seq<DisplayWrite> {
    let address = y * 16 + vert;
    let half = start / 2;
    seq![
        DisplayWrite::Instruction((0x80 + address % 32) as u8),
        DisplayWrite::Instruction((0x80 + if address >= 32 { half + 8 } else { half }) as u8),
    ] + (if start % 2 == 1 { seq![DisplayWrite::Data(0)] } else { Seq::empty() }) + repeat(
        DisplayWrite::Data(0xFF),
        (end - start) as nat,
    ) + (if start + end % 2 == 1 { seq![DisplayWrite::Data(0)] } else { Seq::empty() })
}

/// Lines 1 up to `vert` (excluded) of that bar.
pub open spec fn answer_bar(y: int, vert: int, start: int, end: int) -> Seq<DisplayWrite>
    decreases vert,
{
    if vert <= 1 {
        Seq::empty()
    } else {
        answer_bar(y, vert - 1, start, end) + answer_bar_line(y, vert - 1, start, end)
    }
}

pub open spec fn clamp16(x: int) -> int {
    min(max(x, 0), 16)
}

/// The cursor: a mark on the line under it, or a bar over an answer.
pub open spec fn cursor_writes(s: SciModel) -> Seq<DisplayWrite> {
    let x = (if s.lines[s.line].1 { 0 } else { s.col }) - s.hoff;
    let y = s.line - s.voff;
    let address = 15 + 16 * y;
    if !s.lines[s.line].1 {
        seq![
            DisplayWrite::Instruction((0x80 + address % 32) as u8),
            DisplayWrite::Instruction((0x80 + if address >= 32 { x / 2 + 8 } else { x / 2 }) as u8),
        ] + cursor_bytes(x)
    } else {
        let part = visible_part(s.lines[s.line], s.hoff);
        let start = 16 - part.len() - s.hoff;
        answer_bar(y, 14, clamp16(start), clamp16(start + part.len()))
    }
}

/// The writes that draw the scientific screen of `s`, scrolled already: the
/// visible lines, then the cursor.
pub open spec fn sci_frame(s: SciModel) -> Seq<DisplayWrite> {
    seq![DisplayWrite::Instruction(0x01)] + text_rows(
        s.lines,
        s.voff,
        s.hoff,
        shown_rows(s.lines, s.voff),
    ) + seq![
        DisplayWrite::Instruction(0x0C),
        DisplayWrite::Instruction(0x34),
        DisplayWrite::Instruction(0x36),
    ] + clear_gdram_writes() + cursor_writes(s) + seq![
        DisplayWrite::Instruction(0x30),
        DisplayWrite::End,
    ]
}

/// `s` scrolled just enough that the cursor shows (on an answer, the cursor
/// counts as being at its start).
pub open spec fn sci_scrolled(s: SciModel) -> SciModel {
    let x = if s.lines[s.line].1 { 0 } else { s.col };
    SciModel {
        hoff: scroll_to_show(s.hoff, x, 16),
        voff: scroll_to_show(s.voff, s.line, 4),
        ..s
    }
}

/// When the screen can be drawn: the columns fit in an `isize`, and no short
/// answer in view is shifted past the left edge.
pub open spec fn sci_render_ok(s: SciModel) -> bool {
    let t = sci_scrolled(s);
    &&& s.col + 16 <= isize::MAX
    &&& s.hoff <= isize::MAX
    &&& forall|i: int|
        t.voff <= i < t.voff + shown_rows(t.lines, t.voff) && #[trigger] t.lines[i].1
            && visible_part(t.lines[i], t.hoff).len() < 16 ==> visible_part(t.lines[i], t.hoff).len()
            + t.hoff <= 16
}

/// The visible part of a line (see `visible_part`).
fn visible_part_of(l: &Line, hoff: usize) -> (r: &str)
    requires
        is_ascii_chars(l.content()),
        hoff + 16 <= usize::MAX,
    ensures
        r@ == visible_part(line_model(*l), hoff as int),
        is_ascii_chars(r@),
{
    let len = char_len(&l.text);
    if l.is_ans {
        let padding: usize = if 16 > len { 16 - len } else { 0 };
        let start = if hoff > padding {
            if hoff - padding < len { hoff - padding } else { len }
        } else {
            0
        };
        let end = if start + 16 < len { start + 16 } else { len };
        l.text.as_str().substring_ascii(start, end)
    } else {
        let start = if hoff < len { hoff } else { len };
        let end = if hoff + 16 < len { hoff + 16 } else { len };
        l.text.as_str().substring_ascii(start, end)
    }
}

/// Scrolls just enough that the cursor shows (see `sci_scrolled`).
fn scroll_to_cursor(s: &mut SciModeState)
    requires
        old(s).wf(),
        old(s).column_number + 16 <= isize::MAX,
        old(s).text_horizontal_offset <= isize::MAX,
    ensures
        final(s).wf(),
        final(s).model() == sci_scrolled(old(s).model()),
{
    let line = s.line_number;
    let on_answer = s.text[line as usize].is_ans;
    let fake_cursor_colum: isize = if on_answer { 0 } else { s.column_number };
    let old_cursor_display_x: isize = fake_cursor_colum - s.text_horizontal_offset;
    let old_cursor_display_y: isize = line - s.text_vertical_offset;
    let bg_correct_x: isize = if old_cursor_display_x < 0 {
        old_cursor_display_x
    } else if old_cursor_display_x >= 16 {
        old_cursor_display_x - (16 - 1)
    } else {
        0
    };
    let bg_correct_y: isize = if old_cursor_display_y < 0 {
        old_cursor_display_y
    } else if old_cursor_display_y >= 4 {
        old_cursor_display_y - (4 - 1)
    } else {
        0
    };
    s.text_horizontal_offset += bg_correct_x;
    s.text_vertical_offset += bg_correct_y;
}

/// Appends the display rows that show the lines (see `text_rows`).
fn push_text_rows(out: &mut Vec<DisplayWrite>, s: &SciModeState)
    requires
        s.wf(),
        s.text_horizontal_offset + 16 <= isize::MAX,
        s.line_number - s.text_vertical_offset < 4,
        s.text_vertical_offset <= s.line_number,
        forall|k: int|
            s.model().voff <= k < s.model().voff + shown_rows(s.model().lines, s.model().voff)
                && #[trigger] s.model().lines[k].1 && visible_part(s.model().lines[k], s.model().hoff).len()
                < 16 ==> visible_part(s.model().lines[k], s.model().hoff).len() + s.model().hoff
                <= 16,
    ensures
        final(out)@ == old(out)@ + text_rows(
            s.model().lines,
            s.model().voff,
            s.model().hoff,
            shown_rows(s.model().lines, s.model().voff),
        ),
{
    let ghost t = s.model();
    let hoff = s.text_horizontal_offset;
    let voff = s.text_vertical_offset;
    let len = s.text.len();
    let rows_end = if (voff as usize) + 4 < len { voff as usize + 4 } else { len };
    let ghost rows_start = out@;
    let n_rows = rows_end - voff as usize;
    for i in 0..n_rows
        invariant
            s.wf(),
            t == s.model(),
            hoff == t.hoff,
            voff == t.voff,
            0 <= hoff,
            hoff + 16 <= isize::MAX,
            n_rows == shown_rows(t.lines, t.voff),
            n_rows <= 4,
            voff + n_rows <= t.lines.len(),
            rows_start == old(out)@,
            forall|k: int|
                t.voff <= k < t.voff + shown_rows(t.lines, t.voff) && #[trigger] t.lines[k].1
                    && visible_part(t.lines[k], t.hoff).len() < 16 ==> visible_part(
                    t.lines[k],
                    t.hoff,
                ).len() + t.hoff <= 16,
            out@ == rows_start + text_rows(t.lines, t.voff, t.hoff, i as int),
    {
        let l = &s.text[voff as usize + i];
        let part = visible_part_of(l, hoff as usize);
        let ghost lm = t.lines[voff + i];
        assert(lm == line_model(*l));
        out.push(DisplayWrite::Instruction(get_cursor_index(i as u8, 0)));
        let part_len = part.unicode_len();
        if l.is_ans && part_len < 16 {
            push_repeat(&mut *out, DisplayWrite::Data(0x20), 16 - part_len - hoff as usize);
        }
        push_text(&mut *out, part);
        assert(out@ =~= rows_start + text_rows(t.lines, t.voff, t.hoff, i + 1));
    }
}

/// Appends one line of the bar that marks an answer (see `answer_bar_line`).
fn push_answer_bar_line(out: &mut Vec<DisplayWrite>, cursor_display_y: u8, vert: u8, start: u8, end: u8)
    requires
        cursor_display_y < 4,
        1 <= vert < 14,
        start <= end <= 16,
    ensures
        final(out)@ == old(out)@ + answer_bar_line(
            cursor_display_y as int,
            vert as int,
            start as int,
            end as int,
        ),
{
    let ghost line_start = out@;
    let vertical_address = cursor_display_y * 16 + vert;
    let horizontal_address = start / 2;
    assert(0x80u8 | (vertical_address % 32) == (0x80 + vertical_address % 32) as u8)
        by (bit_vector)
        requires
            vertical_address < 64;
    assert(0x80u8 | ((horizontal_address + 8) as u8) == (0x80 + horizontal_address + 8) as u8
        && 0x80u8 | horizontal_address == (0x80 + horizontal_address) as u8)
        by (bit_vector)
        requires
            horizontal_address <= 8;
    out.push(DisplayWrite::Instruction(0x80 | (vertical_address % 32)));
    out.push(
        DisplayWrite::Instruction(
            0x80 | if vertical_address >= 32 {
                horizontal_address + 8
            } else {
                horizontal_address
            },
        ),
    );
    if start % 2 == 1 {
        out.push(DisplayWrite::Data(0x00));
    }
    push_repeat(out, DisplayWrite::Data(0xFF), (end - start) as usize);
    if start + end % 2 == 1 {
        out.push(DisplayWrite::Data(0x00));
    }
    assert(out@ =~= line_start + answer_bar_line(
        cursor_display_y as int,
        vert as int,
        start as int,
        end as int,
    ));
}

/// Appends the writes that draw the cursor (see `cursor_writes`).
fn push_cursor(out: &mut Vec<DisplayWrite>, s: &SciModeState)
    requires
        s.wf(),
        s.text_horizontal_offset + 16 <= isize::MAX,
        0 <= s.line_number - s.text_vertical_offset < 4,
        !s.text@[s.line_number as int].is_ans ==> 0 <= s.column_number
            - s.text_horizontal_offset < 16,
        s.text@[s.line_number as int].is_ans ==> s.text_horizontal_offset == 0,
    ensures
        final(out)@ == old(out)@ + cursor_writes(s.model()),
{
    let line = s.line_number;
    let on_answer = s.text[line as usize].is_ans;
    let hoff = s.text_horizontal_offset;
    let fake_cursor_colum: isize = if on_answer { 0 } else { s.column_number };
    let cursor_display_x = (fake_cursor_colum - hoff) as u8;
    let cursor_display_y = (line - s.text_vertical_offset) as u8;
    let vertical_address = 15 + 16 * cursor_display_y;
    let horizontal_address = cursor_display_x / 2;
    let first_byte = cursor_display_x % 2 == 0;
    if !on_answer {
        assert(0x80u8 | (vertical_address % 32) == (0x80 + vertical_address % 32) as u8)
            by (bit_vector)
            requires
                vertical_address < 64;
        assert(0x80u8 | ((horizontal_address + 8) as u8) == (0x80 + horizontal_address + 8) as u8
            && 0x80u8 | horizontal_address == (0x80 + horizontal_address) as u8) by (bit_vector)
            requires
                horizontal_address < 8;
        out.push(DisplayWrite::Instruction(0x80 | (vertical_address % 32)));
        out.push(
            DisplayWrite::Instruction(
                0x80 | if vertical_address >= 32 {
                    horizontal_address + 8
                } else {
                    horizontal_address
                },
            ),
        );
        if first_byte {
            out.push(DisplayWrite::Data(0xFF));
            out.push(DisplayWrite::Data(0x00));
        } else {
            out.push(DisplayWrite::Data(0x00));
            out.push(DisplayWrite::Data(0xFF));
        }
        assert(out@ =~= old(out)@ + cursor_writes(s.model()));
    } else {
        let string = visible_part_of(&s.text[line as usize], hoff as usize);
        let string_len = string.unicode_len() as isize;
        let start = 16 - string_len - hoff;
        let end = start + string_len;
        let start: u8 = (if start < 0 { 0 } else if start > 16 { 16 } else { start }) as u8;
        let end: u8 = (if end < 0 { 0 } else if end > 16 { 16 } else { end }) as u8;
        let ghost bar_start = out@;
        for vert in 1..14u8
            invariant
                cursor_display_y < 4,
                start <= end <= 16,
                bar_start == old(out)@,
                out@ == bar_start + answer_bar(cursor_display_y as int, vert as int, start as int, end as int),
        {
            push_answer_bar_line(out, cursor_display_y, vert, start, end);
        }
    }
}

/// Scrolls the scientific screen so that the cursor shows, then returns the
/// writes that draw it.
pub fn update_gui(state: &mut CalculatorState) -> (r: Vec<DisplayWrite>)
    requires
        old(state).wf(),
        sci_render_ok(old(state).model().sci),
    ensures
        final(state).wf(),
        final(state).model() == (CalcModel { sci: sci_scrolled(old(state).model().sci), ..old(state).model() }),
        r@ == sci_frame(final(state).model().sci),
{
    scroll_to_cursor(&mut state.sci_state);
    proof {
        crate::gui::law_scroll_shows_cursor(
            old(state).sci_state.model().voff,
            old(state).sci_state.model().line,
            4,
        );
    }
    let mut out: Vec<DisplayWrite> = Vec::new();
    out.push(DisplayWrite::Instruction(0x01));
    push_text_rows(&mut out, &state.sci_state);
    out.push(DisplayWrite::Instruction(0x0C));
    out.push(DisplayWrite::Instruction(0x34));
    out.push(DisplayWrite::Instruction(0x36));
    clear_gdram(&mut out);
    push_cursor(&mut out, &state.sci_state);
    out.push(DisplayWrite::Instruction(0x30));
    out.push(DisplayWrite::End);
    out
}


/// Whether `handle_button_press` may be called with this key (see
/// `sci_press_ok`).
pub fn sci_press_is_ok(key_id: u8, calc_state: &CalculatorState) -> (r: bool)
    requires
        calc_state.wf(),
    ensures
        r == sci_press_ok(calc_state.model(), key_id),
{
    let s = &calc_state.sci_state;
    let line = s.line_number as usize;
    let col = s.column_number;
    let len = char_len(&s.text[line].text);
    assert(s.text@[line as int].content().len() <= isize::MAX);
    let on_answer = s.text[line].is_ans;
    match get_key_text(key_id, calc_state) {
        Some(t) => {
            let n = t.unicode_len();
            assert(len <= isize::MAX);
            on_answer || (col as usize <= len && n as isize <= isize::MAX - col && n <= (
            isize::MAX as usize) - len)
        },
        None => {
            let delete_ok = !(key_id == 19 && len > 0) || (if col - 1 > 0 {
                col - 1
            } else {
                0
            }) < len as isize;
            let eval_ok = !(key_id == 5 && !on_answer && len > 0) || check_literals(
                s.text[line].text.as_str(),
            );
            delete_ok && eval_ok
        },
    }
}

/// Whether `update_gui` may be called (see `sci_render_ok`).
pub fn sci_render_is_ok(state: &SciModeState) -> (r: bool)
    requires
        state.wf(),
    ensures
        r == sci_render_ok(state.model()),
{
    if state.column_number > isize::MAX - 16 {
        return false;
    }
    let ghost t = sci_scrolled(state.model());
    let line = state.line_number;
    let x = if state.text[line as usize].is_ans { 0 } else { state.column_number };
    let hoff = if x - state.text_horizontal_offset < 0 {
        x
    } else if x - state.text_horizontal_offset >= 16 {
        x - 15
    } else {
        state.text_horizontal_offset
    };
    let voff = if line - state.text_vertical_offset < 0 {
        line
    } else if line - state.text_vertical_offset >= 4 {
        line - 3
    } else {
        state.text_vertical_offset
    };
    assert(hoff == t.hoff && voff == t.voff);
    let len = state.text.len();
    let rows_end = if (voff as usize) + 4 < len { voff as usize + 4 } else { len };
    let mut i = voff as usize;
    while i < rows_end
        invariant
            state.wf(),
            t == sci_scrolled(state.model()),
            hoff == t.hoff,
            voff == t.voff,
            0 <= hoff <= isize::MAX - 16,
            voff <= i <= rows_end,
            rows_end == t.voff + shown_rows(t.lines, t.voff),
            rows_end <= t.lines.len(),
            forall|k: int|
                t.voff <= k < i && #[trigger] t.lines[k].1 && visible_part(t.lines[k], t.hoff).len()
                    < 16 ==> visible_part(t.lines[k], t.hoff).len() + t.hoff <= 16,
        decreases rows_end - i,
    {
        let l = &state.text[i];
        assert(t.lines[i as int] == line_model(*l));
        if l.is_ans {
            let part = visible_part_of(l, hoff as usize);
            let n = part.unicode_len();
            if n < 16 && n + hoff as usize > 16 {
                return false;
            }
        }
        i += 1;
    }
    true
}

} // verus!
