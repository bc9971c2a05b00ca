use fpu_calc::gui::constants;
use fpu_calc::gui::graph;
use fpu_calc::gui::graph_eq;
use fpu_calc::gui::sci_error;
use fpu_calc::gui::sci_mode;
use fpu_calc::gui::{clear_gdram, get_cursor_index, CalculatorMenu, CalculatorState, DisplayWrite};
use fpu_calc::keymaps::get_key_text;
use fpu_calc::parser::expression::Expression;
use fpu_calc::parser::ExpressionError;

fn typed(state: &mut CalculatorState, keys: &[u8]) {
    for k in keys {
        assert!(sci_mode::sci_press_is_ok(*k, state));
        assert!(sci_mode::handle_button_press(*k, state).is_none());
    }
}

fn line_texts(state: &CalculatorState) -> Vec<(String, bool)> {
    state.sci_state.text.iter().map(|l| (l.text.clone(), l.is_ans)).collect()
}

#[test]
fn cursor_index_rows() {
    assert_eq!(get_cursor_index(0, 0), 0x80);
    assert_eq!(get_cursor_index(1, 0), 0x90);
    assert_eq!(get_cursor_index(2, 0), 0x88);
    assert_eq!(get_cursor_index(3, 0), 0x98);
    assert_eq!(get_cursor_index(0, 5), 0x82);
    assert_eq!(get_cursor_index(5, 17), 0x90);
}

#[test]
fn display_write_bytes() {
    assert_eq!(DisplayWrite::Instruction(0x30).encode(), vec![0x81, 0x30]);
    assert_eq!(DisplayWrite::Data(0x41).encode(), vec![0x82, 0x41]);
    assert_eq!(DisplayWrite::End.encode(), vec![0x00]);
}

#[test]
fn clear_gdram_blanks_every_row() {
    let mut out = Vec::new();
    clear_gdram(&mut out);
    assert_eq!(out.len(), 32 * 34);
    assert_eq!(out[0], DisplayWrite::Instruction(0x80));
    assert_eq!(out[1], DisplayWrite::Instruction(0x80));
    assert_eq!(out[2], DisplayWrite::Data(0));
    assert_eq!(out[34 * 31], DisplayWrite::Instruction(0x80 + 31));
    assert!(out.iter().skip(2).take(32).all(|w| *w == DisplayWrite::Data(0)));
}

#[test]
fn keymap_depends_on_second() {
    let mut state = CalculatorState::new();
    assert_eq!(get_key_text(26, &state), Some("sin("));
    assert_eq!(get_key_text(25, &state), Some("("));
    assert_eq!(get_key_text(5, &state), None);
    state.second = true;
    assert_eq!(get_key_text(26, &state), Some("arcsin("));
    assert_eq!(get_key_text(25, &state), Some(")"));
    assert_eq!(get_key_text(20, &state), None);
}

#[test]
fn typing_and_evaluating() {
    let mut state = CalculatorState::new();
    typed(&mut state, &[20, 29, 21, 17, 22]);
    assert_eq!(line_texts(&state), vec![("1+2*3".to_string(), false)]);
    assert_eq!(state.sci_state.column_number, 5);
    let e = sci_mode::handle_button_press(5, &mut state).unwrap();
    match e {
        Expression::Add(_, _) => {}
        _ => panic!("expected a sum"),
    }
    sci_mode::finish_evaluation(&mut state, Ok("7".to_string()));
    assert_eq!(
        line_texts(&state),
        vec![("1+2*3".to_string(), false), ("7".to_string(), true), (String::new(), false)]
    );
    assert_eq!(state.sci_state.line_number, 2);
    assert_eq!(state.sci_state.column_number, 0);
}

#[test]
fn evaluating_a_middle_line_replaces_its_answer() {
    let mut state = CalculatorState::new();
    typed(&mut state, &[20]);
    sci_mode::handle_button_press(5, &mut state).unwrap();
    sci_mode::finish_evaluation(&mut state, Ok("1".to_string()));
    typed(&mut state, &[21]);
    sci_mode::handle_button_press(5, &mut state).unwrap();
    sci_mode::finish_evaluation(&mut state, Ok("2".to_string()));
    // back to the first line
    for _ in 0..4 {
        typed(&mut state, &[39]);
    }
    assert_eq!(state.sci_state.line_number, 0);
    sci_mode::handle_button_press(5, &mut state).unwrap();
    sci_mode::finish_evaluation(&mut state, Ok("one".to_string()));
    assert_eq!(state.sci_state.line_number, 1);
    assert_eq!(state.sci_state.text[1].text, "one");
    assert!(state.sci_state.text[1].is_ans);
}

#[test]
fn parse_error_shows_error_screen() {
    let mut state = CalculatorState::new();
    typed(&mut state, &[20, 29]);
    assert!(sci_mode::handle_button_press(5, &mut state).is_none());
    assert_eq!(state.mode, CalculatorMenu::SciError);
    assert_eq!(state.sci_err_state.0, ExpressionError::InvalidSyntax(0));
    // "2: Goto" puts the cursor on the error's column
    state.sci_state.column_number = 2;
    sci_error::handle_button_press(21, &mut state);
    assert_eq!(state.mode, CalculatorMenu::Sci);
    assert_eq!(state.sci_state.column_number, 0);
}

#[test]
fn evaluation_error_shows_error_screen() {
    let mut state = CalculatorState::new();
    typed(&mut state, &[20, 11, 3]);
    sci_mode::handle_button_press(5, &mut state).unwrap();
    sci_mode::finish_evaluation(&mut state, Err(ExpressionError::DivisionByZero));
    assert_eq!(state.mode, CalculatorMenu::SciError);
    sci_error::handle_button_press(20, &mut state);
    assert_eq!(state.mode, CalculatorMenu::Sci);
}

#[test]
fn answers_cannot_be_typed_on() {
    let mut state = CalculatorState::new();
    typed(&mut state, &[20]);
    sci_mode::handle_button_press(5, &mut state).unwrap();
    sci_mode::finish_evaluation(&mut state, Ok("1".to_string()));
    typed(&mut state, &[39, 21]);
    assert_eq!(state.sci_state.line_number, 1);
    assert_eq!(state.sci_state.text[1].text, "1");
}

#[test]
fn delete_clear_and_move() {
    let mut state = CalculatorState::new();
    typed(&mut state, &[20, 21, 22]);
    typed(&mut state, &[38, 19]);
    assert_eq!(state.sci_state.text[0].text, "13");
    assert_eq!(state.sci_state.column_number, 1);
    typed(&mut state, &[40, 40]);
    assert_eq!(state.sci_state.column_number, 2);
    typed(&mut state, &[13]);
    assert_eq!(state.sci_state.text[0].text, "");
    assert_eq!(state.sci_state.column_number, 0);
    typed(&mut state, &[18]);
    assert_eq!(state.mode, CalculatorMenu::Constants);
    assert_eq!(state.constants_state.previous_screen, CalculatorMenu::Sci);
}

#[test]
fn sci_screen_is_drawn() {
    let mut state = CalculatorState::new();
    typed(&mut state, &[20, 29, 21]);
    assert!(sci_mode::sci_render_is_ok(&state.sci_state));
    let out = sci_mode::update_gui(&mut state);
    assert_eq!(out[0], DisplayWrite::Instruction(0x01));
    assert_eq!(out[1], DisplayWrite::Instruction(0x80));
    assert_eq!(&out[2..5], &[DisplayWrite::Data(b'1'), DisplayWrite::Data(b'+'), DisplayWrite::Data(b'2')]);
    assert_eq!(out[out.len() - 1], DisplayWrite::End);
    assert_eq!(out[out.len() - 2], DisplayWrite::Instruction(0x30));
    // cursor at column 3 of row 0: graphics row 15, byte 1, right half
    let n = out.len();
    assert_eq!(&out[n - 6..n - 2], &[
        DisplayWrite::Instruction(0x8F),
        DisplayWrite::Instruction(0x81),
        DisplayWrite::Data(0x00),
        DisplayWrite::Data(0xFF),
    ]);
}

#[test]
fn sci_screen_scrolls_to_the_cursor() {
    let mut state = CalculatorState::new();
    let keys = [20u8; 20];
    typed(&mut state, &keys);
    sci_mode::update_gui(&mut state);
    assert_eq!(state.sci_state.text_horizontal_offset, 5);
    for _ in 0..20 {
        typed(&mut state, &[38]);
    }
    sci_mode::update_gui(&mut state);
    assert_eq!(state.sci_state.text_horizontal_offset, 0);
}

#[test]
fn answers_are_drawn_on_the_right() {
    let mut state = CalculatorState::new();
    typed(&mut state, &[20]);
    sci_mode::handle_button_press(5, &mut state).unwrap();
    sci_mode::finish_evaluation(&mut state, Ok("42".to_string()));
    let out = sci_mode::update_gui(&mut state);
    // row 1 holds the answer: 14 spaces, then the digits
    let row = out.iter().position(|w| *w == DisplayWrite::Instruction(0x90)).unwrap();
    assert!(out[row + 1..row + 15].iter().all(|w| *w == DisplayWrite::Data(0x20)));
    assert_eq!(out[row + 15], DisplayWrite::Data(b'4'));
    assert_eq!(out[row + 16], DisplayWrite::Data(b'2'));
}

#[test]
fn error_screen_names_each_error() {
    let mut state = CalculatorState::new();
    for (e, text) in [
        (ExpressionError::InvalidSyntax(3), "Invalid Syntax"),
        (ExpressionError::UnknownVariable("X".to_string()), "Unknown Variable"),
        (ExpressionError::DivisionByZero, "Divide By Zero"),
    ] {
        state.sci_err_state.0 = e;
        let out = sci_error::update_gui(&state);
        let start = 32 * 34 + 3;
        assert_eq!(out[start - 1], DisplayWrite::Instruction(0x80));
        let shown: Vec<u8> = out[start..start + text.len()]
            .iter()
            .map(|w| match w {
                DisplayWrite::Data(b) => *b,
                _ => 0,
            })
            .collect();
        assert_eq!(shown, text.as_bytes());
        assert_eq!(out[out.len() - 1], DisplayWrite::End);
    }
}

#[test]
fn goto_uses_the_error_position() {
    let mut state = CalculatorState::new();
    state.sci_err_state.0 = ExpressionError::InvalidSyntax(4);
    state.mode = CalculatorMenu::SciError;
    sci_error::handle_button_press(21, &mut state);
    assert_eq!(state.sci_state.column_number, 4);
    assert_eq!(state.mode, CalculatorMenu::Sci);
    state.mode = CalculatorMenu::SciError;
    sci_error::handle_button_press(7, &mut state);
    assert_eq!(state.mode, CalculatorMenu::SciError);
}

#[test]
fn constants_list_navigation() {
    let mut state = CalculatorState::new();
    state.mode = CalculatorMenu::Constants;
    constants::handle_button_press(41, &mut state);
    constants::handle_button_press(41, &mut state);
    let out = constants::update_gui(&mut state);
    // the bar is on row 1: graphics rows 17 to 29
    assert_eq!(out[4 + 32 * 34], DisplayWrite::Instruction(0x80 + 17));
    assert!(out.contains(&DisplayWrite::Data(b'P')));
    constants::handle_button_press(39, &mut state);
    constants::handle_button_press(39, &mut state);
    let out = constants::update_gui(&mut state);
    assert_eq!(out[4 + 32 * 34], DisplayWrite::Instruction(0x80 + 1));
    constants::handle_button_press(18, &mut state);
    assert_eq!(state.mode, CalculatorMenu::Sci);
}

#[test]
fn equation_editing() {
    let mut state = CalculatorState::new();
    state.mode = CalculatorMenu::GraphEq;
    for k in [7u8, 17, 7] {
        assert!(graph_eq::graph_eq_press_is_ok(k, &state));
        graph_eq::handle_button_press(k, &mut state);
    }
    assert_eq!(state.graph_eq_state.eq1, "X*X");
    assert_eq!(state.graph_eq_state.cursor_pos, 5);
    graph_eq::handle_button_press(19, &mut state);
    assert_eq!(state.graph_eq_state.eq1, "X*");
    assert_eq!(state.graph_eq_state.cursor_pos, 4);
    graph_eq::handle_button_press(38, &mut state);
    graph_eq::handle_button_press(38, &mut state);
    graph_eq::handle_button_press(38, &mut state);
    assert_eq!(state.graph_eq_state.cursor_pos, 1);
    graph_eq::handle_button_press(7, &mut state);
    assert_eq!(state.graph_eq_state.eq1, "X*");
    graph_eq::handle_button_press(13, &mut state);
    assert_eq!(state.graph_eq_state.eq1, "");
    assert_eq!(state.graph_eq_state.cursor_pos, 2);
    assert!(!graph_eq::graph_eq_press_is_ok(19, &{
        let mut s = CalculatorState::new();
        s.graph_eq_state.eq1 = "X".to_string();
        s
    }));
    graph_eq::handle_button_press(36, &mut state);
    assert_eq!(state.mode, CalculatorMenu::Sci);
}

#[test]
fn equation_screen_is_drawn() {
    let mut state = CalculatorState::new();
    graph_eq::handle_button_press(7, &mut state);
    let out = graph_eq::update_gui(&mut state);
    assert_eq!(&out[0..4], &[
        DisplayWrite::Instruction(0x01),
        DisplayWrite::Data(b'Y'),
        DisplayWrite::Data(b'='),
        DisplayWrite::Data(b'X'),
    ]);
    let n = out.len();
    assert_eq!(&out[n - 6..], &[
        DisplayWrite::Instruction(0x8F),
        DisplayWrite::Instruction(0x81),
        DisplayWrite::Data(0x00),
        DisplayWrite::Data(0xFF),
        DisplayWrite::Instruction(0x30),
        DisplayWrite::End,
    ]);
}

#[test]
fn graph_keys() {
    let mut state = CalculatorState::new();
    state.mode = CalculatorMenu::Graph;
    graph::handle_button_press(36, &mut state);
    assert_eq!(state.mode, CalculatorMenu::GraphEq);
    state.mode = CalculatorMenu::Graph;
    graph::handle_button_press(37, &mut state);
    assert_eq!(state.mode, CalculatorMenu::Sci);
}

#[test]
fn flat_graph_is_drawn() {
    let values = [10i8; 129];
    let out = graph::render_graph(&values);
    assert_eq!(out.len(), 4 + 64 * 18 + 2);
    // display row 53 shows height 10: every pixel on
    let row = 4 + 53 * 18;
    assert_eq!(out[row], DisplayWrite::Instruction(0x80 + 21));
    assert_eq!(out[row + 1], DisplayWrite::Instruction(0x88));
    assert_eq!(out[row + 2], DisplayWrite::Data(0xFF));
    // the x axis is a full line, the y axis a single column
    let axis = 4 + 32 * 18;
    assert!(out[axis + 2..axis + 18].iter().all(|w| *w == DisplayWrite::Data(0xFF)));
    let other = 4 + 5 * 18;
    assert_eq!(out[other + 2 + 7], DisplayWrite::Data(0x01));
    assert_eq!(out[other + 2], DisplayWrite::Data(0x00));
}

#[test]
fn delete_undoes_a_keystroke() {
    let mut state = CalculatorState::new();
    typed(&mut state, &[20, 21, 38]);
    typed(&mut state, &[29, 19]);
    assert_eq!(state.sci_state.text[0].text, "12");
    assert_eq!(state.sci_state.column_number, 1);

    state.mode = CalculatorMenu::GraphEq;
    for k in [7u8, 17, 38] {
        graph_eq::handle_button_press(k, &mut state);
    }
    for k in [22u8, 19] {
        assert!(graph_eq::graph_eq_press_is_ok(k, &state));
        graph_eq::handle_button_press(k, &mut state);
    }
    assert_eq!(state.graph_eq_state.eq1, "X*");
    assert_eq!(state.graph_eq_state.cursor_pos, 3);
}

#[test]
fn delete_edits_an_answer_line() {
    let mut state = CalculatorState::new();
    typed(&mut state, &[20]);
    sci_mode::handle_button_press(5, &mut state).unwrap();
    sci_mode::finish_evaluation(&mut state, Ok("12".to_string()));
    typed(&mut state, &[39, 19]);
    assert_eq!(line_texts(&state)[1], ("2".to_string(), true));
}

#[test]
fn constants_cursor_stays_in_the_list() {
    let mut state = CalculatorState::new();
    typed(&mut state, &[18]);
    constants::handle_button_press(39, &mut state);
    constants::handle_button_press(41, &mut state);
    constants::handle_button_press(41, &mut state);
    let out = constants::update_gui(&mut state);
    // the bar is drawn on the second row
    assert_eq!(out[4 + 32 * 34], DisplayWrite::Instruction(0x80 + 17));
    constants::handle_button_press(18, &mut state);
    assert_eq!(state.mode, CalculatorMenu::Sci);
}
