use fpu_calc::gui::sci_mode::{Line, SciModeState};
use fpu_calc::gui::DisplayWrite;
use fpu_calc::program::{
    finish_evaluation, fix_display_is_ok, get_key_text, handle_key, key_is_ok, sci_mode_fix_display,
    KeyAction,
};

fn press(state: &mut SciModeState, key: u8) -> KeyAction {
    assert!(key_is_ok(state, key));
    handle_key(state, key)
}

#[test]
fn program_keymap() {
    assert_eq!(get_key_text(3), Some("0"));
    assert_eq!(get_key_text(11), Some("/"));
    assert_eq!(get_key_text(25), None);
}

#[test]
fn program_typing_and_evaluation() {
    let mut state = SciModeState::new();
    assert!(matches!(press(&mut state, 20), KeyAction::Redraw));
    assert!(matches!(press(&mut state, 29), KeyAction::Redraw));
    assert!(matches!(press(&mut state, 21), KeyAction::Redraw));
    assert_eq!(state.text[0].text, "1+2");
    match press(&mut state, 5) {
        KeyAction::Evaluate(_) => {}
        _ => panic!("expected an evaluation"),
    }
    finish_evaluation(&mut state, Some("               3".to_string()));
    assert_eq!(state.text.len(), 3);
    assert!(state.text[1].is_ans);
    assert_eq!(state.line_number, 2);
    assert!(matches!(press(&mut state, 5), KeyAction::NoData));
    assert!(matches!(press(&mut state, 12), KeyAction::NoData));
}

#[test]
fn program_parse_and_eval_errors() {
    let mut state = SciModeState::new();
    press(&mut state, 29);
    assert!(matches!(press(&mut state, 5), KeyAction::Redraw));
    assert_eq!(state.text[1].text, "parse err");
    press(&mut state, 20);
    match press(&mut state, 5) {
        KeyAction::Evaluate(_) => {}
        _ => panic!("expected an evaluation"),
    }
    finish_evaluation(&mut state, None);
    assert_eq!(state.text[3].text, "eval err");
    assert!(state.text[3].is_ans);
}

#[test]
fn program_answers_are_read_only() {
    let mut state = SciModeState::new();
    state.text = vec![Line::new(true, "5".to_string())];
    assert!(matches!(press(&mut state, 20), KeyAction::NoData));
    assert_eq!(state.text[0].text, "5");
}

#[test]
fn program_display() {
    let lines = vec![Line::new(false, "12345678901234567890".to_string())];
    let mut v = 0;
    let mut h = 0;
    assert!(fix_display_is_ok(&lines, v, h, 0, 18));
    let out = sci_mode_fix_display(&lines, &mut v, &mut h, 0, 18);
    assert_eq!(h, 3);
    assert_eq!(v, 0);
    assert_eq!(out[2], DisplayWrite::Instruction(0x80));
    assert_eq!(out[3], DisplayWrite::Data(b'4'));
    assert_eq!(out[out.len() - 1], DisplayWrite::End);
    assert!(!fix_display_is_ok(&lines, 0, 0, 1, 0));
}

#[test]
fn program_display_ignores_lines_out_of_view() {
    let mut lines = vec![Line::new(false, "é".to_string())];
    for _ in 0..5 {
        lines.push(Line::new(false, "1".to_string()));
    }
    assert!(fix_display_is_ok(&lines, 2, 0, 5, 0));
    assert!(fix_display_is_ok(&lines, 0, 0, 0, 0));
    let mut v = 2;
    let mut h = 0;
    let out = sci_mode_fix_display(&lines, &mut v, &mut h, 5, 0);
    assert_eq!(v, 2);
    assert_eq!(out[3], DisplayWrite::Data(b'1'));
}

#[test]
fn program_display_cuts_lines_by_bytes() {
    let lines = vec![Line::new(false, "é".to_string())];
    let mut v = 0;
    let mut h = 0;
    assert!(fix_display_is_ok(&lines, v, h, 0, 0));
    let out = sci_mode_fix_display(&lines, &mut v, &mut h, 0, 0);
    assert_eq!(out[3], DisplayWrite::Data(0xC3));
    assert_eq!(out[4], DisplayWrite::Data(0xA9));
    assert_eq!(out[5], DisplayWrite::Instruction(0x0C));

    // the view would start inside the two bytes of 'é'
    let long = vec![Line::new(false, format!("é{}", "a".repeat(15)))];
    assert!(!fix_display_is_ok(&long, 0, 0, 0, 16));
    // or end inside them
    let late = vec![Line::new(false, format!("{}é", "a".repeat(15)))];
    assert!(!fix_display_is_ok(&late, 0, 0, 0, 0));
    assert!(fix_display_is_ok(&late, 0, 0, 0, 16));
}
