use vstd::prelude::*;
use crate::gui::{
    CalculatorMenu,
    CalculatorState,
    CalcModel,
    DisplayWrite,
    clear_gdram,
    clear_gdram_writes,
    get_cursor_index,
    push_text,
    rows_writes,
    cursor_index,
    text_writes,
};
use crate::gui::sci_mode::SciModel;
use crate::parser::ExpressionError;

verus! {

/// The error screen shows this error.
pub struct SciErrorState(pub ExpressionError);

impl SciErrorState {
    pub fn new() -> (r: Self)
        ensures
            r.0 == ExpressionError::DivisionByZero,
    {
        Self(ExpressionError::DivisionByZero)
    }
}

/// The column where the error was found: the position of a syntax error,
/// 0 for the others.
pub open spec fn error_position(e: ExpressionError) -> usize {
    match e {
        ExpressionError::InvalidSyntax(p) => p,
        _ => 0,
    }
}

/// What a key does on the error screen: key 20 ("1: Quit") goes back to the
/// scientific screen, key 21 ("2: Goto") too, with the cursor put on the
/// error's column.
pub open spec fn sci_error_press(m: CalcModel, key_id: u8) -> CalcModel {
    if key_id == 20 {
        CalcModel { mode: CalculatorMenu::Sci, ..m }
    } else if key_id == 21 {
        CalcModel {
            mode: CalculatorMenu::Sci,
            sci: SciModel { col: error_position(m.error) as int, ..m.sci },
            ..m
        }
    } else {
        m
    }
}

pub fn handle_button_press(key_id: u8, calc_state: &mut CalculatorState)
    requires
        old(calc_state).wf(),
    ensures
        final(calc_state).wf(),
        final(calc_state).model() == sci_error_press(old(calc_state).model(), key_id),
{
    match key_id {
        20 => {
            calc_state.mode = CalculatorMenu::Sci;
        },
        21 => {
            let position = match calc_state.sci_err_state.0 {
                ExpressionError::InvalidSyntax(p) => p,
                ExpressionError::UnknownVariable(_) => 0,
                ExpressionError::DivisionByZero => 0,
            };
            calc_state.sci_state.column_number = position as isize;
            calc_state.mode = CalculatorMenu::Sci;
        },
        _ => {},
    }
}

/// The text that names the kind of an error.
pub open spec fn error_message(e: ExpressionError) -> Seq<char> {
    match e {
        ExpressionError::InvalidSyntax(_) => seq![
            'I', 'n', 'v', 'a', 'l', 'i', 'd', ' ', 'S', 'y', 'n', 't', 'a', 'x',
        ],
        ExpressionError::UnknownVariable(_) => seq![
            'U', 'n', 'k', 'n', 'o', 'w', 'n', ' ', 'V', 'a', 'r', 'i', 'a', 'b', 'l', 'e',
        ],
        ExpressionError::DivisionByZero => seq![
            'D', 'i', 'v', 'i', 'd', 'e', ' ', 'B', 'y', ' ', 'Z', 'e', 'r', 'o',
        ],
    }
}

/// The writes that draw the error screen: the kind of error and the two
/// choices.
pub open spec fn sci_error_frame(e: ExpressionError) -> Seq<DisplayWrite> {
    clear_gdram_writes() + seq![DisplayWrite::Instruction(0x01), DisplayWrite::Instruction(0x02)]
        + rows_writes(
        seq![
            error_message(e),
            seq!['1', ':', ' ', 'Q', 'u', 'i', 't'],
            seq!['2', ':', ' ', 'G', 'o', 't', 'o'],
        ],
    ) + seq![DisplayWrite::End]
}

fn message_of(e: &ExpressionError) -> (r: &'static str)
    ensures
        r@ == error_message(*e),
        vstd::utf8::is_ascii_chars(r@),
{
    proof {
        reveal_strlit("Invalid Syntax");
        reveal_strlit("Unknown Variable");
        reveal_strlit("Divide By Zero");
    }
    match e {
        ExpressionError::InvalidSyntax(_) => {
            assert("Invalid Syntax"@ =~= error_message(*e));
            "Invalid Syntax"
        },
        ExpressionError::UnknownVariable(_) => {
            assert("Unknown Variable"@ =~= error_message(*e));
            "Unknown Variable"
        },
        ExpressionError::DivisionByZero => {
            assert("Divide By Zero"@ =~= error_message(*e));
            "Divide By Zero"
        },
    }
}

/// The writes that draw the error screen.
pub fn update_gui(state: &CalculatorState) -> (r: Vec<DisplayWrite>)
    ensures
        r@ == sci_error_frame(state.sci_err_state.0),
{
    let message = message_of(&state.sci_err_state.0);
    let mut out: Vec<DisplayWrite> = Vec::new();
    clear_gdram(&mut out);
    out.push(DisplayWrite::Instruction(0x01));
    out.push(DisplayWrite::Instruction(0x02));
    let ghost before = out@;
    out.push(DisplayWrite::Instruction(get_cursor_index(0, 0)));
    push_text(&mut out, message);
    proof {
        reveal_strlit("1: Quit");
        reveal_strlit("2: Goto");
    }
    out.push(DisplayWrite::Instruction(get_cursor_index(1, 0)));
    push_text(&mut out, "1: Quit");
    out.push(DisplayWrite::Instruction(get_cursor_index(2, 0)));
    push_text(&mut out, "2: Goto");
    out.push(DisplayWrite::End);
    proof {
        let rows = seq![
            error_message(state.sci_err_state.0),
            seq!['1', ':', ' ', 'Q', 'u', 'i', 't'],
            seq!['2', ':', ' ', 'G', 'o', 't', 'o'],
        ];
        assert("1: Quit"@ =~= rows[1]);
        assert("2: Goto"@ =~= rows[2]);
        let r0 = seq![rows[0]];
        let r1 = seq![rows[0], rows[1]];
        assert(r0.drop_last() =~= Seq::<Seq<char>>::empty());
        assert(r1.drop_last() =~= r0);
        assert(rows.drop_last() =~= r1);
        assert(rows_writes(Seq::<Seq<char>>::empty()) =~= Seq::<DisplayWrite>::empty());
        assert(rows_writes(r0) =~= seq![DisplayWrite::Instruction(cursor_index(0, 0))]
            + text_writes(rows[0]));
        assert(rows_writes(r1) =~= rows_writes(r0) + seq![DisplayWrite::Instruction(cursor_index(1, 0))]
            + text_writes(rows[1]));
        assert(rows_writes(rows) =~= rows_writes(r1) + seq![DisplayWrite::Instruction(cursor_index(2, 0))]
            + text_writes(rows[2]));
    }
    assert(out@ =~= sci_error_frame(state.sci_err_state.0));
    out
}

} // verus!
