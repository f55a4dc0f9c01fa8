use avl_basic::line_editor::{line_input_key, LineInput, LineInputStep};
use avl_basic::line_input::{KeyInput, KeyModifierState};

const NONE: KeyModifierState = KeyModifierState { shift: false, control: false, alt: false };
const CTRL: KeyModifierState = KeyModifierState { shift: false, control: true, alt: false };

fn type_text(input: &mut LineInput, text: &str) {
    for ch in text.chars() {
        assert_eq!(line_input_key(input, KeyInput::Char(ch), NONE, &[]), LineInputStep::Continue);
    }
}

fn text(input: &LineInput) -> String {
    input.buffer.iter().collect()
}

#[test]
fn typed_line_is_submitted_with_its_closing_quote() {
    let mut input = LineInput::new("");
    type_text(&mut input, "PRINT \"HI");
    assert_eq!(line_input_key(&mut input, KeyInput::Enter, NONE, &[]), LineInputStep::Submit(String::from("PRINT \"HI\"")));
}

#[test]
fn escape_clears_a_new_line_and_restores_a_prefill() {
    let mut input = LineInput::new("");
    type_text(&mut input, "LIST");
    assert_eq!(line_input_key(&mut input, KeyInput::Esc, NONE, &[]), LineInputStep::Continue);
    assert_eq!(text(&input), "");
    assert_eq!(input.cursor, 0);

    let mut edit = LineInput::new("10 PRINT");
    type_text(&mut edit, "X");
    assert_eq!(line_input_key(&mut edit, KeyInput::Esc, NONE, &[]), LineInputStep::Cancel(String::from("10 PRINT")));
    assert_eq!(text(&edit), "10 PRINT");
}

#[test]
fn ctrl_c_interrupts_and_control_keys_type_nothing() {
    let mut input = LineInput::new("");
    assert_eq!(line_input_key(&mut input, KeyInput::Char('c'), CTRL, &[]), LineInputStep::Interrupted);
    assert_eq!(line_input_key(&mut input, KeyInput::Char('x'), CTRL, &[]), LineInputStep::Continue);
    assert_eq!(text(&input), "");
}

#[test]
fn cursor_keys_and_deletion_edit_at_the_cursor() {
    let mut input = LineInput::new("");
    type_text(&mut input, "AB");
    line_input_key(&mut input, KeyInput::Left, NONE, &[]);
    line_input_key(&mut input, KeyInput::Backspace, NONE, &[]);
    assert_eq!(text(&input), "B");
    assert_eq!(input.cursor, 0);
    line_input_key(&mut input, KeyInput::Delete, NONE, &[]);
    assert_eq!(text(&input), "");
    type_text(&mut input, "XY");
    line_input_key(&mut input, KeyInput::Home, NONE, &[]);
    assert_eq!(input.cursor, 0);
    line_input_key(&mut input, KeyInput::End, NONE, &[]);
    assert_eq!(input.cursor, 2);
    line_input_key(&mut input, KeyInput::Right, NONE, &[]);
    assert_eq!(input.cursor, 2);
}

#[test]
fn typed_colons_get_their_separator_spacing() {
    let mut input = LineInput::new("");
    type_text(&mut input, "10 print 1:");
    assert_eq!(text(&input), "10 print 1 : ");
    assert_eq!(input.cursor, text(&input).chars().count());
}

#[test]
fn up_and_down_walk_the_history_of_a_new_line_only() {
    let history = vec![String::from("LIST"), String::from("RUN")];
    let mut input = LineInput::new("");
    type_text(&mut input, "PR");
    line_input_key(&mut input, KeyInput::Up, NONE, &history);
    assert_eq!(text(&input), "RUN");
    line_input_key(&mut input, KeyInput::Up, NONE, &history);
    assert_eq!(text(&input), "LIST");
    line_input_key(&mut input, KeyInput::Up, NONE, &history);
    assert_eq!(text(&input), "LIST");
    line_input_key(&mut input, KeyInput::Down, NONE, &history);
    assert_eq!(text(&input), "RUN");
    line_input_key(&mut input, KeyInput::Down, NONE, &history);
    assert_eq!(text(&input), "PR");
    assert_eq!(input.cursor, 2);

    let mut edit = LineInput::new("10 A=1");
    line_input_key(&mut edit, KeyInput::Up, NONE, &history);
    assert_eq!(text(&edit), "10 A=1");
}
