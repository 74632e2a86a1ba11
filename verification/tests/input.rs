use mad_libs::input::replay_choice;
use mad_libs::input::strip_line;
use mad_libs::input::validate_selection;

#[test]
fn selection_accepts_exactly_the_range() {
    assert_eq!(validate_selection("1", 3), Some(0));
    assert_eq!(validate_selection("2", 3), Some(1));
    assert_eq!(validate_selection("3", 3), Some(2));
    assert_eq!(validate_selection("4", 3), None);
}

#[test]
fn selection_reads_a_typed_line() {
    assert_eq!(validate_selection("2\n", 3), Some(1));
    assert_eq!(validate_selection("  2  \n", 3), Some(1));
}

#[test]
fn selection_rejects_zero() {
    assert_eq!(validate_selection("0", 3), None);
}

#[test]
fn selection_rejects_negative_numbers() {
    assert_eq!(validate_selection("-1", 3), None);
}

#[test]
fn selection_rejects_non_numeric_text() {
    assert_eq!(validate_selection("abc", 3), None);
    assert_eq!(validate_selection("1a", 3), None);
    assert_eq!(validate_selection("", 3), None);
    assert_eq!(validate_selection("   ", 3), None);
}

#[test]
fn selection_rejects_huge_numbers() {
    assert_eq!(validate_selection("99999999999999999999999999999999", 3), None);
}

#[test]
fn selection_with_nothing_on_offer() {
    assert_eq!(validate_selection("1", 0), None);
}

#[test]
fn replay_accepts_either_case() {
    assert_eq!(replay_choice("y\n"), Some(true));
    assert_eq!(replay_choice("Y\n"), Some(true));
    assert_eq!(replay_choice("n\n"), Some(false));
    assert_eq!(replay_choice("N\n"), Some(false));
    assert_eq!(replay_choice("  y  \n"), Some(true));
}

#[test]
fn replay_reprompts_on_anything_else() {
    assert_eq!(replay_choice("maybe\n"), None);
    assert_eq!(replay_choice("\n"), None);
    assert_eq!(replay_choice("yes\n"), None);
}

#[test]
fn strip_line_removes_exactly_the_terminator() {
    assert_eq!(strip_line("w\n"), "w");
    assert_eq!(strip_line("w\r\n"), "w");
    assert_eq!(strip_line("w"), "w");
    assert_eq!(strip_line("  w  \n"), "  w  ");
    assert_eq!(strip_line("\n"), "");
    assert_eq!(strip_line(""), "");
    assert_eq!(strip_line("a\nb\n"), "a\nb");
}
