use mad_libs::MadLib;
use mad_libs::parse::MadLibsParseError;

fn game(text: &str) -> MadLib {
    MadLib::new(String::from(text))
}

#[test]
fn labels_in_order() {
    let mut m = game("Hello [name], you are [age] years old.");
    assert_eq!(m.parse_mad_lib(), Ok(()));
    assert_eq!(m.fill_in_words, vec![String::from("name"), String::from("age")]);
}

#[test]
fn unterminated_placeholder() {
    let mut m = game("Hello [name");
    assert_eq!(m.parse_mad_lib(), Err(MadLibsParseError::MissingClosingBrackets));
    assert!(m.fill_in_words.is_empty());
}

#[test]
fn no_placeholders() {
    let mut m = game("Hello, no placeholders.");
    assert_eq!(m.parse_mad_lib(), Err(MadLibsParseError::NoFillInWords));
}

#[test]
fn empty_template() {
    let mut m = game("");
    assert_eq!(m.parse_mad_lib(), Err(MadLibsParseError::NoFillInWords));
}

#[test]
fn adjacent_empty_labels() {
    let mut m = game("[][]");
    assert_eq!(m.parse_mad_lib(), Ok(()));
    assert_eq!(m.fill_in_words, vec![String::new(), String::new()]);
}

#[test]
fn adjacent_labels() {
    let mut m = game("[a][b]");
    assert_eq!(m.parse_mad_lib(), Ok(()));
    assert_eq!(m.fill_in_words, vec![String::from("a"), String::from("b")]);
}

#[test]
fn nested_open_bracket_continues_label() {
    let mut m = game("[a[b]");
    assert_eq!(m.parse_mad_lib(), Ok(()));
    assert_eq!(m.fill_in_words, vec![String::from("ab")]);
}

#[test]
fn stray_closing_bracket_is_ignored() {
    let mut m = game("a]b[x]");
    assert_eq!(m.parse_mad_lib(), Ok(()));
    assert_eq!(m.fill_in_words, vec![String::from("x")]);
}

#[test]
fn unterminated_after_labels() {
    let mut m = game("[a] then [b");
    assert_eq!(m.parse_mad_lib(), Err(MadLibsParseError::MissingClosingBrackets));
}

#[test]
fn parse_is_repeatable() {
    let mut a = game("Hello [name], you are [age] years old.");
    let mut b = game("Hello [name], you are [age] years old.");
    assert_eq!(a.parse_mad_lib(), Ok(()));
    assert_eq!(b.parse_mad_lib(), Ok(()));
    assert_eq!(a.fill_in_words, b.fill_in_words);
}
