use mad_libs::MadLib;

#[test]
fn renders_replies_in_place() {
    let mut m = MadLib::new(String::from("Hello [name], you are [age] years old."));
    assert_eq!(m.parse_mad_lib(), Ok(()));
    m.add_reply("Ada\n");
    m.add_reply("36\n");
    assert_eq!(m.render_mad_lib(), "Hello Ada, you are 36 years old.");
}

#[test]
fn empty_reply_uses_sentinel_only_there() {
    let mut m = MadLib::new(String::from("[a] and [b]"));
    assert_eq!(m.parse_mad_lib(), Ok(()));
    m.add_reply("\n");
    m.add_reply("tea\n");
    assert_eq!(m.render_mad_lib(), "Word Not Entered and tea");
}

#[test]
fn all_empty_replies_use_sentinel() {
    let mut m = MadLib::new(String::from("[a], [b]"));
    assert_eq!(m.parse_mad_lib(), Ok(()));
    m.add_reply("\n");
    m.add_reply("\n");
    assert_eq!(m.render_mad_lib(), "Word Not Entered, Word Not Entered");
}

#[test]
fn duplicate_labels_consume_left_to_right() {
    let mut m = MadLib::new(String::from("[color] and [color]"));
    assert_eq!(m.parse_mad_lib(), Ok(()));
    m.add_reply("red\n");
    m.add_reply("blue\n");
    assert_eq!(m.render_mad_lib(), "red and blue");
}

#[test]
fn empty_label_placeholder_is_substituted() {
    let mut m = MadLib::new(String::from("[]!"));
    assert_eq!(m.parse_mad_lib(), Ok(()));
    m.add_reply("hi\n");
    assert_eq!(m.render_mad_lib(), "hi!");
}

#[test]
fn absent_marker_changes_nothing() {
    let m = MadLib {
        mad_lib: String::from("no markers here"),
        fill_in_words: vec![String::from("x")],
        filled_in_words: vec![String::from("y")],
    };
    assert_eq!(m.render_mad_lib(), "no markers here");
}

#[test]
fn reply_keeps_inner_whitespace() {
    let mut m = MadLib::new(String::from("<[w]>"));
    assert_eq!(m.parse_mad_lib(), Ok(()));
    m.add_reply("  spaced  \n");
    assert_eq!(m.render_mad_lib(), "<  spaced  >");
}

#[test]
fn crlf_terminator_is_stripped() {
    let mut m = MadLib::new(String::from("<[w]>"));
    assert_eq!(m.parse_mad_lib(), Ok(()));
    m.add_reply("word\r\n");
    assert_eq!(m.render_mad_lib(), "<word>");
}

#[test]
fn game_is_left_untouched_by_rendering() {
    let mut m = MadLib::new(String::from("[a]"));
    assert_eq!(m.parse_mad_lib(), Ok(()));
    m.add_reply("x\n");
    let _ = m.render_mad_lib();
    assert_eq!(m.mad_lib, "[a]");
    assert_eq!(m.fill_in_words, vec![String::from("a")]);
    assert_eq!(m.filled_in_words, vec![String::from("x")]);
}
