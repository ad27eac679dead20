use prep::character::{CharVec, Character};
use prep::transform::{decomment, substitute, substitute_variables};
use prep::types::Context;

#[test]
fn escape_round_trip_plain_text() {
    let input = "hello world\nsecond line\tend";
    let toks = substitute(input);
    assert_eq!(toks.output(), input);
}

#[test]
fn escaped_dollar_and_percent_render_literal() {
    assert_eq!(substitute("\\$x \\%y").output(), "$x %y");
    assert_eq!(substitute("ab\\$cd").output(), "ab$cd");
    assert_eq!(substitute("end\\%").output(), "end%");
}

#[test]
fn dollar_is_marker_only_at_line_start() {
    let toks = substitute("$X\nY$Z\n");
    assert_eq!(toks.0[0], Character::Dollar);
    assert_eq!(toks.0[1], Character::Char('X'));
    assert_eq!(toks.0[4], Character::Char('$'));
    assert_eq!(toks.output(), "$X\nY$Z\n");
}

#[test]
fn percent_is_always_marker() {
    let toks = substitute("a%b");
    assert_eq!(toks.0[1], Character::Percent);
}

#[test]
fn backslash_before_other_char_keeps_both() {
    let toks = substitute("a\\nb");
    assert_eq!(toks.output(), "a\\nb");
    assert_eq!(toks.0[1], Character::Char('\\'));
    assert_eq!(toks.0[2], Character::Char('n'));
}

#[test]
fn line_start_restored_after_pair_consuming_newline() {
    // The backslash keeps both characters; the newline it consumed still
    // opens a new line, so the following dollar is a marker.
    let toks = substitute("\\\n$X");
    assert_eq!(toks.0[0], Character::Char('\\'));
    assert_eq!(toks.0[1], Character::Char('\n'));
    assert_eq!(toks.0[2], Character::Dollar);
}

#[test]
fn decomment_keeps_carriage_return_on_unterminated_last_line() {
    assert_eq!(decomment("a\r"), "a\r");
    assert_eq!(decomment("a\r\nb\r"), "a\nb\r");
    assert_eq!(decomment("x\r\n"), "x");
}

#[test]
fn decomment_drops_comment_lines() {
    assert_eq!(decomment("keep\n$$drop this\nkeep2\n"), "keep\nkeep2");
    assert_eq!(decomment("$$only\n"), "");
    assert_eq!(decomment(""), "");
    assert_eq!(decomment("no comments"), "no comments");
}

#[test]
fn substitute_variables_replaces_markers() {
    let mut vars = Context::new();
    vars.insert(String::from("A"), String::from("x"));
    let toks = substitute("%A% and %B%");
    let out = substitute_variables(toks, &vars);
    assert_eq!(out.output(), "x and %B%");
}

#[test]
fn substitute_variables_inserted_text_not_rescanned_by_earlier_vars() {
    let mut vars = Context::new();
    vars.insert(String::from("A"), String::from("%B%"));
    vars.insert(String::from("B"), String::from("two"));
    let out = substitute_variables(substitute("%A%"), &vars);
    // A inserts literal %B%, which the later variable B then picks up.
    assert_eq!(out.output(), "two");
}

#[test]
fn context_insert_overwrites_in_place() {
    let mut vars = Context::new();
    vars.insert(String::from("A"), String::from("1"));
    vars.insert(String::from("B"), String::from("2"));
    vars.insert(String::from("A"), String::from("3"));
    assert_eq!(vars.len(), 2);
    assert_eq!(vars.get("A").map(|s| s.as_str()), Some("3"));
    assert_eq!(vars.get("B").map(|s| s.as_str()), Some("2"));
    assert_eq!(vars.get("C"), None);
}

#[test]
fn output_collapses_markers() {
    let cv = CharVec(vec![
        Character::Dollar,
        Character::Char('a'),
        Character::Percent,
        Character::Char('$'),
    ]);
    assert_eq!(cv.output(), "$a%$");
}
