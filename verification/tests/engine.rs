use prep::character::CharVec;
use prep::macros::{concat_macro, define_macro};
use prep::process_file;
use prep::transform::substitute;
use prep::types::{Context, Fs, MacroError};

const FUEL: u64 = 64;

fn embed_word() -> String {
    // Assembled at runtime; the directive word itself.
    format!("inc{}de", "lu")
}

fn run_one(content: &str) -> (Result<CharVec, MacroError>, Context) {
    let mut fs = Fs::new();
    fs.add(String::from("main.txt"), String::from(content));
    let mut vars = Context::new();
    let r = process_file("main.txt", &mut vars, &fs, FUEL);
    (r, vars)
}

#[test]
fn pass_through_without_header() {
    let content = "just $ text % with \\ oddities\nand a second line";
    let (r, vars) = run_one(content);
    assert_eq!(r.unwrap().output(), content);
    assert_eq!(vars.len(), 0);
}

#[test]
fn pass_through_near_miss_header() {
    let content = "$PREP enabled\nrest";
    let (r, _) = run_one(content);
    assert_eq!(r.unwrap().output(), content);
}

#[test]
fn missing_file_fails() {
    let fs = Fs::new();
    let mut vars = Context::new();
    match process_file("absent.txt", &mut vars, &fs, FUEL) {
        Err(MacroError::IoError(p)) => assert_eq!(p, "absent.txt"),
        other => panic!("expected a read failure, got {:?}", other),
    }
}

#[test]
fn plain_lines_are_substituted_and_joined() {
    let (r, _) = run_one("$PREP enable\nA\nB\n");
    assert_eq!(r.unwrap().output(), "A\nB");
}

#[test]
fn comments_are_stripped_first() {
    let (r, _) = run_one("$PREP enable\n$$ a comment\nreal\n");
    assert_eq!(r.unwrap().output(), "real");
}

#[test]
fn disable_truncates_rest() {
    let (r, _) = run_one("$PREP enable\nA\nB\n$PREP disable\nC\n");
    let out = r.unwrap().output();
    assert_eq!(out, "A\nB");
    assert!(!out.contains('C'));
}

#[test]
fn escaped_pair_newline_still_opens_directive_line() {
    // A backslash pair that consumed a raw newline still ends the line, so
    // the directive right after it is recognised.
    let (r, _) = run_one("$PREP enable\nA\\\n$PREP disable\nC\n");
    assert_eq!(r.unwrap().output(), "A\\");
}

#[test]
fn define_then_reference() {
    let (r, vars) = run_one("$PREP enable\n$PREP define GREETING hi\n%GREETING%\n");
    let out = r.unwrap().output();
    assert_eq!(out, "\nhi");
    assert_eq!(out.lines().last(), Some("hi"));
    assert_eq!(vars.get("GREETING").map(|s| s.as_str()), Some("hi"));
}

#[test]
fn define_value_may_hold_spaces() {
    let (r, vars) = run_one("$PREP enable\n$PREP define M a b c\n");
    assert!(r.is_ok());
    assert_eq!(vars.get("M").map(|s| s.as_str()), Some("a b c"));
}

#[test]
fn define_without_value_is_arity_error() {
    let (r, _) = run_one("$PREP enable\n$PREP define NAME\n");
    match r {
        Err(MacroError::ExpectedNArgs(2, 0)) => {},
        other => panic!("expected an arity error, got {:?}", other),
    }
}

#[test]
fn unknown_directive_fails() {
    let (r, _) = run_one("$PREP enable\n$PREP bogus\n");
    match r {
        Err(MacroError::UnknownCommand(c)) => assert_eq!(c, "bogus"),
        other => panic!("expected an unknown directive, got {:?}", other),
    }
}

#[test]
fn define_rejects_bad_identifiers() {
    for bad in ["a-b", "no spaces", "ba!d"] {
        let mut vars = Context::new();
        let args = vec![substitute(bad), substitute("v")];
        match define_macro(args, &mut vars) {
            Err(MacroError::InvalidArg(s)) => assert_eq!(s, bad),
            other => panic!("expected a bad name for {:?}, got {:?}", bad, other),
        }
        assert_eq!(vars.len(), 0);
    }
}

#[test]
fn define_accepts_valid_identifier() {
    let mut vars = Context::new();
    let args = vec![substitute("valid_Name1"), substitute("v")];
    assert!(define_macro(args, &mut vars).is_ok());
    assert_eq!(vars.get("valid_Name1").map(|s| s.as_str()), Some("v"));
}

#[test]
fn concat_strips_bare_quotes() {
    let (r, vars) = run_one("$PREP enable\n$PREP concat NAME a\"b c\"d\n");
    assert!(r.is_ok());
    let value = vars.get("NAME").unwrap().clone();
    assert_eq!(value, "\"ab cd\"");
    // Inside the wrapping delimiters no double quote survives.
    let inner = &value[1..value.len() - 1];
    assert!(!inner.contains('"'));
}

#[test]
fn concat_emits_nothing() {
    let (r, _) = run_one("$PREP enable\nX\n$PREP concat NAME a b\nY\n");
    assert_eq!(r.unwrap().output(), "X\nY");
}

#[test]
fn concat_needs_two_arguments() {
    let mut vars = Context::new();
    let args = vec![substitute("ONLY")];
    match concat_macro(args, &mut vars) {
        Err(MacroError::ExpectedNArgs(2, 1)) => {},
        other => panic!("expected an arity error, got {:?}", other),
    }
}

#[test]
fn concat_substitutes_variables() {
    let (r, vars) = run_one(
        "$PREP enable\n$PREP define WHO world\n$PREP concat OUT hello %WHO%\n",
    );
    assert!(r.is_ok());
    assert_eq!(vars.get("OUT").map(|s| s.as_str()), Some("\"hello world\""));
}

#[test]
fn configured_delimiters_wrap_concat() {
    let (r, vars) = run_one(
        "$PREP enable\n$PREP define OPENING_STRINGIFY_DELIMITER <<\n$PREP define CLOSING_STRINGIFY_DELIMITER >>\n$PREP concat N a b\n",
    );
    assert!(r.is_ok());
    assert_eq!(vars.get("N").map(|s| s.as_str()), Some("<<a b>>"));
}

#[test]
fn stringify_escapes_quotes_and_newlines() {
    let mut fs = Fs::new();
    fs.add(String::from("inner.txt"), String::from("say \"hi\"\nend"));
    fs.add(
        String::from("main.txt"),
        String::from("$PREP enable\n$PREP stringify S inner.txt\n"),
    );
    let mut vars = Context::new();
    let r = process_file("main.txt", &mut vars, &fs, FUEL);
    assert_eq!(r.unwrap().output(), "");
    assert_eq!(
        vars.get("S").map(|s| s.as_str()),
        Some("\"say \\\"hi\\\"\\\nend\""),
    );
}

#[test]
fn embedding_inserts_other_file() {
    let mut fs = Fs::new();
    fs.add(String::from("inner.txt"), String::from("plain text"));
    fs.add(
        String::from("main.txt"),
        format!("$PREP enable\n$PREP {} inner.txt\n", embed_word()),
    );
    let mut vars = Context::new();
    let r = process_file("main.txt", &mut vars, &fs, FUEL);
    assert_eq!(r.unwrap().output(), "plain text");
}

#[test]
fn cross_embed_definition_visible_after_directive() {
    let mut fs = Fs::new();
    fs.add(
        String::from("inner.txt"),
        String::from("$PREP enable\n$PREP define FROM_INNER yes\ninner-line\n"),
    );
    fs.add(
        String::from("main.txt"),
        format!(
            "$PREP enable\n$PREP {} inner.txt\n%FROM_INNER%\n",
            embed_word(),
        ),
    );
    let mut vars = Context::new();
    let r = process_file("main.txt", &mut vars, &fs, FUEL);
    let out = r.unwrap().output();
    assert_eq!(out.lines().last(), Some("yes"));
    assert_eq!(vars.get("FROM_INNER").map(|s| s.as_str()), Some("yes"));
}

#[test]
fn stringify_rejects_bad_identifier() {
    let mut fs = Fs::new();
    fs.add(String::from("inner.txt"), String::from("text"));
    fs.add(
        String::from("main.txt"),
        String::from("$PREP enable
$PREP stringify a-b inner.txt
"),
    );
    let mut vars = Context::new();
    match process_file("main.txt", &mut vars, &fs, FUEL) {
        Err(MacroError::InvalidArg(s)) => assert_eq!(s, "a-b"),
        other => panic!("expected a bad name, got {:?}", other),
    }
    assert_eq!(vars.len(), 0);
}

#[test]
fn embedding_takes_one_argument() {
    let (r, _) = run_one(&format!("$PREP enable\n$PREP {} a b\n", embed_word()));
    match r {
        Err(MacroError::ExpectedNArgs(1, 2)) => {},
        other => panic!("expected an arity error, got {:?}", other),
    }
}

#[test]
fn self_embedding_hits_depth_limit() {
    let mut fs = Fs::new();
    fs.add(
        String::from("loop.txt"),
        format!("$PREP enable\n$PREP {} loop.txt\n", embed_word()),
    );
    let mut vars = Context::new();
    match process_file("loop.txt", &mut vars, &fs, 8) {
        Err(MacroError::RecursionLimit) => {},
        other => panic!("expected the depth limit, got {:?}", other),
    }
}

#[test]
fn escaped_markers_survive_processing() {
    let (r, _) = run_one("$PREP enable\n\\$PREP define X y\nplain \\%NOT%\n");
    // The escaped dollar keeps the line from being a directive.
    assert_eq!(r.unwrap().output(), "$PREP define X y\nplain %NOT%");
}
