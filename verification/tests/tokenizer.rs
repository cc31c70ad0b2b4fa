use shell::shell::Error;
use shell::tokenize;
use shell::Splitter;

fn words(line: &str) -> Vec<String> {
    tokenize(line).expect("the line tokenizes")
}

#[test]
fn empty_line_yields_no_words() {
    assert!(words("").is_empty());
}

#[test]
fn whitespace_runs_collapse() {
    assert_eq!(words("a   b    c"), ["a", "b", "c"]);
}

#[test]
fn empty_single_quotes_yield_no_words() {
    assert!(words("''").is_empty());
}

#[test]
fn empty_double_quotes_yield_no_words() {
    assert!(words("\"\"").is_empty());
}

#[test]
fn single_quotes_keep_spaces() {
    assert_eq!(words("'a   b'    c"), ["a   b", "c"]);
}

#[test]
fn double_quotes_keep_spaces() {
    assert_eq!(words("a \"b   c\"    d"), ["a", "b   c", "d"]);
}

#[test]
fn apostrophe_is_literal_inside_double_quotes() {
    assert_eq!(words("\"shell's    b\"    c"), ["shell's    b", "c"]);
}

#[test]
fn adjacent_segments_merge_into_one_word() {
    assert_eq!(words("a'b c'd"), ["ab cd"]);
}

#[test]
fn quoted_segments_merge_without_spaces() {
    assert_eq!(words("\"ab\"cd'ef'"), ["abcdef"]);
}

#[test]
fn backslash_escapes_quote_inside_double_quotes() {
    assert_eq!(words("\"a\\\"b\""), ["a\"b"]);
}

#[test]
fn unknown_escape_keeps_backslash_inside_double_quotes() {
    assert_eq!(words("\"a\\qb\""), ["a\\qb"]);
}

#[test]
fn backslash_escapes_backslash_inside_double_quotes() {
    assert_eq!(words("\"a\\\\b\""), ["a\\b"]);
}

#[test]
fn escaped_space_does_not_split_unquoted() {
    let ws = words("a\\ b");
    assert_eq!(ws.len(), 1);
    assert_eq!(ws, ["a b"]);
}

#[test]
fn backslash_makes_any_unquoted_character_literal() {
    assert_eq!(words("a\\'b"), ["a'b"]);
    assert_eq!(words("a\\qb"), ["aqb"]);
}

#[test]
fn backslash_is_literal_inside_single_quotes() {
    assert_eq!(words("'a\\qb'"), ["a\\qb"]);
}

#[test]
fn rejoining_plain_words_reaches_a_fixed_point() {
    let first = words("a   b c");
    let rejoined = shell::shell::echo_message(&first);
    assert_eq!(rejoined, "a b c");
    let second = words(&rejoined);
    assert_eq!(first, second);
}

#[test]
fn unterminated_single_quote_is_an_error() {
    assert_eq!(tokenize("'abc"), Err(Error::UnterminatedQuote('\'')));
}

#[test]
fn unterminated_double_quote_is_an_error() {
    assert_eq!(tokenize("\"abc"), Err(Error::UnterminatedQuote('"')));
}

#[test]
fn splitter_reports_its_words() {
    let mut splitter = Splitter::new("echo  hello   world");
    assert_eq!(
        splitter.get_splitted().expect("the line tokenizes"),
        ["echo", "hello", "world"]
    );
}

#[test]
fn splitter_can_scan_again() {
    let mut splitter = Splitter::new("one 'two  three'");
    assert_eq!(
        splitter.get_splitted().expect("the line tokenizes"),
        ["one", "two  three"]
    );
    assert_eq!(
        splitter.get_splitted().expect("the line tokenizes"),
        ["one", "two  three"]
    );
}

#[test]
fn trailing_backslash_is_dropped_unquoted() {
    assert_eq!(words("ab\\"), ["ab"]);
}

#[test]
fn dollar_escape_is_recognized_inside_double_quotes() {
    assert_eq!(words("\"a\\$b\""), ["a$b"]);
}
