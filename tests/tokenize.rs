use shellob::Shell;

fn toks(line: &str) -> Vec<String> {
    Shell::tokenize(line)
}

#[test]
fn single_quoted_text_is_one_verbatim_token() {
    assert_eq!(toks("'a b\\\"c'"), vec!["a b\\\"c".to_string()]);
}

#[test]
fn single_quotes_keep_backslashes_and_spaces() {
    assert_eq!(toks("'x  \\n \"y\"'"), vec!["x  \\n \"y\"".to_string()]);
}

#[test]
fn double_quotes_keep_unknown_escapes() {
    assert_eq!(toks("\"a\\nb\""), vec!["a\\nb".to_string()]);
}

#[test]
fn double_quotes_collapse_four_escapes() {
    assert_eq!(toks("\"a\\\\b\\$c\\\"d\\\ne\""), vec!["a\\b$c\"d\ne".to_string()]);
}

#[test]
fn double_quotes_keep_spaces_and_single_quotes() {
    assert_eq!(toks("\"it's  here\""), vec!["it's  here".to_string()]);
}

#[test]
fn runs_of_spaces_separate_words() {
    assert_eq!(
        toks("  echo   hi  there "),
        vec!["echo".to_string(), "hi".to_string(), "there".to_string()]
    );
}

#[test]
fn blank_lines_give_no_tokens() {
    assert!(toks("").is_empty());
    assert!(toks("     ").is_empty());
}

#[test]
fn trailing_backslash_adds_nothing() {
    assert_eq!(toks("abc\\"), vec!["abc".to_string()]);
    assert_eq!(toks("a \\"), vec!["a".to_string()]);
    assert!(toks("\\").is_empty());
    assert_eq!(toks("\"ab\\"), vec!["ab".to_string()]);
}

#[test]
fn bare_backslash_escapes_next_character() {
    assert_eq!(toks("a\\ b c"), vec!["a b".to_string(), "c".to_string()]);
    assert_eq!(toks("\\'x\\\""), vec!["'x\"".to_string()]);
}

#[test]
fn unterminated_quotes_run_to_end() {
    assert_eq!(toks("'abc def"), vec!["abc def".to_string()]);
    assert_eq!(toks("x \"abc def"), vec!["x".to_string(), "abc def".to_string()]);
}

#[test]
fn adjacent_quoted_parts_join() {
    assert_eq!(toks("a'b c'\"d e\"f"), vec!["ab cd ef".to_string()]);
}

#[test]
fn empty_quotes_make_no_token() {
    assert!(toks("''").is_empty());
    assert_eq!(toks("a '' \"\" b"), vec!["a".to_string(), "b".to_string()]);
}

#[test]
fn tab_is_not_a_separator() {
    assert_eq!(toks("a\tb"), vec!["a\tb".to_string()]);
}

#[test]
fn non_ascii_characters_pass_through() {
    assert_eq!(toks("héllo wörld"), vec!["héllo".to_string(), "wörld".to_string()]);
}
