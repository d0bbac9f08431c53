use cheats::parser::{tokenize, Token};

fn invocation(name: &str, args: &str) -> Token {
    Token::Invocation(name.to_string(), args.to_string())
}

#[test]
fn single_invocation_without_args() {
    let toks = tokenize("cl_hello", false);
    assert_eq!(toks, vec![invocation("cl_hello", "")]);
}

#[test]
fn single_invocation_with_args() {
    let toks = tokenize("cl_hello Eray", false);
    assert_eq!(toks, vec![invocation("cl_hello", "Eray")]);
}

#[test]
fn multi_word_args_stay_one_token() {
    let toks = tokenize("cl_hello Eray Erdin", false);
    assert_eq!(toks, vec![invocation("cl_hello", "Eray Erdin")]);
}

#[test]
fn comment_line_is_skipped() {
    let toks = tokenize("# comment\ncl_hello Eray", false);
    assert_eq!(toks, vec![invocation("cl_hello", "Eray")]);
}

#[test]
fn comment_line_is_surfaced_under_keep_policy() {
    let toks = tokenize("# comment\ncl_hello Eray", true);
    assert_eq!(
        toks,
        vec![
            Token::Comment("comment".to_string()),
            invocation("cl_hello", "Eray"),
        ]
    );
}

#[test]
fn double_slash_comment_after_invocation() {
    let toks = tokenize("cl_hello // without arg", true);
    assert_eq!(
        toks,
        vec![
            invocation("cl_hello", ""),
            Token::Comment("without arg".to_string()),
        ]
    );
}

#[test]
fn hash_comment_at_end_of_input() {
    let toks = tokenize("cl_hello #note", true);
    assert_eq!(
        toks,
        vec![invocation("cl_hello", ""), Token::Comment("note".to_string())]
    );
}

#[test]
fn empty_input_yields_no_tokens() {
    assert_eq!(tokenize("", false), vec![]);
    assert_eq!(tokenize("", true), vec![]);
}

#[test]
fn whitespace_only_input_yields_no_tokens() {
    assert_eq!(tokenize(" \t\r\n\u{000C} ", true), vec![]);
}

#[test]
fn unmatched_input_is_ignored() {
    let toks = tokenize("!!! cl_hello *", false);
    assert_eq!(toks, vec![invocation("cl_hello", "")]);
}

#[test]
fn lone_slash_is_ignored() {
    let toks = tokenize("/ cl_hello", false);
    assert_eq!(toks, vec![invocation("cl_hello", "")]);
}

#[test]
fn several_invocations_across_lines() {
    let toks = tokenize("cl_hello\ncl_hello Eray\nsv_foo 1 2", false);
    assert_eq!(
        toks,
        vec![
            invocation("cl_hello", ""),
            invocation("cl_hello", "Eray"),
            invocation("sv_foo", "1 2"),
        ]
    );
}

#[test]
fn double_spaces_split_lexemes() {
    let toks = tokenize("cl_hello  Eray", false);
    assert_eq!(toks, vec![invocation("cl_hello", ""), invocation("Eray", "")]);
}

#[test]
fn word_characters_cover_digits_dash_underscore() {
    let toks = tokenize("sv_foo-2 bar_9", false);
    assert_eq!(toks, vec![invocation("sv_foo-2", "bar_9")]);
}

#[test]
fn tokenizer_is_stateless_across_calls() {
    let text = "# setup\ncl_hello Eray\nsv_foo\n!!!\ncl_hello";
    let first = tokenize(text, true);
    let second = tokenize(text, true);
    assert_eq!(first, second);
    let third = tokenize(text, false);
    let fourth = tokenize(text, false);
    assert_eq!(third, fourth);
}
