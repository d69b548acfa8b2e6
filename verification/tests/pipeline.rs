//! End-to-end tests of the three-pass scanner: token kinds, span texts,
//! lossless round-trips, and line numbering.

use xr_parser::parser::{parse, Sequence, Token};

fn cat(tokens: &[Sequence<Token>]) -> String {
    let mut s = String::new();
    for t in tokens {
        s.push_str(&t.text);
    }
    s
}

fn roundtrip(input: &str) {
    let tokens = parse(input);
    assert_eq!(cat(&tokens), input);
}

#[test]
fn empty_input_gives_no_tokens() {
    let tokens = parse("");
    assert!(tokens.is_empty());
}

#[test]
fn losslessness_plain_text() {
    roundtrip("fn main() { let x = 1; }");
}

#[test]
fn losslessness_mixed_constructs() {
    roundtrip("let s = \"a\\\"b\"; // trailing\n/* block /* nested */ */ 'c' 'lt r#\"raw\"#");
}

#[test]
fn losslessness_malformed_input() {
    roundtrip("\"unclosed /* also unclosed\n' r#\"half");
    roundtrip("*/ */ '");
}

#[test]
fn nested_block_comment_is_one_token() {
    let tokens = parse("/* a /* b */ c */");
    assert_eq!(tokens.len(), 1);
    assert_eq!(tokens[0].token, Token::MultiLineComment);
    assert_eq!(tokens[0].text, "/* a /* b */ c */");
}

#[test]
fn end_comment_without_beginning() {
    let tokens = parse("*/");
    assert_eq!(tokens.len(), 1);
    assert_eq!(
        tokens[0].token,
        Token::Invalid("Multiline end comment detected without a beginning.".to_string())
    );
    assert_eq!(tokens[0].text, "*/");
}

#[test]
fn unclosed_block_comment_reports_levels() {
    let tokens = parse("/* /*");
    assert_eq!(tokens.len(), 1);
    assert_eq!(
        tokens[0].token,
        Token::Invalid("Multiline comment not closed (2 level(s) unclosed).".to_string())
    );
}

#[test]
fn unclosed_block_comment_reports_two_digit_levels() {
    let input = "/*".repeat(12);
    let tokens = parse(&input);
    assert_eq!(tokens.len(), 1);
    assert_eq!(
        tokens[0].token,
        Token::Invalid("Multiline comment not closed (12 level(s) unclosed).".to_string())
    );
    assert_eq!(cat(&tokens), input);
}

#[test]
fn line_comment_stops_before_newline() {
    let tokens = parse("// hi\nx");
    assert_eq!(tokens.len(), 3);
    assert_eq!(tokens[0].token, Token::SingleLineComment);
    assert_eq!(tokens[0].text, "// hi");
    assert_eq!(tokens[1].token, Token::NewLine(2));
    assert_eq!(tokens[1].text, "\n");
    assert_eq!(tokens[2].token, Token::Other);
    assert_eq!(tokens[2].text, "x");
}

#[test]
fn line_comment_at_end_of_input() {
    let tokens = parse("// alone");
    assert_eq!(tokens.len(), 1);
    assert_eq!(tokens[0].token, Token::SingleLineComment);
    assert_eq!(tokens[0].text, "// alone");
}

#[test]
fn plain_string_literal() {
    let tokens = parse("\"abc\"");
    assert_eq!(tokens.len(), 1);
    assert_eq!(tokens[0].token, Token::StrLiteral);
    assert_eq!(tokens[0].text, "\"abc\"");
}

#[test]
fn escaped_quote_does_not_close_string() {
    let tokens = parse("\"a\\\"b\"");
    assert_eq!(tokens.len(), 1);
    assert_eq!(tokens[0].token, Token::StrLiteral);
    assert_eq!(tokens[0].text, "\"a\\\"b\"");
}

#[test]
fn unclosed_string_literal() {
    let tokens = parse("\"abc");
    assert_eq!(tokens.len(), 1);
    assert_eq!(
        tokens[0].token,
        Token::Invalid("Unclosed string literal".to_string())
    );
}

#[test]
fn raw_string_with_matching_hashes() {
    let tokens = parse("r#\"a\"#");
    assert_eq!(tokens.len(), 1);
    assert_eq!(tokens[0].token, Token::StrLiteral);
    assert_eq!(tokens[0].text, "r#\"a\"#");
}

#[test]
fn raw_string_missing_closing_hash_is_unclosed() {
    let tokens = parse("r#\"a\"");
    assert_eq!(tokens.len(), 1);
    assert_eq!(
        tokens[0].token,
        Token::Invalid("Unclosed string literal".to_string())
    );
}

#[test]
fn raw_string_inner_hash_is_content() {
    let tokens = parse("r##\"a\"#\"##");
    assert_eq!(tokens.len(), 1);
    assert_eq!(tokens[0].token, Token::StrLiteral);
    assert_eq!(tokens[0].text, "r##\"a\"#\"##");
}

#[test]
fn raw_string_hashes_without_delimiter_are_invalid() {
    let tokens = parse("r#a");
    assert_eq!(tokens.len(), 2);
    assert_eq!(
        tokens[0].token,
        Token::Invalid("Invalid raw string literal".to_string())
    );
    assert_eq!(tokens[0].text, "r#");
    assert_eq!(tokens[1].token, Token::Other);
    assert_eq!(tokens[1].text, "a");
}

#[test]
fn byte_raw_string_literal() {
    let tokens = parse("br\"x\"");
    assert_eq!(tokens.len(), 1);
    assert_eq!(tokens[0].token, Token::StrLiteral);
    assert_eq!(tokens[0].text, "br\"x\"");
}

#[test]
fn raw_string_ignores_escapes() {
    // the backslash does not hide the closing delimiter of a raw string
    let tokens = parse("r\"a\\\"");
    assert_eq!(tokens.len(), 1);
    assert_eq!(tokens[0].token, Token::StrLiteral);
    assert_eq!(tokens[0].text, "r\"a\\\"");
}

#[test]
fn identifier_with_string_prefix_letter_splits() {
    let tokens = parse("bool");
    assert_eq!(tokens.len(), 2);
    assert_eq!(tokens[0].token, Token::Other);
    assert_eq!(tokens[0].text, "b");
    assert_eq!(tokens[1].token, Token::Other);
    assert_eq!(tokens[1].text, "ool");
}

#[test]
fn char_literal_simple() {
    let tokens = parse("'a'");
    assert_eq!(tokens.len(), 1);
    assert_eq!(tokens[0].token, Token::CharLiteral);
    assert_eq!(tokens[0].text, "'a'");
}

#[test]
fn lifetime_elision_without_closing_quote() {
    let tokens = parse("'a b");
    assert_eq!(tokens[0].token, Token::LifetimeElision);
    assert_eq!(tokens[0].text, "'a");
    assert_eq!(cat(&tokens), "'a b");
}

#[test]
fn escaped_char_literal() {
    let tokens = parse("'\\n'");
    assert_eq!(tokens.len(), 1);
    assert_eq!(tokens[0].token, Token::CharLiteral);
    assert_eq!(tokens[0].text, "'\\n'");
}

#[test]
fn quote_at_end_of_input_is_unclosed() {
    let tokens = parse("'");
    assert_eq!(tokens.len(), 1);
    assert_eq!(
        tokens[0].token,
        Token::Invalid("Unclosed char or lifetime elision".to_string())
    );
    assert_eq!(tokens[0].text, "'");
}

#[test]
fn comment_opener_after_quote_is_invalid_char() {
    let tokens = parse("'/*");
    assert_eq!(tokens.len(), 1);
    assert_eq!(
        tokens[0].token,
        Token::Invalid("Invalid char literal".to_string())
    );
    assert_eq!(tokens[0].text, "'/*");
}

#[test]
fn quoted_string_delimiter_char_literal() {
    let tokens = parse("'\"'");
    assert_eq!(tokens.len(), 1);
    assert_eq!(tokens[0].token, Token::CharLiteral);
    assert_eq!(tokens[0].text, "'\"'");
}

#[test]
fn line_numbers_track_newline_counts() {
    let tokens = parse("a\nb\n\nc");
    let lines: Vec<&Token> = tokens.iter().map(|t| &t.token).collect();
    assert_eq!(
        lines,
        vec![
            &Token::Other,
            &Token::NewLine(2),
            &Token::Other,
            &Token::NewLine(4),
            &Token::Other,
        ]
    );
}

#[test]
fn newline_inside_comment_still_counts() {
    let tokens = parse("/* a\nb */\nx");
    assert_eq!(tokens.len(), 3);
    assert_eq!(tokens[0].token, Token::MultiLineComment);
    // the comment swallowed the newline of line 1, so the next counter is 3
    assert_eq!(tokens[1].token, Token::NewLine(3));
    assert_eq!(tokens[2].token, Token::Other);
}

#[test]
fn lone_carriage_return_does_not_advance_line() {
    let tokens = parse("a\rb\r\nc");
    assert_eq!(tokens[1].token, Token::NewLine(1));
    assert_eq!(tokens[1].text, "\r");
    assert_eq!(tokens[3].token, Token::NewLine(2));
    assert_eq!(tokens[3].text, "\r\n");
}

#[test]
fn repeated_hashes_merge_into_one_span() {
    let tokens = parse("###");
    assert_eq!(tokens.len(), 1);
    assert_eq!(tokens[0].token, Token::Other);
    assert_eq!(tokens[0].text, "###");
}

#[test]
fn scanning_twice_gives_identical_streams() {
    let input = "/* c */ \"s\" 'x' 'lt\nrest r#\"raw\"# */";
    let first = parse(input);
    let second = parse(input);
    assert_eq!(first.len(), second.len());
    for (a, b) in first.iter().zip(second.iter()) {
        assert_eq!(a.token, b.token);
        assert_eq!(a.text, b.text);
    }
}
