//! Tests of the individual passes and the diagnostic token constructors.

use xr_parser::pass1::parse_level_one_tokens;
use xr_parser::pass2::{cout_new_lines, parse_level_two_tokens};
use xr_parser::pass3::parse_level_three_tokens;
use xr_parser::tokens::{LevelOneToken, LevelTwoToken, Token};

#[test]
fn level_one_classes_and_greedy_merging() {
    let spans = parse_level_one_tokens("ab12_ ##*//r\n\r");
    let got: Vec<(LevelOneToken, &str)> =
        spans.iter().map(|s| (s.token, s.text.as_str())).collect();
    assert_eq!(
        got,
        vec![
            (LevelOneToken::UnderscoreLetter, "a"),
            (LevelOneToken::LowerCaseB, "b"),
            (LevelOneToken::Digit, "12"),
            (LevelOneToken::UnderscoreLetter, "_"),
            (LevelOneToken::Other, " "),
            (LevelOneToken::Hash, "##"),
            (LevelOneToken::Asterisk, "*"),
            (LevelOneToken::ForwardSlash, "/"),
            (LevelOneToken::ForwardSlash, "/"),
            (LevelOneToken::LowerCaseR, "r"),
            (LevelOneToken::NewLine, "\n\r"),
        ]
    );
}

#[test]
fn level_one_greedy_flags() {
    assert!(LevelOneToken::Digit.is_greedy());
    assert!(LevelOneToken::Hash.is_greedy());
    assert!(LevelOneToken::NewLine.is_greedy());
    assert!(LevelOneToken::Other.is_greedy());
    assert!(LevelOneToken::UnderscoreLetter.is_greedy());
    assert!(!LevelOneToken::Asterisk.is_greedy());
    assert!(!LevelOneToken::BackSlash.is_greedy());
    assert!(!LevelOneToken::CharDelimiter.is_greedy());
    assert!(!LevelOneToken::ForwardSlash.is_greedy());
    assert!(!LevelOneToken::LowerCaseB.is_greedy());
    assert!(!LevelOneToken::LowerCaseR.is_greedy());
    assert!(!LevelOneToken::StrDelimiter.is_greedy());
}

#[test]
fn level_two_structural_markers() {
    let spans = parse_level_two_tokens(&parse_level_one_tokens("//*/ br b1 r\nx2_y"));
    let got: Vec<(LevelTwoToken, &str)> =
        spans.iter().map(|s| (s.token, s.text.as_str())).collect();
    assert_eq!(
        got,
        vec![
            (LevelTwoToken::BeginSingleLineComment, "//"),
            (LevelTwoToken::EndMultiLineComment, "*/"),
            (LevelTwoToken::Other, " "),
            (LevelTwoToken::StrPrefix, "br"),
            (LevelTwoToken::Other, " "),
            (LevelTwoToken::StrPrefix, "b"),
            (LevelTwoToken::Other, "1"),
            (LevelTwoToken::Other, " "),
            (LevelTwoToken::StrPrefix, "r"),
            (LevelTwoToken::NewLine(2), "\n"),
            (LevelTwoToken::Word, "x2_y"),
        ]
    );
}

#[test]
fn level_three_maps_leftovers_to_other() {
    let spans = parse_level_three_tokens(&parse_level_two_tokens(&parse_level_one_tokens(
        "\\ # 7\n",
    )));
    let got: Vec<(&Token, &str)> = spans.iter().map(|s| (&s.token, s.text.as_str())).collect();
    assert_eq!(
        got,
        vec![
            (&Token::Other, "\\"),
            (&Token::Other, " "),
            (&Token::Other, "#"),
            (&Token::Other, " "),
            (&Token::Other, "7"),
            (&Token::NewLine(2), "\n"),
        ]
    );
}

#[test]
fn newline_counting_ignores_carriage_returns() {
    assert_eq!(cout_new_lines(""), 0);
    assert_eq!(cout_new_lines("\r"), 0);
    assert_eq!(cout_new_lines("\r\n\n"), 2);
    assert_eq!(cout_new_lines("a\nb\nc\n"), 3);
}

#[test]
fn diagnostic_messages_are_exact() {
    assert_eq!(
        Token::invalid_char_literal(),
        Token::Invalid("Invalid char literal".to_string())
    );
    assert_eq!(
        Token::invalid_raw_string_literal(),
        Token::Invalid("Invalid raw string literal".to_string())
    );
    assert_eq!(
        Token::multi_line_comment_without_beggining(),
        Token::Invalid("Multiline end comment detected without a beginning.".to_string())
    );
    assert_eq!(
        Token::unclosed_char_literal(),
        Token::Invalid("Unclosed char or lifetime elision".to_string())
    );
    assert_eq!(
        Token::unclosed_string_literal(),
        Token::Invalid("Unclosed string literal".to_string())
    );
    assert_eq!(
        Token::unclosed_multi_line_comment(1),
        Token::Invalid("Multiline comment not closed (1 level(s) unclosed).".to_string())
    );
    assert_eq!(
        Token::unclosed_multi_line_comment(305),
        Token::Invalid("Multiline comment not closed (305 level(s) unclosed).".to_string())
    );
}
