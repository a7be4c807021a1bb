//! Conversion words of the log4j lexer.

use tracing_config::formatter::log4j::lexer::{scan, EscapeMode, Keyword, Token};
use tracing_config::formatter::logback::color::Color;


#[test]
fn test_literal_only() {
    let tokens = scan("hello world").unwrap();
    assert_eq!(tokens.len(), 1);
    assert!(matches!(&tokens[0], Token::Literal(s) if s == "hello world"));
}

#[test]
fn test_basic_keywords() {
    let tokens = scan("%d %p %t %m %n").unwrap();
    assert_eq!(tokens.len(), 5);
}

#[test]
fn test_logger_dot_notation() {
    let tokens = scan("%c{1.}").unwrap();
    assert!(matches!(
        &tokens[0],
        Token::Conversion {
            keyword: Keyword::Logger,
            option: Some(opt),
            ..
        } if opt == "1."
    ));
}

#[test]
fn test_logger_plain() {
    let tokens = scan("%c{2}").unwrap();
    assert!(matches!(
        &tokens[0],
        Token::Conversion {
            keyword: Keyword::Logger,
            option: Some(opt),
            ..
        } if opt == "2"
    ));
}

#[test]
fn test_enc_with_html() {
    let tokens = scan("%enc{%m}{html}").unwrap();
    assert!(matches!(
        &tokens[0],
        Token::Conversion {
            keyword: Keyword::Enc(EscapeMode::Html),
            sub_pattern: Some(_),
            ..
        }
    ));
}

#[test]
fn test_maxlen() {
    let tokens = scan("%maxLen{%msg}{50}").unwrap();
    assert!(matches!(
        &tokens[0],
        Token::Conversion {
            keyword: Keyword::MaxLen(50),
            sub_pattern: Some(_),
            ..
        }
    ));
}

#[test]
fn test_throwable_short() {
    let tokens = scan("%ex{3}").unwrap();
    assert!(matches!(
        &tokens[0],
        Token::Conversion {
            keyword: Keyword::Throwable,
            option: Some(opt),
            ..
        } if opt == "3"
    ));
}

#[test]
fn test_x_is_ndc() {
    let tokens = scan("%x").unwrap();
    assert!(matches!(
        &tokens[0],
        Token::Conversion {
            keyword: Keyword::Ndc,
            ..
        }
    ));
}

#[test]
fn test_color_word() {
    let tokens = scan("%red(%p)").unwrap();
    assert!(matches!(
        &tokens[0],
        Token::Conversion {
            keyword: Keyword::ColorWord(Color::Red),
            sub_pattern: Some(_),
            ..
        }
    ));
}
