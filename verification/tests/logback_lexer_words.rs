//! Conversion words of the logback lexer.

use tracing_config::formatter::logback::lexer::{scan, Keyword, Token};


#[test]
fn test_literal() {
    let tokens = scan("hello world").unwrap();
    assert_eq!(tokens.len(), 1);
    assert_eq!(tokens[0], Token::Literal("hello world".to_string()));
}

#[test]
fn test_level() {
    let tokens = scan("%level").unwrap();
    assert_eq!(tokens.len(), 1);
    assert!(matches!(
        tokens[0],
        Token::Conversion {
            keyword: Keyword::Level,
            ..
        }
    ));
}

#[test]
fn test_date() {
    let tokens = scan("%d{HH:mm:ss}").unwrap();
    assert_eq!(tokens.len(), 1);
    assert!(matches!(
        tokens[0],
        Token::Conversion {
            keyword: Keyword::Date,
            ..
        }
    ));
    if let Token::Conversion { option, .. } = &tokens[0] {
        assert_eq!(option.as_deref(), Some("HH:mm:ss"));
    }
}

#[test]
fn test_logger() {
    let tokens = scan("%c{36}").unwrap();
    assert_eq!(tokens.len(), 1);
    assert!(matches!(
        tokens[0],
        Token::Conversion {
            keyword: Keyword::Logger,
            ..
        }
    ));
    if let Token::Conversion { option, .. } = &tokens[0] {
        assert_eq!(option.as_deref(), Some("36"));
    }
}

#[test]
fn test_modifier() {
    let tokens = scan("%-5level").unwrap();
    assert_eq!(tokens.len(), 1);
    if let Token::Conversion {
        modifier,
        keyword: Keyword::Level,
        ..
    } = &tokens[0]
    {
        assert!(modifier.as_ref().map(|m| m.left_align).unwrap_or(false));
        assert_eq!(modifier.as_ref().and_then(|m| m.min_width), Some(5));
    }
}

#[test]
fn test_percent_escape() {
    let tokens = scan("%%test").unwrap();
    assert_eq!(tokens.len(), 2);
    assert_eq!(tokens[0], Token::Percent);
    assert_eq!(tokens[1], Token::Literal("test".to_string()));
}

#[test]
fn test_newline() {
    let tokens = scan("%n").unwrap();
    assert_eq!(tokens.len(), 1);
    assert_eq!(tokens[0], Token::Newline);
}

#[test]
fn test_thread() {
    let tokens = scan("%thread").unwrap();
    assert_eq!(tokens.len(), 1);
    assert!(matches!(
        tokens[0],
        Token::Conversion {
            keyword: Keyword::Thread,
            ..
        }
    ));
}

#[test]
fn test_mdc() {
    let tokens = scan("%X{request_id}").unwrap();
    assert_eq!(tokens.len(), 1);
    assert!(matches!(
        &tokens[0],
        Token::Conversion {
            keyword: Keyword::Mdc,
            ..
        }
    ));
    if let Token::Conversion { option, .. } = &tokens[0] {
        assert_eq!(option.as_deref(), Some("request_id"));
    }
}

#[test]
fn test_pid() {
    let tokens = scan("%pid").unwrap();
    assert_eq!(tokens.len(), 1);
    assert!(matches!(
        &tokens[0],
        Token::Conversion {
            keyword: Keyword::Pid,
            ..
        }
    ));
}

#[test]
fn test_line() {
    let tokens = scan("%line").unwrap();
    assert_eq!(tokens.len(), 1);
    assert!(matches!(
        &tokens[0],
        Token::Conversion {
            keyword: Keyword::Line,
            ..
        }
    ));
}

#[test]
fn test_class() {
    let tokens = scan("%class").unwrap();
    assert_eq!(tokens.len(), 1);
    assert!(matches!(
        &tokens[0],
        Token::Conversion {
            keyword: Keyword::Class,
            ..
        }
    ));
}

#[test]
fn test_marker() {
    let tokens = scan("%marker").unwrap();
    assert_eq!(tokens.len(), 1);
    assert!(matches!(
        &tokens[0],
        Token::Conversion {
            keyword: Keyword::Marker,
            ..
        }
    ));
}

#[test]
fn test_relative() {
    let tokens = scan("%relative").unwrap();
    assert_eq!(tokens.len(), 1);
    assert!(matches!(
        &tokens[0],
        Token::Conversion {
            keyword: Keyword::Relative,
            ..
        }
    ));
}

#[test]
fn test_relative_short() {
    let tokens = scan("%r").unwrap();
    assert_eq!(tokens.len(), 1);
    assert!(matches!(
        &tokens[0],
        Token::Conversion {
            keyword: Keyword::Relative,
            ..
        }
    ));
}

#[test]
fn test_kvp() {
    let tokens = scan("%kvp").unwrap();
    assert_eq!(tokens.len(), 1);
    assert!(matches!(
        &tokens[0],
        Token::Conversion {
            keyword: Keyword::Kvp,
            ..
        }
    ));
}

#[test]
fn test_pid_uppercase() {
    let tokens = scan("%P").unwrap();
    assert_eq!(tokens.len(), 1);
    assert!(matches!(
        &tokens[0],
        Token::Conversion {
            keyword: Keyword::Pid,
            ..
        }
    ));
}

#[test]
fn test_file_uppercase() {
    let tokens = scan("%F").unwrap();
    assert_eq!(tokens.len(), 1);
    assert!(matches!(
        &tokens[0],
        Token::Conversion {
            keyword: Keyword::File,
            ..
        }
    ));
}

#[test]
fn test_exception() {
    let tokens = scan("%ex").unwrap();
    assert_eq!(tokens.len(), 1);
    assert!(matches!(
        &tokens[0],
        Token::Conversion {
            keyword: Keyword::Exception,
            ..
        }
    ));
}

#[test]
fn test_exception_full() {
    let tokens = scan("%exception").unwrap();
    assert_eq!(tokens.len(), 1);
    assert!(matches!(
        &tokens[0],
        Token::Conversion {
            keyword: Keyword::Exception,
            ..
        }
    ));
}

#[test]
fn test_exception_with_depth() {
    let tokens = scan("%ex{3}").unwrap();
    assert_eq!(tokens.len(), 1);
    assert!(matches!(
        &tokens[0],
        Token::Conversion {
            keyword: Keyword::Exception,
            option: Some(opt),
            ..
        } if opt == "3"
    ));
}

#[test]
fn test_root_exception_short() {
    let tokens = scan("%rEx").unwrap();
    assert_eq!(tokens.len(), 1);
    assert!(matches!(
        &tokens[0],
        Token::Conversion {
            keyword: Keyword::RootException,
            ..
        }
    ));
}

#[test]
fn test_root_exception_full() {
    let tokens = scan("%rootException").unwrap();
    assert_eq!(tokens.len(), 1);
    assert!(matches!(
        &tokens[0],
        Token::Conversion {
            keyword: Keyword::RootException,
            ..
        }
    ));
}

#[test]
fn test_root_exception_with_depth() {
    let tokens = scan("%rEx{5}").unwrap();
    assert_eq!(tokens.len(), 1);
    assert!(matches!(
        &tokens[0],
        Token::Conversion {
            keyword: Keyword::RootException,
            option: Some(opt),
            ..
        } if opt == "5"
    ));
}

#[test]
fn test_extended_exception_short() {
    let tokens = scan("%xEx").unwrap();
    assert_eq!(tokens.len(), 1);
    assert!(matches!(
        &tokens[0],
        Token::Conversion {
            keyword: Keyword::ExtendedException,
            ..
        }
    ));
}

#[test]
fn test_extended_exception_full() {
    let tokens = scan("%xException").unwrap();
    assert_eq!(tokens.len(), 1);
    assert!(matches!(
        &tokens[0],
        Token::Conversion {
            keyword: Keyword::ExtendedException,
            ..
        }
    ));
}

#[test]
fn test_extended_exception_throwable() {
    let tokens = scan("%xThrowable").unwrap();
    assert_eq!(tokens.len(), 1);
    assert!(matches!(
        &tokens[0],
        Token::Conversion {
            keyword: Keyword::ExtendedException,
            ..
        }
    ));
}

#[test]
fn test_extended_exception_with_depth() {
    let tokens = scan("%xEx{10}").unwrap();
    assert_eq!(tokens.len(), 1);
    assert!(matches!(
        &tokens[0],
        Token::Conversion {
            keyword: Keyword::ExtendedException,
            option: Some(opt),
            ..
        } if opt == "10"
    ));
}

#[test]
fn test_nop_exception_short() {
    let tokens = scan("%nopex").unwrap();
    assert_eq!(tokens.len(), 1);
    assert!(matches!(
        &tokens[0],
        Token::Conversion {
            keyword: Keyword::NopException,
            ..
        }
    ));
}

#[test]
fn test_nop_exception_full() {
    let tokens = scan("%nopexception").unwrap();
    assert_eq!(tokens.len(), 1);
    assert!(matches!(
        &tokens[0],
        Token::Conversion {
            keyword: Keyword::NopException,
            ..
        }
    ));
}

fn single_word_then(pattern: &str, keyword: Keyword, rest: &str) {
    let tokens = scan(pattern).unwrap();
    assert_eq!(tokens.len(), 2, "pattern {pattern}");
    assert!(
        matches!(&tokens[0], Token::Conversion { keyword: k, option: None, .. } if *k == keyword),
        "pattern {pattern}"
    );
    assert_eq!(tokens[1], Token::Literal(rest.to_string()), "pattern {pattern}");
}

#[test]
fn text_after_a_word_is_kept_whole() {
    single_word_then("%ex|", Keyword::Exception, "|");
    single_word_then("%exception|", Keyword::Exception, "|");
    single_word_then("%class|", Keyword::Class, "|");
    single_word_then("%relative|", Keyword::Relative, "|");
    single_word_then("%marker|", Keyword::Marker, "|");
    single_word_then("%rEx|", Keyword::RootException, "|");
    single_word_then("%rootException|", Keyword::RootException, "|");
    single_word_then("%xEx|", Keyword::ExtendedException, "|");
    single_word_then("%xThrowable|", Keyword::ExtendedException, "|");
    single_word_then("%nopex|", Keyword::NopException, "|");
    single_word_then("%nopexception|", Keyword::NopException, "|");
    single_word_then("%level |", Keyword::Level, " |");
    single_word_then("%thread -", Keyword::Thread, " -");
}

#[test]
fn logger_at_the_end_is_one_word() {
    let tokens = scan("%logger").unwrap();
    assert_eq!(tokens.len(), 1);
    assert!(matches!(
        &tokens[0],
        Token::Conversion { keyword: Keyword::Logger, option: None, .. }
    ));
}
