//! Log4j `PatternLayout` lexer. Composite words (`%enc`, `%maxLen`,
//! `%highlight`, colour words) take their sub-pattern in `(...)` or `{...}`
//! and recursively scan it.

use vstd::prelude::*;
use crate::error::ConfigError;
use crate::text::{all_ascii, ascii_lower, byte_offset, byte_offset_of, lemma_utf8_len_ge_len, utf8_len, chars_of, lowercase, matches_at, occurs_at, parse_usize, parse_usize_spec, push_str, slice_chars, str_to_lowercase, string_of, chars_eq_str};
use crate::formatter::logback::align::FormatModifier;
use crate::formatter::logback::color::Color;
use crate::formatter::logback::lexer::{
    braced, braced_exec, close_scan, close_scan_exec, color_word_spec, cons, find_exec, find_from, kw_matches,
    lemma_find_from, lemma_post_option, lemma_prepend_cons, literal_end, modifier_spec, opt_view,
    parse_modifier, post_option, prepend, try_parse_color_word, unknown, KwOut, SScan, Step,
    LexError, step_error_matches, scan_error_matches,
};
use crate::formatter::logback::lexer::{lemma_at, lemma_no_colour_word, lemma_not_at, lemma_word_then, word_then};

verus! {

broadcast use vstd::seq_lib::group_seq_properties;

/// Output encoding for `%enc{sub}{mode}`.
#[derive(Debug, Clone, Copy, PartialEq, Eq, Structural)]
pub enum EscapeMode {
    Html,
    Xml,
    Json,
    Crlf,
    Plain,
}

/// Conversion-word keywords of the log4j engine.
#[derive(Debug, Clone, Copy, PartialEq, Eq, Structural)]
pub enum Keyword {
    /// `%d{pattern}`
    Date,
    /// `%p` / `%level`
    Level,
    /// `%t` / `%thread`
    Thread,
    /// `%c{..}` / `%logger`
    Logger,
    /// `%C` / `%class`
    Class,
    /// `%m` / `%msg` / `%message`
    Message,
    /// `%F`
    File,
    /// `%L`
    Line,
    /// `%M` / `%method`
    Method,
    /// `%x`: the current span's name
    Ndc,
    /// `%X{key}` / `%X` / `%K{key}`
    Mdc,
    /// `%pid(`
    Pid,
    /// `%ex{n}` / `%throwable`
    Throwable,
    /// `%xEx` / `%rEx`
    RootException,
    /// `%nopex`
    NopException,
    /// `%highlight{..}`
    Highlight,
    /// `%clr(..){color}`
    Clr,
    /// `%enc{..}{mode}`
    Enc(EscapeMode),
    /// `%maxLen{..}{n}`
    MaxLen(usize),
    /// `%red(..)`, `%boldBlue(..)`, ...
    ColorWord(Color),
    /// `%%`
    Percent,
}

/// A single token of a parsed log4j pattern.
#[derive(Debug, PartialEq)]
pub enum Token {
    /// Literal text.
    Literal(String),
    /// A conversion word with its modifier, keyword, `{option}` and sub-pattern.
    Conversion {
        /// Alignment / truncation.
        modifier: Option<FormatModifier>,
        /// The conversion keyword.
        keyword: Keyword,
        /// Parameter in `{...}`.
        option: Option<String>,
        /// Sub-pattern of composite words.
        sub_pattern: Option<Vec<Token>>,
    },
    /// `%n`.
    Newline,
    /// `%%`.
    Percent,
}

/// Mathematical model of a `Token`.
pub enum SToken {
    Literal(Seq<char>),
    Conversion {
        modifier: Option<FormatModifier>,
        keyword: Keyword,
        option: Option<Seq<char>>,
        sub_pattern: Option<Seq<SToken>>,
    },
    Newline,
    Percent,
}

/// The model of a token.
pub open spec fn tok_view(t: Token) -> SToken
    decreases t,
{
    match t {
        Token::Literal(s) => SToken::Literal(s@),
        Token::Conversion { modifier, keyword, option, sub_pattern } => SToken::Conversion {
            modifier,
            keyword,
            option: match option {
                Some(o) => Some(o@),
                None => None,
            },
            sub_pattern: match sub_pattern {
                Some(v) => Some(toks_view(v@)),
                None => None,
            },
        },
        Token::Newline => SToken::Newline,
        Token::Percent => SToken::Percent,
    }
}

/// The model of a sequence of tokens.
pub open spec fn toks_view(s: Seq<Token>) -> Seq<SToken>
    decreases s,
{
    if s.len() == 0 {
        Seq::<SToken>::empty()
    } else {
        toks_view(s.drop_last()).push(tok_view(s.last()))
    }
}

pub proof fn lemma_toks_view_push(s: Seq<Token>, t: Token)
    ensures
        toks_view(s.push(t)) == toks_view(s).push(tok_view(t)),
{
    assert(s.push(t).drop_last() =~= s);
}

/// Escape mode named by a lower-cased `%enc` option.
pub open spec fn escape_mode_from_name(n: Seq<char>) -> Option<EscapeMode> {
    if n == "html"@ { Some(EscapeMode::Html) }
    else if n == "xml"@ { Some(EscapeMode::Xml) }
    else if n == "json"@ { Some(EscapeMode::Json) }
    else if n == "crlf"@ { Some(EscapeMode::Crlf) }
    else if n == "none"@ || n.len() == 0 { Some(EscapeMode::Plain) }
    else { None }
}

/// Parses an escape mode name that is already lower case.
pub fn escape_mode_from_lowercase(n: &str) -> (r: Option<EscapeMode>)
    ensures
        r == escape_mode_from_name(n@),
{
    let v = chars_of(n);
    let v = v.as_slice();
    if chars_eq_str(v, "html") { Some(EscapeMode::Html) }
    else if chars_eq_str(v, "xml") { Some(EscapeMode::Xml) }
    else if chars_eq_str(v, "json") { Some(EscapeMode::Json) }
    else if chars_eq_str(v, "crlf") { Some(EscapeMode::Crlf) }
    else if chars_eq_str(v, "none") || v.len() == 0 { Some(EscapeMode::Plain) }
    else { None }
}

/// A mode name lowered: ASCII letters lowered where the name is ASCII,
/// else its Unicode lower case.
pub open spec fn lowered_name(s: Seq<char>) -> Seq<char> {
    if all_ascii(s) { ascii_lower(s) } else { lowercase(s) }
}

/// Parses an escape mode name, ignoring case.
pub fn parse_escape_mode(s: &str) -> (r: Option<EscapeMode>)
    ensures
        r == escape_mode_from_name(lowercase(s@)),
        r == escape_mode_from_name(lowered_name(s@)),
{
    let lower = str_to_lowercase(s);
    escape_mode_from_lowercase(lower.as_str())
}

/// `%d{...}` or `%d` followed by one more character.
pub open spec fn kw_dated(c: Seq<char>, p: int) -> KwOut<Keyword> {
    if p < c.len() && c[p] == '{' && braced(c, p, p) is Some {
        KwOut::Found(Keyword::Date, Some(braced(c, p, p).unwrap().0), braced(c, p, p).unwrap().1, false)
    } else {
        KwOut::Found(Keyword::Date, None, 1, false)
    }
}

/// `%maxLen`, `%message`, `%msg`, `%method`, `%m`
pub open spec fn kw_m4(f: char, c: Seq<char>, p: int) -> KwOut<Keyword> {
    let n = c.len();
    if p + 6 <= n && occurs_at(c, p, "axLen"@) && (c[p + 5] == '(' || c[p + 5] == '{') {
        KwOut::Found(Keyword::MaxLen(0), None, 6, true)
    } else if occurs_at(c, p, "essage"@) {
        KwOut::Found(Keyword::Message, None, 7, false)
    } else if occurs_at(c, p, "sg"@) {
        KwOut::Found(Keyword::Message, None, 3, false)
    } else if f == 'M' {
        if occurs_at(c, p, "ethod"@) {
            KwOut::Found(Keyword::Method, None, 6, false)
        } else {
            KwOut::Found(Keyword::Method, None, 1, false)
        }
    } else {
        KwOut::Found(Keyword::Message, None, 1, false)
    }
}

/// `%enc(` / `%enc{` and `%ex{..}` / `%ex`
pub open spec fn kw_e4(c: Seq<char>, p: int) -> KwOut<Keyword> {
    let n = c.len();
    if occurs_at(c, p, "nc"@) && p + 2 == n {
        KwOut::Panic
    } else if occurs_at(c, p, "nc"@) && (c[p + 2] == '(' || c[p + 2] == '{') {
        KwOut::Found(Keyword::Enc(EscapeMode::Plain), None, 3, true)
    } else if p < n && c[p] == 'x' {
        if p + 1 < n && c[p + 1] == '{' && braced(c, p + 1, p) is Some {
            KwOut::Found(Keyword::Throwable, Some(braced(c, p + 1, p).unwrap().0), braced(c, p + 1, p).unwrap().1, false)
        } else {
            KwOut::Found(Keyword::Throwable, None, 2, false)
        }
    } else {
        KwOut::Unknown("unknown placeholder '%e'"@, p as nat)
    }
}

/// `%xEx{..}` / `%x`
pub open spec fn kw_x4(c: Seq<char>, p: int) -> KwOut<Keyword> {
    let n = c.len();
    if occurs_at(c, p, "Ex"@) {
        if p + 2 < n && c[p + 2] == '{' && braced(c, p + 2, p) is Some {
            KwOut::Found(Keyword::RootException, Some(braced(c, p + 2, p).unwrap().0), braced(c, p + 2, p).unwrap().1, false)
        } else {
            KwOut::Found(Keyword::RootException, None, 3, false)
        }
    } else {
        KwOut::Found(Keyword::Ndc, None, 0, false)
    }
}

/// `%K{..}`, `%X{..}`: an MDC key in braces, else `%K`/`%X` alone.
pub open spec fn kw_mdc4(c: Seq<char>, p: int, len: nat) -> KwOut<Keyword> {
    if p < c.len() && c[p] == '{' && braced(c, p, p) is Some {
        KwOut::Found(Keyword::Mdc, Some(braced(c, p, p).unwrap().0), braced(c, p, p).unwrap().1, false)
    } else {
        KwOut::Found(Keyword::Mdc, None, len, false)
    }
}

/// `%class`, `%c{..}`, `%c`
pub open spec fn kw_c4(c: Seq<char>, p: int) -> KwOut<Keyword> {
    if occurs_at(c, p, "lass"@) {
        KwOut::Found(Keyword::Class, None, 5, false)
    } else if p < c.len() && c[p] == '{' && braced(c, p, p) is Some {
        KwOut::Found(Keyword::Logger, Some(braced(c, p, p).unwrap().0), braced(c, p, p).unwrap().1, false)
    } else {
        KwOut::Found(Keyword::Logger, None, 1, false)
    }
}

/// Keyword recognition of the log4j lexer.
pub open spec fn keyword4_spec(f: char, c: Seq<char>, p: int) -> KwOut<Keyword> {
    let n = c.len();
    let sp = if p >= 1 { p - 1 } else { 0 };
    if color_word_spec(c, sp) is Some {
        KwOut::Found(Keyword::ColorWord(color_word_spec(c, sp).unwrap().0), None, color_word_spec(c, sp).unwrap().1, true)
    } else if f == 'd' {
        kw_dated(c, p)
    } else if f == 'D' {
        KwOut::Found(Keyword::Date, None, 1, false)
    } else if f == 'p' || f == 'P' {
        if p + 4 <= n && occurs_at(c, p, "id("@) {
            KwOut::Found(Keyword::Pid, None, 3, false)
        } else {
            KwOut::Found(Keyword::Level, None, 1, false)
        }
    } else if f == 't' || f == 'T' {
        if occurs_at(c, p, "hread"@) { KwOut::Found(Keyword::Thread, None, 5, false) } else { KwOut::Found(Keyword::Thread, None, 1, false) }
    } else if f == 'c' {
        kw_c4(c, p)
    } else if f == 'C' {
        if occurs_at(c, p, "lass"@) { KwOut::Found(Keyword::Class, None, 5, false) } else { KwOut::Found(Keyword::Class, None, 1, false) }
    } else if f == 'm' || f == 'M' {
        kw_m4(f, c, p)
    } else if f == 'L' {
        KwOut::Found(Keyword::Line, None, 1, false)
    } else if f == 'F' {
        KwOut::Found(Keyword::File, None, 1, false)
    } else if f == 'X' {
        kw_mdc4(c, p, 0)
    } else if f == 'x' {
        kw_x4(c, p)
    } else if f == 'E' {
        if occurs_at(c, p, "NC"@) && p + 2 == n {
            KwOut::Panic
        } else if occurs_at(c, p, "NC("@) {
            KwOut::Found(Keyword::Enc(EscapeMode::Plain), None, 3, true)
        } else {
            KwOut::Unknown("unknown placeholder '%E'"@, p as nat)
        }
    } else if f == 'e' {
        kw_e4(c, p)
    } else if f == 'n' {
        if occurs_at(c, p, "opex"@) { KwOut::Found(Keyword::NopException, None, 5, false) } else { KwOut::Found(Keyword::Ndc, None, 1, false) }
    } else if f == 'h' {
        if occurs_at(c, p, "ighlight"@) && p + 9 <= n && (c[p + 8] == '(' || c[p + 8] == '{') {
            KwOut::Found(Keyword::Highlight, None, 9, true)
        } else {
            KwOut::Unknown("unknown placeholder '%h'"@, p as nat)
        }
    } else if f == 'r' {
        if occurs_at(c, p, "Ex"@) {
            KwOut::Found(Keyword::RootException, None, 3, false)
        } else {
            KwOut::Unknown("unsupported placeholder '%r'"@, p as nat)
        }
    } else if f == 'K' {
        kw_mdc4(c, p, 1)
    } else if f == 'R' {
        KwOut::Found(Keyword::RootException, None, 1, false)
    } else {
        KwOut::Unknown("unknown placeholder '%"@ + seq![f] + "'"@, p as nat)
    }
}

/// `(k, opt, len, composite)` of the exec keyword recogniser.
pub type KwTuple = (Keyword, Option<Vec<char>>, usize, bool);

fn found(k: Keyword, len: usize) -> (r: Result<KwTuple, LexError>)
    requires
        len <= 13,
    ensures
        r == Ok::<KwTuple, LexError>((k, None, len, false)),
{
    Ok((k, None, len, false))
}

fn found_braced(k: Keyword, c: &[char], b: usize, from: usize, len: usize) -> (r: Result<KwTuple, LexError>)
    requires
        from <= b < c@.len() <= isize::MAX,
        len <= 13,
    ensures
        r matches Ok((kk, o, l, comp)) && kk == k && !comp && l <= c@.len() - from + 13 && (match braced(c@, b as int, from as int) {
            Some((v, bl)) => opt_view(o) == Some(v) && l == bl,
            None => o is None && l == len,
        }),
{
    match braced_exec(c, b, from) {
        Some((v, l)) => Ok((k, Some(v), l, false)),
        None => Ok((k, None, len, false)),
    }
}

fn kw_dated_exec(c: &[char], p: usize) -> (r: Result<KwTuple, LexError>)
    requires
        p <= c@.len() <= isize::MAX,
    ensures
        r matches Ok((k, o, l, comp)) ==> l <= c@.len() - p + 13,
        kw_matches(r, kw_dated(c@, p as int)),
{
    if p < c.len() && c[p] == '{' {
        return found_braced(Keyword::Date, c, p, p, 1);
    }
    found(Keyword::Date, 1)
}

fn kw_m4_exec(f: char, c: &[char], p: usize) -> (r: Result<KwTuple, LexError>)
    requires
        p <= c@.len() <= isize::MAX,
    ensures
        r matches Ok((k, o, l, comp)) ==> l <= c@.len() - p + 13,
        kw_matches(r, kw_m4(f, c@, p as int)),
{
    let n = c.len();
    if p + 6 <= n && matches_at(c, p, "axLen") && (c[p + 5] == '(' || c[p + 5] == '{') {
        Ok((Keyword::MaxLen(0), None, 6, true))
    } else if matches_at(c, p, "essage") {
        found(Keyword::Message, 7)
    } else if matches_at(c, p, "sg") {
        found(Keyword::Message, 3)
    } else if f == 'M' {
        if matches_at(c, p, "ethod") {
            found(Keyword::Method, 6)
        } else {
            found(Keyword::Method, 1)
        }
    } else {
        found(Keyword::Message, 1)
    }
}

fn kw_e4_exec(c: &[char], p: usize) -> (r: Result<KwTuple, LexError>)
    requires
        p <= c@.len() <= isize::MAX,
    ensures
        r matches Ok((k, o, l, comp)) ==> l <= c@.len() - p + 13,
        kw_matches(r, kw_e4(c@, p as int)),
{
    proof {
        reveal_strlit("nc");
    }
    let n = c.len();
    if matches_at(c, p, "nc") && p + 2 == n {
        return Err(LexError::OutOfRange);
    }
    if matches_at(c, p, "nc") && (c[p + 2] == '(' || c[p + 2] == '{') {
        Ok((Keyword::Enc(EscapeMode::Plain), None, 3, true))
    } else if p < n && c[p] == 'x' {
        if p + 1 < n && c[p + 1] == '{' {
            found_braced(Keyword::Throwable, c, p + 1, p, 2)
        } else {
            found(Keyword::Throwable, 2)
        }
    } else {
        Err(LexError::Config(unknown("unknown placeholder '%e'", p)))
    }
}

fn kw_x4_exec(c: &[char], p: usize) -> (r: Result<KwTuple, LexError>)
    requires
        p <= c@.len() <= isize::MAX,
    ensures
        r matches Ok((k, o, l, comp)) ==> l <= c@.len() - p + 13,
        kw_matches(r, kw_x4(c@, p as int)),
{
    let n = c.len();
    if matches_at(c, p, "Ex") {
        if p + 2 < n && c[p + 2] == '{' {
            return found_braced(Keyword::RootException, c, p + 2, p, 3);
        }
        found(Keyword::RootException, 3)
    } else {
        found(Keyword::Ndc, 0)
    }
}

fn kw_mdc4_exec(c: &[char], p: usize, len: usize) -> (r: Result<KwTuple, LexError>)
    requires
        p <= c@.len() <= isize::MAX,
        len <= 1,
    ensures
        r matches Ok((k, o, l, comp)) ==> l <= c@.len() - p + 13,
        kw_matches(r, kw_mdc4(c@, p as int, len as nat)),
{
    if p < c.len() && c[p] == '{' {
        return found_braced(Keyword::Mdc, c, p, p, len);
    }
    found(Keyword::Mdc, len)
}

fn kw_c4_exec(c: &[char], p: usize) -> (r: Result<KwTuple, LexError>)
    requires
        p <= c@.len() <= isize::MAX,
    ensures
        r matches Ok((k, o, l, comp)) ==> l <= c@.len() - p + 13,
        kw_matches(r, kw_c4(c@, p as int)),
{
    if matches_at(c, p, "lass") {
        found(Keyword::Class, 5)
    } else if p < c.len() && c[p] == '{' {
        found_braced(Keyword::Logger, c, p, p, 1)
    } else {
        found(Keyword::Logger, 1)
    }
}

/// Recognises the log4j keyword whose first letter is `first_char`; `pos`
/// is the position just after that letter.
#[verifier::spinoff_prover]
#[verifier::rlimit(40)]
pub fn parse_keyword(first_char: char, c: &[char], pos: usize) -> (r: Result<KwTuple, LexError>)
    requires
        1 <= pos <= c@.len() <= isize::MAX,
    ensures
        r matches Ok((k, o, l, comp)) ==> l <= c@.len() - pos + 13,
        kw_matches(r, keyword4_spec(first_char, c@, pos as int)),
{
    proof {
        reveal_strlit("NC");
    }
    let n = c.len();
    let p = pos;
    let f = first_char;
    if let Some((col, len)) = try_parse_color_word(c, p - 1) {
        return Ok((Keyword::ColorWord(col), None, len, true));
    }
    if f == 'd' {
        kw_dated_exec(c, p)
    } else if f == 'D' {
        found(Keyword::Date, 1)
    } else if f == 'p' || f == 'P' {
        if p + 4 <= n && matches_at(c, p, "id(") {
            found(Keyword::Pid, 3)
        } else {
            found(Keyword::Level, 1)
        }
    } else if f == 't' || f == 'T' {
        if matches_at(c, p, "hread") { found(Keyword::Thread, 5) } else { found(Keyword::Thread, 1) }
    } else if f == 'c' {
        kw_c4_exec(c, p)
    } else if f == 'C' {
        if matches_at(c, p, "lass") { found(Keyword::Class, 5) } else { found(Keyword::Class, 1) }
    } else if f == 'm' || f == 'M' {
        kw_m4_exec(f, c, p)
    } else if f == 'L' {
        found(Keyword::Line, 1)
    } else if f == 'F' {
        found(Keyword::File, 1)
    } else if f == 'X' {
        kw_mdc4_exec(c, p, 0)
    } else if f == 'x' {
        kw_x4_exec(c, p)
    } else if f == 'E' {
        if matches_at(c, p, "NC") && p + 2 == n {
            Err(LexError::OutOfRange)
        } else if matches_at(c, p, "NC(") {
            Ok((Keyword::Enc(EscapeMode::Plain), None, 3, true))
        } else {
            Err(LexError::Config(unknown("unknown placeholder '%E'", p)))
        }
    } else if f == 'e' {
        kw_e4_exec(c, p)
    } else if f == 'n' {
        if matches_at(c, p, "opex") { found(Keyword::NopException, 5) } else { found(Keyword::Ndc, 1) }
    } else if f == 'h' {
        proof {
            reveal_strlit("ighlight");
        }
        if matches_at(c, p, "ighlight") && p + 9 <= n && (c[p + 8] == '(' || c[p + 8] == '{') {
            Ok((Keyword::Highlight, None, 9, true))
        } else {
            Err(LexError::Config(unknown("unknown placeholder '%h'", p)))
        }
    } else if f == 'r' {
        if matches_at(c, p, "Ex") {
            found(Keyword::RootException, 3)
        } else {
            Err(LexError::Config(unknown("unsupported placeholder '%r'", p)))
        }
    } else if f == 'K' {
        kw_mdc4_exec(c, p, 1)
    } else if f == 'R' {
        found(Keyword::RootException, 1)
    } else {
        let mut m: Vec<char> = Vec::new();
        push_str(&mut m, "unknown placeholder '%");
        m.push(f);
        push_str(&mut m, "'");
        proof {
            assert(m@ =~= "unknown placeholder '%"@ + seq![f] + "'"@);
        }
        Err(LexError::Config(ConfigError::PatternParse { message: string_of(m.as_slice()), position: p }))
    }
}

// ---------------------------------------------------------------------------
// The scanner.

/// The keyword after absorbing its post-option (`%enc` mode, `%maxLen` limit).
pub open spec fn adjust_keyword(k: Keyword, opt: Option<Seq<char>>) -> Keyword {
    match k {
        Keyword::Enc(_) => Keyword::Enc(match opt {
            Some(o) => match escape_mode_from_name(lowered_name(o)) {
                Some(m) => m,
                None => EscapeMode::Plain,
            },
            None => EscapeMode::Plain,
        }),
        Keyword::MaxLen(_) => Keyword::MaxLen(match opt {
            Some(o) => match parse_usize_spec(o) {
                Some(v) => v,
                None => 0,
            },
            None => 0,
        }),
        _ => k,
    }
}

/// Delimiters of a sub-pattern opened by `open`.
pub open spec fn closer(open: char) -> char {
    if open == '(' { ')' } else { '}' }
}

/// The conversion word whose first letter is at `i3 - 1`, with modifier `m`.
pub open spec fn conv4_spec(c: Seq<char>, m: Option<FormatModifier>, i3: int) -> Step<SToken>
    decreases c.len(), c.len() - i3, 0int,
{
    let n = c.len();
    if i3 < 1 || i3 > n {
        Step::Panic
    } else {
        match keyword4_spec(c[i3 - 1], c, i3) {
            KwOut::Unknown(msg, pos) => Step::Fail(msg, pos),
            KwOut::Panic => Step::Panic,
            KwOut::Found(k, opt, kl, comp) => {
                let i4 = i3 + kl;
                let has_sub = comp && 0 < i4 <= n && (c[i4 - 1] == '(' || c[i4 - 1] == '{');
                let open = if has_sub { c[i4 - 1] } else { '(' };
                let cs = close_scan(c, i4, 1, open, closer(open));
                let sub_ok = has_sub && cs.1 == 0 && i4 < cs.0 <= n;
                let sub_res = if sub_ok { scan4_from(c.subrange(i4, cs.0 - 1), 0) } else { SScan::Tokens(Seq::<SToken>::empty()) };
                if sub_ok && sub_res is Panic {
                    Step::Panic
                } else {
                    let sub = if sub_ok {
                        match sub_res {
                            SScan::Tokens(t) => Some(t),
                            _ => None,
                        }
                    } else {
                        None
                    };
                    let i5 = if sub_ok { cs.0 } else { i4 };
                    let po = post_option(c, i5, opt);
                    Step::Emit(SToken::Conversion { modifier: m, keyword: adjust_keyword(k, po.0), option: po.0, sub_pattern: sub }, po.1)
                }
            },
        }
    }
}

/// One step of the log4j scanner at position `i`.
pub open spec fn step4_spec(c: Seq<char>, i: int) -> Step<SToken>
    decreases c.len(), c.len() - i, 1int,
{
    let n = c.len();
    if i < 0 || i >= n {
        Step::Panic
    } else if c[i] != '%' {
        Step::Emit(SToken::Literal(c.subrange(i, literal_end(c, i))), literal_end(c, i))
    } else if i + 1 >= n {
        Step::Last(SToken::Literal("%"@))
    } else {
        let m = modifier_spec(c, i + 1);
        let i2 = i + 1 + m.1;
        if i2 >= n {
            Step::Last(SToken::Literal("%"@))
        } else {
            let sc = c[i2];
            let i3 = i2 + 1;
            if sc == '%' {
                Step::Emit(SToken::Percent, i3)
            } else if sc == 'n' {
                Step::Emit(SToken::Newline, i3)
            } else {
                conv4_spec(c, m.0, i3)
            }
        }
    }
}

/// Scanning of the log4j pattern `c` from position `i`.
pub open spec fn scan4_from(c: Seq<char>, i: int) -> SScan<SToken>
    decreases c.len(), c.len() - i, 2int,
{
    let n = c.len();
    if i < 0 || i >= n {
        SScan::Tokens(Seq::<SToken>::empty())
    } else {
        match step4_spec(c, i) {
            Step::Emit(t, j) => if j <= i {
                SScan::Tokens(Seq::<SToken>::empty())
            } else if j >= n {
                SScan::Tokens(seq![t])
            } else {
                cons(t, scan4_from(c, j))
            },
            Step::Last(t) => SScan::Tokens(seq![t]),
            Step::Fail(m, p) => SScan::Fail(m, p),
            Step::Panic => SScan::Panic,
        }
    }
}

/// What `scan` gives for the log4j pattern `p`.
pub open spec fn scan4_spec(p: Seq<char>) -> SScan<SToken> {
    scan4_from(p, 0)
}

pub proof fn lemma_step4_advances(c: Seq<char>, i: int)
    requires
        0 <= i < c.len(),
    ensures
        step4_spec(c, i) matches Step::Emit(t, j) ==> j > i,
{
    let n = c.len();
    if c[i] != '%' {
        lemma_find_from(c, i, '%');
    } else if i + 1 < n {
        let m = modifier_spec(c, i + 1);
        let i2 = i + 1 + m.1;
        if i2 < n {
            let i3 = i2 + 1;
            if !(c[i2] == '%') && !(c[i2] == 'n') {
                match keyword4_spec(c[i3 - 1], c, i3) {
                    KwOut::Found(k, opt, kl, comp) => {
                        let i4 = i3 + kl;
                        let has_sub = comp && 0 < i4 <= n && (c[i4 - 1] == '(' || c[i4 - 1] == '{');
                        let open = if has_sub { c[i4 - 1] } else { '(' };
                        let cs = close_scan(c, i4, 1, open, closer(open));
                        let sub_ok = has_sub && cs.1 == 0 && i4 < cs.0 <= n;
                        let i5 = if sub_ok { cs.0 } else { i4 };
                        lemma_post_option(c, i5, opt);
                    },
                    _ => {},
                }
            }
        }
    }
}

/// The exec result of a scan agrees with its model.
/// The position of a parse error is the byte offset, in the UTF-8 encoding
/// of the pattern `p`, of the character at which the error was found.
pub open spec fn scan4_matches(p: Seq<char>, r: Result<Vec<Token>, ConfigError>, s: SScan<SToken>) -> bool {
    match r {
        Ok(v) => s == SScan::Tokens(toks_view(v@)),
        Err(e) => match e {
            ConfigError::PatternParse { message, position } => s matches SScan::Fail(m, q) && message@ == m
                && position == byte_offset(p, q as int),
            _ => false,
        },
    }
}

/// The exec result of a step agrees with its model.
pub open spec fn step4_matches(r: Result<(Token, usize, bool), LexError>, s: Step<SToken>) -> bool {
    match r {
        Ok((t, j, last)) => if last { s == Step::Last(tok_view(t)) } else { s == Step::Emit(tok_view(t), j as int) },
        Err(e) => step_error_matches(e, s),
    }
}

/// The exec result of the internal scan agrees with its model.
pub open spec fn lex_matches(r: Result<Vec<Token>, LexError>, s: SScan<SToken>) -> bool {
    match r {
        Ok(v) => s == SScan::Tokens(toks_view(v@)),
        Err(e) => scan_error_matches(e, s),
    }
}

/// Exec counterpart of `adjust_keyword`.
fn adjust_keyword_exec(k: Keyword, opt: &Option<Vec<char>>) -> (r: Keyword)
    ensures
        r == adjust_keyword(k, opt_view(*opt)),
{
    match k {
        Keyword::Enc(_) => {
            let mode = match opt {
                Some(o) => {
                    let s = string_of(o.as_slice());
                    match parse_escape_mode(s.as_str()) {
                        Some(m) => m,
                        None => EscapeMode::Plain,
                    }
                },
                None => EscapeMode::Plain,
            };
            Keyword::Enc(mode)
        },
        Keyword::MaxLen(_) => {
            let v = match opt {
                Some(o) => match parse_usize(o.as_slice()) {
                    Some(v) => v,
                    None => 0,
                },
                None => 0,
            };
            Keyword::MaxLen(v)
        },
        _ => k,
    }
}

/// The conversion word whose first letter is at `i3 - 1`.
#[verifier::spinoff_prover]
#[verifier::rlimit(40)]
fn conv4_exec(c: &[char], m: Option<FormatModifier>, i3: usize) -> (r: Result<(Token, usize, bool), LexError>)
    requires
        1 <= i3 <= c@.len() <= isize::MAX,
    ensures
        step4_matches(r, conv4_spec(c@, m, i3 as int)),
        r matches Ok((t, j, last)) ==> !last,
    decreases c@.len(), 0int,
{
    let n = c.len();
    let kw = parse_keyword(c[i3 - 1], c, i3);
    let (keyword, option, kw_len, is_composite) = match kw {
        Ok(t) => t,
        Err(e) => {
            return Err(e);
        },
    };
    let mut i: usize = i3 + kw_len;
    let mut sub_pattern: Option<Vec<Token>> = None;
    if is_composite && i > 0 && i <= n && (c[i - 1] == '(' || c[i - 1] == '{') {
        let open = c[i - 1];
        let close = if open == '(' { ')' } else { '}' };
        let (end, depth) = close_scan_exec(c, i, open, close);
        if depth == 0 && end > i && end <= n {
            let sub = slice_chars(c, i, end - 1);
            let sr = scan4_chars(sub.as_slice());
            sub_pattern = match sr {
                Ok(v) => Some(v),
                Err(LexError::OutOfRange) => {
                    return Err(LexError::OutOfRange);
                },
                Err(_) => None,
            };
            i = end;
        }
    }
    let mut option: Option<Vec<char>> = option;
    if i < n && c[i] == '{' {
        if let Some(f) = find_exec(c, i, '}') {
            option = Some(slice_chars(c, i + 1, f));
            i = f + 1;
        }
    }
    let keyword = adjust_keyword_exec(keyword, &option);
    let opt_s: Option<String> = match option {
        Some(v) => Some(string_of(v.as_slice())),
        None => None,
    };
    let tok = Token::Conversion { modifier: m, keyword, option: opt_s, sub_pattern };
    Ok((tok, i, false))
}

/// One step of the log4j scanner at position `i`.
#[verifier::spinoff_prover]
#[verifier::rlimit(40)]
fn step4_exec(c: &[char], i: usize) -> (r: Result<(Token, usize, bool), LexError>)
    requires
        i < c@.len() <= isize::MAX,
    ensures
        step4_matches(r, step4_spec(c@, i as int)),
    decreases c@.len(), 1int,
{
    let n = c.len();
    if c[i] != '%' {
        let j = match find_exec(c, i, '%') {
            Some(j) => j,
            None => n,
        };
        let lit = slice_chars(c, i, j);
        return Ok((Token::Literal(string_of(lit.as_slice())), j, false));
    }
    if i + 1 >= n {
        return Ok((Token::Literal(String::from_str("%")), i + 1, true));
    }
    let (align, align_len) = parse_modifier(c, i + 1);
    let i2 = i + 1 + align_len;
    if i2 >= n {
        return Ok((Token::Literal(String::from_str("%")), i2, true));
    }
    let spec_char = c[i2];
    let i3 = i2 + 1;
    if spec_char == '%' {
        return Ok((Token::Percent, i3, false));
    }
    if spec_char == 'n' {
        return Ok((Token::Newline, i3, false));
    }
    conv4_exec(c, align, i3)
}

/// Scans the characters of a log4j pattern into tokens.
#[verifier::spinoff_prover]
#[verifier::rlimit(40)]
pub fn scan4_chars(c: &[char]) -> (r: Result<Vec<Token>, LexError>)
    requires
        c@.len() <= isize::MAX,
    ensures
        lex_matches(r, scan4_from(c@, 0)),
    decreases c@.len(), 2int,
{
    let n = c.len();
    let mut tokens: Vec<Token> = Vec::new();
    let mut i: usize = 0;
    proof {
        assert(toks_view(tokens@) =~= Seq::<SToken>::empty());
        assert(prepend(Seq::<SToken>::empty(), scan4_from(c@, 0)) == scan4_from(c@, 0));
    }
    while i < n
        invariant
            n == c@.len(),
            n <= isize::MAX,
            i <= n,
            scan4_from(c@, 0) == prepend(toks_view(tokens@), scan4_from(c@, i as int)),
        decreases n - i,
    {
        let ghost before = tokens@;
        match step4_exec(c, i) {
            Ok((t, j, last)) => {
                tokens.push(t);
                proof {
                    lemma_toks_view_push(before, tokens@.last());
                    assert(tokens@ == before.push(tokens@.last()));
                    lemma_step4_advances(c@, i as int);
                    lemma_prepend_cons(toks_view(before), tok_view(t), scan4_from(c@, j as int));
                }
                if last || j >= n {
                    proof {
                        assert(scan4_from(c@, i as int) == SScan::Tokens(seq![tok_view(t)]));
                    }
                    return Ok(tokens);
                }
                proof {
                    assert(scan4_from(c@, i as int) == cons(tok_view(t), scan4_from(c@, j as int)));
                }
                i = j;
            },
            Err(e) => {
                return Err(e);
            },
        }
    }
    proof {
        assert(toks_view(tokens@) + Seq::<SToken>::empty() =~= toks_view(tokens@));
    }
    Ok(tokens)
}

/// Parses a log4j pattern string into tokens.
pub fn scan(pattern: &str) -> (r: Result<Vec<Token>, ConfigError>)
    requires
        !(scan4_spec(pattern@) is Panic),
        utf8_len(pattern@) <= isize::MAX,
    ensures
        scan4_matches(pattern@, r, scan4_spec(pattern@)),
{
    match scan_checked(pattern) {
        Some(r) => r,
        None => Err(ConfigError::NoConfig),
    }
}

/// Scans a log4j pattern; `None` exactly where the pattern makes the lexer
/// read past its end, a pattern that `scan` does not accept.
pub fn scan_checked(pattern: &str) -> (r: Option<Result<Vec<Token>, ConfigError>>)
    requires
        utf8_len(pattern@) <= isize::MAX,
    ensures
        r is None <==> scan4_spec(pattern@) is Panic,
        r matches Some(x) ==> scan4_matches(pattern@, x, scan4_spec(pattern@)),
{
    let c = chars_of(pattern);
    proof {
        lemma_utf8_len_ge_len(c@);
    }
    match scan4_chars(c.as_slice()) {
        Ok(v) => Some(Ok(v)),
        Err(LexError::Config(ConfigError::PatternParse { message, position })) => {
            let at = byte_offset_of(c.as_slice(), position);
            Some(Err(ConfigError::PatternParse { message, position: at }))
        },
        Err(LexError::Config(e)) => Some(Err(e)),
        Err(LexError::OutOfRange) => None,
    }
}

/// A pattern without `%` scans to one literal token holding all of it (to
/// no token where it is empty).
pub proof fn law_plain_text_is_one_literal(p: Seq<char>)
    requires
        forall|i: int| 0 <= i < p.len() ==> p[i] != '%',
    ensures
        scan4_spec(p) == (if p.len() == 0 {
            SScan::<SToken>::Tokens(Seq::<SToken>::empty())
        } else {
            SScan::<SToken>::Tokens(seq![SToken::Literal(p)])
        }),
{
    if p.len() > 0 {
        lemma_find_from(p, 0, '%');
        let f = find_from(p, 0, '%');
        if f != -1 {
            assert(p[f] != '%');
        }
        assert(literal_end(p, 0) == p.len());
        assert(p.subrange(0, p.len() as int) =~= p);
        assert(step4_spec(p, 0) == Step::Emit(SToken::Literal(p), p.len() as int));
        assert(scan4_from(p, 0) == SScan::<SToken>::Tokens(seq![SToken::Literal(p)]));
    }
}

/// `%thread`, followed by anything, is the thread word consuming exactly
/// `hread`: the text after it is left whole.
pub proof fn law_thread_word(r: Seq<char>)
    ensures
        keyword4_spec('t', word_then("thread"@, r), 2) == KwOut::Found(Keyword::Thread, None::<Seq<char>>, 5, false),
{
    reveal_strlit("thread");
    reveal_strlit("hread");
    let c = word_then("thread"@, r);
    lemma_word_then("thread"@, r);
    lemma_no_colour_word(c, 1);
    lemma_at(c, 2, "hread"@);
}

/// The pattern `%thread` scans to the one thread conversion, with no
/// modifier and no option.
pub proof fn law_thread_pattern()
    ensures
        scan4_spec(word_then("thread"@, Seq::<char>::empty())) == SScan::Tokens(
            seq![SToken::Conversion { modifier: None, keyword: Keyword::Thread, option: None, sub_pattern: None }],
        ),
{
    reveal_strlit("thread");
    let e = Seq::<char>::empty();
    let c = word_then("thread"@, e);
    lemma_word_then("thread"@, e);
    law_thread_word(e);
    assert(c[1] == 't');
    assert(modifier_spec(c, 1) == (None::<FormatModifier>, 0nat));
    let t = SToken::Conversion { modifier: None, keyword: Keyword::Thread, option: None, sub_pattern: None };
    assert(post_option(c, 7, None) == (None::<Seq<char>>, 7int));
    assert(conv4_spec(c, None, 2) == Step::Emit(t, 7));
    assert(step4_spec(c, 0) == Step::Emit(t, 7));
}

/// `%enc{..}{name}` escapes as the name says, in any ASCII case: `html`,
/// `xml`, `json` and `crlf` each select their own mode, and every other
/// name (`none`, nothing, or an unknown one) selects no escaping.
pub proof fn law_enc_mode_names(o: Seq<char>)
    requires
        all_ascii(o),
    ensures
        (adjust_keyword(Keyword::Enc(EscapeMode::Plain), Some(o)) == Keyword::Enc(EscapeMode::Html)) <==> ascii_lower(o) == "html"@,
        (adjust_keyword(Keyword::Enc(EscapeMode::Plain), Some(o)) == Keyword::Enc(EscapeMode::Xml)) <==> ascii_lower(o) == "xml"@,
        (adjust_keyword(Keyword::Enc(EscapeMode::Plain), Some(o)) == Keyword::Enc(EscapeMode::Json)) <==> ascii_lower(o) == "json"@,
        (adjust_keyword(Keyword::Enc(EscapeMode::Plain), Some(o)) == Keyword::Enc(EscapeMode::Crlf)) <==> ascii_lower(o) == "crlf"@,
        (adjust_keyword(Keyword::Enc(EscapeMode::Plain), Some(o)) == Keyword::Enc(EscapeMode::Plain))
            <==> !(ascii_lower(o) == "html"@ || ascii_lower(o) == "xml"@ || ascii_lower(o) == "json"@ || ascii_lower(o) == "crlf"@),
{
    reveal_strlit("html");
    reveal_strlit("xml");
    reveal_strlit("json");
    reveal_strlit("crlf");
    reveal_strlit("none");
    assert("html"@ != "xml"@ && "html"@ != "json"@ && "html"@ != "crlf"@ && "xml"@ != "json"@ && "xml"@ != "crlf"@ && "json"@ != "crlf"@) by {
        assert("html"@.len() != "xml"@.len());
        assert("html"@[0] != "json"@[0]);
        assert("html"@[0] != "crlf"@[0]);
        assert("xml"@.len() != "json"@.len());
        assert("xml"@.len() != "crlf"@.len());
        assert("json"@[0] != "crlf"@[0]);
    }
}

proof fn lemma_word4_p()
    ensures
        keyword4_spec('p', word_then("p"@, Seq::<char>::empty()), 2) == KwOut::Found(Keyword::Level, None::<Seq<char>>, 1, false),
{
    let c = word_then("p"@, Seq::<char>::empty());
    reveal_strlit("id(");
    reveal_strlit("p");
    lemma_word_then("p"@, Seq::<char>::empty());
    lemma_no_colour_word(c, 1);
    lemma_not_at(c, 2, "id("@, 0);
}

proof fn lemma_word4_t()
    ensures
        keyword4_spec('t', word_then("t"@, Seq::<char>::empty()), 2) == KwOut::Found(Keyword::Thread, None::<Seq<char>>, 1, false),
{
    let c = word_then("t"@, Seq::<char>::empty());
    reveal_strlit("hread");
    reveal_strlit("t");
    lemma_word_then("t"@, Seq::<char>::empty());
    lemma_no_colour_word(c, 1);
    lemma_not_at(c, 2, "hread"@, 0);
}

proof fn lemma_word4_m()
    ensures
        keyword4_spec('m', word_then("m"@, Seq::<char>::empty()), 2) == KwOut::Found(Keyword::Message, None::<Seq<char>>, 1, false),
{
    let c = word_then("m"@, Seq::<char>::empty());
    reveal_strlit("axLen");
    reveal_strlit("essage");
    reveal_strlit("m");
    reveal_strlit("sg");
    lemma_word_then("m"@, Seq::<char>::empty());
    lemma_no_colour_word(c, 1);
    lemma_not_at(c, 2, "axLen"@, 0);
    lemma_not_at(c, 2, "essage"@, 0);
    lemma_not_at(c, 2, "sg"@, 0);
}

proof fn lemma_word4_msg()
    ensures
        keyword4_spec('m', word_then("msg"@, Seq::<char>::empty()), 2) == KwOut::Found(Keyword::Message, None::<Seq<char>>, 3, false),
{
    let c = word_then("msg"@, Seq::<char>::empty());
    reveal_strlit("axLen");
    reveal_strlit("essage");
    reveal_strlit("msg");
    reveal_strlit("sg");
    lemma_word_then("msg"@, Seq::<char>::empty());
    lemma_no_colour_word(c, 1);
    lemma_not_at(c, 2, "axLen"@, 0);
    lemma_not_at(c, 2, "essage"@, 0);
    lemma_at(c, 2, "sg"@);
}

proof fn lemma_word4_message()
    ensures
        keyword4_spec('m', word_then("message"@, Seq::<char>::empty()), 2) == KwOut::Found(Keyword::Message, None::<Seq<char>>, 7, false),
{
    let c = word_then("message"@, Seq::<char>::empty());
    reveal_strlit("axLen");
    reveal_strlit("essage");
    reveal_strlit("message");
    reveal_strlit("sg");
    lemma_word_then("message"@, Seq::<char>::empty());
    lemma_no_colour_word(c, 1);
    lemma_not_at(c, 2, "axLen"@, 0);
    lemma_at(c, 2, "essage"@);
    lemma_not_at(c, 2, "sg"@, 0);
}

proof fn lemma_word4_c()
    ensures
        keyword4_spec('c', word_then("c"@, Seq::<char>::empty()), 2) == KwOut::Found(Keyword::Logger, None::<Seq<char>>, 1, false),
{
    let c = word_then("c"@, Seq::<char>::empty());
    reveal_strlit("c");
    reveal_strlit("lass");
    lemma_word_then("c"@, Seq::<char>::empty());
    lemma_no_colour_word(c, 1);
    lemma_not_at(c, 2, "lass"@, 0);
}

proof fn lemma_word4__l()
    ensures
        keyword4_spec('L', word_then("L"@, Seq::<char>::empty()), 2) == KwOut::Found(Keyword::Line, None::<Seq<char>>, 1, false),
{
    let c = word_then("L"@, Seq::<char>::empty());
    reveal_strlit("L");
    lemma_word_then("L"@, Seq::<char>::empty());
    lemma_no_colour_word(c, 1);

}

proof fn lemma_word4__f()
    ensures
        keyword4_spec('F', word_then("F"@, Seq::<char>::empty()), 2) == KwOut::Found(Keyword::File, None::<Seq<char>>, 1, false),
{
    let c = word_then("F"@, Seq::<char>::empty());
    reveal_strlit("F");
    lemma_word_then("F"@, Seq::<char>::empty());
    lemma_no_colour_word(c, 1);

}

proof fn lemma_word4__m()
    ensures
        keyword4_spec('M', word_then("M"@, Seq::<char>::empty()), 2) == KwOut::Found(Keyword::Method, None::<Seq<char>>, 1, false),
{
    let c = word_then("M"@, Seq::<char>::empty());
    reveal_strlit("M");
    reveal_strlit("axLen");
    reveal_strlit("essage");
    reveal_strlit("ethod");
    reveal_strlit("sg");
    lemma_word_then("M"@, Seq::<char>::empty());
    lemma_no_colour_word(c, 1);
    lemma_not_at(c, 2, "axLen"@, 0);
    lemma_not_at(c, 2, "essage"@, 0);
    lemma_not_at(c, 2, "sg"@, 0);
    lemma_not_at(c, 2, "ethod"@, 0);
}

/// The patterns `%p`, `%t`, `%m`, `%msg`, `%message`, `%c`, `%L`, `%F` and
/// `%M` are each one conversion: level, thread, message (three spellings),
/// logger, line, file and method.
pub proof fn law_single_words4()
    ensures
        keyword4_spec('p', word_then("p"@, Seq::<char>::empty()), 2) == KwOut::Found(Keyword::Level, None::<Seq<char>>, 1, false),
        keyword4_spec('t', word_then("t"@, Seq::<char>::empty()), 2) == KwOut::Found(Keyword::Thread, None::<Seq<char>>, 1, false),
        keyword4_spec('m', word_then("m"@, Seq::<char>::empty()), 2) == KwOut::Found(Keyword::Message, None::<Seq<char>>, 1, false),
        keyword4_spec('m', word_then("msg"@, Seq::<char>::empty()), 2) == KwOut::Found(Keyword::Message, None::<Seq<char>>, 3, false),
        keyword4_spec('m', word_then("message"@, Seq::<char>::empty()), 2) == KwOut::Found(Keyword::Message, None::<Seq<char>>, 7, false),
        keyword4_spec('c', word_then("c"@, Seq::<char>::empty()), 2) == KwOut::Found(Keyword::Logger, None::<Seq<char>>, 1, false),
        keyword4_spec('L', word_then("L"@, Seq::<char>::empty()), 2) == KwOut::Found(Keyword::Line, None::<Seq<char>>, 1, false),
        keyword4_spec('F', word_then("F"@, Seq::<char>::empty()), 2) == KwOut::Found(Keyword::File, None::<Seq<char>>, 1, false),
        keyword4_spec('M', word_then("M"@, Seq::<char>::empty()), 2) == KwOut::Found(Keyword::Method, None::<Seq<char>>, 1, false),
{
    lemma_word4_p();
    lemma_word4_t();
    lemma_word4_m();
    lemma_word4_msg();
    lemma_word4_message();
    lemma_word4_c();
    lemma_word4__l();
    lemma_word4__f();
    lemma_word4__m();
}

/// A pattern that is `%` and a conversion word recognised with no option
/// and not composite, reading to the end of the pattern or past it, scans
/// to that one conversion token, with no modifier.
pub proof fn law_single_word_pattern4(w: Seq<char>, k: Keyword, kl: nat)
    requires
        w.len() >= 1,
        ('a' <= w[0] && w[0] <= 'z') || ('A' <= w[0] && w[0] <= 'Z'),
        w[0] != 'n',
        keyword4_spec(w[0], word_then(w, Seq::<char>::empty()), 2) == KwOut::Found(k, None::<Seq<char>>, kl, false),
        kl + 1 >= w.len(),
        adjust_keyword(k, None) == k,
    ensures
        scan4_spec(word_then(w, Seq::<char>::empty())) == SScan::Tokens(
            seq![SToken::Conversion { modifier: None, keyword: k, option: None, sub_pattern: None }],
        ),
{
    let e = Seq::<char>::empty();
    let c = word_then(w, e);
    lemma_word_then(w, e);
    assert(c[1] == w[0]);
    assert(modifier_spec(c, 1) == (None::<FormatModifier>, 0nat));
    let t = SToken::Conversion { modifier: None, keyword: k, option: None, sub_pattern: None };
    let i4: int = 2 + kl as int;
    assert(post_option(c, i4, None) == (None::<Seq<char>>, i4));
    assert(conv4_spec(c, None, 2) == Step::Emit(t, i4));
    assert(step4_spec(c, 0) == Step::Emit(t, i4));
}

} // verus!
