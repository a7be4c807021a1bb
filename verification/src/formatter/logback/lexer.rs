//! Logback pattern lexer: turns a conversion pattern such as
//! `%d{HH:mm:ss} %-5level %logger{36} - %msg%n` into tokens.

use vstd::prelude::*;
use crate::error::ConfigError;
use crate::text::{byte_offset, byte_offset_of, lemma_utf8_len_ge_len, utf8_len,
    all_digits, chars_of, digits_value, is_digit, matches_at, occurs_at, parse_usize,
    parse_usize_spec, push_str, slice_chars, string_of,
};
use super::align::FormatModifier;
use super::color::Color;

verus! {

broadcast use vstd::seq_lib::group_seq_properties;

/// Keyword identifying the kind of a logback conversion word.
#[derive(Debug, Clone, Copy, PartialEq, Eq, Structural)]
pub enum Keyword {
    Date,
    Relative,
    Level,
    Thread,
    Logger,
    Class,
    Message,
    Method,
    Line,
    File,
    Mdc,
    Kvp,
    Marker,
    Exception,
    RootException,
    ExtendedException,
    NopException,
    Pid,
    Highlight,
    Clr,
    ColorWord(Color),
    Percent,
}

/// A single token of a parsed logback pattern.
#[derive(Debug, PartialEq)]
pub enum Token {
    /// Literal text.
    Literal(String),
    /// A conversion word with its modifier, keyword, `{option}` and sub-pattern.
    Conversion {
        /// Alignment / truncation.
        modifier: Option<FormatModifier>,
        /// The conversion keyword.
        keyword: Keyword,
        /// Parameter in `{...}`.
        option: Option<String>,
        /// Sub-pattern of composite words such as `%highlight(%level)`.
        sub_pattern: Option<Vec<Token>>,
    },
    /// `%n`.
    Newline,
    /// `%%`.
    Percent,
}

/// Mathematical model of a `Token`.
pub enum SToken {
    Literal(Seq<char>),
    Conversion {
        modifier: Option<FormatModifier>,
        keyword: Keyword,
        option: Option<Seq<char>>,
        sub_pattern: Option<Seq<SToken>>,
    },
    Newline,
    Percent,
}

/// The model of a token.
pub open spec fn tok_view(t: Token) -> SToken
    decreases t,
{
    match t {
        Token::Literal(s) => SToken::Literal(s@),
        Token::Conversion { modifier, keyword, option, sub_pattern } => SToken::Conversion {
            modifier,
            keyword,
            option: match option {
                Some(o) => Some(o@),
                None => None,
            },
            sub_pattern: match sub_pattern {
                Some(v) => Some(toks_view(v@)),
                None => None,
            },
        },
        Token::Newline => SToken::Newline,
        Token::Percent => SToken::Percent,
    }
}

/// The model of a sequence of tokens.
pub open spec fn toks_view(s: Seq<Token>) -> Seq<SToken>
    decreases s,
{
    if s.len() == 0 {
        Seq::<SToken>::empty()
    } else {
        toks_view(s.drop_last()).push(tok_view(s.last()))
    }
}

pub proof fn lemma_toks_view_push(s: Seq<Token>, t: Token)
    ensures
        toks_view(s.push(t)) == toks_view(s).push(tok_view(t)),
        toks_view(s).len() == s.len(),
    decreases s.len(),
{
    assert(s.push(t).drop_last() =~= s);
    lemma_toks_view_len(s);
}

pub proof fn lemma_toks_view_len(s: Seq<Token>)
    ensures
        toks_view(s).len() == s.len(),
    decreases s.len(),
{
    if s.len() > 0 {
        lemma_toks_view_len(s.drop_last());
    }
}

// ---------------------------------------------------------------------------
// Helpers shared by the logback and log4j lexers.

/// First position at or after `i` holding `ch`, or `-1`.
pub open spec fn find_from(c: Seq<char>, i: int, ch: char) -> int
    decreases c.len() - i,
{
    if i < 0 || i >= c.len() {
        -1
    } else if c[i] == ch {
        i
    } else {
        find_from(c, i + 1, ch)
    }
}

pub proof fn lemma_find_from(c: Seq<char>, i: int, ch: char)
    requires
        0 <= i,
    ensures
        find_from(c, i, ch) == -1 || (i <= find_from(c, i, ch) < c.len() && c[find_from(c, i, ch)] == ch),
        forall|k: int| i <= k < c.len() && (find_from(c, i, ch) == -1 || k < find_from(c, i, ch)) ==> c[k] != ch,
    decreases c.len() - i,
{
    if i < c.len() && c[i] != ch {
        lemma_find_from(c, i + 1, ch);
    }
}

/// Position of the first `ch` at or after `i`.
pub fn find_exec(c: &[char], i: usize, ch: char) -> (r: Option<usize>)
    ensures
        match r {
            Some(j) => find_from(c@, i as int, ch) == j as int,
            None => find_from(c@, i as int, ch) == -1,
        },
        r matches Some(j) ==> i <= j < c@.len() && c@[j as int] == ch,
{
    let mut j: usize = i;
    proof {
        lemma_find_from(c@, i as int, ch);
    }
    while j < c.len()
        invariant
            i <= j,
            find_from(c@, i as int, ch) == find_from(c@, j as int, ch),
        decreases c@.len() - j,
    {
        if c[j] == ch {
            proof {
                lemma_find_from(c@, i as int, ch);
            }
            return Some(j);
        }
        j = j + 1;
    }
    None
}

/// Number of consecutive digits of `c` starting at `i`.
pub open spec fn digit_run(c: Seq<char>, i: int) -> nat
    decreases c.len() - i,
{
    if 0 <= i < c.len() && is_digit(c[i]) {
        1 + digit_run(c, i + 1)
    } else {
        0
    }
}

/// What `s.parse::<usize>().unwrap_or(0)` gives for a run of digits.
pub open spec fn digits_or_zero(d: Seq<char>) -> usize {
    match parse_usize_spec(d) {
        Some(v) => v,
        None => 0,
    }
}

/// A parsed format modifier and the number of characters it took.
pub open spec fn modifier_spec(c: Seq<char>, start: int) -> (Option<FormatModifier>, nat) {
    let left = start < c.len() && c[start] == '-';
    let p = if left { start + 1 } else { start };
    if p >= c.len() || !is_digit(c[p]) {
        (None, 0)
    } else {
        let k = digit_run(c, p);
        let min = digits_or_zero(c.subrange(p, p + k));
        let q = p + k;
        if q < c.len() && c[q] == '.' {
            let k2 = digit_run(c, q + 1);
            let max = if k2 > 0 { parse_usize_spec(c.subrange(q + 1, q + 1 + k2)) } else { None };
            (
                Some(FormatModifier { left_align: left, min_width: Some(min), max_width: max, max_from_end: false }),
                (q + 1 + k2 - start) as nat,
            )
        } else {
            (
                Some(FormatModifier { left_align: left, min_width: Some(min), max_width: None, max_from_end: false }),
                (q - start) as nat,
            )
        }
    }
}

pub proof fn lemma_digit_run(c: Seq<char>, i: int)
    requires
        0 <= i <= c.len(),
    ensures
        i + digit_run(c, i) <= c.len(),
        all_digits(c.subrange(i, i + digit_run(c, i))),
        i + digit_run(c, i) < c.len() ==> !is_digit(c[i + digit_run(c, i)]),
    decreases c.len() - i,
{
    if i < c.len() && is_digit(c[i]) {
        lemma_digit_run(c, i + 1);
        assert forall|k: int| 0 <= k < digit_run(c, i) implies is_digit(#[trigger] c.subrange(i, i + digit_run(c, i))[k]) by {
            if k > 0 {
                assert(c.subrange(i, i + digit_run(c, i))[k] == c.subrange(i + 1, i + 1 + digit_run(c, i + 1))[k - 1]);
            }
        }
    }
}

/// Scans a run of digits starting at `i`; returns its end.
fn digits_end(c: &[char], i: usize) -> (j: usize)
    requires
        i <= c@.len(),
    ensures
        j == i + digit_run(c@, i as int),
        i <= j <= c@.len(),
{
    let mut j: usize = i;
    proof {
        lemma_digit_run(c@, i as int);
    }
    while j < c.len() && '0' <= c[j] && c[j] <= '9'
        invariant
            i <= j <= c@.len(),
            i + digit_run(c@, i as int) == j + digit_run(c@, j as int),
        decreases c@.len() - j,
    {
        j = j + 1;
    }
    j
}

/// Parses a format modifier such as `-10.20` at `start`.
pub fn parse_modifier(c: &[char], start: usize) -> (r: (Option<FormatModifier>, usize))
    requires
        start <= c@.len(),
    ensures
        r.0 == modifier_spec(c@, start as int).0,
        r.1 == modifier_spec(c@, start as int).1,
        r.1 <= c@.len() - start,
{
    let mut pos = start;
    let mut left_align = false;
    if pos < c.len() && c[pos] == '-' {
        left_align = true;
        pos = pos + 1;
    }
    if pos >= c.len() || !('0' <= c[pos] && c[pos] <= '9') {
        return (None, 0);
    }
    let p = pos;
    pos = digits_end(c, p);
    let num = slice_chars(c, p, pos);
    let min_width: usize = match parse_usize(num.as_slice()) {
        Some(v) => v,
        None => 0,
    };
    let mut max_width: Option<usize> = None;
    if pos < c.len() && c[pos] == '.' {
        pos = pos + 1;
        let q1 = pos;
        pos = digits_end(c, q1);
        if pos > q1 {
            let m = slice_chars(c, q1, pos);
            max_width = parse_usize(m.as_slice());
        }
    }
    proof {
        lemma_digit_run(c@, p as int);
        if p + digit_run(c@, p as int) < c@.len() && c@[p + digit_run(c@, p as int)] == '.' {
            lemma_digit_run(c@, p + digit_run(c@, p as int) + 1);
        }
    }
    (Some(FormatModifier { left_align, min_width: Some(min_width), max_width, max_from_end: false }), pos - start)
}

/// Colour word followed by `(` at position `sp` (`%red(`, `%boldBlue(`, ...):
/// the colour and the word's length.
pub open spec fn color_word_spec(c: Seq<char>, sp: int) -> Option<(Color, nat)> {
    if occurs_at(c, sp, "red("@) { Some((Color::Red, 3)) }
    else if occurs_at(c, sp, "green("@) { Some((Color::Green, 5)) }
    else if occurs_at(c, sp, "yellow("@) { Some((Color::Yellow, 6)) }
    else if occurs_at(c, sp, "blue("@) { Some((Color::Blue, 4)) }
    else if occurs_at(c, sp, "magenta("@) { Some((Color::Magenta, 7)) }
    else if occurs_at(c, sp, "cyan("@) { Some((Color::Cyan, 4)) }
    else if occurs_at(c, sp, "white("@) { Some((Color::White, 5)) }
    else if occurs_at(c, sp, "faint("@) { Some((Color::Faint, 5)) }
    else if occurs_at(c, sp, "boldRed("@) { Some((Color::BoldRed, 7)) }
    else if occurs_at(c, sp, "boldGreen("@) { Some((Color::BoldGreen, 9)) }
    else if occurs_at(c, sp, "boldYellow("@) { Some((Color::BoldYellow, 10)) }
    else if occurs_at(c, sp, "boldBlue("@) { Some((Color::BoldBlue, 8)) }
    else if occurs_at(c, sp, "boldMagenta("@) { Some((Color::BoldMagenta, 11)) }
    else if occurs_at(c, sp, "boldCyan("@) { Some((Color::BoldCyan, 8)) }
    else if occurs_at(c, sp, "boldWhite("@) { Some((Color::BoldWhite, 9)) }
    else { None }
}

/// Recognises a colour word followed by `(` at `sp`.
pub fn try_parse_color_word(c: &[char], sp: usize) -> (r: Option<(Color, usize)>)
    ensures
        match r {
            Some((col, n)) => color_word_spec(c@, sp as int) == Some((col, n as nat)),
            None => color_word_spec(c@, sp as int) is None,
        },
        r matches Some((col, n)) ==> sp + n + 1 <= c@.len() && c@[sp + n] == '(',
{
    proof {
        reveal_strlit("red(");
        reveal_strlit("green(");
        reveal_strlit("yellow(");
        reveal_strlit("blue(");
        reveal_strlit("magenta(");
        reveal_strlit("cyan(");
        reveal_strlit("white(");
        reveal_strlit("faint(");
        reveal_strlit("boldRed(");
        reveal_strlit("boldGreen(");
        reveal_strlit("boldYellow(");
        reveal_strlit("boldBlue(");
        reveal_strlit("boldMagenta(");
        reveal_strlit("boldCyan(");
        reveal_strlit("boldWhite(");
    }
    let r = if matches_at(c, sp, "red(") { Some((Color::Red, 3usize)) }
    else if matches_at(c, sp, "green(") { Some((Color::Green, 5usize)) }
    else if matches_at(c, sp, "yellow(") { Some((Color::Yellow, 6usize)) }
    else if matches_at(c, sp, "blue(") { Some((Color::Blue, 4usize)) }
    else if matches_at(c, sp, "magenta(") { Some((Color::Magenta, 7usize)) }
    else if matches_at(c, sp, "cyan(") { Some((Color::Cyan, 4usize)) }
    else if matches_at(c, sp, "white(") { Some((Color::White, 5usize)) }
    else if matches_at(c, sp, "faint(") { Some((Color::Faint, 5usize)) }
    else if matches_at(c, sp, "boldRed(") { Some((Color::BoldRed, 7usize)) }
    else if matches_at(c, sp, "boldGreen(") { Some((Color::BoldGreen, 9usize)) }
    else if matches_at(c, sp, "boldYellow(") { Some((Color::BoldYellow, 10usize)) }
    else if matches_at(c, sp, "boldBlue(") { Some((Color::BoldBlue, 8usize)) }
    else if matches_at(c, sp, "boldMagenta(") { Some((Color::BoldMagenta, 11usize)) }
    else if matches_at(c, sp, "boldCyan(") { Some((Color::BoldCyan, 8usize)) }
    else if matches_at(c, sp, "boldWhite(") { Some((Color::BoldWhite, 9usize)) }
    else { None };
    proof {
        match r {
            Some((col, n)) => {
                assert(c@[sp + n] == c@.subrange(sp as int, sp + n + 1)[n as int]);
            },
            None => {},
        }
    }
    r
}

/// Depth-counting search for the delimiter closing a sub-pattern:
/// returns the position after the scan and the remaining depth.
pub open spec fn close_scan(c: Seq<char>, end: int, depth: int, open: char, close: char) -> (int, int)
    decreases c.len() - end,
{
    if end < 0 || end >= c.len() || depth <= 0 {
        (end, depth)
    } else {
        let d = if c[end] == open { depth + 1 } else if c[end] == close { depth - 1 } else { depth };
        close_scan(c, end + 1, d, open, close)
    }
}

pub proof fn lemma_close_scan(c: Seq<char>, end: int, depth: int, open: char, close: char)
    requires
        0 <= end <= c.len(),
        depth >= 0,
    ensures
        end <= close_scan(c, end, depth, open, close).0 <= c.len(),
        close_scan(c, end, depth, open, close).1 >= 0,
        close_scan(c, end, depth, open, close).1 <= depth + (c.len() - end),
    decreases c.len() - end,
{
    if end < c.len() && depth > 0 {
        let d = if c[end] == open { depth + 1 } else if c[end] == close { depth - 1 } else { depth };
        lemma_close_scan(c, end + 1, d, open, close);
    }
}

/// Finds the end of a sub-pattern that starts at `start` (depth 1).
pub fn close_scan_exec(c: &[char], start: usize, open: char, close: char) -> (r: (usize, usize))
    requires
        start <= c@.len(),
        c@.len() < usize::MAX,
    ensures
        r.0 as int == close_scan(c@, start as int, 1, open, close).0,
        r.1 as int == close_scan(c@, start as int, 1, open, close).1,
{
    let mut end: usize = start;
    let mut depth: usize = 1;
    proof {
        lemma_close_scan(c@, start as int, 1, open, close);
    }
    while end < c.len() && depth > 0
        invariant
            start <= end <= c@.len(),
            c@.len() < usize::MAX,
            depth <= 1 + (end - start),
            close_scan(c@, start as int, 1, open, close) == close_scan(c@, end as int, depth as int, open, close),
        decreases c@.len() - end,
    {
        if c[end] == open {
            depth = depth + 1;
        } else if c[end] == close {
            depth = depth - 1;
        }
        end = end + 1;
    }
    (end, depth)
}

// ---------------------------------------------------------------------------
// Keywords.

/// Outcome of recognising the keyword after `%` (and the modifier).
pub enum KwOut<K> {
    /// Keyword, `{option}`, characters consumed after the first letter, composite.
    Found(K, Option<Seq<char>>, nat, bool),
    /// Unknown placeholder: message and position.
    Unknown(Seq<char>, nat),
    /// The keyword would be read past the end of the pattern.
    Panic,
}

/// The option in braces that opens at `b` (where `c[b] == '{'`), as
/// `(option, characters consumed counted from `from`)`, if the braces close.
pub open spec fn braced(c: Seq<char>, b: int, from: int) -> Option<(Seq<char>, nat)> {
    let f = find_from(c, b + 1, '}');
    if f < 0 {
        None
    } else {
        Some((c.subrange(b + 1, f), (f + 1 - from) as nat))
    }
}

/// `%d{...}`
pub open spec fn kw_d(c: Seq<char>, p: int) -> KwOut<Keyword> {
    if p < c.len() && c[p] == '{' && braced(c, p, p) is Some {
        KwOut::Found(Keyword::Date, Some(braced(c, p, p).unwrap().0), braced(c, p, p).unwrap().1, false)
    } else {
        KwOut::Found(Keyword::Date, None, 0, false)
    }
}

/// `%rEx`, `%rootException`, `%relative`, `%r`
pub open spec fn kw_r(c: Seq<char>, p: int) -> KwOut<Keyword> {
    let n = c.len();
    if occurs_at(c, p, "Ex"@) {
        if p + 2 < n && c[p + 2] == '{' && braced(c, p + 2, p) is Some {
            KwOut::Found(Keyword::RootException, Some(braced(c, p + 2, p).unwrap().0), braced(c, p + 2, p).unwrap().1, false)
        } else {
            KwOut::Found(Keyword::RootException, None, 2, false)
        }
    } else if occurs_at(c, p, "ootException"@) {
        if p + 12 < n && c[p + 12] == '{' && braced(c, p + 12, p) is Some {
            KwOut::Found(Keyword::RootException, Some(braced(c, p + 12, p).unwrap().0), braced(c, p + 12, p).unwrap().1, false)
        } else {
            KwOut::Found(Keyword::RootException, None, 12, false)
        }
    } else if occurs_at(c, p, "elative"@) {
        KwOut::Found(Keyword::Relative, None, 7, false)
    } else {
        KwOut::Found(Keyword::Relative, None, 0, false)
    }
}

/// `%line`, `%logger{..}`, `%level`, `%le`, `%l`
pub open spec fn kw_l(c: Seq<char>, p: int) -> KwOut<Keyword> {
    let n = c.len();
    if occurs_at(c, p, "ine"@) {
        KwOut::Found(Keyword::Line, None, 3, false)
    } else if occurs_at(c, p, "ogger"@) {
        if p + 5 < n && c[p + 5] == '{' && braced(c, p + 5, p) is Some {
            KwOut::Found(Keyword::Logger, Some(braced(c, p + 5, p).unwrap().0), braced(c, p + 5, p).unwrap().1, false)
        } else {
            KwOut::Found(Keyword::Logger, None, 5, false)
        }
    } else if occurs_at(c, p, "evel"@) {
        KwOut::Found(Keyword::Level, None, 4, false)
    } else if p < n && c[p] == 'e' {
        KwOut::Found(Keyword::Level, None, 0, false)
    } else {
        KwOut::Found(Keyword::Logger, None, 0, false)
    }
}

/// `%marker`, `%msg`, `%m`
pub open spec fn kw_m(c: Seq<char>, p: int) -> KwOut<Keyword> {
    if occurs_at(c, p, "arker"@) {
        KwOut::Found(Keyword::Marker, None, 5, false)
    } else if occurs_at(c, p, "sg"@) {
        KwOut::Found(Keyword::Message, None, 2, false)
    } else {
        KwOut::Found(Keyword::Message, None, 0, false)
    }
}

/// `%clr(`, `%class`, `%c{..}`, `%c`
pub open spec fn kw_c(c: Seq<char>, p: int) -> KwOut<Keyword> {
    if occurs_at(c, p, "lr("@) {
        KwOut::Found(Keyword::Clr, None, 3, true)
    } else if occurs_at(c, p, "lass"@) {
        KwOut::Found(Keyword::Class, None, 4, false)
    } else if p < c.len() && c[p] == '{' && braced(c, p, p) is Some {
        KwOut::Found(Keyword::Logger, Some(braced(c, p, p).unwrap().0), braced(c, p, p).unwrap().1, false)
    } else {
        KwOut::Found(Keyword::Logger, None, 0, false)
    }
}

/// `%X{..}`, `%X`
pub open spec fn kw_x_upper(c: Seq<char>, p: int) -> KwOut<Keyword> {
    if p < c.len() && c[p] == '{' && braced(c, p, p) is Some {
        KwOut::Found(Keyword::Mdc, Some(braced(c, p, p).unwrap().0), braced(c, p, p).unwrap().1, false)
    } else {
        KwOut::Found(Keyword::Mdc, None, 0, false)
    }
}

/// `%exception{..}`, `%ex{..}`, `%e`
pub open spec fn kw_e(c: Seq<char>, p: int) -> KwOut<Keyword> {
    let n = c.len();
    if p < n && c[p] == 'x' {
        if occurs_at(c, p, "xception"@) {
            if p + 8 < n && c[p + 8] == '{' && braced(c, p + 8, p) is Some {
                KwOut::Found(Keyword::Exception, Some(braced(c, p + 8, p).unwrap().0), braced(c, p + 8, p).unwrap().1, false)
            } else {
                KwOut::Found(Keyword::Exception, None, 8, false)
            }
        } else if p + 1 < n && c[p + 1] == '{' && braced(c, p + 1, p) is Some {
            KwOut::Found(Keyword::Exception, Some(braced(c, p + 1, p).unwrap().0), braced(c, p + 1, p).unwrap().1, false)
        } else {
            KwOut::Found(Keyword::Exception, None, 1, false)
        }
    } else {
        KwOut::Found(Keyword::Exception, None, 0, false)
    }
}

/// `%nopexception`, `%nopex`, `%n..` (message)
pub open spec fn kw_n(c: Seq<char>, p: int) -> KwOut<Keyword> {
    if occurs_at(c, p, "opexception"@) {
        KwOut::Found(Keyword::NopException, None, 11, false)
    } else if occurs_at(c, p, "opex"@) {
        KwOut::Found(Keyword::NopException, None, 4, false)
    } else {
        KwOut::Found(Keyword::Message, None, 0, false)
    }
}

/// `%xException{..}`, `%xThrowable{..}`, `%xEx{..}`
pub open spec fn kw_x(c: Seq<char>, p: int) -> KwOut<Keyword> {
    let n = c.len();
    if occurs_at(c, p, "Excepti"@) && p + 7 == n {
        KwOut::Panic
    } else if occurs_at(c, p, "Exceptio"@) {
        if p + 8 == n {
            KwOut::Panic
        } else if c[p + 8] == '{' && braced(c, p + 8, p) is Some {
            KwOut::Found(Keyword::ExtendedException, Some(braced(c, p + 8, p).unwrap().0), braced(c, p + 8, p).unwrap().1, false)
        } else {
            KwOut::Found(Keyword::ExtendedException, None, 9, false)
        }
    } else if occurs_at(c, p, "Throwable"@) {
        if p + 9 < n && c[p + 9] == '{' && braced(c, p + 9, p) is Some {
            KwOut::Found(Keyword::ExtendedException, Some(braced(c, p + 9, p).unwrap().0), braced(c, p + 9, p).unwrap().1, false)
        } else {
            KwOut::Found(Keyword::ExtendedException, None, 9, false)
        }
    } else if occurs_at(c, p, "Ex"@) {
        if p + 2 < n && c[p + 2] == '{' && braced(c, p + 2, p) is Some {
            KwOut::Found(Keyword::ExtendedException, Some(braced(c, p + 2, p).unwrap().0), braced(c, p + 2, p).unwrap().1, false)
        } else {
            KwOut::Found(Keyword::ExtendedException, None, 2, false)
        }
    } else {
        KwOut::Unknown("unknown placeholder '%x'"@, p as nat)
    }
}

/// Keyword whose recognition is one optional word after the first letter.
pub open spec fn kw_word(c: Seq<char>, p: int, word: Seq<char>, hit: Keyword, len: nat, miss: Keyword) -> KwOut<Keyword> {
    if occurs_at(c, p, word) {
        KwOut::Found(hit, None, len, false)
    } else {
        KwOut::Found(miss, None, 0, false)
    }
}

/// Keyword recognition of the logback lexer, for first letter `f` and the
/// characters from position `p` on.
pub open spec fn keyword_spec(f: char, c: Seq<char>, p: int) -> KwOut<Keyword> {
    let n = c.len();
    let sp = if p >= 1 { p - 1 } else { 0 };
    if color_word_spec(c, sp) is Some {
        KwOut::Found(Keyword::ColorWord(color_word_spec(c, sp).unwrap().0), None, color_word_spec(c, sp).unwrap().1, true)
    } else if f == 'd' {
        kw_d(c, p)
    } else if f == 'D' {
        KwOut::Found(Keyword::Date, None, 0, false)
    } else if f == 'r' {
        kw_r(c, p)
    } else if f == 'l' {
        kw_l(c, p)
    } else if f == 'L' {
        kw_word(c, p, "ine"@, Keyword::Line, 3, Keyword::Line)
    } else if f == 'f' {
        kw_word(c, p, "ile"@, Keyword::File, 3, Keyword::File)
    } else if f == 'F' {
        KwOut::Found(Keyword::File, None, 0, false)
    } else if f == 'M' {
        if occurs_at(c, p, "ethod"@) { KwOut::Found(Keyword::Method, None, 5, false) } else { KwOut::Found(Keyword::Method, None, 0, false) }
    } else if f == 'p' {
        kw_word(c, p, "id"@, Keyword::Pid, 2, Keyword::Level)
    } else if f == 't' {
        kw_word(c, p, "hread"@, Keyword::Thread, 5, Keyword::Thread)
    } else if f == 'T' {
        KwOut::Found(Keyword::Thread, None, 0, false)
    } else if f == 'm' {
        kw_m(c, p)
    } else if f == 'c' {
        kw_c(c, p)
    } else if f == 'C' {
        kw_word(c, p, "lass"@, Keyword::Class, 4, Keyword::Class)
    } else if f == 'X' {
        kw_x_upper(c, p)
    } else if f == 'k' {
        kw_word(c, p, "vp"@, Keyword::Kvp, 2, Keyword::Kvp)
    } else if f == 'e' {
        kw_e(c, p)
    } else if f == 'n' {
        kw_n(c, p)
    } else if f == 'x' {
        kw_x(c, p)
    } else if f == 'P' {
        kw_word(c, p, "id"@, Keyword::Pid, 2, Keyword::Pid)
    } else if f == 'h' {
        if occurs_at(c, p, "ighlight("@) {
            KwOut::Found(Keyword::Highlight, None, 9, true)
        } else {
            KwOut::Unknown("unknown placeholder '%h'"@, p as nat)
        }
    } else if f == 's' {
        KwOut::Found(Keyword::Message, None, 0, false)
    } else {
        KwOut::Unknown("unknown placeholder '%"@ + seq![f] + "'"@, p as nat)
    }
}

/// `(k, opt, len, composite)` of the exec keyword recogniser.
pub type KwTuple = (Keyword, Option<Vec<char>>, usize, bool);

/// The model of an optional character vector.
pub open spec fn opt_view(o: Option<Vec<char>>) -> Option<Seq<char>> {
    match o {
        Some(v) => Some(v@),
        None => None,
    }
}

/// Failure of the lexer's internal steps.
#[derive(Debug)]
pub enum LexError {
    /// A pattern parse error.
    Config(ConfigError),
    /// The lexer would read past the end of the pattern.
    OutOfRange,
}

/// The error agrees with the model `s` of a failed step.
pub open spec fn lex_error_matches<K>(e: LexError, s: KwOut<K>) -> bool {
    match e {
        LexError::Config(ConfigError::PatternParse { message, position }) => s == KwOut::<K>::Unknown(message@, position as nat),
        LexError::OutOfRange => s is Panic,
        _ => false,
    }
}

/// The exec result of keyword recognition agrees with its model.
pub open spec fn kw_matches<K>(r: Result<(K, Option<Vec<char>>, usize, bool), LexError>, s: KwOut<K>) -> bool {
    match r {
        Ok((k, o, l, comp)) => s == KwOut::Found(k, opt_view(o), l as nat, comp),
        Err(e) => lex_error_matches(e, s),
    }
}

/// The option in braces opening at `b`, with the count of characters consumed from `from`.
pub fn braced_exec(c: &[char], b: usize, from: usize) -> (r: Option<(Vec<char>, usize)>)
    requires
        from <= b < c@.len() <= isize::MAX,
    ensures
        r matches Some((v, l)) ==> l <= c@.len() - from,
        match r {
            Some((v, l)) => braced(c@, b as int, from as int) == Some((v@, l as nat)),
            None => braced(c@, b as int, from as int) is None,
        },
{
    match find_exec(c, b + 1, '}') {
        Some(f) => {
            let v = slice_chars(c, b + 1, f);
            Some((v, f + 1 - from))
        },
        None => None,
    }
}

fn found(k: Keyword, len: usize) -> (r: Result<KwTuple, LexError>)
    requires
        len <= 13,
    ensures
        r == Ok::<KwTuple, LexError>((k, None, len, false)),
{
    Ok((k, None, len, false))
}

fn found_braced(k: Keyword, c: &[char], b: usize, from: usize, len: usize) -> (r: Result<KwTuple, LexError>)
    requires
        from <= b < c@.len() <= isize::MAX,
        len <= 13,
    ensures
        r matches Ok((kk, o, l, comp)) && kk == k && !comp && l <= c@.len() - from + 13 && (match braced(c@, b as int, from as int) {
            Some((v, bl)) => opt_view(o) == Some(v) && l == bl,
            None => o is None && l == len,
        }),
{
    match braced_exec(c, b, from) {
        Some((v, l)) => Ok((k, Some(v), l, false)),
        None => Ok((k, None, len, false)),
    }
}

/// Error for an unknown placeholder.
pub fn unknown(msg: &str, pos: usize) -> (e: ConfigError)
    ensures
        e matches ConfigError::PatternParse { message, position } && message@ == msg@ && position == pos,
{
    ConfigError::PatternParse { message: String::from_str(msg), position: pos }
}

fn kw_d_exec(c: &[char], p: usize) -> (r: Result<KwTuple, LexError>)
    requires
        p <= c@.len() <= isize::MAX,
    ensures
        r matches Ok((k, o, l, comp)) ==> l <= c@.len() - p + 13,
        kw_matches(r, kw_d(c@, p as int)),
{
    if p < c.len() && c[p] == '{' {
        return found_braced(Keyword::Date, c, p, p, 0);
    }
    found(Keyword::Date, 0)
}

fn kw_r_exec(c: &[char], p: usize) -> (r: Result<KwTuple, LexError>)
    requires
        p <= c@.len() <= isize::MAX,
    ensures
        r matches Ok((k, o, l, comp)) ==> l <= c@.len() - p + 13,
        kw_matches(r, kw_r(c@, p as int)),
{
    let n = c.len();
    if matches_at(c, p, "Ex") {
        if p + 2 < n && c[p + 2] == '{' {
            return found_braced(Keyword::RootException, c, p + 2, p, 2);
        }
        found(Keyword::RootException, 2)
    } else if matches_at(c, p, "ootException") {
        if p + 12 < n && c[p + 12] == '{' {
            return found_braced(Keyword::RootException, c, p + 12, p, 12);
        }
        found(Keyword::RootException, 12)
    } else if matches_at(c, p, "elative") {
        found(Keyword::Relative, 7)
    } else {
        found(Keyword::Relative, 0)
    }
}

fn kw_l_exec(c: &[char], p: usize) -> (r: Result<KwTuple, LexError>)
    requires
        p <= c@.len() <= isize::MAX,
    ensures
        r matches Ok((k, o, l, comp)) ==> l <= c@.len() - p + 13,
        kw_matches(r, kw_l(c@, p as int)),
{
    let n = c.len();
    if matches_at(c, p, "ine") {
        found(Keyword::Line, 3)
    } else if matches_at(c, p, "ogger") {
        if p + 5 < n && c[p + 5] == '{' {
            return found_braced(Keyword::Logger, c, p + 5, p, 5);
        }
        found(Keyword::Logger, 5)
    } else if matches_at(c, p, "evel") {
        found(Keyword::Level, 4)
    } else if p < n && c[p] == 'e' {
        found(Keyword::Level, 0)
    } else {
        found(Keyword::Logger, 0)
    }
}

fn kw_m_exec(c: &[char], p: usize) -> (r: Result<KwTuple, LexError>)
    requires
        p <= c@.len() <= isize::MAX,
    ensures
        r matches Ok((k, o, l, comp)) ==> l <= c@.len() - p + 13,
        kw_matches(r, kw_m(c@, p as int)),
{
    if matches_at(c, p, "arker") {
        found(Keyword::Marker, 5)
    } else if matches_at(c, p, "sg") {
        found(Keyword::Message, 2)
    } else {
        found(Keyword::Message, 0)
    }
}

fn kw_c_exec(c: &[char], p: usize) -> (r: Result<KwTuple, LexError>)
    requires
        p <= c@.len() <= isize::MAX,
    ensures
        r matches Ok((k, o, l, comp)) ==> l <= c@.len() - p + 13,
        kw_matches(r, kw_c(c@, p as int)),
{
    if matches_at(c, p, "lr(") {
        Ok((Keyword::Clr, None, 3, true))
    } else if matches_at(c, p, "lass") {
        found(Keyword::Class, 4)
    } else if p < c.len() && c[p] == '{' {
        found_braced(Keyword::Logger, c, p, p, 0)
    } else {
        found(Keyword::Logger, 0)
    }
}

fn kw_x_upper_exec(c: &[char], p: usize) -> (r: Result<KwTuple, LexError>)
    requires
        p <= c@.len() <= isize::MAX,
    ensures
        r matches Ok((k, o, l, comp)) ==> l <= c@.len() - p + 13,
        kw_matches(r, kw_x_upper(c@, p as int)),
{
    if p < c.len() && c[p] == '{' {
        return found_braced(Keyword::Mdc, c, p, p, 0);
    }
    found(Keyword::Mdc, 0)
}

fn kw_e_exec(c: &[char], p: usize) -> (r: Result<KwTuple, LexError>)
    requires
        p <= c@.len() <= isize::MAX,
    ensures
        r matches Ok((k, o, l, comp)) ==> l <= c@.len() - p + 13,
        kw_matches(r, kw_e(c@, p as int)),
{
    let n = c.len();
    if p < n && c[p] == 'x' {
        if matches_at(c, p, "xception") {
            if p + 8 < n && c[p + 8] == '{' {
                return found_braced(Keyword::Exception, c, p + 8, p, 8);
            }
            found(Keyword::Exception, 8)
        } else if p + 1 < n && c[p + 1] == '{' {
            found_braced(Keyword::Exception, c, p + 1, p, 1)
        } else {
            found(Keyword::Exception, 1)
        }
    } else {
        found(Keyword::Exception, 0)
    }
}

fn kw_n_exec(c: &[char], p: usize) -> (r: Result<KwTuple, LexError>)
    requires
        p <= c@.len() <= isize::MAX,
    ensures
        r matches Ok((k, o, l, comp)) ==> l <= c@.len() - p + 13,
        kw_matches(r, kw_n(c@, p as int)),
{
    if matches_at(c, p, "opexception") {
        found(Keyword::NopException, 11)
    } else if matches_at(c, p, "opex") {
        found(Keyword::NopException, 4)
    } else {
        found(Keyword::Message, 0)
    }
}

fn kw_x_exec(c: &[char], p: usize) -> (r: Result<KwTuple, LexError>)
    requires
        p <= c@.len() <= isize::MAX,
    ensures
        r matches Ok((k, o, l, comp)) ==> l <= c@.len() - p + 13,
        kw_matches(r, kw_x(c@, p as int)),
{
    proof {
        reveal_strlit("Exceptio");
    }
    let n = c.len();
    if matches_at(c, p, "Excepti") && p + 7 == n {
        Err(LexError::OutOfRange)
    } else if matches_at(c, p, "Exceptio") {
        if p + 8 == n {
            return Err(LexError::OutOfRange);
        }
        if c[p + 8] == '{' {
            return found_braced(Keyword::ExtendedException, c, p + 8, p, 9);
        }
        found(Keyword::ExtendedException, 9)
    } else if matches_at(c, p, "Throwable") {
        if p + 9 < n && c[p + 9] == '{' {
            return found_braced(Keyword::ExtendedException, c, p + 9, p, 9);
        }
        found(Keyword::ExtendedException, 9)
    } else if matches_at(c, p, "Ex") {
        if p + 2 < n && c[p + 2] == '{' {
            return found_braced(Keyword::ExtendedException, c, p + 2, p, 2);
        }
        found(Keyword::ExtendedException, 2)
    } else {
        Err(LexError::Config(unknown("unknown placeholder '%x'", p)))
    }
}

fn kw_word_exec(c: &[char], p: usize, word: &str, hit: Keyword, len: usize, miss: Keyword) -> (r: Result<KwTuple, LexError>)
    requires
        len <= 13,
        p <= c@.len(),
    ensures
        r matches Ok((k, o, l, comp)) ==> l <= c@.len() - p + 13,
        kw_matches(r, kw_word(c@, p as int, word@, hit, len as nat, miss)),
{
    if matches_at(c, p, word) {
        found(hit, len)
    } else {
        found(miss, 0)
    }
}

/// Recognises the keyword whose first letter is `first_char`; `pos` is the
/// position just after that letter.
#[verifier::spinoff_prover]
#[verifier::rlimit(40)]
pub fn parse_keyword(first_char: char, c: &[char], pos: usize) -> (r: Result<KwTuple, LexError>)
    requires
        1 <= pos <= c@.len() <= isize::MAX,
    ensures
        r matches Ok((k, o, l, comp)) ==> l <= c@.len() - pos + 13,
        kw_matches(r, keyword_spec(first_char, c@, pos as int)),
{
    let n = c.len();
    let p = pos;
    let f = first_char;
    if let Some((col, len)) = try_parse_color_word(c, p - 1) {
        return Ok((Keyword::ColorWord(col), None, len, true));
    }
    if f == 'd' {
        kw_d_exec(c, p)
    } else if f == 'D' {
        found(Keyword::Date, 0)
    } else if f == 'r' {
        kw_r_exec(c, p)
    } else if f == 'l' {
        kw_l_exec(c, p)
    } else if f == 'L' {
        kw_word_exec(c, p, "ine", Keyword::Line, 3, Keyword::Line)
    } else if f == 'f' {
        kw_word_exec(c, p, "ile", Keyword::File, 3, Keyword::File)
    } else if f == 'F' {
        found(Keyword::File, 0)
    } else if f == 'M' {
        if matches_at(c, p, "ethod") { found(Keyword::Method, 5) } else { found(Keyword::Method, 0) }
    } else if f == 'p' {
        kw_word_exec(c, p, "id", Keyword::Pid, 2, Keyword::Level)
    } else if f == 't' {
        kw_word_exec(c, p, "hread", Keyword::Thread, 5, Keyword::Thread)
    } else if f == 'T' {
        found(Keyword::Thread, 0)
    } else if f == 'm' {
        kw_m_exec(c, p)
    } else if f == 'c' {
        kw_c_exec(c, p)
    } else if f == 'C' {
        kw_word_exec(c, p, "lass", Keyword::Class, 4, Keyword::Class)
    } else if f == 'X' {
        kw_x_upper_exec(c, p)
    } else if f == 'k' {
        kw_word_exec(c, p, "vp", Keyword::Kvp, 2, Keyword::Kvp)
    } else if f == 'e' {
        kw_e_exec(c, p)
    } else if f == 'n' {
        kw_n_exec(c, p)
    } else if f == 'x' {
        kw_x_exec(c, p)
    } else if f == 'P' {
        kw_word_exec(c, p, "id", Keyword::Pid, 2, Keyword::Pid)
    } else if f == 'h' {
        if matches_at(c, p, "ighlight(") {
            Ok((Keyword::Highlight, None, 9, true))
        } else {
            Err(LexError::Config(unknown("unknown placeholder '%h'", p)))
        }
    } else if f == 's' {
        found(Keyword::Message, 0)
    } else {
        let mut m: Vec<char> = Vec::new();
        push_str(&mut m, "unknown placeholder '%");
        m.push(f);
        push_str(&mut m, "'");
        proof {
            assert(m@ =~= "unknown placeholder '%"@ + seq![f] + "'"@);
        }
        Err(LexError::Config(ConfigError::PatternParse { message: string_of(m.as_slice()), position: p }))
    }
}

// ---------------------------------------------------------------------------
// The scanner.

/// Outcome of scanning a pattern.
pub enum SScan<T> {
    /// The tokens.
    Tokens(Seq<T>),
    /// A pattern parse error: message and position.
    Fail(Seq<char>, nat),
    /// The lexer would read past the end of the pattern.
    Panic,
}

/// `t` followed by the outcome `r`.
pub open spec fn cons<T>(t: T, r: SScan<T>) -> SScan<T> {
    match r {
        SScan::Tokens(ts) => SScan::Tokens(seq![t] + ts),
        SScan::Fail(m, p) => SScan::Fail(m, p),
        SScan::Panic => SScan::Panic,
    }
}

/// `p` followed by the outcome `r`.
pub open spec fn prepend<T>(p: Seq<T>, r: SScan<T>) -> SScan<T> {
    match r {
        SScan::Tokens(ts) => SScan::Tokens(p + ts),
        SScan::Fail(m, q) => SScan::Fail(m, q),
        SScan::Panic => SScan::Panic,
    }
}

/// End of the literal text that starts at `i`.
pub open spec fn literal_end(c: Seq<char>, i: int) -> int {
    let j = find_from(c, i, '%');
    if j < 0 { c.len() as int } else { j }
}

/// The `{...}` that may follow a composite word's sub-pattern, opening at
/// `i5`: the new option and the position after it.
pub open spec fn post_option(c: Seq<char>, i5: int, opt: Option<Seq<char>>) -> (Option<Seq<char>>, int) {
    if 0 <= i5 < c.len() && c[i5] == '{' && find_from(c, i5, '}') >= 0 {
        (Some(c.subrange(i5 + 1, find_from(c, i5, '}'))), find_from(c, i5, '}') + 1)
    } else {
        (opt, i5)
    }
}

/// Outcome of one step of the scanner.
pub enum Step<T> {
    /// A token, and the position of the next step.
    Emit(T, int),
    /// A last token (a trailing `%`); scanning stops.
    Last(T),
    /// A pattern parse error: message and position.
    Fail(Seq<char>, nat),
    /// The lexer would read past the end of the pattern.
    Panic,
}

/// The conversion word whose first letter is at `i3 - 1`, with modifier `m`.
pub open spec fn conv_spec(c: Seq<char>, m: Option<FormatModifier>, i3: int) -> Step<SToken>
    decreases c.len(), c.len() - i3, 0int,
{
    let n = c.len();
    if i3 < 1 || i3 > n {
        Step::Panic
    } else {
        match keyword_spec(c[i3 - 1], c, i3) {
            KwOut::Unknown(msg, pos) => Step::Fail(msg, pos),
            KwOut::Panic => Step::Panic,
            KwOut::Found(k, opt, kl, comp) => {
                let i4 = i3 + kl;
                let has_sub = comp && 0 < i4 <= n && c[i4 - 1] == '(';
                let cs = close_scan(c, i4, 1, '(', ')');
                let sub_ok = has_sub && cs.1 == 0 && i4 < cs.0 <= n;
                let sub_res = if sub_ok { scan_from(c.subrange(i4, cs.0 - 1), 0) } else { SScan::Tokens(Seq::<SToken>::empty()) };
                if sub_ok && sub_res is Panic {
                    Step::Panic
                } else {
                    let sub = if sub_ok {
                        match sub_res {
                            SScan::Tokens(t) => Some(t),
                            _ => None,
                        }
                    } else {
                        None
                    };
                    let i5 = if sub_ok { cs.0 } else { i4 };
                    let po = post_option(c, i5, opt);
                    Step::Emit(SToken::Conversion { modifier: m, keyword: k, option: po.0, sub_pattern: sub }, po.1)
                }
            },
        }
    }
}

/// One step of the scanner at position `i` (`0 <= i < c.len()`).
pub open spec fn step_spec(c: Seq<char>, i: int) -> Step<SToken>
    decreases c.len(), c.len() - i, 1int,
{
    let n = c.len();
    if i < 0 || i >= n {
        Step::Panic
    } else if c[i] != '%' {
        Step::Emit(SToken::Literal(c.subrange(i, literal_end(c, i))), literal_end(c, i))
    } else if i + 1 >= n {
        Step::Last(SToken::Literal("%"@))
    } else {
        let m = modifier_spec(c, i + 1);
        let i2 = i + 1 + m.1;
        if i2 >= n {
            Step::Last(SToken::Literal("%"@))
        } else {
            let sc = c[i2];
            let i3 = i2 + 1;
            if sc == '%' {
                Step::Emit(SToken::Percent, i3)
            } else if sc == 'n' && (i3 >= n || (c[i3] != 'o' && c[i3] != 'e')) {
                Step::Emit(SToken::Newline, i3)
            } else {
                conv_spec(c, m.0, i3)
            }
        }
    }
}

/// Scanning of the logback pattern `c` from position `i`.
pub open spec fn scan_from(c: Seq<char>, i: int) -> SScan<SToken>
    decreases c.len(), c.len() - i, 2int,
{
    let n = c.len();
    if i < 0 || i >= n {
        SScan::Tokens(Seq::<SToken>::empty())
    } else {
        match step_spec(c, i) {
            Step::Emit(t, j) => if j <= i {
                SScan::Tokens(Seq::<SToken>::empty())
            } else if j >= n {
                SScan::Tokens(seq![t])
            } else {
                cons(t, scan_from(c, j))
            },
            Step::Last(t) => SScan::Tokens(seq![t]),
            Step::Fail(m, p) => SScan::Fail(m, p),
            Step::Panic => SScan::Panic,
        }
    }
}

pub proof fn lemma_prepend_cons<T>(p: Seq<T>, t: T, x: SScan<T>)
    ensures
        prepend(p, cons(t, x)) == prepend(p.push(t), x),
        prepend(p, SScan::Tokens(seq![t])) == SScan::<T>::Tokens(p.push(t)),
{
    match x {
        SScan::Tokens(ts) => {
            assert(p + (seq![t] + ts) =~= p.push(t) + ts);
        },
        _ => {},
    }
    assert(p + seq![t] =~= p.push(t));
}

pub proof fn lemma_step_advances(c: Seq<char>, i: int)
    requires
        0 <= i < c.len(),
    ensures
        step_spec(c, i) matches Step::Emit(t, j) ==> j > i,
{
    let n = c.len();
    if c[i] != '%' {
        lemma_find_from(c, i, '%');
    } else if i + 1 < n {
        let m = modifier_spec(c, i + 1);
        let i2 = i + 1 + m.1;
        if i2 < n {
            let i3 = i2 + 1;
            if !(c[i2] == '%') && !(c[i2] == 'n' && (i3 >= n || (c[i3] != 'o' && c[i3] != 'e'))) {
                match keyword_spec(c[i3 - 1], c, i3) {
                    KwOut::Found(k, opt, kl, comp) => {
                        let i4 = i3 + kl;
                        let has_sub = comp && 0 < i4 <= n && c[i4 - 1] == '(';
                        let cs = close_scan(c, i4, 1, '(', ')');
                        let sub_ok = has_sub && cs.1 == 0 && i4 < cs.0 <= n;
                        let i5 = if sub_ok { cs.0 } else { i4 };
                        lemma_post_option(c, i5, opt);
                    },
                    _ => {},
                }
            }
        }
    }
}

/// What `scan` gives for the pattern `p`.
pub open spec fn scan_spec(p: Seq<char>) -> SScan<SToken> {
    scan_from(p, 0)
}

/// The exec result of a scan agrees with its model.
/// The position of a parse error is the byte offset, in the UTF-8 encoding
/// of the pattern `p`, of the character at which the error was found.
pub open spec fn scan_matches(p: Seq<char>, r: Result<Vec<Token>, ConfigError>, s: SScan<SToken>) -> bool {
    match r {
        Ok(v) => s == SScan::Tokens(toks_view(v@)),
        Err(e) => match e {
            ConfigError::PatternParse { message, position } => s matches SScan::Fail(m, q) && message@ == m
                && position == byte_offset(p, q as int),
            _ => false,
        },
    }
}

pub proof fn lemma_post_option(c: Seq<char>, i5: int, opt: Option<Seq<char>>)
    requires
        0 <= i5,
    ensures
        i5 <= post_option(c, i5, opt).1,
        post_option(c, i5, opt).1 <= c.len() || post_option(c, i5, opt).1 == i5,
{
    if 0 <= i5 < c.len() && c[i5] == '{' && find_from(c, i5, '}') >= 0 {
        lemma_find_from(c, i5, '}');
    }
}

/// Scans a logback pattern into tokens.
pub fn scan(pattern: &str) -> (r: Result<Vec<Token>, ConfigError>)
    requires
        !(scan_spec(pattern@) is Panic),
        utf8_len(pattern@) <= isize::MAX,
    ensures
        scan_matches(pattern@, r, scan_spec(pattern@)),
{
    match scan_checked(pattern) {
        Some(r) => r,
        None => Err(ConfigError::NoConfig),
    }
}

/// Scans a logback pattern; `None` exactly where the pattern makes the lexer
/// read past its end, a pattern that `scan` does not accept.
pub fn scan_checked(pattern: &str) -> (r: Option<Result<Vec<Token>, ConfigError>>)
    requires
        utf8_len(pattern@) <= isize::MAX,
    ensures
        r is None <==> scan_spec(pattern@) is Panic,
        r matches Some(x) ==> scan_matches(pattern@, x, scan_spec(pattern@)),
{
    let c = chars_of(pattern);
    proof {
        lemma_utf8_len_ge_len(c@);
    }
    match scan_chars(c.as_slice()) {
        Ok(v) => Some(Ok(v)),
        Err(LexError::Config(ConfigError::PatternParse { message, position })) => {
            let at = byte_offset_of(c.as_slice(), position);
            Some(Err(ConfigError::PatternParse { message, position: at }))
        },
        Err(LexError::Config(e)) => Some(Err(e)),
        Err(LexError::OutOfRange) => None,
    }
}

/// The exec result of a step agrees with its model.
pub open spec fn step_matches(r: Result<(Token, usize, bool), LexError>, s: Step<SToken>) -> bool {
    match r {
        Ok((t, j, last)) => if last { s == Step::Last(tok_view(t)) } else { s == Step::Emit(tok_view(t), j as int) },
        Err(e) => step_error_matches(e, s),
    }
}

/// The error agrees with the model `s` of a failed step.
pub open spec fn step_error_matches<T>(e: LexError, s: Step<T>) -> bool {
    match e {
        LexError::Config(ConfigError::PatternParse { message, position }) => s == Step::<T>::Fail(message@, position as nat),
        LexError::OutOfRange => s is Panic,
        _ => false,
    }
}

/// The error agrees with the model `s` of a failed scan.
pub open spec fn scan_error_matches<T>(e: LexError, s: SScan<T>) -> bool {
    match e {
        LexError::Config(ConfigError::PatternParse { message, position }) => s == SScan::<T>::Fail(message@, position as nat),
        LexError::OutOfRange => s is Panic,
        _ => false,
    }
}

/// The exec result of the internal scan agrees with its model.
pub open spec fn lex_matches(r: Result<Vec<Token>, LexError>, s: SScan<SToken>) -> bool {
    match r {
        Ok(v) => s == SScan::Tokens(toks_view(v@)),
        Err(e) => scan_error_matches(e, s),
    }
}

/// The conversion word whose first letter is at `i3 - 1`.
#[verifier::spinoff_prover]
#[verifier::rlimit(40)]
fn conv_exec(c: &[char], m: Option<FormatModifier>, i3: usize) -> (r: Result<(Token, usize, bool), LexError>)
    requires
        1 <= i3 <= c@.len() <= isize::MAX,
    ensures
        step_matches(r, conv_spec(c@, m, i3 as int)),
        r matches Ok((t, j, last)) ==> !last,
    decreases c@.len(), 0int,
{
    let n = c.len();
    let kw = parse_keyword(c[i3 - 1], c, i3);
    let (keyword, option, kw_len, is_composite) = match kw {
        Ok(t) => t,
        Err(e) => {
            return Err(e);
        },
    };
    let mut i: usize = i3 + kw_len;
    let mut sub_pattern: Option<Vec<Token>> = None;
    if is_composite && i > 0 && i <= n && c[i - 1] == '(' {
        let (end, depth) = close_scan_exec(c, i, '(', ')');
        if depth == 0 && end > i && end <= n {
            let sub = slice_chars(c, i, end - 1);
            let sr = scan_chars(sub.as_slice());
            sub_pattern = match sr {
                Ok(v) => Some(v),
                Err(LexError::OutOfRange) => {
                    return Err(LexError::OutOfRange);
                },
                Err(_) => None,
            };
            i = end;
        }
    }
    let mut option: Option<Vec<char>> = option;
    if i < n && c[i] == '{' {
        if let Some(f) = find_exec(c, i, '}') {
            option = Some(slice_chars(c, i + 1, f));
            i = f + 1;
        }
    }
    let opt_s: Option<String> = match option {
        Some(v) => Some(string_of(v.as_slice())),
        None => None,
    };
    let tok = Token::Conversion { modifier: m, keyword, option: opt_s, sub_pattern };
    Ok((tok, i, false))
}

/// One step of the scanner at position `i`.
#[verifier::spinoff_prover]
#[verifier::rlimit(40)]
fn step_exec(c: &[char], i: usize) -> (r: Result<(Token, usize, bool), LexError>)
    requires
        i < c@.len() <= isize::MAX,
    ensures
        step_matches(r, step_spec(c@, i as int)),
    decreases c@.len(), 1int,
{
    let n = c.len();
    if c[i] != '%' {
        let j = match find_exec(c, i, '%') {
            Some(j) => j,
            None => n,
        };
        let lit = slice_chars(c, i, j);
        return Ok((Token::Literal(string_of(lit.as_slice())), j, false));
    }
    if i + 1 >= n {
        return Ok((Token::Literal(String::from_str("%")), i + 1, true));
    }
    let (align, align_len) = parse_modifier(c, i + 1);
    let i2 = i + 1 + align_len;
    if i2 >= n {
        return Ok((Token::Literal(String::from_str("%")), i2, true));
    }
    let spec_char = c[i2];
    let i3 = i2 + 1;
    if spec_char == '%' {
        return Ok((Token::Percent, i3, false));
    }
    if spec_char == 'n' && (i3 >= n || (c[i3] != 'o' && c[i3] != 'e')) {
        return Ok((Token::Newline, i3, false));
    }
    conv_exec(c, align, i3)
}

/// Scans the characters of a logback pattern into tokens.
#[verifier::spinoff_prover]
#[verifier::rlimit(40)]
pub fn scan_chars(c: &[char]) -> (r: Result<Vec<Token>, LexError>)
    requires
        c@.len() <= isize::MAX,
    ensures
        lex_matches(r, scan_from(c@, 0)),
    decreases c@.len(), 2int,
{
    let n = c.len();
    let mut tokens: Vec<Token> = Vec::new();
    let mut i: usize = 0;
    proof {
        lemma_toks_view_len(tokens@);
        assert(toks_view(tokens@) =~= Seq::<SToken>::empty());
        assert(prepend(Seq::<SToken>::empty(), scan_from(c@, 0)) == scan_from(c@, 0));
    }
    while i < n
        invariant
            n == c@.len(),
            n <= isize::MAX,
            i <= n,
            scan_from(c@, 0) == prepend(toks_view(tokens@), scan_from(c@, i as int)),
        decreases n - i,
    {
        let ghost before = tokens@;
        match step_exec(c, i) {
            Ok((t, j, last)) => {
                tokens.push(t);
                proof {
                    lemma_toks_view_push(before, tokens@.last());
                    assert(tokens@ == before.push(tokens@.last()));
                }
                proof {
                    lemma_step_advances(c@, i as int);
                    lemma_prepend_cons(toks_view(before), tok_view(t), scan_from(c@, j as int));
                }
                if last || j >= n {
                    proof {
                        assert(scan_from(c@, i as int) == SScan::Tokens(seq![tok_view(t)]));
                    }
                    return Ok(tokens);
                }
                proof {
                    assert(scan_from(c@, i as int) == cons(tok_view(t), scan_from(c@, j as int)));
                }
                i = j;
            },
            Err(e) => {
                return Err(e);
            },
        }
    }
    proof {
        assert(toks_view(tokens@) + Seq::<SToken>::empty() =~= toks_view(tokens@));
    }
    Ok(tokens)
}

/// A pattern without `%` scans to one literal token holding all of it (to
/// no token where it is empty).
pub proof fn law_plain_text_is_one_literal(p: Seq<char>)
    requires
        forall|i: int| 0 <= i < p.len() ==> p[i] != '%',
    ensures
        scan_spec(p) == (if p.len() == 0 {
            SScan::<SToken>::Tokens(Seq::<SToken>::empty())
        } else {
            SScan::<SToken>::Tokens(seq![SToken::Literal(p)])
        }),
{
    if p.len() > 0 {
        lemma_find_from(p, 0, '%');
        let f = find_from(p, 0, '%');
        if f != -1 {
            assert(p[f] != '%');
        }
        assert(literal_end(p, 0) == p.len());
        assert(p.subrange(0, p.len() as int) =~= p);
        assert(step_spec(p, 0) == Step::Emit(SToken::Literal(p), p.len() as int));
        assert(scan_from(p, 0) == SScan::<SToken>::Tokens(seq![SToken::Literal(p)]));
    }
}

/// The characters that can end a conversion word: anything but an ASCII
/// letter or digit and `{`.
pub open spec fn ends_word(ch: char) -> bool {
    !(('a' <= ch && ch <= 'z') || ('A' <= ch && ch <= 'Z') || ('0' <= ch && ch <= '9') || ch == '{')
}

/// The pattern `%` + `w` + `r`, where `r` does not continue the word.
pub open spec fn word_then(w: Seq<char>, r: Seq<char>) -> Seq<char> {
    seq!['%'] + w + r
}

pub proof fn lemma_word_then(w: Seq<char>, r: Seq<char>)
    ensures
        word_then(w, r).len() == w.len() + r.len() + 1,
        word_then(w, r)[0] == '%',
        forall|k: int| 0 <= k < w.len() ==> #[trigger] word_then(w, r)[k + 1] == w[k],
        forall|k: int| 0 <= k < r.len() ==> #[trigger] word_then(w, r)[k + w.len() + 1] == r[k],
{
}

pub proof fn lemma_not_at(c: Seq<char>, i: int, lit: Seq<char>, k: int)
    requires
        0 <= i,
        0 <= k < lit.len(),
        i + k < c.len() ==> c[i + k] != lit[k],
    ensures
        !occurs_at(c, i, lit),
{
    if occurs_at(c, i, lit) {
        assert(c.subrange(i, i + lit.len())[k] == c[i + k]);
    }
}

pub proof fn lemma_at(c: Seq<char>, i: int, lit: Seq<char>)
    requires
        0 <= i,
        i + lit.len() <= c.len(),
        forall|k: int| 0 <= k < lit.len() ==> c[i + k] == lit[k],
    ensures
        occurs_at(c, i, lit),
{
    assert(c.subrange(i, i + lit.len()) =~= lit);
}

/// No colour word starts at `sp` when its first three characters begin none
/// of them.
pub proof fn lemma_no_colour_word(c: Seq<char>, sp: int)
    requires
        0 <= sp < c.len(),
        c[sp] != 'g' && c[sp] != 'y' && c[sp] != 'b' && c[sp] != 'w',
        c[sp] == 'r' ==> sp + 2 >= c.len() || c[sp + 1] != 'e' || c[sp + 2] != 'd',
        c[sp] == 'm' ==> sp + 2 >= c.len() || c[sp + 1] != 'a' || c[sp + 2] != 'g',
        c[sp] == 'c' ==> sp + 1 >= c.len() || c[sp + 1] != 'y',
        c[sp] == 'f' ==> sp + 1 >= c.len() || c[sp + 1] != 'a',
    ensures
        color_word_spec(c, sp) is None,
{
    reveal_strlit("red(");
    reveal_strlit("green(");
    reveal_strlit("yellow(");
    reveal_strlit("blue(");
    reveal_strlit("magenta(");
    reveal_strlit("cyan(");
    reveal_strlit("white(");
    reveal_strlit("faint(");
    reveal_strlit("boldRed(");
    reveal_strlit("boldGreen(");
    reveal_strlit("boldYellow(");
    reveal_strlit("boldBlue(");
    reveal_strlit("boldMagenta(");
    reveal_strlit("boldCyan(");
    reveal_strlit("boldWhite(");
    if occurs_at(c, sp, "red("@) {
        assert(c.subrange(sp, sp + 4)[0] == c[sp] && c.subrange(sp, sp + 4)[1] == c[sp + 1] && c.subrange(sp, sp + 4)[2] == c[sp + 2]);
    }
    if occurs_at(c, sp, "green("@) {
        assert(c.subrange(sp, sp + 6)[0] == c[sp] && c.subrange(sp, sp + 6)[1] == c[sp + 1] && c.subrange(sp, sp + 6)[2] == c[sp + 2]);
    }
    if occurs_at(c, sp, "yellow("@) {
        assert(c.subrange(sp, sp + 7)[0] == c[sp] && c.subrange(sp, sp + 7)[1] == c[sp + 1] && c.subrange(sp, sp + 7)[2] == c[sp + 2]);
    }
    if occurs_at(c, sp, "blue("@) {
        assert(c.subrange(sp, sp + 5)[0] == c[sp] && c.subrange(sp, sp + 5)[1] == c[sp + 1] && c.subrange(sp, sp + 5)[2] == c[sp + 2]);
    }
    if occurs_at(c, sp, "magenta("@) {
        assert(c.subrange(sp, sp + 8)[0] == c[sp] && c.subrange(sp, sp + 8)[1] == c[sp + 1] && c.subrange(sp, sp + 8)[2] == c[sp + 2]);
    }
    if occurs_at(c, sp, "cyan("@) {
        assert(c.subrange(sp, sp + 5)[0] == c[sp] && c.subrange(sp, sp + 5)[1] == c[sp + 1] && c.subrange(sp, sp + 5)[2] == c[sp + 2]);
    }
    if occurs_at(c, sp, "white("@) {
        assert(c.subrange(sp, sp + 6)[0] == c[sp] && c.subrange(sp, sp + 6)[1] == c[sp + 1] && c.subrange(sp, sp + 6)[2] == c[sp + 2]);
    }
    if occurs_at(c, sp, "faint("@) {
        assert(c.subrange(sp, sp + 6)[0] == c[sp] && c.subrange(sp, sp + 6)[1] == c[sp + 1] && c.subrange(sp, sp + 6)[2] == c[sp + 2]);
    }
    if occurs_at(c, sp, "boldRed("@) {
        assert(c.subrange(sp, sp + 8)[0] == c[sp] && c.subrange(sp, sp + 8)[1] == c[sp + 1] && c.subrange(sp, sp + 8)[2] == c[sp + 2]);
    }
    if occurs_at(c, sp, "boldGreen("@) {
        assert(c.subrange(sp, sp + 10)[0] == c[sp] && c.subrange(sp, sp + 10)[1] == c[sp + 1] && c.subrange(sp, sp + 10)[2] == c[sp + 2]);
    }
    if occurs_at(c, sp, "boldYellow("@) {
        assert(c.subrange(sp, sp + 11)[0] == c[sp] && c.subrange(sp, sp + 11)[1] == c[sp + 1] && c.subrange(sp, sp + 11)[2] == c[sp + 2]);
    }
    if occurs_at(c, sp, "boldBlue("@) {
        assert(c.subrange(sp, sp + 9)[0] == c[sp] && c.subrange(sp, sp + 9)[1] == c[sp + 1] && c.subrange(sp, sp + 9)[2] == c[sp + 2]);
    }
    if occurs_at(c, sp, "boldMagenta("@) {
        assert(c.subrange(sp, sp + 12)[0] == c[sp] && c.subrange(sp, sp + 12)[1] == c[sp + 1] && c.subrange(sp, sp + 12)[2] == c[sp + 2]);
    }
    if occurs_at(c, sp, "boldCyan("@) {
        assert(c.subrange(sp, sp + 9)[0] == c[sp] && c.subrange(sp, sp + 9)[1] == c[sp + 1] && c.subrange(sp, sp + 9)[2] == c[sp + 2]);
    }
    if occurs_at(c, sp, "boldWhite("@) {
        assert(c.subrange(sp, sp + 10)[0] == c[sp] && c.subrange(sp, sp + 10)[1] == c[sp + 1] && c.subrange(sp, sp + 10)[2] == c[sp + 2]);
    }
}

proof fn lemma_word_level(r: Seq<char>)
    requires
        r.len() == 0 || ends_word(r[0]),
    ensures
        keyword_spec('l', word_then("level"@, r), 2) == KwOut::Found(Keyword::Level, None::<Seq<char>>, 4, false),
{
    let c = word_then("level"@, r);
    reveal_strlit("evel");
    reveal_strlit("ine");
    reveal_strlit("level");
    reveal_strlit("ogger");
    lemma_word_then("level"@, r);
    lemma_no_colour_word(c, 1);
    lemma_not_at(c, 2, "ine"@, 0);
    lemma_not_at(c, 2, "ogger"@, 0);
    lemma_at(c, 2, "evel"@);
}

proof fn lemma_word_line(r: Seq<char>)
    requires
        r.len() == 0 || ends_word(r[0]),
    ensures
        keyword_spec('l', word_then("line"@, r), 2) == KwOut::Found(Keyword::Line, None::<Seq<char>>, 3, false),
{
    let c = word_then("line"@, r);
    reveal_strlit("evel");
    reveal_strlit("ine");
    reveal_strlit("line");
    reveal_strlit("ogger");
    lemma_word_then("line"@, r);
    lemma_no_colour_word(c, 1);
    lemma_at(c, 2, "ine"@);
    lemma_not_at(c, 2, "ogger"@, 0);
    lemma_not_at(c, 2, "evel"@, 0);
}

proof fn lemma_word_logger(r: Seq<char>)
    requires
        r.len() == 0 || ends_word(r[0]),
    ensures
        keyword_spec('l', word_then("logger"@, r), 2) == KwOut::Found(Keyword::Logger, None::<Seq<char>>, 5, false),
{
    let c = word_then("logger"@, r);
    reveal_strlit("evel");
    reveal_strlit("ine");
    reveal_strlit("logger");
    reveal_strlit("ogger");
    lemma_word_then("logger"@, r);
    lemma_no_colour_word(c, 1);
    lemma_not_at(c, 2, "ine"@, 0);
    lemma_at(c, 2, "ogger"@);
    lemma_not_at(c, 2, "evel"@, 0);
}

proof fn lemma_word_thread(r: Seq<char>)
    requires
        r.len() == 0 || ends_word(r[0]),
    ensures
        keyword_spec('t', word_then("thread"@, r), 2) == KwOut::Found(Keyword::Thread, None::<Seq<char>>, 5, false),
{
    let c = word_then("thread"@, r);
    reveal_strlit("hread");
    reveal_strlit("thread");
    lemma_word_then("thread"@, r);
    lemma_no_colour_word(c, 1);
    lemma_at(c, 2, "hread"@);
}

proof fn lemma_word_file(r: Seq<char>)
    requires
        r.len() == 0 || ends_word(r[0]),
    ensures
        keyword_spec('f', word_then("file"@, r), 2) == KwOut::Found(Keyword::File, None::<Seq<char>>, 3, false),
{
    let c = word_then("file"@, r);
    reveal_strlit("file");
    reveal_strlit("ile");
    lemma_word_then("file"@, r);
    lemma_no_colour_word(c, 1);
    lemma_at(c, 2, "ile"@);
}

proof fn lemma_word_pid(r: Seq<char>)
    requires
        r.len() == 0 || ends_word(r[0]),
    ensures
        keyword_spec('p', word_then("pid"@, r), 2) == KwOut::Found(Keyword::Pid, None::<Seq<char>>, 2, false),
{
    let c = word_then("pid"@, r);
    reveal_strlit("id");
    reveal_strlit("pid");
    lemma_word_then("pid"@, r);
    lemma_no_colour_word(c, 1);
    lemma_at(c, 2, "id"@);
}

proof fn lemma_word_msg(r: Seq<char>)
    requires
        r.len() == 0 || ends_word(r[0]),
    ensures
        keyword_spec('m', word_then("msg"@, r), 2) == KwOut::Found(Keyword::Message, None::<Seq<char>>, 2, false),
{
    let c = word_then("msg"@, r);
    reveal_strlit("arker");
    reveal_strlit("msg");
    reveal_strlit("sg");
    lemma_word_then("msg"@, r);
    lemma_no_colour_word(c, 1);
    lemma_not_at(c, 2, "arker"@, 0);
    lemma_at(c, 2, "sg"@);
}

proof fn lemma_word_marker(r: Seq<char>)
    requires
        r.len() == 0 || ends_word(r[0]),
    ensures
        keyword_spec('m', word_then("marker"@, r), 2) == KwOut::Found(Keyword::Marker, None::<Seq<char>>, 5, false),
{
    let c = word_then("marker"@, r);
    reveal_strlit("arker");
    reveal_strlit("marker");
    reveal_strlit("sg");
    lemma_word_then("marker"@, r);
    lemma_no_colour_word(c, 1);
    lemma_at(c, 2, "arker"@);
    lemma_not_at(c, 2, "sg"@, 0);
}

proof fn lemma_word_relative(r: Seq<char>)
    requires
        r.len() == 0 || ends_word(r[0]),
    ensures
        keyword_spec('r', word_then("relative"@, r), 2) == KwOut::Found(Keyword::Relative, None::<Seq<char>>, 7, false),
{
    let c = word_then("relative"@, r);
    reveal_strlit("Ex");
    reveal_strlit("elative");
    reveal_strlit("ootException");
    reveal_strlit("relative");
    lemma_word_then("relative"@, r);
    lemma_no_colour_word(c, 1);
    lemma_not_at(c, 2, "Ex"@, 0);
    lemma_not_at(c, 2, "ootException"@, 0);
    lemma_at(c, 2, "elative"@);
}

proof fn lemma_word_class(r: Seq<char>)
    requires
        r.len() == 0 || ends_word(r[0]),
    ensures
        keyword_spec('c', word_then("class"@, r), 2) == KwOut::Found(Keyword::Class, None::<Seq<char>>, 4, false),
{
    let c = word_then("class"@, r);
    reveal_strlit("class");
    reveal_strlit("lass");
    reveal_strlit("lr(");
    lemma_word_then("class"@, r);
    lemma_no_colour_word(c, 1);
    lemma_not_at(c, 2, "lr("@, 1);
    lemma_at(c, 2, "lass"@);
}

proof fn lemma_word_kvp(r: Seq<char>)
    requires
        r.len() == 0 || ends_word(r[0]),
    ensures
        keyword_spec('k', word_then("kvp"@, r), 2) == KwOut::Found(Keyword::Kvp, None::<Seq<char>>, 2, false),
{
    let c = word_then("kvp"@, r);
    reveal_strlit("kvp");
    reveal_strlit("vp");
    lemma_word_then("kvp"@, r);
    lemma_no_colour_word(c, 1);
    lemma_at(c, 2, "vp"@);
}

proof fn lemma_word_ex(r: Seq<char>)
    requires
        r.len() == 0 || ends_word(r[0]),
    ensures
        keyword_spec('e', word_then("ex"@, r), 2) == KwOut::Found(Keyword::Exception, None::<Seq<char>>, 1, false),
{
    let c = word_then("ex"@, r);
    reveal_strlit("ex");
    reveal_strlit("xception");
    lemma_word_then("ex"@, r);
    lemma_no_colour_word(c, 1);
    lemma_not_at(c, 2, "xception"@, 1);
}

proof fn lemma_word_exception(r: Seq<char>)
    requires
        r.len() == 0 || ends_word(r[0]),
    ensures
        keyword_spec('e', word_then("exception"@, r), 2) == KwOut::Found(Keyword::Exception, None::<Seq<char>>, 8, false),
{
    let c = word_then("exception"@, r);
    reveal_strlit("exception");
    reveal_strlit("xception");
    lemma_word_then("exception"@, r);
    lemma_no_colour_word(c, 1);
    lemma_at(c, 2, "xception"@);
}

proof fn lemma_word_r_ex(r: Seq<char>)
    requires
        r.len() == 0 || ends_word(r[0]),
    ensures
        keyword_spec('r', word_then("rEx"@, r), 2) == KwOut::Found(Keyword::RootException, None::<Seq<char>>, 2, false),
{
    let c = word_then("rEx"@, r);
    reveal_strlit("Ex");
    reveal_strlit("elative");
    reveal_strlit("ootException");
    reveal_strlit("rEx");
    lemma_word_then("rEx"@, r);
    lemma_no_colour_word(c, 1);
    lemma_at(c, 2, "Ex"@);
    lemma_not_at(c, 2, "ootException"@, 0);
    lemma_not_at(c, 2, "elative"@, 0);
}

proof fn lemma_word_root_exception(r: Seq<char>)
    requires
        r.len() == 0 || ends_word(r[0]),
    ensures
        keyword_spec('r', word_then("rootException"@, r), 2) == KwOut::Found(Keyword::RootException, None::<Seq<char>>, 12, false),
{
    let c = word_then("rootException"@, r);
    reveal_strlit("Ex");
    reveal_strlit("elative");
    reveal_strlit("ootException");
    reveal_strlit("rootException");
    lemma_word_then("rootException"@, r);
    lemma_no_colour_word(c, 1);
    lemma_not_at(c, 2, "Ex"@, 0);
    lemma_at(c, 2, "ootException"@);
    lemma_not_at(c, 2, "elative"@, 0);
}

proof fn lemma_word_x_ex(r: Seq<char>)
    requires
        r.len() == 0 || ends_word(r[0]),
    ensures
        keyword_spec('x', word_then("xEx"@, r), 2) == KwOut::Found(Keyword::ExtendedException, None::<Seq<char>>, 2, false),
{
    let c = word_then("xEx"@, r);
    reveal_strlit("Ex");
    reveal_strlit("Excepti");
    reveal_strlit("Exceptio");
    reveal_strlit("Throwable");
    reveal_strlit("xEx");
    lemma_word_then("xEx"@, r);
    lemma_no_colour_word(c, 1);
    lemma_not_at(c, 2, "Excepti"@, 2);
    lemma_not_at(c, 2, "Exceptio"@, 2);
    lemma_not_at(c, 2, "Throwable"@, 0);
    lemma_at(c, 2, "Ex"@);
}

proof fn lemma_word_x_exception(r: Seq<char>)
    requires
        r.len() == 0 || ends_word(r[0]),
    ensures
        keyword_spec('x', word_then("xException"@, r), 2) == KwOut::Found(Keyword::ExtendedException, None::<Seq<char>>, 9, false),
{
    let c = word_then("xException"@, r);
    reveal_strlit("Ex");
    reveal_strlit("Excepti");
    reveal_strlit("Exceptio");
    reveal_strlit("Throwable");
    reveal_strlit("xException");
    lemma_word_then("xException"@, r);
    lemma_no_colour_word(c, 1);
    lemma_at(c, 2, "Excepti"@);
    lemma_at(c, 2, "Exceptio"@);
    lemma_not_at(c, 2, "Throwable"@, 0);
    lemma_at(c, 2, "Ex"@);
}

proof fn lemma_word_x_throwable(r: Seq<char>)
    requires
        r.len() == 0 || ends_word(r[0]),
    ensures
        keyword_spec('x', word_then("xThrowable"@, r), 2) == KwOut::Found(Keyword::ExtendedException, None::<Seq<char>>, 9, false),
{
    let c = word_then("xThrowable"@, r);
    reveal_strlit("Ex");
    reveal_strlit("Excepti");
    reveal_strlit("Exceptio");
    reveal_strlit("Throwable");
    reveal_strlit("xThrowable");
    lemma_word_then("xThrowable"@, r);
    lemma_no_colour_word(c, 1);
    lemma_not_at(c, 2, "Excepti"@, 0);
    lemma_not_at(c, 2, "Exceptio"@, 0);
    lemma_at(c, 2, "Throwable"@);
    lemma_not_at(c, 2, "Ex"@, 0);
}

proof fn lemma_word_nopex(r: Seq<char>)
    requires
        r.len() == 0 || ends_word(r[0]),
    ensures
        keyword_spec('n', word_then("nopex"@, r), 2) == KwOut::Found(Keyword::NopException, None::<Seq<char>>, 4, false),
{
    let c = word_then("nopex"@, r);
    reveal_strlit("nopex");
    reveal_strlit("opex");
    reveal_strlit("opexception");
    lemma_word_then("nopex"@, r);
    lemma_no_colour_word(c, 1);
    lemma_not_at(c, 2, "opexception"@, 4);
    lemma_at(c, 2, "opex"@);
}

proof fn lemma_word_nopexception(r: Seq<char>)
    requires
        r.len() == 0 || ends_word(r[0]),
    ensures
        keyword_spec('n', word_then("nopexception"@, r), 2) == KwOut::Found(Keyword::NopException, None::<Seq<char>>, 11, false),
{
    let c = word_then("nopexception"@, r);
    reveal_strlit("nopexception");
    reveal_strlit("opex");
    reveal_strlit("opexception");
    lemma_word_then("nopexception"@, r);
    lemma_no_colour_word(c, 1);
    lemma_at(c, 2, "opexception"@);
    lemma_at(c, 2, "opex"@);
}

/// Each conversion word, followed by nothing or by a character that cannot
/// continue it (not an ASCII letter or digit, not `{`), is recognised as
/// its keyword, without option, consuming exactly its letters after the
/// first: the text after the word is left whole.
pub proof fn law_conversion_words(r: Seq<char>)
    requires
        r.len() == 0 || ends_word(r[0]),
    ensures
        keyword_spec('l', word_then("level"@, r), 2) == KwOut::Found(Keyword::Level, None::<Seq<char>>, 4, false),
        keyword_spec('l', word_then("line"@, r), 2) == KwOut::Found(Keyword::Line, None::<Seq<char>>, 3, false),
        keyword_spec('l', word_then("logger"@, r), 2) == KwOut::Found(Keyword::Logger, None::<Seq<char>>, 5, false),
        keyword_spec('t', word_then("thread"@, r), 2) == KwOut::Found(Keyword::Thread, None::<Seq<char>>, 5, false),
        keyword_spec('f', word_then("file"@, r), 2) == KwOut::Found(Keyword::File, None::<Seq<char>>, 3, false),
        keyword_spec('p', word_then("pid"@, r), 2) == KwOut::Found(Keyword::Pid, None::<Seq<char>>, 2, false),
        keyword_spec('m', word_then("msg"@, r), 2) == KwOut::Found(Keyword::Message, None::<Seq<char>>, 2, false),
        keyword_spec('m', word_then("marker"@, r), 2) == KwOut::Found(Keyword::Marker, None::<Seq<char>>, 5, false),
        keyword_spec('r', word_then("relative"@, r), 2) == KwOut::Found(Keyword::Relative, None::<Seq<char>>, 7, false),
        keyword_spec('c', word_then("class"@, r), 2) == KwOut::Found(Keyword::Class, None::<Seq<char>>, 4, false),
        keyword_spec('k', word_then("kvp"@, r), 2) == KwOut::Found(Keyword::Kvp, None::<Seq<char>>, 2, false),
        keyword_spec('e', word_then("ex"@, r), 2) == KwOut::Found(Keyword::Exception, None::<Seq<char>>, 1, false),
        keyword_spec('e', word_then("exception"@, r), 2) == KwOut::Found(Keyword::Exception, None::<Seq<char>>, 8, false),
        keyword_spec('r', word_then("rEx"@, r), 2) == KwOut::Found(Keyword::RootException, None::<Seq<char>>, 2, false),
        keyword_spec('r', word_then("rootException"@, r), 2) == KwOut::Found(Keyword::RootException, None::<Seq<char>>, 12, false),
        keyword_spec('x', word_then("xEx"@, r), 2) == KwOut::Found(Keyword::ExtendedException, None::<Seq<char>>, 2, false),
        keyword_spec('x', word_then("xException"@, r), 2) == KwOut::Found(Keyword::ExtendedException, None::<Seq<char>>, 9, false),
        keyword_spec('x', word_then("xThrowable"@, r), 2) == KwOut::Found(Keyword::ExtendedException, None::<Seq<char>>, 9, false),
        keyword_spec('n', word_then("nopex"@, r), 2) == KwOut::Found(Keyword::NopException, None::<Seq<char>>, 4, false),
        keyword_spec('n', word_then("nopexception"@, r), 2) == KwOut::Found(Keyword::NopException, None::<Seq<char>>, 11, false),
{
    lemma_word_level(r);
    lemma_word_line(r);
    lemma_word_logger(r);
    lemma_word_thread(r);
    lemma_word_file(r);
    lemma_word_pid(r);
    lemma_word_msg(r);
    lemma_word_marker(r);
    lemma_word_relative(r);
    lemma_word_class(r);
    lemma_word_kvp(r);
    lemma_word_ex(r);
    lemma_word_exception(r);
    lemma_word_r_ex(r);
    lemma_word_root_exception(r);
    lemma_word_x_ex(r);
    lemma_word_x_exception(r);
    lemma_word_x_throwable(r);
    lemma_word_nopex(r);
    lemma_word_nopexception(r);
}

proof fn lemma_digit_run_is(c: Seq<char>, i: int, k: int)
    requires
        0 <= i,
        0 <= k,
        i + k <= c.len(),
        forall|j: int| i <= j < i + k ==> is_digit(#[trigger] c[j]),
        i + k < c.len() ==> !is_digit(c[i + k]),
    ensures
        digit_run(c, i) == k,
    decreases k,
{
    if k > 0 {
        lemma_digit_run_is(c, i + 1, k - 1);
    }
}

/// The modifier text `[-]a.b`: an optional `-`, the digits `a`, `.` and the
/// digits `b`.
pub open spec fn modifier_text(left: bool, a: Seq<char>, b: Seq<char>) -> Seq<char> {
    (if left { seq!['-'] } else { Seq::<char>::empty() }) + a + seq!['.'] + b
}

/// A format modifier `[-]a.b` whose `a` and `b` are runs of digits, followed
/// by text that does not start with a digit, sets the minimum width to the
/// number `a` spells and the maximum width to the number `b` spells, aligns
/// left exactly where `-` is present, and takes all of its characters.
pub proof fn law_modifier_widths(left: bool, a: Seq<char>, b: Seq<char>, rest: Seq<char>)
    requires
        a.len() > 0 && all_digits(a),
        b.len() > 0 && all_digits(b),
        digits_value(a) <= usize::MAX,
        digits_value(b) <= usize::MAX,
        rest.len() == 0 || !is_digit(rest[0]),
    ensures
        modifier_spec(modifier_text(left, a, b) + rest, 0) == (
            Some(FormatModifier {
                left_align: left,
                min_width: Some(digits_value(a) as usize),
                max_width: Some(digits_value(b) as usize),
                max_from_end: false,
            }),
            modifier_text(left, a, b).len(),
        ),
{
    let lead: int = if left { 1 } else { 0 };
    let m = modifier_text(left, a, b);
    let c = m + rest;
    assert(m.len() == lead + a.len() + 1 + b.len());
    assert forall|j: int| 0 <= j < a.len() implies c[lead + j] == a[j] by {}
    assert(c[lead + a.len()] == '.');
    assert forall|j: int| 0 <= j < b.len() implies c[lead + a.len() + 1 + j] == b[j] by {}
    if left {
        assert(c[0] == '-');
    }
    assert(is_digit(a[0]));
    assert(c[lead] == a[0]);
    lemma_digit_run_is(c, lead, a.len() as int);
    if lead + a.len() + 1 + b.len() < c.len() {
        assert(c[lead + a.len() + 1 + b.len()] == rest[0]);
    }
    lemma_digit_run_is(c, lead + a.len() + 1, b.len() as int);
    assert(c.subrange(lead, lead + a.len()) =~= a);
    assert(c.subrange(lead + a.len() + 1, lead + a.len() + 1 + b.len()) =~= b);
    if a[0] == '+' {
        assert(false);
    }
    if b[0] == '+' {
        assert(false);
    }
}

/// A format modifier `[-]a` whose `a` is a run of digits, followed by text
/// that starts with neither a digit nor `.`, sets the minimum width to the
/// number `a` spells and no maximum width.
pub proof fn law_modifier_min_width(left: bool, a: Seq<char>, rest: Seq<char>)
    requires
        a.len() > 0 && all_digits(a),
        digits_value(a) <= usize::MAX,
        rest.len() == 0 || (!is_digit(rest[0]) && rest[0] != '.'),
    ensures
        modifier_spec((if left { seq!['-'] } else { Seq::<char>::empty() }) + a + rest, 0) == (
            Some(FormatModifier {
                left_align: left,
                min_width: Some(digits_value(a) as usize),
                max_width: None,
                max_from_end: false,
            }),
            (if left { 1nat } else { 0nat }) + a.len(),
        ),
{
    let lead: int = if left { 1 } else { 0 };
    let c = (if left { seq!['-'] } else { Seq::<char>::empty() }) + a + rest;
    assert forall|j: int| 0 <= j < a.len() implies c[lead + j] == a[j] by {}
    if left {
        assert(c[0] == '-');
    }
    assert(c[lead] == a[0]);
    if lead + a.len() < c.len() {
        assert(c[lead + a.len()] == rest[0]);
    }
    lemma_digit_run_is(c, lead, a.len() as int);
    assert(c.subrange(lead, lead + a.len()) =~= a);
    if a[0] == '+' {
        assert(false);
    }
}

/// The token of a conversion step carries the format modifier read right
/// after its `%`: a modifier is never dropped or changed on its way into
/// the token.
pub proof fn law_conversion_carries_modifier(c: Seq<char>, i: int)
    requires
        0 <= i < c.len(),
        step_spec(c, i) matches Step::Emit(SToken::Conversion { .. }, _),
    ensures
        step_spec(c, i) matches Step::Emit(SToken::Conversion { modifier, .. }, _)
            && modifier == modifier_spec(c, i + 1).0,
{
}

/// A pattern that is `%` and a conversion word recognised with no option
/// and not composite, consuming all of the word's letters after the first,
/// scans to that one conversion token, with no modifier.
pub proof fn law_single_word_pattern(w: Seq<char>, k: Keyword)
    requires
        w.len() >= 1,
        ('a' <= w[0] && w[0] <= 'z') || ('A' <= w[0] && w[0] <= 'Z'),
        w[0] == 'n' ==> w.len() >= 2 && (w[1] == 'o' || w[1] == 'e'),
        keyword_spec(w[0], word_then(w, Seq::<char>::empty()), 2)
            == KwOut::Found(k, None::<Seq<char>>, (w.len() - 1) as nat, false),
    ensures
        scan_spec(word_then(w, Seq::<char>::empty())) == SScan::Tokens(
            seq![SToken::Conversion { modifier: None, keyword: k, option: None, sub_pattern: None }],
        ),
{
    let e = Seq::<char>::empty();
    let c = word_then(w, e);
    lemma_word_then(w, e);
    let n = c.len();
    assert(c[1] == w[0]);
    if w.len() >= 2 {
        assert(c[2] == w[1]);
    }
    assert(modifier_spec(c, 1) == (None::<FormatModifier>, 0nat));
    let t = SToken::Conversion { modifier: None, keyword: k, option: None, sub_pattern: None };
    assert(post_option(c, n as int, None) == (None::<Seq<char>>, n as int));
    assert(conv_spec(c, None, 2) == Step::Emit(t, n as int));
    assert(step_spec(c, 0) == Step::Emit(t, n as int));
}

} // verus!
