//! Rendering of a parsed log4j pattern against the data of one event.

use vstd::prelude::*;
use crate::level::level_name;
use crate::span_fields::pairs_view;
use crate::text::{
    char_utf8_len, lemma_chars_within_bound, utf8_len,
    chars_of, chars_within, char_len_utf8, decimal, parse_usize, parse_usize_spec, push_all,
    push_str, string_of, u128_to_decimal,
};
use crate::formatter::logback::align::{modifier_apply, modifier_cuts_char};
use crate::formatter::logback::color::{Color, colored, level_color, level_color_spec};
use crate::formatter::logback::date::{chrono_format, convert_pattern, convert_spec};
use crate::formatter::logback::lexer::{SScan, opt_view};
use crate::formatter::logback::renderer::{
    EventContext, EventData, TimestampCache, clr_spec, colored_write, default_date_format,
    exception_spec, exception_write, is_measurable, measurable, mdc_spec, mdc_write,
    opt_str, opt_string_view, opt_write, or_empty, strings_view,
};
use super::abbreviator::{abbreviate_spec, abbreviate_to_writer};
use super::lexer::{EscapeMode, Keyword, SToken, Token, lemma_toks_view_push, tok_view, toks_view};
use super::lexer::{law_single_word_pattern4, law_single_words4, law_thread_pattern, scan4_spec};
use crate::formatter::logback::lexer::word_then;

verus! {

broadcast use vstd::seq_lib::group_seq_properties;

// ---------------------------------------------------------------------------
// Escaping and truncation.

/// HTML / XML escape of one character.
pub open spec fn html_char(c: char) -> Seq<char> {
    if c == '&' {
        "&amp;"@
    } else if c == '<' {
        "&lt;"@
    } else if c == '>' {
        "&gt;"@
    } else if c == '"' {
        "&quot;"@
    } else if c == '\'' {
        "&#39;"@
    } else {
        seq![c]
    }
}

/// Lower-case hexadecimal digit of `d < 16`.
pub open spec fn hex_digit(d: nat) -> char {
    if d < 10 { (('0' as nat) + d) as char } else { (('a' as nat) + (d - 10)) as char }
}

/// JSON string escape of one character; other control characters become
/// `\u00XX` with lower-case hex digits.
pub open spec fn json_char(c: char) -> Seq<char> {
    if c == '"' {
        "\\\""@
    } else if c == '\\' {
        "\\\\"@
    } else if c == '\n' {
        "\\n"@
    } else if c == '\r' {
        "\\r"@
    } else if c == '\t' {
        "\\t"@
    } else if c == '\x08' {
        "\\b"@
    } else if c == '\x0c' {
        "\\f"@
    } else if (c as u32) < 0x20 {
        seq!['\\', 'u', '0', '0', hex_digit((c as nat) / 16), hex_digit((c as nat) % 16)]
    } else {
        seq![c]
    }
}

/// CR / LF escape of one character.
pub open spec fn crlf_char(c: char) -> Seq<char> {
    if c == '\r' {
        "\\r"@
    } else if c == '\n' {
        "\\n"@
    } else {
        seq![c]
    }
}

/// Escape of one character in `mode`.
pub open spec fn escape_char(c: char, mode: EscapeMode) -> Seq<char> {
    match mode {
        EscapeMode::Plain => seq![c],
        EscapeMode::Html | EscapeMode::Xml => html_char(c),
        EscapeMode::Json => json_char(c),
        EscapeMode::Crlf => crlf_char(c),
    }
}

/// Each character of `s` escaped in `mode`.
pub open spec fn escape_spec(s: Seq<char>, mode: EscapeMode) -> Seq<char>
    decreases s.len(),
{
    if s.len() == 0 {
        Seq::<char>::empty()
    } else {
        escape_spec(s.drop_last(), mode) + escape_char(s.last(), mode)
    }
}

/// The longest prefix of `s` whose UTF-8 encoding fits in `n` bytes.
pub open spec fn truncate_spec(s: Seq<char>, n: nat) -> Seq<char> {
    s.take(chars_within(s, n as int) as int)
}

/// `d < 16` as a lower-case hexadecimal digit.
fn hex_digit_of(d: u32) -> (c: char)
    requires
        d < 16,
    ensures
        c == hex_digit(d as nat),
{
    if d < 10 {
        let c = ((('0' as u32) + d) as u8) as char;
        c
    } else {
        let c = ((('a' as u32) + (d - 10)) as u8) as char;
        c
    }
}

/// Appends the escape of `c` in `mode`.
fn escape_char_write(c: char, mode: EscapeMode, out: &mut Vec<char>)
    ensures
        final(out)@ == old(out)@ + escape_char(c, mode),
{
    let ghost o = out@;
    match mode {
        EscapeMode::Plain => out.push(c),
        EscapeMode::Html | EscapeMode::Xml => {
            if c == '&' {
                push_str(out, "&amp;");
            } else if c == '<' {
                push_str(out, "&lt;");
            } else if c == '>' {
                push_str(out, "&gt;");
            } else if c == '"' {
                push_str(out, "&quot;");
            } else if c == '\'' {
                push_str(out, "&#39;");
            } else {
                out.push(c);
            }
        },
        EscapeMode::Json => {
            if c == '"' {
                push_str(out, "\\\"");
            } else if c == '\\' {
                push_str(out, "\\\\");
            } else if c == '\n' {
                push_str(out, "\\n");
            } else if c == '\r' {
                push_str(out, "\\r");
            } else if c == '\t' {
                push_str(out, "\\t");
            } else if c == '\x08' {
                push_str(out, "\\b");
            } else if c == '\x0c' {
                push_str(out, "\\f");
            } else if (c as u32) < 0x20 {
                let v = c as u32;
                out.push('\\');
                out.push('u');
                out.push('0');
                out.push('0');
                out.push(hex_digit_of(v / 16));
                out.push(hex_digit_of(v % 16));
            } else {
                out.push(c);
            }
        },
        EscapeMode::Crlf => {
            if c == '\r' {
                push_str(out, "\\r");
            } else if c == '\n' {
                push_str(out, "\\n");
            } else {
                out.push(c);
            }
        },
    }
    assert(out@ =~= o + escape_char(c, mode));
}

/// Appends `s` escaped in `mode`.
fn escape_chars_write(s: &[char], mode: EscapeMode, out: &mut Vec<char>)
    ensures
        final(out)@ == old(out)@ + escape_spec(s@, mode),
{
    let ghost o = out@;
    let mut i: usize = 0;
    while i < s.len()
        invariant
            0 <= i <= s@.len(),
            out@ == o + escape_spec(s@.take(i as int), mode),
        decreases s@.len() - i,
    {
        assert(s@.take(i + 1).drop_last() =~= s@.take(i as int));
        escape_char_write(s[i], mode, out);
        assert(out@ =~= o + escape_spec(s@.take(i + 1), mode));
        i = i + 1;
    }
    assert(s@.take(s@.len() as int) =~= s@);
}

/// `input` escaped in `mode`.
pub fn escape(input: &str, mode: EscapeMode) -> (r: String)
    ensures
        r@ == escape_spec(input@, mode),
{
    let c = chars_of(input);
    let mut out: Vec<char> = Vec::new();
    escape_chars_write(c.as_slice(), mode, &mut out);
    assert(Seq::<char>::empty() + escape_spec(input@, mode) =~= escape_spec(input@, mode));
    string_of(out.as_slice())
}

/// `s` with HTML special characters replaced by entities.
pub fn html_escape(s: &str) -> (r: String)
    ensures
        r@ == escape_spec(s@, EscapeMode::Html),
{
    escape(s, EscapeMode::Html)
}

/// `s` escaped for a JSON string.
pub fn json_escape(s: &str) -> (r: String)
    ensures
        r@ == escape_spec(s@, EscapeMode::Json),
{
    escape(s, EscapeMode::Json)
}

/// Appends the longest prefix of `s` whose UTF-8 encoding fits in `n` bytes.
fn truncate_chars_write(s: &[char], n: usize, out: &mut Vec<char>)
    ensures
        final(out)@ == old(out)@ + truncate_spec(s@, n as nat),
{
    let ghost o = out@;
    let mut i: usize = 0;
    let mut len: usize = 0;
    let mut full: bool = false;
    while i < s.len() && !full
        invariant
            0 <= i <= s@.len(),
            len <= n,
            full ==> chars_within(s@.skip(i as int), n - len) == 0,
            chars_within(s@, n as int) == i + chars_within(s@.skip(i as int), n - len),
            out@ == o + s@.take(i as int),
        decreases s@.len() - i + (if full { 0int } else { 1int }),
    {
        let cl = char_len_utf8(s[i]);
        assert(s@.skip(i as int)[0] == s@[i as int]);
        assert(s@.skip(i as int).drop_first() =~= s@.skip(i + 1));
        if cl > n - len {
            full = true;
        } else {
            out.push(s[i]);
            assert(out@ =~= o + s@.take(i + 1));
            len = len + cl;
            i = i + 1;
        }
    }
    assert(out@ =~= o + truncate_spec(s@, n as nat));
}

/// The longest prefix of `s` whose UTF-8 encoding fits in `n` bytes.
pub fn truncate(s: &str, n: usize) -> (r: String)
    ensures
        r@ == truncate_spec(s@, n as nat),
{
    let c = chars_of(s);
    let mut out: Vec<char> = Vec::new();
    truncate_chars_write(c.as_slice(), n, &mut out);
    assert(Seq::<char>::empty() + truncate_spec(s@, n as nat) =~= truncate_spec(s@, n as nat));
    string_of(out.as_slice())
}

// ---------------------------------------------------------------------------
// Conversion words and tokens.

/// `s` without its trailing dots.
pub open spec fn trim_end_dots(s: Seq<char>) -> Seq<char>
    decreases s.len(),
{
    if s.len() > 0 && s.last() == '.' { trim_end_dots(s.drop_last()) } else { s }
}

/// The depth given by a `%c{n}` / `%c{n.}` option, 0 by default.
pub open spec fn logger_depth(opt: Option<Seq<char>>) -> usize {
    match opt {
        Some(o) => match parse_usize_spec(trim_end_dots(o)) {
            Some(n) => n,
            None => 0,
        },
        None => 0,
    }
}

/// The text of conversion word `kw` with option `option` and rendered
/// sub-pattern `inner`; `None` where chrono cannot format a `%d`.
pub open spec fn keyword_text(
    pid: Seq<char>,
    ev: EventContext,
    data: EventData,
    kw: Keyword,
    option: Option<Seq<char>>,
    inner: Seq<char>,
) -> Option<Seq<char>> {
    match kw {
        Keyword::Date => chrono_format(
            ev.now.millis as int,
            ev.now.offset_secs as int,
            match option { Some(o) => o, None => default_date_format() },
        ),
        Keyword::Level => Some(level_name(ev.level)),
        Keyword::Thread => Some(ev.thread_name@),
        Keyword::Logger | Keyword::Class => {
            let d = logger_depth(option);
            Some(if d == 0 { ev.target@ } else { abbreviate_spec(ev.target@, d as nat) })
        },
        Keyword::Message => Some(data.message@),
        Keyword::Line => Some(match ev.line { Some(l) => decimal(l as nat), None => Seq::<char>::empty() }),
        Keyword::File => Some(or_empty(opt_string_view(ev.file))),
        Keyword::Method | Keyword::Ndc => Some(match ev.span { Some(sp) => sp.name@, None => Seq::<char>::empty() }),
        Keyword::Mdc => Some(mdc_spec(ev, data, option)),
        Keyword::Pid => Some(pid),
        Keyword::Throwable => Some(exception_spec(strings_view(data.error_chain@), option, false)),
        Keyword::RootException => Some(exception_spec(strings_view(data.error_chain@), option, true)),
        Keyword::NopException => Some(Seq::<char>::empty()),
        Keyword::Highlight => Some(
            colored(level_color_spec(ev.level), if inner.len() == 0 { level_name(ev.level) } else { inner }),
        ),
        Keyword::Clr => Some(clr_spec(inner, option)),
        Keyword::ColorWord(c) => Some(if inner.len() == 0 { Seq::<char>::empty() } else { colored(c, inner) }),
        Keyword::Enc(mode) => Some(escape_spec(inner, mode)),
        Keyword::MaxLen(n) => Some(truncate_spec(inner, n as nat)),
        Keyword::Percent => Some(seq!['%']),
    }
}

/// The text of a token; `None` where rendering it panics.
pub open spec fn render_token(pid: Seq<char>, ev: EventContext, data: EventData, t: SToken) -> Option<Seq<char>>
    decreases t,
{
    match t {
        SToken::Literal(s) => Some(s),
        SToken::Newline => Some(seq!['\n']),
        SToken::Percent => Some(seq!['%']),
        SToken::Conversion { modifier, keyword, option, sub_pattern } => {
            let inner = match sub_pattern {
                Some(sub) => render_tokens(pid, ev, data, sub),
                None => Some(Seq::<char>::empty()),
            };
            match inner {
                None => None,
                Some(i) => match keyword_text(pid, ev, data, keyword, option, i) {
                    None => None,
                    Some(k) => match modifier {
                        None => Some(k),
                        Some(m) => if !measurable(k) || modifier_cuts_char(m, k) {
                            None
                        } else {
                            Some(modifier_apply(m, k))
                        },
                    },
                },
            }
        },
    }
}

/// The texts of `toks`, concatenated; `None` where rendering one of them panics.
pub open spec fn render_tokens(pid: Seq<char>, ev: EventContext, data: EventData, toks: Seq<SToken>) -> Option<Seq<char>>
    decreases toks,
{
    if toks.len() == 0 {
        Some(Seq::<char>::empty())
    } else {
        match render_tokens(pid, ev, data, toks.drop_last()) {
            None => None,
            Some(a) => match render_token(pid, ev, data, toks.last()) {
                None => None,
                Some(b) => Some(a + b),
            },
        }
    }
}

/// `k` names an exception conversion (only `%nopex` where `nop_only`).
pub open spec fn exception_keyword(k: Keyword, nop_only: bool) -> bool {
    if nop_only {
        k is NopException
    } else {
        k is Throwable || k is RootException || k is NopException
    }
}

/// Some conversion of `t`, or of its sub-pattern, is an exception keyword.
pub open spec fn token_mentions(t: SToken, nop_only: bool) -> bool
    decreases t,
{
    match t {
        SToken::Conversion { keyword, sub_pattern, .. } => exception_keyword(keyword, nop_only) || match sub_pattern {
            Some(sub) => tokens_mention(sub, nop_only),
            None => false,
        },
        _ => false,
    }
}

/// Some token of `toks` mentions an exception keyword.
pub open spec fn tokens_mention(toks: Seq<SToken>, nop_only: bool) -> bool
    decreases toks,
{
    if toks.len() == 0 {
        false
    } else {
        tokens_mention(toks.drop_last(), nop_only) || token_mentions(toks.last(), nop_only)
    }
}

/// The token with each `%d` option turned into a chrono pattern.
pub open spec fn preprocess_token(t: SToken) -> SToken
    decreases t,
{
    match t {
        SToken::Conversion { modifier, keyword, option, sub_pattern } => SToken::Conversion {
            modifier,
            keyword,
            option: if keyword is Date {
                match option {
                    Some(o) => Some(convert_spec(o)),
                    None => None,
                }
            } else {
                option
            },
            sub_pattern: match sub_pattern {
                Some(sub) => Some(preprocess_tokens(sub)),
                None => None,
            },
        },
        _ => t,
    }
}

/// Each token preprocessed.
pub open spec fn preprocess_tokens(toks: Seq<SToken>) -> Seq<SToken>
    decreases toks,
{
    if toks.len() == 0 {
        toks
    } else {
        preprocess_tokens(toks.drop_last()).push(preprocess_token(toks.last()))
    }
}

/// Log4j pattern formatter: renders an event with parsed pattern tokens.
pub struct Log4jFormatter {
    tokens: Vec<Token>,
    has_exception: bool,
    has_nopex: bool,
    pid: String,
}

/// The text of the whole event; `None` where rendering panics. An error
/// chain is appended when the pattern has no exception conversion.
pub open spec fn format_spec(f: Log4jFormatter, ev: EventContext, data: EventData) -> Option<Seq<char>> {
    match render_tokens(f.pid_model(), ev, data, f.tokens_model()) {
        Some(body) => Some(
            if !f.has_exception_model() && !f.has_nopex_model() && data.error_chain@.len() > 0 {
                body + seq!['\n'] + exception_spec(strings_view(data.error_chain@), None, false)
            } else {
                body
            },
        ),
        None => None,
    }
}

/// `f` was built from the tokens `toks` and the process id `pid`: its tokens
/// are `toks` preprocessed, and it knows whether they mention exception
/// conversions.
pub open spec fn built_from(f: Log4jFormatter, toks: Seq<SToken>, pid: u32) -> bool {
    &&& f.tokens_model() == preprocess_tokens(toks)
    &&& f.has_exception_model() == tokens_mention(f.tokens_model(), false)
    &&& f.has_nopex_model() == tokens_mention(f.tokens_model(), true)
    &&& f.pid_model() == decimal(pid as nat)
}

impl Log4jFormatter {
    /// The formatter's tokens.
    pub closed spec fn tokens_model(&self) -> Seq<SToken> {
        toks_view(self.tokens@)
    }

    /// Whether the pattern has an exception conversion.
    pub closed spec fn has_exception_model(&self) -> bool {
        self.has_exception
    }

    /// Whether the pattern has `%nopex`.
    pub closed spec fn has_nopex_model(&self) -> bool {
        self.has_nopex
    }

    /// The process id, in decimal.
    pub closed spec fn pid_model(&self) -> Seq<char> {
        self.pid@
    }
}

/// `s` without its trailing dots.
fn trim_end_dots_exec(s: &[char]) -> (r: Vec<char>)
    ensures
        r@ == trim_end_dots(s@),
{
    let mut n: usize = s.len();
    while n > 0 && s[n - 1] == '.'
        invariant
            n <= s@.len(),
            trim_end_dots(s@) == trim_end_dots(s@.take(n as int)),
        decreases n,
    {
        assert(s@.take(n as int).drop_last() =~= s@.take(n - 1));
        n = n - 1;
    }
    assert(s@.take(n as int) =~= s@.subrange(0, n as int));
    crate::text::slice_chars(s, 0, n)
}

/// The text of conversion word `kw`; `None` where chrono cannot format a `%d`.
#[verifier::spinoff_prover]
fn keyword_chars(
    pid: &str,
    ev: &EventContext,
    data: &EventData,
    kw: Keyword,
    option: &Option<String>,
    inner: &[char],
    cache: &mut TimestampCache,
) -> (r: Option<Vec<char>>)
    ensures
        opt_view(r) == keyword_text(pid@, *ev, *data, kw, opt_string_view(*option), inner@),
{
    let ghost opt = opt_string_view(*option);
    let mut out: Vec<char> = Vec::new();
    match kw {
        Keyword::Date => {
            let fmt: &str = match option {
                Some(o) => o.as_str(),
                None => "%Y-%m-%d %H:%M:%S%.3f",
            };
            return match cache.get(ev.now, fmt) {
                Some(s) => Some(chars_of(s.as_str())),
                None => None,
            };
        },
        Keyword::Level => push_str(&mut out, ev.level.as_str()),
        Keyword::Thread => push_str(&mut out, ev.thread_name.as_str()),
        Keyword::Logger | Keyword::Class => {
            let depth: usize = match option {
                Some(o) => {
                    let oc = chars_of(o.as_str());
                    let t = trim_end_dots_exec(oc.as_slice());
                    match parse_usize(t.as_slice()) {
                        Some(n) => n,
                        None => 0,
                    }
                },
                None => 0,
            };
            assert(depth == logger_depth(opt));
            if depth == 0 {
                push_str(&mut out, ev.target.as_str());
            } else {
                let mut w = String::new();
                let _ = abbreviate_to_writer(ev.target.as_str(), depth, &mut w);
                push_str(&mut out, w.as_str());
            }
        },
        Keyword::Message => push_str(&mut out, data.message.as_str()),
        Keyword::Line => {
            if let Some(l) = ev.line {
                return Some(u128_to_decimal(l as u128));
            }
        },
        Keyword::File => opt_write(&ev.file, &mut out),
        Keyword::Method | Keyword::Ndc => {
            if let Some(sp) = &ev.span {
                push_str(&mut out, sp.name.as_str());
            }
        },
        Keyword::Mdc => mdc_write(ev, data, opt_str(option), &mut out),
        Keyword::Pid => push_str(&mut out, pid),
        Keyword::Throwable => exception_write(data, opt_str(option), false, &mut out),
        Keyword::RootException => exception_write(data, opt_str(option), true, &mut out),
        Keyword::NopException => {},
        Keyword::Highlight => {
            let c = level_color(&ev.level);
            if inner.len() == 0 {
                let name = chars_of(ev.level.as_str());
                colored_write(c, name.as_slice(), &mut out);
            } else {
                colored_write(c, inner, &mut out);
            }
        },
        Keyword::Clr => {
            if inner.len() > 0 {
                let c = match option {
                    Some(o) => match Color::parse(o.as_str()) {
                        Some(c) => c,
                        None => Color::White,
                    },
                    None => Color::White,
                };
                colored_write(c, inner, &mut out);
            }
        },
        Keyword::ColorWord(c) => {
            if inner.len() > 0 {
                colored_write(c, inner, &mut out);
            }
        },
        Keyword::Enc(mode) => escape_chars_write(inner, mode, &mut out),
        Keyword::MaxLen(n) => truncate_chars_write(inner, n, &mut out),
        Keyword::Percent => out.push('%'),
    }
    assert(Seq::<char>::empty() + out@ =~= out@);
    Some(out)
}

/// Whether some token of `toks` mentions an exception keyword.
fn scan_mentions(toks: &[Token], nop_only: bool) -> (r: bool)
    ensures
        r == tokens_mention(toks_view(toks@), nop_only),
    decreases toks@,
{
    let mut i: usize = 0;
    while i < toks.len()
        invariant
            0 <= i <= toks@.len(),
            !tokens_mention(toks_view(toks@.take(i as int)), nop_only),
        decreases toks@.len() - i,
    {
        proof {
            assert(toks@.take(i + 1) =~= toks@.take(i as int).push(toks@[i as int]));
            lemma_toks_view_push(toks@.take(i as int), toks@[i as int]);
            assert(toks_view(toks@.take(i + 1)).drop_last() =~= toks_view(toks@.take(i as int)));
        }
        let found = match &toks[i] {
            Token::Conversion { keyword, sub_pattern, .. } => {
                let k = *keyword;
                let direct = if nop_only {
                    match k { Keyword::NopException => true, _ => false }
                } else {
                    match k {
                        Keyword::Throwable | Keyword::RootException | Keyword::NopException => true,
                        _ => false,
                    }
                };
                if direct {
                    true
                } else {
                    match sub_pattern {
                        Some(sub) => {
                            assert(decreases_to!(toks@ => toks@[i as int]));
                            scan_mentions(sub.as_slice(), nop_only)
                        },
                        None => false,
                    }
                }
            },
            _ => false,
        };
        proof {
            let t = tok_view(toks@[i as int]);
            assert(toks_view(toks@.take(i + 1)).last() == t);
            assert(found == token_mentions(t, nop_only));
        }
        if found {
            proof {
                lemma_mentions_prefix(toks@, i as int + 1, nop_only);
            }
            return true;
        }
        i = i + 1;
    }
    assert(toks@.take(toks@.len() as int) =~= toks@);
    false
}

/// A token found in a prefix is found in the whole sequence.
proof fn lemma_mentions_prefix(toks: Seq<Token>, k: int, nop_only: bool)
    requires
        0 <= k <= toks.len(),
        tokens_mention(toks_view(toks.take(k)), nop_only),
    ensures
        tokens_mention(toks_view(toks), nop_only),
    decreases toks.len() - k,
{
    if k < toks.len() {
        assert(toks.take(k + 1) =~= toks.take(k).push(toks[k]));
        lemma_toks_view_push(toks.take(k), toks[k]);
        assert(toks_view(toks.take(k + 1)).drop_last() =~= toks_view(toks.take(k)));
        lemma_mentions_prefix(toks, k + 1, nop_only);
    } else {
        assert(toks.take(k) =~= toks);
    }
}

/// A prefix that fails to render makes the whole sequence fail.
proof fn lemma_render_prefix_none(pid: Seq<char>, ev: EventContext, data: EventData, toks: Seq<Token>, k: int)
    requires
        0 <= k <= toks.len(),
        render_tokens(pid, ev, data, toks_view(toks.take(k))) is None,
    ensures
        render_tokens(pid, ev, data, toks_view(toks)) is None,
    decreases toks.len() - k,
{
    if k < toks.len() {
        assert(toks.take(k + 1) =~= toks.take(k).push(toks[k]));
        lemma_toks_view_push(toks.take(k), toks[k]);
        assert(toks_view(toks.take(k + 1)).drop_last() =~= toks_view(toks.take(k)));
        lemma_render_prefix_none(pid, ev, data, toks, k + 1);
    } else {
        assert(toks.take(k) =~= toks);
    }
}

/// Renders `toks`; `None` where rendering one of them panics.
#[verifier::spinoff_prover]
fn render_seq(
    pid: &str,
    ev: &EventContext,
    data: &EventData,
    toks: &[Token],
    cache: &mut TimestampCache,
) -> (r: Option<Vec<char>>)
    ensures
        opt_view(r) == render_tokens(pid@, *ev, *data, toks_view(toks@)),
    decreases toks@,
{
    let mut out: Vec<char> = Vec::new();
    let mut i: usize = 0;
    proof {
        assert(toks@.take(0) =~= Seq::<Token>::empty());
        assert(toks_view(Seq::<Token>::empty()) =~= Seq::<SToken>::empty());
    }
    while i < toks.len()
        invariant
            0 <= i <= toks@.len(),
            render_tokens(pid@, *ev, *data, toks_view(toks@.take(i as int))) == Some(out@),
        decreases toks@.len() - i,
    {
        proof {
            assert(toks@.take(i + 1) =~= toks@.take(i as int).push(toks@[i as int]));
            lemma_toks_view_push(toks@.take(i as int), toks@[i as int]);
            assert(toks_view(toks@.take(i + 1)).drop_last() =~= toks_view(toks@.take(i as int)));
        }
        let piece: Option<Vec<char>> = match &toks[i] {
            Token::Literal(s) => Some(chars_of(s.as_str())),
            Token::Newline => {
                let mut v: Vec<char> = Vec::new();
                v.push('\n');
                Some(v)
            },
            Token::Percent => {
                let mut v: Vec<char> = Vec::new();
                v.push('%');
                Some(v)
            },
            Token::Conversion { modifier, keyword, option, sub_pattern } => {
                let inner: Option<Vec<char>> = match sub_pattern {
                    Some(sub) => {
                        assert(decreases_to!(toks@ => toks@[i as int]));
                        render_seq(pid, ev, data, sub.as_slice(), cache)
                    },
                    None => Some(Vec::new()),
                };
                match inner {
                    None => None,
                    Some(iv) => match keyword_chars(pid, ev, data, *keyword, option, iv.as_slice(), cache) {
                        None => None,
                        Some(k) => match modifier {
                            None => Some(k),
                            Some(m) => {
                                if !is_measurable(k.as_slice()) {
                                    None
                                } else {
                                    m.apply_checked(k.as_slice())
                                }
                            },
                        },
                    },
                }
            },
        };
        proof {
            let t = tok_view(toks@[i as int]);
            assert(toks_view(toks@.take(i + 1)).last() == t);
            assert(opt_view(piece) == render_token(pid@, *ev, *data, t));
        }
        match piece {
            None => {
                proof {
                    lemma_render_prefix_none(pid@, *ev, *data, toks@, i + 1);
                }
                return None;
            },
            Some(p) => {
                push_all(&mut out, p.as_slice());
            },
        }
        i = i + 1;
    }
    assert(toks@.take(toks@.len() as int) =~= toks@);
    Some(out)
}

/// Turns the option of each `%d` into a chrono pattern.
#[verifier::spinoff_prover]
fn preprocess_date_tokens(tokens: Vec<Token>) -> (r: Vec<Token>)
    ensures
        toks_view(r@) == preprocess_tokens(toks_view(tokens@)),
    decreases tokens@,
{
    let ghost orig = tokens@;
    let ghost orig_len = tokens.len();
    let mut rest = tokens;
    let mut out: Vec<Token> = Vec::new();
    let mut k: usize = 0;
    proof {
        assert(orig.skip(0) =~= orig);
        assert(orig.take(0) =~= Seq::<Token>::empty());
        assert(toks_view(Seq::<Token>::empty()) =~= Seq::<SToken>::empty());
        assert(out@ =~= Seq::<Token>::empty());
    }
    while rest.len() > 0
        invariant
            k <= orig.len(),
            orig.len() == orig_len,
            orig == tokens@,
            orig_len <= usize::MAX,
            rest@ == orig.skip(k as int),
            toks_view(out@) == preprocess_tokens(toks_view(orig.take(k as int))),
        decreases rest@.len(),
    {
        let ghost r0 = rest@;
        let t = rest.remove(0);
        assert(t == orig[k as int]);
        assert(rest@ =~= orig.skip(k + 1));
        let ghost tt = t;
        let nt = match t {
            Token::Conversion { modifier, keyword, option, sub_pattern } => {
                let option = match keyword {
                    Keyword::Date => match option {
                        Some(o) => Some(convert_pattern(o.as_str())),
                        None => None,
                    },
                    _ => option,
                };
                let sub_pattern = match sub_pattern {
                    Some(sub) => {
                        assert(tt->sub_pattern == Some(sub));
                        assert(decreases_to!(orig => orig[k as int]));
                        assert(decreases_to!(tt => tt->sub_pattern));
                        assert(decreases_to!(orig => sub@));
                        Some(preprocess_date_tokens(sub))
                    },
                    None => None,
                };
                Token::Conversion { modifier, keyword, option, sub_pattern }
            },
            other => other,
        };
        proof {
            assert(tok_view(nt) == preprocess_token(tok_view(orig[k as int])));
            assert(orig.take(k + 1) =~= orig.take(k as int).push(orig[k as int]));
            lemma_toks_view_push(orig.take(k as int), orig[k as int]);
            assert(toks_view(orig.take(k + 1)).drop_last() =~= toks_view(orig.take(k as int)));
        }
        let ghost o0 = out@;
        out.push(nt);
        proof {
            lemma_toks_view_push(o0, nt);
        }
        k = k + 1;
    }
    assert(orig.take(k as int) =~= orig);
    out
}

impl Log4jFormatter {
    /// Builds a formatter from parsed tokens and the id of the process.
    pub fn new(tokens: Vec<Token>, pid: u32) -> (r: Self)
        ensures
            built_from(r, toks_view(tokens@), pid),
    {
        let tokens = preprocess_date_tokens(tokens);
        let has_exception = scan_mentions(tokens.as_slice(), false);
        let has_nopex = scan_mentions(tokens.as_slice(), true);
        let p = u128_to_decimal(pid as u128);
        Log4jFormatter { tokens, has_exception, has_nopex, pid: string_of(p.as_slice()) }
    }

    /// Whether the pattern has an exception conversion (`%throwable`, `%rEx`, `%nopex`).
    pub fn has_exception(&self) -> (r: bool)
        ensures
            r == self.has_exception_model(),
    {
        self.has_exception
    }

    /// Whether the pattern has `%nopex`.
    pub fn has_nopex(&self) -> (r: bool)
        ensures
            r == self.has_nopex_model(),
    {
        self.has_nopex
    }

    /// Renders one event; `None` where rendering panics.
    pub fn format_event(&self, cache: &mut TimestampCache, ev: &EventContext, data: &EventData) -> (r: Option<String>)
        ensures
            opt_string_view(r) == format_spec(*self, *ev, *data),
    {
        match render_seq(self.pid.as_str(), ev, data, self.tokens.as_slice(), cache) {
            None => None,
            Some(body) => {
                let mut out = body;
                if !self.has_exception && !self.has_nopex && data.error_chain.len() > 0 {
                    out.push('\n');
                    exception_write(data, None, false, &mut out);
                }
                Some(string_of(out.as_slice()))
            },
        }
    }
}

// ---------------------------------------------------------------------------
// Laws of escaping and truncation.

/// A character that HTML escaping must not let through.
pub open spec fn is_markup(c: char) -> bool {
    c == '<' || c == '>' || c == '"' || c == '\''
}

proof fn lemma_html_char_no_markup(c: char)
    ensures
        forall|i: int| 0 <= i < html_char(c).len() ==> !is_markup(#[trigger] html_char(c)[i]),
{
    reveal_strlit("&amp;");
    reveal_strlit("&lt;");
    reveal_strlit("&gt;");
    reveal_strlit("&quot;");
    reveal_strlit("&#39;");
}

/// HTML / XML escaping leaves no `<`, `>`, `"` or `'` in its output.
pub proof fn law_html_escape_has_no_markup(s: Seq<char>)
    ensures
        forall|i: int| 0 <= i < escape_spec(s, EscapeMode::Html).len() ==> !is_markup(
            #[trigger] escape_spec(s, EscapeMode::Html)[i],
        ),
    decreases s.len(),
{
    if s.len() > 0 {
        law_html_escape_has_no_markup(s.drop_last());
        lemma_html_char_no_markup(s.last());
        let a = escape_spec(s.drop_last(), EscapeMode::Html);
        let b = html_char(s.last());
        assert forall|i: int| 0 <= i < (a + b).len() implies !is_markup(#[trigger] (a + b)[i]) by {
            if i >= a.len() {
                assert((a + b)[i] == b[i - a.len()]);
            }
        }
    }
}

proof fn lemma_json_char_printable(c: char)
    ensures
        forall|i: int| 0 <= i < json_char(c).len() ==> (#[trigger] json_char(c)[i] as u32) >= 0x20,
{
    reveal_strlit("\\\"");
    reveal_strlit("\\\\");
    reveal_strlit("\\n");
    reveal_strlit("\\r");
    reveal_strlit("\\t");
    reveal_strlit("\\b");
    reveal_strlit("\\f");
    if (c as u32) < 0x20 && !(c == '"' || c == '\\' || c == '\n' || c == '\r' || c == '\t' || c == '\x08' || c == '\x0c') {
        let v = c as nat;
        assert(v / 16 < 2);
        assert(v % 16 < 16);
    }
}

/// JSON escaping leaves no control character below U+0020 in its output.
pub proof fn law_json_escape_has_no_control_chars(s: Seq<char>)
    ensures
        forall|i: int| 0 <= i < escape_spec(s, EscapeMode::Json).len() ==> (#[trigger] escape_spec(
            s,
            EscapeMode::Json,
        )[i] as u32) >= 0x20,
    decreases s.len(),
{
    if s.len() > 0 {
        law_json_escape_has_no_control_chars(s.drop_last());
        lemma_json_char_printable(s.last());
        let a = escape_spec(s.drop_last(), EscapeMode::Json);
        let b = json_char(s.last());
        assert forall|i: int| 0 <= i < (a + b).len() implies ((#[trigger] (a + b)[i]) as u32) >= 0x20 by {
            if i >= a.len() {
                assert((a + b)[i] == b[i - a.len()]);
            }
        }
    }
}

proof fn lemma_chars_within_max(s: Seq<char>, n: int)
    requires
        n >= 0,
        chars_within(s, n) < s.len(),
    ensures
        utf8_len(s.take(chars_within(s, n) as int)) + char_utf8_len(s[chars_within(s, n) as int]) > n,
    decreases s.len(),
{
    let k = chars_within(s, n) as int;
    if char_utf8_len(s[0]) > n {
        assert(s.take(0) =~= Seq::<char>::empty());
    } else {
        let t = s.drop_first();
        lemma_chars_within_max(t, n - char_utf8_len(s[0]));
        assert(s.take(k).drop_first() =~= t.take(k - 1));
        assert(s[k] == t[k - 1]);
    }
}

/// `%maxLen` truncation keeps a prefix of the text that fits in `n` bytes,
/// and the longest one: the next character would not fit.
pub proof fn law_truncate_fits(s: Seq<char>, n: nat)
    ensures
        utf8_len(truncate_spec(s, n)) <= n,
        truncate_spec(s, n).len() <= s.len(),
        truncate_spec(s, n) == s.take(truncate_spec(s, n).len() as int),
        truncate_spec(s, n).len() < s.len() ==> utf8_len(truncate_spec(s, n)) + char_utf8_len(
            s[truncate_spec(s, n).len() as int],
        ) > n,
{
    lemma_chars_within_bound(s, n as int);
    if chars_within(s, n as int) < s.len() {
        lemma_chars_within_max(s, n as int);
    }
}

/// A formatter built from a non-empty pattern without `%` renders every
/// event without an error chain as the pattern itself.
pub proof fn law_plain_pattern_renders_itself(
    f: Log4jFormatter,
    p: Seq<char>,
    pid: u32,
    ev: EventContext,
    data: EventData,
)
    requires
        p.len() > 0,
        forall|i: int| 0 <= i < p.len() ==> p[i] != '%',
        super::lexer::scan4_spec(p) matches SScan::Tokens(ts) && built_from(f, ts, pid),
        data.error_chain@.len() == 0,
    ensures
        format_spec(f, ev, data) == Some(p),
{
    super::lexer::law_plain_text_is_one_literal(p);
    let ts = seq![SToken::Literal(p)];
    let e = Seq::<SToken>::empty();
    assert(ts.drop_last() =~= e);
    assert(ts.last() == SToken::Literal(p));
    assert(preprocess_tokens(e) == e);
    assert(preprocess_token(SToken::Literal(p)) == SToken::Literal(p));
    assert(preprocess_tokens(ts) =~= e.push(SToken::Literal(p)));
    assert(e.push(SToken::Literal(p)) =~= ts);
    assert(render_token(f.pid_model(), ev, data, SToken::Literal(p)) == Some(p));
    assert(render_tokens(f.pid_model(), ev, data, e) == Some(Seq::<char>::empty()));
    assert(Seq::<char>::empty() + p =~= p);
    assert(render_tokens(f.pid_model(), ev, data, ts) == Some(p));
}

/// A formatter built from the pattern `%thread` renders an event without
/// an error chain as the name of the event's thread.
pub proof fn law_thread_word_renders_thread_name(f: Log4jFormatter, pid: u32, ev: EventContext, data: EventData)
    requires
        scan4_spec(word_then("thread"@, Seq::<char>::empty())) matches SScan::Tokens(ts) && built_from(f, ts, pid),
        data.error_chain@.len() == 0,
    ensures
        format_spec(f, ev, data) == Some(ev.thread_name@),
{
    law_thread_pattern();
    let t = SToken::Conversion { modifier: None, keyword: Keyword::Thread, option: None, sub_pattern: None };
    let ts = seq![t];
    let e = Seq::<SToken>::empty();
    assert(ts.drop_last() =~= e);
    assert(preprocess_tokens(e) == e);
    assert(preprocess_token(t) == t);
    assert(preprocess_tokens(ts) =~= ts);
    assert(render_tokens(f.pid_model(), ev, data, e) == Some(Seq::<char>::empty()));
    assert(render_token(f.pid_model(), ev, data, t) == Some(ev.thread_name@));
    assert(Seq::<char>::empty() + ev.thread_name@ =~= ev.thread_name@);
}

/// A formatter built from one plain conversion token renders an event
/// without an error chain as that token's text.
proof fn lemma_single_word_format4(f: Log4jFormatter, pid: u32, ev: EventContext, data: EventData, k: Keyword)
    requires
        built_from(f, seq![SToken::Conversion { modifier: None, keyword: k, option: None, sub_pattern: None }], pid),
        data.error_chain@.len() == 0,
    ensures
        format_spec(f, ev, data) == keyword_text(decimal(pid as nat), ev, data, k, None, Seq::<char>::empty()),
{
    let t = SToken::Conversion { modifier: None, keyword: k, option: None, sub_pattern: None };
    let ts = seq![t];
    let e = Seq::<SToken>::empty();
    assert(ts.drop_last() =~= e);
    assert(preprocess_tokens(e) == e);
    assert(preprocess_token(t) == t);
    assert(preprocess_tokens(ts) =~= ts);
    assert(render_tokens(f.pid_model(), ev, data, e) == Some(Seq::<char>::empty()));
    let r = render_token(f.pid_model(), ev, data, t);
    assert(r == keyword_text(f.pid_model(), ev, data, k, None, Seq::<char>::empty()));
    if let Some(b) = r {
        assert(Seq::<char>::empty() + b =~= b);
    }
}

/// A formatter built from the pattern `%p` renders an event without an
/// error chain as the event's level name.
pub proof fn law_wordp_renders(f: Log4jFormatter, pid: u32, ev: EventContext, data: EventData)
    requires
        scan4_spec(word_then("p"@, Seq::<char>::empty())) matches SScan::Tokens(ts) && built_from(f, ts, pid),
        data.error_chain@.len() == 0,
    ensures
        format_spec(f, ev, data) == Some(level_name(ev.level)),
{
    reveal_strlit("p");
    law_single_words4();
    law_single_word_pattern4("p"@, Keyword::Level, 1);
    lemma_single_word_format4(f, pid, ev, data, Keyword::Level);
}

/// A formatter built from the pattern `%t` renders an event without an
/// error chain as the name of the event's thread.
pub proof fn law_wordt_renders(f: Log4jFormatter, pid: u32, ev: EventContext, data: EventData)
    requires
        scan4_spec(word_then("t"@, Seq::<char>::empty())) matches SScan::Tokens(ts) && built_from(f, ts, pid),
        data.error_chain@.len() == 0,
    ensures
        format_spec(f, ev, data) == Some(ev.thread_name@),
{
    reveal_strlit("t");
    law_single_words4();
    law_single_word_pattern4("t"@, Keyword::Thread, 1);
    lemma_single_word_format4(f, pid, ev, data, Keyword::Thread);
}

/// A formatter built from the pattern `%m` renders an event without an
/// error chain as the event's message.
pub proof fn law_wordm_renders(f: Log4jFormatter, pid: u32, ev: EventContext, data: EventData)
    requires
        scan4_spec(word_then("m"@, Seq::<char>::empty())) matches SScan::Tokens(ts) && built_from(f, ts, pid),
        data.error_chain@.len() == 0,
    ensures
        format_spec(f, ev, data) == Some(data.message@),
{
    reveal_strlit("m");
    law_single_words4();
    law_single_word_pattern4("m"@, Keyword::Message, 1);
    lemma_single_word_format4(f, pid, ev, data, Keyword::Message);
}

/// A formatter built from the pattern `%msg` renders an event without an
/// error chain as the event's message.
pub proof fn law_wordmsg_renders(f: Log4jFormatter, pid: u32, ev: EventContext, data: EventData)
    requires
        scan4_spec(word_then("msg"@, Seq::<char>::empty())) matches SScan::Tokens(ts) && built_from(f, ts, pid),
        data.error_chain@.len() == 0,
    ensures
        format_spec(f, ev, data) == Some(data.message@),
{
    reveal_strlit("msg");
    law_single_words4();
    law_single_word_pattern4("msg"@, Keyword::Message, 3);
    lemma_single_word_format4(f, pid, ev, data, Keyword::Message);
}

/// A formatter built from the pattern `%message` renders an event without an
/// error chain as the event's message.
pub proof fn law_wordmessage_renders(f: Log4jFormatter, pid: u32, ev: EventContext, data: EventData)
    requires
        scan4_spec(word_then("message"@, Seq::<char>::empty())) matches SScan::Tokens(ts) && built_from(f, ts, pid),
        data.error_chain@.len() == 0,
    ensures
        format_spec(f, ev, data) == Some(data.message@),
{
    reveal_strlit("message");
    law_single_words4();
    law_single_word_pattern4("message"@, Keyword::Message, 7);
    lemma_single_word_format4(f, pid, ev, data, Keyword::Message);
}

/// A formatter built from the pattern `%c` renders an event without an
/// error chain as the event's whole target.
pub proof fn law_wordc_renders(f: Log4jFormatter, pid: u32, ev: EventContext, data: EventData)
    requires
        scan4_spec(word_then("c"@, Seq::<char>::empty())) matches SScan::Tokens(ts) && built_from(f, ts, pid),
        data.error_chain@.len() == 0,
    ensures
        format_spec(f, ev, data) == Some(ev.target@),
{
    reveal_strlit("c");
    law_single_words4();
    law_single_word_pattern4("c"@, Keyword::Logger, 1);
    lemma_single_word_format4(f, pid, ev, data, Keyword::Logger);
}

/// A formatter built from the pattern `%L` renders an event without an
/// error chain as the event's source line in decimal (nothing where it has none).
pub proof fn law_word_l_renders(f: Log4jFormatter, pid: u32, ev: EventContext, data: EventData)
    requires
        scan4_spec(word_then("L"@, Seq::<char>::empty())) matches SScan::Tokens(ts) && built_from(f, ts, pid),
        data.error_chain@.len() == 0,
    ensures
        format_spec(f, ev, data) == Some(match ev.line { Some(l) => decimal(l as nat), None => Seq::<char>::empty() }),
{
    reveal_strlit("L");
    law_single_words4();
    law_single_word_pattern4("L"@, Keyword::Line, 1);
    lemma_single_word_format4(f, pid, ev, data, Keyword::Line);
}

/// A formatter built from the pattern `%F` renders an event without an
/// error chain as the event's source file (nothing where it has none).
pub proof fn law_word_f_renders(f: Log4jFormatter, pid: u32, ev: EventContext, data: EventData)
    requires
        scan4_spec(word_then("F"@, Seq::<char>::empty())) matches SScan::Tokens(ts) && built_from(f, ts, pid),
        data.error_chain@.len() == 0,
    ensures
        format_spec(f, ev, data) == Some(match ev.file { Some(s) => s@, None => Seq::<char>::empty() }),
{
    reveal_strlit("F");
    law_single_words4();
    law_single_word_pattern4("F"@, Keyword::File, 1);
    lemma_single_word_format4(f, pid, ev, data, Keyword::File);
}

/// A formatter built from the pattern `%M` renders an event without an
/// error chain as the name of the current span (nothing outside a span).
pub proof fn law_word_m_renders(f: Log4jFormatter, pid: u32, ev: EventContext, data: EventData)
    requires
        scan4_spec(word_then("M"@, Seq::<char>::empty())) matches SScan::Tokens(ts) && built_from(f, ts, pid),
        data.error_chain@.len() == 0,
    ensures
        format_spec(f, ev, data) == Some(match ev.span { Some(sp) => sp.name@, None => Seq::<char>::empty() }),
{
    reveal_strlit("M");
    law_single_words4();
    law_single_word_pattern4("M"@, Keyword::Method, 1);
    lemma_single_word_format4(f, pid, ev, data, Keyword::Method);
}

} // verus!
