//! Conversion of Java `SimpleDateFormat` patterns to chrono `strftime`
//! patterns (`yyyy-MM-dd HH:mm:ss.SSS` becomes `%Y-%m-%d %H:%M:%S%.3f`).

use std::fmt::Write as _;
use vstd::prelude::*;
use crate::text::{chars_of, matches_at, occurs_at, push_all, push_str, slice_chars, string_of};
use crate::formatter::logback::lexer::{lemma_at, lemma_not_at};

verus! {

/// A point in time: milliseconds since the Unix epoch, and the offset of the
/// local time zone from UTC in seconds.
#[derive(Debug, Clone, Copy, PartialEq, Eq, Structural)]
pub struct Timestamp {
    /// Milliseconds since 1970-01-01T00:00:00Z.
    pub millis: i64,
    /// Local offset east of UTC, in seconds.
    pub offset_secs: i32,
}

/// What chrono's `strftime` formatting of the instant `millis` (milliseconds
/// since the epoch) at the fixed offset `offset_secs` with the pattern `fmt`
/// gives; `None` where the instant or the offset is out of chrono's range or
/// the pattern holds an item chrono cannot format.
pub uninterp spec fn chrono_format(millis: int, offset_secs: int, fmt: Seq<char>) -> Option<Seq<char>>;

/// Formats `ts` with the strftime pattern `fmt`.
///
/// Calls `chrono::DateTime::from_timestamp_millis`, `FixedOffset::east_opt`,
/// `with_timezone` and `DateTime::format`, and writes the result into a
/// `String`. Trusted: the result is `chrono_format` of the arguments, `None`
/// where chrono returns `None` or its `Display` fails.
#[verifier::external_body]
pub(crate) fn format_timestamp(ts: Timestamp, fmt: &str) -> (r: Option<String>)
    ensures
        match r {
            Some(s) => chrono_format(ts.millis as int, ts.offset_secs as int, fmt@) == Some(s@),
            None => chrono_format(ts.millis as int, ts.offset_secs as int, fmt@) is None,
        },
{
    let offset = chrono::FixedOffset::east_opt(ts.offset_secs)?;
    let utc = chrono::DateTime::from_timestamp_millis(ts.millis)?;
    let mut out = String::new();
    match write!(out, "{}", utc.with_timezone(&offset).format(fmt)) {
        Ok(()) => Some(out),
        Err(_) => None,
    }
}

/// First position at or after `i` holding a single quote, or the length.
pub open spec fn quote_end(c: Seq<char>, i: int) -> int
    decreases c.len() - i,
{
    if i < 0 || i >= c.len() {
        c.len() as int
    } else if c[i] == '\'' {
        i
    } else {
        quote_end(c, i + 1)
    }
}

/// Output for the specifier letter after a `%` (`%Y`, `%m`, ...), if it is one.
pub open spec fn percent_spec(n: char) -> Option<Seq<char>> {
    if n == 'Y' || n == 'y' { Some("%Y"@) }
    else if n == 'm' { Some("%m"@) }
    else if n == 'd' || n == 'D' { Some("%d"@) }
    else if n == 'H' { Some("%H"@) }
    else if n == 'M' { Some("%M"@) }
    else if n == 'S' || n == 's' { Some("%S"@) }
    else if n == 'f' { Some("%.3f"@) }
    else if n == 'z' || n == 'Z' { Some("%:z"@) }
    else if n == 'T' { Some("T"@) }
    else { None }
}

/// Output for a pattern letter standing alone.
pub open spec fn single_spec(ch: char) -> Seq<char> {
    if ch == 'y' || ch == 'Y' { "%Y"@ }
    else if ch == 'M' { "%m"@ }
    else if ch == 'd' || ch == 'D' { "%d"@ }
    else if ch == 'H' { "%H"@ }
    else if ch == 'm' { "%M"@ }
    else if ch == 's' || ch == 'S' { "%S"@ }
    else if ch == 'f' { "%.3f"@ }
    else if ch == 'z' || ch == 'Z' { "%:z"@ }
    else if ch == 'T' { "T"@ }
    else { seq![ch] }
}

/// Punctuation copied through as is.
pub open spec fn is_date_punct(ch: char) -> bool {
    ch == '.' || ch == '-' || ch == ' ' || ch == ':' || ch == '/' || ch == '+'
}

/// An ASCII letter, the last character of a strftime specifier.
pub open spec fn is_ascii_letter(ch: char) -> bool {
    ('a' <= ch && ch <= 'z') || ('A' <= ch && ch <= 'Z')
}

/// First position at or after `i` holding an ASCII letter, or the length.
pub open spec fn letter_end(c: Seq<char>, i: int) -> int
    decreases c.len() - i,
{
    if i < 0 || i >= c.len() {
        c.len() as int
    } else if is_ascii_letter(c[i]) {
        i
    } else {
        letter_end(c, i + 1)
    }
}

/// `ch` as strftime text that renders it: `%` is written `%%`.
pub open spec fn escape_char(ch: char) -> Seq<char> {
    if ch == '%' { seq!['%', '%'] } else { seq![ch] }
}

/// `t` as strftime text that renders exactly `t`: each `%` written `%%`.
pub open spec fn escape_percent(t: Seq<char>) -> Seq<char>
    decreases t.len(),
{
    if t.len() == 0 {
        Seq::<char>::empty()
    } else {
        escape_percent(t.drop_last()) + escape_char(t.last())
    }
}

/// One step of the conversion at position `i`: what is emitted and where
/// the next step starts. Quoted text is emitted as literal strftime text; a
/// `%` before a letter of the table converts that letter; a `%` before
/// anything else starts a strftime specifier (`%:z`, `%.3f`), copied up to
/// and including its final letter.
pub open spec fn date_step(c: Seq<char>, i: int) -> (Seq<char>, int) {
    let ch = c[i];
    if ch == '\'' {
        let j = quote_end(c, i + 1);
        (escape_percent(c.subrange(i + 1, j)), if j < c.len() { j + 1 } else { j })
    } else if ch == '%' && i + 1 < c.len() && percent_spec(c[i + 1]) is Some {
        (percent_spec(c[i + 1])->0, i + 2)
    } else if ch == '%' && i + 1 < c.len() && !is_ascii_letter(c[i + 1]) {
        let e = if letter_end(c, i + 1) < c.len() { letter_end(c, i + 1) + 1 } else { c.len() as int };
        (c.subrange(i, e), e)
    } else if is_date_punct(ch) {
        if ch == '.' && occurs_at(c, i, ".SSS"@) {
            ("%.3f"@, i + 4)
        } else {
            (seq![ch], i + 1)
        }
    } else if occurs_at(c, i, "yyyy"@) || occurs_at(c, i, "YYYY"@) {
        ("%Y"@, i + 4)
    } else if occurs_at(c, i, "SSS"@) {
        ("%.3f"@, i + 3)
    } else if occurs_at(c, i, "XXX"@) {
        ("%:z"@, i + 3)
    } else if occurs_at(c, i, "MM"@) {
        ("%m"@, i + 2)
    } else if occurs_at(c, i, "dd"@) || occurs_at(c, i, "DD"@) {
        ("%d"@, i + 2)
    } else if occurs_at(c, i, "HH"@) {
        ("%H"@, i + 2)
    } else if occurs_at(c, i, "mm"@) {
        ("%M"@, i + 2)
    } else if occurs_at(c, i, "ss"@) || occurs_at(c, i, "SS"@) {
        ("%S"@, i + 2)
    } else {
        (single_spec(ch), i + 1)
    }
}

pub proof fn lemma_quote_end(c: Seq<char>, i: int)
    requires
        0 <= i,
    ensures
        i <= quote_end(c, i) <= c.len() || (i > c.len() && quote_end(c, i) == c.len()),
        quote_end(c, i) < c.len() ==> c[quote_end(c, i)] == '\'',
        forall|k: int| i <= k < quote_end(c, i) ==> c[k] != '\'',
    decreases c.len() - i,
{
    if i < c.len() && c[i] != '\'' {
        lemma_quote_end(c, i + 1);
    }
}

pub proof fn lemma_letter_end(c: Seq<char>, i: int)
    requires
        0 <= i,
    ensures
        i <= letter_end(c, i) <= c.len() || (i > c.len() && letter_end(c, i) == c.len()),
        letter_end(c, i) < c.len() ==> is_ascii_letter(c[letter_end(c, i)]),
        forall|k: int| i <= k < letter_end(c, i) ==> !is_ascii_letter(c[k]),
    decreases c.len() - i,
{
    if i < c.len() && !is_ascii_letter(c[i]) {
        lemma_letter_end(c, i + 1);
    }
}

pub proof fn lemma_date_step_advances(c: Seq<char>, i: int)
    requires
        0 <= i < c.len(),
    ensures
        i < date_step(c, i).1 <= c.len(),
{
    if c[i] == '\'' {
        lemma_quote_end(c, i + 1);
    }
    if i + 1 < c.len() {
        lemma_letter_end(c, i + 1);
    }
    reveal_strlit(".SSS");
    reveal_strlit("yyyy");
    reveal_strlit("YYYY");
    reveal_strlit("SSS");
    reveal_strlit("XXX");
    reveal_strlit("MM");
    reveal_strlit("dd");
    reveal_strlit("DD");
    reveal_strlit("HH");
    reveal_strlit("mm");
    reveal_strlit("ss");
    reveal_strlit("SS");
}

/// The whole conversion of `c[i..]`.
pub open spec fn convert_from(c: Seq<char>, i: int) -> Seq<char>
    decreases c.len() - i,
{
    if i < 0 || i >= c.len() {
        Seq::<char>::empty()
    } else {
        let (e, n) = date_step(c, i);
        if n <= i || n > c.len() {
            e
        } else {
            e + convert_from(c, n)
        }
    }
}

/// The chrono pattern for the Java pattern `j`.
pub open spec fn convert_spec(j: Seq<char>) -> Seq<char> {
    convert_from(j, 0)
}

fn percent_exec(n: char, out: &mut Vec<char>) -> (found: bool)
    ensures
        found == (percent_spec(n) is Some),
        found ==> final(out)@ == old(out)@ + percent_spec(n)->0,
        !found ==> final(out)@ == old(out)@,
{
    if n == 'Y' || n == 'y' { push_str(out, "%Y"); true }
    else if n == 'm' { push_str(out, "%m"); true }
    else if n == 'd' || n == 'D' { push_str(out, "%d"); true }
    else if n == 'H' { push_str(out, "%H"); true }
    else if n == 'M' { push_str(out, "%M"); true }
    else if n == 'S' || n == 's' { push_str(out, "%S"); true }
    else if n == 'f' { push_str(out, "%.3f"); true }
    else if n == 'z' || n == 'Z' { push_str(out, "%:z"); true }
    else if n == 'T' { push_str(out, "T"); true }
    else { false }
}

fn single_exec(ch: char, out: &mut Vec<char>)
    ensures
        final(out)@ == old(out)@ + single_spec(ch),
{
    if ch == 'y' || ch == 'Y' { push_str(out, "%Y") }
    else if ch == 'M' { push_str(out, "%m") }
    else if ch == 'd' || ch == 'D' { push_str(out, "%d") }
    else if ch == 'H' { push_str(out, "%H") }
    else if ch == 'm' { push_str(out, "%M") }
    else if ch == 's' || ch == 'S' { push_str(out, "%S") }
    else if ch == 'f' { push_str(out, "%.3f") }
    else if ch == 'z' || ch == 'Z' { push_str(out, "%:z") }
    else if ch == 'T' { push_str(out, "T") }
    else {
        out.push(ch);
        assert(final(out)@ =~= old(out)@ + seq![ch]);
    }
}

/// Performs `date_step(c, i)`, appending its output to `out`.
fn date_step_exec(c: &[char], i: usize, out: &mut Vec<char>) -> (n: usize)
    requires
        i < c@.len(),
    ensures
        n == date_step(c@, i as int).1,
        final(out)@ == old(out)@ + date_step(c@, i as int).0,
{
    proof {
        reveal_strlit(".SSS");
        reveal_strlit("yyyy");
        reveal_strlit("YYYY");
        reveal_strlit("SSS");
        reveal_strlit("XXX");
        reveal_strlit("MM");
        reveal_strlit("dd");
        reveal_strlit("DD");
        reveal_strlit("HH");
        reveal_strlit("mm");
        reveal_strlit("ss");
        reveal_strlit("SS");
    }
    let ch = c[i];
    if ch == '\'' {
        let mut j: usize = i + 1;
        proof {
            lemma_quote_end(c@, i + 1);
        }
        proof {
            assert(c@.subrange(i + 1, i + 1) =~= Seq::<char>::empty());
            assert(old(out)@ + escape_percent(Seq::<char>::empty()) =~= old(out)@);
        }
        while j < c.len() && c[j] != '\''
            invariant
                i + 1 <= j <= c@.len(),
                quote_end(c@, i + 1) == quote_end(c@, j as int),
                out@ == old(out)@ + escape_percent(c@.subrange(i + 1, j as int)),
            decreases c@.len() - j,
        {
            let ghost before = out@;
            if c[j] == '%' {
                out.push('%');
                out.push('%');
            } else {
                out.push(c[j]);
            }
            proof {
                let t = c@.subrange(i + 1, j + 1);
                assert(t.drop_last() =~= c@.subrange(i + 1, j as int));
                assert(t.last() == c@[j as int]);
                assert(out@ =~= before + escape_char(c@[j as int]));
            }
            j = j + 1;
        }
        if j < c.len() {
            return j + 1;
        }
        return j;
    }
    if ch == '%' && i + 1 < c.len() {
        if percent_exec(c[i + 1], out) {
            return i + 2;
        }
        let n = c[i + 1];
        if !(('a' <= n && n <= 'z') || ('A' <= n && n <= 'Z')) {
            let mut k: usize = i + 1;
            proof {
                lemma_letter_end(c@, i + 1);
            }
            while k < c.len() && !(('a' <= c[k] && c[k] <= 'z') || ('A' <= c[k] && c[k] <= 'Z'))
                invariant
                    i + 1 <= k <= c@.len(),
                    letter_end(c@, i + 1) == letter_end(c@, k as int),
                decreases c@.len() - k,
            {
                k = k + 1;
            }
            let e = if k < c.len() { k + 1 } else { k };
            let piece = slice_chars(c, i, e);
            push_all(out, piece.as_slice());
            return e;
        }
    }
    if ch == '.' || ch == '-' || ch == ' ' || ch == ':' || ch == '/' || ch == '+' {
        if ch == '.' && matches_at(c, i, ".SSS") {
            push_str(out, "%.3f");
            return i + 4;
        }
        out.push(ch);
        assert(final(out)@ =~= old(out)@ + seq![ch]);
        return i + 1;
    }
    if matches_at(c, i, "yyyy") || matches_at(c, i, "YYYY") {
        push_str(out, "%Y");
        return i + 4;
    }
    if matches_at(c, i, "SSS") {
        push_str(out, "%.3f");
        return i + 3;
    }
    if matches_at(c, i, "XXX") {
        push_str(out, "%:z");
        return i + 3;
    }
    if matches_at(c, i, "MM") {
        push_str(out, "%m");
        return i + 2;
    }
    if matches_at(c, i, "dd") || matches_at(c, i, "DD") {
        push_str(out, "%d");
        return i + 2;
    }
    if matches_at(c, i, "HH") {
        push_str(out, "%H");
        return i + 2;
    }
    if matches_at(c, i, "mm") {
        push_str(out, "%M");
        return i + 2;
    }
    if matches_at(c, i, "ss") || matches_at(c, i, "SS") {
        push_str(out, "%S");
        return i + 2;
    }
    single_exec(ch, out);
    i + 1
}

/// Converts a Java `SimpleDateFormat` pattern to a chrono `strftime` pattern.
pub fn convert_pattern(j_pattern: &str) -> (r: String)
    ensures
        r@ == convert_spec(j_pattern@),
{
    let c = chars_of(j_pattern);
    let c = c.as_slice();
    let mut out: Vec<char> = Vec::new();
    let mut i: usize = 0;
    while i < c.len()
        invariant
            0 <= i <= c@.len(),
            out@ + convert_from(c@, i as int) == convert_from(c@, 0),
        decreases c@.len() - i,
    {
        let ghost before = out@;
        let n = date_step_exec(c, i, &mut out);
        proof {
            lemma_date_step_advances(c@, i as int);
            assert(convert_from(c@, i as int) == date_step(c@, i as int).0 + convert_from(c@, n as int));
            assert(out@ + convert_from(c@, n as int) =~= before + convert_from(c@, i as int));
        }
        i = n;
    }
    assert(out@ + convert_from(c@, i as int) =~= out@);
    string_of(out.as_slice())
}

/// Formats the instant `now` with the Java `SimpleDateFormat` pattern
/// `j_pattern`; `None` where chrono cannot format the converted pattern.
pub fn format_time(j_pattern: &str, now: Timestamp) -> (r: Option<String>)
    ensures
        match r {
            Some(s) => chrono_format(now.millis as int, now.offset_secs as int, convert_spec(j_pattern@)) == Some(s@),
            None => chrono_format(now.millis as int, now.offset_secs as int, convert_spec(j_pattern@)) is None,
        },
{
    let chrono_pattern = convert_pattern(j_pattern);
    format_timestamp(now, chrono_pattern.as_str())
}

/// Text in single quotes is literal: a quoted run without quotes converts to
/// the strftime text that renders exactly that run (`%` written `%%`).
pub proof fn law_quoted_text_is_literal(t: Seq<char>)
    requires
        forall|k: int| 0 <= k < t.len() ==> t[k] != '\'',
    ensures
        convert_spec(seq!['\''] + t + seq!['\'']) == escape_percent(t),
{
    let c = seq!['\''] + t + seq!['\''];
    lemma_quote_end(c, 1);
    assert forall|k: int| 1 <= k < c.len() - 1 implies c[k] != '\'' by {
        assert(c[k] == t[k - 1]);
    }
    assert(c[c.len() - 1] == '\'');
    assert(quote_end(c, 1) == c.len() - 1);
    assert(c.subrange(1, c.len() - 1) =~= t);
    assert(date_step(c, 0) == (escape_percent(t), c.len() as int));
    assert(convert_from(c, c.len() as int) == Seq::<char>::empty());
    assert(escape_percent(t) + Seq::<char>::empty() =~= escape_percent(t));
}

/// A letter that strftime and the table both write after `%` unchanged.
pub open spec fn is_kept_letter(n: char) -> bool {
    n == 'Y' || n == 'm' || n == 'd' || n == 'H' || n == 'M' || n == 'S'
}

/// `%:z` stands at `i`.
pub open spec fn is_offset_spec_at(c: Seq<char>, i: int) -> bool {
    0 <= i && i + 2 < c.len() && c[i] == '%' && c[i + 1] == ':' && c[i + 2] == 'z'
}

/// `%.3f` stands at `i`.
pub open spec fn is_millis_spec_at(c: Seq<char>, i: int) -> bool {
    0 <= i && i + 3 < c.len() && c[i] == '%' && c[i + 1] == '.' && c[i + 2] == '3' && c[i + 3] == 'f'
}

/// `c[i..]` is strftime text made of the specifiers `%Y %m %d %H %M %S
/// %.3f %:z` (what the table produces) and the punctuation `. - : / +` and
/// space.
pub open spec fn strftime_from(c: Seq<char>, i: int) -> bool
    decreases c.len() - i,
{
    if i < 0 || i >= c.len() {
        true
    } else if is_date_punct(c[i]) {
        strftime_from(c, i + 1)
    } else if c[i] == '%' && i + 1 < c.len() && is_kept_letter(c[i + 1]) {
        strftime_from(c, i + 2)
    } else if is_offset_spec_at(c, i) {
        strftime_from(c, i + 3)
    } else if is_millis_spec_at(c, i) {
        strftime_from(c, i + 4)
    } else {
        false
    }
}

/// `p` is strftime text of the kind described at `strftime_from`.
pub open spec fn is_strftime_text(p: Seq<char>) -> bool {
    strftime_from(p, 0)
}

proof fn lemma_strftime_from(c: Seq<char>, i: int)
    requires
        0 <= i <= c.len(),
        strftime_from(c, i),
    ensures
        convert_from(c, i) == c.subrange(i, c.len() as int),
    decreases c.len() - i,
{
    reveal_strlit(".SSS");
    reveal_strlit("%Y");
    reveal_strlit("%m");
    reveal_strlit("%d");
    reveal_strlit("%H");
    reveal_strlit("%M");
    reveal_strlit("%S");
    if i == c.len() {
        assert(c.subrange(i, c.len() as int) =~= Seq::<char>::empty());
    } else {
        let ch = c[i];
        let next: int = if is_date_punct(ch) {
            i + 1
        } else if ch == '%' && i + 1 < c.len() && is_kept_letter(c[i + 1]) {
            i + 2
        } else if is_offset_spec_at(c, i) {
            i + 3
        } else {
            i + 4
        };
        if is_date_punct(ch) {
            if ch == '.' && occurs_at(c, i, ".SSS"@) {
                assert(c.subrange(i, i + 4)[1] == c[i + 1]);
                assert(c[i + 1] == 'S');
                assert(!strftime_from(c, i + 1));
            }
            assert(date_step(c, i) == (seq![ch], i + 1));
            assert(seq![ch] =~= c.subrange(i, i + 1));
        } else if ch == '%' && i + 1 < c.len() && is_kept_letter(c[i + 1]) {
            assert(date_step(c, i) == (percent_spec(c[i + 1])->0, i + 2));
            assert(percent_spec(c[i + 1])->0 =~= c.subrange(i, i + 2));
        } else if is_offset_spec_at(c, i) {
            assert(letter_end(c, i + 2) == i + 2);
            assert(letter_end(c, i + 1) == i + 2);
            assert(date_step(c, i) == (c.subrange(i, i + 3), i + 3));
        } else {
            assert(letter_end(c, i + 3) == i + 3);
            assert(letter_end(c, i + 2) == i + 3);
            assert(letter_end(c, i + 1) == i + 3);
            assert(date_step(c, i) == (c.subrange(i, i + 4), i + 4));
        }
        lemma_strftime_from(c, next);
        assert(c.subrange(i, next) + c.subrange(next, c.len() as int) =~= c.subrange(i, c.len() as int));
    }
}

/// A pattern already written in strftime syntax, with the specifiers the
/// table produces, passes through unchanged; so converting the output of
/// the table again changes nothing.
pub proof fn law_strftime_passes_through(p: Seq<char>)
    requires
        is_strftime_text(p),
    ensures
        convert_spec(p) == p,
{
    lemma_strftime_from(p, 0);
    assert(p.subrange(0, p.len() as int) =~= p);
}

/// One element of a Java date pattern: a field of the mapping table, the
/// quoted literal `'T'`, or a separator character.
pub enum DateItem {
    /// `yyyy`
    Year,
    /// `MM`
    Month,
    /// `dd`
    Day,
    /// `HH`
    Hour,
    /// `mm`
    Minute,
    /// `ss`
    Second,
    /// `SSS`
    Millis,
    /// `XXX`
    Offset,
    /// `'T'`
    QuotedT,
    /// A character that is neither an ASCII letter, `'`, `%` nor `.`.
    Sep(char),
}

/// A character that stands for itself between the fields of a pattern.
pub open spec fn is_separator(ch: char) -> bool {
    !is_ascii_letter(ch) && ch != '\'' && ch != '%' && ch != '.'
}

/// The Java text of an item.
pub open spec fn java_item(it: DateItem) -> Seq<char> {
    match it {
        DateItem::Year => seq!['y', 'y', 'y', 'y'],
        DateItem::Month => seq!['M', 'M'],
        DateItem::Day => seq!['d', 'd'],
        DateItem::Hour => seq!['H', 'H'],
        DateItem::Minute => seq!['m', 'm'],
        DateItem::Second => seq!['s', 's'],
        DateItem::Millis => seq!['S', 'S', 'S'],
        DateItem::Offset => seq!['X', 'X', 'X'],
        DateItem::QuotedT => seq!['\'', 'T', '\''],
        DateItem::Sep(c) => seq![c],
    }
}

/// The chrono text of an item, as the mapping table gives it.
pub open spec fn chrono_item(it: DateItem) -> Seq<char> {
    match it {
        DateItem::Year => seq!['%', 'Y'],
        DateItem::Month => seq!['%', 'm'],
        DateItem::Day => seq!['%', 'd'],
        DateItem::Hour => seq!['%', 'H'],
        DateItem::Minute => seq!['%', 'M'],
        DateItem::Second => seq!['%', 'S'],
        DateItem::Millis => seq!['%', '.', '3', 'f'],
        DateItem::Offset => seq!['%', ':', 'z'],
        DateItem::QuotedT => seq!['T'],
        DateItem::Sep(c) => seq![c],
    }
}

/// The items' Java texts, in order.
pub open spec fn java_text(items: Seq<DateItem>) -> Seq<char>
    decreases items.len(),
{
    if items.len() == 0 { Seq::<char>::empty() } else { java_item(items[0]) + java_text(items.drop_first()) }
}

/// The items' chrono texts, in order.
pub open spec fn chrono_text(items: Seq<DateItem>) -> Seq<char>
    decreases items.len(),
{
    if items.len() == 0 { Seq::<char>::empty() } else { chrono_item(items[0]) + chrono_text(items.drop_first()) }
}

/// Every separator item holds a separator character.
pub open spec fn separators_valid(items: Seq<DateItem>) -> bool {
    forall|k: int| 0 <= k < items.len() ==> (#[trigger] items[k] matches DateItem::Sep(c) ==> is_separator(c))
}

/// The conversion step at the start of an item emits the item's chrono text
/// and moves past exactly the item.
proof fn lemma_item_step(c: Seq<char>, i: int, it: DateItem)
    requires
        0 <= i,
        i + java_item(it).len() <= c.len(),
        c.subrange(i, i + java_item(it).len()) == java_item(it),
        it matches DateItem::Sep(ch) ==> is_separator(ch),
    ensures
        date_step(c, i) == (chrono_item(it), i + java_item(it).len()),
{
    reveal_strlit(".SSS");
    reveal_strlit("yyyy");
    reveal_strlit("YYYY");
    reveal_strlit("SSS");
    reveal_strlit("XXX");
    reveal_strlit("MM");
    reveal_strlit("dd");
    reveal_strlit("DD");
    reveal_strlit("HH");
    reveal_strlit("mm");
    reveal_strlit("ss");
    reveal_strlit("SS");
    reveal_strlit("%Y");
    reveal_strlit("%m");
    reveal_strlit("%d");
    reveal_strlit("%H");
    reveal_strlit("%M");
    reveal_strlit("%S");
    reveal_strlit("%.3f");
    reveal_strlit("%:z");
    reveal_strlit("T");
    let t = java_item(it);
    assert forall|k: int| 0 <= k < t.len() implies c[i + k] == t[k] by {
        assert(c.subrange(i, i + t.len())[k] == c[i + k]);
    }
    let ch = c[i];
    assert(ch == t[0]);
    match it {
        DateItem::Year => {
            lemma_at(c, i, "yyyy"@);
        },
        DateItem::Month => {
            lemma_not_at(c, i, "yyyy"@, 0);
            lemma_not_at(c, i, "YYYY"@, 0);
            lemma_not_at(c, i, "SSS"@, 0);
            lemma_not_at(c, i, "XXX"@, 0);
            lemma_at(c, i, "MM"@);
        },
        DateItem::Day => {
            lemma_not_at(c, i, "yyyy"@, 0);
            lemma_not_at(c, i, "YYYY"@, 0);
            lemma_not_at(c, i, "SSS"@, 0);
            lemma_not_at(c, i, "XXX"@, 0);
            lemma_not_at(c, i, "MM"@, 0);
            lemma_at(c, i, "dd"@);
        },
        DateItem::Hour => {
            lemma_not_at(c, i, "yyyy"@, 0);
            lemma_not_at(c, i, "YYYY"@, 0);
            lemma_not_at(c, i, "SSS"@, 0);
            lemma_not_at(c, i, "XXX"@, 0);
            lemma_not_at(c, i, "MM"@, 0);
            lemma_not_at(c, i, "dd"@, 0);
            lemma_not_at(c, i, "DD"@, 0);
            lemma_at(c, i, "HH"@);
        },
        DateItem::Minute => {
            lemma_not_at(c, i, "yyyy"@, 0);
            lemma_not_at(c, i, "YYYY"@, 0);
            lemma_not_at(c, i, "SSS"@, 0);
            lemma_not_at(c, i, "XXX"@, 0);
            lemma_not_at(c, i, "MM"@, 0);
            lemma_not_at(c, i, "dd"@, 0);
            lemma_not_at(c, i, "DD"@, 0);
            lemma_not_at(c, i, "HH"@, 0);
            lemma_at(c, i, "mm"@);
        },
        DateItem::Second => {
            lemma_not_at(c, i, "yyyy"@, 0);
            lemma_not_at(c, i, "YYYY"@, 0);
            lemma_not_at(c, i, "SSS"@, 0);
            lemma_not_at(c, i, "XXX"@, 0);
            lemma_not_at(c, i, "MM"@, 0);
            lemma_not_at(c, i, "dd"@, 0);
            lemma_not_at(c, i, "DD"@, 0);
            lemma_not_at(c, i, "HH"@, 0);
            lemma_not_at(c, i, "mm"@, 0);
            lemma_at(c, i, "ss"@);
        },
        DateItem::Millis => {
            lemma_not_at(c, i, "yyyy"@, 0);
            lemma_not_at(c, i, "YYYY"@, 0);
            lemma_at(c, i, "SSS"@);
        },
        DateItem::Offset => {
            lemma_not_at(c, i, "yyyy"@, 0);
            lemma_not_at(c, i, "YYYY"@, 0);
            lemma_not_at(c, i, "SSS"@, 0);
            lemma_at(c, i, "XXX"@);
        },
        DateItem::QuotedT => {
            lemma_quote_end(c, i + 1);
            assert(quote_end(c, i + 2) == i + 2);
            assert(quote_end(c, i + 1) == i + 2);
            assert(c.subrange(i + 1, i + 2) =~= seq!['T']);
            assert(escape_percent(seq!['T']) == escape_percent(Seq::<char>::empty()) + escape_char('T')) by {
                assert(seq!['T'].drop_last() =~= Seq::<char>::empty());
            }
            assert(escape_percent(seq!['T']) =~= seq!['T']);
        },
        DateItem::Sep(s) => {
            lemma_not_at(c, i, "yyyy"@, 0);
            lemma_not_at(c, i, "YYYY"@, 0);
            lemma_not_at(c, i, "SSS"@, 0);
            lemma_not_at(c, i, "XXX"@, 0);
            lemma_not_at(c, i, "MM"@, 0);
            lemma_not_at(c, i, "dd"@, 0);
            lemma_not_at(c, i, "DD"@, 0);
            lemma_not_at(c, i, "HH"@, 0);
            lemma_not_at(c, i, "mm"@, 0);
            lemma_not_at(c, i, "ss"@, 0);
            lemma_not_at(c, i, "SS"@, 0);
        },
    }
}

proof fn lemma_items_convert(c: Seq<char>, i: int, items: Seq<DateItem>)
    requires
        0 <= i <= c.len(),
        c.subrange(i, c.len() as int) == java_text(items),
        separators_valid(items),
    ensures
        convert_from(c, i) == chrono_text(items),
    decreases items.len(),
{
    if items.len() == 0 {
        assert(c.subrange(i, c.len() as int).len() == 0);
    } else {
        let it = items[0];
        let rest = items.drop_first();
        let t = java_item(it);
        let j = i + t.len();
        assert(java_text(items) == t + java_text(rest));
        assert(c.subrange(i, j) =~= t);
        let whole = c.subrange(i, c.len() as int);
        assert(whole.len() == t.len() + java_text(rest).len());
        assert(j <= c.len());
        assert forall|k: int| 0 <= k < java_text(rest).len() implies #[trigger] c.subrange(j, c.len() as int)[k] == java_text(rest)[k] by {
            assert(c.subrange(j, c.len() as int)[k] == c[j + k]);
            assert(whole[t.len() + k] == c[j + k]);
            assert((t + java_text(rest))[t.len() + k] == java_text(rest)[k]);
        }
        assert(c.subrange(j, c.len() as int) =~= java_text(rest));
        assert(it matches DateItem::Sep(ch) ==> is_separator(ch)) by {
            assert(items[0] == it);
        }
        assert(separators_valid(rest)) by {
            assert forall|k: int| 0 <= k < rest.len() implies (#[trigger] rest[k] matches DateItem::Sep(ch) ==> is_separator(ch)) by {
                assert(rest[k] == items[k + 1]);
            }
        }
        lemma_item_step(c, i, it);
        lemma_items_convert(c, j, rest);
    }
}

/// The mapping table holds wherever its fields stand: a pattern made of the
/// fields `yyyy MM dd HH mm ss SSS XXX`, the quoted `'T'` and separator
/// characters (neither ASCII letters nor `'`, `%`, `.`), in any order,
/// converts field by field to `%Y %m %d %H %M %S %.3f %:z`, `T` and the
/// separators themselves; e.g. `HH:mm:ss,SSS` gives `%H:%M:%S,%.3f`.
pub proof fn law_table_fields_convert(items: Seq<DateItem>)
    requires
        separators_valid(items),
    ensures
        convert_spec(java_text(items)) == chrono_text(items),
{
    let c = java_text(items);
    assert(c.subrange(0, c.len() as int) =~= c);
    lemma_items_convert(c, 0, items);
}

} // verus!
