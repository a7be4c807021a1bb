//! Rendering of a parsed logback pattern against the data of one event.

use vstd::prelude::*;
use crate::level::{Level, level_name};
use crate::span_fields::{SpanFieldStore, law_record_then_get, lookup, pairs_view, record_spec, sorted_keys};
use crate::text::{
    chars_eq_str, chars_of, decimal, parse_usize, parse_usize_spec, push_all, push_str,
    slice_chars, string_of, trim_chars, trim_spec, u128_to_decimal,
};
use crate::{CRATE_NAME, CRATE_VERSION};
use super::abbreviator::{abbreviate_chars, abbreviate_spec};
use super::color::{Color, color_from_name, colored, level_color, level_color_spec, reset};
use super::date::{Timestamp, chrono_format, format_timestamp};
use super::align::{FormatModifier, modifier_apply, modifier_cuts_char};
use super::date::convert_spec;
use super::date::convert_pattern;
use super::lexer::{Keyword, SScan, SToken, Token, lemma_toks_view_push, opt_view, tok_view, toks_view};
use super::lexer::{law_conversion_words, law_single_word_pattern, scan_spec, word_then};
use crate::text::{utf8_len, utf8_len_of};
use crate::text::lowercase;

verus! {

broadcast use vstd::seq_lib::group_seq_properties;

// ---------------------------------------------------------------------------
// Models of event data.

/// The characters of each string.
pub open spec fn strings_view(v: Seq<String>) -> Seq<Seq<char>> {
    v.map_values(|s: String| s@)
}

/// The characters of an optional string.
pub open spec fn opt_string_view(o: Option<String>) -> Option<Seq<char>> {
    match o {
        Some(s) => Some(s@),
        None => None,
    }
}

/// What an event visitor or an `EventData` holds, as character sequences.
pub struct EventModel {
    pub message: Seq<char>,
    pub fields: Seq<(Seq<char>, Seq<char>)>,
    pub error_chain: Seq<Seq<char>>,
    pub marker: Option<Seq<char>>,
}

/// A recorded field under `name` with the `Debug` rendering `v`.
pub open spec fn debug_step(m: EventModel, name: Seq<char>, v: Seq<char>) -> EventModel {
    if name == "message"@ {
        EventModel {
            message: if m.message.len() == 0 { v } else { m.message },
            fields: m.fields,
            error_chain: m.error_chain,
            marker: m.marker,
        }
    } else if name == "marker"@ {
        EventModel {
            message: m.message,
            fields: m.fields,
            error_chain: m.error_chain,
            marker: if m.marker is None { Some(v) } else { m.marker },
        }
    } else if name == "error"@ {
        EventModel {
            message: m.message,
            fields: m.fields.push((name, v)),
            error_chain: if m.error_chain.len() == 0 { seq![v] } else { m.error_chain },
            marker: m.marker,
        }
    } else {
        EventModel {
            message: m.message,
            fields: m.fields.push((name, v)),
            error_chain: m.error_chain,
            marker: m.marker,
        }
    }
}

/// A recorded string field under `name` with value `v`.
pub open spec fn str_step(m: EventModel, name: Seq<char>, v: Seq<char>) -> EventModel {
    if name == "message"@ {
        EventModel {
            message: if m.message.len() == 0 { v } else { m.message },
            fields: m.fields,
            error_chain: m.error_chain,
            marker: m.marker,
        }
    } else if name == "marker"@ {
        EventModel {
            message: m.message,
            fields: m.fields,
            error_chain: m.error_chain,
            marker: if m.marker is None { Some(v) } else { m.marker },
        }
    } else {
        EventModel {
            message: m.message,
            fields: m.fields.push((name, v)),
            error_chain: m.error_chain,
            marker: m.marker,
        }
    }
}

/// A recorded error field under `name`: its source chain `frames` and its
/// `Display` text `text`.
pub open spec fn error_step(m: EventModel, name: Seq<char>, frames: Seq<Seq<char>>, text: Seq<char>) -> EventModel {
    if name == "error"@ {
        EventModel { message: m.message, fields: m.fields, error_chain: frames, marker: m.marker }
    } else if name == "marker"@ {
        EventModel {
            message: m.message,
            fields: m.fields,
            error_chain: m.error_chain,
            marker: if m.marker is None { Some(text) } else { m.marker },
        }
    } else {
        EventModel {
            message: m.message,
            fields: m.fields.push((name, text)),
            error_chain: m.error_chain,
            marker: m.marker,
        }
    }
}

/// `s` trimmed, then stripped of one pair of surrounding double quotes.
pub open spec fn strip_quotes_spec(raw: Seq<char>) -> Seq<char> {
    let t = trim_spec(raw);
    if t.len() >= 2 && t[0] == '"' && t[t.len() - 1] == '"' {
        t.subrange(1, t.len() - 1)
    } else {
        t
    }
}

/// The pairs of `s` whose name is not `k`, in order.
pub open spec fn without_name(s: Seq<(Seq<char>, Seq<char>)>, k: Seq<char>) -> Seq<(Seq<char>, Seq<char>)>
    decreases s.len(),
{
    if s.len() == 0 {
        s
    } else if s.last().0 == k {
        without_name(s.drop_last(), k)
    } else {
        without_name(s.drop_last(), k).push(s.last())
    }
}

/// `name=value` pairs joined by `sep`.
pub open spec fn pairs_joined(s: Seq<(Seq<char>, Seq<char>)>, sep: Seq<char>) -> Seq<char>
    decreases s.len(),
{
    if s.len() == 0 {
        Seq::<char>::empty()
    } else {
        let prev = pairs_joined(s.drop_last(), sep);
        (if s.len() == 1 { prev } else { prev + sep }) + s.last().0 + seq!['='] + s.last().1
    }
}

/// What `%rEx` / `%xEx` append to each frame.
pub open spec fn package_info() -> Seq<char> {
    " ["@ + CRATE_NAME@ + " "@ + CRATE_VERSION@ + "]"@
}

/// One frame of an error chain, with or without package information.
pub open spec fn frame_text(f: Seq<char>, with_package_info: bool) -> Seq<char> {
    if with_package_info { f + package_info() } else { f }
}

/// Frames joined by `"\nCaused by: "`.
pub open spec fn frames_joined(s: Seq<Seq<char>>, with_package_info: bool) -> Seq<char>
    decreases s.len(),
{
    if s.len() == 0 {
        Seq::<char>::empty()
    } else if s.len() == 1 {
        frame_text(s[0], with_package_info)
    } else {
        frames_joined(s.drop_last(), with_package_info) + "\nCaused by: "@ + frame_text(s.last(), with_package_info)
    }
}

/// The frame limit given by an `{n}` option: `n` where it parses as a
/// `usize`, else no limit.
pub open spec fn depth_limit(depth: Option<Seq<char>>) -> nat {
    match depth {
        Some(d) => match parse_usize_spec(d) {
            Some(n) => n as nat,
            None => usize::MAX as nat,
        },
        None => usize::MAX as nat,
    }
}

/// The text of an exception conversion: at most `depth_limit(depth)`
/// frames of `chain`.
pub open spec fn exception_spec(chain: Seq<Seq<char>>, depth: Option<Seq<char>>, with_package_info: bool) -> Seq<char> {
    let n = depth_limit(depth);
    frames_joined(if n < chain.len() { chain.take(n as int) } else { chain }, with_package_info)
}

/// Data collected from one event by a single pass over its fields.
pub struct EventData {
    /// The event's message, with the wrapping `Debug` quotes stripped.
    pub message: String,
    /// All non-message event fields, in the order they were recorded.
    pub fields: Vec<(String, String)>,
    /// Error chain for `%ex` / `%rEx` / `%xEx`, one entry per `source()` frame.
    pub error_chain: Vec<String>,
    /// The `marker` field, for `%marker`.
    pub marker: Option<String>,
}

/// Accumulates the fields of one event as they are recorded.
pub struct EventVisitor {
    /// First `message` field.
    pub message: String,
    /// Other fields, in order.
    pub fields: Vec<(String, String)>,
    /// Captured error chain.
    pub error_chain: Vec<String>,
    /// First `marker` field.
    pub marker: Option<String>,
}

impl EventVisitor {
    /// What the visitor holds.
    pub open spec fn model(&self) -> EventModel {
        EventModel {
            message: self.message@,
            fields: pairs_view(self.fields@),
            error_chain: strings_view(self.error_chain@),
            marker: opt_string_view(self.marker),
        }
    }
}

impl EventData {
    /// What the data holds.
    pub open spec fn model(&self) -> EventModel {
        EventModel {
            message: self.message@,
            fields: pairs_view(self.fields@),
            error_chain: strings_view(self.error_chain@),
            marker: opt_string_view(self.marker),
        }
    }
}

impl Default for EventVisitor {
    fn default() -> (r: Self)
        ensures
            r.model() == (EventModel {
                message: Seq::<char>::empty(),
                fields: Seq::<(Seq<char>, Seq<char>)>::empty(),
                error_chain: Seq::<Seq<char>>::empty(),
                marker: None,
            }),
    {
        let r = EventVisitor { message: String::new(), fields: Vec::new(), error_chain: Vec::new(), marker: None };
        assert(pairs_view(r.fields@) =~= Seq::<(Seq<char>, Seq<char>)>::empty());
        assert(strings_view(r.error_chain@) =~= Seq::<Seq<char>>::empty());
        r
    }
}

/// `name` spelled `lit`.
fn name_is(name: &[char], lit: &str) -> (r: bool)
    ensures
        r == (name@ == lit@),
{
    chars_eq_str(name, lit)
}

/// Appends a pair to `fields`.
fn push_pair(fields: &mut Vec<(String, String)>, name: &str, value: String)
    ensures
        pairs_view(final(fields)@) == pairs_view(old(fields)@).push((name@, value@)),
{
    let ghost v = value@;
    let ghost f0 = fields@;
    let n = String::from_str(name);
    fields.push((n, value));
    assert(pairs_view(fields@) =~= pairs_view(f0).push((name@, v)));
}

impl EventVisitor {
    /// Records a field given by its `Debug` rendering.
    pub fn record_debug(&mut self, name: &str, formatted: String)
        ensures
            final(self).model() == debug_step(old(self).model(), name@, formatted@),
    {
        let nm = chars_of(name);
        if name_is(nm.as_slice(), "message") {
            if self.message.unicode_len() == 0 {
                self.message = formatted;
            }
        } else if name_is(nm.as_slice(), "marker") {
            if self.marker.is_none() {
                self.marker = Some(formatted);
            }
        } else if name_is(nm.as_slice(), "error") {
            if self.error_chain.len() == 0 {
                let ghost c0 = self.error_chain@;
                self.error_chain.push(formatted.clone());
                assert(strings_view(self.error_chain@) =~= seq![formatted@]);
            }
            push_pair(&mut self.fields, name, formatted);
        } else {
            push_pair(&mut self.fields, name, formatted);
        }
    }

    /// Records a string field.
    pub fn record_str(&mut self, name: &str, value: &str)
        ensures
            final(self).model() == str_step(old(self).model(), name@, value@),
    {
        let nm = chars_of(name);
        if name_is(nm.as_slice(), "message") {
            if self.message.unicode_len() == 0 {
                self.message = String::from_str(value);
            }
        } else if name_is(nm.as_slice(), "marker") {
            if self.marker.is_none() {
                self.marker = Some(String::from_str(value));
            }
        } else {
            push_pair(&mut self.fields, name, String::from_str(value));
        }
    }

    /// Records an error field: its `source()` chain `frames` and its
    /// `Display` text `text`.
    pub fn record_error(&mut self, name: &str, frames: Vec<String>, text: String)
        ensures
            final(self).model() == error_step(old(self).model(), name@, strings_view(frames@), text@),
    {
        let nm = chars_of(name);
        if name_is(nm.as_slice(), "error") {
            self.error_chain = frames;
        } else if name_is(nm.as_slice(), "marker") {
            if self.marker.is_none() {
                self.marker = Some(text);
            }
        } else {
            push_pair(&mut self.fields, name, text);
        }
    }
}

/// Trims `raw` and strips one pair of surrounding double quotes.
pub fn strip_message_quotes(raw: &str) -> (r: String)
    ensures
        r@ == strip_quotes_spec(raw@),
{
    let c = chars_of(raw);
    let t = trim_chars(c.as_slice());
    let n = t.len();
    if n >= 2 && t[0] == '"' && t[n - 1] == '"' {
        let s = slice_chars(t.as_slice(), 1, n - 1);
        string_of(s.as_slice())
    } else {
        string_of(t.as_slice())
    }
}

/// Copies the strings of `v`.
fn clone_strings(v: &Vec<String>) -> (r: Vec<String>)
    ensures
        strings_view(r@) == strings_view(v@),
{
    let mut r: Vec<String> = Vec::new();
    let mut i: usize = 0;
    while i < v.len()
        invariant
            0 <= i <= v@.len(),
            strings_view(r@) == strings_view(v@.take(i as int)),
        decreases v@.len() - i,
    {
        let ghost r0 = r@;
        r.push(v[i].clone());
        assert(strings_view(r@) =~= strings_view(r0).push(v@[i as int]@));
        assert(strings_view(v@.take(i + 1)) =~= strings_view(v@.take(i as int)).push(v@[i as int]@));
        i = i + 1;
    }
    assert(v@.take(v@.len() as int) =~= v@);
    r
}

impl EventData {
    /// Builds the event data from what a visitor collected: the message is
    /// stripped of its quotes and fields named `message` are dropped.
    pub fn collect(visitor: EventVisitor) -> (r: EventData)
        ensures
            r.model() == (EventModel {
                message: strip_quotes_spec(visitor.message@),
                fields: without_name(pairs_view(visitor.fields@), "message"@),
                error_chain: strings_view(visitor.error_chain@),
                marker: opt_string_view(visitor.marker),
            }),
    {
        let message = strip_message_quotes(visitor.message.as_str());
        let mut fields: Vec<(String, String)> = Vec::new();
        let ghost src = pairs_view(visitor.fields@);
        let mut i: usize = 0;
        while i < visitor.fields.len()
            invariant
                0 <= i <= visitor.fields@.len(),
                src == pairs_view(visitor.fields@),
                pairs_view(fields@) == without_name(src.take(i as int), "message"@),
            decreases visitor.fields@.len() - i,
        {
            let nm = chars_of(visitor.fields[i].0.as_str());
            assert(src.take(i + 1).drop_last() =~= src.take(i as int));
            assert(src[i as int] == (visitor.fields@[i as int].0@, visitor.fields@[i as int].1@));
            if !name_is(nm.as_slice(), "message") {
                let ghost f0 = fields@;
                let a = visitor.fields[i].0.clone();
                let b = visitor.fields[i].1.clone();
                fields.push((a, b));
                assert(pairs_view(fields@) =~= pairs_view(f0).push(src[i as int]));
            }
            i = i + 1;
        }
        assert(src.take(src.len() as int) =~= src);
        let error_chain = clone_strings(&visitor.error_chain);
        EventData { message, fields, error_chain, marker: visitor.marker }
    }

    /// The value of the first non-message field called `name`.
    pub fn field(&self, name: &str) -> (r: Option<&str>)
        ensures
            match r {
                Some(v) => lookup(pairs_view(self.fields@), name@) == Some(v@),
                None => lookup(pairs_view(self.fields@), name@) is None,
            },
    {
        let ghost s = pairs_view(self.fields@);
        let k = chars_of(name);
        let mut i: usize = 0;
        while i < self.fields.len()
            invariant
                0 <= i <= self.fields@.len(),
                s == pairs_view(self.fields@),
                lookup(s, name@) == lookup(s.skip(i as int), name@),
            decreases self.fields@.len() - i,
        {
            let ghost rest = s.skip(i as int);
            assert(rest[0] == (self.fields@[i as int].0@, self.fields@[i as int].1@));
            assert(rest.drop_first() =~= s.skip(i + 1));
            let fk = chars_of(self.fields[i].0.as_str());
            if name_is(fk.as_slice(), name) {
                return Some(self.fields[i].1.as_str());
            }
            i = i + 1;
        }
        None
    }

    /// All non-message fields as `key1=value1 key2=value2`.
    pub fn kvp_string(&self) -> (r: String)
        ensures
            r@ == pairs_joined(pairs_view(self.fields@), seq![' ']),
    {
        let mut out: Vec<char> = Vec::new();
        kvp_write(self, &mut out);
        string_of(out.as_slice())
    }
}

/// Appends `name=value` pairs joined by `sep`.
fn pairs_write(fields: &Vec<(String, String)>, sep: &str, out: &mut Vec<char>)
    ensures
        final(out)@ == old(out)@ + pairs_joined(pairs_view(fields@), sep@),
{
    let ghost s = pairs_view(fields@);
    let ghost o0 = out@;
    let mut i: usize = 0;
    while i < fields.len()
        invariant
            0 <= i <= fields@.len(),
            s == pairs_view(fields@),
            out@ == o0 + pairs_joined(s.take(i as int), sep@),
        decreases fields@.len() - i,
    {
        let ghost before = out@;
        assert(s.take(i + 1).drop_last() =~= s.take(i as int));
        assert(s[i as int] == (fields@[i as int].0@, fields@[i as int].1@));
        if i > 0 {
            push_str(out, sep);
        }
        push_str(out, fields[i].0.as_str());
        out.push('=');
        push_str(out, fields[i].1.as_str());
        assert(out@ =~= o0 + pairs_joined(s.take(i + 1), sep@));
        i = i + 1;
    }
    assert(s.take(s.len() as int) =~= s);
}

/// Appends the event's fields as `key=value` pairs joined by spaces.
pub fn kvp_write(data: &EventData, out: &mut Vec<char>)
    ensures
        final(out)@ == old(out)@ + pairs_joined(pairs_view(data.fields@), seq![' ']),
{
    pairs_write(&data.fields, " ", out);
    proof {
        reveal_strlit(" ");
        assert(" "@ =~= seq![' ']);
    }
}

/// Appends a frame, with the package information where asked.
fn frame_write(frame: &str, with_package_info: bool, out: &mut Vec<char>)
    ensures
        final(out)@ == old(out)@ + frame_text(frame@, with_package_info),
{
    push_str(out, frame);
    if with_package_info {
        let ghost o = out@;
        push_str(out, " [");
        push_str(out, CRATE_NAME);
        push_str(out, " ");
        push_str(out, CRATE_VERSION);
        push_str(out, "]");
        assert(out@ =~= o + package_info());
    }
}

/// Appends at most `depth_limit(depth)` frames of the event's error chain.
pub fn exception_write(data: &EventData, depth: Option<&str>, with_package_info: bool, out: &mut Vec<char>)
    ensures
        final(out)@ == old(out)@ + exception_spec(
            strings_view(data.error_chain@),
            match depth { Some(d) => Some(d@), None => None },
            with_package_info,
        ),
{
    let ghost chain = strings_view(data.error_chain@);
    let ghost dv: Option<Seq<char>> = match depth { Some(d) => Some(d@), None => None };
    let max_depth: usize = match depth {
        Some(d) => {
            let dc = chars_of(d);
            match parse_usize(dc.as_slice()) {
                Some(n) => n,
                None => usize::MAX,
            }
        },
        None => usize::MAX,
    };
    assert(max_depth as nat == depth_limit(dv));
    let n: usize = if max_depth < data.error_chain.len() { max_depth } else { data.error_chain.len() };
    let ghost taken = if depth_limit(dv) < chain.len() { chain.take(depth_limit(dv) as int) } else { chain };
    assert(taken =~= chain.take(n as int));
    let ghost o0 = out@;
    let mut i: usize = 0;
    while i < n
        invariant
            0 <= i <= n,
            n <= data.error_chain@.len(),
            chain == strings_view(data.error_chain@),
            out@ == o0 + frames_joined(chain.take(i as int), with_package_info),
        decreases n - i,
    {
        assert(chain.take(i + 1).drop_last() =~= chain.take(i as int));
        assert(chain[i as int] == data.error_chain@[i as int]@);
        if i > 0 {
            push_str(out, "\nCaused by: ");
        }
        let ghost before = out@;
        frame_write(data.error_chain[i].as_str(), with_package_info, out);
        if i == 0 {
            assert(chain.take(1)[0] == chain[0]);
        }
        assert(out@ =~= o0 + frames_joined(chain.take(i + 1), with_package_info));
        i = i + 1;
    }
}

// ---------------------------------------------------------------------------
// The context of an event and the text of each conversion word.

/// The span an event was recorded in.
pub struct SpanContext {
    /// The span's name (`%M` / `%method`).
    pub name: String,
    /// The fields captured for the span, where the span has a store.
    pub fields: Option<SpanFieldStore>,
}

/// What a formatter reads of an event besides its fields.
pub struct EventContext {
    /// The event's level.
    pub level: Level,
    /// The event's target (`%logger` / `%class`).
    pub target: String,
    /// Source file, where known.
    pub file: Option<String>,
    /// Source line, where known.
    pub line: Option<u32>,
    /// Name of the thread that recorded the event.
    pub thread_name: String,
    /// The current span, if any.
    pub span: Option<SpanContext>,
    /// Milliseconds since the formatter was created (`%relative`).
    pub relative_millis: u128,
    /// The time of the event (`%d`).
    pub now: Timestamp,
}

/// The entries captured for the current span, where there is a span with a store.
pub open spec fn span_entries(ev: EventContext) -> Option<Seq<(Seq<char>, Seq<char>)>> {
    match ev.span {
        Some(sp) => match sp.fields {
            Some(st) => Some(st.entries()),
            None => None,
        },
        None => None,
    }
}

/// `%X` / `%mdc`: with a key, the span's value for it, else the event
/// field's, else nothing; without one, all span fields as `{k=v, ...}`.
pub open spec fn mdc_spec(ev: EventContext, data: EventData, key: Option<Seq<char>>) -> Seq<char> {
    match key {
        Some(k) => {
            let from_span = match span_entries(ev) {
                Some(e) => lookup(e, k),
                None => None,
            };
            match from_span {
                Some(v) => v,
                None => match lookup(pairs_view(data.fields@), k) {
                    Some(v) => v,
                    None => Seq::<char>::empty(),
                },
            }
        },
        None => match span_entries(ev) {
            Some(e) => seq!['{'] + pairs_joined(e, ", "@) + seq!['}'],
            None => Seq::<char>::empty(),
        },
    }
}

/// The colour named by a `%clr` option, white by default.
pub open spec fn clr_color(opt: Option<Seq<char>>) -> Color {
    match opt {
        Some(o) => match color_from_name(lowercase(o)) {
            Some(c) => c,
            None => Color::White,
        },
        None => Color::White,
    }
}

/// `%clr(inner){color}`.
pub open spec fn clr_spec(inner: Seq<char>, opt: Option<Seq<char>>) -> Seq<char> {
    if inner.len() == 0 { Seq::<char>::empty() } else { colored(clr_color(opt), inner) }
}

/// The strftime pattern `%d` uses without an option.
pub open spec fn default_date_format() -> Seq<char> {
    "%Y-%m-%d %H:%M:%S%.3f"@
}

/// The abbreviation length given by a `%logger{n}` option, 0 by default.
pub open spec fn logger_length(opt: Option<Seq<char>>) -> usize {
    match opt {
        Some(o) => match parse_usize_spec(o) {
            Some(n) => n,
            None => 0,
        },
        None => 0,
    }
}

/// The UTF-8 length of `s` is below `usize::MAX`: true of any text held in
/// memory.
pub open spec fn measurable(s: Seq<char>) -> bool {
    utf8_len(s) < usize::MAX
}

/// An optional string, or nothing.
pub open spec fn or_empty(o: Option<Seq<char>>) -> Seq<char> {
    match o {
        Some(s) => s,
        None => Seq::<char>::empty(),
    }
}

/// The text of conversion word `kw` with option `option` and rendered
/// sub-pattern `inner`; `None` where rendering it panics.
pub open spec fn keyword_text(
    pid: Seq<char>,
    ev: EventContext,
    data: EventData,
    kw: Keyword,
    option: Option<Seq<char>>,
    inner: Seq<char>,
) -> Option<Seq<char>> {
    match kw {
        Keyword::Date => chrono_format(
            ev.now.millis as int,
            ev.now.offset_secs as int,
            match option { Some(o) => o, None => default_date_format() },
        ),
        Keyword::Relative => Some(decimal(ev.relative_millis as nat)),
        Keyword::Level => Some(level_name(ev.level)),
        Keyword::Thread => Some(ev.thread_name@),
        Keyword::Logger | Keyword::Class => {
            let len = logger_length(option);
            if len == 0 {
                Some(ev.target@)
            } else if !measurable(ev.target@) {
                None
            } else {
                Some(abbreviate_spec(ev.target@, len as nat))
            }
        },
        Keyword::Message => Some(data.message@),
        Keyword::Line => Some(match ev.line { Some(l) => decimal(l as nat), None => Seq::<char>::empty() }),
        Keyword::File => Some(or_empty(opt_string_view(ev.file))),
        Keyword::Method => Some(match ev.span { Some(sp) => sp.name@, None => Seq::<char>::empty() }),
        Keyword::Mdc => Some(mdc_spec(ev, data, option)),
        Keyword::Kvp => Some(pairs_joined(pairs_view(data.fields@), seq![' '])),
        Keyword::Marker => Some(or_empty(opt_string_view(data.marker))),
        Keyword::Exception => Some(exception_spec(strings_view(data.error_chain@), option, false)),
        Keyword::RootException | Keyword::ExtendedException => Some(
            exception_spec(strings_view(data.error_chain@), option, true),
        ),
        Keyword::NopException => Some(Seq::<char>::empty()),
        Keyword::Pid => Some(pid),
        Keyword::Highlight => Some(
            colored(level_color_spec(ev.level), if inner.len() == 0 { level_name(ev.level) } else { inner }),
        ),
        Keyword::Clr => Some(clr_spec(inner, option)),
        Keyword::ColorWord(c) => Some(if inner.len() == 0 { Seq::<char>::empty() } else { colored(c, inner) }),
        Keyword::Percent => Some(seq!['%']),
    }
}

/// Appends `s` wrapped in the escape sequences of `c`.
pub(crate) fn colored_write(c: Color, s: &[char], out: &mut Vec<char>)
    ensures
        final(out)@ == old(out)@ + colored(c, s@),
{
    let ghost o = out@;
    push_str(out, c.code());
    push_all(out, s);
    push_str(out, reset());
    assert(out@ =~= o + colored(c, s@));
}

/// Appends an optional string, or nothing.
pub(crate) fn opt_write(o: &Option<String>, out: &mut Vec<char>)
    ensures
        final(out)@ == old(out)@ + or_empty(opt_string_view(*o)),
{
    match o {
        Some(s) => push_str(out, s.as_str()),
        None => {
            assert(old(out)@ + Seq::<char>::empty() =~= old(out)@);
        },
    }
}

/// The optional string as a `&str`.
pub(crate) fn opt_str(o: &Option<String>) -> (r: Option<&str>)
    ensures
        match r { Some(d) => Some(d@), None => None::<Seq<char>> } == opt_string_view(*o),
{
    match o {
        Some(s) => Some(s.as_str()),
        None => None,
    }
}

/// Appends the `%mdc` text.
pub(crate) fn mdc_write(ev: &EventContext, data: &EventData, key: Option<&str>, out: &mut Vec<char>)
    ensures
        final(out)@ == old(out)@ + mdc_spec(*ev, *data, match key { Some(k) => Some(k@), None => None }),
{
    let ghost o = out@;
    match key {
        Some(k) => {
            let from_span: Option<&str> = match &ev.span {
                Some(sp) => match &sp.fields {
                    Some(st) => st.get(k),
                    None => None,
                },
                None => None,
            };
            match from_span {
                Some(v) => push_str(out, v),
                None => match data.field(k) {
                    Some(v) => push_str(out, v),
                    None => {
                        assert(out@ =~= o + Seq::<char>::empty());
                    },
                },
            }
        },
        None => {
            match &ev.span {
                Some(sp) => match &sp.fields {
                    Some(st) => {
                        let pairs = st.iter();
                        out.push('{');
                        pairs_write(&pairs, ", ", out);
                        out.push('}');
                        assert(out@ =~= o + (seq!['{'] + pairs_joined(st.entries(), ", "@) + seq!['}']));
                    },
                    None => {
                        assert(out@ =~= o + Seq::<char>::empty());
                    },
                },
                None => {
                    assert(out@ =~= o + Seq::<char>::empty());
                },
            }
        },
    }
}

/// Whether `s` is `measurable`.
pub(crate) fn is_measurable(s: &[char]) -> (r: bool)
    ensures
        r == measurable(s@),
{
    utf8_len_of(s) < usize::MAX
}

/// The text of a token; `None` where rendering it panics.
pub open spec fn render_token(pid: Seq<char>, ev: EventContext, data: EventData, t: SToken) -> Option<Seq<char>>
    decreases t,
{
    match t {
        SToken::Literal(s) => Some(s),
        SToken::Newline => Some(seq!['\n']),
        SToken::Percent => Some(seq!['%']),
        SToken::Conversion { modifier, keyword, option, sub_pattern } => {
            let inner = match sub_pattern {
                Some(sub) => render_tokens(pid, ev, data, sub),
                None => Some(Seq::<char>::empty()),
            };
            match inner {
                None => None,
                Some(i) => match keyword_text(pid, ev, data, keyword, option, i) {
                    None => None,
                    Some(k) => match modifier {
                        None => Some(k),
                        Some(m) => if !measurable(k) || modifier_cuts_char(m, k) {
                            None
                        } else {
                            Some(modifier_apply(m, k))
                        },
                    },
                },
            }
        },
    }
}

/// The texts of `toks`, concatenated; `None` where rendering one of them panics.
pub open spec fn render_tokens(pid: Seq<char>, ev: EventContext, data: EventData, toks: Seq<SToken>) -> Option<Seq<char>>
    decreases toks,
{
    if toks.len() == 0 {
        Some(Seq::<char>::empty())
    } else {
        match render_tokens(pid, ev, data, toks.drop_last()) {
            None => None,
            Some(a) => match render_token(pid, ev, data, toks.last()) {
                None => None,
                Some(b) => Some(a + b),
            },
        }
    }
}

/// `k` names an exception conversion (only `%nopex` where `nop_only`).
pub open spec fn exception_keyword(k: Keyword, nop_only: bool) -> bool {
    if nop_only {
        k is NopException
    } else {
        k is Exception || k is RootException || k is ExtendedException || k is NopException
    }
}

/// Some conversion of `t`, or of its sub-pattern, is an exception keyword.
pub open spec fn token_mentions(t: SToken, nop_only: bool) -> bool
    decreases t,
{
    match t {
        SToken::Conversion { keyword, sub_pattern, .. } => exception_keyword(keyword, nop_only) || match sub_pattern {
            Some(sub) => tokens_mention(sub, nop_only),
            None => false,
        },
        _ => false,
    }
}

/// Some token of `toks` mentions an exception keyword.
pub open spec fn tokens_mention(toks: Seq<SToken>, nop_only: bool) -> bool
    decreases toks,
{
    if toks.len() == 0 {
        false
    } else {
        tokens_mention(toks.drop_last(), nop_only) || token_mentions(toks.last(), nop_only)
    }
}

/// The token with each `%d` option turned into a chrono pattern.
pub open spec fn preprocess_token(t: SToken) -> SToken
    decreases t,
{
    match t {
        SToken::Conversion { modifier, keyword, option, sub_pattern } => SToken::Conversion {
            modifier,
            keyword,
            option: if keyword is Date {
                match option {
                    Some(o) => Some(convert_spec(o)),
                    None => None,
                }
            } else {
                option
            },
            sub_pattern: match sub_pattern {
                Some(sub) => Some(preprocess_tokens(sub)),
                None => None,
            },
        },
        _ => t,
    }
}

/// Each token preprocessed.
pub open spec fn preprocess_tokens(toks: Seq<SToken>) -> Seq<SToken>
    decreases toks,
{
    if toks.len() == 0 {
        toks
    } else {
        preprocess_tokens(toks.drop_last()).push(preprocess_token(toks.last()))
    }
}

/// Caches the last formatted timestamp.
pub struct TimestampCache {
    last: Option<Timestamp>,
    formatted: String,
    chrono_fmt: Option<String>,
}

impl TimestampCache {
    #[verifier::type_invariant]
    spec fn inv(&self) -> bool {
        match self.last {
            Some(ts) => match self.chrono_fmt {
                Some(f) => chrono_format(ts.millis as int, ts.offset_secs as int, f@) == Some(self.formatted@),
                None => false,
            },
            None => true,
        }
    }

    /// The cached entry: the instant, the pattern and the text last
    /// formatted, if any.
    pub closed spec fn entry(&self) -> Option<(Timestamp, Seq<char>, Seq<char>)> {
        match self.last {
            Some(ts) => match self.chrono_fmt {
                Some(f) => Some((ts, f@, self.formatted@)),
                None => None,
            },
            None => None,
        }
    }

    /// An empty cache.
    pub fn new() -> (r: Self)
        ensures
            r.entry() is None,
    {
        TimestampCache { last: None, formatted: String::new(), chrono_fmt: None }
    }

    /// `ts` formatted with the strftime pattern `fmt`, from the cache when
    /// the same instant was last formatted with the same pattern. The cache
    /// then holds this result; where chrono cannot format, it is emptied.
    pub fn get(&mut self, ts: Timestamp, fmt: &str) -> (r: Option<String>)
        ensures
            match r {
                Some(s) => chrono_format(ts.millis as int, ts.offset_secs as int, fmt@) == Some(s@)
                    && final(self).entry() == Some((ts, fmt@, s@)),
                None => chrono_format(ts.millis as int, ts.offset_secs as int, fmt@) is None
                    && final(self).entry() is None,
            },
    {
        proof {
            use_type_invariant(&*self);
        }
        let same_instant = match self.last {
            Some(l) => l == ts,
            None => false,
        };
        if same_instant {
            let same_fmt = match &self.chrono_fmt {
                Some(f) => {
                    let fc = chars_of(f.as_str());
                    chars_eq_str(fc.as_slice(), fmt)
                },
                None => false,
            };
            if same_fmt {
                return Some(self.formatted.clone());
            }
        }
        match format_timestamp(ts, fmt) {
            Some(s) => {
                let out = s.clone();
                *self = TimestampCache { last: Some(ts), formatted: s, chrono_fmt: Some(String::from_str(fmt)) };
                Some(out)
            },
            None => {
                *self = TimestampCache { last: None, formatted: String::new(), chrono_fmt: None };
                None
            },
        }
    }
}

/// Logback pattern formatter: renders an event with parsed pattern tokens.
pub struct LogbackFormatter {
    tokens: Vec<Token>,
    has_exception: bool,
    has_nopex: bool,
    pid: String,
}

/// The text of the whole event; `None` where rendering panics. An error
/// chain is appended when the pattern has no exception conversion.
pub open spec fn format_spec(f: LogbackFormatter, ev: EventContext, data: EventData) -> Option<Seq<char>> {
    match render_tokens(f.pid_model(), ev, data, f.tokens_model()) {
        Some(body) => Some(
            if !f.has_exception_model() && !f.has_nopex_model() && data.error_chain@.len() > 0 {
                body + seq!['\n'] + exception_spec(strings_view(data.error_chain@), None, false)
            } else {
                body
            },
        ),
        None => None,
    }
}

/// `f` was built from the tokens `toks` and the process id `pid`: its tokens
/// are `toks` preprocessed, and it knows whether they mention exception
/// conversions.
pub open spec fn built_from(f: LogbackFormatter, toks: Seq<SToken>, pid: u32) -> bool {
    &&& f.tokens_model() == preprocess_tokens(toks)
    &&& f.has_exception_model() == tokens_mention(f.tokens_model(), false)
    &&& f.has_nopex_model() == tokens_mention(f.tokens_model(), true)
    &&& f.pid_model() == decimal(pid as nat)
}

impl LogbackFormatter {
    /// The formatter's tokens.
    pub closed spec fn tokens_model(&self) -> Seq<SToken> {
        toks_view(self.tokens@)
    }

    /// Whether the pattern has an exception conversion.
    pub closed spec fn has_exception_model(&self) -> bool {
        self.has_exception
    }

    /// Whether the pattern has `%nopex`.
    pub closed spec fn has_nopex_model(&self) -> bool {
        self.has_nopex
    }

    /// The process id, in decimal.
    pub closed spec fn pid_model(&self) -> Seq<char> {
        self.pid@
    }
}

/// The text of conversion word `kw`; `None` where rendering it panics.
#[verifier::spinoff_prover]
fn keyword_chars(
    pid: &str,
    ev: &EventContext,
    data: &EventData,
    kw: Keyword,
    option: &Option<String>,
    inner: &[char],
    cache: &mut TimestampCache,
) -> (r: Option<Vec<char>>)
    ensures
        opt_view(r) == keyword_text(pid@, *ev, *data, kw, opt_string_view(*option), inner@),
{
    let ghost opt = opt_string_view(*option);
    let mut out: Vec<char> = Vec::new();
    match kw {
        Keyword::Date => {
            let fmt: &str = match option {
                Some(o) => o.as_str(),
                None => "%Y-%m-%d %H:%M:%S%.3f",
            };
            return match cache.get(ev.now, fmt) {
                Some(s) => Some(chars_of(s.as_str())),
                None => None,
            };
        },
        Keyword::Relative => {
            return Some(u128_to_decimal(ev.relative_millis));
        },
        Keyword::Level => push_str(&mut out, ev.level.as_str()),
        Keyword::Thread => push_str(&mut out, ev.thread_name.as_str()),
        Keyword::Logger | Keyword::Class => {
            let len: usize = match option {
                Some(o) => {
                    let oc = chars_of(o.as_str());
                    match parse_usize(oc.as_slice()) {
                        Some(n) => n,
                        None => 0,
                    }
                },
                None => 0,
            };
            assert(len == logger_length(opt));
            let target = chars_of(ev.target.as_str());
            if len == 0 {
                return Some(target);
            }
            if !is_measurable(target.as_slice()) {
                return None;
            }
            return Some(abbreviate_chars(target.as_slice(), len));
        },
        Keyword::Message => push_str(&mut out, data.message.as_str()),
        Keyword::Line => {
            if let Some(l) = ev.line {
                return Some(u128_to_decimal(l as u128));
            }
        },
        Keyword::File => opt_write(&ev.file, &mut out),
        Keyword::Method => {
            if let Some(sp) = &ev.span {
                push_str(&mut out, sp.name.as_str());
            }
        },
        Keyword::Mdc => mdc_write(ev, data, opt_str(option), &mut out),
        Keyword::Kvp => kvp_write(data, &mut out),
        Keyword::Marker => opt_write(&data.marker, &mut out),
        Keyword::Exception => exception_write(data, opt_str(option), false, &mut out),
        Keyword::RootException | Keyword::ExtendedException => exception_write(data, opt_str(option), true, &mut out),
        Keyword::NopException => {},
        Keyword::Pid => push_str(&mut out, pid),
        Keyword::Highlight => {
            let c = level_color(&ev.level);
            if inner.len() == 0 {
                let name = chars_of(ev.level.as_str());
                colored_write(c, name.as_slice(), &mut out);
            } else {
                colored_write(c, inner, &mut out);
            }
        },
        Keyword::Clr => {
            if inner.len() > 0 {
                let c = match option {
                    Some(o) => match Color::parse(o.as_str()) {
                        Some(c) => c,
                        None => Color::White,
                    },
                    None => Color::White,
                };
                colored_write(c, inner, &mut out);
            }
        },
        Keyword::ColorWord(c) => {
            if inner.len() > 0 {
                colored_write(c, inner, &mut out);
            }
        },
        Keyword::Percent => out.push('%'),
    }
    assert(Seq::<char>::empty() + out@ =~= out@);
    Some(out)
}

/// Whether some token of `toks` mentions an exception keyword.
fn scan_mentions(toks: &[Token], nop_only: bool) -> (r: bool)
    ensures
        r == tokens_mention(toks_view(toks@), nop_only),
    decreases toks@,
{
    let mut i: usize = 0;
    while i < toks.len()
        invariant
            0 <= i <= toks@.len(),
            !tokens_mention(toks_view(toks@.take(i as int)), nop_only),
        decreases toks@.len() - i,
    {
        proof {
            assert(toks@.take(i + 1) =~= toks@.take(i as int).push(toks@[i as int]));
            lemma_toks_view_push(toks@.take(i as int), toks@[i as int]);
            assert(toks_view(toks@.take(i + 1)).drop_last() =~= toks_view(toks@.take(i as int)));
        }
        let found = match &toks[i] {
            Token::Conversion { keyword, sub_pattern, .. } => {
                let k = *keyword;
                let direct = if nop_only {
                    match k { Keyword::NopException => true, _ => false }
                } else {
                    match k {
                        Keyword::Exception | Keyword::RootException | Keyword::ExtendedException | Keyword::NopException => true,
                        _ => false,
                    }
                };
                if direct {
                    true
                } else {
                    match sub_pattern {
                        Some(sub) => {
                            assert(decreases_to!(toks@ => toks@[i as int]));
                            scan_mentions(sub.as_slice(), nop_only)
                        },
                        None => false,
                    }
                }
            },
            _ => false,
        };
        proof {
            let t = tok_view(toks@[i as int]);
            assert(toks_view(toks@.take(i + 1)).last() == t);
            assert(found == token_mentions(t, nop_only));
        }
        if found {
            proof {
                lemma_mentions_prefix(toks@, i as int + 1, nop_only);
            }
            return true;
        }
        i = i + 1;
    }
    assert(toks@.take(toks@.len() as int) =~= toks@);
    false
}

/// A token found in a prefix is found in the whole sequence.
proof fn lemma_mentions_prefix(toks: Seq<Token>, k: int, nop_only: bool)
    requires
        0 <= k <= toks.len(),
        tokens_mention(toks_view(toks.take(k)), nop_only),
    ensures
        tokens_mention(toks_view(toks), nop_only),
    decreases toks.len() - k,
{
    if k < toks.len() {
        assert(toks.take(k + 1) =~= toks.take(k).push(toks[k]));
        lemma_toks_view_push(toks.take(k), toks[k]);
        assert(toks_view(toks.take(k + 1)).drop_last() =~= toks_view(toks.take(k)));
        lemma_mentions_prefix(toks, k + 1, nop_only);
    } else {
        assert(toks.take(k) =~= toks);
    }
}

/// A prefix that fails to render makes the whole sequence fail.
proof fn lemma_render_prefix_none(pid: Seq<char>, ev: EventContext, data: EventData, toks: Seq<Token>, k: int)
    requires
        0 <= k <= toks.len(),
        render_tokens(pid, ev, data, toks_view(toks.take(k))) is None,
    ensures
        render_tokens(pid, ev, data, toks_view(toks)) is None,
    decreases toks.len() - k,
{
    if k < toks.len() {
        assert(toks.take(k + 1) =~= toks.take(k).push(toks[k]));
        lemma_toks_view_push(toks.take(k), toks[k]);
        assert(toks_view(toks.take(k + 1)).drop_last() =~= toks_view(toks.take(k)));
        lemma_render_prefix_none(pid, ev, data, toks, k + 1);
    } else {
        assert(toks.take(k) =~= toks);
    }
}

/// Renders `toks`; `None` where rendering one of them panics.
#[verifier::spinoff_prover]
fn render_seq(
    pid: &str,
    ev: &EventContext,
    data: &EventData,
    toks: &[Token],
    cache: &mut TimestampCache,
) -> (r: Option<Vec<char>>)
    ensures
        opt_view(r) == render_tokens(pid@, *ev, *data, toks_view(toks@)),
    decreases toks@,
{
    let mut out: Vec<char> = Vec::new();
    let mut i: usize = 0;
    proof {
        assert(toks@.take(0) =~= Seq::<Token>::empty());
        assert(toks_view(Seq::<Token>::empty()) =~= Seq::<SToken>::empty());
    }
    while i < toks.len()
        invariant
            0 <= i <= toks@.len(),
            render_tokens(pid@, *ev, *data, toks_view(toks@.take(i as int))) == Some(out@),
        decreases toks@.len() - i,
    {
        proof {
            assert(toks@.take(i + 1) =~= toks@.take(i as int).push(toks@[i as int]));
            lemma_toks_view_push(toks@.take(i as int), toks@[i as int]);
            assert(toks_view(toks@.take(i + 1)).drop_last() =~= toks_view(toks@.take(i as int)));
        }
        let piece: Option<Vec<char>> = match &toks[i] {
            Token::Literal(s) => Some(chars_of(s.as_str())),
            Token::Newline => {
                let mut v: Vec<char> = Vec::new();
                v.push('\n');
                Some(v)
            },
            Token::Percent => {
                let mut v: Vec<char> = Vec::new();
                v.push('%');
                Some(v)
            },
            Token::Conversion { modifier, keyword, option, sub_pattern } => {
                let inner: Option<Vec<char>> = match sub_pattern {
                    Some(sub) => {
                        assert(decreases_to!(toks@ => toks@[i as int]));
                        render_seq(pid, ev, data, sub.as_slice(), cache)
                    },
                    None => Some(Vec::new()),
                };
                match inner {
                    None => None,
                    Some(iv) => match keyword_chars(pid, ev, data, *keyword, option, iv.as_slice(), cache) {
                        None => None,
                        Some(k) => match modifier {
                            None => Some(k),
                            Some(m) => {
                                if !is_measurable(k.as_slice()) {
                                    None
                                } else {
                                    m.apply_checked(k.as_slice())
                                }
                            },
                        },
                    },
                }
            },
        };
        proof {
            let t = tok_view(toks@[i as int]);
            assert(toks_view(toks@.take(i + 1)).last() == t);
            assert(opt_view(piece) == render_token(pid@, *ev, *data, t));
        }
        match piece {
            None => {
                proof {
                    lemma_render_prefix_none(pid@, *ev, *data, toks@, i + 1);
                }
                return None;
            },
            Some(p) => {
                push_all(&mut out, p.as_slice());
            },
        }
        i = i + 1;
    }
    assert(toks@.take(toks@.len() as int) =~= toks@);
    Some(out)
}

/// Turns the option of each `%d` into a chrono pattern.
#[verifier::spinoff_prover]
fn preprocess_date_tokens(tokens: Vec<Token>) -> (r: Vec<Token>)
    ensures
        toks_view(r@) == preprocess_tokens(toks_view(tokens@)),
    decreases tokens@,
{
    let ghost orig = tokens@;
    let ghost orig_len = tokens.len();
    let mut rest = tokens;
    let mut out: Vec<Token> = Vec::new();
    let mut k: usize = 0;
    proof {
        assert(orig.skip(0) =~= orig);
        assert(orig.take(0) =~= Seq::<Token>::empty());
        assert(toks_view(Seq::<Token>::empty()) =~= Seq::<SToken>::empty());
        assert(out@ =~= Seq::<Token>::empty());
    }
    while rest.len() > 0
        invariant
            k <= orig.len(),
            orig.len() == orig_len,
            orig == tokens@,
            orig_len <= usize::MAX,
            rest@ == orig.skip(k as int),
            toks_view(out@) == preprocess_tokens(toks_view(orig.take(k as int))),
        decreases rest@.len(),
    {
        let ghost r0 = rest@;
        let t = rest.remove(0);
        assert(t == orig[k as int]);
        assert(rest@ =~= orig.skip(k + 1));
        let ghost tt = t;
        let nt = match t {
            Token::Conversion { modifier, keyword, option, sub_pattern } => {
                let option = match keyword {
                    Keyword::Date => match option {
                        Some(o) => Some(convert_pattern(o.as_str())),
                        None => None,
                    },
                    _ => option,
                };
                let sub_pattern = match sub_pattern {
                    Some(sub) => {
                        assert(tt->sub_pattern == Some(sub));
                        assert(decreases_to!(orig => orig[k as int]));
                        assert(decreases_to!(tt => tt->sub_pattern));
                        assert(decreases_to!(orig => sub@));
                        Some(preprocess_date_tokens(sub))
                    },
                    None => None,
                };
                Token::Conversion { modifier, keyword, option, sub_pattern }
            },
            other => other,
        };
        proof {
            assert(tok_view(nt) == preprocess_token(tok_view(orig[k as int])));
            assert(orig.take(k + 1) =~= orig.take(k as int).push(orig[k as int]));
            lemma_toks_view_push(orig.take(k as int), orig[k as int]);
            assert(toks_view(orig.take(k + 1)).drop_last() =~= toks_view(orig.take(k as int)));
        }
        let ghost o0 = out@;
        out.push(nt);
        proof {
            lemma_toks_view_push(o0, nt);
        }
        k = k + 1;
    }
    assert(orig.take(k as int) =~= orig);
    out
}

impl LogbackFormatter {
    /// Builds a formatter from parsed tokens and the id of the process.
    pub fn new(tokens: Vec<Token>, pid: u32) -> (r: Self)
        ensures
            built_from(r, toks_view(tokens@), pid),
    {
        let tokens = preprocess_date_tokens(tokens);
        let has_exception = scan_mentions(tokens.as_slice(), false);
        let has_nopex = scan_mentions(tokens.as_slice(), true);
        let p = u128_to_decimal(pid as u128);
        LogbackFormatter { tokens, has_exception, has_nopex, pid: string_of(p.as_slice()) }
    }

    /// Whether the pattern has an exception conversion (`%ex`, `%rEx`, `%xEx`, `%nopex`).
    pub fn has_exception(&self) -> (r: bool)
        ensures
            r == self.has_exception_model(),
    {
        self.has_exception
    }

    /// Whether the pattern has `%nopex`.
    pub fn has_nopex(&self) -> (r: bool)
        ensures
            r == self.has_nopex_model(),
    {
        self.has_nopex
    }

    /// Renders one event; `None` where rendering panics.
    pub fn format_event(&self, cache: &mut TimestampCache, ev: &EventContext, data: &EventData) -> (r: Option<String>)
        ensures
            opt_string_view(r) == format_spec(*self, *ev, *data),
    {
        match render_seq(self.pid.as_str(), ev, data, self.tokens.as_slice(), cache) {
            None => None,
            Some(body) => {
                let mut out = body;
                if !self.has_exception && !self.has_nopex && data.error_chain.len() > 0 {
                    out.push('\n');
                    exception_write(data, None, false, &mut out);
                }
                Some(string_of(out.as_slice()))
            },
        }
    }
}

// ---------------------------------------------------------------------------
// Laws of rendering.

/// Without an exception conversion in the pattern, a non-empty error chain
/// is appended to the rendered pattern on a new line, frame by frame.
pub proof fn law_implicit_exception(f: LogbackFormatter, ev: EventContext, data: EventData)
    requires
        !f.has_exception_model(),
        !f.has_nopex_model(),
        data.error_chain@.len() > 0,
        render_tokens(f.pid_model(), ev, data, f.tokens_model()) is Some,
    ensures
        format_spec(f, ev, data) == Some(
            render_tokens(f.pid_model(), ev, data, f.tokens_model()).unwrap() + seq!['\n'] + exception_spec(
                strings_view(data.error_chain@),
                None,
                false,
            ),
        ),
{
}

/// With `%nopex` in the pattern, nothing is appended: the event renders as
/// its pattern alone.
pub proof fn law_nopex_suppresses_exception(f: LogbackFormatter, ev: EventContext, data: EventData)
    requires
        f.has_nopex_model(),
    ensures
        format_spec(f, ev, data) == render_tokens(f.pid_model(), ev, data, f.tokens_model()),
{
}

/// `%ex{0}` renders no frame.
pub proof fn law_zero_depth_renders_nothing(chain: Seq<Seq<char>>, depth: Seq<char>, with_package_info: bool)
    requires
        parse_usize_spec(depth) == Some(0usize),
    ensures
        exception_spec(chain, Some(depth), with_package_info) == Seq::<char>::empty(),
{
    assert(chain.take(0) =~= Seq::<Seq<char>>::empty());
}

/// `%X{key}` renders the value last recorded under `key` in the current
/// span's store.
pub proof fn law_mdc_reads_recorded_value(
    ev: EventContext,
    data: EventData,
    before: Seq<(Seq<char>, Seq<char>)>,
    key: Seq<char>,
    value: Seq<char>,
)
    requires
        sorted_keys(before),
        span_entries(ev) == Some(record_spec(before, key, value)),
    ensures
        mdc_spec(ev, data, Some(key)) == value,
{
    law_record_then_get(before, key, value);
}

/// A formatter built from a non-empty pattern without `%` renders every
/// event without an error chain as the pattern itself.
pub proof fn law_plain_pattern_renders_itself(
    f: LogbackFormatter,
    p: Seq<char>,
    pid: u32,
    ev: EventContext,
    data: EventData,
)
    requires
        p.len() > 0,
        forall|i: int| 0 <= i < p.len() ==> p[i] != '%',
        super::lexer::scan_spec(p) matches SScan::Tokens(ts) && built_from(f, ts, pid),
        data.error_chain@.len() == 0,
    ensures
        format_spec(f, ev, data) == Some(p),
{
    super::lexer::law_plain_text_is_one_literal(p);
    let ts = seq![SToken::Literal(p)];
    let e = Seq::<SToken>::empty();
    assert(ts.drop_last() =~= e);
    assert(ts.last() == SToken::Literal(p));
    assert(preprocess_tokens(e) == e);
    assert(preprocess_token(SToken::Literal(p)) == SToken::Literal(p));
    assert(preprocess_tokens(ts) =~= e.push(SToken::Literal(p)));
    assert(e.push(SToken::Literal(p)) =~= ts);
    assert(render_token(f.pid_model(), ev, data, SToken::Literal(p)) == Some(p));
    assert(render_tokens(f.pid_model(), ev, data, e) == Some(Seq::<char>::empty()));
    assert(Seq::<char>::empty() + p =~= p);
    assert(render_tokens(f.pid_model(), ev, data, ts) == Some(p));
}

/// No pair left by `without_name(s, k)` is named `k`, and every one of them
/// is a pair of `s`.
pub proof fn law_without_name_drops_every_k(s: Seq<(Seq<char>, Seq<char>)>, k: Seq<char>)
    ensures
        forall|i: int| 0 <= i < without_name(s, k).len() ==> (#[trigger] without_name(s, k)[i]).0 != k,
        forall|i: int| 0 <= i < without_name(s, k).len() ==> s.contains(#[trigger] without_name(s, k)[i]),
    decreases s.len(),
{
    if s.len() > 0 {
        law_without_name_drops_every_k(s.drop_last(), k);
        let r = without_name(s.drop_last(), k);
        assert forall|i: int| 0 <= i < without_name(s, k).len() implies s.contains(#[trigger] without_name(s, k)[i]) by {
            if i < r.len() {
                let x = r[i];
                assert(s.drop_last().contains(x));
                let j = choose|j: int| 0 <= j < s.drop_last().len() && s.drop_last()[j] == x;
                assert(s[j] == x);
            } else {
                assert(s[s.len() - 1] == s.last());
            }
        }
    }
}

/// A formatter built from one plain conversion token renders an event
/// without an error chain as that token's text.
proof fn lemma_single_word_format(f: LogbackFormatter, pid: u32, ev: EventContext, data: EventData, k: Keyword)
    requires
        built_from(f, seq![SToken::Conversion { modifier: None, keyword: k, option: None, sub_pattern: None }], pid),
        data.error_chain@.len() == 0,
    ensures
        format_spec(f, ev, data) == keyword_text(decimal(pid as nat), ev, data, k, None, Seq::<char>::empty()),
{
    let t = SToken::Conversion { modifier: None, keyword: k, option: None, sub_pattern: None };
    let ts = seq![t];
    let e = Seq::<SToken>::empty();
    assert(ts.drop_last() =~= e);
    assert(preprocess_tokens(e) == e);
    assert(preprocess_token(t) == t);
    assert(preprocess_tokens(ts) =~= ts);
    assert(f.tokens_model() == ts);
    assert(render_tokens(f.pid_model(), ev, data, e) == Some(Seq::<char>::empty()));
    let r = render_token(f.pid_model(), ev, data, t);
    assert(r == keyword_text(f.pid_model(), ev, data, k, None, Seq::<char>::empty()));
    if let Some(b) = r {
        assert(Seq::<char>::empty() + b =~= b);
    }
}

/// A formatter built from the pattern `%file` renders an event without an
/// error chain as the event's source file (nothing where it has none).
pub proof fn law_file_word(f: LogbackFormatter, pid: u32, ev: EventContext, data: EventData)
    requires
        scan_spec(word_then("file"@, Seq::<char>::empty())) matches SScan::Tokens(ts) && built_from(f, ts, pid),
        data.error_chain@.len() == 0,
    ensures
        format_spec(f, ev, data) == Some(match ev.file { Some(s) => s@, None => Seq::<char>::empty() }),
{
    reveal_strlit("file");
    law_conversion_words(Seq::<char>::empty());
    law_single_word_pattern("file"@, Keyword::File);
    lemma_single_word_format(f, pid, ev, data, Keyword::File);
}

/// A formatter built from the pattern `%line` renders an event without an
/// error chain as the event's source line in decimal (nothing where it has none).
pub proof fn law_line_word(f: LogbackFormatter, pid: u32, ev: EventContext, data: EventData)
    requires
        scan_spec(word_then("line"@, Seq::<char>::empty())) matches SScan::Tokens(ts) && built_from(f, ts, pid),
        data.error_chain@.len() == 0,
    ensures
        format_spec(f, ev, data) == Some(match ev.line { Some(l) => decimal(l as nat), None => Seq::<char>::empty() }),
{
    reveal_strlit("line");
    law_conversion_words(Seq::<char>::empty());
    law_single_word_pattern("line"@, Keyword::Line);
    lemma_single_word_format(f, pid, ev, data, Keyword::Line);
}

/// A formatter built from the pattern `%thread` renders an event without an
/// error chain as the name of the event's thread.
pub proof fn law_thread_word(f: LogbackFormatter, pid: u32, ev: EventContext, data: EventData)
    requires
        scan_spec(word_then("thread"@, Seq::<char>::empty())) matches SScan::Tokens(ts) && built_from(f, ts, pid),
        data.error_chain@.len() == 0,
    ensures
        format_spec(f, ev, data) == Some(ev.thread_name@),
{
    reveal_strlit("thread");
    law_conversion_words(Seq::<char>::empty());
    law_single_word_pattern("thread"@, Keyword::Thread);
    lemma_single_word_format(f, pid, ev, data, Keyword::Thread);
}

/// A formatter built from the pattern `%msg` renders an event without an
/// error chain as the event's message.
pub proof fn law_msg_word(f: LogbackFormatter, pid: u32, ev: EventContext, data: EventData)
    requires
        scan_spec(word_then("msg"@, Seq::<char>::empty())) matches SScan::Tokens(ts) && built_from(f, ts, pid),
        data.error_chain@.len() == 0,
    ensures
        format_spec(f, ev, data) == Some(data.message@),
{
    reveal_strlit("msg");
    law_conversion_words(Seq::<char>::empty());
    law_single_word_pattern("msg"@, Keyword::Message);
    lemma_single_word_format(f, pid, ev, data, Keyword::Message);
}

/// A formatter built from the pattern `%level` renders an event without an
/// error chain as the event's level name.
pub proof fn law_level_word(f: LogbackFormatter, pid: u32, ev: EventContext, data: EventData)
    requires
        scan_spec(word_then("level"@, Seq::<char>::empty())) matches SScan::Tokens(ts) && built_from(f, ts, pid),
        data.error_chain@.len() == 0,
    ensures
        format_spec(f, ev, data) == Some(level_name(ev.level)),
{
    reveal_strlit("level");
    law_conversion_words(Seq::<char>::empty());
    law_single_word_pattern("level"@, Keyword::Level);
    lemma_single_word_format(f, pid, ev, data, Keyword::Level);
}

/// A formatter built from the pattern `%logger` renders an event without an
/// error chain as the event's whole target.
pub proof fn law_logger_word(f: LogbackFormatter, pid: u32, ev: EventContext, data: EventData)
    requires
        scan_spec(word_then("logger"@, Seq::<char>::empty())) matches SScan::Tokens(ts) && built_from(f, ts, pid),
        data.error_chain@.len() == 0,
    ensures
        format_spec(f, ev, data) == Some(ev.target@),
{
    reveal_strlit("logger");
    law_conversion_words(Seq::<char>::empty());
    law_single_word_pattern("logger"@, Keyword::Logger);
    lemma_single_word_format(f, pid, ev, data, Keyword::Logger);
}

/// A formatter built from the pattern `%class` renders an event without an
/// error chain as the event's whole target.
pub proof fn law_class_word(f: LogbackFormatter, pid: u32, ev: EventContext, data: EventData)
    requires
        scan_spec(word_then("class"@, Seq::<char>::empty())) matches SScan::Tokens(ts) && built_from(f, ts, pid),
        data.error_chain@.len() == 0,
    ensures
        format_spec(f, ev, data) == Some(ev.target@),
{
    reveal_strlit("class");
    law_conversion_words(Seq::<char>::empty());
    law_single_word_pattern("class"@, Keyword::Class);
    lemma_single_word_format(f, pid, ev, data, Keyword::Class);
}

/// A formatter built from the pattern `%pid` renders an event without an
/// error chain as the process id in decimal.
pub proof fn law_pid_word(f: LogbackFormatter, pid: u32, ev: EventContext, data: EventData)
    requires
        scan_spec(word_then("pid"@, Seq::<char>::empty())) matches SScan::Tokens(ts) && built_from(f, ts, pid),
        data.error_chain@.len() == 0,
    ensures
        format_spec(f, ev, data) == Some(decimal(pid as nat)),
{
    reveal_strlit("pid");
    law_conversion_words(Seq::<char>::empty());
    law_single_word_pattern("pid"@, Keyword::Pid);
    lemma_single_word_format(f, pid, ev, data, Keyword::Pid);
}

/// A formatter built from the pattern `%marker` renders an event without an
/// error chain as the event's marker (nothing where it has none).
pub proof fn law_marker_word(f: LogbackFormatter, pid: u32, ev: EventContext, data: EventData)
    requires
        scan_spec(word_then("marker"@, Seq::<char>::empty())) matches SScan::Tokens(ts) && built_from(f, ts, pid),
        data.error_chain@.len() == 0,
    ensures
        format_spec(f, ev, data) == Some(match data.marker { Some(s) => s@, None => Seq::<char>::empty() }),
{
    reveal_strlit("marker");
    law_conversion_words(Seq::<char>::empty());
    law_single_word_pattern("marker"@, Keyword::Marker);
    lemma_single_word_format(f, pid, ev, data, Keyword::Marker);
}

/// A formatter built from the pattern `%relative` renders an event without an
/// error chain as the milliseconds since the formatter was made, in decimal.
pub proof fn law_relative_word(f: LogbackFormatter, pid: u32, ev: EventContext, data: EventData)
    requires
        scan_spec(word_then("relative"@, Seq::<char>::empty())) matches SScan::Tokens(ts) && built_from(f, ts, pid),
        data.error_chain@.len() == 0,
    ensures
        format_spec(f, ev, data) == Some(decimal(ev.relative_millis as nat)),
{
    reveal_strlit("relative");
    law_conversion_words(Seq::<char>::empty());
    law_single_word_pattern("relative"@, Keyword::Relative);
    lemma_single_word_format(f, pid, ev, data, Keyword::Relative);
}

} // verus!
