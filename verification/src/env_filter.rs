//! tracing-subscriber's `EnvFilter`, built from a string of comma-separated
//! directives and kept together with that string.

use vstd::prelude::*;
use crate::text::{chars_of, is_white_space, is_white_space_exec};

verus! {

/// Declares tracing-subscriber's `EnvFilter` to Verus; its values are
/// carried through opaquely.
#[verifier::external_type_specification]
#[verifier::external_body]
pub struct ExEnvFilter(tracing_subscriber::EnvFilter);

/// What `tracing_subscriber::EnvFilter::try_new(directives)` reports: `None`
/// where it accepts the directives, else the `Display` text of its parse
/// error.
pub uninterp spec fn env_filter_error(directives: Seq<char>) -> Option<Seq<char>>;

/// An event filter together with the directives it was parsed from. Only
/// `parse_env_filter` makes one, so `directives()` is always the string
/// that `EnvFilter::try_new` turned into `filter`.
pub struct DirectiveFilter {
    filter: tracing_subscriber::EnvFilter,
    directives: String,
}

impl DirectiveFilter {
    /// The directives the filter was parsed from.
    pub closed spec fn directives(&self) -> Seq<char> {
        self.directives@
    }

    /// The directives the filter was parsed from.
    pub fn directive_text(&self) -> (r: &str)
        ensures
            r@ == self.directives(),
    {
        self.directives.as_str()
    }

    /// The filter itself, to install in a subscriber.
    pub fn into_filter(self) -> tracing_subscriber::EnvFilter {
        self.filter
    }
}

/// Whether the `,`-separated pieces of `s[i..]` can be given to the parser:
/// `at_start` where `i` begins a piece, `ws_led` where the current piece
/// begins with whitespace. A piece that begins with whitespace must be
/// ASCII.
pub open spec fn pieces_slice_from(s: Seq<char>, i: int, at_start: bool, ws_led: bool) -> bool
    decreases s.len() - i,
{
    if i < 0 || i >= s.len() {
        true
    } else if s[i] == ',' {
        pieces_slice_from(s, i + 1, true, false)
    } else {
        let led = if at_start { is_white_space(s[i]) } else { ws_led };
        (led ==> (s[i] as u32) < 0x80u32) && pieces_slice_from(s, i + 1, false, led)
    }
}

/// Every `,`-separated piece of `s` that begins with whitespace is ASCII.
///
/// `EnvFilter::try_new` splits its argument on `,` and parses each piece
/// by walking the characters of the piece with its whitespace trimmed, but
/// slices the untrimmed piece at those offsets. Only a piece that begins
/// with whitespace and holds non-ASCII text can be cut inside a character
/// there, which panics; this condition leaves out every such piece.
pub open spec fn pieces_slice_safely(s: Seq<char>) -> bool {
    pieces_slice_from(s, 0, true, false)
}

/// Whether `pieces_slice_safely` holds of `s`.
pub fn directives_slice_safely(s: &str) -> (r: bool)
    ensures
        r == pieces_slice_safely(s@),
{
    let c = chars_of(s);
    let mut i: usize = 0;
    let mut at_start = true;
    let mut led = false;
    while i < c.len()
        invariant
            0 <= i <= c@.len(),
            c@ == s@,
            pieces_slice_safely(s@) == pieces_slice_from(c@, i as int, at_start, led),
        decreases c@.len() - i,
    {
        let ch = c[i];
        if ch == ',' {
            at_start = true;
            led = false;
        } else {
            if at_start {
                led = is_white_space_exec(ch);
            }
            if led && (ch as u32) >= 0x80u32 {
                return false;
            }
            at_start = false;
        }
        i = i + 1;
    }
    true
}

/// Calls `tracing_subscriber::EnvFilter::try_new`. Trusted: on directives
/// whose pieces `pieces_slice_safely` admits it returns, succeeding or
/// failing on its argument alone (`env_filter_error` names that outcome),
/// and its error is turned into its text; a filter it returns is kept with
/// the directives it was parsed from.
#[verifier::external_body]
fn env_filter_try_new(directives: &str) -> (r: Result<DirectiveFilter, String>)
    requires
        pieces_slice_safely(directives@),
    ensures
        match r {
            Ok(f) => env_filter_error(directives@) is None && f.directives() == directives@,
            Err(m) => env_filter_error(directives@) == Some(m@),
        },
{
    match tracing_subscriber::EnvFilter::try_new(directives) {
        Ok(f) => Ok(DirectiveFilter { filter: f, directives: directives.to_string() }),
        Err(e) => Err(e.to_string()),
    }
}

/// The text of the error for directives that the parser cannot take.
pub open spec fn unsliceable_text(directives: Seq<char>) -> Seq<char> {
    "a filter directive begins with whitespace and holds non-ASCII text: "@ + directives
}

/// What parsing `directives` gives: the outcome of `EnvFilter::try_new`
/// where the parser can take them, else `unsliceable_text`.
pub open spec fn parse_matches(directives: Seq<char>, r: Result<DirectiveFilter, Seq<char>>) -> bool {
    if !pieces_slice_safely(directives) {
        r == Err::<DirectiveFilter, Seq<char>>(unsliceable_text(directives))
    } else {
        match r {
            Ok(f) => env_filter_error(directives) is None && f.directives() == directives,
            Err(m) => env_filter_error(directives) == Some(m),
        }
    }
}

/// Parses `directives` into an event filter; the error is the parser's
/// text, or `unsliceable_text` where a piece begins with whitespace and
/// holds non-ASCII text, on which the parser would panic.
pub fn parse_env_filter(directives: &str) -> (r: Result<DirectiveFilter, String>)
    ensures
        parse_matches(directives@, match r {
            Ok(f) => Ok(f),
            Err(m) => Err(m@),
        }),
{
    if !directives_slice_safely(directives) {
        let mut m = String::from_str("a filter directive begins with whitespace and holds non-ASCII text: ");
        m.append(directives);
        return Err(m);
    }
    env_filter_try_new(directives)
}

} // verus!
