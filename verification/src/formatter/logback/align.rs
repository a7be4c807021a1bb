//! Format modifiers (`%-10.20level`): truncation to a maximum width, then
//! padding with spaces to a minimum width. Widths count UTF-8 bytes.

use vstd::prelude::*;
use vstd::string::*;
use crate::text::{chars_of, chars_within, chars_within_exec, is_byte_boundary, lemma_chars_within_bound, lemma_utf8_len_append, lemma_utf8_len_ascii, push_all, slice_chars, spaces, string_of, utf8_len, utf8_len_of};

verus! {

/// Format modifier parsed from a conversion word, e.g. `%-10.20logger`.
#[derive(Debug, Clone, Copy, PartialEq, Eq, Structural)]
pub struct FormatModifier {
    /// `-` flag present: pad on the right (left-align); otherwise pad on the left.
    pub left_align: bool,
    /// Minimum width: shorter output is padded with spaces.
    pub min_width: Option<usize>,
    /// Maximum width: longer output is truncated.
    pub max_width: Option<usize>,
    /// Truncate by dropping characters from the start (keeping the end).
    pub max_from_end: bool,
}

impl Default for FormatModifier {
    fn default() -> (r: Self)
        ensures
            r == (FormatModifier { left_align: false, min_width: None, max_width: None, max_from_end: false }),
    {
        FormatModifier { left_align: false, min_width: None, max_width: None, max_from_end: false }
    }
}

/// Truncating `s` to the maximum width would cut inside a character
/// (the cut is made at a byte offset, which must be a character boundary).
pub open spec fn modifier_cuts_char(m: FormatModifier, s: Seq<char>) -> bool {
    match m.max_width {
        Some(max) => utf8_len(s) > max && !(if m.max_from_end {
            is_byte_boundary(s, utf8_len(s) - max)
        } else {
            is_byte_boundary(s, max as int)
        }),
        None => false,
    }
}

/// `s` after applying the maximum width.
pub open spec fn modifier_truncate(m: FormatModifier, s: Seq<char>) -> Seq<char> {
    match m.max_width {
        Some(max) => if utf8_len(s) > max {
            if m.max_from_end {
                s.skip(chars_within(s, utf8_len(s) - max) as int)
            } else {
                s.take(chars_within(s, max as int) as int)
            }
        } else {
            s
        },
        None => s,
    }
}

/// `s` after applying the whole modifier: truncate, then pad.
pub open spec fn modifier_apply(m: FormatModifier, s: Seq<char>) -> Seq<char> {
    let t = modifier_truncate(m, s);
    match m.min_width {
        Some(min) => if utf8_len(t) < min {
            if m.left_align {
                t + spaces((min - utf8_len(t)) as nat)
            } else {
                spaces((min - utf8_len(t)) as nat) + t
            }
        } else {
            t
        },
        None => t,
    }
}

impl FormatModifier {
    /// Applies the modifier to a character sequence; `None` where truncation
    /// would cut inside a character.
    pub fn apply_checked(&self, s: &[char]) -> (r: Option<Vec<char>>)
        requires
            utf8_len(s@) <= usize::MAX,
        ensures
            r is None <==> modifier_cuts_char(*self, s@),
            r matches Some(v) ==> v@ == modifier_apply(*self, s@),
    {
        let total = utf8_len_of(s);
        match self.max_width {
            Some(max) => {
                if total > max {
                    let cut: usize = if self.max_from_end { total - max } else { max };
                    let k = chars_within_exec(s, cut);
                    let pre = slice_chars(s, 0, k);
                    proof {
                        lemma_chars_within_bound(s@, cut as int);
                        assert(utf8_len(pre@) <= usize::MAX);
                    }
                    if utf8_len_of(pre.as_slice()) != cut {
                        return None;
                    }
                }
            },
            None => {},
        }
        Some(self.apply_chars(s))
    }

    /// Applies the modifier to a character sequence.
    pub fn apply_chars(&self, s: &[char]) -> (r: Vec<char>)
        requires
            !modifier_cuts_char(*self, s@),
            utf8_len(s@) <= usize::MAX,
        ensures
            r@ == modifier_apply(*self, s@),
    {
        let total = utf8_len_of(s);
        let t: Vec<char> = match self.max_width {
            Some(max) => {
                if total > max {
                    if self.max_from_end {
                        let k = chars_within_exec(s, total - max);
                        slice_chars(s, k, s.len())
                    } else {
                        let k = chars_within_exec(s, max);
                        slice_chars(s, 0, k)
                    }
                } else {
                    slice_chars(s, 0, s.len())
                }
            },
            None => slice_chars(s, 0, s.len()),
        };
        proof {
            assert(s@.subrange(0, s@.len() as int) =~= s@);
            assert(t@ == modifier_truncate(*self, s@));
            match self.max_width {
                Some(max) => {
                    if total > max {
                        if self.max_from_end {
                            assert(utf8_len(t@) == max) by {
                                let k = chars_within(s@, utf8_len(s@) - max) as int;
                                lemma_chars_within_bound(s@, utf8_len(s@) - max);
                                assert(s@ =~= s@.take(k) + s@.skip(k));
                                lemma_utf8_len_append(s@.take(k), s@.skip(k));
                            }
                        } else {
                            assert(utf8_len(t@) == max);
                        }
                    }
                },
                None => {},
            }
            assert(utf8_len(t@) <= utf8_len(s@)) by {
                match self.max_width {
                    Some(max) => {},
                    None => {},
                }
            }
        }
        let tlen = utf8_len_of(t.as_slice());
        match self.min_width {
            Some(min) => {
                if tlen < min {
                    let pad = min - tlen;
                    let mut r: Vec<char> = Vec::new();
                    if self.left_align {
                        push_all(&mut r, t.as_slice());
                        push_spaces(&mut r, pad);
                    } else {
                        push_spaces(&mut r, pad);
                        push_all(&mut r, t.as_slice());
                    }
                    r
                } else {
                    t
                }
            },
            None => t,
        }
    }

    /// Applies the modifier to a string: truncate, then pad.
    pub fn apply(&self, s: &str) -> (r: String)
        requires
            !modifier_cuts_char(*self, s@),
            utf8_len(s@) <= usize::MAX,
        ensures
            r@ == modifier_apply(*self, s@),
    {
        let v = chars_of(s);
        let r = self.apply_chars(v.as_slice());
        string_of(r.as_slice())
    }

    /// Appends the modified string to `writer`.
    pub fn apply_to_writer(&self, s: &str, writer: &mut String) -> (r: Result<(), std::fmt::Error>)
        requires
            !modifier_cuts_char(*self, s@),
            utf8_len(s@) <= usize::MAX,
        ensures
            final(writer)@ == old(writer)@ + modifier_apply(*self, s@),
            r is Ok,
    {
        let out = self.apply(s);
        writer.append(out.as_str());
        Ok(())
    }
}

/// Appends `n` spaces to `out`.
pub fn push_spaces(out: &mut Vec<char>, n: usize)
    ensures
        final(out)@ == old(out)@ + spaces(n as nat),
{
    let mut i: usize = 0;
    while i < n
        invariant
            0 <= i <= n,
            out@ == old(out)@ + spaces(i as nat),
        decreases n - i,
    {
        out.push(' ');
        i = i + 1;
        assert(out@ =~= old(out)@ + spaces(i as nat));
    }
}

// ---------------------------------------------------------------------------
// Laws of format modifiers.

/// `n` spaces take `n` bytes.
proof fn lemma_spaces_len(n: nat)
    ensures
        utf8_len(spaces(n)) == n,
{
    assert forall|i: int| 0 <= i < spaces(n).len() implies (#[trigger] spaces(n)[i] as u32) < 0x80u32 by {}
    lemma_utf8_len_ascii(spaces(n));
}

/// A modifier without widths leaves every text unchanged.
pub proof fn law_no_width_is_identity(m: FormatModifier, s: Seq<char>)
    requires
        m.min_width is None,
        m.max_width is None,
    ensures
        !modifier_cuts_char(m, s),
        modifier_apply(m, s) == s,
{
}

/// With a minimum width, the result takes at least that many bytes.
pub proof fn law_min_width_pads(m: FormatModifier, s: Seq<char>, min: usize)
    requires
        m.min_width == Some(min),
    ensures
        utf8_len(modifier_apply(m, s)) >= min,
{
    let t = modifier_truncate(m, s);
    if utf8_len(t) < min {
        let pad = spaces((min - utf8_len(t)) as nat);
        lemma_spaces_len((min - utf8_len(t)) as nat);
        lemma_utf8_len_append(t, pad);
        lemma_utf8_len_append(pad, t);
    }
}

/// With a maximum width and no minimum, a result that does not cut a
/// character takes at most that many bytes; cut from the end, it keeps
/// exactly the last `max` bytes of a longer text.
pub proof fn law_max_width_truncates(m: FormatModifier, s: Seq<char>, max: usize)
    requires
        m.max_width == Some(max),
        m.min_width is None,
        !modifier_cuts_char(m, s),
    ensures
        utf8_len(modifier_apply(m, s)) <= max,
        m.max_from_end && utf8_len(s) > max ==> utf8_len(modifier_apply(m, s)) == max,
{
    if utf8_len(s) > max {
        if m.max_from_end {
            let k = chars_within(s, utf8_len(s) - max) as int;
            lemma_chars_within_bound(s, utf8_len(s) - max);
            assert(s =~= s.take(k) + s.skip(k));
            lemma_utf8_len_append(s.take(k), s.skip(k));
        } else {
            lemma_chars_within_bound(s, max as int);
        }
    }
}

} // verus!
