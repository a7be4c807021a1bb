//! Log4j dot-notation abbreviation of logger names (`%c{1.}`): all but the
//! last `depth` segments are shortened to their first character. Both `.`
//! and `::` separate segments; the output joins them with `.`.

use vstd::prelude::*;
use vstd::string::*;
use crate::text::{chars_of, push_all, slice_chars, string_of};

verus! {

broadcast use vstd::seq_lib::group_seq_properties;

/// `s` with every `::` (left to right, without overlap) replaced by `.`.
pub open spec fn replace_dcolon(s: Seq<char>) -> Seq<char>
    decreases s.len(),
{
    if s.len() >= 2 && s[0] == ':' && s[1] == ':' {
        seq!['.'] + replace_dcolon(s.subrange(2, s.len() as int))
    } else if s.len() >= 1 {
        seq![s[0]] + replace_dcolon(s.drop_first())
    } else {
        s
    }
}

/// Position of the first `ch` in `s` at or after `i`, or `-1`.
pub open spec fn index_of_from(s: Seq<char>, i: int, ch: char) -> int
    decreases s.len() - i,
{
    if i < 0 || i >= s.len() {
        -1
    } else if s[i] == ch {
        i
    } else {
        index_of_from(s, i + 1, ch)
    }
}

/// `s[start..]` split on `.` (as `str::split('.')`).
pub open spec fn split_dot_from(s: Seq<char>, start: int) -> Seq<Seq<char>>
    decreases s.len() - start,
{
    let p = index_of_from(s, start, '.');
    if start < 0 || start > s.len() || p < start || p >= s.len() {
        seq![s.subrange(start, s.len() as int)]
    } else {
        seq![s.subrange(start, p)] + split_dot_from(s, p + 1)
    }
}

/// Position of the first delimiter (`.` or `::`) in `s` at or after `i`, or `-1`.
pub open spec fn delim_from(s: Seq<char>, i: int) -> int
    decreases s.len() - i,
{
    if i < 0 || i >= s.len() {
        -1
    } else if s[i] == '.' || (s[i] == ':' && i + 1 < s.len() && s[i + 1] == ':') {
        i
    } else {
        delim_from(s, i + 1)
    }
}

/// Segments produced by walking `s[start..]` delimiter by delimiter; a
/// trailing delimiter yields no final empty segment.
pub open spec fn seg_iter_from(s: Seq<char>, start: int) -> Seq<Seq<char>>
    decreases s.len() + 2 - start,
{
    if start < 0 || start >= s.len() {
        Seq::<Seq<char>>::empty()
    } else {
        let p = delim_from(s, start);
        if p < start || p >= s.len() {
            seq![s.subrange(start, s.len() as int)]
        } else {
            let next = if s[p] == '.' { p + 1 } else { p + 2 };
            seq![s.subrange(start, p)] + seg_iter_from(s, next)
        }
    }
}

/// A segment as written: its first character when abbreviated.
pub open spec fn seg_out(seg: Seq<char>, abbreviated: bool) -> Seq<char> {
    if abbreviated && seg.len() > 0 {
        seq![seg[0]]
    } else {
        seg
    }
}

/// `segs[..k]` joined with `.`, the first `keep_from` shortened.
pub open spec fn join_abbrev(segs: Seq<Seq<char>>, k: int, keep_from: int) -> Seq<char>
    decreases k,
{
    if k <= 0 {
        Seq::<char>::empty()
    } else if k == 1 {
        seg_out(segs[0], 0 < keep_from)
    } else {
        join_abbrev(segs, k - 1, keep_from).push('.') + seg_out(segs[k - 1], k - 1 < keep_from)
    }
}

/// The abbreviation of a list of segments for `depth`.
pub open spec fn abbrev_segments(segs: Seq<Seq<char>>, depth: nat) -> Seq<char> {
    if depth == 0 {
        segs.last()
    } else {
        let keep_from = if segs.len() > depth { segs.len() - depth } else { 0 };
        join_abbrev(segs, segs.len() as int, keep_from)
    }
}

/// What `abbreviate(target, depth)` returns.
pub open spec fn abbreviate_spec(target: Seq<char>, depth: nat) -> Seq<char> {
    abbrev_segments(split_dot_from(replace_dcolon(target), 0), depth)
}

/// Replaces every `::` by `.`.
fn replace_dcolon_exec(s: &[char]) -> (r: Vec<char>)
    ensures
        r@ == replace_dcolon(s@),
{
    let mut out: Vec<char> = Vec::new();
    let mut i: usize = 0;
    let n = s.len();
    assert(s@.subrange(0, n as int) =~= s@);
    while i < n
        invariant
            n == s@.len(),
            0 <= i <= n,
            out@ + replace_dcolon(s@.subrange(i as int, n as int)) == replace_dcolon(s@),
        decreases n - i,
    {
        let ghost rest = s@.subrange(i as int, n as int);
        if i + 1 < n && s[i] == ':' && s[i + 1] == ':' {
            out.push('.');
            proof {
                assert(rest.subrange(2, rest.len() as int) =~= s@.subrange(i + 2, n as int));
                assert(out@ + replace_dcolon(s@.subrange(i + 2, n as int)) =~= (out@.drop_last() + (seq!['.'] + replace_dcolon(s@.subrange(i + 2, n as int)))));
            }
            i = i + 2;
        } else {
            out.push(s[i]);
            proof {
                assert(rest.drop_first() =~= s@.subrange(i + 1, n as int));
                assert(out@ + replace_dcolon(s@.subrange(i + 1, n as int)) =~= (out@.drop_last() + (seq![s@[i as int]] + replace_dcolon(s@.subrange(i + 1, n as int)))));
            }
            i = i + 1;
        }
    }
    assert(out@ + replace_dcolon(s@.subrange(n as int, n as int)) =~= out@);
    out
}

pub proof fn lemma_index_of_from(s: Seq<char>, i: int, ch: char)
    requires
        0 <= i,
    ensures
        index_of_from(s, i, ch) == -1 || (i <= index_of_from(s, i, ch) < s.len() && s[index_of_from(s, i, ch)] == ch),
    decreases s.len() - i,
{
    if i < s.len() && s[i] != ch {
        lemma_index_of_from(s, i + 1, ch);
    }
}

/// The segments of `s` split on `.`.
fn split_dot_exec(s: &[char]) -> (r: Vec<Vec<char>>)
    ensures
        r@.map_values(|v: Vec<char>| v@) == split_dot_from(s@, 0),
        r@.len() >= 1,
{
    let mut segs: Vec<Vec<char>> = Vec::new();
    let mut start: usize = 0;
    let mut i: usize = 0;
    let n = s.len();
    while i < n
        invariant
            n == s@.len(),
            0 <= start <= i <= n,
            index_of_from(s@, start as int, '.') == index_of_from(s@, i as int, '.'),
            segs@.map_values(|v: Vec<char>| v@) + split_dot_from(s@, start as int) == split_dot_from(s@, 0),
        decreases n - i,
    {
        if s[i] == '.' {
            let seg = slice_chars(s, start, i);
            proof {
                let ss = s@;
                assert(index_of_from(ss, i as int, '.') == i);
                assert(segs@.push(seg).map_values(|v: Vec<char>| v@) =~= segs@.map_values(|v: Vec<char>| v@).push(seg@));
                assert(segs@.map_values(|v: Vec<char>| v@).push(seg@) + split_dot_from(ss, i + 1)
                    =~= segs@.map_values(|v: Vec<char>| v@) + (seq![ss.subrange(start as int, i as int)] + split_dot_from(ss, i + 1)));
            }
            segs.push(seg);
            start = i + 1;
        }
        i = i + 1;
    }
    let seg = slice_chars(s, start, n);
    proof {
        let ss = s@;
        assert(index_of_from(ss, n as int, '.') == -1);
        assert(segs@.push(seg).map_values(|v: Vec<char>| v@) =~= segs@.map_values(|v: Vec<char>| v@).push(seg@));
        assert(segs@.map_values(|v: Vec<char>| v@).push(seg@) =~= segs@.map_values(|v: Vec<char>| v@) + seq![seg@]);
    }
    segs.push(seg);
    segs
}

/// Walks `s` delimiter by delimiter (`.` or `::`).
fn seg_iter_exec(s: &[char]) -> (r: Vec<Vec<char>>)
    ensures
        r@.map_values(|v: Vec<char>| v@) == seg_iter_from(s@, 0),
{
    let mut segs: Vec<Vec<char>> = Vec::new();
    let mut start: usize = 0;
    let mut i: usize = 0;
    let n = s.len();
    while i < n
        invariant
            n == s@.len(),
            0 <= start <= i <= n,
            start < n ==> delim_from(s@, start as int) == delim_from(s@, i as int),
            i > start ==> start < n,
            segs@.map_values(|v: Vec<char>| v@) + seg_iter_from(s@, start as int) == seg_iter_from(s@, 0),
        decreases n - i,
    {
        if s[i] == '.' || (s[i] == ':' && i + 1 < n && s[i + 1] == ':') {
            let seg = slice_chars(s, start, i);
            let next = if s[i] == '.' { i + 1 } else { i + 2 };
            proof {
                let ss = s@;
                assert(delim_from(ss, i as int) == i);
                assert(seg_iter_from(ss, start as int) == seq![ss.subrange(start as int, i as int)] + seg_iter_from(ss, next as int));
                assert(segs@.push(seg).map_values(|v: Vec<char>| v@) =~= segs@.map_values(|v: Vec<char>| v@).push(seg@));
                assert(segs@.map_values(|v: Vec<char>| v@).push(seg@) + seg_iter_from(ss, next as int)
                    =~= segs@.map_values(|v: Vec<char>| v@) + (seq![ss.subrange(start as int, i as int)] + seg_iter_from(ss, next as int)));
            }
            segs.push(seg);
            start = next;
            i = next;
        } else {
            i = i + 1;
        }
    }
    if start < n {
        let seg = slice_chars(s, start, n);
        proof {
            let ss = s@;
            assert(delim_from(ss, n as int) == -1);
            assert(seg_iter_from(ss, start as int) == seq![ss.subrange(start as int, n as int)]);
            assert(segs@.push(seg).map_values(|v: Vec<char>| v@) =~= segs@.map_values(|v: Vec<char>| v@).push(seg@));
            assert(segs@.map_values(|v: Vec<char>| v@).push(seg@) =~= segs@.map_values(|v: Vec<char>| v@) + seq![seg@]);
        }
        segs.push(seg);
    } else {
        proof {
            assert(segs@.map_values(|v: Vec<char>| v@) + Seq::<Seq<char>>::empty() =~= segs@.map_values(|v: Vec<char>| v@));
        }
    }
    segs
}

/// Joins `segs` with `.` per the abbreviation rule.
fn abbrev_segments_exec(segs: &Vec<Vec<char>>, depth: usize) -> (r: Vec<char>)
    requires
        segs@.len() >= 1,
    ensures
        r@ == abbrev_segments(segs@.map_values(|v: Vec<char>| v@), depth as nat),
{
    let ghost sv = segs@.map_values(|v: Vec<char>| v@);
    let n = segs.len();
    if depth == 0 {
        let last = &segs[n - 1];
        assert(sv.last() == last@);
        return slice_chars(last.as_slice(), 0, last.len());
    }
    let keep_from: usize = if n > depth { n - depth } else { 0 };
    let mut out: Vec<char> = Vec::new();
    let mut i: usize = 0;
    while i < n
        invariant
            n == segs@.len(),
            sv == segs@.map_values(|v: Vec<char>| v@),
            0 <= i <= n,
            out@ == join_abbrev(sv, i as int, keep_from as int),
        decreases n - i,
    {
        if i > 0 {
            out.push('.');
        }
        let seg = &segs[i];
        assert(sv[i as int] == seg@);
        if i < keep_from && seg.len() > 0 {
            out.push(seg[0]);
            proof {
                assert(seg_out(sv[i as int], (i as int) < keep_from) =~= seq![seg@[0]]);
            }
        } else {
            push_all(&mut out, seg.as_slice());
        }
        proof {
            if i == 0 {
                assert(out@ =~= seg_out(sv[0], 0 < keep_from));
            } else {
                assert(out@ =~= join_abbrev(sv, i as int, keep_from as int).push('.') + seg_out(sv[i as int], (i as int) < keep_from));
            }
        }
        i = i + 1;
    }
    out
}

/// Applies log4j's `{depth.}` abbreviation to a `.` / `::` separated name.
pub fn abbreviate(target: &str, depth: usize) -> (r: String)
    ensures
        r@ == abbreviate_spec(target@, depth as nat),
{
    let t = chars_of(target);
    let normalized = replace_dcolon_exec(t.as_slice());
    let segs = split_dot_exec(normalized.as_slice());
    let out = abbrev_segments_exec(&segs, depth);
    string_of(out.as_slice())
}

/// Appends the abbreviation of `target`, the same text as `abbreviate`
/// gives, to `writer`.
pub fn abbreviate_to_writer(target: &str, depth: usize, writer: &mut String) -> (r: Result<(), std::fmt::Error>)
    ensures
        final(writer)@ == old(writer)@ + abbreviate_spec(target@, depth as nat),
        r is Ok,
{
    let s = abbreviate(target, depth);
    writer.append(s.as_str());
    Ok(())
}

/// Walks a name segment by segment, splitting on both `.` and `::`.
pub struct SegIter {
    remaining: Vec<char>,
}

impl SegIter {
    /// A walker over the segments of `s`.
    pub fn new(s: &str) -> (r: SegIter)
        ensures
            r.rest() == seg_iter_from(s@, 0),
    {
        SegIter { remaining: chars_of(s) }
    }

    /// The segments not yet produced.
    pub closed spec fn rest(&self) -> Seq<Seq<char>> {
        seg_iter_from(self.remaining@, 0)
    }

    /// All remaining segments, in order.
    pub fn collect_segments(&self) -> (r: Vec<Vec<char>>)
        ensures
            r@.map_values(|v: Vec<char>| v@) == self.rest(),
    {
        seg_iter_exec(self.remaining.as_slice())
    }
}

/// Log4j dot-notation abbreviation (`%c{n.}`), string form.
pub fn abbreviate_log4j(target: &str, n: usize) -> (r: String)
    ensures
        r@ == abbreviate_spec(target@, n as nat),
{
    abbreviate(target, n)
}

// ---------------------------------------------------------------------------
// Laws of log4j abbreviation.

proof fn lemma_split_dot_nonempty(s: Seq<char>, start: int)
    requires
        0 <= start <= s.len(),
    ensures
        split_dot_from(s, start).len() >= 1,
    decreases s.len() - start,
{
    let p = index_of_from(s, start, '.');
    lemma_index_of_from(s, start, '.');
    if !(p < start || p >= s.len()) {
        lemma_split_dot_nonempty(s, p + 1);
    }
}

/// Joining `x` in front of `rest` puts `x.` in front of the join of `rest`.
proof fn lemma_join_front(x: Seq<char>, rest: Seq<Seq<char>>, k: int)
    requires
        1 <= k <= rest.len(),
    ensures
        join_abbrev(seq![x] + rest, k + 1, 0) == x.push('.') + join_abbrev(rest, k, 0),
    decreases k,
{
    let all = seq![x] + rest;
    assert(all[0] == x);
    assert(all[k] == rest[k - 1]);
    assert(seg_out(all[k], k < 0) == rest[k - 1]);
    assert(join_abbrev(all, k + 1, 0) == join_abbrev(all, k, 0).push('.') + rest[k - 1]);
    if k > 1 {
        lemma_join_front(x, rest, k - 1);
        assert(join_abbrev(rest, k, 0) == join_abbrev(rest, k - 1, 0).push('.') + rest[k - 1]);
        assert((x.push('.') + join_abbrev(rest, k - 1, 0)).push('.') + rest[k - 1] =~= x.push('.') + (
        join_abbrev(rest, k - 1, 0).push('.') + rest[k - 1]));
    } else {
        assert(join_abbrev(all, 1, 0) == x);
        assert(join_abbrev(rest, 1, 0) == rest[0]);
    }
}

/// Joining the `.`-separated parts of `s[start..]` with `.` gives it back.
proof fn lemma_split_join(s: Seq<char>, start: int)
    requires
        0 <= start <= s.len(),
    ensures
        join_abbrev(split_dot_from(s, start), split_dot_from(s, start).len() as int, 0) == s.subrange(
            start,
            s.len() as int,
        ),
    decreases s.len() - start,
{
    let p = index_of_from(s, start, '.');
    lemma_index_of_from(s, start, '.');
    if !(p < start || p >= s.len()) {
        let rest = split_dot_from(s, p + 1);
        lemma_split_dot_nonempty(s, p + 1);
        lemma_split_join(s, p + 1);
        lemma_join_front(s.subrange(start, p), rest, rest.len() as int);
        assert(s.subrange(start, p).push('.') + s.subrange(p + 1, s.len() as int) =~= s.subrange(start, s.len() as int));
    }
}

/// With a depth at least the number of segments nothing is shortened: the
/// result is the name with each `::` written as `.`.
pub proof fn law_deep_enough_keeps_everything(target: Seq<char>, depth: nat)
    requires
        depth > 0,
        depth >= split_dot_from(replace_dcolon(target), 0).len(),
    ensures
        abbreviate_spec(target, depth) == replace_dcolon(target),
{
    let n = replace_dcolon(target);
    lemma_split_join(n, 0);
    assert(n.subrange(0, n.len() as int) =~= n);
}

/// With depth 0 only the last segment is kept.
pub proof fn law_depth_zero_keeps_last_segment(target: Seq<char>)
    ensures
        abbreviate_spec(target, 0) == split_dot_from(replace_dcolon(target), 0).last(),
{
}

} // verus!
