//! Logger name abbreviation in the style of logback's
//! `TargetLengthBasedClassNameAbbreviator` (`%logger{n}`).
//!
//! - `n = 0`: only the last `::` segment is kept.
//! - `n > 0`: segments are joined by `.`; leading segments are cut to their
//!   first character, from the left and only as far as needed for the result
//!   to fit in `n` bytes; the last segment is kept whole.
//!   `my_app::service::user_handler` with `n = 20` gives `m.s.user_handler`.

use vstd::prelude::*;
use crate::text::{chars_of, lemma_utf8_len_append, push_all, slice_chars, string_of, utf8_fits, utf8_len, utf8_len_of};

verus! {

/// Position of the first `::` at or after `i`, or `-1`.
pub open spec fn first_dcolon(s: Seq<char>, i: int) -> int
    decreases s.len() - i,
{
    if i < 0 || i + 1 >= s.len() {
        -1
    } else if s[i] == ':' && s[i + 1] == ':' {
        i
    } else {
        first_dcolon(s, i + 1)
    }
}

/// `s[start..]` split on `::` (as `str::split("::")`).
pub open spec fn split_dcolon_from(s: Seq<char>, start: int) -> Seq<Seq<char>>
    decreases s.len() - start,
{
    let p = first_dcolon(s, start);
    if start < 0 || start > s.len() || p < start || p + 2 > s.len() {
        seq![s.subrange(start, s.len() as int)]
    } else {
        seq![s.subrange(start, p)] + split_dcolon_from(s, p + 2)
    }
}

/// `s` split on `::`.
pub open spec fn split_dcolon(s: Seq<char>) -> Seq<Seq<char>> {
    split_dcolon_from(s, 0)
}

/// `truncate_right`: `s` if it fits in `max` bytes, else its first `max` characters.
pub open spec fn truncate_right_spec(s: Seq<char>, max: nat) -> Seq<char> {
    if utf8_len(s) <= max {
        s
    } else if s.len() <= max {
        s
    } else {
        s.take(max as int)
    }
}

/// A segment cut to its first character (an empty segment stays empty).
pub open spec fn initial(seg: Seq<char>) -> Seq<char> {
    if seg.len() == 0 { seg } else { seq![seg[0]] }
}

/// `parts` joined by `.`.
pub open spec fn join_dot(parts: Seq<Seq<char>>) -> Seq<char>
    decreases parts.len(),
{
    if parts.len() == 0 {
        Seq::<char>::empty()
    } else if parts.len() == 1 {
        parts[0]
    } else {
        join_dot(parts.drop_last()).push('.') + parts.last()
    }
}

/// The segments with the first `j` of them cut to their first character.
pub open spec fn cut_parts(segs: Seq<Seq<char>>, j: int) -> Seq<Seq<char>> {
    Seq::new(segs.len(), |i: int| if i < j { initial(segs[i]) } else { segs[i] })
}

/// The candidate in which the first `j` segments are cut.
pub open spec fn candidate(segs: Seq<Seq<char>>, j: int) -> Seq<char> {
    join_dot(cut_parts(segs, j))
}

/// The least `j` from `from` on whose candidate fits in `max` bytes; the
/// index of the last segment (all leading segments cut) where none fits.
pub open spec fn least_fit(segs: Seq<Seq<char>>, max: nat, from: int) -> int
    decreases segs.len() - from,
{
    if from >= segs.len() - 1 {
        segs.len() - 1
    } else if utf8_len(candidate(segs, from)) <= max {
        from
    } else {
        least_fit(segs, max, from + 1)
    }
}

/// What `abbreviate(name, max)` returns.
pub open spec fn abbreviate_spec(name: Seq<char>, max: nat) -> Seq<char> {
    let segs = split_dcolon(name);
    if name.len() == 0 {
        Seq::<char>::empty()
    } else if segs.len() == 1 {
        if max == 0 { name } else { truncate_right_spec(name, max) }
    } else if max == 0 {
        segs.last()
    } else if utf8_len(segs.last()) >= max {
        truncate_right_spec(segs.last(), max)
    } else {
        candidate(segs, least_fit(segs, max, 0))
    }
}

/// Splits `s` on `::`.
pub fn split_dcolon_exec(s: &[char]) -> (r: Vec<Vec<char>>)
    ensures
        r@.map_values(|v: Vec<char>| v@) == split_dcolon(s@),
{
    let mut segs: Vec<Vec<char>> = Vec::new();
    let mut start: usize = 0;
    let mut i: usize = 0;
    while s.len() > 0 && i < s.len() - 1
        invariant
            0 <= start <= i <= s@.len(),
            first_dcolon(s@, start as int) == first_dcolon(s@, i as int),
            segs@.map_values(|v: Vec<char>| v@) + split_dcolon_from(s@, start as int) == split_dcolon(s@),
        decreases s@.len() - i,
    {
        if s[i] == ':' && s[i + 1] == ':' {
            let seg = slice_chars(s, start, i);
            proof {
                assert(first_dcolon(s@, i as int) == i);
                let ss = s@;
                assert(split_dcolon_from(ss, start as int) == seq![ss.subrange(start as int, i as int)] + split_dcolon_from(ss, i + 2));
                assert(segs@.push(seg).map_values(|v: Vec<char>| v@) =~= segs@.map_values(|v: Vec<char>| v@).push(seg@));
                assert(segs@.map_values(|v: Vec<char>| v@).push(seg@) + split_dcolon_from(ss, i + 2)
                    =~= segs@.map_values(|v: Vec<char>| v@) + (seq![ss.subrange(start as int, i as int)] + split_dcolon_from(ss, i + 2)));
            }
            segs.push(seg);
            start = i + 2;
            i = i + 2;
        } else {
            i = i + 1;
        }
    }
    let seg = slice_chars(s, start, s.len());
    proof {
        let ss = s@;
        assert(first_dcolon(ss, i as int) == -1);
        assert(split_dcolon_from(ss, start as int) == seq![ss.subrange(start as int, ss.len() as int)]);
        assert(segs@.push(seg).map_values(|v: Vec<char>| v@) =~= segs@.map_values(|v: Vec<char>| v@).push(seg@));
        assert(segs@.map_values(|v: Vec<char>| v@).push(seg@) =~= segs@.map_values(|v: Vec<char>| v@) + seq![seg@]);
    }
    segs.push(seg);
    segs
}

/// `truncate_right` on characters.
fn truncate_right(s: &[char], max: usize) -> (r: Vec<char>)
    requires
        utf8_len(s@) <= usize::MAX,
    ensures
        r@ == truncate_right_spec(s@, max as nat),
{
    if utf8_len_of(s) <= max || s.len() <= max {
        slice_chars(s, 0, s.len())
    } else {
        slice_chars(s, 0, max)
    }
}

/// Abbreviates a `::`-separated logger name to at most `max_length` bytes.
pub fn abbreviate(name: &str, max_length: usize) -> (r: String)
    requires
        utf8_len(name@) <= usize::MAX,
    ensures
        r@ == abbreviate_spec(name@, max_length as nat),
{
    let v = chars_of(name);
    let r = abbreviate_chars(v.as_slice(), max_length);
    string_of(r.as_slice())
}

pub proof fn lemma_utf8_len_subrange(s: Seq<char>, a: int, b: int)
    requires
        0 <= a <= b <= s.len(),
    ensures
        utf8_len(s.subrange(a, b)) <= utf8_len(s),
{
    assert(s =~= s.subrange(0, a) + s.subrange(a, b) + s.subrange(b, s.len() as int));
    lemma_utf8_len_append(s.subrange(0, a) + s.subrange(a, b), s.subrange(b, s.len() as int));
    lemma_utf8_len_append(s.subrange(0, a), s.subrange(a, b));
}

pub proof fn lemma_split_parts_shorter(s: Seq<char>, start: int)
    requires
        0 <= start <= s.len(),
    ensures
        forall|j: int| 0 <= j < split_dcolon_from(s, start).len() ==>
            utf8_len(#[trigger] split_dcolon_from(s, start)[j]) <= utf8_len(s),
    decreases s.len() - start,
{
    let p = first_dcolon(s, start);
    lemma_first_dcolon_range(s, start);
    if p < start || p + 2 > s.len() {
        lemma_utf8_len_subrange(s, start, s.len() as int);
    } else {
        lemma_utf8_len_subrange(s, start, p);
        lemma_split_parts_shorter(s, p + 2);
        let rest = split_dcolon_from(s, p + 2);
        assert forall|j: int| 0 <= j < split_dcolon_from(s, start).len() implies
            utf8_len(#[trigger] split_dcolon_from(s, start)[j]) <= utf8_len(s) by {
            if j > 0 {
                assert(split_dcolon_from(s, start)[j] == rest[j - 1]);
            }
        }
    }
}

pub proof fn lemma_first_dcolon_range(s: Seq<char>, i: int)
    ensures
        first_dcolon(s, i) == -1 || (i <= first_dcolon(s, i) && first_dcolon(s, i) + 1 < s.len()
            && s[first_dcolon(s, i)] == ':' && s[first_dcolon(s, i) + 1] == ':'),
    decreases s.len() - i,
{
    if !(i < 0 || i + 1 >= s.len()) && !(s[i] == ':' && s[i + 1] == ':') {
        lemma_first_dcolon_range(s, i + 1);
    }
}

/// The candidate in which the first `j` segments are cut.
fn candidate_exec(segs: &Vec<Vec<char>>, j: usize) -> (r: Vec<char>)
    ensures
        r@ == candidate(segs@.map_values(|v: Vec<char>| v@), j as int),
{
    let ghost sv = segs@.map_values(|v: Vec<char>| v@);
    let ghost parts = cut_parts(sv, j as int);
    let mut out: Vec<char> = Vec::new();
    let mut i: usize = 0;
    proof {
        assert(parts.take(0) =~= Seq::<Seq<char>>::empty());
    }
    while i < segs.len()
        invariant
            i <= segs@.len(),
            sv == segs@.map_values(|v: Vec<char>| v@),
            parts == cut_parts(sv, j as int),
            parts.len() == segs@.len(),
            out@ == join_dot(parts.take(i as int)),
        decreases segs@.len() - i,
    {
        let seg = &segs[i];
        let ghost before = out@;
        assert(sv[i as int] == seg@);
        if i > 0 {
            out.push('.');
        }
        let ghost mid = out@;
        if i < j {
            if seg.len() > 0 {
                out.push(seg[0]);
            }
        } else {
            push_all(&mut out, seg.as_slice());
        }
        proof {
            let t = parts.take(i + 1);
            assert(t.drop_last() =~= parts.take(i as int));
            assert(t.last() == parts[i as int]);
            assert(out@ =~= mid + parts[i as int]);
            if i == 0 {
                assert(before =~= Seq::<char>::empty());
                assert(join_dot(t) == t[0]);
            }
            assert(out@ =~= join_dot(t));
        }
        i = i + 1;
    }
    proof {
        assert(parts.take(segs@.len() as int) =~= parts);
    }
    out
}

/// `abbreviate` on characters.
pub fn abbreviate_chars(name: &[char], max_length: usize) -> (r: Vec<char>)
    requires
        utf8_len(name@) <= usize::MAX,
    ensures
        r@ == abbreviate_spec(name@, max_length as nat),
{
    if name.len() == 0 {
        return Vec::new();
    }
    let segs = split_dcolon_exec(name);
    let ghost sv = segs@.map_values(|v: Vec<char>| v@);
    proof {
        lemma_split_parts_shorter(name@, 0);
        assert(sv.len() == segs@.len());
    }
    if segs.len() == 1 {
        assert(sv.len() == 1);
        if max_length == 0 {
            return slice_chars(name, 0, name.len());
        } else {
            return truncate_right(name, max_length);
        }
    }
    let n = segs.len();
    assert(sv[n - 1] == segs@[n - 1]@);
    assert(sv.last() == segs@[n - 1]@);
    let last = &segs[n - 1];
    if max_length == 0 {
        return slice_chars(last.as_slice(), 0, last.len());
    }
    if utf8_len_of(last.as_slice()) >= max_length {
        return truncate_right(last.as_slice(), max_length);
    }
    let mut j: usize = 0;
    while j < n - 1
        invariant
            n == segs@.len(),
            n >= 2,
            sv == segs@.map_values(|v: Vec<char>| v@),
            j <= n - 1,
            least_fit(sv, max_length as nat, 0) == least_fit(sv, max_length as nat, j as int),
            abbreviate_spec(name@, max_length as nat) == candidate(sv, least_fit(sv, max_length as nat, 0)),
        decreases n - 1 - j,
    {
        let cand = candidate_exec(&segs, j);
        if utf8_fits(cand.as_slice(), max_length) {
            return cand;
        }
        j = j + 1;
    }
    candidate_exec(&segs, n - 1)
}

// ---------------------------------------------------------------------------
// Laws of logback abbreviation.

/// Splitting always gives at least one segment.
proof fn lemma_split_nonempty(s: Seq<char>, start: int)
    requires
        0 <= start <= s.len(),
    ensures
        split_dcolon_from(s, start).len() >= 1,
    decreases s.len() - start,
{
    let p = first_dcolon(s, start);
    lemma_first_dcolon_range(s, start);
    if !(start < 0 || start > s.len() || p < start || p + 2 > s.len()) {
        lemma_split_nonempty(s, p + 2);
    }
}

/// A name without `::` is its own single segment.
proof fn lemma_single_segment(s: Seq<char>)
    requires
        split_dcolon(s).len() == 1,
    ensures
        split_dcolon(s)[0] == s,
{
    let p = first_dcolon(s, 0);
    lemma_first_dcolon_range(s, 0);
    if !(p < 0 || p + 2 > s.len()) {
        lemma_split_nonempty(s, p + 2);
    }
    assert(s.subrange(0, s.len() as int) =~= s);
}

/// With a maximum length of 0 only the last `::` segment is kept.
pub proof fn law_zero_length_keeps_last_segment(name: Seq<char>)
    ensures
        abbreviate_spec(name, 0) == split_dcolon(name).last(),
{
    lemma_split_nonempty(name, 0);
    if name.len() == 0 {
        assert(name.subrange(0, 0) =~= Seq::<char>::empty());
    } else if split_dcolon(name).len() == 1 {
        lemma_single_segment(name);
    }
}

proof fn lemma_least_fit(segs: Seq<Seq<char>>, max: nat, from: int)
    requires
        0 <= from <= segs.len() - 1,
    ensures
        from <= least_fit(segs, max, from) <= segs.len() - 1,
        least_fit(segs, max, from) < segs.len() - 1 ==> utf8_len(candidate(segs, least_fit(segs, max, from))) <= max,
        forall|j: int| from <= j < least_fit(segs, max, from) ==> utf8_len(#[trigger] candidate(segs, j)) > max,
    decreases segs.len() - from,
{
    if from < segs.len() - 1 && utf8_len(candidate(segs, from)) > max {
        lemma_least_fit(segs, max, from + 1);
    }
}

/// The join of `parts` ends with `.` and the last part where there are two
/// parts or more.
proof fn lemma_join_dot_ends_with_last(parts: Seq<Seq<char>>)
    requires
        parts.len() >= 2,
    ensures
        ({
            let r = join_dot(parts);
            let last = parts.last();
            &&& r.len() > last.len()
            &&& r[r.len() - last.len() - 1] == '.'
            &&& r.subrange(r.len() - last.len(), r.len() as int) == last
        }),
{
    let r = join_dot(parts);
    let pre = join_dot(parts.drop_last()).push('.');
    assert(r == pre + parts.last());
    assert(r.subrange(r.len() - parts.last().len(), r.len() as int) =~= parts.last());
    assert(r[r.len() - parts.last().len() - 1] == pre[pre.len() - 1]);
}

/// Where the last segment is shorter than the maximum length, leading
/// segments are cut to their first character from the left and only as far
/// as needed: the result is the first candidate that fits (or the one with
/// every leading segment cut, where none fits), no candidate with fewer cut
/// segments fits, and the result ends with `.` and the whole last segment.
pub proof fn law_least_abbreviation_that_fits(name: Seq<char>, max: nat)
    requires
        max > 0,
        split_dcolon(name).len() > 1,
        utf8_len(split_dcolon(name).last()) < max,
    ensures
        ({
            let segs = split_dcolon(name);
            let r = abbreviate_spec(name, max);
            let last = segs.last();
            &&& exists|k: int| #![trigger candidate(segs, k)] 0 <= k <= segs.len() - 1 && r == candidate(segs, k)
                && (k < segs.len() - 1 ==> utf8_len(r) <= max)
                && (forall|j: int| 0 <= j < k ==> utf8_len(#[trigger] candidate(segs, j)) > max)
            &&& r.len() > last.len()
            &&& r[r.len() - last.len() - 1] == '.'
            &&& r.subrange(r.len() - last.len(), r.len() as int) == last
        }),
{
    let segs = split_dcolon(name);
    lemma_split_nonempty(name, 0);
    if name.len() == 0 {
        assert(name.subrange(0, 0) =~= Seq::<char>::empty());
        assert(first_dcolon(name, 0) == -1);
    }
    let k = least_fit(segs, max, 0);
    lemma_least_fit(segs, max, 0);
    let parts = cut_parts(segs, k);
    lemma_join_dot_ends_with_last(parts);
    assert(parts.last() == segs.last());
    assert(abbreviate_spec(name, max) == candidate(segs, k));
}

} // verus!
