//! Character-sequence helpers shared by the pattern engines.
//!
//! Verified code works on `Vec<char>`; `chars_of` and `string_of` are the
//! places where `&str` / `String` are turned into and out of that
//! representation.

use vstd::prelude::*;

verus! {

/// `std::fmt::Error`, the error of the `*_to_writer` functions.
#[verifier::external_type_specification]
#[verifier::external_body]
pub struct ExFmtError(std::fmt::Error);

/// Number of bytes that `c` occupies in UTF-8.
pub open spec fn char_utf8_len(c: char) -> nat {
    if (c as u32) < 0x80u32 {
        1
    } else if (c as u32) < 0x800u32 {
        2
    } else if (c as u32) < 0x10000u32 {
        3
    } else {
        4
    }
}

/// Number of bytes that `s` occupies in UTF-8 (what `str::len` returns).
pub open spec fn utf8_len(s: Seq<char>) -> nat
    decreases s.len(),
{
    if s.len() == 0 {
        0
    } else {
        char_utf8_len(s[0]) + utf8_len(s.drop_first())
    }
}

/// Number of leading characters of `s` whose UTF-8 encoding fits in `n` bytes.
pub open spec fn chars_within(s: Seq<char>, n: int) -> nat
    decreases s.len(),
{
    if s.len() == 0 || char_utf8_len(s[0]) > n {
        0
    } else {
        1 + chars_within(s.drop_first(), n - char_utf8_len(s[0]))
    }
}

/// `n` falls on a character boundary of the UTF-8 encoding of `s`.
pub open spec fn is_byte_boundary(s: Seq<char>, n: int) -> bool {
    0 <= n <= utf8_len(s) && utf8_len(s.take(chars_within(s, n) as int)) == n
}

/// `true` when every character of `s` is ASCII.
pub open spec fn all_ascii(s: Seq<char>) -> bool {
    forall|i: int| 0 <= i < s.len() ==> (#[trigger] s[i] as u32) < 0x80u32
}

/// A sequence of `n` spaces.
pub open spec fn spaces(n: nat) -> Seq<char> {
    Seq::new(n, |i: int| ' ')
}

/// Decimal digits of `n` (no sign, no leading zeros; `"0"` for zero).
pub open spec fn decimal(n: nat) -> Seq<char>
    decreases n,
{
    if n < 10 {
        seq![digit_char(n)]
    } else {
        decimal(n / 10).push(digit_char(n % 10))
    }
}

/// The ASCII digit for `d` (`d < 10`).
pub open spec fn digit_char(d: nat) -> char {
    if d == 0 { '0' } else if d == 1 { '1' } else if d == 2 { '2' } else if d == 3 { '3' }
    else if d == 4 { '4' } else if d == 5 { '5' } else if d == 6 { '6' } else if d == 7 { '7' }
    else if d == 8 { '8' } else { '9' }
}

/// `c` is one of `'0'..='9'`.
pub open spec fn is_digit(c: char) -> bool {
    '0' <= c && c <= '9'
}

/// Value of a digit character.
pub open spec fn digit_value(c: char) -> nat {
    ((c as u32) - ('0' as u32)) as nat
}

/// Value of a string of decimal digits.
pub open spec fn digits_value(s: Seq<char>) -> nat
    decreases s.len(),
{
    if s.len() == 0 {
        0
    } else {
        digits_value(s.drop_last()) * 10 + digit_value(s.last())
    }
}

/// All characters of `s` are digits.
pub open spec fn all_digits(s: Seq<char>) -> bool {
    forall|i: int| 0 <= i < s.len() ==> is_digit(#[trigger] s[i])
}

/// What `s.parse::<usize>()` gives: an optional `+` then at least one digit,
/// all digits, and a value that fits in `usize`.
pub open spec fn parse_usize_spec(s: Seq<char>) -> Option<usize> {
    let d = if s.len() > 0 && s[0] == '+' { s.drop_first() } else { s };
    if d.len() > 0 && all_digits(d) && digits_value(d) <= usize::MAX {
        Some(digits_value(d) as usize)
    } else {
        None
    }
}

/// Characters with the Unicode `White_Space` property (what `char::is_whitespace` tests).
pub open spec fn is_white_space(c: char) -> bool {
    let u = c as u32;
    ||| 0x09u32 <= u <= 0x0du32
    ||| u == 0x20u32
    ||| u == 0x85u32
    ||| u == 0xa0u32
    ||| u == 0x1680u32
    ||| 0x2000u32 <= u <= 0x200au32
    ||| u == 0x2028u32
    ||| u == 0x2029u32
    ||| u == 0x202fu32
    ||| u == 0x205fu32
    ||| u == 0x3000u32
}

/// Number of leading white-space characters of `s`.
pub open spec fn leading_ws(s: Seq<char>) -> nat
    decreases s.len(),
{
    if s.len() > 0 && is_white_space(s[0]) {
        1 + leading_ws(s.drop_first())
    } else {
        0
    }
}

/// Number of trailing white-space characters of `s`.
pub open spec fn trailing_ws(s: Seq<char>) -> nat
    decreases s.len(),
{
    if s.len() > 0 && is_white_space(s.last()) {
        1 + trailing_ws(s.drop_last())
    } else {
        0
    }
}

/// `str::trim`: `s` without leading and trailing white space.
pub open spec fn trim_spec(s: Seq<char>) -> Seq<char> {
    let t = s.skip(leading_ws(s) as int);
    t.take(t.len() - trailing_ws(t))
}

pub proof fn lemma_utf8_len_append(a: Seq<char>, b: Seq<char>)
    ensures
        utf8_len(a + b) == utf8_len(a) + utf8_len(b),
    decreases a.len(),
{
    if a.len() == 0 {
        assert(a + b =~= b);
    } else {
        assert((a + b).drop_first() =~= a.drop_first() + b);
        lemma_utf8_len_append(a.drop_first(), b);
    }
}

pub proof fn lemma_utf8_len_ascii(s: Seq<char>)
    requires
        all_ascii(s),
    ensures
        utf8_len(s) == s.len(),
    decreases s.len(),
{
    if s.len() > 0 {
        assert(s[0] as u32 == s[0] as u32);
        lemma_utf8_len_ascii(s.drop_first());
    }
}

pub proof fn lemma_utf8_len_ge_len(s: Seq<char>)
    ensures
        utf8_len(s) >= s.len(),
    decreases s.len(),
{
    if s.len() > 0 {
        lemma_utf8_len_ge_len(s.drop_first());
    }
}

pub proof fn lemma_chars_within_bound(s: Seq<char>, n: int)
    ensures
        chars_within(s, n) <= s.len(),
        utf8_len(s.take(chars_within(s, n) as int)) <= n || chars_within(s, n) == 0,
        n >= 0 ==> utf8_len(s.take(chars_within(s, n) as int)) <= n,
        n >= utf8_len(s) ==> chars_within(s, n) == s.len(),
    decreases s.len(),
{
    if s.len() == 0 || char_utf8_len(s[0]) > n {
        assert(s.take(0) =~= Seq::<char>::empty());
    } else {
        let k = chars_within(s.drop_first(), n - char_utf8_len(s[0])) as int;
        lemma_chars_within_bound(s.drop_first(), n - char_utf8_len(s[0]));
        assert(s.take(k + 1).drop_first() =~= s.drop_first().take(k));
    }
}

/// The characters of `s`, in order.
pub fn chars_of(s: &str) -> (v: Vec<char>)
    ensures
        v@ == s@,
{
    broadcast use vstd::string::axiom_spec_iter;
    let mut v: Vec<char> = Vec::new();
    for c in it: s.chars()
        invariant
            v@ == it.seq().take(it.index() as int),
    {
        v.push(c);
    }
    v
}

/// A `String` holding exactly the characters of `v`.
///
/// Collects the characters with `String`'s `FromIterator<&char>`. Trusted:
/// the string holds those characters, in order, as std documents.
#[verifier::external_body]
pub(crate) fn string_of(v: &[char]) -> (s: String)
    ensures
        s@ == v@,
{
    v.iter().collect()
}

/// Exec counterpart of `char_utf8_len` (`char::len_utf8`).
pub fn char_len_utf8(c: char) -> (n: usize)
    ensures
        n == char_utf8_len(c),
{
    let u = c as u32;
    if u < 0x80u32 {
        1
    } else if u < 0x800u32 {
        2
    } else if u < 0x10000u32 {
        3
    } else {
        4
    }
}

/// UTF-8 length of `s`, saturating at `usize::MAX`.
pub fn utf8_len_of(s: &[char]) -> (n: usize)
    ensures
        utf8_len(s@) <= usize::MAX ==> n == utf8_len(s@),
        utf8_len(s@) > usize::MAX ==> n == usize::MAX,
{
    let mut i: usize = s.len();
    let mut acc: usize = 0;
    while i > 0
        invariant
            0 <= i <= s@.len(),
            acc == if utf8_len(s@.skip(i as int)) <= usize::MAX { utf8_len(s@.skip(i as int)) } else { usize::MAX as nat },
        decreases i,
    {
        i = i - 1;
        proof {
            assert(s@.skip(i as int).drop_first() =~= s@.skip(i + 1));
        }
        let c = char_len_utf8(s[i]);
        if acc > usize::MAX - c {
            acc = usize::MAX;
        } else {
            acc = acc + c;
        }
    }
    proof {
        assert(s@.skip(0) =~= s@);
    }
    acc
}

/// Whether the UTF-8 encoding of `s` fits in `max` bytes.
pub fn utf8_fits(s: &[char], max: usize) -> (r: bool)
    ensures
        r == (utf8_len(s@) <= max),
{
    let mut i: usize = 0;
    let mut acc: usize = 0;
    while i < s.len()
        invariant
            0 <= i <= s@.len(),
            acc == utf8_len(s@.take(i as int)),
            acc <= max,
        decreases s@.len() - i,
    {
        let c = char_len_utf8(s[i]);
        proof {
            let one = seq![s@[i as int]];
            assert(s@.take(i + 1) =~= s@.take(i as int) + one);
            lemma_utf8_len_append(s@.take(i as int), one);
            assert(one.drop_first() =~= Seq::<char>::empty());
            assert(utf8_len(one.drop_first()) == 0);
            assert(one[0] == s@[i as int]);
            assert(utf8_len(one) == char_utf8_len(one[0]) + utf8_len(one.drop_first()));
        }
        if c > max - acc {
            proof {
                lemma_utf8_len_take(s@, i + 1);
            }
            return false;
        }
        acc = acc + c;
        i = i + 1;
    }
    proof {
        assert(s@.take(s@.len() as int) =~= s@);
    }
    true
}

/// Byte offset, in the UTF-8 encoding of `s`, of the character at index `i`
/// (of the end of `s` where `i` lies past it).
pub open spec fn byte_offset(s: Seq<char>, i: int) -> nat {
    utf8_len(s.take(if i <= s.len() { i } else { s.len() as int }))
}

pub proof fn lemma_utf8_len_take(s: Seq<char>, k: int)
    requires
        0 <= k <= s.len(),
    ensures
        utf8_len(s.take(k)) <= utf8_len(s),
{
    assert(s =~= s.take(k) + s.skip(k));
    lemma_utf8_len_append(s.take(k), s.skip(k));
}

/// The byte offset of character index `i` in the UTF-8 encoding of `s`.
pub fn byte_offset_of(s: &[char], i: usize) -> (n: usize)
    requires
        utf8_len(s@) <= usize::MAX,
    ensures
        n == byte_offset(s@, i as int),
{
    let k = if i <= s.len() { i } else { s.len() };
    let pre = slice_chars(s, 0, k);
    proof {
        assert(pre@ =~= s@.take(k as int));
        lemma_utf8_len_take(s@, k as int);
    }
    utf8_len_of(pre.as_slice())
}

/// Appends all of `s` to `out`.
pub fn push_all(out: &mut Vec<char>, s: &[char])
    ensures
        final(out)@ == old(out)@ + s@,
{
    let mut i: usize = 0;
    while i < s.len()
        invariant
            0 <= i <= s@.len(),
            out@ == old(out)@ + s@.subrange(0, i as int),
        decreases s@.len() - i,
    {
        out.push(s[i]);
        i = i + 1;
        assert(out@ =~= old(out)@ + s@.subrange(0, i as int));
    }
    assert(s@.subrange(0, s@.len() as int) =~= s@);
}

/// Appends all characters of `s` to `out`.
pub fn push_str(out: &mut Vec<char>, s: &str)
    ensures
        final(out)@ == old(out)@ + s@,
{
    let v = chars_of(s);
    push_all(out, v.as_slice());
}

/// `a` and `b` hold the same characters.
pub fn chars_eq(a: &[char], b: &[char]) -> (r: bool)
    ensures
        r == (a@ == b@),
{
    if a.len() != b.len() {
        return false;
    }
    let mut i: usize = 0;
    while i < a.len()
        invariant
            a@.len() == b@.len(),
            0 <= i <= a@.len(),
            forall|j: int| 0 <= j < i ==> a@[j] == b@[j],
        decreases a@.len() - i,
    {
        if a[i] != b[i] {
            return false;
        }
        i = i + 1;
    }
    assert(a@ =~= b@);
    true
}

/// `a` equals the string `b`.
pub fn chars_eq_str(a: &[char], b: &str) -> (r: bool)
    ensures
        r == (a@ == b@),
{
    let v = chars_of(b);
    chars_eq(a, v.as_slice())
}

/// The characters of `s` in positions `start..end`.
pub fn slice_chars(s: &[char], start: usize, end: usize) -> (r: Vec<char>)
    requires
        start <= end <= s@.len(),
    ensures
        r@ == s@.subrange(start as int, end as int),
{
    let mut r: Vec<char> = Vec::new();
    let mut i: usize = start;
    while i < end
        invariant
            start <= i <= end <= s@.len(),
            r@ == s@.subrange(start as int, i as int),
        decreases end - i,
    {
        r.push(s[i]);
        i = i + 1;
        assert(r@ =~= s@.subrange(start as int, i as int));
    }
    r
}

/// `lit` occurs in `s` at position `i`.
pub open spec fn occurs_at(s: Seq<char>, i: int, lit: Seq<char>) -> bool {
    0 <= i && i + lit.len() <= s.len() && s.subrange(i, i + lit.len()) == lit
}

/// Whether the string `lit` occurs in `s` at position `i`.
pub fn matches_at(s: &[char], i: usize, lit: &str) -> (r: bool)
    ensures
        r == occurs_at(s@, i as int, lit@),
{
    let l = chars_of(lit);
    let slen = s.len();
    if i > s.len() || l.len() > s.len() - i {
        return false;
    }
    let mut k: usize = 0;
    while k < l.len()
        invariant
            i as int + l@.len() <= s@.len(),
            s@.len() == slen,
            0 <= k <= l@.len(),
            l@ == lit@,
            forall|j: int| 0 <= j < k ==> s@[i + j] == l@[j],
        decreases l@.len() - k,
    {
        if s[i + k] != l[k] {
            assert(s@.subrange(i as int, i + l@.len())[k as int] != l@[k as int]);
            return false;
        }
        k = k + 1;
    }
    assert(s@.subrange(i as int, i + l@.len()) =~= l@);
    true
}

/// Digit character for `d < 10`.
pub fn digit_char_of(d: u8) -> (c: char)
    requires
        d < 10,
    ensures
        c == digit_char(d as nat),
{
    if d == 0 { '0' } else if d == 1 { '1' } else if d == 2 { '2' } else if d == 3 { '3' }
    else if d == 4 { '4' } else if d == 5 { '5' } else if d == 6 { '6' } else if d == 7 { '7' }
    else if d == 8 { '8' } else { '9' }
}

/// Decimal rendering of `n` (what `n.to_string()` gives).
pub fn u128_to_decimal(n: u128) -> (r: Vec<char>)
    ensures
        r@ == decimal(n as nat),
    decreases n,
{
    if n < 10 {
        let mut r: Vec<char> = Vec::new();
        r.push(digit_char_of(n as u8));
        r
    } else {
        let mut r = u128_to_decimal(n / 10);
        r.push(digit_char_of((n % 10) as u8));
        r
    }
}

/// Parses `s` as `s.parse::<usize>()` does.
pub fn parse_usize(s: &[char]) -> (r: Option<usize>)
    ensures
        r == parse_usize_spec(s@),
{
    let start: usize = if s.len() > 0 && s[0] == '+' { 1 } else { 0 };
    let ghost d = if s@.len() > 0 && s@[0] == '+' { s@.drop_first() } else { s@ };
    assert(d =~= s@.skip(start as int));
    if start >= s.len() {
        assert(d.len() == 0);
        assert(parse_usize_spec(s@).is_none());
        return None;
    }
    let mut i: usize = start;
    let mut acc: usize = 0;
    let mut overflow: bool = false;
    while i < s.len()
        invariant
            start <= i <= s@.len(),
            d =~= s@.skip(start as int),
            d == (if s@.len() > 0 && s@[0] == '+' { s@.drop_first() } else { s@ }),
            all_digits(s@.subrange(start as int, i as int)),
            !overflow ==> acc == digits_value(s@.subrange(start as int, i as int)),
            overflow ==> digits_value(s@.subrange(start as int, i as int)) > usize::MAX,
        decreases s@.len() - i,
    {
        let c = s[i];
        if !('0' <= c && c <= '9') {
            assert(!all_digits(d)) by {
                assert(d[i - start] == c);
            }
            return None;
        }
        let ghost prev = s@.subrange(start as int, i as int);
        let ghost next = s@.subrange(start as int, i + 1);
        assert(next.drop_last() =~= prev);
        assert(next.last() == c);
        let dv = ((c as u32) - ('0' as u32)) as usize;
        if overflow {
            assert(digits_value(next) >= digits_value(prev) * 10) by (nonlinear_arith)
                requires
                    digits_value(next) == digits_value(prev) * 10 + digit_value(c),
            ;
        } else if acc > (usize::MAX - dv) / 10 {
            overflow = true;
            assert(digits_value(next) > usize::MAX) by (nonlinear_arith)
                requires
                    digits_value(next) == acc * 10 + dv,
                    acc > (usize::MAX - dv) / 10,
                    dv <= 9,
            ;
        } else {
            assert(acc * 10 + dv <= usize::MAX) by (nonlinear_arith)
                requires
                    acc <= (usize::MAX - dv) / 10,
                    dv <= 9,
            ;
            acc = acc * 10 + dv;
        }
        i = i + 1;
    }
    assert(s@.subrange(start as int, s@.len() as int) =~= d);
    if overflow {
        None
    } else {
        Some(acc)
    }
}

/// `str::trim`.
pub fn trim_chars(s: &[char]) -> (r: Vec<char>)
    ensures
        r@ == trim_spec(s@),
{
    let mut a: usize = 0;
    assert(s@.skip(0) =~= s@);
    while a < s.len() && is_white_space_exec(s[a])
        invariant
            0 <= a <= s@.len(),
            leading_ws(s@) == a + leading_ws(s@.skip(a as int)),
        decreases s@.len() - a,
    {
        proof {
            assert(s@.skip(a as int).drop_first() =~= s@.skip(a + 1));
        }
        a = a + 1;
    }
    let ghost t = s@.skip(a as int);
    proof {
        assert(leading_ws(t) == 0);
    }
    let mut b: usize = s.len();
    while b > a && is_white_space_exec(s[b - 1])
        invariant
            a <= b <= s@.len(),
            t == s@.skip(a as int),
            trailing_ws(t) == (s@.len() - b) + trailing_ws(s@.subrange(a as int, b as int)),
        decreases b,
    {
        proof {
            assert(s@.subrange(a as int, b as int).drop_last() =~= s@.subrange(a as int, b - 1));
        }
        b = b - 1;
    }
    proof {
        assert(t.take(t.len() - trailing_ws(t)) =~= s@.subrange(a as int, b as int));
    }
    slice_chars(s, a, b)
}

/// Exec counterpart of `is_white_space`.
pub fn is_white_space_exec(c: char) -> (r: bool)
    ensures
        r == is_white_space(c),
{
    let u = c as u32;
    (0x09u32 <= u && u <= 0x0du32) || u == 0x20u32 || u == 0x85u32 || u == 0xa0u32
        || u == 0x1680u32 || (0x2000u32 <= u && u <= 0x200au32) || u == 0x2028u32
        || u == 0x2029u32 || u == 0x202fu32 || u == 0x205fu32 || u == 0x3000u32
}

/// What `str::to_lowercase` returns for a string whose characters are `s`
/// (full Unicode lower-casing, a function of its argument alone).
pub uninterp spec fn lowercase(s: Seq<char>) -> Seq<char>;

/// `c` with `A`..`Z` mapped to `a`..`z`.
pub open spec fn ascii_lower_char(c: char) -> char {
    if 0x41u32 <= (c as u32) && (c as u32) <= 0x5au32 { ((c as u32) + 0x20u32) as char } else { c }
}

/// `c` with `a`..`z` mapped to `A`..`Z`.
pub open spec fn ascii_upper_char(c: char) -> char {
    if 0x61u32 <= (c as u32) && (c as u32) <= 0x7au32 { ((c as u32) - 0x20u32) as char } else { c }
}

/// `s` with its ASCII upper-case letters lowered (`str::to_ascii_lowercase`).
pub open spec fn ascii_lower(s: Seq<char>) -> Seq<char> {
    s.map_values(|c: char| ascii_lower_char(c))
}

/// `s` with its ASCII lower-case letters raised (`str::to_ascii_uppercase`).
pub open spec fn ascii_upper(s: Seq<char>) -> Seq<char> {
    s.map_values(|c: char| ascii_upper_char(c))
}

/// Calls `str::to_lowercase`. Trusted: the result is `lowercase` of the
/// argument, the string's Unicode lower-case mapping, a function of the
/// argument alone; on ASCII text that mapping lowers `A`..`Z` and keeps
/// every other character, as for `to_ascii_lowercase`. Raising the ASCII
/// letters of the argument first changes nothing: each lowers to the same
/// letter either way, and whether a character is cased, which the
/// final-sigma rule reads, is kept. Which characters outside ASCII map to
/// what is not stated here.
#[verifier::external_body]
pub(crate) fn str_to_lowercase(s: &str) -> (r: String)
    ensures
        r@ == lowercase(s@),
        r@ == lowercase(ascii_upper(s@)),
        all_ascii(s@) ==> r@ == ascii_lower(s@),
{
    s.to_lowercase()
}

/// Number of leading characters of `s` that fit in `n` bytes of UTF-8.
pub fn chars_within_exec(s: &[char], n: usize) -> (k: usize)
    ensures
        k == chars_within(s@, n as int),
        k <= s@.len(),
{
    let mut i: usize = 0;
    let mut rem: usize = n;
    assert(s@.skip(0) =~= s@);
    while i < s.len() && char_len_utf8(s[i]) <= rem
        invariant
            0 <= i <= s@.len(),
            rem <= n,
            chars_within(s@, n as int) == i + chars_within(s@.skip(i as int), rem as int),
        decreases s@.len() - i,
    {
        proof {
            assert(s@.skip(i as int)[0] == s@[i as int]);
            assert(s@.skip(i as int).drop_first() =~= s@.skip(i + 1));
        }
        rem = rem - char_len_utf8(s[i]);
        i = i + 1;
    }
    proof {
        if i < s@.len() {
            assert(s@.skip(i as int)[0] == s@[i as int]);
        }
    }
    i
}

} // verus!
