//! Snapshot of a span's field values, for `%X{key}` / `%X`.
//!
//! Fields are kept ordered by key so that `%X` renders them in a stable order.

use vstd::prelude::*;
use crate::text::{chars_eq, chars_of};

verus! {

broadcast use vstd::seq_lib::group_seq_properties;

/// Lexicographic order on character sequences (the order of `String` keys).
pub open spec fn key_lt(a: Seq<char>, b: Seq<char>) -> bool
    decreases a.len(),
{
    if a.len() == 0 {
        b.len() > 0
    } else if b.len() == 0 {
        false
    } else if a[0] < b[0] {
        true
    } else if a[0] == b[0] {
        key_lt(a.drop_first(), b.drop_first())
    } else {
        false
    }
}

/// The keys of `s` increase strictly.
pub open spec fn sorted_keys(s: Seq<(Seq<char>, Seq<char>)>) -> bool {
    forall|i: int, j: int| 0 <= i < j < s.len() ==> key_lt(#[trigger] s[i].0, #[trigger] s[j].0)
}

/// The value of the first entry of `s` with key `key`.
pub open spec fn lookup(s: Seq<(Seq<char>, Seq<char>)>, key: Seq<char>) -> Option<Seq<char>>
    decreases s.len(),
{
    if s.len() == 0 {
        None
    } else if s[0].0 == key {
        Some(s[0].1)
    } else {
        lookup(s.drop_first(), key)
    }
}

/// Position of the first entry whose key is not below `key`.
pub open spec fn insert_pos(s: Seq<(Seq<char>, Seq<char>)>, key: Seq<char>) -> nat
    decreases s.len(),
{
    if s.len() == 0 || !key_lt(s[0].0, key) {
        0
    } else {
        1 + insert_pos(s.drop_first(), key)
    }
}

/// The entries after recording `value` under `key`: an existing entry with
/// that key gets the new value, otherwise the pair is inserted in key order.
pub open spec fn record_spec(s: Seq<(Seq<char>, Seq<char>)>, key: Seq<char>, value: Seq<char>) -> Seq<(Seq<char>, Seq<char>)> {
    let p = insert_pos(s, key) as int;
    if p < s.len() && s[p].0 == key {
        s.update(p, (key, value))
    } else {
        s.insert(p, (key, value))
    }
}

/// The model of a list of string pairs.
pub open spec fn pairs_view(v: Seq<(String, String)>) -> Seq<(Seq<char>, Seq<char>)> {
    v.map_values(|p: (String, String)| (p.0@, p.1@))
}

pub proof fn lemma_key_lt_irrefl(a: Seq<char>)
    ensures
        !key_lt(a, a),
    decreases a.len(),
{
    if a.len() > 0 {
        lemma_key_lt_irrefl(a.drop_first());
    }
}

pub proof fn lemma_key_lt_trans(a: Seq<char>, b: Seq<char>, c: Seq<char>)
    requires
        key_lt(a, b),
        key_lt(b, c),
    ensures
        key_lt(a, c),
    decreases a.len(),
{
    if a.len() > 0 && b.len() > 0 && c.len() > 0 && a[0] == b[0] && b[0] == c[0] {
        lemma_key_lt_trans(a.drop_first(), b.drop_first(), c.drop_first());
    }
}

pub proof fn lemma_key_lt_total(a: Seq<char>, b: Seq<char>)
    ensures
        a == b || key_lt(a, b) || key_lt(b, a),
    decreases a.len(),
{
    if a.len() > 0 && b.len() > 0 {
        if a[0] == b[0] {
            lemma_key_lt_total(a.drop_first(), b.drop_first());
            if a.drop_first() == b.drop_first() {
                assert(a =~= seq![a[0]] + a.drop_first());
                assert(b =~= seq![b[0]] + b.drop_first());
            }
        }
    } else if a.len() == 0 && b.len() == 0 {
        assert(a =~= b);
    }
}

pub proof fn lemma_key_lt_asym(a: Seq<char>, b: Seq<char>)
    requires
        key_lt(a, b),
    ensures
        !key_lt(b, a),
        a != b,
    decreases a.len(),
{
    if a.len() > 0 && b.len() > 0 && a[0] == b[0] {
        lemma_key_lt_asym(a.drop_first(), b.drop_first());
    }
    if a == b {
        lemma_key_lt_irrefl(a);
    }
}

/// Compares two keys.
fn key_less(a: &[char], b: &[char]) -> (r: bool)
    ensures
        r == key_lt(a@, b@),
{
    let mut i: usize = 0;
    while i < a.len() && i < b.len() && a[i] == b[i]
        invariant
            0 <= i <= a@.len(),
            i <= b@.len(),
            key_lt(a@, b@) == key_lt(a@.skip(i as int), b@.skip(i as int)),
        decreases a@.len() - i,
    {
        proof {
            assert(a@.skip(i as int).drop_first() =~= a@.skip(i + 1));
            assert(b@.skip(i as int).drop_first() =~= b@.skip(i + 1));
        }
        i = i + 1;
    }
    proof {
        if i < a@.len() && i < b@.len() {
            assert(a@.skip(i as int)[0] == a@[i as int]);
            assert(b@.skip(i as int)[0] == b@[i as int]);
        }
    }
    if i == a.len() {
        i < b.len()
    } else if i == b.len() {
        false
    } else {
        a[i] < b[i]
    }
}

/// In-memory snapshot of a span's field values, ordered by key.
#[derive(Debug)]
pub struct SpanFieldStore {
    fields: Vec<(String, String)>,
}

pub proof fn lemma_insert_pos(s: Seq<(Seq<char>, Seq<char>)>, key: Seq<char>)
    ensures
        insert_pos(s, key) <= s.len(),
        forall|j: int| 0 <= j < insert_pos(s, key) ==> key_lt(#[trigger] s[j].0, key),
        insert_pos(s, key) < s.len() ==> !key_lt(s[insert_pos(s, key) as int].0, key),
    decreases s.len(),
{
    if s.len() > 0 && key_lt(s[0].0, key) {
        lemma_insert_pos(s.drop_first(), key);
        assert forall|j: int| 0 <= j < insert_pos(s, key) implies key_lt(#[trigger] s[j].0, key) by {
            if j > 0 {
                assert(s[j] == s.drop_first()[j - 1]);
            }
        }
    }
}

pub proof fn lemma_insert_pos_at(s: Seq<(Seq<char>, Seq<char>)>, key: Seq<char>, i: int)
    requires
        sorted_keys(s),
        0 <= i < s.len(),
        !key_lt(s[i].0, key),
        forall|j: int| 0 <= j < i ==> key_lt(#[trigger] s[j].0, key),
    ensures
        insert_pos(s, key) == i,
{
    lemma_insert_pos(s, key);
    let p = insert_pos(s, key) as int;
    if p < i {
        assert(key_lt(s[p].0, key));
    } else if p > i {
        assert(key_lt(s[i].0, key));
    }
}

pub proof fn lemma_insert_pos_before(s: Seq<(Seq<char>, Seq<char>)>, key: Seq<char>, i: int)
    requires
        0 <= i < s.len(),
        key_lt(s[i].0, key),
        i <= insert_pos(s, key),
        sorted_keys(s),
    ensures
        i + 1 <= insert_pos(s, key),
{
    lemma_insert_pos(s, key);
    if insert_pos(s, key) == i {
        assert(!key_lt(s[i].0, key));
    }
}

pub proof fn lemma_record_sorted(s: Seq<(Seq<char>, Seq<char>)>, key: Seq<char>, value: Seq<char>)
    requires
        sorted_keys(s),
    ensures
        sorted_keys(record_spec(s, key, value)),
{
    lemma_insert_pos(s, key);
    let p = insert_pos(s, key) as int;
    let r = record_spec(s, key, value);
    if p < s.len() && s[p].0 == key {
        assert forall|i: int, j: int| 0 <= i < j < r.len() implies key_lt(#[trigger] r[i].0, #[trigger] r[j].0) by {
            assert(r[i].0 == s[i].0);
            assert(r[j].0 == s[j].0);
        }
    } else {
        assert forall|i: int, j: int| 0 <= i < j < r.len() implies key_lt(#[trigger] r[i].0, #[trigger] r[j].0) by {
            if j < p {
                assert(r[i] == s[i] && r[j] == s[j]);
            } else if j == p {
                assert(r[i] == s[i]);
            } else if i == p {
                assert(r[j] == s[j - 1]);
                if j - 1 > p {
                    assert(key_lt(s[p].0, s[j - 1].0));
                    lemma_key_lt_total(s[p].0, key);
                    if key_lt(s[p].0, key) {
                    } else {
                        lemma_key_lt_trans(key, s[p].0, s[j - 1].0);
                    }
                } else {
                    lemma_key_lt_total(s[p].0, key);
                }
            } else if i < p {
                assert(r[i] == s[i] && r[j] == s[j - 1]);
                if i < j - 1 {
                } else {
                    lemma_key_lt_total(s[i].0, key);
                }
            } else {
                assert(r[i] == s[i - 1] && r[j] == s[j - 1]);
            }
        }
    }
}

impl Default for SpanFieldStore {
    fn default() -> (r: Self)
        ensures
            r.entries() == Seq::<(Seq<char>, Seq<char>)>::empty(),
    {
        let r = SpanFieldStore { fields: Vec::new() };
        assert(pairs_view(r.fields@) =~= Seq::<(Seq<char>, Seq<char>)>::empty());
        r
    }
}

impl Clone for SpanFieldStore {
    fn clone(&self) -> (r: Self)
        ensures
            r.entries() == self.entries(),
    {
        proof {
            use_type_invariant(self);
        }
        SpanFieldStore { fields: self.iter() }
    }
}

impl SpanFieldStore {
    /// The stored pairs, in increasing key order.
    pub closed spec fn entries(&self) -> Seq<(Seq<char>, Seq<char>)> {
        pairs_view(self.fields@)
    }

    #[verifier::type_invariant]
    spec fn inv(&self) -> bool {
        sorted_keys(pairs_view(self.fields@))
    }

    /// Looks up the value recorded under `key`.
    pub fn get(&self, key: &str) -> (r: Option<&str>)
        ensures
            match r {
                Some(v) => lookup(self.entries(), key@) == Some(v@),
                None => lookup(self.entries(), key@) is None,
            },
    {
        let k = chars_of(key);
        let mut i: usize = 0;
        let n = self.fields.len();
        while i < n
            invariant
                n == self.fields@.len(),
                0 <= i <= n,
                lookup(self.entries(), key@) == lookup(self.entries().skip(i as int), key@),
                k@ == key@,
            decreases n - i,
        {
            let ghost rest = self.entries().skip(i as int);
            proof {
                assert(rest[0] == (self.fields@[i as int].0@, self.fields@[i as int].1@));
                assert(rest.drop_first() =~= self.entries().skip(i + 1));
            }
            let fk = chars_of(self.fields[i].0.as_str());
            if chars_eq(fk.as_slice(), k.as_slice()) {
                return Some(self.fields[i].1.as_str());
            }
            i = i + 1;
        }
        None
    }

    /// All `(key, value)` pairs, in increasing key order.
    pub fn iter(&self) -> (r: Vec<(String, String)>)
        ensures
            pairs_view(r@) == self.entries(),
            sorted_keys(self.entries()),
    {
        proof {
            use_type_invariant(self);
        }
        let mut r: Vec<(String, String)> = Vec::new();
        let mut i: usize = 0;
        let n = self.fields.len();
        while i < n
            invariant
                n == self.fields@.len(),
                0 <= i <= n,
                pairs_view(r@) == self.entries().take(i as int),
            decreases n - i,
        {
            let a = self.fields[i].0.clone();
            let b = self.fields[i].1.clone();
            let ghost r0 = r@;
            r.push((a, b));
            proof {
                assert(r@ == r0.push((a, b)));
                assert(pairs_view(r@) =~= pairs_view(r0).push((a@, b@)));
                assert(self.entries()[i as int] == (self.fields@[i as int].0@, self.fields@[i as int].1@));
                assert(pairs_view(r@) =~= self.entries().take(i + 1));
            }
            i = i + 1;
        }
        assert(self.entries().take(n as int) =~= self.entries());
        r
    }

    /// Records `value` under `name`, replacing an earlier value for it.
    pub fn record(&mut self, name: &str, value: String)
        ensures
            final(self).entries() == record_spec(old(self).entries(), name@, value@),
            sorted_keys(final(self).entries()),
    {
        proof {
            use_type_invariant(&*self);
        }
        let ghost s0 = self.entries();
        let k = chars_of(name);
        let n = self.fields.len();
        let mut out: Vec<(String, String)> = Vec::new();
        let mut i: usize = 0;
        let mut done: bool = false;
        let ghost p = insert_pos(s0, name@) as int;
        proof {
            lemma_insert_pos(s0, name@);
        }
        while i < n
            invariant
                n == self.fields@.len(),
                s0 == pairs_view(self.fields@),
                sorted_keys(s0),
                p == insert_pos(s0, name@),
                p <= s0.len(),
                forall|j: int| 0 <= j < p ==> key_lt(#[trigger] s0[j].0, name@),
                p < s0.len() ==> !key_lt(s0[p].0, name@),
                k@ == name@,
                0 <= i <= n,
                !done ==> i <= p && pairs_view(out@) == s0.take(i as int),
                done ==> pairs_view(out@) == record_spec(s0, name@, value@).take(
                    if p < s0.len() && s0[p].0 == name@ { i as int } else { i + 1 }),
                done ==> i > p || (i == p && !(p < s0.len() && s0[p].0 == name@)),
            decreases 2 * (n - i) + (if done { 0int } else { 1int }),
        {
            let fk = chars_of(self.fields[i].0.as_str());
            assert(s0[i as int].0 == fk@);
            if !done && !key_less(fk.as_slice(), k.as_slice()) {
                proof {
                    lemma_insert_pos_at(s0, name@, i as int);
                }
                done = true;
                let nv = String::from_str(name);
                let vv = value.clone();
                let ghost o0 = out@;
                out.push((nv, vv));
                proof {
                    assert(out@ == o0.push((nv, vv)));
                    assert(pairs_view(out@) =~= pairs_view(o0).push((name@, value@)));
                }
                if chars_eq(fk.as_slice(), k.as_slice()) {
                    proof {
                        assert(pairs_view(out@) =~= record_spec(s0, name@, value@).take(i + 1));
                    }
                    i = i + 1;
                } else {
                    proof {
                        assert(pairs_view(out@) =~= record_spec(s0, name@, value@).take(i + 1));
                    }
                }
            } else {
                let a = self.fields[i].0.clone();
                let b = self.fields[i].1.clone();
                let ghost o0 = out@;
                out.push((a, b));
                proof {
                    assert(out@ == o0.push((a, b)));
                    assert(pairs_view(out@) =~= pairs_view(o0).push((a@, b@)));
                    assert(s0[i as int] == (a@, b@));
                    if done {
                        let off: int = if p < s0.len() && s0[p].0 == name@ { 0 } else { 1 };
                        assert(pairs_view(out@) =~= record_spec(s0, name@, value@).take(i + 1 + off));
                    } else {
                        lemma_insert_pos_before(s0, name@, i as int);
                        assert(pairs_view(out@) =~= s0.take(i + 1));
                    }
                }
                i = i + 1;
            }
        }
        if !done {
            let nv = String::from_str(name);
            let ghost o0 = out@;
            let ghost vv = value@;
            out.push((nv, value));
            proof {
                assert(pairs_view(out@) =~= pairs_view(o0).push((name@, vv)));
                assert(p == s0.len());
                assert(pairs_view(out@) =~= record_spec(s0, name@, value@));
            }
        } else {
            proof {
                let off: int = if p < s0.len() && s0[p].0 == name@ { 0 } else { 1 };
                assert(record_spec(s0, name@, value@).len() == n + off);
                assert(record_spec(s0, name@, value@).take(n + off) =~= record_spec(s0, name@, value@));
            }
        }
        proof {
            lemma_record_sorted(s0, name@, value@);
        }
        self.fields = out;
    }

}

// ---------------------------------------------------------------------------
// Laws of the store.

/// The first entry with key `k` is at `i`.
proof fn lemma_lookup_at(s: Seq<(Seq<char>, Seq<char>)>, k: Seq<char>, i: int)
    requires
        0 <= i < s.len(),
        s[i].0 == k,
        forall|j: int| 0 <= j < i ==> (#[trigger] s[j]).0 != k,
    ensures
        lookup(s, k) == Some(s[i].1),
    decreases i,
{
    if i > 0 {
        assert(s[0].0 != k);
        assert forall|j: int| 0 <= j < i - 1 implies (#[trigger] s.drop_first()[j]).0 != k by {
            assert(s.drop_first()[j] == s[j + 1]);
        }
        lemma_lookup_at(s.drop_first(), k, i - 1);
    }
}

/// No entry has key `k`.
proof fn lemma_lookup_absent(s: Seq<(Seq<char>, Seq<char>)>, k: Seq<char>)
    requires
        forall|j: int| 0 <= j < s.len() ==> (#[trigger] s[j]).0 != k,
    ensures
        lookup(s, k) is None,
    decreases s.len(),
{
    if s.len() > 0 {
        assert(s[0].0 != k);
        assert forall|j: int| 0 <= j < s.len() - 1 implies (#[trigger] s.drop_first()[j]).0 != k by {
            assert(s.drop_first()[j] == s[j + 1]);
        }
        lemma_lookup_absent(s.drop_first(), k);
    }
}

/// In sorted entries, the lookup of a key is the value of the one entry
/// holding it, or nothing.
proof fn lemma_lookup_sorted(s: Seq<(Seq<char>, Seq<char>)>, k: Seq<char>)
    requires
        sorted_keys(s),
    ensures
        forall|i: int| 0 <= i < s.len() && (#[trigger] s[i]).0 == k ==> lookup(s, k) == Some(s[i].1),
        (forall|j: int| 0 <= j < s.len() ==> (#[trigger] s[j]).0 != k) ==> lookup(s, k) is None,
{
    assert forall|i: int| 0 <= i < s.len() && (#[trigger] s[i]).0 == k implies lookup(s, k) == Some(s[i].1) by {
        assert forall|j: int| 0 <= j < i implies (#[trigger] s[j]).0 != k by {
            lemma_key_lt_asym(s[j].0, s[i].0);
        }
        lemma_lookup_at(s, k, i);
    }
    if forall|j: int| 0 <= j < s.len() ==> (#[trigger] s[j]).0 != k {
        lemma_lookup_absent(s, k);
    }
}

/// After `value` is recorded under `key`, looking up `key` gives `value`.
pub proof fn law_record_then_get(s: Seq<(Seq<char>, Seq<char>)>, key: Seq<char>, value: Seq<char>)
    requires
        sorted_keys(s),
    ensures
        lookup(record_spec(s, key, value), key) == Some(value),
{
    let r = record_spec(s, key, value);
    let p = insert_pos(s, key) as int;
    lemma_insert_pos(s, key);
    lemma_record_sorted(s, key, value);
    assert(r[p] == (key, value));
    lemma_lookup_sorted(r, key);
}

/// Recording under `key` leaves the value of every other key unchanged.
pub proof fn law_record_keeps_others(s: Seq<(Seq<char>, Seq<char>)>, key: Seq<char>, value: Seq<char>, other: Seq<char>)
    requires
        sorted_keys(s),
        other != key,
    ensures
        lookup(record_spec(s, key, value), other) == lookup(s, other),
{
    let r = record_spec(s, key, value);
    let p = insert_pos(s, key) as int;
    lemma_insert_pos(s, key);
    lemma_record_sorted(s, key, value);
    lemma_lookup_sorted(s, other);
    lemma_lookup_sorted(r, other);
    if p < s.len() && s[p].0 == key {
        if exists|i: int| 0 <= i < s.len() && (#[trigger] s[i]).0 == other {
            let i = choose|i: int| 0 <= i < s.len() && (#[trigger] s[i]).0 == other;
            assert(r[i] == s[i]);
        } else {
            assert forall|j: int| 0 <= j < r.len() implies (#[trigger] r[j]).0 != other by {
                if j != p {
                    assert(r[j] == s[j]);
                }
            }
        }
    } else {
        if exists|i: int| 0 <= i < s.len() && (#[trigger] s[i]).0 == other {
            let i = choose|i: int| 0 <= i < s.len() && (#[trigger] s[i]).0 == other;
            if i < p {
                assert(r[i] == s[i]);
            } else {
                assert(r[i + 1] == s[i]);
            }
        } else {
            assert forall|j: int| 0 <= j < r.len() implies (#[trigger] r[j]).0 != other by {
                if j < p {
                    assert(r[j] == s[j]);
                } else if j > p {
                    assert(r[j] == s[j - 1]);
                }
            }
        }
    }
}

/// Recording keeps the keys strictly increasing: `%X` lists each key once,
/// in order.
pub proof fn law_record_stays_sorted(s: Seq<(Seq<char>, Seq<char>)>, key: Seq<char>, value: Seq<char>)
    requires
        sorted_keys(s),
    ensures
        sorted_keys(record_spec(s, key, value)),
{
    lemma_record_sorted(s, key, value);
}

/// The entries of an empty store after each `(key, value)` of `ops` is
/// recorded in turn.
pub open spec fn record_all(ops: Seq<(Seq<char>, Seq<char>)>) -> Seq<(Seq<char>, Seq<char>)>
    decreases ops.len(),
{
    if ops.len() == 0 {
        Seq::<(Seq<char>, Seq<char>)>::empty()
    } else {
        record_spec(record_all(ops.drop_last()), ops.last().0, ops.last().1)
    }
}

/// The value most recently recorded under `key` in `ops`, if any was.
pub open spec fn last_recorded(ops: Seq<(Seq<char>, Seq<char>)>, key: Seq<char>) -> Option<Seq<char>>
    decreases ops.len(),
{
    if ops.len() == 0 {
        None
    } else if ops.last().0 == key {
        Some(ops.last().1)
    } else {
        last_recorded(ops.drop_last(), key)
    }
}

/// After any sequence of records into an empty store, the keys are strictly
/// increasing (each listed once, in order), a key is listed exactly when it
/// was recorded, and its value is the one recorded last under it.
pub proof fn law_records_from_empty(ops: Seq<(Seq<char>, Seq<char>)>, key: Seq<char>)
    ensures
        sorted_keys(record_all(ops)),
        lookup(record_all(ops), key) == last_recorded(ops, key),
        (exists|i: int| 0 <= i < record_all(ops).len() && (#[trigger] record_all(ops)[i]).0 == key)
            <==> last_recorded(ops, key) is Some,
    decreases ops.len(),
{
    let r = record_all(ops);
    if ops.len() == 0 {
        assert(lookup(r, key) is None);
    } else {
        let pre = ops.drop_last();
        law_records_from_empty(pre, key);
        lemma_record_sorted(record_all(pre), ops.last().0, ops.last().1);
        if ops.last().0 == key {
            law_record_then_get(record_all(pre), key, ops.last().1);
        } else {
            law_record_keeps_others(record_all(pre), ops.last().0, ops.last().1, key);
        }
    }
    lemma_lookup_sorted(r, key);
    if exists|i: int| 0 <= i < r.len() && (#[trigger] r[i]).0 == key {
        let i = choose|i: int| 0 <= i < r.len() && (#[trigger] r[i]).0 == key;
        assert(lookup(r, key) == Some(r[i].1));
    }
}

} // verus!
