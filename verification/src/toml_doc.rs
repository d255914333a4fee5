//! A small model of the TOML document edited by `config set`: the `[credentials]`
//! and `[api]` sections, each a table of key/value pairs kept in key order.

use vstd::prelude::*;

use crate::text::chars_of;

verus! {

/// Lexicographic order on keys by code point, which is the order of their UTF-8
/// bytes and therefore the order of `String`'s `Ord`.
pub open spec fn key_lt(a: Seq<char>, b: Seq<char>) -> bool
    decreases a.len(),
{
    if a.len() == 0 {
        b.len() > 0
    } else if b.len() == 0 {
        false
    } else if a[0] != b[0] {
        (a[0] as u32) < (b[0] as u32)
    } else {
        key_lt(a.drop_first(), b.drop_first())
    }
}

pub proof fn lemma_key_lt_irreflexive(a: Seq<char>)
    ensures
        !key_lt(a, a),
    decreases a.len(),
{
    if a.len() > 0 {
        lemma_key_lt_irreflexive(a.drop_first());
    }
}

pub proof fn lemma_key_lt_total(a: Seq<char>, b: Seq<char>)
    ensures
        a == b || key_lt(a, b) || key_lt(b, a),
    decreases a.len(),
{
    if a.len() > 0 && b.len() > 0 {
        if a[0] == b[0] {
            lemma_key_lt_total(a.drop_first(), b.drop_first());
            if a.drop_first() == b.drop_first() {
                assert(a =~= seq![a[0]] + a.drop_first());
                assert(b =~= seq![b[0]] + b.drop_first());
            }
        } else {
            vstd::utf8::char_u32_cast(a[0], a[0] as u32);
            vstd::utf8::char_u32_cast(b[0], b[0] as u32);
        }
    } else if a.len() == 0 && b.len() == 0 {
        assert(a =~= b);
    }
}

pub proof fn lemma_key_lt_transitive(a: Seq<char>, b: Seq<char>, c: Seq<char>)
    requires
        key_lt(a, b),
        key_lt(b, c),
    ensures
        key_lt(a, c),
    decreases a.len(),
{
    if a.len() > 0 && b.len() > 0 && c.len() > 0 {
        if a[0] == b[0] && b[0] == c[0] {
            lemma_key_lt_transitive(a.drop_first(), b.drop_first(), c.drop_first());
        }
    }
}

pub proof fn lemma_key_lt_asymmetric(a: Seq<char>, b: Seq<char>)
    requires
        key_lt(a, b),
    ensures
        !key_lt(b, a),
{
    if key_lt(b, a) {
        lemma_key_lt_transitive(a, b, a);
        lemma_key_lt_irreflexive(a);
    }
}

/// Whether `a` sorts strictly before `b`.
pub fn key_less(a: &str, b: &str) -> (r: bool)
    ensures
        r == key_lt(a@, b@),
{
    let x = chars_of(a);
    let y = chars_of(b);
    let mut i: usize = 0;
    assert(x@.skip(0) =~= x@);
    assert(y@.skip(0) =~= y@);
    while i < x.len() && i < y.len() && x[i] == y[i]
        invariant
            x@ == a@,
            y@ == b@,
            i <= x.len(),
            i <= y.len(),
            key_lt(a@, b@) == key_lt(x@.skip(i as int), y@.skip(i as int)),
        decreases x.len() - i,
    {
        assert(x@.skip(i as int).drop_first() =~= x@.skip(i + 1));
        assert(y@.skip(i as int).drop_first() =~= y@.skip(i + 1));
        i = i + 1;
    }
    if i == x.len() {
        i < y.len()
    } else if i == y.len() {
        false
    } else {
        (x[i] as u32) < (y[i] as u32)
    }
}

/// A TOML value as the config editor sees it.
#[derive(Debug)]
pub enum TomlValue {
    Text(String),
    Integer(i64),
    Boolean(bool),
    /// Any other value (a float, a date-time, an array or an inline table), held as
    /// the text it is written back as.
    Other(String),
}

/// Keys in strictly increasing order (and therefore distinct).
pub open spec fn keys_sorted(e: Seq<(String, TomlValue)>) -> bool {
    forall|i: int, j: int| 0 <= i < j < e.len() ==> key_lt(#[trigger] e[i].0@, #[trigger] e[j].0@)
}

/// The value stored under `k`, if any.
pub open spec fn lookup(e: Seq<(String, TomlValue)>, k: Seq<char>) -> Option<TomlValue>
    decreases e.len(),
{
    if e.len() == 0 {
        None
    } else if e[0].0@ == k {
        Some(e[0].1)
    } else {
        lookup(e.drop_first(), k)
    }
}

pub proof fn lemma_lookup_at(e: Seq<(String, TomlValue)>, i: int, k: Seq<char>)
    requires
        0 <= i < e.len(),
        e[i].0@ == k,
        forall|j: int| 0 <= j < i ==> e[j].0@ != k,
    ensures
        lookup(e, k) == Some(e[i].1),
    decreases i,
{
    if i > 0 {
        assert(e[0].0@ != k);
        lemma_lookup_at(e.drop_first(), i - 1, k);
    }
}

pub proof fn lemma_lookup_absent(e: Seq<(String, TomlValue)>, k: Seq<char>)
    requires
        forall|j: int| 0 <= j < e.len() ==> e[j].0@ != k,
    ensures
        lookup(e, k) is None,
    decreases e.len(),
{
    if e.len() > 0 {
        assert(e[0].0@ != k);
        lemma_lookup_absent(e.drop_first(), k);
    }
}

pub proof fn lemma_lookup_found(e: Seq<(String, TomlValue)>, k: Seq<char>)
    requires
        lookup(e, k) is Some,
    ensures
        exists|i: int| 0 <= i < e.len() && e[i].0@ == k && lookup(e, k) == Some(e[i].1),
    decreases e.len(),
{
    if e[0].0@ != k {
        lemma_lookup_found(e.drop_first(), k);
        let i = choose|i: int|
            0 <= i < e.drop_first().len() && e.drop_first()[i].0@ == k && lookup(e.drop_first(), k)
                == Some(e.drop_first()[i].1);
        assert(e[i + 1] == e.drop_first()[i]);
    }
}

/// In a table with sorted keys, the entry whose key is `k` is the one found.
pub proof fn lemma_lookup_sorted(e: Seq<(String, TomlValue)>, i: int)
    requires
        keys_sorted(e),
        0 <= i < e.len(),
    ensures
        lookup(e, e[i].0@) == Some(e[i].1),
{
    assert forall|j: int| 0 <= j < i implies e[j].0@ != e[i].0@ by {
        assert(key_lt(e[j].0@, e[i].0@));
        lemma_key_lt_irreflexive(e[i].0@);
    }
    lemma_lookup_at(e, i, e[i].0@);
}

/// A table of key/value pairs, kept sorted by key.
#[derive(Debug)]
pub struct TomlTable {
    entries: Vec<(String, TomlValue)>,
}

impl TomlTable {
    /// The entries, in key order.
    pub closed spec fn entries(self) -> Seq<(String, TomlValue)> {
        self.entries@
    }

    #[verifier::type_invariant]
    closed spec fn sorted(self) -> bool {
        keys_sorted(self.entries@)
    }

    pub fn new() -> (t: Self)
        ensures
            t.entries().len() == 0,
    {
        TomlTable { entries: Vec::new() }
    }

    /// The value stored under `key`, if any.
    pub fn get(&self, key: &str) -> (r: Option<&TomlValue>)
        ensures
            match lookup(self.entries(), key@) {
                Some(v) => r matches Some(x) && *x == v,
                None => r is None,
            },
    {
        let mut i: usize = 0;
        while i < self.entries.len()
            invariant
                i <= self.entries@.len(),
                forall|j: int| 0 <= j < i ==> self.entries@[j].0@ != key@,
            decreases self.entries@.len() - i,
        {
            if crate::text::chars_eq_str(&chars_of(self.entries[i].0.as_str()), key) {
                proof {
                    lemma_lookup_at(self.entries@, i as int, key@);
                }
                return Some(&self.entries[i].1);
            }
            i = i + 1;
        }
        proof {
            lemma_lookup_absent(self.entries@, key@);
        }
        None
    }

    /// Stores `value` under `key`, replacing any value stored there.
    pub fn insert(&mut self, key: String, value: TomlValue)
        ensures
            keys_sorted(final(self).entries()),
            lookup(final(self).entries(), key@) == Some(value),
            forall|k: Seq<char>|
                k != key@ ==> #[trigger] lookup(final(self).entries(), k) == lookup(
                    old(self).entries(),
                    k,
                ),
    {
        proof {
            use_type_invariant(&*self);
        }
        let ghost old_e = self.entries@;
        let mut i: usize = 0;
        while i < self.entries.len() && key_less(self.entries[i].0.as_str(), key.as_str())
            invariant
                i <= self.entries@.len(),
                self.entries@ == old_e,
                keys_sorted(old_e),
                forall|j: int| 0 <= j < i ==> key_lt(#[trigger] old_e[j].0@, key@),
            decreases self.entries@.len() - i,
        {
            i = i + 1;
        }
        let found = i < self.entries.len() && crate::text::chars_eq_str(
            &chars_of(self.entries[i].0.as_str()),
            key.as_str(),
        );
        let mut entries: Vec<(String, TomlValue)> = Vec::new();
        core::mem::swap(&mut entries, &mut self.entries);
        let ghost k = key@;
        if found {
            entries.set(i, (key, value));
            proof {
                let new_e = entries@;
                assert forall|a: int, b: int| 0 <= a < b < new_e.len() implies key_lt(
                    #[trigger] new_e[a].0@,
                    #[trigger] new_e[b].0@,
                ) by {
                    assert(new_e[a].0@ == old_e[a].0@);
                    assert(new_e[b].0@ == old_e[b].0@);
                }
                lemma_lookup_sorted(new_e, i as int);
                assert forall|k2: Seq<char>| k2 != k implies #[trigger] lookup(new_e, k2) == lookup(
                    old_e,
                    k2,
                ) by {
                    if lookup(old_e, k2) is Some {
                        lemma_lookup_found(old_e, k2);
                        let j = choose|j: int|
                            0 <= j < old_e.len() && old_e[j].0@ == k2 && lookup(old_e, k2) == Some(
                                old_e[j].1,
                            );
                        assert(j != i);
                        lemma_lookup_sorted(new_e, j);
                    } else {
                        assert forall|j: int| 0 <= j < new_e.len() implies new_e[j].0@ != k2 by {
                            if j != i {
                                if old_e[j].0@ == k2 {
                                    lemma_lookup_sorted(old_e, j);
                                }
                            }
                        }
                        lemma_lookup_absent(new_e, k2);
                    }
                }
            }
        } else {
            entries.insert(i, (key, value));
            proof {
                let new_e = entries@;
                if i < old_e.len() {
                    lemma_key_lt_total(old_e[i as int].0@, k);
                }
                assert forall|a: int, b: int| 0 <= a < b < new_e.len() implies key_lt(
                    #[trigger] new_e[a].0@,
                    #[trigger] new_e[b].0@,
                ) by {
                    if b < i {
                    } else if b == i {
                    } else if a < i {
                        assert(new_e[b] == old_e[b - 1]);
                        assert(key_lt(old_e[a].0@, old_e[b - 1].0@));
                    } else if a == i {
                        assert(new_e[b] == old_e[b - 1]);
                        if b - 1 > i {
                            lemma_key_lt_transitive(k, old_e[i as int].0@, old_e[b - 1].0@);
                        }
                    } else {
                        assert(new_e[a] == old_e[a - 1]);
                        assert(new_e[b] == old_e[b - 1]);
                    }
                }
                lemma_lookup_sorted(new_e, i as int);
                assert forall|k2: Seq<char>| k2 != k implies #[trigger] lookup(new_e, k2) == lookup(
                    old_e,
                    k2,
                ) by {
                    if lookup(old_e, k2) is Some {
                        lemma_lookup_found(old_e, k2);
                        let j = choose|j: int|
                            0 <= j < old_e.len() && old_e[j].0@ == k2 && lookup(old_e, k2) == Some(
                                old_e[j].1,
                            );
                        lemma_lookup_sorted(old_e, j);
                        if j < i {
                            lemma_lookup_sorted(new_e, j);
                        } else {
                            assert(new_e[j + 1] == old_e[j]);
                            lemma_lookup_sorted(new_e, j + 1);
                        }
                    } else {
                        assert forall|j: int| 0 <= j < new_e.len() implies new_e[j].0@ != k2 by {
                            if j < i {
                                if old_e[j].0@ == k2 {
                                    lemma_lookup_sorted(old_e, j);
                                }
                            } else if j > i {
                                assert(new_e[j] == old_e[j - 1]);
                                if old_e[j - 1].0@ == k2 {
                                    lemma_lookup_sorted(old_e, j - 1);
                                }
                            }
                        }
                        lemma_lookup_absent(new_e, k2);
                    }
                }
            }
        }
        self.entries = entries;
    }
}

impl TomlTable {
    pub fn len(&self) -> (n: usize)
        ensures
            n == self.entries().len(),
    {
        self.entries.len()
    }

    /// The `i`-th entry in key order.
    pub fn entry(&self, i: usize) -> (r: (&String, &TomlValue))
        requires
            i < self.entries().len(),
        ensures
            *r.0 == self.entries()[i as int].0,
            *r.1 == self.entries()[i as int].1,
    {
        (&self.entries[i].0, &self.entries[i].1)
    }
}

} // verus!
