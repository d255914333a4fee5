//! Per-entry query results and the decisions around each HTTP exchange.

use vstd::prelude::*;

use crate::error::{is_message_of, IlsError};
use crate::nsn::InputEntry;

verus! {

/// The outcome of querying one input entry.
#[derive(Debug)]
pub enum Outcome<T> {
    /// The backend answered.
    Success(T),
    /// The query failed; the error's message.
    Failure(String),
    /// The input was not a valid NSN/NIIN; the validation message.
    Invalid(String),
}

/// One input entry together with what querying it produced.
#[derive(Debug)]
pub struct QueryResult<T> {
    pub entry: InputEntry,
    pub outcome: Outcome<T>,
}

/// The part number to query for an entry: its normalized form, if it parsed.
pub fn query_target(entry: &InputEntry) -> (r: Option<&str>)
    ensures
        match entry.parsed {
            Ok(n) => r matches Some(s) && s@ == n.normalized@,
            Err(_) => r is None,
        },
{
    match &entry.parsed {
        Ok(n) => Some(n.normalized.as_str()),
        Err(_) => None,
    }
}

/// The `SOAPAction` header value: the action URI in double quotes.
pub fn soap_action_header(action: &str) -> (r: String)
    ensures
        r@ == "\""@ + action@ + "\""@,
{
    let mut r = "\"".to_owned();
    r.append(action);
    r.append("\"");
    r
}

/// Whether an HTTP status code is a success (2xx).
pub open spec fn is_success(status: u16) -> bool {
    200 <= status <= 299
}

/// The response body of a successful exchange; any other status is an error that
/// carries the status and the body.
pub fn accept_response(status: u16, body: String) -> (r: Result<String, IlsError>)
    ensures
        is_success(status) ==> r == Ok::<String, IlsError>(body),
        !is_success(status) ==> (r matches Err(IlsError::Status { status: s, body: b }) && s
            == status && b == body),
{
    if !(200 <= status && status <= 299) {
        return Err(IlsError::Status { status, body });
    }
    Ok(body)
}

impl<T> QueryResult<T> {
    /// The result for an entry: an invalid entry is reported with its validation
    /// message; a valid one with the backend's answer or the query's error message.
    pub fn for_entry(entry: InputEntry, answer: Option<Result<T, IlsError>>) -> (r: Self)
        requires
            entry.parsed is Ok ==> answer is Some,
        ensures
            r.entry == entry,
            match entry.parsed {
                Err(e) => r.outcome matches Outcome::Invalid(m) && is_message_of(e, m@),
                Ok(_) => match answer {
                    Some(Ok(v)) => r.outcome == Outcome::<T>::Success(v),
                    Some(Err(e)) => r.outcome matches Outcome::Failure(m) && is_message_of(e, m@),
                    None => false,
                },
            },
    {
        let outcome = match &entry.parsed {
            Err(e) => Outcome::Invalid(e.message()),
            Ok(_) => match answer {
                Some(Ok(v)) => Outcome::Success(v),
                Some(Err(e)) => Outcome::Failure(e.message()),
                None => Outcome::Failure(String::new()),
            },
        };
        QueryResult { entry, outcome }
    }
}

/// `s` with `x` inserted after every element whose tag is not greater than its own.
pub open spec fn insert_by_tag<T>(s: Seq<(usize, T)>, x: (usize, T)) -> Seq<(usize, T)>
    decreases s.len(),
{
    if s.len() == 0 || s.last().0 <= x.0 {
        s.push(x)
    } else {
        insert_by_tag(s.drop_last(), x).push(s.last())
    }
}

/// The elements of `s` in stable order of their tags (what `sort_by_key` yields).
pub open spec fn sorted_by_tag<T>(s: Seq<(usize, T)>) -> Seq<(usize, T)>
    decreases s.len(),
{
    if s.len() == 0 {
        s
    } else {
        insert_by_tag(sorted_by_tag(s.drop_last()), s.last())
    }
}

proof fn lemma_insert_by_tag_at<T>(s: Seq<(usize, T)>, x: (usize, T), p: int)
    requires
        0 <= p <= s.len(),
        forall|j: int| p <= j < s.len() ==> (#[trigger] s[j]).0 > x.0,
        p == 0 || s[p - 1].0 <= x.0,
    ensures
        insert_by_tag(s, x) == s.take(p).push(x) + s.skip(p),
    decreases s.len() - p,
{
    if p == s.len() {
        assert(s.take(p) =~= s);
        assert(s.skip(p) =~= Seq::<(usize, T)>::empty());
        assert(s.take(p).push(x) + s.skip(p) =~= s.push(x));
    } else {
        let t = s.drop_last();
        assert forall|j: int| p <= j < t.len() implies (#[trigger] t[j]).0 > x.0 by {
            assert(t[j] == s[j]);
        }
        if p > 0 {
            assert(t[p - 1] == s[p - 1]);
        }
        lemma_insert_by_tag_at(t, x, p);
        assert(s.last().0 > x.0);
        assert(t.take(p) =~= s.take(p));
        assert((t.take(p).push(x) + t.skip(p)).push(s.last()) =~= s.take(p).push(x) + s.skip(p));
    }
}

/// Puts results back in the order of their tags (stable for equal tags) and drops
/// the tags; results are tagged with their input position before being queried
/// concurrently.
pub fn collect_sorted<T>(tagged: Vec<(usize, T)>) -> (r: Vec<T>)
    ensures
        r@ == collected(tagged@),
{
    let ghost input = tagged@;
    assert(input.len() == tagged.len());
    let mut rest = tagged;
    let mut sorted: Vec<(usize, T)> = Vec::new();
    let mut n: usize = 0;
    let ghost total = input.len();
    assert(input.skip(0) =~= input);
    while rest.len() > 0
        invariant
            n + rest@.len() == total,
            total == input.len(),
            total <= usize::MAX,
            rest@ == input.skip(n as int),
            sorted@ == sorted_by_tag(input.take(n as int)),
        decreases rest@.len(),
    {
        let x = rest.remove(0);
        assert(x == input[n as int]);
        assert(rest@ =~= input.skip(n + 1));
        let mut p = sorted.len();
        while p > 0 && sorted[p - 1].0 > x.0
            invariant
                p <= sorted@.len(),
                forall|j: int| p <= j < sorted@.len() ==> (#[trigger] sorted@[j]).0 > x.0,
            decreases p,
        {
            p = p - 1;
        }
        proof {
            lemma_insert_by_tag_at(sorted@, x, p as int);
            assert(input.take(n + 1).drop_last() =~= input.take(n as int));
        }
        sorted.insert(p, x);
        assert(sorted@ =~= sorted_by_tag(input.take(n + 1)));
        n = n + 1;
    }
    assert(input.take(n as int) =~= input);
    let ghost s = sorted@;
    assert(s.len() == sorted.len());
    assert(s.skip(0) =~= s);
    let mut r: Vec<T> = Vec::new();
    let mut k: usize = 0;
    while sorted.len() > 0
        invariant
            k + sorted@.len() == s.len(),
            s.len() <= usize::MAX,
            sorted@ == s.skip(k as int),
            r@ == s.take(k as int).map_values(|p: (usize, T)| p.1),
        decreases sorted@.len(),
    {
        let (_, v) = sorted.remove(0);
        assert(sorted@ =~= s.skip(k + 1));
        r.push(v);
        assert(s.take(k + 1).map_values(|p: (usize, T)| p.1) =~= s.take(k as int).map_values(
            |p: (usize, T)| p.1,
        ).push(s[k as int].1));
        k = k + 1;
    }
    assert(s.take(s.len() as int) =~= s);
    r
}

/// Tags strictly increase along the sequence.
pub open spec fn tags_increasing<T>(s: Seq<(usize, T)>) -> bool {
    forall|i: int, j: int| 0 <= i < j < s.len() ==> (#[trigger] s[i]).0 < (#[trigger] s[j]).0
}

/// No two elements share a tag.
pub open spec fn tags_distinct<T>(s: Seq<(usize, T)>) -> bool {
    forall|i: int, j: int| 0 <= i < j < s.len() ==> (#[trigger] s[i]).0 != (#[trigger] s[j]).0
}

proof fn lemma_insert_by_tag_props<T>(t: Seq<(usize, T)>, x: (usize, T))
    requires
        tags_increasing(t),
        forall|i: int| 0 <= i < t.len() ==> (#[trigger] t[i]).0 != x.0,
    ensures
        insert_by_tag(t, x).len() == t.len() + 1,
        forall|y: (usize, T)| #[trigger] insert_by_tag(t, x).contains(y) <==> (t.contains(y) || y == x),
        tags_increasing(insert_by_tag(t, x)),
    decreases t.len(),
{
    let r = insert_by_tag(t, x);
    if t.len() == 0 || t.last().0 <= x.0 {
        assert forall|y: (usize, T)| #[trigger] r.contains(y) <==> (t.contains(y) || y == x) by {
            if r.contains(y) {
                let i = choose|i: int| 0 <= i < r.len() && r[i] == y;
                if i < t.len() {
                    assert(t[i] == y);
                }
            }
            if t.contains(y) {
                let i = choose|i: int| 0 <= i < t.len() && t[i] == y;
                assert(r[i] == y);
            }
            if y == x {
                assert(r[t.len() as int] == y);
            }
        }
        assert forall|i: int, j: int| 0 <= i < j < r.len() implies (#[trigger] r[i]).0 < (
        #[trigger] r[j]).0 by {
            if j == t.len() {
                assert(t[i].0 <= t.last().0);
                assert(t[i].0 != x.0);
            }
        }
    } else {
        let u = t.drop_last();
        let l = t.last();
        assert forall|i: int, j: int| 0 <= i < j < u.len() implies (#[trigger] u[i]).0 < (
        #[trigger] u[j]).0 by {
            assert(u[i] == t[i] && u[j] == t[j]);
        }
        assert forall|i: int| 0 <= i < u.len() implies (#[trigger] u[i]).0 != x.0 by {
            assert(u[i] == t[i]);
        }
        lemma_insert_by_tag_props(u, x);
        let v = insert_by_tag(u, x);
        assert(r == v.push(l));
        assert forall|y: (usize, T)| #[trigger] r.contains(y) <==> (t.contains(y) || y == x) by {
            if r.contains(y) {
                let i = choose|i: int| 0 <= i < r.len() && r[i] == y;
                if i < v.len() {
                    assert(v[i] == y);
                    assert(v.contains(y));
                    if u.contains(y) {
                        let k = choose|k: int| 0 <= k < u.len() && u[k] == y;
                        assert(t[k] == y);
                    }
                } else {
                    assert(t[t.len() - 1] == y);
                }
            }
            if t.contains(y) {
                let i = choose|i: int| 0 <= i < t.len() && t[i] == y;
                if i < u.len() {
                    assert(u[i] == y);
                    assert(u.contains(y));
                    assert(v.contains(y));
                    let k = choose|k: int| 0 <= k < v.len() && v[k] == y;
                    assert(r[k] == y);
                } else {
                    assert(r[v.len() as int] == y);
                }
            }
            if y == x {
                assert(v.contains(x));
                let k = choose|k: int| 0 <= k < v.len() && v[k] == x;
                assert(r[k] == y);
            }
        }
        assert forall|i: int, j: int| 0 <= i < j < r.len() implies (#[trigger] r[i]).0 < (
        #[trigger] r[j]).0 by {
            if j == v.len() {
                assert(r[i] == v[i]);
                assert(v.contains(v[i]));
                if u.contains(v[i]) {
                    let k = choose|k: int| 0 <= k < u.len() && u[k] == v[i];
                    assert(t[k] == v[i]);
                    assert(t[k].0 < t[t.len() - 1].0);
                }
            } else {
                assert(r[i] == v[i] && r[j] == v[j]);
            }
        }
    }
}

proof fn lemma_sorted_by_tag_props<T>(s: Seq<(usize, T)>)
    requires
        tags_distinct(s),
    ensures
        sorted_by_tag(s).len() == s.len(),
        forall|y: (usize, T)| #[trigger] sorted_by_tag(s).contains(y) <==> s.contains(y),
        tags_increasing(sorted_by_tag(s)),
    decreases s.len(),
{
    if s.len() > 0 {
        let u = s.drop_last();
        let x = s.last();
        assert forall|i: int, j: int| 0 <= i < j < u.len() implies (#[trigger] u[i]).0 != (
        #[trigger] u[j]).0 by {
            assert(u[i] == s[i] && u[j] == s[j]);
        }
        lemma_sorted_by_tag_props(u);
        let t = sorted_by_tag(u);
        assert forall|i: int| 0 <= i < t.len() implies (#[trigger] t[i]).0 != x.0 by {
            assert(t.contains(t[i]));
            assert(u.contains(t[i]));
            let k = choose|k: int| 0 <= k < u.len() && u[k] == t[i];
            assert(s[k] == t[i]);
        }
        lemma_insert_by_tag_props(t, x);
        assert forall|y: (usize, T)| #[trigger] sorted_by_tag(s).contains(y) <==> s.contains(y) by {
            if u.contains(y) {
                let k = choose|k: int| 0 <= k < u.len() && u[k] == y;
                assert(s[k] == y);
            }
            if s.contains(y) {
                let k = choose|k: int| 0 <= k < s.len() && s[k] == y;
                if k < u.len() {
                    assert(u[k] == y);
                }
            }
        }
    }
}

proof fn lemma_increasing_tags_are_positions<T>(t: Seq<(usize, T)>)
    requires
        tags_increasing(t),
        forall|i: int| 0 <= i < t.len() ==> (#[trigger] t[i]).0 < t.len(),
    ensures
        forall|i: int| 0 <= i < t.len() ==> (#[trigger] t[i]).0 == i,
{
    assert forall|i: int| 0 <= i < t.len() implies (#[trigger] t[i]).0 >= i by {
        lemma_tag_lower_bound(t, i);
    }
    assert forall|i: int| 0 <= i < t.len() implies (#[trigger] t[i]).0 <= i by {
        lemma_tag_upper_bound(t, i);
    }
}

proof fn lemma_tag_lower_bound<T>(t: Seq<(usize, T)>, i: int)
    requires
        tags_increasing(t),
        0 <= i < t.len(),
    ensures
        t[i].0 >= i,
    decreases i,
{
    if i > 0 {
        lemma_tag_lower_bound(t, i - 1);
        assert(t[i - 1].0 < t[i].0);
    }
}

proof fn lemma_tag_upper_bound<T>(t: Seq<(usize, T)>, i: int)
    requires
        tags_increasing(t),
        forall|k: int| 0 <= k < t.len() ==> (#[trigger] t[k]).0 < t.len(),
        0 <= i < t.len(),
    ensures
        t[i].0 <= i,
    decreases t.len() - i,
{
    if i < t.len() - 1 {
        lemma_tag_upper_bound(t, i + 1);
        assert(t[i].0 < t[i + 1].0);
    } else {
        assert(t[i].0 < t.len());
    }
}

/// `s` holds `v`, and `v` is tagged `i`.
pub open spec fn has_tagged_element<T>(s: Seq<(usize, T)>, i: int, v: (usize, T)) -> bool {
    exists|j: int| 0 <= j < s.len() && (#[trigger] s[j]) == v && v.0 == i
}

/// When results are tagged with distinct positions `0..n`, collecting puts the
/// result tagged `i` at position `i`: the output is in input order.
pub proof fn lemma_collect_restores_order<T>(tagged: Seq<(usize, T)>)
    requires
        tags_distinct(tagged),
        forall|j: int| 0 <= j < tagged.len() ==> (#[trigger] tagged[j]).0 < tagged.len(),
    ensures
        sorted_by_tag(tagged).len() == tagged.len(),
        forall|i: int|
            0 <= i < tagged.len() ==> #[trigger] has_tagged_element(tagged, i, sorted_by_tag(tagged)[i]),
{
    lemma_sorted_by_tag_props(tagged);
    let t = sorted_by_tag(tagged);
    assert forall|i: int| 0 <= i < t.len() implies (#[trigger] t[i]).0 < t.len() by {
        assert(t.contains(t[i]));
        let j = choose|j: int| 0 <= j < tagged.len() && tagged[j] == t[i];
    }
    lemma_increasing_tags_are_positions(t);
    assert forall|i: int| 0 <= i < tagged.len() implies #[trigger] has_tagged_element(
        tagged,
        i,
        sorted_by_tag(tagged)[i],
    ) by {
        assert(t.contains(t[i]));
        assert(tagged.contains(t[i]));
        let j = choose|j: int| 0 <= j < tagged.len() && tagged[j] == t[i];
        assert(t[i].0 == i);
        assert(tagged[j].0 == i);
        assert(sorted_by_tag(tagged)[i] == tagged[j]);
    }
}

/// What collecting yields for `tagged`: the results in stable tag order.
pub open spec fn collected<T>(tagged: Seq<(usize, T)>) -> Seq<T> {
    sorted_by_tag(tagged).map_values(|p: (usize, T)| p.1)
}

/// When the results are tagged with distinct positions `0..n` (in any order, as
/// concurrent queries finish), `collect_sorted` returns, at each position `i`,
/// the result tagged `i`.
pub proof fn lemma_collected_in_tag_order<T>(tagged: Seq<(usize, T)>)
    requires
        tags_distinct(tagged),
        forall|j: int| 0 <= j < tagged.len() ==> (#[trigger] tagged[j]).0 < tagged.len(),
    ensures
        collected(tagged).len() == tagged.len(),
        forall|j: int|
            0 <= j < tagged.len() ==> collected(tagged)[(#[trigger] tagged[j]).0 as int] == tagged[j].1,
{
    lemma_collect_restores_order(tagged);
    let t = sorted_by_tag(tagged);
    assert forall|j: int| 0 <= j < tagged.len() implies collected(tagged)[(#[trigger] tagged[j]).0 as int]
        == tagged[j].1 by {
        let i = tagged[j].0 as int;
        assert(has_tagged_element(tagged, i, t[i]));
        let j2 = choose|j2: int| 0 <= j2 < tagged.len() && tagged[j2] == t[i] && t[i].0 == i;
        if j2 != j {
            if j2 < j {
                assert(tagged[j2].0 != tagged[j].0);
            } else {
                assert(tagged[j].0 != tagged[j2].0);
            }
        }
        assert(collected(tagged)[i] == t[i].1);
    }
}

/// A run's results come back in input order: when the result for entry `i` is
/// tagged `i` and every entry has one result, collecting gives, at position `i`,
/// the result for `entries[i]`.
pub proof fn lemma_results_in_input_order<T>(entries: Seq<InputEntry>, tagged: Seq<(usize, QueryResult<T>)>)
    requires
        tagged.len() == entries.len(),
        tags_distinct(tagged),
        forall|j: int| 0 <= j < tagged.len() ==> (#[trigger] tagged[j]).0 < tagged.len(),
        forall|j: int| 0 <= j < tagged.len() ==> (#[trigger] tagged[j]).1.entry == entries[tagged[j].0 as int],
    ensures
        collected(tagged).len() == entries.len(),
        forall|i: int| 0 <= i < entries.len() ==> (#[trigger] collected(tagged)[i]).entry == entries[i],
{
    lemma_collected_in_tag_order(tagged);
    lemma_collect_restores_order(tagged);
    assert forall|i: int| 0 <= i < entries.len() implies (#[trigger] collected(tagged)[i]).entry == entries[i] by {
        let t = sorted_by_tag(tagged);
        assert(has_tagged_element(tagged, i, t[i]));
        let j = choose|j: int| 0 <= j < tagged.len() && tagged[j] == t[i] && t[i].0 == i;
        assert(collected(tagged)[tagged[j].0 as int] == tagged[j].1);
    }
}

} // verus!
