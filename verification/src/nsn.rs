//! NSN / NIIN input parsing and validation.

use vstd::prelude::*;

use crate::error::IlsError;
use crate::text::{chars_of, is_ws, push_char, string_of, trim, trim_bounds, trimmed, lemma_trim_idempotent};

verus! {

/// A 13-digit National Stock Number or a 9-digit National Item Identification Number.
#[derive(Debug, Clone, Copy, PartialEq, Eq, Structural)]
pub enum NsnKind {
    Nsn,
    Niin,
}

/// A validated part identifier: the trimmed input and its digits-only form.
#[derive(Debug)]
pub struct Nsn {
    pub input: String,
    pub normalized: String,
    pub kind: NsnKind,
}

/// Characters removed before the digit check: hyphen, space and tab.
pub open spec fn is_nsn_separator(c: char) -> bool {
    c == '-' || c == ' ' || c == '\t'
}

pub open spec fn is_ascii_digit(c: char) -> bool {
    '0' <= c && c <= '9'
}

pub open spec fn all_ascii_digits(s: Seq<char>) -> bool {
    forall|i: int| 0 <= i < s.len() ==> is_ascii_digit(#[trigger] s[i])
}

/// The input with separators removed.
pub open spec fn nsn_digits(input: Seq<char>) -> Seq<char>
    decreases input.len(),
{
    if input.len() == 0 {
        input
    } else if is_nsn_separator(input.last()) {
        nsn_digits(input.drop_last())
    } else {
        nsn_digits(input.drop_last()).push(input.last())
    }
}

/// The kind an all-digit string of this length denotes, if any.
pub open spec fn kind_for_len(n: nat) -> Option<NsnKind> {
    if n == 13 {
        Some(NsnKind::Nsn)
    } else if n == 9 {
        Some(NsnKind::Niin)
    } else {
        None
    }
}

/// What parsing `raw` yields: `Ok((input, digits, kind))`, or `Err((input, reason))`.
pub open spec fn nsn_outcome(raw: Seq<char>) -> Result<
    (Seq<char>, Seq<char>, NsnKind),
    (Seq<char>, Seq<char>),
> {
    let input = trim(raw);
    let digits = nsn_digits(input);
    if input.len() == 0 {
        Err((input, "empty input"@))
    } else if !all_ascii_digits(digits) {
        Err((input, "non-digit characters (after stripping hyphens and whitespace)"@))
    } else {
        match kind_for_len(digits.len()) {
            Some(kind) => Ok((input, digits, kind)),
            None => Err((input, "must be 13 digits (NSN) or 9 digits (NIIN)"@)),
        }
    }
}

/// `r` is exactly what parsing `raw` yields.
pub open spec fn is_parse_of(r: Result<Nsn, IlsError>, raw: Seq<char>) -> bool {
    match nsn_outcome(raw) {
        Ok((input, digits, kind)) => r matches Ok(n) && n.input@ == input && n.normalized@
            == digits && n.kind == kind,
        Err((input, reason)) => r matches Err(IlsError::InvalidNsn { input: i, reason: why })
            && i@ == input && why@ == reason,
    }
}

fn is_separator(c: char) -> (r: bool)
    ensures
        r == is_nsn_separator(c),
{
    c == '-' || c == ' ' || c == '\t'
}

impl Nsn {
    /// Validates and normalises one NSN (13 digits) or NIIN (9 digits). Hyphens,
    /// spaces and tabs are ignored; surrounding whitespace is trimmed.
    pub fn parse(raw: &str) -> (r: Result<Self, IlsError>)
        ensures
            is_parse_of(r, raw@),
    {
        let input = trimmed(raw);
        let chars = chars_of(input.as_str());
        if chars.len() == 0 {
            return Err(IlsError::InvalidNsn { input, reason: "empty input" });
        }
        let mut digits: Vec<char> = Vec::new();
        let mut all_digits = true;
        let mut i: usize = 0;
        while i < chars.len()
            invariant
                i <= chars.len(),
                digits@ == nsn_digits(chars@.take(i as int)),
                all_digits == all_ascii_digits(digits@),
            decreases chars.len() - i,
        {
            let c = chars[i];
            assert(chars@.take(i + 1).drop_last() =~= chars@.take(i as int));
            if !is_separator(c) {
                let ghost before = digits@;
                if !('0' <= c && c <= '9') {
                    all_digits = false;
                }
                digits.push(c);
                proof {
                    if all_ascii_digits(digits@) {
                        assert forall|k: int| 0 <= k < before.len() implies is_ascii_digit(
                            #[trigger] before[k],
                        ) by {
                            assert(digits@[k] == before[k]);
                        }
                        assert(is_ascii_digit(digits@[before.len() as int]));
                    }
                    if all_ascii_digits(before) && is_ascii_digit(c) {
                        assert forall|k: int| 0 <= k < digits@.len() implies is_ascii_digit(
                            #[trigger] digits@[k],
                        ) by {
                            if k < before.len() {
                                assert(digits@[k] == before[k]);
                            }
                        }
                    }
                }
            }
            i = i + 1;
        }
        assert(chars@.take(chars.len() as int) =~= chars@);
        if !all_digits {
            return Err(
                IlsError::InvalidNsn {
                    input,
                    reason: "non-digit characters (after stripping hyphens and whitespace)",
                },
            );
        }
        let kind = if digits.len() == 13 {
            NsnKind::Nsn
        } else if digits.len() == 9 {
            NsnKind::Niin
        } else {
            return Err(
                IlsError::InvalidNsn { input, reason: "must be 13 digits (NSN) or 9 digits (NIIN)" },
            );
        };
        let normalized = string_of(&digits, 0, digits.len());
        assert(digits@.subrange(0, digits.len() as int) =~= digits@);
        Ok(Nsn { input, normalized, kind })
    }
}

/// One non-blank, non-comment line of an input file.
#[derive(Debug)]
pub struct InputEntry {
    pub line: usize,
    pub raw: String,
    pub parsed: Result<Nsn, IlsError>,
}

/// A line with one trailing carriage return removed, if it has one.
pub open spec fn strip_cr(s: Seq<char>) -> Seq<char> {
    if s.len() > 0 && s.last() == '\r' {
        s.drop_last()
    } else {
        s
    }
}

/// Lines terminated by `\n` so far (each without its `\n` and an `\r` before it),
/// and the text after the last `\n`.
pub open spec fn line_split(s: Seq<char>) -> (Seq<Seq<char>>, Seq<char>)
    decreases s.len(),
{
    if s.len() == 0 {
        (seq![], seq![])
    } else {
        let (done, cur) = line_split(s.drop_last());
        if s.last() == '\n' {
            (done.push(strip_cr(cur)), seq![])
        } else {
            (done, cur.push(s.last()))
        }
    }
}

/// `str::lines`: the text split at `\n` or `\r\n`; a final line ending is optional.
pub open spec fn lines(s: Seq<char>) -> Seq<Seq<char>> {
    let (done, cur) = line_split(s);
    if cur.len() == 0 {
        done
    } else {
        done.push(cur)
    }
}

/// A line that holds an entry: not blank and not a `#` comment once trimmed.
pub open spec fn is_listed(line: Seq<char>) -> bool {
    trim(line).len() > 0 && trim(line)[0] != '#'
}

/// The listed lines, each with its 1-based line number and its trimmed text.
pub open spec fn listed_lines(ls: Seq<Seq<char>>) -> Seq<(nat, Seq<char>)>
    decreases ls.len(),
{
    if ls.len() == 0 {
        seq![]
    } else {
        let prev = listed_lines(ls.drop_last());
        if is_listed(ls.last()) {
            prev.push((ls.len(), trim(ls.last())))
        } else {
            prev
        }
    }
}

/// `entries` are exactly the listed lines of `text`, in order, each parsed.
pub open spec fn is_entry_list_of(entries: Seq<InputEntry>, text: Seq<char>) -> bool {
    is_entry_list_of_lines(entries, lines(text))
}

/// Appends the entry for line number `line_no` with text `line[0..]`, if it is listed.
fn push_line(entries: &mut Vec<InputEntry>, line: &Vec<char>, end: usize, line_no: usize)
    requires
        end <= line.len(),
    ensures
        is_listed(line@.take(end as int)) ==> final(entries)@.len() == old(entries)@.len() + 1
            && final(entries)@.take(old(entries)@.len() as int) == old(entries)@ && ({
            let e = final(entries)@.last();
            &&& e.line == line_no
            &&& e.raw@ == trim(line@.take(end as int))
            &&& is_parse_of(e.parsed, e.raw@)
        }),
        !is_listed(line@.take(end as int)) ==> final(entries)@ == old(entries)@,
{
    let ghost l = line@.take(end as int);
    let (a, b) = trim_bounds_prefix(line, end);
    if a < b && line[a] != '#' {
        let raw = string_of(line, a, b);
        proof {
            lemma_trim_idempotent(l);
        }
        let parsed = Nsn::parse(raw.as_str());
        entries.push(InputEntry { line: line_no, raw, parsed });
        assert(final(entries)@.take(old(entries)@.len() as int) =~= old(entries)@);
    }
}

/// Trim bounds of the first `end` characters of `v`.
fn trim_bounds_prefix(v: &Vec<char>, end: usize) -> (r: (usize, usize))
    requires
        end <= v.len(),
    ensures
        r.0 <= r.1 <= end,
        v@.subrange(r.0 as int, r.1 as int) == trim(v@.take(end as int)),
        r.0 < r.1 ==> v@[r.0 as int] == trim(v@.take(end as int))[0],
{
    let mut w: Vec<char> = Vec::new();
    let mut k: usize = 0;
    while k < end
        invariant
            k <= end <= v.len(),
            w@ == v@.take(k as int),
        decreases end - k,
    {
        w.push(v[k]);
        assert(v@.take(k + 1) =~= v@.take(k as int).push(v@[k as int]));
        k = k + 1;
    }
    let (a, b) = trim_bounds(&w);
    assert(w@.subrange(a as int, b as int) =~= v@.subrange(a as int, b as int));
    (a, b)
}

/// Reads a flat list of NSNs/NIINs, one per line. Blank lines and lines starting
/// with `#` are skipped; every other line yields an entry, valid or not.
pub fn parse_nsn_list(text: &str) -> (entries: Vec<InputEntry>)
    ensures
        is_entry_list_of(entries@, text@),
{
    let chars = chars_of(text);
    let mut entries: Vec<InputEntry> = Vec::new();
    let mut cur: Vec<char> = Vec::new();
    let mut line_no: usize = 0;
    let mut i: usize = 0;
    while i < chars.len()
        invariant
            i <= chars.len(),
            chars@ == text@,
            line_split(chars@.take(i as int)).1 == cur@,
            line_split(chars@.take(i as int)).0.len() == line_no,
            line_no + cur.len() <= i,
            is_entry_list_of_lines(entries@, line_split(chars@.take(i as int)).0),
        decreases chars.len() - i,
    {
        let c = chars[i];
        let ghost prefix = chars@.take(i as int);
        assert(chars@.take(i + 1).drop_last() =~= prefix);
        if c == '\n' {
            let ghost done = line_split(prefix).0;
            let end = if cur.len() > 0 && cur[cur.len() - 1] == '\r' {
                cur.len() - 1
            } else {
                cur.len()
            };
            assert(cur@.take(end as int) =~= strip_cr(cur@));
            let ghost old_entries = entries@;
            push_line(&mut entries, &cur, end, line_no + 1);
            proof {
                lemma_entries_step(old_entries, entries@, done, strip_cr(cur@));
            }
            cur = Vec::new();
            line_no = line_no + 1;
        } else {
            cur.push(c);
        }
        i = i + 1;
    }
    assert(chars@.take(chars.len() as int) =~= chars@);
    let ghost done = line_split(chars@).0;
    if cur.len() > 0 {
        assert(cur@.take(cur.len() as int) =~= cur@);
        let ghost old_entries = entries@;
        push_line(&mut entries, &cur, cur.len(), line_no + 1);
        proof {
            lemma_entries_step(old_entries, entries@, done, cur@);
        }
        assert(lines(text@) == done.push(cur@));
    } else {
        assert(lines(text@) == done);
    }
    entries
}

/// `entries` are exactly the listed lines among `ls`.
pub open spec fn is_entry_list_of_lines(entries: Seq<InputEntry>, ls: Seq<Seq<char>>) -> bool {
    let spec_entries = listed_lines(ls);
    &&& entries.len() == spec_entries.len()
    &&& forall|k: int|
        0 <= k < entries.len() ==> {
            &&& #[trigger] entries[k].line == spec_entries[k].0
            &&& entries[k].raw@ == spec_entries[k].1
            &&& is_parse_of(entries[k].parsed, entries[k].raw@)
        }
}

proof fn lemma_entries_step(
    old_entries: Seq<InputEntry>,
    new_entries: Seq<InputEntry>,
    done: Seq<Seq<char>>,
    line: Seq<char>,
)
    requires
        is_entry_list_of_lines(old_entries, done),
        is_listed(line) ==> new_entries.len() == old_entries.len() + 1 && new_entries.take(
            old_entries.len() as int,
        ) == old_entries && ({
            let e = new_entries.last();
            &&& e.line == done.len() + 1
            &&& e.raw@ == trim(line)
            &&& is_parse_of(e.parsed, e.raw@)
        }),
        !is_listed(line) ==> new_entries == old_entries,
    ensures
        is_entry_list_of_lines(new_entries, done.push(line)),
{
    let ls = done.push(line);
    assert(ls.drop_last() =~= done);
    if is_listed(line) {
        assert forall|k: int| 0 <= k < old_entries.len() implies new_entries[k] == old_entries[k] by {
            assert(new_entries.take(old_entries.len() as int)[k] == new_entries[k]);
        }
    }
}

proof fn lemma_digits_keep_non_separators(s: Seq<char>)
    requires
        forall|i: int| 0 <= i < s.len() ==> !is_nsn_separator(#[trigger] s[i]),
    ensures
        nsn_digits(s) == s,
    decreases s.len(),
{
    if s.len() > 0 {
        let t = s.drop_last();
        assert forall|i: int| 0 <= i < t.len() implies !is_nsn_separator(#[trigger] t[i]) by {
            assert(t[i] == s[i]);
        }
        lemma_digits_keep_non_separators(t);
        assert(t.push(s.last()) =~= s);
    }
}

proof fn lemma_trim_all_digits(s: Seq<char>)
    requires
        all_ascii_digits(s),
    ensures
        trim(s) == s,
{
    if s.len() > 0 {
        assert(is_ascii_digit(s[0]));
        assert(!is_ws(s[0]));
        assert(is_ascii_digit(s.last()));
        assert(!is_ws(s.last()));
    }
}

/// The normalized form is canonical: it is 13 digits for an NSN and 9 for a NIIN,
/// and parsing it again yields itself with the same kind.
pub proof fn lemma_normalized_is_canonical(raw: Seq<char>)
    requires
        nsn_outcome(raw) is Ok,
    ensures
        ({
            let (input, digits, kind) = nsn_outcome(raw)->Ok_0;
            &&& all_ascii_digits(digits)
            &&& (kind == NsnKind::Nsn <==> digits.len() == 13)
            &&& (kind == NsnKind::Niin <==> digits.len() == 9)
            &&& nsn_outcome(digits) == Ok::<(Seq<char>, Seq<char>, NsnKind), (Seq<char>, Seq<char>)>(
                (digits, digits, kind),
            )
        }),
{
    let (input, digits, kind) = nsn_outcome(raw)->Ok_0;
    lemma_trim_all_digits(digits);
    assert forall|i: int| 0 <= i < digits.len() implies !is_nsn_separator(#[trigger] digits[i]) by {
        assert(is_ascii_digit(digits[i]));
    }
    lemma_digits_keep_non_separators(digits);
}

/// Every listed line is numbered within the file, in increasing order, and its
/// text is non-blank, trimmed, and not a comment.
pub proof fn lemma_listed_lines_shape(ls: Seq<Seq<char>>)
    ensures
        forall|k: int|
            0 <= k < listed_lines(ls).len() ==> {
                let (n, t) = #[trigger] listed_lines(ls)[k];
                &&& 1 <= n <= ls.len()
                &&& t.len() > 0
                &&& t[0] != '#'
                &&& trim(t) == t
                &&& t == trim(ls[n - 1])
            },
        forall|k: int, l: int|
            0 <= k < l < listed_lines(ls).len() ==> (#[trigger] listed_lines(ls)[k]).0
                < (#[trigger] listed_lines(ls)[l]).0,
    decreases ls.len(),
{
    if ls.len() > 0 {
        let prev = ls.drop_last();
        lemma_listed_lines_shape(prev);
        lemma_trim_idempotent(ls.last());
        let out = listed_lines(ls);
        assert forall|k: int| 0 <= k < listed_lines(prev).len() implies listed_lines(prev)[k].0
            <= prev.len() && out[k] == listed_lines(prev)[k] by {}
        assert forall|k: int| 0 <= k < out.len() implies ({
            let (n, t) = #[trigger] out[k];
            &&& 1 <= n <= ls.len()
            &&& t.len() > 0
            &&& t[0] != '#'
            &&& trim(t) == t
            &&& t == trim(ls[n - 1])
        }) by {
            if k < listed_lines(prev).len() {
                let (n, t) = listed_lines(prev)[k];
                assert(ls[n - 1] == prev[n - 1]);
            }
        }
    }
}

/// The entries of an input file: increasing line numbers, each non-blank, trimmed,
/// not a comment, and the trimmed text of the line it names.
pub proof fn lemma_entries_shape(entries: Seq<InputEntry>, text: Seq<char>)
    requires
        is_entry_list_of(entries, text),
    ensures
        forall|k: int|
            0 <= k < entries.len() ==> {
                &&& 1 <= (#[trigger] entries[k]).line <= lines(text).len()
                &&& entries[k].raw@.len() > 0
                &&& entries[k].raw@[0] != '#'
                &&& trim(entries[k].raw@) == entries[k].raw@
                &&& entries[k].raw@ == trim(lines(text)[entries[k].line - 1])
            },
        forall|k: int, l: int|
            0 <= k < l < entries.len() ==> (#[trigger] entries[k]).line < (#[trigger] entries[l]).line,
{
    lemma_listed_lines_shape(lines(text));
    let spec_entries = listed_lines(lines(text));
    assert forall|k: int| 0 <= k < entries.len() implies ({
        &&& 1 <= (#[trigger] entries[k]).line <= lines(text).len()
        &&& entries[k].raw@.len() > 0
        &&& entries[k].raw@[0] != '#'
        &&& trim(entries[k].raw@) == entries[k].raw@
        &&& entries[k].raw@ == trim(lines(text)[entries[k].line - 1])
    }) by {
        let _ = spec_entries[k];
    }
    assert forall|k: int, l: int| 0 <= k < l < entries.len() implies (#[trigger] entries[k]).line
        < (#[trigger] entries[l]).line by {
        let _ = spec_entries[k];
        let _ = spec_entries[l];
    }
}

/// Formatting does not matter: two inputs with the same digits once trimmed and
/// stripped of separators are accepted or refused alike, with the same normal form.
pub proof fn lemma_format_insensitive(a: Seq<char>, b: Seq<char>)
    requires
        trim(a).len() > 0,
        trim(b).len() > 0,
        nsn_digits(trim(a)) == nsn_digits(trim(b)),
    ensures
        nsn_outcome(a) is Ok <==> nsn_outcome(b) is Ok,
        nsn_outcome(a) is Ok ==> nsn_outcome(a)->Ok_0.1 == nsn_outcome(b)->Ok_0.1
            && nsn_outcome(a)->Ok_0.2 == nsn_outcome(b)->Ok_0.2,
{
}

} // verus!
