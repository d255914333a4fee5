//! Report rendering for availability results: one JSON record per input entry, or a
//! flat 22-column CSV table with one row per (input, supplier, matching part).

use vstd::prelude::*;

use crate::client::{Outcome, QueryResult};
use crate::nsn::InputEntry;
use crate::soap::availability::{Availability, Company, Fault, PartListing, PartSearchResult};
use crate::soap::text_or_empty;
use crate::text::{decimal, usize_to_string};

verus! {

/// The texts of a sequence of string slices.
pub open spec fn texts(r: Seq<&str>) -> Seq<Seq<char>> {
    r.map_values(|s: &str| s@)
}

/// The CSV cell for an optional flag.
pub open spec fn bool_text(b: Option<bool>) -> Seq<char> {
    match b {
        Some(true) => "true"@,
        Some(false) => "false"@,
        None => seq![],
    }
}

fn bool_str(b: Option<bool>) -> (r: &'static str)
    ensures
        r@ == bool_text(b),
{
    match b {
        Some(true) => "true",
        Some(false) => "false",
        None => {
            proof {
                reveal_strlit("");
            }
            ""
        },
    }
}

/// The text of an optional string, or the empty slice.
fn opt_str(o: &Option<String>) -> (r: &str)
    ensures
        r@ == text_or_empty(*o),
{
    match o {
        Some(s) => s.as_str(),
        None => {
            proof {
                reveal_strlit("");
            }
            ""
        },
    }
}

/// The normalized form of an entry that parsed, empty otherwise.
pub open spec fn normalized_text(entry: InputEntry) -> Seq<char> {
    match entry.parsed {
        Ok(n) => n.normalized@,
        Err(_) => seq![],
    }
}

fn normalized_of(entry: &InputEntry) -> (r: Option<&str>)
    ensures
        match entry.parsed {
            Ok(n) => r matches Some(s) && s@ == n.normalized@,
            Err(_) => r is None,
        },
{
    match &entry.parsed {
        Ok(n) => Some(n.normalized.as_str()),
        Err(_) => None,
    }
}

fn normalized_str(entry: &InputEntry) -> (r: &str)
    ensures
        r@ == normalized_text(*entry),
{
    match normalized_of(entry) {
        Some(s) => s,
        None => {
            proof {
                reveal_strlit("");
            }
            ""
        },
    }
}

/// Per-input status: `ok` when any supplier lists the part, else `api_fault` when
/// the service reported faults, else `no_results`.
pub open spec fn status_of(a: Availability) -> Seq<char> {
    if a.part_listings.len() > 0 {
        "ok"@
    } else if a.faults.len() > 0 {
        "api_fault"@
    } else {
        "no_results"@
    }
}

pub fn availability_status(a: &Availability) -> (r: &'static str)
    ensures
        r@ == status_of(*a),
{
    if a.part_listings.len() > 0 {
        "ok"
    } else if a.faults.len() > 0 {
        "api_fault"
    } else {
        "no_results"
    }
}

/// `n` empty cells.
pub open spec fn blanks(n: nat) -> Seq<Seq<char>> {
    Seq::new(n, |i: int| Seq::<char>::empty())
}

/// A row that carries only the entry's identity, a status and a message.
pub open spec fn summary_row(
    line: Seq<char>,
    input: Seq<char>,
    normalized: Seq<char>,
    status: Seq<char>,
    error: Seq<char>,
) -> Seq<Seq<char>> {
    seq![line, input, normalized, status, error] + blanks(17)
}

/// The four company cells of a listing.
pub open spec fn company_texts(c: Option<Company>) -> Seq<Seq<char>> {
    match c {
        Some(c) => seq![
            text_or_empty(c.id),
            text_or_empty(c.name),
            text_or_empty(c.supplier_cage),
            text_or_empty(c.accredited_vendor_level),
        ],
        None => blanks(4),
    }
}

/// A row for a listing that names no matching part.
pub open spec fn listing_only_row(
    line: Seq<char>,
    input: Seq<char>,
    normalized: Seq<char>,
    listing: PartListing,
) -> Seq<Seq<char>> {
    seq![line, input, normalized, "ok"@, seq![]] + company_texts(listing.company) + blanks(13)
}

/// The thirteen part cells of a row.
pub open spec fn part_texts(p: PartSearchResult) -> Seq<Seq<char>> {
    seq![
        text_or_empty(p.part_number),
        text_or_empty(p.alternate_part_number),
        text_or_empty(p.condition_code),
        text_or_empty(p.description),
        text_or_empty(p.exchange_option),
        text_or_empty(p.quantity),
        text_or_empty(p.maker),
        text_or_empty(p.model),
        text_or_empty(p.part_entered),
        text_or_empty(p.search_part_id),
        bool_text(p.is_preferred_vendor),
        bool_text(p.is_g_listing),
        bool_text(p.is_m_listing),
    ]
}

/// A row for one matching part of one listing.
pub open spec fn full_row(
    line: Seq<char>,
    input: Seq<char>,
    normalized: Seq<char>,
    listing: PartListing,
    part: PartSearchResult,
) -> Seq<Seq<char>> {
    seq![line, input, normalized, "ok"@, seq![]] + company_texts(listing.company) + part_texts(part)
}

pub fn avail_summary_row<'a>(
    line: &'a str,
    input: &'a str,
    normalized: &'a str,
    status: &'a str,
    error: &'a str,
) -> (r: [&'a str; 22])
    ensures
        texts(r@) == summary_row(line@, input@, normalized@, status@, error@),
{
    proof {
        reveal_strlit("");
    }
    let r = [
        line,
        input,
        normalized,
        status,
        error,
        "",
        "",
        "",
        "",
        "",
        "",
        "",
        "",
        "",
        "",
        "",
        "",
        "",
        "",
        "",
        "",
        "",
    ];
    assert(""@ =~= Seq::<char>::empty());
    assert(texts(r@) =~= summary_row(line@, input@, normalized@, status@, error@));
    r
}

/// The four company cells of a listing, as slices.
fn company_cells<'a>(company: &'a Option<Company>) -> (r: (&'a str, &'a str, &'a str, &'a str))
    ensures
        company_texts(*company) == seq![r.0@, r.1@, r.2@, r.3@],
{
    proof {
        reveal_strlit("");
    }
    match company {
        Some(c) => (opt_str(&c.id), opt_str(&c.name), opt_str(&c.supplier_cage), opt_str(&c.accredited_vendor_level)),
        None => {
            assert(""@ =~= Seq::<char>::empty());
            assert(blanks(4) =~= seq![""@, ""@, ""@, ""@]);
            ("", "", "", "")
        },
    }
}

pub fn avail_listing_only_row<'a>(
    line: &'a str,
    input: &'a str,
    normalized: &'a str,
    listing: &'a PartListing,
) -> (r: [&'a str; 22])
    ensures
        texts(r@) == listing_only_row(line@, input@, normalized@, *listing),
{
    proof {
        reveal_strlit("");
    }
    let (id, name, cage, level) = company_cells(&listing.company);
    let r = [
        line,
        input,
        normalized,
        "ok",
        "",
        id,
        name,
        cage,
        level,
        "",
        "",
        "",
        "",
        "",
        "",
        "",
        "",
        "",
        "",
        "",
        "",
        "",
    ];
    assert(""@ =~= Seq::<char>::empty());
    assert(texts(r@) =~= listing_only_row(line@, input@, normalized@, *listing));
    r
}

pub fn avail_full_row<'a>(
    line: &'a str,
    input: &'a str,
    normalized: &'a str,
    listing: &'a PartListing,
    part: &'a PartSearchResult,
) -> (r: [&'a str; 22])
    ensures
        texts(r@) == full_row(line@, input@, normalized@, *listing, *part),
{
    proof {
        reveal_strlit("");
    }
    let (id, name, cage, level) = company_cells(&listing.company);
    let r = [
        line,
        input,
        normalized,
        "ok",
        "",
        id,
        name,
        cage,
        level,
        opt_str(&part.part_number),
        opt_str(&part.alternate_part_number),
        opt_str(&part.condition_code),
        opt_str(&part.description),
        opt_str(&part.exchange_option),
        opt_str(&part.quantity),
        opt_str(&part.maker),
        opt_str(&part.model),
        opt_str(&part.part_entered),
        opt_str(&part.search_part_id),
        bool_str(part.is_preferred_vendor),
        bool_str(part.is_g_listing),
        bool_str(part.is_m_listing),
    ];
    assert(""@ =~= Seq::<char>::empty());
    assert(texts(r@) =~= full_row(line@, input@, normalized@, *listing, *part));
    r
}

/// Whether the `csv` writer quotes a field: it holds the delimiter `,`, a quote,
/// or a line break (`\r` or `\n`).
pub open spec fn csv_needs_quotes(f: Seq<char>) -> bool {
    exists|i: int|
        0 <= i < f.len() && (#[trigger] f[i] == ',' || f[i] == '"' || f[i] == '\r' || f[i] == '\n')
}

/// `f` with every quote doubled.
pub open spec fn csv_doubled(f: Seq<char>) -> Seq<char>
    decreases f.len(),
{
    if f.len() == 0 {
        seq![]
    } else {
        (if f[0] == '"' {
            seq!['"', '"']
        } else {
            seq![f[0]]
        }) + csv_doubled(f.drop_first())
    }
}

/// A field as written: enclosed in quotes, with inner quotes doubled, when it
/// needs quotes; as it is otherwise.
pub open spec fn csv_field(f: Seq<char>) -> Seq<char> {
    if csv_needs_quotes(f) {
        seq!['"'] + csv_doubled(f) + seq!['"']
    } else {
        f
    }
}

/// A record as written: its fields joined with `,`, then `\n`. A record that
/// writes no byte before the terminator (no field, or one empty field) is
/// written as an empty quoted field.
pub open spec fn csv_line(fields: Seq<Seq<char>>) -> Seq<char> {
    if fields.len() == 0 || (fields.len() == 1 && fields[0].len() == 0) {
        seq!['"', '"', '\n']
    } else {
        joined(fields.map_values(|f: Seq<char>| csv_field(f)), seq![',']) + seq!['\n']
    }
}

/// The bytes the `csv` crate writes for one record: the UTF-8 encoding of
/// `csv_line`.
pub open spec fn csv_record_bytes(fields: Seq<Seq<char>>) -> Seq<u8> {
    vstd::utf8::encode_utf8(csv_line(fields))
}

/// Encodes one record: a trusted call of `csv::Writer::write_record` on a fresh
/// writer over a `Vec<u8>` (default configuration: `,` delimiter, `"` quote,
/// quotes doubled, `Necessary` quoting, `\n` terminator), then `into_inner`. The
/// contract states the bytes as `csv_record_bytes` of the field texts. The error
/// branches are not taken: a writer's first record is never refused for its
/// length, and writing into a `Vec` does not fail.
#[verifier::external_body]
fn csv_record(fields: &[&str]) -> (r: Vec<u8>)
    ensures
        r@ == csv_record_bytes(texts(fields@)),
{
    let mut w = csv::Writer::from_writer(Vec::new());
    if w.write_record(fields).is_err() {
        return Vec::new();
    }
    match w.into_inner() {
        Ok(bytes) => bytes,
        Err(_) => Vec::new(),
    }
}

/// A table of records, each encoded as the `csv` crate does, one after another.
pub open spec fn csv_document(rows: Seq<Seq<Seq<char>>>) -> Seq<u8>
    decreases rows.len(),
{
    if rows.len() == 0 {
        seq![]
    } else {
        csv_document(rows.drop_last()) + csv_record_bytes(rows.last())
    }
}

pub proof fn lemma_csv_document_concat(a: Seq<Seq<Seq<char>>>, b: Seq<Seq<Seq<char>>>)
    ensures
        csv_document(a + b) == csv_document(a) + csv_document(b),
    decreases b.len(),
{
    if b.len() == 0 {
        assert(a + b =~= a);
        assert(csv_document(b) =~= seq![]);
        assert(csv_document(a) + csv_document(b) =~= csv_document(a));
    } else {
        lemma_csv_document_concat(a, b.drop_last());
        assert((a + b).drop_last() =~= a + b.drop_last());
        assert((a + b).last() == b.last());
        assert(csv_document(a + b) =~= csv_document(a) + csv_document(b));
    }
}

pub proof fn lemma_csv_document_single(row: Seq<Seq<char>>)
    ensures
        csv_document(seq![row]) == csv_record_bytes(row),
{
    let rows = seq![row];
    assert(rows.drop_last() =~= Seq::<Seq<Seq<char>>>::empty());
    assert(csv_document(rows.drop_last()) =~= Seq::<u8>::empty());
    assert(csv_document(rows) =~= csv_record_bytes(row));
}

/// `parts` joined with `sep` between consecutive elements.
pub open spec fn joined(parts: Seq<Seq<char>>, sep: Seq<char>) -> Seq<char>
    decreases parts.len(),
{
    if parts.len() == 0 {
        seq![]
    } else if parts.len() == 1 {
        parts[0]
    } else {
        joined(parts.drop_last(), sep) + sep + parts.last()
    }
}

/// Joins fault messages with `"; "`.
fn join_fault_messages(messages: &Vec<&str>) -> (r: String)
    ensures
        r@ == joined(texts(messages@), "; "@),
{
    let mut r = String::new();
    let mut i: usize = 0;
    while i < messages.len()
        invariant
            i <= messages@.len(),
            r@ == joined(texts(messages@.take(i as int)), "; "@),
        decreases messages@.len() - i,
    {
        assert(texts(messages@.take(i + 1)).drop_last() =~= texts(messages@.take(i as int)));
        if i != 0 {
            r.append("; ");
        }
        r.append(messages[i]);
        proof {
            if i == 0 {
                assert(texts(messages@.take(1)) =~= seq![messages@[0]@]);
            }
        }
        i = i + 1;
    }
    assert(messages@.take(messages@.len() as int) =~= messages@);
    r
}

/// The messages carried by the faults that have one, in order.
pub open spec fn fault_messages(faults: Seq<Fault>) -> Seq<Seq<char>>
    decreases faults.len(),
{
    if faults.len() == 0 {
        seq![]
    } else {
        let prev = fault_messages(faults.drop_last());
        match faults.last().message {
            Some(m) => prev.push(m@),
            None => prev,
        }
    }
}

fn fault_message_slices(faults: &Vec<Fault>) -> (r: Vec<&str>)
    ensures
        texts(r@) == fault_messages(faults@),
{
    let mut r: Vec<&str> = Vec::new();
    let mut i: usize = 0;
    while i < faults.len()
        invariant
            i <= faults@.len(),
            texts(r@) == fault_messages(faults@.take(i as int)),
        decreases faults@.len() - i,
    {
        assert(faults@.take(i + 1).drop_last() =~= faults@.take(i as int));
        match &faults[i].message {
            Some(m) => {
                r.push(m.as_str());
                assert(texts(r@) =~= fault_messages(faults@.take(i + 1)));
            },
            None => {},
        }
        i = i + 1;
    }
    assert(faults@.take(faults@.len() as int) =~= faults@);
    r
}

/// The part results a listing carries (none when the collection is absent).
pub open spec fn listing_parts(listing: PartListing) -> Seq<PartSearchResult> {
    match listing.parts {
        Some(p) => p.items@,
        None => seq![],
    }
}

/// The rows of one listing: one per matching part, or a single listing-only row.
pub open spec fn listing_rows(
    line: Seq<char>,
    input: Seq<char>,
    normalized: Seq<char>,
    listing: PartListing,
) -> Seq<Seq<Seq<char>>> {
    let parts = listing_parts(listing);
    if parts.len() == 0 {
        seq![listing_only_row(line, input, normalized, listing)]
    } else {
        parts.map_values(|p: PartSearchResult| full_row(line, input, normalized, listing, p))
    }
}

/// The rows of a sequence of listings, in order.
pub open spec fn listings_rows(
    line: Seq<char>,
    input: Seq<char>,
    normalized: Seq<char>,
    listings: Seq<PartListing>,
) -> Seq<Seq<Seq<char>>>
    decreases listings.len(),
{
    if listings.len() == 0 {
        seq![]
    } else {
        listings_rows(line, input, normalized, listings.drop_last()) + listing_rows(
            line,
            input,
            normalized,
            listings.last(),
        )
    }
}

/// The CSV rows of one result.
pub open spec fn result_rows(r: QueryResult<Availability>) -> Seq<Seq<Seq<char>>> {
    let line = decimal(r.entry.line as nat);
    let input = r.entry.raw@;
    let normalized = normalized_text(r.entry);
    match r.outcome {
        Outcome::Success(a) => if a.part_listings.len() == 0 {
            seq![
                summary_row(
                    line,
                    input,
                    normalized,
                    if a.faults.len() == 0 {
                        "no_results"@
                    } else {
                        "api_fault"@
                    },
                    joined(fault_messages(a.faults@), "; "@),
                ),
            ]
        } else {
            listings_rows(line, input, normalized, a.part_listings@)
        },
        Outcome::Failure(e) => seq![summary_row(line, input, normalized, "error"@, e@)],
        Outcome::Invalid(e) => seq![summary_row(line, input, seq![], "invalid"@, e@)],
    }
}

/// The CSV rows of all results, in order.
pub open spec fn results_rows(rs: Seq<QueryResult<Availability>>) -> Seq<Seq<Seq<char>>>
    decreases rs.len(),
{
    if rs.len() == 0 {
        seq![]
    } else {
        results_rows(rs.drop_last()) + result_rows(rs.last())
    }
}

/// The header row of the availability table.
pub open spec fn availability_csv_header() -> Seq<Seq<char>> {
    seq![
        "line"@,
        "input"@,
        "normalized"@,
        "status"@,
        "error"@,
        "company_id"@,
        "company_name"@,
        "supplier_cage"@,
        "accredited_vendor_level"@,
        "part_number"@,
        "alternate_part_number"@,
        "condition_code"@,
        "description"@,
        "exchange_option"@,
        "quantity"@,
        "maker"@,
        "model"@,
        "part_entered"@,
        "search_part_id"@,
        "is_preferred_vendor"@,
        "is_g_listing"@,
        "is_m_listing"@,
    ]
}

fn availability_csv_headers() -> (r: [&'static str; 22])
    ensures
        texts(r@) == availability_csv_header(),
{
    let r = [
        "line",
        "input",
        "normalized",
        "status",
        "error",
        "company_id",
        "company_name",
        "supplier_cage",
        "accredited_vendor_level",
        "part_number",
        "alternate_part_number",
        "condition_code",
        "description",
        "exchange_option",
        "quantity",
        "maker",
        "model",
        "part_entered",
        "search_part_id",
        "is_preferred_vendor",
        "is_g_listing",
        "is_m_listing",
    ];
    assert(texts(r@) =~= availability_csv_header());
    r
}

/// The CSV bytes of one listing's rows.
fn listing_csv(line: &str, input: &str, normalized: &str, listing: &PartListing) -> (r: Vec<u8>)
    ensures
        r@ == csv_document(listing_rows(line@, input@, normalized@, *listing)),
{
    let ghost rows = listing_rows(line@, input@, normalized@, *listing);
    match &listing.parts {
        Some(p) if p.items.len() > 0 => {
            let mut out: Vec<u8> = Vec::new();
            let mut j: usize = 0;
            while j < p.items.len()
                invariant
                    j <= p.items@.len(),
                    p.items@ == listing_parts(*listing),
                    p.items@.len() > 0,
                    rows == p.items@.map_values(
                        |q: PartSearchResult| full_row(line@, input@, normalized@, *listing, q),
                    ),
                    out@ == csv_document(rows.take(j as int)),
                decreases p.items@.len() - j,
            {
                let row = avail_full_row(line, input, normalized, listing, &p.items[j]);
                let mut bytes = csv_record(&row);
                assert(rows.take(j + 1).drop_last() =~= rows.take(j as int));
                out.append(&mut bytes);
                j = j + 1;
            }
            assert(rows.take(rows.len() as int) =~= rows);
            out
        },
        _ => {
            let row = avail_listing_only_row(line, input, normalized, listing);
            let out = csv_record(&row);
            proof {
                lemma_csv_document_single(listing_only_row(line@, input@, normalized@, *listing));
            }
            out
        },
    }
}

/// The CSV bytes of one result's rows.
fn result_csv(r: &QueryResult<Availability>) -> (out: Vec<u8>)
    ensures
        out@ == csv_document(result_rows(*r)),
{
    let line = usize_to_string(r.entry.line);
    let input = r.entry.raw.as_str();
    let normalized = normalized_str(&r.entry);
    let ghost rows = result_rows(*r);
    match &r.outcome {
        Outcome::Success(a) => {
            if a.part_listings.len() == 0 {
                let status = if a.faults.len() == 0 {
                    "no_results"
                } else {
                    "api_fault"
                };
                let messages = fault_message_slices(&a.faults);
                let err = join_fault_messages(&messages);
                let row = avail_summary_row(line.as_str(), input, normalized, status, err.as_str());
                let out = csv_record(&row);
                proof {
                    lemma_csv_document_single(rows[0]);
                }
                out
            } else {
                let mut out: Vec<u8> = Vec::new();
                let mut k: usize = 0;
                while k < a.part_listings.len()
                    invariant
                        k <= a.part_listings@.len(),
                        out@ == csv_document(
                            listings_rows(line@, input@, normalized@, a.part_listings@.take(k as int)),
                        ),
                    decreases a.part_listings@.len() - k,
                {
                    let mut bytes = listing_csv(line.as_str(), input, normalized, &a.part_listings[k]);
                    let ghost prev = a.part_listings@.take(k as int);
                    assert(a.part_listings@.take(k + 1).drop_last() =~= prev);
                    proof {
                        lemma_csv_document_concat(
                            listings_rows(line@, input@, normalized@, prev),
                            listing_rows(line@, input@, normalized@, a.part_listings@[k as int]),
                        );
                    }
                    out.append(&mut bytes);
                    k = k + 1;
                }
                assert(a.part_listings@.take(a.part_listings@.len() as int) =~= a.part_listings@);
                out
            }
        },
        Outcome::Failure(e) => {
            let row = avail_summary_row(line.as_str(), input, normalized, "error", e.as_str());
            let out = csv_record(&row);
            proof {
                lemma_csv_document_single(rows[0]);
            }
            out
        },
        Outcome::Invalid(e) => {
            proof {
                reveal_strlit("");
            }
            let row = avail_summary_row(line.as_str(), input, "", "invalid", e.as_str());
            let out = csv_record(&row);
            assert(""@ =~= Seq::<char>::empty());
            proof {
                lemma_csv_document_single(rows[0]);
            }
            out
        },
    }
}

/// Renders availability results as CSV: a header row, then one row per
/// (input, supplier, matching part); inputs with no match, invalid inputs and
/// failed queries each get a single summary row.
pub fn write_availability_csv(results: &[QueryResult<Availability>]) -> (out: Vec<u8>)
    ensures
        out@ == csv_document(seq![availability_csv_header()] + results_rows(results@)),
{
    let header = availability_csv_headers();
    let mut out = csv_record(&header);
    let ghost head = seq![availability_csv_header()];
    proof {
        lemma_csv_document_single(availability_csv_header());
    }
    assert(results_rows(results@.take(0)) =~= Seq::<Seq<Seq<char>>>::empty());
    assert(head + results_rows(results@.take(0)) =~= head);
    let mut i: usize = 0;
    while i < results.len()
        invariant
            i <= results@.len(),
            out@ == csv_document(head + results_rows(results@.take(i as int))),
        decreases results@.len() - i,
    {
        let mut bytes = result_csv(&results[i]);
        let ghost prev = results_rows(results@.take(i as int));
        assert(results@.take(i + 1).drop_last() =~= results@.take(i as int));
        proof {
            lemma_csv_document_concat(head + prev, result_rows(results@[i as int]));
            assert(head + results_rows(results@.take(i + 1)) =~= (head + prev) + result_rows(
                results@[i as int],
            ));
        }
        out.append(&mut bytes);
        i = i + 1;
    }
    assert(results@.take(results@.len() as int) =~= results@);
    out
}

/// One JSON record per input entry. `faults` and `listings` are empty unless the
/// backend answered; `error` carries the failure or validation message.
#[derive(Debug)]
pub struct AvailabilityJson<'a> {
    pub line: usize,
    pub input: &'a str,
    pub normalized: Option<&'a str>,
    pub status: &'static str,
    pub error: Option<&'a str>,
    pub faults: &'a [Fault],
    pub listings: &'a [PartListing],
}

/// `j` is the JSON record of result `r`.
pub open spec fn is_json_record_of(j: AvailabilityJson, r: QueryResult<Availability>) -> bool {
    &&& j.line == r.entry.line
    &&& j.input@ == r.entry.raw@
    &&& match r.outcome {
        Outcome::Success(a) => {
            &&& j.status@ == status_of(a)
            &&& j.error is None
            &&& j.faults@ == a.faults@
            &&& j.listings@ == a.part_listings@
            &&& match r.entry.parsed {
                Ok(n) => j.normalized matches Some(s) && s@ == n.normalized@,
                Err(_) => j.normalized is None,
            }
        },
        Outcome::Failure(e) => {
            &&& j.status@ == "error"@
            &&& j.error matches Some(m) && m@ == e@
            &&& j.faults@.len() == 0
            &&& j.listings@.len() == 0
            &&& match r.entry.parsed {
                Ok(n) => j.normalized matches Some(s) && s@ == n.normalized@,
                Err(_) => j.normalized is None,
            }
        },
        Outcome::Invalid(e) => {
            &&& j.status@ == "invalid"@
            &&& j.error matches Some(m) && m@ == e@
            &&& j.faults@.len() == 0
            &&& j.listings@.len() == 0
            &&& j.normalized is None
        },
    }
}

impl<'a> AvailabilityJson<'a> {
    /// The JSON record of one result.
    pub fn from_result(r: &'a QueryResult<Availability>) -> (j: Self)
        ensures
            is_json_record_of(j, *r),
    {
        let normalized = normalized_of(&r.entry);
        match &r.outcome {
            Outcome::Success(a) => AvailabilityJson {
                line: r.entry.line,
                input: r.entry.raw.as_str(),
                normalized,
                status: availability_status(a),
                error: None,
                faults: a.faults.as_slice(),
                listings: a.part_listings.as_slice(),
            },
            Outcome::Failure(e) => AvailabilityJson {
                line: r.entry.line,
                input: r.entry.raw.as_str(),
                normalized,
                status: "error",
                error: Some(e.as_str()),
                faults: &[],
                listings: &[],
            },
            Outcome::Invalid(e) => AvailabilityJson {
                line: r.entry.line,
                input: r.entry.raw.as_str(),
                normalized: None,
                status: "invalid",
                error: Some(e.as_str()),
                faults: &[],
                listings: &[],
            },
        }
    }
}

/// The JSON records of all results: one per result, in order.
pub fn availability_json_records<'a>(results: &'a [QueryResult<Availability>]) -> (r: Vec<
    AvailabilityJson<'a>,
>)
    ensures
        r@.len() == results@.len(),
        forall|i: int| 0 <= i < results@.len() ==> is_json_record_of(#[trigger] r@[i], results@[i]),
{
    let mut r: Vec<AvailabilityJson<'a>> = Vec::new();
    let mut i: usize = 0;
    while i < results.len()
        invariant
            i <= results@.len(),
            r@.len() == i,
            forall|k: int| 0 <= k < i ==> is_json_record_of(#[trigger] r@[k], results@[k]),
        decreases results@.len() - i,
    {
        r.push(AvailabilityJson::from_result(&results[i]));
        i = i + 1;
    }
    r
}

proof fn lemma_listings_rows_width(line: Seq<char>, input: Seq<char>, normalized: Seq<char>, ls: Seq<PartListing>)
    ensures
        forall|k: int|
            0 <= k < listings_rows(line, input, normalized, ls).len() ==> (
            #[trigger] listings_rows(line, input, normalized, ls)[k]).len() == 22,
        ls.len() > 0 ==> listings_rows(line, input, normalized, ls).len() > 0,
    decreases ls.len(),
{
    if ls.len() > 0 {
        lemma_listings_rows_width(line, input, normalized, ls.drop_last());
        let a = listings_rows(line, input, normalized, ls.drop_last());
        let b = listing_rows(line, input, normalized, ls.last());
        assert(company_texts(ls.last().company).len() == 4);
        assert forall|k: int| 0 <= k < b.len() implies (#[trigger] b[k]).len() == 22 by {
            let parts = listing_parts(ls.last());
            if parts.len() > 0 {
                assert(b[k] == full_row(line, input, normalized, ls.last(), parts[k]));
            }
        }
        assert forall|k: int| 0 <= k < (a + b).len() implies (#[trigger] (a + b)[k]).len() == 22 by {
            if k < a.len() {
                assert((a + b)[k] == a[k]);
            } else {
                assert((a + b)[k] == b[k - a.len()]);
            }
        }
    }
}

/// Every row of the availability table has 22 columns; an input whose query
/// failed, that was invalid, or that found no listing has exactly one row.
pub proof fn lemma_csv_rows_shape(rs: Seq<QueryResult<Availability>>)
    ensures
        forall|k: int| 0 <= k < results_rows(rs).len() ==> (#[trigger] results_rows(rs)[k]).len() == 22,
        forall|k: int|
            0 <= k < rs.len() ==> ((#[trigger] rs[k]).outcome is Failure || rs[k].outcome is Invalid || (
            rs[k].outcome matches Outcome::Success(a) && a.part_listings.len() == 0))
                ==> result_rows(rs[k]).len() == 1,
        forall|k: int| 0 <= k < rs.len() ==> (#[trigger] result_rows(rs[k])).len() >= 1,
    decreases rs.len(),
{
    assert forall|k: int| 0 <= k < rs.len() implies (#[trigger] result_rows(rs[k])).len() >= 1 by {
        let r = rs[k];
        lemma_listings_rows_width(
            decimal(r.entry.line as nat),
            r.entry.raw@,
            normalized_text(r.entry),
            match r.outcome {
                Outcome::Success(a) => a.part_listings@,
                _ => seq![],
            },
        );
    }
    if rs.len() > 0 {
        lemma_csv_rows_shape(rs.drop_last());
        let r = rs.last();
        let line = decimal(r.entry.line as nat);
        let a = results_rows(rs.drop_last());
        let b = result_rows(r);
        match r.outcome {
            Outcome::Success(av) => {
                lemma_listings_rows_width(line, r.entry.raw@, normalized_text(r.entry), av.part_listings@);
            },
            _ => {},
        }
        assert forall|k: int| 0 <= k < b.len() implies (#[trigger] b[k]).len() == 22 by {}
        assert forall|k: int| 0 <= k < (a + b).len() implies (#[trigger] (a + b)[k]).len() == 22 by {
            if k < a.len() {
                assert((a + b)[k] == a[k]);
            } else {
                assert((a + b)[k] == b[k - a.len()]);
            }
        }
    }
}

/// How many rows a sequence of listings yields: one per matching part, and one
/// for a listing that names no part.
pub open spec fn listings_row_count(ls: Seq<PartListing>) -> nat
    decreases ls.len(),
{
    if ls.len() == 0 {
        0
    } else {
        listings_row_count(ls.drop_last()) + (if listing_parts(ls.last()).len() == 0 {
            1nat
        } else {
            listing_parts(ls.last()).len()
        })
    }
}

proof fn lemma_listings_rows_facts(line: Seq<char>, input: Seq<char>, normalized: Seq<char>, ls: Seq<PartListing>)
    ensures
        listings_rows(line, input, normalized, ls).len() == listings_row_count(ls),
        forall|k: int|
            0 <= k < listings_rows(line, input, normalized, ls).len() ==> {
                let row = #[trigger] listings_rows(line, input, normalized, ls)[k];
                row[0] == line && row[1] == input && row[3] == "ok"@
            },
    decreases ls.len(),
{
    if ls.len() > 0 {
        lemma_listings_rows_facts(line, input, normalized, ls.drop_last());
        let a = listings_rows(line, input, normalized, ls.drop_last());
        let b = listing_rows(line, input, normalized, ls.last());
        let parts = listing_parts(ls.last());
        assert forall|k: int| 0 <= k < b.len() implies {
            let row = #[trigger] b[k];
            row[0] == line && row[1] == input && row[3] == "ok"@
        } by {
            if parts.len() > 0 {
                assert(b[k] == full_row(line, input, normalized, ls.last(), parts[k]));
            }
        }
        assert forall|k: int| 0 <= k < (a + b).len() implies {
            let row = #[trigger] (a + b)[k];
            row[0] == line && row[1] == input && row[3] == "ok"@
        } by {
            if k < a.len() {
                assert((a + b)[k] == a[k]);
            } else {
                assert((a + b)[k] == b[k - a.len()]);
            }
        }
    }
}

/// The rows of one result: at least one, each carrying the result's line number
/// and input; for a query that found listings, one row per matching part (one for
/// a listing without parts), each with status `ok`.
pub open spec fn is_row_group_of(rows: Seq<Seq<Seq<char>>>, r: QueryResult<Availability>) -> bool {
    &&& rows.len() >= 1
    &&& forall|i: int|
        0 <= i < rows.len() ==> (#[trigger] rows[i])[0] == decimal(r.entry.line as nat) && rows[i][1]
            == r.entry.raw@
    &&& match r.outcome {
        Outcome::Success(a) => a.part_listings.len() > 0 ==> rows.len() == listings_row_count(
            a.part_listings@,
        ) && forall|i: int| 0 <= i < rows.len() ==> (#[trigger] rows[i])[3] == "ok"@,
        _ => true,
    }
}

proof fn lemma_result_rows_group(r: QueryResult<Availability>)
    ensures
        is_row_group_of(result_rows(r), r),
{
    let line = decimal(r.entry.line as nat);
    let normalized = normalized_text(r.entry);
    match r.outcome {
        Outcome::Success(a) => {
            if a.part_listings.len() > 0 {
                lemma_listings_rows_facts(line, r.entry.raw@, normalized, a.part_listings@);
                lemma_listings_rows_width(line, r.entry.raw@, normalized, a.part_listings@);
            }
        },
        _ => {},
    }
}

proof fn lemma_results_rows_concat(a: Seq<QueryResult<Availability>>, b: Seq<QueryResult<Availability>>)
    ensures
        results_rows(a + b) == results_rows(a) + results_rows(b),
    decreases b.len(),
{
    if b.len() == 0 {
        assert(a + b =~= a);
        assert(results_rows(a) + results_rows(b) =~= results_rows(a));
    } else {
        lemma_results_rows_concat(a, b.drop_last());
        assert((a + b).drop_last() =~= a + b.drop_last());
        assert((a + b).last() == b.last());
        assert(results_rows(a + b) =~= results_rows(a) + results_rows(b));
    }
}

/// The table's rows come in one contiguous group per result, in input order: the
/// rows of the results before it, then its own group (at least one row, each
/// carrying its line number and input; for a query that found listings, one `ok`
/// row per matching part, one for a listing without parts), then the rows of the
/// results after it.
pub proof fn lemma_csv_row_groups(rs: Seq<QueryResult<Availability>>)
    ensures
        forall|k: int|
            0 <= k < rs.len() ==> results_rows(rs) == results_rows(rs.take(k)) + #[trigger] result_rows(rs[k])
                + results_rows(rs.skip(k + 1)),
        forall|k: int| 0 <= k < rs.len() ==> is_row_group_of(#[trigger] result_rows(rs[k]), rs[k]),
{
    assert forall|k: int| 0 <= k < rs.len() implies results_rows(rs) == results_rows(rs.take(k))
        + #[trigger] result_rows(rs[k]) + results_rows(rs.skip(k + 1)) by {
        lemma_results_rows_concat(rs.take(k + 1), rs.skip(k + 1));
        assert(rs.take(k + 1) + rs.skip(k + 1) =~= rs);
        assert(rs.take(k + 1).drop_last() =~= rs.take(k));
        assert(rs.take(k + 1).last() == rs[k]);
    }
    assert forall|k: int| 0 <= k < rs.len() implies is_row_group_of(#[trigger] result_rows(rs[k]), rs[k]) by {
        lemma_result_rows_group(rs[k]);
    }
}

/// Each cell of a part's row sits under the header that names it: the row has
/// the header's 22 columns, and column `i` holds the field that
/// `availability_csv_header()[i]` names (company fields empty without a company).
pub proof fn lemma_full_row_columns(
    line: Seq<char>,
    input: Seq<char>,
    normalized: Seq<char>,
    listing: PartListing,
    p: PartSearchResult,
)
    ensures
        ({
            let row = full_row(line, input, normalized, listing, p);
            let h = availability_csv_header();
            let company = |f: spec_fn(Company) -> Option<String>|
                match listing.company {
                    Some(c) => text_or_empty(f(c)),
                    None => Seq::<char>::empty(),
                };
            &&& row.len() == 22 && h.len() == 22
            &&& h[0] == "line"@ && row[0] == line
            &&& h[1] == "input"@ && row[1] == input
            &&& h[2] == "normalized"@ && row[2] == normalized
            &&& h[3] == "status"@ && row[3] == "ok"@
            &&& h[4] == "error"@ && row[4] == Seq::<char>::empty()
            &&& h[5] == "company_id"@ && row[5] == company(|c: Company| c.id)
            &&& h[6] == "company_name"@ && row[6] == company(|c: Company| c.name)
            &&& h[7] == "supplier_cage"@ && row[7] == company(|c: Company| c.supplier_cage)
            &&& h[8] == "accredited_vendor_level"@ && row[8] == company(
                |c: Company| c.accredited_vendor_level,
            )
            &&& h[9] == "part_number"@ && row[9] == text_or_empty(p.part_number)
            &&& h[10] == "alternate_part_number"@ && row[10] == text_or_empty(p.alternate_part_number)
            &&& h[11] == "condition_code"@ && row[11] == text_or_empty(p.condition_code)
            &&& h[12] == "description"@ && row[12] == text_or_empty(p.description)
            &&& h[13] == "exchange_option"@ && row[13] == text_or_empty(p.exchange_option)
            &&& h[14] == "quantity"@ && row[14] == text_or_empty(p.quantity)
            &&& h[15] == "maker"@ && row[15] == text_or_empty(p.maker)
            &&& h[16] == "model"@ && row[16] == text_or_empty(p.model)
            &&& h[17] == "part_entered"@ && row[17] == text_or_empty(p.part_entered)
            &&& h[18] == "search_part_id"@ && row[18] == text_or_empty(p.search_part_id)
            &&& h[19] == "is_preferred_vendor"@ && row[19] == bool_text(p.is_preferred_vendor)
            &&& h[20] == "is_g_listing"@ && row[20] == bool_text(p.is_g_listing)
            &&& h[21] == "is_m_listing"@ && row[21] == bool_text(p.is_m_listing)
        }),
{
    let row = full_row(line, input, normalized, listing, p);
    assert(company_texts(listing.company).len() == 4);
    match listing.company {
        Some(c) => {},
        None => {
            assert(company_texts(listing.company)[0] == Seq::<char>::empty());
        },
    }
}

/// The single row of a result that has no listing sits under the header too:
/// `line`, `input`, `normalized` (empty for an invalid input), then `status` and
/// `error` as the outcome gives them (`error` with its message, `invalid` with
/// the reason, `api_fault` or `no_results` with the fault messages), and the 17
/// other columns empty.
pub proof fn lemma_summary_row_columns(r: QueryResult<Availability>)
    ensures
        ({
            let h = availability_csv_header();
            let rows = result_rows(r);
            let line = decimal(r.entry.line as nat);
            match r.outcome {
                Outcome::Success(a) => a.part_listings.len() == 0 ==> {
                    &&& rows.len() == 1 && rows[0].len() == 22
                    &&& h[0] == "line"@ && rows[0][0] == line
                    &&& h[1] == "input"@ && rows[0][1] == r.entry.raw@
                    &&& h[2] == "normalized"@ && rows[0][2] == normalized_text(r.entry)
                    &&& h[3] == "status"@ && rows[0][3] == (if a.faults.len() > 0 {
                        "api_fault"@
                    } else {
                        "no_results"@
                    })
                    &&& h[4] == "error"@ && rows[0][4] == joined(fault_messages(a.faults@), "; "@)
                    &&& forall|i: int| 5 <= i < 22 ==> (#[trigger] rows[0][i]).len() == 0
                },
                Outcome::Failure(e) => {
                    &&& rows.len() == 1 && rows[0].len() == 22
                    &&& rows[0][0] == line && rows[0][1] == r.entry.raw@
                    &&& rows[0][2] == normalized_text(r.entry)
                    &&& rows[0][3] == "error"@ && rows[0][4] == e@
                    &&& forall|i: int| 5 <= i < 22 ==> (#[trigger] rows[0][i]).len() == 0
                },
                Outcome::Invalid(e) => {
                    &&& rows.len() == 1 && rows[0].len() == 22
                    &&& rows[0][0] == line && rows[0][1] == r.entry.raw@
                    &&& rows[0][2].len() == 0
                    &&& rows[0][3] == "invalid"@ && rows[0][4] == e@
                    &&& forall|i: int| 5 <= i < 22 ==> (#[trigger] rows[0][i]).len() == 0
                },
            }
        }),
{
}

/// The row of a listing that names no part: its identity, status `ok`, no
/// error, the four company cells under their headers, and the 13 part columns
/// empty.
pub proof fn lemma_listing_only_row_columns(
    line: Seq<char>,
    input: Seq<char>,
    normalized: Seq<char>,
    listing: PartListing,
)
    ensures
        ({
            let row = listing_only_row(line, input, normalized, listing);
            let h = availability_csv_header();
            let company = |f: spec_fn(Company) -> Option<String>|
                match listing.company {
                    Some(c) => text_or_empty(f(c)),
                    None => Seq::<char>::empty(),
                };
            &&& row.len() == 22
            &&& row[0] == line && row[1] == input && row[2] == normalized
            &&& row[3] == "ok"@ && row[4].len() == 0
            &&& h[5] == "company_id"@ && row[5] == company(|c: Company| c.id)
            &&& h[6] == "company_name"@ && row[6] == company(|c: Company| c.name)
            &&& h[7] == "supplier_cage"@ && row[7] == company(|c: Company| c.supplier_cage)
            &&& h[8] == "accredited_vendor_level"@ && row[8] == company(
                |c: Company| c.accredited_vendor_level,
            )
            &&& forall|i: int| 9 <= i < 22 ==> (#[trigger] row[i]).len() == 0
        }),
{
    assert(company_texts(listing.company).len() == 4);
}

/// The JSON status follows the backend's answer: any listing makes it `ok`,
/// whatever faults came with it; `api_fault` only when there is no listing and
/// at least one fault; `no_results` when there is neither.
pub proof fn lemma_json_status_follows_answer(j: AvailabilityJson, r: QueryResult<Availability>)
    requires
        is_json_record_of(j, r),
    ensures
        match r.outcome {
            Outcome::Success(a) => {
                &&& a.part_listings.len() > 0 ==> j.status@ == "ok"@
                &&& a.part_listings.len() == 0 && a.faults.len() > 0 ==> j.status@ == "api_fault"@
                &&& a.part_listings.len() == 0 && a.faults.len() == 0 ==> j.status@ == "no_results"@
            },
            _ => true,
        },
{
}

/// Every JSON record carries one of the five status codes, and the code tells
/// which way the query went: `ok`, `no_results` or `api_fault` when the backend
/// answered, `error` when the query failed, `invalid` when the input was refused.
pub proof fn lemma_json_status_codes(j: AvailabilityJson, r: QueryResult<Availability>)
    requires
        is_json_record_of(j, r),
    ensures
        j.status@ == "ok"@ || j.status@ == "no_results"@ || j.status@ == "api_fault"@
            || j.status@ == "error"@ || j.status@ == "invalid"@,
        (j.status@ == "ok"@ || j.status@ == "no_results"@ || j.status@ == "api_fault"@)
            <==> r.outcome is Success,
        j.status@ == "error"@ <==> r.outcome is Failure,
        j.status@ == "invalid"@ <==> r.outcome is Invalid,
{
    reveal_strlit("ok");
    reveal_strlit("no_results");
    reveal_strlit("api_fault");
    reveal_strlit("error");
    reveal_strlit("invalid");
    assert("ok"@.len() == 2 && "no_results"@.len() == 10 && "api_fault"@.len() == 9
        && "error"@.len() == 5 && "invalid"@.len() == 7);
}

} // verus!
