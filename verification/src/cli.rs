//! Command-line surface of the tool (as plain data), the dataset list parser, and
//! the editor behind `config set`.

use vstd::prelude::*;

use crate::config::{
    join_path, nonempty, resolved_config_path, user_config_path, Config, ConfigLocations,
    DEFAULT_CONCURRENCY, DEFAULT_ENDPOINT, DEFAULT_TIMEOUT_SECS, LOCAL_CONFIG_FILE,
    USER_CONFIG_SUFFIX,
};
use crate::nsn::InputEntry;
use crate::soap::government::{dataset_parse, Dataset};
use crate::text::{
    debug_quoted, debug_string, decimal, i64_to_string, signed_decimal, trim, trimmed,
    u64_to_string, usize_to_string,
};
use crate::toml_doc::{keys_sorted, lookup, TomlTable, TomlValue};

verus! {

/// Output format of a query.
#[derive(Debug, Clone, Copy, PartialEq, Eq, Structural)]
pub enum Format {
    Json,
    Csv,
}

/// Arguments shared by the query subcommands.
#[derive(Debug)]
pub struct CommonQueryArgs {
    /// Flat text file with one NSN or NIIN per line.
    pub input: String,
    pub format: Format,
    /// Write output to this file instead of stdout.
    pub output: Option<String>,
}

/// Arguments of a government catalog query: the common ones and the datasets
/// (`--datasets`, comma-separated, each read by `parse_dataset`).
#[derive(Debug)]
pub struct GovernmentArgs {
    pub common: CommonQueryArgs,
    pub datasets: Vec<Dataset>,
}

/// Arguments of a catalog-then-marketplace lookup: the common ones and the
/// datasets of the catalog call (`--gov-datasets`).
#[derive(Debug)]
pub struct LookupArgs {
    pub common: CommonQueryArgs,
    pub gov_datasets: Vec<Dataset>,
}

/// Values given to `config set`; absent ones are left as they are.
#[derive(Debug)]
pub struct ConfigSetArgs {
    pub user_id: Option<String>,
    pub password: Option<String>,
    pub password_stdin: bool,
    pub endpoint: Option<String>,
    pub concurrency: Option<usize>,
    pub timeout_secs: Option<u64>,
}

/// The `config` subcommands: print the resolved path, print the effective
/// configuration, or store values (`config set`).
#[derive(Debug)]
pub enum ConfigCommand {
    Path,
    Show,
    Update(ConfigSetArgs),
}

#[derive(Debug)]
pub enum Command {
    /// Who is currently selling this NSN/NIIN? (`lookup`, also `ls`, `availability`,
    /// `avail`)
    Lookup(CommonQueryArgs),
    /// Manage the config file.
    Config(ConfigCommand),
}

/// The command line: an optional config path, the verbosity count, the subcommand.
#[derive(Debug)]
pub struct Args {
    pub config: Option<String>,
    pub verbose: u8,
    pub command: Command,
}

/// What `parse_dataset` yields for one comma-separated value.
pub open spec fn dataset_arg(s: Seq<char>) -> Result<Dataset, Seq<char>> {
    let t = trim(s);
    if t.len() == 0 {
        Err("empty dataset value"@)
    } else {
        match dataset_parse(t) {
            Some(d) => Ok(d),
            None => Err("unknown dataset "@ + debug_quoted(t)),
        }
    }
}

/// Parses one value of a `--datasets` list.
pub fn parse_dataset(s: &str) -> (r: Result<Dataset, String>)
    ensures
        match dataset_arg(s@) {
            Ok(d) => r == Ok::<Dataset, String>(d),
            Err(msg) => r matches Err(m) && m@ == msg,
        },
{
    let t = trimmed(s);
    if t.as_str().is_empty() {
        return Err("empty dataset value".to_owned());
    }
    match Dataset::parse(t.as_str()) {
        Some(d) => {
            proof {
                crate::text::lemma_trim_idempotent(s@);
            }
            Ok(d)
        },
        None => {
            proof {
                crate::text::lemma_trim_idempotent(s@);
            }
            let mut m = "unknown dataset ".to_owned();
            m.append(debug_string(t.as_str()).as_str());
            Err(m)
        },
    }
}

/// The default log filter for a verbosity count (`-v`, `-vv`, `-vvv`).
pub open spec fn log_filter(verbose: u8) -> Seq<char> {
    if verbose == 0 {
        "nsnfind=warn"@
    } else if verbose == 1 {
        "nsnfind=info"@
    } else if verbose == 2 {
        "nsnfind=debug"@
    } else {
        "nsnfind=trace"@
    }
}

pub fn default_log_filter(verbose: u8) -> (r: &'static str)
    ensures
        r@ == log_filter(verbose),
{
    match verbose {
        0 => "nsnfind=warn",
        1 => "nsnfind=info",
        2 => "nsnfind=debug",
        _ => "nsnfind=trace",
    }
}

/// A top-level entry of the config document: a table, or some other value.
#[derive(Debug)]
pub enum Section {
    Table(TomlTable),
    NotTable,
}

/// The config document edited by `config set`: its `credentials` and `api`
/// entries (other top-level entries are not written back).
#[derive(Debug)]
pub struct ConfigDoc {
    pub credentials: Option<Section>,
    pub api: Option<Section>,
}

/// The entries of a section that is a table; none otherwise.
pub open spec fn section_entries(s: Option<Section>) -> Seq<(String, TomlValue)> {
    match s {
        Some(Section::Table(t)) => t.entries(),
        _ => seq![],
    }
}

/// `new` is `old` made a table (if it was not one) with `v` stored under `k`.
pub open spec fn is_set_in(old: Option<Section>, new: Option<Section>, k: Seq<char>, v: TomlValue) -> bool {
    &&& new matches Some(Section::Table(t))
    &&& keys_sorted(section_entries(new))
    &&& lookup(section_entries(new), k) == Some(v)
    &&& forall|k2: Seq<char>|
        k2 != k ==> #[trigger] lookup(section_entries(new), k2) == lookup(section_entries(old), k2)
}

/// The section's table, or a fresh empty one when it is absent or not a table.
fn ensure_table(slot: Option<Section>) -> (t: TomlTable)
    ensures
        t.entries() == section_entries(slot),
{
    match slot {
        Some(Section::Table(t)) => t,
        _ => TomlTable::new(),
    }
}

fn set_in(slot: &mut Option<Section>, key: &str, value: TomlValue)
    ensures
        is_set_in(*old(slot), *final(slot), key@, value),
{
    let mut t = ensure_table(slot.take());
    t.insert(key.to_owned(), value);
    *slot = Some(Section::Table(t));
}

/// The top level of a TOML document as the config editor reads it, in the order
/// the parser hands it out: each key, with its entries when its value is a table
/// and `None` when it is some other value; or the parser's error message.
pub uninterp spec fn toml_top_level(text: Seq<char>) -> Result<
    Seq<(Seq<char>, Option<Seq<(Seq<char>, TomlValue)>>)>,
    Seq<char>,
>;

/// The plain view of a table's entries.
pub open spec fn entries_view(e: Seq<(String, TomlValue)>) -> Seq<(Seq<char>, TomlValue)> {
    e.map_values(|p: (String, TomlValue)| (p.0@, p.1))
}

/// The plain view of a parsed top level.
pub open spec fn top_level_view(top: Seq<(String, Option<Vec<(String, TomlValue)>>)>) -> Seq<
    (Seq<char>, Option<Seq<(Seq<char>, TomlValue)>>),
> {
    top.map_values(
        |p: (String, Option<Vec<(String, TomlValue)>>)|
            (
                p.0@,
                match p.1 {
                    Some(v) => Some(entries_view(v@)),
                    None => None,
                },
            ),
    )
}

/// The value of the first entry keyed `k`, if any.
pub open spec fn first_value<V>(e: Seq<(Seq<char>, V)>, k: Seq<char>) -> Option<V>
    decreases e.len(),
{
    if e.len() == 0 {
        None
    } else if e[0].0 == k {
        Some(e[0].1)
    } else {
        first_value(e.drop_first(), k)
    }
}

/// `s` is the section read from the top-level value `e`: absent, not a table, or
/// a table that holds exactly the entries `es`.
pub open spec fn is_section_of(s: Option<Section>, e: Option<Option<Seq<(Seq<char>, TomlValue)>>>) -> bool {
    match e {
        None => s is None,
        Some(None) => s matches Some(Section::NotTable),
        Some(Some(es)) => s matches Some(Section::Table(t)) && forall|k: Seq<char>|
            #[trigger] lookup(t.entries(), k) == first_value(es, k),
    }
}

/// `d` is the document whose top level is `top`.
pub open spec fn is_document_of(d: ConfigDoc, top: Seq<(Seq<char>, Option<Seq<(Seq<char>, TomlValue)>>)>) -> bool {
    &&& is_section_of(d.credentials, first_value(top, "credentials"@))
    &&& is_section_of(d.api, first_value(top, "api"@))
}

/// Parses `text` with `toml::from_str::<toml::Table>` and hands back its top
/// level as plain values, in the table's own order. A string value becomes
/// `Text`, an integer `Integer`, a boolean `Boolean`; a float becomes `Other`
/// with the float's `to_string`, and any other value (a date-time, an array, an
/// inline table) `Other` with toml's display of it. The contract names the result
/// (`toml_top_level` of the text, or the parser's error message): the TOML
/// grammar and the parser's messages are not stated.
#[verifier::external_body]
fn parse_toml_top_level(text: &str) -> (r: Result<Vec<(String, Option<Vec<(String, TomlValue)>>)>, String>)
    ensures
        match r {
            Ok(top) => toml_top_level(text@) == Ok::<_, Seq<char>>(top_level_view(top@)),
            Err(e) => toml_top_level(text@) == Err::<Seq<(Seq<char>, Option<Seq<(Seq<char>, TomlValue)>>)>, _>(e@),
        },
{
    let table = toml::from_str::<toml::Table>(text).map_err(|e| e.to_string())?;
    Ok(table.into_iter().map(|(k, v)| match v {
        toml::Value::Table(t) => (k, Some(t.into_iter().map(|(k, v)| (k, match v {
            toml::Value::String(s) => TomlValue::Text(s),
            toml::Value::Integer(i) => TomlValue::Integer(i),
            toml::Value::Boolean(b) => TomlValue::Boolean(b),
            toml::Value::Float(f) => TomlValue::Other(f.to_string()),
            other => TomlValue::Other(other.to_string()),
        })).collect())),
        _ => (k, None),
    }).collect())
}

/// The section read from one top-level value: a table holding `entries`, where
/// a key given twice keeps its first value, or not a table.
fn section_from(entries: Option<Vec<(String, TomlValue)>>) -> (s: Section)
    ensures
        match entries {
            None => s is NotTable,
            Some(v) => s matches Section::Table(t) && forall|k: Seq<char>|
                #[trigger] lookup(t.entries(), k) == first_value(entries_view(v@), k),
        },
{
    match entries {
        None => Section::NotTable,
        Some(v) => {
            let ghost es = entries_view(v@);
            let mut v = v;
            let mut t = TomlTable::new();
            assert(es.skip(es.len() as int) =~= Seq::<(Seq<char>, TomlValue)>::empty());
            assert(v@.len() == es.len());
            assert(entries_view(v@) =~= es.take(v@.len() as int));
            while v.len() > 0
                invariant
                    v@.len() <= es.len(),
                    entries_view(v@) == es.take(v@.len() as int),
                    forall|k: Seq<char>|
                        #[trigger] lookup(t.entries(), k) == first_value(es.skip(v@.len() as int), k),
                decreases v@.len(),
            {
                let ghost n = v@.len() as int;
                let ghost old_v = v@;
                let ghost old_t = t.entries();
                let (key, value) = v.pop().unwrap();
                assert(entries_view(old_v)[n - 1] == es.take(n)[n - 1]);
                assert(es[n - 1] == (key@, value));
                assert(entries_view(v@) =~= es.take(n - 1));
                assert(es.skip(n - 1).drop_first() =~= es.skip(n));
                assert(es.skip(n - 1)[0] == es[n - 1]);
                let ghost kk = key@;
                t.insert(key, value);
                assert forall|k: Seq<char>|
                    #[trigger] lookup(t.entries(), k) == first_value(es.skip(n - 1), k) by {
                    if k != kk {
                        assert(lookup(t.entries(), k) == lookup(old_t, k));
                    }
                }
            }
            assert(es.skip(0) =~= es);
            Section::Table(t)
        }
    }
}

/// The config document whose top level is `top` (as `parse_toml_top_level`
/// hands it out): its `credentials` and `api` entries, each the first one of
/// that key.
pub fn document_from_top_level(top: Vec<(String, Option<Vec<(String, TomlValue)>>)>) -> (d: ConfigDoc)
    ensures
        is_document_of(d, top_level_view(top@)),
{
    let ghost all = top_level_view(top@);
    let mut top = top;
    let mut credentials: Option<Section> = None;
    let mut api: Option<Section> = None;
    assert(all.skip(all.len() as int) =~= Seq::<(Seq<char>, Option<Seq<(Seq<char>, TomlValue)>>)>::empty());
    assert(top_level_view(top@) =~= all.take(top@.len() as int));
    while top.len() > 0
        invariant
            top@.len() <= all.len(),
            top_level_view(top@) == all.take(top@.len() as int),
            is_section_of(credentials, first_value(all.skip(top@.len() as int), "credentials"@)),
            is_section_of(api, first_value(all.skip(top@.len() as int), "api"@)),
        decreases top@.len(),
    {
        let ghost n = top@.len() as int;
        let ghost old_top = top@;
        let (key, entries) = top.pop().unwrap();
        assert(top_level_view(old_top)[n - 1] == all.take(n)[n - 1]);
        assert(top_level_view(top@) =~= all.take(n - 1));
        assert(all.skip(n - 1).drop_first() =~= all.skip(n));
        assert(all.skip(n - 1)[0] == all[n - 1]);
        proof {
            reveal_strlit("credentials");
            reveal_strlit("api");
            assert("credentials"@.len() != "api"@.len());
        }
        let k = crate::text::chars_of(key.as_str());
        if crate::text::chars_eq_str(&k, "credentials") {
            credentials = Some(section_from(entries));
        } else if crate::text::chars_eq_str(&k, "api") {
            api = Some(section_from(entries));
        }
    }
    assert(all.skip(0) =~= all);
    ConfigDoc { credentials, api }
}

/// Reads a config document from TOML text: its `credentials` and `api` entries,
/// or the parser's error message when the text is not TOML.
pub fn parse_config_document(text: &str) -> (r: Result<ConfigDoc, String>)
    ensures
        match toml_top_level(text@) {
            Ok(top) => r matches Ok(d) && is_document_of(d, top),
            Err(m) => r matches Err(e) && e@ == m,
        },
{
    match parse_toml_top_level(text) {
        Ok(top) => Ok(document_from_top_level(top)),
        Err(e) => Err(e),
    }
}

/// `n` as TOML stores it: the 64-bit two's-complement reading of its low bits.
pub open spec fn wrapped_i64(n: int) -> int {
    if n <= i64::MAX {
        n
    } else {
        n - 0x1_0000_0000_0000_0000
    }
}

/// `n as i64` for a `u64`.
fn to_i64_wrapping(n: u64) -> (r: i64)
    ensures
        r == wrapped_i64(n as int),
{
    if n <= 9223372036854775807u64 {
        n as i64
    } else {
        let d: u64 = 18446744073709551615u64 - n;
        -(d as i64) - 1
    }
}

impl ConfigDoc {
    pub fn set_credentials_user_id(&mut self, v: String)
        ensures
            is_set_in(old(self).credentials, final(self).credentials, "user_id"@, TomlValue::Text(v)),
            final(self).api == old(self).api,
    {
        set_in(&mut self.credentials, "user_id", TomlValue::Text(v));
    }

    pub fn set_credentials_password(&mut self, v: String)
        ensures
            is_set_in(old(self).credentials, final(self).credentials, "password"@, TomlValue::Text(v)),
            final(self).api == old(self).api,
    {
        set_in(&mut self.credentials, "password", TomlValue::Text(v));
    }

    pub fn set_api_endpoint(&mut self, v: String)
        ensures
            is_set_in(old(self).api, final(self).api, "endpoint"@, TomlValue::Text(v)),
            final(self).credentials == old(self).credentials,
    {
        set_in(&mut self.api, "endpoint", TomlValue::Text(v));
    }

    pub fn set_api_concurrency(&mut self, v: usize)
        ensures
            final(self).api matches Some(Section::Table(_)),
            keys_sorted(section_entries(final(self).api)),
            lookup(section_entries(final(self).api), "concurrency"@) matches Some(
                TomlValue::Integer(i),
            ) && i == wrapped_i64(v as int),
            forall|k2: Seq<char>|
                k2 != "concurrency"@ ==> #[trigger] lookup(section_entries(final(self).api), k2)
                    == lookup(section_entries(old(self).api), k2),
            final(self).credentials == old(self).credentials,
    {
        set_in(&mut self.api, "concurrency", TomlValue::Integer(to_i64_wrapping(v as u64)));
    }

    pub fn set_api_timeout_secs(&mut self, v: u64)
        ensures
            final(self).api matches Some(Section::Table(_)),
            keys_sorted(section_entries(final(self).api)),
            lookup(section_entries(final(self).api), "timeout_secs"@) matches Some(
                TomlValue::Integer(i),
            ) && i == wrapped_i64(v as int),
            forall|k2: Seq<char>|
                k2 != "timeout_secs"@ ==> #[trigger] lookup(section_entries(final(self).api), k2)
                    == lookup(section_entries(old(self).api), k2),
            final(self).credentials == old(self).credentials,
    {
        set_in(&mut self.api, "timeout_secs", TomlValue::Integer(to_i64_wrapping(v)));
    }
}

/// The first problem `config set` finds with a document, as its message.
pub open spec fn doc_violation(d: ConfigDoc) -> Option<Seq<char>> {
    match d.credentials {
        Some(Section::Table(creds)) => match lookup(creds.entries(), "user_id"@) {
            Some(TomlValue::Text(uid)) => {
                let u = uid@;
                if !crate::config::has_u01_suffix(u) {
                    Some(
                        "credentials.user_id must end with 'U01' (case-insensitive); got "@
                            + debug_quoted(u),
                    )
                } else if crate::config::byte_len(u) > 10 || !crate::config::all_ascii_alphanumeric(
                    u,
                ) {
                    Some("credentials.user_id must be <= 10 alphanumeric ASCII chars"@)
                } else {
                    match lookup(creds.entries(), "password"@) {
                        Some(TomlValue::Text(pw)) => if !(6 <= pw@.len() <= 20) {
                            Some("credentials.password must be between 6 and 20 characters"@)
                        } else {
                            api_violation(d.api)
                        },
                        _ => Some("credentials.password is required"@),
                    }
                }
            },
            _ => Some("credentials.user_id is required"@),
        },
        _ => Some("[credentials] section is required"@),
    }
}

/// The first problem with the `[api]` section, if it is a table.
pub open spec fn api_violation(api: Option<Section>) -> Option<Seq<char>> {
    match api {
        Some(Section::Table(t)) => {
            if lookup(t.entries(), "concurrency"@) matches Some(TomlValue::Integer(c)) && c < 1 {
                Some("api.concurrency must be >= 1"@)
            } else if lookup(t.entries(), "timeout_secs"@) matches Some(TomlValue::Integer(x)) && x
                < 1 {
                Some("api.timeout_secs must be >= 1"@)
            } else {
                None
            }
        },
        _ => None,
    }
}

fn check_api(api: &Option<Section>) -> (r: Result<(), String>)
    ensures
        match api_violation(*api) {
            None => r is Ok,
            Some(msg) => r matches Err(m) && m@ == msg,
        },
{
    if let Some(Section::Table(t)) = api {
        if let Some(TomlValue::Integer(c)) = t.get("concurrency") {
            if *c < 1 {
                return Err("api.concurrency must be >= 1".to_owned());
            }
        }
        if let Some(TomlValue::Integer(x)) = t.get("timeout_secs") {
            if *x < 1 {
                return Err("api.timeout_secs must be >= 1".to_owned());
            }
        }
    }
    Ok(())
}

impl ConfigDoc {
    /// The checks `config set` applies before writing: credentials present and
    /// well-formed, and the API limits (when given as integers) at least 1.
    pub fn validate(&self) -> (r: Result<(), String>)
        ensures
            match doc_violation(*self) {
                None => r is Ok,
                Some(msg) => r matches Err(m) && m@ == msg,
            },
    {
        let creds = match &self.credentials {
            Some(Section::Table(t)) => t,
            _ => {
                return Err("[credentials] section is required".to_owned());
            },
        };
        let uid = match creds.get("user_id") {
            Some(TomlValue::Text(u)) => u.as_str(),
            _ => {
                return Err("credentials.user_id is required".to_owned());
            },
        };
        if !crate::config::ends_with_u01(uid) {
            let mut m = "credentials.user_id must end with 'U01' (case-insensitive); got ".to_owned();
            m.append(debug_string(uid).as_str());
            return Err(m);
        }
        if uid.as_bytes().len() > 10 || !crate::config::is_alphanumeric_ascii(uid) {
            return Err("credentials.user_id must be <= 10 alphanumeric ASCII chars".to_owned());
        }
        let pw = match creds.get("password") {
            Some(TomlValue::Text(p)) => p.as_str(),
            _ => {
                return Err("credentials.password is required".to_owned());
            },
        };
        let pw_len = crate::text::chars_of(pw).len();
        if !(6 <= pw_len && pw_len <= 20) {
            return Err("credentials.password must be between 6 and 20 characters".to_owned());
        }
        check_api(&self.api)
    }
}

/// How a value is written back: strings in Rust's quoted form, integers and
/// booleans plainly, other values as held.
pub open spec fn value_text(v: TomlValue) -> Seq<char> {
    match v {
        TomlValue::Text(s) => debug_quoted(s@),
        TomlValue::Integer(i) => signed_decimal(i as int),
        TomlValue::Boolean(b) => if b {
            "true"@
        } else {
            "false"@
        },
        TomlValue::Other(t) => t@,
    }
}

fn toml_value_display(v: &TomlValue) -> (r: String)
    ensures
        r@ == value_text(*v),
{
    match v {
        TomlValue::Text(s) => debug_string(s.as_str()),
        TomlValue::Integer(i) => i64_to_string(*i),
        TomlValue::Boolean(b) => if *b {
            "true".to_owned()
        } else {
            "false".to_owned()
        },
        TomlValue::Other(t) => t.as_str().to_owned(),
    }
}

/// One `key = value` line per entry, in order.
pub open spec fn table_text(e: Seq<(String, TomlValue)>) -> Seq<char>
    decreases e.len(),
{
    if e.len() == 0 {
        seq![]
    } else {
        table_text(e.drop_last()) + e.last().0@ + " = "@ + value_text(e.last().1) + "\n"@
    }
}

/// The written text of an `[api]` key, or `default` when the key is absent.
pub open spec fn api_value_text(api: Option<Section>, key: Seq<char>, default: Seq<char>) -> Seq<
    char,
> {
    match lookup(section_entries(api), key) {
        Some(v) => value_text(v),
        None => default,
    }
}

/// The file `config set` writes.
pub open spec fn doc_text(d: ConfigDoc) -> Seq<char> {
    "# ILSmart CLI configuration\n"@
        + "# Generated by `ils config set`. Free-form edits are preserved on load\n"@
        + "# but will be rewritten (without comments) on the next `config set`.\n"@ + "\n"@ + (
    match d.credentials {
        Some(_) => "[credentials]\n"@ + table_text(section_entries(d.credentials)) + "\n"@,
        None => seq![],
    }) + "[api]\n"@ + "endpoint = "@ + api_value_text(
        d.api,
        "endpoint"@,
        debug_quoted(DEFAULT_ENDPOINT@),
    ) + "\n"@ + "concurrency = "@ + api_value_text(
        d.api,
        "concurrency"@,
        signed_decimal(DEFAULT_CONCURRENCY as int),
    ) + "\n"@ + "timeout_secs = "@ + api_value_text(
        d.api,
        "timeout_secs"@,
        signed_decimal(DEFAULT_TIMEOUT_SECS as int),
    ) + "\n"@
}

fn append_table(out: &mut String, table: &TomlTable)
    ensures
        final(out)@ == old(out)@ + table_text(table.entries()),
{
    let n = table.len();
    let mut i: usize = 0;
    while i < n
        invariant
            n == table.entries().len(),
            i <= n,
            out@ == old(out)@ + table_text(table.entries().take(i as int)),
        decreases n - i,
    {
        let (k, v) = table.entry(i);
        assert(table.entries().take(i + 1).drop_last() =~= table.entries().take(i as int));
        out.append(k.as_str());
        out.append(" = ");
        out.append(toml_value_display(v).as_str());
        out.append("\n");
        i = i + 1;
    }
    assert(table.entries().take(n as int) =~= table.entries());
}

/// The written text of an `[api]` key, or of its default.
fn api_value_display(api: &Option<Section>, key: &str, default: TomlValue) -> (r: String)
    ensures
        r@ == api_value_text(*api, key@, value_text(default)),
{
    match api {
        Some(Section::Table(t)) => match t.get(key) {
            Some(v) => toml_value_display(v),
            None => toml_value_display(&default),
        },
        _ => {
            proof {
                crate::toml_doc::lemma_lookup_absent(section_entries(*api), key@);
            }
            toml_value_display(&default)
        },
    }
}

impl ConfigDoc {
    /// Renders the document: a comment header, the `[credentials]` table (when the
    /// document has that entry), and the `[api]` table with defaults filled in.
    pub fn to_toml_string(&self) -> (r: String)
        ensures
            r@ == doc_text(*self),
    {
        let mut out = String::new();
        out.append("# ILSmart CLI configuration\n");
        out.append("# Generated by `ils config set`. Free-form edits are preserved on load\n");
        out.append("# but will be rewritten (without comments) on the next `config set`.\n");
        out.append("\n");
        match &self.credentials {
            Some(sec) => {
                out.append("[credentials]\n");
                match sec {
                    Section::Table(t) => append_table(&mut out, t),
                    Section::NotTable => {},
                }
                out.append("\n");
            },
            None => {},
        }
        out.append("[api]\n");
        out.append("endpoint = ");
        out.append(
            api_value_display(&self.api, "endpoint", TomlValue::Text(DEFAULT_ENDPOINT.to_owned())).as_str(),
        );
        out.append("\n");
        out.append("concurrency = ");
        out.append(api_value_display(&self.api, "concurrency", TomlValue::Integer(4)).as_str());
        out.append("\n");
        out.append("timeout_secs = ");
        out.append(api_value_display(&self.api, "timeout_secs", TomlValue::Integer(30)).as_str());
        out.append("\n");
        out
    }
}

/// The value a section holds under `k` after an optional update.
pub open spec fn updated(old: Option<Section>, k: Seq<char>, v: Option<TomlValue>) -> Option<TomlValue> {
    match v {
        Some(x) => Some(x),
        None => lookup(section_entries(old), k),
    }
}

impl ConfigDoc {
    /// Applies `config set`: each given value is stored in its section (which
    /// becomes a table); `password` is the password from the flag or from stdin.
    pub fn apply(&mut self, set: ConfigSetArgs, password: Option<String>)
        ensures
            lookup(section_entries(final(self).credentials), "user_id"@) == updated(
                old(self).credentials,
                "user_id"@,
                match set.user_id {
                    Some(u) => Some(TomlValue::Text(u)),
                    None => None,
                },
            ),
            lookup(section_entries(final(self).credentials), "password"@) == updated(
                old(self).credentials,
                "password"@,
                match password {
                    Some(p) => Some(TomlValue::Text(p)),
                    None => None,
                },
            ),
            forall|k: Seq<char>|
                k != "user_id"@ && k != "password"@ ==> #[trigger] lookup(
                    section_entries(final(self).credentials),
                    k,
                ) == lookup(section_entries(old(self).credentials), k),
            set.user_id is None && password is None ==> final(self).credentials == old(
                self,
            ).credentials,
            set.user_id is Some || password is Some ==> (final(self).credentials matches Some(
                Section::Table(_),
            ) && keys_sorted(section_entries(final(self).credentials))),
            lookup(section_entries(final(self).api), "endpoint"@) == updated(
                old(self).api,
                "endpoint"@,
                match set.endpoint {
                    Some(e) => Some(TomlValue::Text(e)),
                    None => None,
                },
            ),
            lookup(section_entries(final(self).api), "concurrency"@) == updated(
                old(self).api,
                "concurrency"@,
                match set.concurrency {
                    Some(c) => Some(TomlValue::Integer(wrapped_i64(c as int) as i64)),
                    None => None,
                },
            ),
            lookup(section_entries(final(self).api), "timeout_secs"@) == updated(
                old(self).api,
                "timeout_secs"@,
                match set.timeout_secs {
                    Some(t) => Some(TomlValue::Integer(wrapped_i64(t as int) as i64)),
                    None => None,
                },
            ),
            forall|k: Seq<char>|
                k != "endpoint"@ && k != "concurrency"@ && k != "timeout_secs"@ ==> #[trigger] lookup(
                    section_entries(final(self).api),
                    k,
                ) == lookup(section_entries(old(self).api), k),
            set.endpoint is None && set.concurrency is None && set.timeout_secs is None
                ==> final(self).api == old(self).api,
            set.endpoint is Some || set.concurrency is Some || set.timeout_secs is Some
                ==> (final(self).api matches Some(Section::Table(_)) && keys_sorted(
                section_entries(final(self).api),
            )),
    {
        proof {
            reveal_strlit("user_id");
            reveal_strlit("password");
            reveal_strlit("endpoint");
            reveal_strlit("concurrency");
            reveal_strlit("timeout_secs");
        }
        let ghost c0 = self.credentials;
        let ghost a0 = self.api;
        assert("user_id"@.len() != "password"@.len());
        assert("endpoint"@.len() != "concurrency"@.len());
        assert("endpoint"@.len() != "timeout_secs"@.len());
        assert("concurrency"@.len() != "timeout_secs"@.len());
        match set.user_id {
            Some(uid) => self.set_credentials_user_id(uid),
            None => {},
        }
        let ghost c1 = self.credentials;
        match password {
            Some(pw) => self.set_credentials_password(pw),
            None => {},
        }
        assert(self.api == a0);
        match set.endpoint {
            Some(ep) => self.set_api_endpoint(ep),
            None => {},
        }
        match set.concurrency {
            Some(c) => self.set_api_concurrency(c),
            None => {},
        }
        match set.timeout_secs {
            Some(t) => self.set_api_timeout_secs(t),
            None => {},
        }
    }
}

/// The line read for `--password-stdin` without its trailing `\n`/`\r` characters.
pub open spec fn strip_line_end(s: Seq<char>) -> Seq<char>
    decreases s.len(),
{
    if s.len() > 0 && (s.last() == '\n' || s.last() == '\r') {
        strip_line_end(s.drop_last())
    } else {
        s
    }
}

/// The password from one line of stdin; an empty password is refused.
pub fn password_from_line(line: &str) -> (r: Result<String, String>)
    ensures
        strip_line_end(line@).len() > 0 ==> (r matches Ok(p) && p@ == strip_line_end(line@)),
        strip_line_end(line@).len() == 0 ==> (r matches Err(m) && m@
            == "empty password on stdin"@),
{
    let v = crate::text::chars_of(line);
    let mut n = v.len();
    assert(v@.take(n as int) =~= v@);
    while n > 0 && (v[n - 1] == '\n' || v[n - 1] == '\r')
        invariant
            n <= v.len(),
            v@ == line@,
            strip_line_end(line@) == strip_line_end(v@.take(n as int)),
        decreases n,
    {
        assert(v@.take(n as int).drop_last() =~= v@.take(n - 1));
        n = n - 1;
    }
    assert(strip_line_end(v@.take(n as int)) == v@.take(n as int));
    if n == 0 {
        return Err("empty password on stdin".to_owned());
    }
    let p = crate::text::string_of(&v, 0, n);
    assert(v@.subrange(0, n as int) =~= v@.take(n as int));
    Ok(p)
}

/// `$HOME/.config/nsnfind/config.toml`, when `$HOME` is set.
pub fn default_user_config_path(home: &Option<String>) -> (r: Option<String>)
    ensures
        match *home {
            Some(h) => r matches Some(p) && p@ == join_path(h@, USER_CONFIG_SUFFIX@),
            None => r is None,
        },
{
    match home {
        Some(h) => Some(user_config_path(h.as_str())),
        None => None,
    }
}

pub open spec fn no_config_path_message() -> Seq<char> {
    "cannot determine config path; set $HOME or pass --config"@
}

/// Where `config set` writes: `--config`, then `$NSNFIND_CONFIG`, then an existing
/// `./nsnfind.toml`, then the per-user file (whether or not it exists yet).
pub open spec fn write_target(loc: ConfigLocations) -> Option<Seq<char>> {
    match loc.explicit {
        Some(p) => Some(p@),
        None => match nonempty(loc.env_config) {
            Some(e) => Some(e),
            None => if loc.local_exists {
                Some(LOCAL_CONFIG_FILE@)
            } else {
                match loc.home {
                    Some(h) => Some(join_path(h@, USER_CONFIG_SUFFIX@)),
                    None => None,
                }
            },
        },
    }
}

/// `config set` writes where it was told to: the `--config` path when one is
/// given, else a non-empty `$NSNFIND_CONFIG`; and whenever a config file would be
/// read, it writes that same file.
pub proof fn lemma_write_target_follows_choice(loc: ConfigLocations)
    ensures
        match loc.explicit {
            Some(p) => write_target(loc) == Some(p@),
            None => match loc.env_config {
                Some(e) => e@.len() > 0 ==> write_target(loc) == Some(e@),
                None => true,
            },
        },
        match resolved_config_path(loc) {
            Some(p) => write_target(loc) == Some(p),
            None => true,
        },
{
}

pub fn resolve_write_target(loc: &ConfigLocations) -> (r: Result<String, String>)
    ensures
        match write_target(*loc) {
            Some(p) => r matches Ok(s) && s@ == p,
            None => r matches Err(m) && m@ == no_config_path_message(),
        },
{
    if let Some(p) = &loc.explicit {
        return Ok(p.as_str().to_owned());
    }
    if let Some(e) = &loc.env_config {
        if !e.as_str().is_empty() {
            return Ok(e.as_str().to_owned());
        }
    }
    if loc.local_exists {
        return Ok(LOCAL_CONFIG_FILE.to_owned());
    }
    match default_user_config_path(&loc.home) {
        Some(p) => Ok(p),
        None => Err("cannot determine config path; set $HOME or pass --config".to_owned()),
    }
}

/// The path `config path` prints: the file that would be read, else the per-user
/// location.
pub open spec fn shown_config_path(loc: ConfigLocations) -> Option<Seq<char>> {
    match resolved_config_path(loc) {
        Some(p) => Some(p),
        None => match loc.home {
            Some(h) => Some(join_path(h@, USER_CONFIG_SUFFIX@)),
            None => None,
        },
    }
}

pub fn config_path_to_show(loc: &ConfigLocations) -> (r: Result<String, String>)
    ensures
        match shown_config_path(*loc) {
            Some(p) => r matches Ok(s) && s@ == p,
            None => r matches Err(m) && m@ == no_config_path_message(),
        },
{
    match Config::resolve_existing(loc) {
        Some(p) => Ok(p),
        None => match default_user_config_path(&loc.home) {
            Some(p) => Ok(p),
            None => Err("cannot determine config path; set $HOME or pass --config".to_owned()),
        },
    }
}

/// What `config show` prints (the password is never shown).
pub open spec fn config_show_text(c: Config) -> Seq<char> {
    "# config: "@ + (match c.source {
        Some(p) => p@,
        None => "<memory>"@,
    }) + "\n"@ + "[credentials]\n"@ + "user_id = "@ + debug_quoted(c.credentials.user_id@) + "\n"@
        + "password = \"<redacted>\"\n"@ + "\n"@ + "[api]\n"@ + "endpoint = "@ + debug_quoted(
        c.api.endpoint@,
    ) + "\n"@ + "concurrency = "@ + decimal(c.api.concurrency as nat) + "\n"@ + "timeout_secs = "@
        + decimal(c.api.timeout_secs as nat) + "\n"@
}

pub fn render_config_show(c: &Config) -> (r: String)
    ensures
        r@ == config_show_text(*c),
{
    let mut out = "# config: ".to_owned();
    match &c.source {
        Some(p) => out.append(p.as_str()),
        None => out.append("<memory>"),
    }
    out.append("\n");
    out.append("[credentials]\n");
    out.append("user_id = ");
    out.append(debug_string(c.credentials.user_id.as_str()).as_str());
    out.append("\n");
    out.append("password = \"<redacted>\"\n");
    out.append("\n");
    out.append("[api]\n");
    out.append("endpoint = ");
    out.append(debug_string(c.api.endpoint.as_str()).as_str());
    out.append("\n");
    out.append("concurrency = ");
    out.append(usize_to_string(c.api.concurrency).as_str());
    out.append("\n");
    out.append("timeout_secs = ");
    out.append(u64_to_string(c.api.timeout_secs).as_str());
    out.append("\n");
    out
}

/// How many entries parsed and how many did not.
pub open spec fn tally(entries: Seq<InputEntry>) -> (nat, nat)
    decreases entries.len(),
{
    if entries.len() == 0 {
        (0, 0)
    } else {
        let (v, i) = tally(entries.drop_last());
        if entries.last().parsed is Ok {
            (v + 1, i)
        } else {
            (v, i + 1)
        }
    }
}

pub proof fn lemma_tally_total(entries: Seq<InputEntry>)
    ensures
        tally(entries).0 + tally(entries).1 == entries.len(),
    decreases entries.len(),
{
    if entries.len() > 0 {
        lemma_tally_total(entries.drop_last());
    }
}

/// Counts the valid and invalid entries; a list without entries is refused.
pub fn check_entries(entries: &Vec<InputEntry>) -> (r: Result<(usize, usize), String>)
    ensures
        entries@.len() == 0 ==> (r matches Err(m) && m@
            == "input file contains no NSNs (after stripping blanks and comments)"@),
        entries@.len() > 0 ==> (r matches Ok((v, i)) && v == tally(entries@).0 && i == tally(
            entries@,
        ).1),
{
    if entries.len() == 0 {
        return Err("input file contains no NSNs (after stripping blanks and comments)".to_owned());
    }
    let mut valid: usize = 0;
    let mut invalid: usize = 0;
    let mut k: usize = 0;
    while k < entries.len()
        invariant
            k <= entries@.len(),
            (valid as nat, invalid as nat) == tally(entries@.take(k as int)),
        decreases entries@.len() - k,
    {
        assert(entries@.take(k + 1).drop_last() =~= entries@.take(k as int));
        proof {
            lemma_tally_total(entries@.take(k as int));
        }
        if entries[k].parsed.is_ok() {
            valid = valid + 1;
        } else {
            invalid = invalid + 1;
        }
        k = k + 1;
    }
    assert(entries@.take(entries@.len() as int) =~= entries@);
    Ok((valid, invalid))
}

impl ConfigDoc {
    /// The text `config set` writes, or the reason the document is refused.
    pub fn checked_toml_text(&self) -> (r: Result<String, String>)
        ensures
            match doc_violation(*self) {
                None => r matches Ok(text) && text@ == doc_text(*self),
                Some(msg) => r matches Err(m) && m@ == msg,
            },
    {
        match self.validate() {
            Ok(()) => Ok(self.to_toml_string()),
            Err(m) => Err(m),
        }
    }
}

/// What `config show` prints does not depend on the password.
pub proof fn lemma_show_hides_password(a: Config, b: Config)
    requires
        a.source == b.source,
        a.credentials.user_id@ == b.credentials.user_id@,
        a.api.endpoint@ == b.api.endpoint@,
        a.api.concurrency == b.api.concurrency,
        a.api.timeout_secs == b.api.timeout_secs,
    ensures
        config_show_text(a) == config_show_text(b),
{
}

/// `config set` refuses exactly the settings that loading refuses: for a document
/// holding a configuration's credentials as strings and its limits as integers,
/// the document passes its checks if and only if the configuration passes its own.
pub proof fn lemma_doc_and_config_checks_agree(d: ConfigDoc, c: Config)
    requires
        d.credentials matches Some(Section::Table(t)) && (lookup(t.entries(), "user_id"@) matches Some(
            TomlValue::Text(u),
        ) && u@ == c.credentials.user_id@) && (lookup(t.entries(), "password"@) matches Some(
            TomlValue::Text(p),
        ) && p@ == c.credentials.password@),
        d.api matches Some(Section::Table(a)) && (lookup(a.entries(), "concurrency"@) matches Some(
            TomlValue::Integer(x),
        ) && x == c.api.concurrency) && (lookup(a.entries(), "timeout_secs"@) matches Some(
            TomlValue::Integer(y),
        ) && y == c.api.timeout_secs),
    ensures
        doc_violation(d) is None <==> crate::config::config_violation(c) is None,
{
}

} // verus!
