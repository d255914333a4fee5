//! Configuration: credentials and API settings, their validation, and where the
//! config file is looked for.

use vstd::prelude::*;
use vstd::utf8::encode_utf8;

use crate::text::{ascii_upper, chars_of, debug_quoted, debug_string, decimal, push_char, usize_to_string, u64_to_string};

verus! {

pub const DEFAULT_ENDPOINT: &'static str = "https://secure.ilsmart.com/services/v2/soap11";

pub const DEFAULT_CONCURRENCY: usize = 4;

pub const DEFAULT_TIMEOUT_SECS: u64 = 30;

/// The name of the config file looked for in the working directory.
pub const LOCAL_CONFIG_FILE: &'static str = "nsnfind.toml";

/// Where the per-user config file lives, relative to `$HOME`.
pub const USER_CONFIG_SUFFIX: &'static str = ".config/nsnfind/config.toml";

pub struct Config {
    pub credentials: Credentials,
    pub api: ApiConfig,
    /// The file the configuration was read from, if any.
    pub source: Option<String>,
}

pub struct Credentials {
    pub user_id: String,
    pub password: String,
}

#[derive(Debug)]
pub struct ApiConfig {
    pub endpoint: String,
    pub concurrency: usize,
    pub timeout_secs: u64,
}

fn default_endpoint() -> (r: String)
    ensures
        r@ == DEFAULT_ENDPOINT@,
{
    DEFAULT_ENDPOINT.to_owned()
}

fn default_concurrency() -> (r: usize)
    ensures
        r == DEFAULT_CONCURRENCY,
{
    DEFAULT_CONCURRENCY
}

fn default_timeout() -> (r: u64)
    ensures
        r == DEFAULT_TIMEOUT_SECS,
{
    DEFAULT_TIMEOUT_SECS
}

impl Default for ApiConfig {
    fn default() -> (r: Self)
        ensures
            r.endpoint@ == DEFAULT_ENDPOINT@,
            r.concurrency == DEFAULT_CONCURRENCY,
            r.timeout_secs == DEFAULT_TIMEOUT_SECS,
    {
        ApiConfig {
            endpoint: default_endpoint(),
            concurrency: default_concurrency(),
            timeout_secs: default_timeout(),
        }
    }
}

/// Ends in `U01`, the `U` in either case.
pub open spec fn has_u01_suffix(u: Seq<char>) -> bool {
    let n = u.len();
    &&& n >= 3
    &&& ascii_upper(u[n - 3]) == 'U'
    &&& u[n - 2] == '0'
    &&& u[n - 1] == '1'
}

/// Whether a user id carries the mandatory `U01` suffix (case-insensitive).
pub fn ends_with_u01(u: &str) -> (r: bool)
    ensures
        r == has_u01_suffix(u@),
{
    let v = chars_of(u);
    let n = v.len();
    n >= 3 && crate::text::to_ascii_upper(v[n - 3]) == 'U' && v[n - 2] == '0' && v[n - 1] == '1'
}

pub open spec fn is_ascii_alphanumeric(c: char) -> bool {
    ('0' <= c && c <= '9') || ('a' <= c && c <= 'z') || ('A' <= c && c <= 'Z')
}

pub open spec fn all_ascii_alphanumeric(s: Seq<char>) -> bool {
    forall|i: int| 0 <= i < s.len() ==> is_ascii_alphanumeric(#[trigger] s[i])
}

/// Whether every character is an ASCII letter or digit.
pub fn is_alphanumeric_ascii(u: &str) -> (r: bool)
    ensures
        r == all_ascii_alphanumeric(u@),
{
    let v = chars_of(u);
    let mut i: usize = 0;
    while i < v.len()
        invariant
            v@ == u@,
            i <= v.len(),
            forall|k: int| 0 <= k < i ==> is_ascii_alphanumeric(#[trigger] v@[k]),
        decreases v.len() - i,
    {
        let c = v[i];
        if !(('0' <= c && c <= '9') || ('a' <= c && c <= 'z') || ('A' <= c && c <= 'Z')) {
            return false;
        }
        i = i + 1;
    }
    true
}

/// Length of a string in UTF-8 bytes (`str::len`).
pub open spec fn byte_len(s: Seq<char>) -> nat {
    encode_utf8(s).len()
}

/// The first constraint a configuration breaks, as the message reported for it.
pub open spec fn config_violation(c: Config) -> Option<Seq<char>> {
    let u = c.credentials.user_id@;
    let p = c.credentials.password@;
    if !has_u01_suffix(u) {
        Some("credentials.user_id must end with 'U01' (got "@ + debug_quoted(u) + ")"@)
    } else if byte_len(u) > 10 {
        Some("credentials.user_id must be at most 10 characters (got "@ + decimal(byte_len(u))
            + ")"@)
    } else if !all_ascii_alphanumeric(u) {
        Some("credentials.user_id must be alphanumeric ASCII"@)
    } else if !(6 <= p.len() <= 20) {
        Some("credentials.password must be between 6 and 20 characters (got "@ + decimal(p.len())
            + ")"@)
    } else if c.api.concurrency == 0 {
        Some("api.concurrency must be >= 1"@)
    } else if c.api.timeout_secs == 0 {
        Some("api.timeout_secs must be >= 1"@)
    } else {
        None
    }
}

impl Config {
    /// Credential and API constraints: `user_id` ends in `U01` (case-insensitive),
    /// is at most 10 bytes and ASCII alphanumeric; the password has 6 to 20
    /// characters; concurrency and timeout are at least 1.
    pub fn validate(&self) -> (r: Result<(), String>)
        ensures
            match config_violation(*self) {
                None => r is Ok,
                Some(msg) => r matches Err(m) && m@ == msg,
            },
    {
        let u = self.credentials.user_id.as_str();
        if !ends_with_u01(u) {
            let mut m = "credentials.user_id must end with 'U01' (got ".to_owned();
            m.append(debug_string(u).as_str());
            m.append(")");
            return Err(m);
        }
        let u_len = u.as_bytes().len();
        if u_len > 10 {
            let mut m = "credentials.user_id must be at most 10 characters (got ".to_owned();
            m.append(usize_to_string(u_len).as_str());
            m.append(")");
            return Err(m);
        }
        if !is_alphanumeric_ascii(u) {
            return Err("credentials.user_id must be alphanumeric ASCII".to_owned());
        }
        let p_len = chars_of(self.credentials.password.as_str()).len();
        if !(6 <= p_len && p_len <= 20) {
            let mut m = "credentials.password must be between 6 and 20 characters (got ".to_owned();
            m.append(usize_to_string(p_len).as_str());
            m.append(")");
            return Err(m);
        }
        if self.api.concurrency == 0 {
            return Err("api.concurrency must be >= 1".to_owned());
        }
        if self.api.timeout_secs == 0 {
            return Err("api.timeout_secs must be >= 1".to_owned());
        }
        Ok(())
    }
}

/// `Debug` rendering of credentials with the password redacted.
pub open spec fn credentials_debug(c: Credentials) -> Seq<char> {
    "Credentials { user_id: "@ + debug_quoted(c.user_id@) + ", password: \"<redacted>\" }"@
}

impl Credentials {
    /// The `Debug` text of the credentials; the password never appears in it.
    pub fn debug_text(&self) -> (r: String)
        ensures
            r@ == credentials_debug(*self),
    {
        let mut r = "Credentials { user_id: ".to_owned();
        r.append(debug_string(self.user_id.as_str()).as_str());
        r.append(", password: \"<redacted>\" }");
        r
    }
}

/// What the environment says about the candidate config locations, gathered by the
/// caller: the `--config` argument, `$NSNFIND_CONFIG`, whether `./nsnfind.toml`
/// is a file, `$HOME`, and whether the per-user config file is a file.
pub struct ConfigLocations {
    pub explicit: Option<String>,
    pub env_config: Option<String>,
    pub local_exists: bool,
    pub home: Option<String>,
    pub user_config_exists: bool,
}

/// `PathBuf::join` of a relative path on Unix: a separator is added unless the base
/// is empty or already ends in one.
pub open spec fn join_path(base: Seq<char>, rel: Seq<char>) -> Seq<char> {
    if base.len() == 0 {
        rel
    } else if base.last() == '/' {
        base + rel
    } else {
        base + seq!['/'] + rel
    }
}

/// `$HOME/.config/nsnfind/config.toml`.
pub fn user_config_path(home: &str) -> (r: String)
    ensures
        r@ == join_path(home@, USER_CONFIG_SUFFIX@),
{
    let v = chars_of(home);
    let mut r = home.to_owned();
    if v.len() > 0 && v[v.len() - 1] != '/' {
        push_char(&mut r, '/');
    }
    r.append(USER_CONFIG_SUFFIX);
    proof {
        if v.len() == 0 {
            assert(r@ =~= USER_CONFIG_SUFFIX@);
        }
    }
    r
}

/// The environment variable's value, when it is set and not empty.
pub open spec fn nonempty(v: Option<String>) -> Option<Seq<char>> {
    match v {
        Some(s) => if s@.len() > 0 {
            Some(s@)
        } else {
            None
        },
        None => None,
    }
}

/// The config file to read: `--config`, then `$NSNFIND_CONFIG`, then
/// `./nsnfind.toml` if it exists, then the per-user file if it exists.
pub open spec fn resolved_config_path(loc: ConfigLocations) -> Option<Seq<char>> {
    match loc.explicit {
        Some(p) => Some(p@),
        None => match nonempty(loc.env_config) {
            Some(e) => Some(e),
            None => if loc.local_exists {
                Some(LOCAL_CONFIG_FILE@)
            } else {
                match loc.home {
                    Some(h) => if loc.user_config_exists {
                        Some(join_path(h@, USER_CONFIG_SUFFIX@))
                    } else {
                        None
                    },
                    None => None,
                }
            },
        },
    }
}

fn clone_text(s: &String) -> (r: String)
    ensures
        r@ == s@,
{
    s.as_str().to_owned()
}

/// The non-empty value of an optional string, copied.
fn nonempty_value(v: &Option<String>) -> (r: Option<String>)
    ensures
        match nonempty(*v) {
            Some(s) => r matches Some(t) && t@ == s,
            None => r is None,
        },
{
    match v {
        Some(s) => {
            if s.as_str().is_empty() {
                None
            } else {
                Some(clone_text(s))
            }
        },
        None => None,
    }
}

impl Config {
    /// The config file that would be read, if any.
    pub fn resolve_existing(loc: &ConfigLocations) -> (r: Option<String>)
        ensures
            match resolved_config_path(*loc) {
                Some(p) => r matches Some(s) && s@ == p,
                None => r is None,
            },
    {
        if let Some(p) = &loc.explicit {
            return Some(clone_text(p));
        }
        if let Some(p) = nonempty_value(&loc.env_config) {
            return Some(p);
        }
        if loc.local_exists {
            return Some(LOCAL_CONFIG_FILE.to_owned());
        }
        if let Some(home) = &loc.home {
            if loc.user_config_exists {
                return Some(user_config_path(home.as_str()));
            }
        }
        None
    }
}

/// The `Debug` text of credentials does not depend on the password.
pub proof fn lemma_debug_hides_password(a: Credentials, b: Credentials)
    requires
        a.user_id@ == b.user_id@,
    ensures
        credentials_debug(a) == credentials_debug(b),
{
}

} // verus!
