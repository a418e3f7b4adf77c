//! Console configuration: which values are required, their defaults, and
//! the rules each one must meet. Reading the environment is left to the
//! caller.
use vstd::prelude::*;

use crate::fofa::validator::{mode_of_host, ApiMode};
use crate::text::{
    ascii_lowercase, ascii_lowercase_chars, chars_of, chars_eq, is_control, is_unicode_control,
    string_from_chars, trim_bounds, trim_string, trimmed, utf8_len, utf8_len_exceeds,
};
use crate::urls::{parse_url, parsed_url, url_host};

verus! {

pub const MAX_CONCURRENT_JOBS: usize = 1;

pub const MAX_BATCHES_PER_JOB: usize = 1000;

pub const DEFAULT_WEB_BIND_ADDRESS: &'static str = "127.0.0.1:3000";

pub const DEFAULT_DATABASE_PATH: &'static str = "data";

pub const DEFAULT_WEB_ADMIN_USERNAME: &'static str = "admin";

pub const DEFAULT_FOFA_API_BASE_URL: &'static str = "https://fofa.info";

pub const MIN_WEB_ADMIN_PASSWORD_LENGTH: usize = 8;

#[derive(Debug, PartialEq, Eq)]
pub enum ConfigError {
    Missing(&'static str),
    InvalidBoolean(&'static str),
    InvalidBaseUrl,
    RelayQuotaBaseUrl,
    InvalidWebBindAddress,
    InvalidAdminUsername,
    WeakAdminPassword(usize),
    InvalidDatabasePath,
}

pub enum ConfigErrorView {
    Missing(Seq<char>),
    InvalidBoolean(Seq<char>),
    InvalidBaseUrl,
    RelayQuotaBaseUrl,
    InvalidWebBindAddress,
    InvalidAdminUsername,
    WeakAdminPassword(usize),
    InvalidDatabasePath,
}

impl View for ConfigError {
    type V = ConfigErrorView;

    open spec fn view(&self) -> ConfigErrorView {
        match self {
            ConfigError::Missing(n) => ConfigErrorView::Missing(n@),
            ConfigError::InvalidBoolean(n) => ConfigErrorView::InvalidBoolean(n@),
            ConfigError::InvalidBaseUrl => ConfigErrorView::InvalidBaseUrl,
            ConfigError::RelayQuotaBaseUrl => ConfigErrorView::RelayQuotaBaseUrl,
            ConfigError::InvalidWebBindAddress => ConfigErrorView::InvalidWebBindAddress,
            ConfigError::InvalidAdminUsername => ConfigErrorView::InvalidAdminUsername,
            ConfigError::WeakAdminPassword(n) => ConfigErrorView::WeakAdminPassword(*n),
            ConfigError::InvalidDatabasePath => ConfigErrorView::InvalidDatabasePath,
        }
    }
}

impl ConfigError {
    /// The message shown for the error.
    pub fn message(&self) -> (s: String)
        ensures
            s@ == config_error_message(self@),
    {
        let mut s = String::new();
        match self {
            ConfigError::Missing(name) => {
                crate::text::push_str(&mut s, "缺少必填环境变量 ");
                crate::text::push_str(&mut s, name);
            },
            ConfigError::InvalidBoolean(name) => {
                crate::text::push_str(&mut s, "环境变量 ");
                crate::text::push_str(&mut s, name);
                crate::text::push_str(&mut s, " 必须是 true 或 false");
            },
            ConfigError::InvalidBaseUrl => crate::text::push_str(
                &mut s,
                "FOFA_API_BASE_URL 必须是无凭据、查询、片段和额外路径的 HTTPS 地址",
            ),
            ConfigError::RelayQuotaBaseUrl => crate::text::push_str(
                &mut s,
                "启用中转额度时，FOFA_API_BASE_URL 不能是官方 API 地址",
            ),
            ConfigError::InvalidWebBindAddress => crate::text::push_str(
                &mut s,
                "WEB_BIND_ADDRESS 不是有效的监听地址",
            ),
            ConfigError::InvalidAdminUsername => crate::text::push_str(
                &mut s,
                "WEB_ADMIN_USERNAME 必须是 1 到 64 个非控制字符",
            ),
            ConfigError::WeakAdminPassword(n) => {
                crate::text::push_str(&mut s, "WEB_ADMIN_PASSWORD 至少需要 ");
                crate::text::push_decimal(&mut s, *n as u64);
                crate::text::push_str(&mut s, " 个字符");
            },
            ConfigError::InvalidDatabasePath => crate::text::push_str(
                &mut s,
                "DATABASE_PATH 不能为空",
            ),
        }
        assert(s@ =~= config_error_message(self@));
        s
    }
}

pub open spec fn config_error_message(e: ConfigErrorView) -> Seq<char> {
    match e {
        ConfigErrorView::Missing(n) => "缺少必填环境变量 "@ + n,
        ConfigErrorView::InvalidBoolean(n) => "环境变量 "@ + n + " 必须是 true 或 false"@,
        ConfigErrorView::InvalidBaseUrl =>
            "FOFA_API_BASE_URL 必须是无凭据、查询、片段和额外路径的 HTTPS 地址"@,
        ConfigErrorView::RelayQuotaBaseUrl =>
            "启用中转额度时，FOFA_API_BASE_URL 不能是官方 API 地址"@,
        ConfigErrorView::InvalidWebBindAddress => "WEB_BIND_ADDRESS 不是有效的监听地址"@,
        ConfigErrorView::InvalidAdminUsername =>
            "WEB_ADMIN_USERNAME 必须是 1 到 64 个非控制字符"@,
        ConfigErrorView::WeakAdminPassword(n) => "WEB_ADMIN_PASSWORD 至少需要 "@
            + crate::text::decimal(n as nat) + " 个字符"@,
        ConfigErrorView::InvalidDatabasePath => "DATABASE_PATH 不能为空"@,
    }
}

/// The configuration values as read from the environment, unset ones as
/// `None`.
pub struct ConfigSource {
    pub fofa_api_key: Option<String>,
    pub fofa_api_base_url: Option<String>,
    pub fofa_relay_quota_enabled: Option<String>,
    pub web_bind_address: Option<String>,
    pub web_admin_username: Option<String>,
    pub web_admin_password: Option<String>,
    pub database_path: Option<String>,
}

/// A checked configuration. The base URL is written with an empty path.
pub struct Config {
    pub fofa_api_key: String,
    pub fofa_api_base_url: String,
    pub relay_quota_enabled: bool,
    pub web_bind_address: String,
    pub web_admin_username: String,
    pub web_admin_password: String,
    pub database_path: String,
}

pub open spec fn value_or(v: Option<String>, default: Seq<char>) -> Seq<char> {
    match v {
        Some(s) => s@,
        None => default,
    }
}

/// A required value: set, and not blank. The value is kept as given.
pub open spec fn required_value(v: Option<String>) -> Option<Seq<char>> {
    match v {
        Some(s) => if trimmed(s@).len() > 0 {
            Some(s@)
        } else {
            None
        },
        None => None,
    }
}

/// A boolean setting: `true`, `1`, `yes`, `on`, `false`, `0`, `no` or
/// `off`, ignoring surrounding whitespace and ASCII case.
pub open spec fn bool_value(text: Seq<char>) -> Option<bool> {
    let t = ascii_lowercase(trimmed(text));
    if t == "true"@ || t == "1"@ || t == "yes"@ || t == "on"@ {
        Some(true)
    } else if t == "false"@ || t == "0"@ || t == "no"@ || t == "off"@ {
        Some(false)
    } else {
        None
    }
}

/// The accepted spellings come in opposite pairs: `true`/`false`, `1`/`0`,
/// `yes`/`no` and `on`/`off`, the first of each pair reading as true and
/// the second as false, whatever the surrounding whitespace and the ASCII
/// case. Every other text is refused.
pub proof fn lemma_boolean_spellings(text: Seq<char>)
    ensures
        ({
            let t = ascii_lowercase(trimmed(text));
            &&& (t == "true"@ || t == "1"@ || t == "yes"@ || t == "on"@) ==> bool_value(text)
                == Some(true)
            &&& (t == "false"@ || t == "0"@ || t == "no"@ || t == "off"@) ==> bool_value(text)
                == Some(false)
            &&& bool_value(text) is Some ==> (t == "true"@ || t == "1"@ || t == "yes"@ || t
                == "on"@ || t == "false"@ || t == "0"@ || t == "no"@ || t == "off"@)
        }),
{
    reveal_strlit("true");
    reveal_strlit("1");
    reveal_strlit("yes");
    reveal_strlit("on");
    reveal_strlit("false");
    reveal_strlit("0");
    reveal_strlit("no");
    reveal_strlit("off");
    let t = ascii_lowercase(trimmed(text));
    let yes = t == "true"@ || t == "1"@ || t == "yes"@ || t == "on"@;
    if t == "false"@ || t == "0"@ || t == "no"@ || t == "off"@ {
        assert(t.len() == 5 ==> t[0] == 'f');
        assert(t.len() == 1 ==> t[0] == '0');
        assert(t.len() == 2 ==> t[0] == 'n');
        assert(t.len() == 3 ==> t[0] == 'o' && t[1] == 'f');
        assert(!yes);
    }
}

/// An HTTPS base URL without credentials, query, fragment or path, written
/// with an empty path.
pub open spec fn base_url_value(text: Seq<char>) -> Option<Seq<char>> {
    match parsed_url(text) {
        Some(p) => if p.scheme == "https"@ && p.host is Some && p.username.len() == 0
            && p.password is None && p.query is None && p.fragment is None && (p.path == ""@
            || p.path == "/"@) {
            Some(p.root)
        } else {
            None
        },
        None => None,
    }
}

/// An administrator name: one to 64 bytes after trimming, none of them a
/// control character.
pub open spec fn username_ok(name: Seq<char>) -> bool {
    &&& name.len() > 0
    &&& utf8_len(name) <= 64
    &&& forall|i: int| 0 <= i < name.len() ==> !is_unicode_control(#[trigger] name[i])
}

/// The bind address that is used: the configured one or the default.
pub open spec fn bind_address_text(source: ConfigSource) -> Seq<char> {
    value_or(source.web_bind_address, DEFAULT_WEB_BIND_ADDRESS@)
}

/// The outcome of reading a configuration. `bind_address_valid` says
/// whether `bind_address_text(source)` parses as a socket address.
pub open spec fn config_outcome(source: ConfigSource, bind_address_valid: bool) -> Result<
    (Seq<char>, Seq<char>, bool, Seq<char>, Seq<char>, Seq<char>),
    ConfigErrorView,
> {
    let key = required_value(source.fofa_api_key);
    let url = base_url_value(value_or(source.fofa_api_base_url, DEFAULT_FOFA_API_BASE_URL@));
    let relay = bool_value(value_or(source.fofa_relay_quota_enabled, "false"@));
    let username = trimmed(value_or(source.web_admin_username, DEFAULT_WEB_ADMIN_USERNAME@));
    let password = required_value(source.web_admin_password);
    let database = value_or(source.database_path, DEFAULT_DATABASE_PATH@);
    if key is None {
        Err(ConfigErrorView::Missing("FOFA_API_KEY"@))
    } else if url is None {
        Err(ConfigErrorView::InvalidBaseUrl)
    } else if relay is None {
        Err(ConfigErrorView::InvalidBoolean("FOFA_RELAY_QUOTA_ENABLED"@))
    } else if relay->0 && mode_of_host(url_host(url->0)) == ApiMode::Official {
        Err(ConfigErrorView::RelayQuotaBaseUrl)
    } else if !bind_address_valid {
        Err(ConfigErrorView::InvalidWebBindAddress)
    } else if !username_ok(username) {
        Err(ConfigErrorView::InvalidAdminUsername)
    } else if password is None {
        Err(ConfigErrorView::Missing("WEB_ADMIN_PASSWORD"@))
    } else if password->0.len() < MIN_WEB_ADMIN_PASSWORD_LENGTH {
        Err(ConfigErrorView::WeakAdminPassword(MIN_WEB_ADMIN_PASSWORD_LENGTH))
    } else if trimmed(database).len() == 0 {
        Err(ConfigErrorView::InvalidDatabasePath)
    } else {
        Ok(
            (
                key->0,
                url->0,
                relay->0,
                bind_address_text(source),
                username,
                database,
            ),
        )
    }
}

fn value_or_exec(v: &Option<String>, default: &str) -> (s: String)
    ensures
        s@ == value_or(*v, default@),
{
    match v {
        Some(s) => s.clone(),
        None => default.to_owned(),
    }
}

fn required(v: &Option<String>) -> (r: Option<String>)
    ensures
        crate::urls::opt_view(r) == required_value(*v),
{
    match v {
        Some(s) => {
            let c = chars_of(s.as_str());
            let (a, b) = trim_bounds(c.as_slice());
            if a < b {
                Some(s.clone())
            } else {
                None
            }
        },
        None => None,
    }
}

fn is_one_of(t: &[char], words: &[&str]) -> (b: bool)
    ensures
        b == exists|i: int| 0 <= i < words@.len() && t@ == #[trigger] words@[i]@,
{
    let mut i: usize = 0;
    while i < words.len()
        invariant
            i <= words@.len(),
            forall|k: int| 0 <= k < i ==> t@ != #[trigger] words@[k]@,
        decreases words@.len() - i,
    {
        let w = chars_of(words[i]);
        if chars_eq(t, w.as_slice()) {
            return true;
        }
        i += 1;
    }
    false
}

/// Reads a boolean setting.
pub fn parse_bool(name: &'static str, value: &str) -> (r: Result<bool, ConfigError>)
    ensures
        match bool_value(value@) {
            Some(b) => r == Ok::<bool, ConfigError>(b),
            None => r == Err::<bool, ConfigError>(ConfigError::InvalidBoolean(name)),
        },
{
    let v = chars_of(value);
    let (a, b) = trim_bounds(v.as_slice());
    let t = ascii_lowercase_chars(crate::text::slice_range(v.as_slice(), a, b));
    let yes: [&str; 4] = ["true", "1", "yes", "on"];
    let no: [&str; 4] = ["false", "0", "no", "off"];
    let y = is_one_of(t.as_slice(), yes.as_slice());
    let n = is_one_of(t.as_slice(), no.as_slice());
    proof {
        let tv = ascii_lowercase(trimmed(value@));
        assert(t@ == tv);
        if tv == "true"@ {
            assert(t@ == yes@[0]@);
        }
        if tv == "1"@ {
            assert(t@ == yes@[1]@);
        }
        if tv == "yes"@ {
            assert(t@ == yes@[2]@);
        }
        if tv == "on"@ {
            assert(t@ == yes@[3]@);
        }
        if tv == "false"@ {
            assert(t@ == no@[0]@);
        }
        if tv == "0"@ {
            assert(t@ == no@[1]@);
        }
        if tv == "no"@ {
            assert(t@ == no@[2]@);
        }
        if tv == "off"@ {
            assert(t@ == no@[3]@);
        }
    }
    if y {
        Ok(true)
    } else if n {
        Ok(false)
    } else {
        Err(ConfigError::InvalidBoolean(name))
    }
}

/// Checks the FOFA base URL and writes it with an empty path.
pub fn validate_base_url(value: &str) -> (r: Result<String, ConfigError>)
    ensures
        match base_url_value(value@) {
            Some(root) => r matches Ok(s) && s@ == root,
            None => r == Err::<String, ConfigError>(ConfigError::InvalidBaseUrl),
        },
{
    let p = match parse_url(value) {
        Some(p) => p,
        None => return Err(ConfigError::InvalidBaseUrl),
    };
    let path_ok = crate::text::str_eq(p.path.as_str(), "") || crate::text::str_eq(
        p.path.as_str(),
        "/",
    );
    if !crate::text::str_eq(p.scheme.as_str(), "https") || p.host.is_none() || !p.username.as_str().is_empty()
        || p.password.is_some() || p.query.is_some() || p.fragment.is_some() || !path_ok {
        return Err(ConfigError::InvalidBaseUrl);
    }
    Ok(p.root)
}

fn username_valid(name: &str) -> (b: bool)
    ensures
        b == username_ok(name@),
{
    let v = chars_of(name);
    if v.len() == 0 || utf8_len_exceeds(v.as_slice(), 64) {
        return false;
    }
    let mut i: usize = 0;
    while i < v.len()
        invariant
            i <= v@.len(),
            v@ == name@,
            forall|k: int| 0 <= k < i ==> !is_unicode_control(#[trigger] v@[k]),
        decreases v@.len() - i,
    {
        if is_control(v[i]) {
            return false;
        }
        i += 1;
    }
    true
}

/// The bind address that is used: the configured one or the default.
pub fn bind_address(source: &ConfigSource) -> (s: String)
    ensures
        s@ == bind_address_text(*source),
{
    value_or_exec(&source.web_bind_address, DEFAULT_WEB_BIND_ADDRESS)
}

impl Config {
    /// Checks a configuration, rule by rule in a fixed order; the first
    /// broken rule is the error. `bind_address_valid` says whether
    /// `bind_address(source)` parses as a socket address.
    pub fn from_source(source: &ConfigSource, bind_address_valid: bool) -> (r: Result<
        Config,
        ConfigError,
    >)
        ensures
            match config_outcome(*source, bind_address_valid) {
                Ok((key, url, relay, bind, user, database)) => r matches Ok(c) && c.fofa_api_key@
                    == key && c.fofa_api_base_url@ == url && c.relay_quota_enabled == relay
                    && c.web_bind_address@ == bind && c.web_admin_username@ == user
                    && c.web_admin_password@ == required_value(source.web_admin_password)->0
                    && c.database_path@ == database,
                Err(e) => r matches Err(x) && x@ == e,
            },
    {
        let key = match required(&source.fofa_api_key) {
            Some(k) => k,
            None => return Err(ConfigError::Missing("FOFA_API_KEY")),
        };
        let base = value_or_exec(&source.fofa_api_base_url, DEFAULT_FOFA_API_BASE_URL);
        let url = match validate_base_url(base.as_str()) {
            Ok(u) => u,
            Err(e) => return Err(e),
        };
        let relay_text = value_or_exec(&source.fofa_relay_quota_enabled, "false");
        let relay = match parse_bool("FOFA_RELAY_QUOTA_ENABLED", relay_text.as_str()) {
            Ok(b) => b,
            Err(e) => return Err(e),
        };
        if relay && ApiMode::from_base_url(url.as_str()) == ApiMode::Official {
            return Err(ConfigError::RelayQuotaBaseUrl);
        }
        if !bind_address_valid {
            return Err(ConfigError::InvalidWebBindAddress);
        }
        let bind = bind_address(source);
        let raw_name = value_or_exec(&source.web_admin_username, DEFAULT_WEB_ADMIN_USERNAME);
        let username = trim_string(raw_name.as_str());
        if !username_valid(username.as_str()) {
            return Err(ConfigError::InvalidAdminUsername);
        }
        let password = match required(&source.web_admin_password) {
            Some(p) => p,
            None => return Err(ConfigError::Missing("WEB_ADMIN_PASSWORD")),
        };
        if chars_of(password.as_str()).len() < MIN_WEB_ADMIN_PASSWORD_LENGTH {
            return Err(ConfigError::WeakAdminPassword(MIN_WEB_ADMIN_PASSWORD_LENGTH));
        }
        let database_path = value_or_exec(&source.database_path, DEFAULT_DATABASE_PATH);
        let dv = chars_of(database_path.as_str());
        let (a, b) = trim_bounds(dv.as_slice());
        if a == b {
            return Err(ConfigError::InvalidDatabasePath);
        }
        Ok(
            Config {
                fofa_api_key: key,
                fofa_api_base_url: url,
                relay_quota_enabled: relay,
                web_bind_address: bind,
                web_admin_username: username,
                web_admin_password: password,
                database_path,
            },
        )
    }
}

} // verus!
