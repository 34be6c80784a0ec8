//! The shop's configuration, out of environment variables.

use crate::text::{cut_at_either, has_char, join2, quoted, same, starts_with, strip_prefix, trim_end_slashes};
use vstd::prelude::*;
use vstd::string::*;

verus! {

/// How the shop runs.
pub struct AppConfig {
    pub stripe_api_key: String,
    pub stripe_webhook_secret: String,
    pub database_url: String,
    pub keys_dir: String,
    pub content_dir: String,
    pub base_url: String,
    pub bind_addr: String,
    pub trust_proxy: bool,
}

impl Clone for AppConfig {
    fn clone(&self) -> (r: AppConfig)
        ensures
            r == *self,
    {
        AppConfig {
            stripe_api_key: self.stripe_api_key.clone(),
            stripe_webhook_secret: self.stripe_webhook_secret.clone(),
            database_url: self.database_url.clone(),
            keys_dir: self.keys_dir.clone(),
            content_dir: self.content_dir.clone(),
            base_url: self.base_url.clone(),
            bind_addr: self.bind_addr.clone(),
            trust_proxy: self.trust_proxy,
        }
    }
}

/// The values of the environment variables that the configuration is made of.
pub struct Variables {
    pub stripe_api_key: Option<String>,
    pub stripe_webhook_secret: Option<String>,
    pub database_url: Option<String>,
    pub base_url: Option<String>,
    pub keys_dir: Option<String>,
    pub content_dir: Option<String>,
    pub bind_addr: Option<String>,
    pub trust_proxy: Option<String>,
}

/// What is wrong with the environment.
#[derive(Debug)]
pub enum ConfigError {
    /// A variable that must be set is not.
    Missing(String),
    /// `BASE_URL` has this value, which it may not have.
    BadBaseUrl(String),
}

/// The mathematical content of a [`ConfigError`].
pub enum ConfigErrorView {
    Missing(Seq<char>),
    BadBaseUrl(Seq<char>),
}

impl View for ConfigError {
    type V = ConfigErrorView;

    open spec fn view(&self) -> ConfigErrorView {
        match self {
            ConfigError::Missing(name) => ConfigErrorView::Missing(name@),
            ConfigError::BadBaseUrl(url) => ConfigErrorView::BadBaseUrl(url@),
        }
    }
}

impl ConfigError {
    /// The error in words.
    pub fn to_string(&self) -> (r: String)
        ensures
            r@ == match self@ {
                ConfigErrorView::Missing(name) => "missing env var "@ + name,
                ConfigErrorView::BadBaseUrl(url) =>
                    "BASE_URL must be https:// (http:// is allowed only for localhost/127.0.0.1): "@
                    + url,
            },
    {
        match self {
            ConfigError::Missing(name) => join2("missing env var ", name),
            ConfigError::BadBaseUrl(url) => join2(
                "BASE_URL must be https:// (http:// is allowed only for localhost/127.0.0.1): ",
                url,
            ),
        }
    }
}

/// The part of an address, behind its scheme, that says which machine it is:
/// all up to the path, the query or the fragment.
pub open spec fn authority_of(rest: Seq<char>) -> Seq<char> {
    crate::text::until_either(crate::text::until_either(rest, '/', '?'), '#', '#')
}

/// Whether an address is that of the machine itself, over plain http. One with
/// a user before its host is not: what looks like the host may be the user.
pub open spec fn is_local_http(url: Seq<char>) -> bool {
    match crate::text::after_prefix(url, "http://"@) {
        Some(rest) => {
            let host = crate::text::until_either(rest, '/', ':');
            !authority_of(rest).contains('@') && (host == "localhost"@ || host == "127.0.0.1"@)
        },
        None => false,
    }
}

/// Whether the shop may be reached at an address. Session identifiers travel
/// in its links, so it must be https, except on the machine itself.
pub open spec fn base_url_allowed(url: Seq<char>) -> bool {
    "https://"@.is_prefix_of(url) || is_local_http(url)
}

/// Checks the address of the shop, and cuts the slashes off its end.
pub fn validate_base_url(url: String) -> (r: Result<String, ConfigError>)
    ensures
        match r {
            Ok(base) => base_url_allowed(url@) && base@ == crate::text::without_end_slashes(url@),
            Err(e) => !base_url_allowed(url@) && e@ == ConfigErrorView::BadBaseUrl(url@),
        },
{
    if starts_with(&url, "https://") {
        return Ok(trim_end_slashes(&url).to_owned());
    }
    if let Some(rest) = strip_prefix(&url, "http://") {
        let authority = cut_at_either(cut_at_either(rest, '/', '?'), '#', '#');
        let host = cut_at_either(rest, '/', ':');
        if !has_char(authority, '@') && (same(host, "localhost") || same(host, "127.0.0.1")) {
            return Ok(trim_end_slashes(&url).to_owned());
        }
    }
    Err(ConfigError::BadBaseUrl(url))
}

/// The address of the shop never ends in a slash, so that a path behind it
/// begins with just one.
pub proof fn lemma_base_url_has_no_end_slash(url: Seq<char>)
    ensures
        ({
            let base = crate::text::without_end_slashes(url);
            base.len() > 0 ==> base.last() != '/'
        }),
    decreases url.len(),
{
    if url.len() > 0 && url.last() == '/' {
        lemma_base_url_has_no_end_slash(url.drop_last());
    }
}

/// A value, or what stands in for it.
pub open spec fn or_text(v: Option<String>, default: Seq<char>) -> Seq<char> {
    match v {
        Some(s) => s@,
        None => default,
    }
}

/// What is wrong with the environment, seen in the order of its variables.
pub open spec fn config_problem(v: Variables) -> Option<ConfigErrorView> {
    if v.stripe_api_key is None {
        Some(ConfigErrorView::Missing("STRIPE_API_KEY"@))
    } else if v.stripe_webhook_secret is None {
        Some(ConfigErrorView::Missing("STRIPE_WEBHOOK_SECRET"@))
    } else if v.database_url is None {
        Some(ConfigErrorView::Missing("DATABASE_URL"@))
    } else {
        match v.base_url {
            None => Some(ConfigErrorView::Missing("BASE_URL"@)),
            Some(url) => if base_url_allowed(url@) {
                None
            } else {
                Some(ConfigErrorView::BadBaseUrl(url@))
            },
        }
    }
}

/// Whether a configuration is what the environment says.
pub open spec fn is_config_of(c: AppConfig, v: Variables) -> bool {
    &&& v.stripe_api_key == Some(c.stripe_api_key)
    &&& v.stripe_webhook_secret == Some(c.stripe_webhook_secret)
    &&& v.database_url == Some(c.database_url)
    &&& v.base_url is Some
    &&& c.base_url@ == crate::text::without_end_slashes(v.base_url->0@)
    &&& c.keys_dir@ == or_text(v.keys_dir, "./keys"@)
    &&& c.content_dir@ == or_text(v.content_dir, "./content"@)
    &&& c.bind_addr@ == or_text(v.bind_addr, "127.0.0.1:8080"@)
    &&& c.trust_proxy == match v.trust_proxy {
        Some(s) => s@ == "1"@ || s@ == "true"@ || s@ == "yes"@,
        None => false,
    }
}

/// Whether a result is the configuration that the environment says, or what
/// is wrong with it.
pub open spec fn configured(r: Result<AppConfig, ConfigError>, v: Variables) -> bool {
    match r {
        Ok(c) => config_problem(v) is None && is_config_of(c, v),
        Err(e) => config_problem(v) == Some(e@),
    }
}

/// Whether a source of environment variables may have given some values.
pub open spec fn answers<F: Fn(&str) -> Option<String>>(get: F, v: Variables) -> bool {
    &&& call_ensures(get, ("STRIPE_API_KEY",), v.stripe_api_key)
    &&& call_ensures(get, ("STRIPE_WEBHOOK_SECRET",), v.stripe_webhook_secret)
    &&& call_ensures(get, ("DATABASE_URL",), v.database_url)
    &&& call_ensures(get, ("BASE_URL",), v.base_url)
    &&& call_ensures(get, ("KEYS_DIR",), v.keys_dir)
    &&& call_ensures(get, ("CONTENT_DIR",), v.content_dir)
    &&& call_ensures(get, ("BIND_ADDR",), v.bind_addr)
    &&& call_ensures(get, ("TRUST_PROXY",), v.trust_proxy)
}

fn or_default(v: Option<String>, default: &str) -> (r: String)
    ensures
        r@ == or_text(v, default@),
{
    match v {
        Some(s) => s,
        None => default.to_owned(),
    }
}

fn missing(name: &str) -> (e: ConfigError)
    ensures
        e@ == ConfigErrorView::Missing(name@),
{
    ConfigError::Missing(name.to_owned())
}

fn field(name: &str, value: &str) -> (r: String)
    ensures
        r@ == name@ + crate::text::quoted_text(value@),
{
    let q = quoted(value);
    join2(name, &q)
}

/// A configuration in words, with the secrets left out.
pub open spec fn redacted_words(c: AppConfig) -> Seq<char> {
    "AppConfig { stripe_api_key: \"[redacted]\", stripe_webhook_secret: \"[redacted]\""@ + (
    ", database_url: "@ + crate::text::quoted_text(c.database_url@)) + (", keys_dir: "@
        + crate::text::quoted_text(c.keys_dir@)) + (", content_dir: "@ + crate::text::quoted_text(
        c.content_dir@,
    )) + (", base_url: "@ + crate::text::quoted_text(c.base_url@)) + (", bind_addr: "@
        + crate::text::quoted_text(c.bind_addr@)) + (if c.trust_proxy {
        ", trust_proxy: true }"@
    } else {
        ", trust_proxy: false }"@
    })
}

/// The words for a configuration do not depend on its secrets.
pub proof fn lemma_secrets_are_not_shown(a: AppConfig, b: AppConfig)
    requires
        a.database_url@ == b.database_url@,
        a.keys_dir@ == b.keys_dir@,
        a.content_dir@ == b.content_dir@,
        a.base_url@ == b.base_url@,
        a.bind_addr@ == b.bind_addr@,
        a.trust_proxy == b.trust_proxy,
    ensures
        redacted_words(a) == redacted_words(b),
{
}

impl AppConfig {
    /// The configuration that some values give.
    pub fn from_variables(v: Variables) -> (r: Result<AppConfig, ConfigError>)
        ensures
            configured(r, v),
    {
        let stripe_api_key = match v.stripe_api_key {
            Some(s) => s,
            None => return Err(missing("STRIPE_API_KEY")),
        };
        let stripe_webhook_secret = match v.stripe_webhook_secret {
            Some(s) => s,
            None => return Err(missing("STRIPE_WEBHOOK_SECRET")),
        };
        let database_url = match v.database_url {
            Some(s) => s,
            None => return Err(missing("DATABASE_URL")),
        };
        let base_url = match v.base_url {
            Some(s) => match validate_base_url(s) {
                Ok(base) => base,
                Err(e) => return Err(e),
            },
            None => return Err(missing("BASE_URL")),
        };
        let trust_proxy = match v.trust_proxy {
            Some(s) => same(&s, "1") || same(&s, "true") || same(&s, "yes"),
            None => false,
        };
        Ok(
            AppConfig {
                stripe_api_key,
                stripe_webhook_secret,
                database_url,
                keys_dir: or_default(v.keys_dir, "./keys"),
                content_dir: or_default(v.content_dir, "./content"),
                base_url,
                bind_addr: or_default(v.bind_addr, "127.0.0.1:8080"),
                trust_proxy,
            },
        )
    }

    /// The configuration that a source of environment variables gives.
    pub fn from_getter(get: &impl Fn(&str) -> Option<String>) -> (r: Result<AppConfig, ConfigError>)
        requires
            forall|name: &str| call_requires(*get, (name,)),
        ensures
            exists|v: Variables| #[trigger] answers(*get, v) && configured(r, v),
    {
        let v = Variables {
            stripe_api_key: get("STRIPE_API_KEY"),
            stripe_webhook_secret: get("STRIPE_WEBHOOK_SECRET"),
            database_url: get("DATABASE_URL"),
            base_url: get("BASE_URL"),
            keys_dir: get("KEYS_DIR"),
            content_dir: get("CONTENT_DIR"),
            bind_addr: get("BIND_ADDR"),
            trust_proxy: get("TRUST_PROXY"),
        };
        assert(answers(*get, v));
        AppConfig::from_variables(v)
    }

    /// The configuration in words, with the secrets left out.
    pub fn redacted(&self) -> (r: String)
        ensures
            r@ == redacted_words(*self),
    {
        let mut r =
            "AppConfig { stripe_api_key: \"[redacted]\", stripe_webhook_secret: \"[redacted]\"".to_owned();
        r.append(&field(", database_url: ", &self.database_url));
        r.append(&field(", keys_dir: ", &self.keys_dir));
        r.append(&field(", content_dir: ", &self.content_dir));
        r.append(&field(", base_url: ", &self.base_url));
        r.append(&field(", bind_addr: ", &self.bind_addr));
        if self.trust_proxy {
            r.append(", trust_proxy: true }");
        } else {
            r.append(", trust_proxy: false }");
        }
        r
    }
}

/// Every https address is allowed.
pub proof fn lemma_https_is_allowed(rest: Seq<char>)
    ensures
        base_url_allowed("https://"@ + rest),
{
    let url = "https://"@ + rest;
    assert(url.subrange(0, "https://"@.len() as int) =~= "https://"@);
}

proof fn lemma_starts_with_host(rest: Seq<char>, host: Seq<char>)
    requires
        !host.contains('/'),
        !host.contains(':'),
    ensures
        crate::text::until_either(rest, '/', ':') == host <==> host.is_prefix_of(rest) && (
        rest.len() == host.len() || rest[host.len() as int] == '/' || rest[host.len() as int]
            == ':'),
{
    crate::text::lemma_until_is_first(rest, '/', ':');
    let found = crate::text::until_either(rest, '/', ':');
    if found == host {
        assert(rest.subrange(0, host.len() as int) =~= rest.take(host.len() as int));
    }
    if host.is_prefix_of(rest) && (rest.len() == host.len() || rest[host.len() as int] == '/'
        || rest[host.len() as int] == ':') {
        let n = host.len() as int;
        let m = found.len() as int;
        assert(rest.subrange(0, n) == host);
        if m < n {
            assert(host[m] == rest[m]);
            assert(host.contains(rest[m]));
        } else if m > n {
            assert(found[n] == rest.take(m)[n]);
            assert(found.contains(rest[n]));
        }
        assert(found =~= host) by {
            assert(rest.take(m) =~= rest.subrange(0, n));
        }
    }
}

/// An address without https is allowed exactly if it is plain http to the
/// machine itself by name or number, with a port, a path or nothing behind it,
/// and no at sign stands before the path, the query and the fragment.
pub proof fn lemma_plain_http_is_local(url: Seq<char>)
    requires
        !"https://"@.is_prefix_of(url),
    ensures
        base_url_allowed(url) <==> {
            let rest = url.skip(7);
            &&& "http://"@.is_prefix_of(url)
            &&& {
                ||| "localhost"@.is_prefix_of(rest) && (rest.len() == 9 || rest[9] == '/' || rest[9]
                    == ':')
                ||| "127.0.0.1"@.is_prefix_of(rest) && (rest.len() == 9 || rest[9] == '/' || rest[9]
                    == ':')
            }
            &&& forall|i: int|
                0 <= i < rest.len() && #[trigger] rest[i] == '@' ==> exists|j: int|
                    0 <= j < i && (#[trigger] rest[j] == '/' || rest[j] == '?' || rest[j] == '#')
        },
{
    reveal_strlit("http://");
    let rest = url.skip(7);
    assert(!"localhost"@.contains('/') && !"localhost"@.contains(':') && "localhost"@.len() == 9)
        by {
        reveal_strlit("localhost");
    }
    assert(!"127.0.0.1"@.contains('/') && !"127.0.0.1"@.contains(':') && "127.0.0.1"@.len() == 9)
        by {
        reveal_strlit("127.0.0.1");
    }
    lemma_starts_with_host(rest, "localhost"@);
    lemma_starts_with_host(rest, "127.0.0.1"@);
    let outer = crate::text::until_either(rest, '/', '?');
    let inner = crate::text::until_either(outer, '#', '#');
    crate::text::lemma_until_is_first(rest, '/', '?');
    crate::text::lemma_until_is_first(outer, '#', '#');
    let n = inner.len() as int;
    assert forall|i: int| 0 <= i < n implies #[trigger] inner[i] == rest[i] && rest[i] != '/'
        && rest[i] != '?' && rest[i] != '#' by {
        assert(inner[i] == outer.take(n)[i]);
        assert(outer[i] == rest.take(outer.len() as int)[i]);
        assert(outer.contains(outer[i]));
        assert(inner.contains(inner[i]));
    }
    assert(n < rest.len() ==> rest[n] == '/' || rest[n] == '?' || rest[n] == '#') by {
        if n < outer.len() {
            assert(outer[n] == rest.take(outer.len() as int)[n]);
        }
    }
    if inner.contains('@') {
        let i = inner.index_of('@');
        assert(inner[i] == rest[i]);
        assert(rest[i] == '@');
        assert forall|j: int| 0 <= j < i implies !(#[trigger] rest[j] == '/' || rest[j] == '?'
            || rest[j] == '#') by {
            assert(inner[j] == rest[j]);
        }
    } else {
        assert forall|i: int| 0 <= i < rest.len() && #[trigger] rest[i] == '@' implies exists|
            j: int,
        | 0 <= j < i && (#[trigger] rest[j] == '/' || rest[j] == '?' || rest[j] == '#') by {
            if i < n {
                assert(inner[i] == rest[i]);
                assert(inner.contains('@'));
            } else {
                assert(rest[n] == '/' || rest[n] == '?' || rest[n] == '#');
                assert(n < i);
            }
        }
    }
}

/// The environment is refused exactly if one of the four variables that the
/// shop cannot do without is missing, which is named then, or if the address
/// is not allowed.
pub proof fn lemma_needed_variables(v: Variables)
    ensures
        config_problem(v) is None <==> v.stripe_api_key is Some && v.stripe_webhook_secret is Some
            && v.database_url is Some && v.base_url is Some && base_url_allowed(v.base_url->0@),
        config_problem(v) matches Some(ConfigErrorView::Missing(name)) ==> {
            ||| name == "STRIPE_API_KEY"@ && v.stripe_api_key is None
            ||| name == "STRIPE_WEBHOOK_SECRET"@ && v.stripe_webhook_secret is None
            ||| name == "DATABASE_URL"@ && v.database_url is None
            ||| name == "BASE_URL"@ && v.base_url is None
        },
        config_problem(v) matches Some(ConfigErrorView::BadBaseUrl(url)) ==> v.base_url is Some
            && url == v.base_url->0@ && !base_url_allowed(url),
{
}

/// A configuration holds the variables as they are, and the usual values in
/// place of those that are not set. A proxy is trusted only if that is said.
pub proof fn lemma_config_is_the_environments(c: AppConfig, v: Variables)
    requires
        is_config_of(c, v),
    ensures
        v.stripe_api_key is Some && v.stripe_api_key->0@ == c.stripe_api_key@,
        v.stripe_webhook_secret is Some && v.stripe_webhook_secret->0@ == c.stripe_webhook_secret@,
        v.database_url is Some && v.database_url->0@ == c.database_url@,
        v.base_url is Some && c.base_url@ == crate::text::without_end_slashes(v.base_url->0@),
        v.keys_dir is Some ==> c.keys_dir@ == v.keys_dir->0@,
        v.keys_dir is None ==> c.keys_dir@ == "./keys"@,
        v.content_dir is Some ==> c.content_dir@ == v.content_dir->0@,
        v.content_dir is None ==> c.content_dir@ == "./content"@,
        v.bind_addr is Some ==> c.bind_addr@ == v.bind_addr->0@,
        v.bind_addr is None ==> c.bind_addr@ == "127.0.0.1:8080"@,
        c.trust_proxy <==> v.trust_proxy is Some && (v.trust_proxy->0@ == "1"@
            || v.trust_proxy->0@ == "true"@ || v.trust_proxy->0@ == "yes"@),
{
}

/// A result is a configuration only if nothing is wrong with the environment,
/// and an error only if that is what is wrong.
pub proof fn lemma_configured(r: Result<AppConfig, ConfigError>, v: Variables)
    requires
        configured(r, v),
    ensures
        r is Ok <==> config_problem(v) is None,
        r matches Ok(c) ==> is_config_of(c, v),
        r matches Err(e) ==> config_problem(v) == Some(e@),
{
}

/// Each variable is asked for by its own name.
pub proof fn lemma_variables_have_their_names<F: Fn(&str) -> Option<String>>(get: F, v: Variables)
    requires
        answers(get, v),
    ensures
        call_ensures(get, ("STRIPE_API_KEY",), v.stripe_api_key),
        call_ensures(get, ("STRIPE_WEBHOOK_SECRET",), v.stripe_webhook_secret),
        call_ensures(get, ("DATABASE_URL",), v.database_url),
        call_ensures(get, ("BASE_URL",), v.base_url),
        call_ensures(get, ("KEYS_DIR",), v.keys_dir),
        call_ensures(get, ("CONTENT_DIR",), v.content_dir),
        call_ensures(get, ("BIND_ADDR",), v.bind_addr),
        call_ensures(get, ("TRUST_PROXY",), v.trust_proxy),
{
}

/// The words for a configuration show what is no secret.
pub proof fn lemma_the_rest_is_shown(c: AppConfig)
    ensures
        crate::text::occurs_in(
            ", database_url: "@ + crate::text::quoted_text(c.database_url@),
            redacted_words(c),
        ),
        crate::text::occurs_in(
            ", keys_dir: "@ + crate::text::quoted_text(c.keys_dir@),
            redacted_words(c),
        ),
        crate::text::occurs_in(
            ", content_dir: "@ + crate::text::quoted_text(c.content_dir@),
            redacted_words(c),
        ),
        crate::text::occurs_in(
            ", base_url: "@ + crate::text::quoted_text(c.base_url@),
            redacted_words(c),
        ),
        crate::text::occurs_in(
            ", bind_addr: "@ + crate::text::quoted_text(c.bind_addr@),
            redacted_words(c),
        ),
        c.trust_proxy ==> crate::text::occurs_in(", trust_proxy: true }"@, redacted_words(c)),
        !c.trust_proxy ==> crate::text::occurs_in(", trust_proxy: false }"@, redacted_words(c)),
{
    let all = redacted_words(c);
    let start =
        "AppConfig { stripe_api_key: \"[redacted]\", stripe_webhook_secret: \"[redacted]\""@;
    let f1 = ", database_url: "@ + crate::text::quoted_text(c.database_url@);
    let f2 = ", keys_dir: "@ + crate::text::quoted_text(c.keys_dir@);
    let f3 = ", content_dir: "@ + crate::text::quoted_text(c.content_dir@);
    let f4 = ", base_url: "@ + crate::text::quoted_text(c.base_url@);
    let f5 = ", bind_addr: "@ + crate::text::quoted_text(c.bind_addr@);
    let f6 = if c.trust_proxy {
        ", trust_proxy: true }"@
    } else {
        ", trust_proxy: false }"@
    };
    lemma_six_fields(start, f1, f2, f3, f4, f5, f6);
}

proof fn lemma_six_fields(
    start: Seq<char>,
    f1: Seq<char>,
    f2: Seq<char>,
    f3: Seq<char>,
    f4: Seq<char>,
    f5: Seq<char>,
    f6: Seq<char>,
)
    ensures
        ({
            let all = start + f1 + f2 + f3 + f4 + f5 + f6;
            &&& crate::text::occurs_in(f1, all)
            &&& crate::text::occurs_in(f2, all)
            &&& crate::text::occurs_in(f3, all)
            &&& crate::text::occurs_in(f4, all)
            &&& crate::text::occurs_in(f5, all)
            &&& crate::text::occurs_in(f6, all)
        }),
{
    let all = start + f1 + f2 + f3 + f4 + f5 + f6;
    assert(crate::text::occurs_in(f1, all)) by {
        crate::text::lemma_occurs(start, f1, f2 + f3 + f4 + f5 + f6);
        assert(all =~= start + f1 + (f2 + f3 + f4 + f5 + f6));
    }
    assert(crate::text::occurs_in(f2, all)) by {
        crate::text::lemma_occurs(start + f1, f2, f3 + f4 + f5 + f6);
        assert(all =~= (start + f1) + f2 + (f3 + f4 + f5 + f6));
    }
    assert(crate::text::occurs_in(f3, all)) by {
        crate::text::lemma_occurs(start + f1 + f2, f3, f4 + f5 + f6);
        assert(all =~= (start + f1 + f2) + f3 + (f4 + f5 + f6));
    }
    assert(crate::text::occurs_in(f4, all)) by {
        crate::text::lemma_occurs(start + f1 + f2 + f3, f4, f5 + f6);
        assert(all =~= (start + f1 + f2 + f3) + f4 + (f5 + f6));
    }
    assert(crate::text::occurs_in(f5, all)) by {
        crate::text::lemma_occurs(start + f1 + f2 + f3 + f4, f5, f6);
    }
    assert(crate::text::occurs_in(f6, all)) by {
        crate::text::lemma_occurs(start + f1 + f2 + f3 + f4 + f5, f6, Seq::empty());
        assert(all =~= (start + f1 + f2 + f3 + f4 + f5) + f6 + Seq::<char>::empty());
    }
}

} // verus!
