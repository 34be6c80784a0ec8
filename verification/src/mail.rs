//! The emails about a sale: the license for the buyer, and a notice for the
//! operator. Email is optional, and never stands in the way of a license.

use crate::dates::date_of;
use crate::tables::{contains_key, get, insert, into_table, new_table, read_table};
use crate::text::{join2, join3, parse_i64, quoted, same};
use vstd::prelude::*;
use vstd::string::*;

verus! {

/// How an SMTP connection is secured.
#[derive(Debug, Clone, Copy, PartialEq, Eq, Structural)]
pub enum SmtpTls {
    Plain,
    StartTls,
    Implicit,
}

/// What sends the emails. It holds credentials, so it is not for printing.
pub enum Provider {
    Lettermint { token: String },
    Smtp {
        host: String,
        port: Option<u16>,
        tls: SmtpTls,
        user: Option<String>,
        pass: Option<String>,
    },
}

/// The email settings.
pub struct EmailConfig {
    pub enabled: bool,
    pub from_address: Option<String>,
    pub from_name: Option<String>,
    /// Who is told of a sale: nobody, if there is none.
    pub operator_address: Option<String>,
    pub operator_name: Option<String>,
    pub provider: Provider,
}

/// An email address, with a display name or without.
#[derive(Debug)]
pub struct Address {
    pub email: String,
    pub name: Option<String>,
}

impl Clone for Address {
    fn clone(&self) -> (r: Address)
        ensures
            r == *self,
    {
        Address {
            email: self.email.clone(),
            name: crate::text::clone_opt(&self.name),
        }
    }
}

/// A plain text email to one recipient.
#[derive(Debug)]
pub struct Email {
    pub from: Address,
    pub to: Address,
    pub subject: String,
    pub body: String,
}

/// What can be wrong with the email settings.
#[derive(Debug)]
pub enum MailError {
    /// The catalog file cannot be read, for this reason.
    BadFile { path: String, reason: String },
    /// The section on email of the catalog file is no table.
    NotATable { path: String },
    /// `SIGNET_EMAIL__PORT` is no number.
    BadPort(String),
    MissingFromAddress,
    EmptyToken,
}

impl MailError {
    /// The error in words.
    pub fn to_string(&self) -> (r: String)
        ensures
            r@ == match *self {
                MailError::BadFile { path, .. } => "parse "@ + path@,
                MailError::NotATable { path } => "[email] in "@ + path@ + " must be a table"@,
                MailError::BadPort(v) => "SIGNET_EMAIL__PORT is not a valid port: "@
                    + crate::text::quoted_text(v@),
                MailError::MissingFromAddress =>
                    "email is enabled but from_address is not set"@,
                MailError::EmptyToken =>
                    "lettermint provider selected but token is empty (set SIGNET_EMAIL__TOKEN)"@,
            },
    {
        match self {
            MailError::BadFile { path, .. } => join2("parse ", path),
            MailError::NotATable { path } => join3("[email] in ", path, " must be a table"),
            MailError::BadPort(v) => {
                let q = quoted(v);
                join2("SIGNET_EMAIL__PORT is not a valid port: ", &q)
            },
            MailError::MissingFromAddress =>
                "email is enabled but from_address is not set".to_owned(),
            MailError::EmptyToken =>
                "lettermint provider selected but token is empty (set SIGNET_EMAIL__TOKEN)".to_owned(),
        }
    }
}

/// A value, of which an empty one counts as none.
pub open spec fn non_blank(v: Option<String>) -> Option<String> {
    match v {
        Some(s) => if s@.len() == 0 {
            None
        } else {
            Some(s)
        },
        None => None,
    }
}

/// Takes an empty value as none.
pub fn blank_as_none(v: Option<String>) -> (r: Option<String>)
    ensures
        r == non_blank(v),
{
    match v {
        Some(s) => if s.as_str().is_empty() {
            None
        } else {
            Some(s)
        },
        None => None,
    }
}

impl EmailConfig {
    /// The settings with these values. Email is on unless it is switched off,
    /// and an empty text counts as none.
    pub fn new(
        enabled: Option<bool>,
        from_address: Option<String>,
        from_name: Option<String>,
        operator_address: Option<String>,
        operator_name: Option<String>,
        provider: Provider,
    ) -> (r: EmailConfig)
        ensures
            r.enabled == (enabled != Some(false)),
            r.from_address == non_blank(from_address),
            r.from_name == non_blank(from_name),
            r.operator_address == non_blank(operator_address),
            r.operator_name == non_blank(operator_name),
            r.provider == provider,
    {
        EmailConfig {
            enabled: match enabled {
                Some(on) => on,
                None => true,
            },
            from_address: blank_as_none(from_address),
            from_name: blank_as_none(from_name),
            operator_address: blank_as_none(operator_address),
            operator_name: blank_as_none(operator_name),
            provider,
        }
    }
}

/// A setting that the environment gives. It may be a secret, so it has no
/// `Debug`.
pub enum Setting {
    Text(String),
    Integer(i64),
    Boolean(bool),
}

/// A setting under its key.
pub struct Override {
    pub key: &'static str,
    pub setting: Setting,
}

/// What the environment says about email.
pub struct EmailVariables {
    pub from_address: Option<String>,
    pub from_name: Option<String>,
    pub operator_address: Option<String>,
    pub operator_name: Option<String>,
    pub provider: Option<String>,
    pub token: Option<String>,
    pub host: Option<String>,
    pub tls: Option<String>,
    pub user: Option<String>,
    pub pass: Option<String>,
    pub port: Option<String>,
    pub enabled: Option<String>,
}

/// Whether a source of environment variables may have given some values.
pub open spec fn email_answers<F: Fn(&str) -> Option<String>>(get: F, v: EmailVariables) -> bool {
    &&& call_ensures(get, ("SIGNET_EMAIL__FROM_ADDRESS",), v.from_address)
    &&& call_ensures(get, ("SIGNET_EMAIL__FROM_NAME",), v.from_name)
    &&& call_ensures(get, ("SIGNET_EMAIL__OPERATOR_ADDRESS",), v.operator_address)
    &&& call_ensures(get, ("SIGNET_EMAIL__OPERATOR_NAME",), v.operator_name)
    &&& call_ensures(get, ("SIGNET_EMAIL__PROVIDER",), v.provider)
    &&& call_ensures(get, ("SIGNET_EMAIL__TOKEN",), v.token)
    &&& call_ensures(get, ("SIGNET_EMAIL__HOST",), v.host)
    &&& call_ensures(get, ("SIGNET_EMAIL__TLS",), v.tls)
    &&& call_ensures(get, ("SIGNET_EMAIL__USER",), v.user)
    &&& call_ensures(get, ("SIGNET_EMAIL__PASS",), v.pass)
    &&& call_ensures(get, ("SIGNET_EMAIL__PORT",), v.port)
    &&& call_ensures(get, ("SIGNET_EMAIL__ENABLED",), v.enabled)
}

/// The setting under a key among some overrides.
pub open spec fn setting_under(list: Seq<Override>, key: Seq<char>) -> Option<Setting>
    decreases list.len(),
{
    if list.len() == 0 {
        None
    } else if list.last().key@ == key {
        Some(list.last().setting)
    } else {
        setting_under(list.drop_last(), key)
    }
}

/// A text setting.
pub open spec fn as_setting(v: Option<String>) -> Option<Setting> {
    match v {
        Some(s) => Some(Setting::Text(s)),
        None => None,
    }
}

/// Whether a text switches something on.
pub open spec fn is_on(v: Seq<char>) -> bool {
    v == "1"@ || v == "true"@ || v == "yes"@ || v == "on"@
}

/// The port that the environment gives.
pub open spec fn port_setting(v: Option<String>) -> Option<Setting> {
    match v {
        Some(s) => match crate::text::written_i64(s@) {
            Some(n) => Some(Setting::Integer(n)),
            None => None,
        },
        None => None,
    }
}

/// The switch that the environment gives.
pub open spec fn enabled_setting(v: Option<String>) -> Option<Setting> {
    match v {
        Some(s) => Some(Setting::Boolean(is_on(s@))),
        None => None,
    }
}

/// What the environment gives under a key.
pub open spec fn override_under(v: EmailVariables, key: Seq<char>) -> Option<Setting> {
    if key == "from_address"@ {
        as_setting(v.from_address)
    } else if key == "from_name"@ {
        as_setting(v.from_name)
    } else if key == "operator_address"@ {
        as_setting(v.operator_address)
    } else if key == "operator_name"@ {
        as_setting(v.operator_name)
    } else if key == "provider"@ {
        as_setting(v.provider)
    } else if key == "token"@ {
        as_setting(v.token)
    } else if key == "host"@ {
        as_setting(v.host)
    } else if key == "tls"@ {
        as_setting(v.tls)
    } else if key == "user"@ {
        as_setting(v.user)
    } else if key == "pass"@ {
        as_setting(v.pass)
    } else if key == "port"@ {
        port_setting(v.port)
    } else if key == "enabled"@ {
        enabled_setting(v.enabled)
    } else {
        None
    }
}

fn put(list: &mut Vec<Override>, key: &'static str, value: Option<Setting>)
    ensures
        forall|k: Seq<char>| #[trigger]
            setting_under(final(list)@, k) == if k == key@ && value is Some {
                value
            } else {
                setting_under(old(list)@, k)
            },
{
    let ghost before = list@;
    if let Some(setting) = value {
        list.push(Override { key, setting });
        assert(list@.drop_last() =~= before);
    }
}

fn text_setting(v: Option<String>) -> (r: Option<Setting>)
    ensures
        r == as_setting(v),
{
    match v {
        Some(s) => Some(Setting::Text(s)),
        None => None,
    }
}

spec fn mark(s: Seq<char>) -> (nat, char, char) {
    (s.len(), s[0], s[1])
}

proof fn lemma_keys_differ()
    ensures
        mark("from_address"@) == (12nat, 'f', 'r'),
        mark("from_name"@) == (9nat, 'f', 'r'),
        mark("operator_address"@) == (16nat, 'o', 'p'),
        mark("operator_name"@) == (13nat, 'o', 'p'),
        mark("provider"@) == (8nat, 'p', 'r'),
        mark("token"@) == (5nat, 't', 'o'),
        mark("host"@) == (4nat, 'h', 'o'),
        mark("tls"@) == (3nat, 't', 'l'),
        mark("user"@) == (4nat, 'u', 's'),
        mark("pass"@) == (4nat, 'p', 'a'),
        mark("port"@) == (4nat, 'p', 'o'),
        mark("enabled"@) == (7nat, 'e', 'n'),
{
    reveal_strlit("from_address");
    reveal_strlit("from_name");
    reveal_strlit("operator_address");
    reveal_strlit("operator_name");
    reveal_strlit("provider");
    reveal_strlit("token");
    reveal_strlit("host");
    reveal_strlit("tls");
    reveal_strlit("user");
    reveal_strlit("pass");
    reveal_strlit("port");
    reveal_strlit("enabled");
}

/// Whether the environment gives a port that is no number.
pub open spec fn has_bad_port(v: EmailVariables) -> bool {
    v.port matches Some(s) && crate::text::written_i64(s@) is None
}

/// The settings that the environment gives, each of the type that it must
/// have.
pub fn email_overrides(v: EmailVariables) -> (r: Result<Vec<Override>, MailError>)
    ensures
        match r {
            Ok(list) => {
                &&& !has_bad_port(v)
                &&& forall|key: Seq<char>| #[trigger]
                    setting_under(list@, key) == override_under(v, key)
            },
            Err(e) => has_bad_port(v) && e == MailError::BadPort(v.port->0),
        },
{
    let mut list: Vec<Override> = Vec::new();
    put(&mut list, "from_address", text_setting(v.from_address));
    put(&mut list, "from_name", text_setting(v.from_name));
    put(&mut list, "operator_address", text_setting(v.operator_address));
    put(&mut list, "operator_name", text_setting(v.operator_name));
    put(&mut list, "provider", text_setting(v.provider));
    put(&mut list, "token", text_setting(v.token));
    put(&mut list, "host", text_setting(v.host));
    put(&mut list, "tls", text_setting(v.tls));
    put(&mut list, "user", text_setting(v.user));
    put(&mut list, "pass", text_setting(v.pass));
    let port = match v.port {
        Some(s) => match parse_i64(&s) {
            Some(n) => Some(Setting::Integer(n)),
            None => return Err(MailError::BadPort(s)),
        },
        None => None,
    };
    put(&mut list, "port", port);
    let enabled = match v.enabled {
        Some(s) => Some(
            Setting::Boolean(same(&s, "1") || same(&s, "true") || same(&s, "yes") || same(&s, "on")),
        ),
        None => None,
    };
    put(&mut list, "enabled", enabled);
    proof {
        lemma_keys_differ();
        assert forall|key: Seq<char>| #[trigger]
            setting_under(list@, key) == override_under(v, key) by {
            let m = mark(key);
        }
    }
    Ok(list)
}

/// The settings that a source of environment variables gives.
pub fn email_overrides_from(get: &impl Fn(&str) -> Option<String>) -> (r: Result<
    Vec<Override>,
    MailError,
>)
    requires
        forall|name: &str| call_requires(*get, (name,)),
    ensures
        exists|v: EmailVariables| #[trigger]
            email_answers(*get, v) && match r {
                Ok(list) => {
                    &&& !has_bad_port(v)
                    &&& forall|key: Seq<char>| #[trigger]
                        setting_under(list@, key) == override_under(v, key)
                },
                Err(e) => has_bad_port(v) && e == MailError::BadPort(v.port->0),
            },
{
    let v = EmailVariables {
        from_address: get("SIGNET_EMAIL__FROM_ADDRESS"),
        from_name: get("SIGNET_EMAIL__FROM_NAME"),
        operator_address: get("SIGNET_EMAIL__OPERATOR_ADDRESS"),
        operator_name: get("SIGNET_EMAIL__OPERATOR_NAME"),
        provider: get("SIGNET_EMAIL__PROVIDER"),
        token: get("SIGNET_EMAIL__TOKEN"),
        host: get("SIGNET_EMAIL__HOST"),
        tls: get("SIGNET_EMAIL__TLS"),
        user: get("SIGNET_EMAIL__USER"),
        pass: get("SIGNET_EMAIL__PASS"),
        port: get("SIGNET_EMAIL__PORT"),
        enabled: get("SIGNET_EMAIL__ENABLED"),
    };
    assert(email_answers(*get, v));
    email_overrides(v)
}

/// The mathematical content of a [`Setting`].
pub enum SettingView {
    Text(Seq<char>),
    Integer(int),
    Boolean(bool),
}

impl View for Setting {
    type V = SettingView;

    open spec fn view(&self) -> SettingView {
        match self {
            Setting::Text(t) => SettingView::Text(t@),
            Setting::Integer(n) => SettingView::Integer(*n as int),
            Setting::Boolean(b) => SettingView::Boolean(*b),
        }
    }
}

/// A setting as a value of `toml`.
pub uninterp spec fn toml_value(setting: SettingView) -> toml::Value;

/// The `toml::Value` of a setting: the variant `String`, `Integer` or `Boolean`.
#[verifier::external_body]
fn setting_value(setting: Setting) -> (value: toml::Value)
    ensures
        value == toml_value(setting@),
{
    match setting {
        Setting::Text(t) => toml::Value::String(t),
        Setting::Integer(n) => toml::Value::Integer(n),
        Setting::Boolean(b) => toml::Value::Boolean(b),
    }
}

/// What is wrong with the section on email of a catalog file.
pub enum SectionProblem {
    /// The file cannot be read, with what is wrong in words.
    BadFile(Seq<char>),
    /// It is no table.
    NotATable,
}

/// The section on email of a catalog file. There are no settings if the file,
/// or the section in it, is not there.
pub open spec fn section_of(text: Option<Seq<char>>) -> Result<
    Map<Seq<char>, toml::Value>,
    SectionProblem,
> {
    match text {
        None => Ok(Map::empty()),
        Some(text) => match crate::tables::file_entries(text) {
            Err(words) => Err(SectionProblem::BadFile(words)),
            Ok(root) => match crate::tables::value_under(root, "email"@) {
                None => Ok(Map::empty()),
                Some(value) => match crate::tables::value_entries(value) {
                    Some(section) => Ok(section),
                    None => Err(SectionProblem::NotATable),
                },
            },
        },
    }
}

/// Whether an error tells of a problem in a file.
pub open spec fn tells_of(e: MailError, problem: SectionProblem, file: Seq<char>) -> bool {
    match problem {
        SectionProblem::BadFile(words) => e matches MailError::BadFile { path, reason } && path@
            == file && reason@ == words,
        SectionProblem::NotATable => e matches MailError::NotATable { path } && path@ == file,
    }
}

/// A text that may be absent.
pub open spec fn opt_view(text: Option<&str>) -> Option<Seq<char>> {
    match text {
        Some(t) => Some(t@),
        None => None,
    }
}

/// The section on email of a catalog file, out of the file's text, if the file
/// is there.
pub fn base_email_table(path: &str, text: Option<&str>) -> (r: Result<toml::Table, MailError>)
    ensures
        match section_of(opt_view(text)) {
            Ok(section) => r matches Ok(table) && crate::tables::entries(table) == section,
            Err(problem) => r matches Err(e) && tells_of(e, problem, path@),
        },
{
    let text = match text {
        Some(t) => t,
        None => return Ok(new_table()),
    };
    let root = match read_table(text) {
        Ok(root) => root,
        Err(reason) => return Err(MailError::BadFile { path: path.to_owned(), reason }),
    };
    match get(&root, "email") {
        None => Ok(new_table()),
        Some(value) => match into_table(value) {
            Some(table) => Ok(table),
            None => Err(MailError::NotATable { path: path.to_owned() }),
        },
    }
}

/// Whether some settings are others with those of the environment laid over
/// them: what the environment gives under a key wins, key by key.
pub open spec fn is_overlaid(
    m: Map<Seq<char>, toml::Value>,
    base: Map<Seq<char>, toml::Value>,
    v: EmailVariables,
) -> bool {
    forall|key: Seq<char>| #[trigger]
        crate::tables::value_under(m, key) == match override_under(v, key) {
            Some(setting) => Some(toml_value(setting@)),
            None => crate::tables::value_under(base, key),
        }
}

/// Lays settings over a table.
fn overlay(table: &mut toml::Table, list: Vec<Override>)
    ensures
        forall|key: Seq<char>| #[trigger]
            crate::tables::value_under(crate::tables::entries(*final(table)), key)
                == match setting_under(list@, key) {
                Some(setting) => Some(toml_value(setting@)),
                None => crate::tables::value_under(crate::tables::entries(*old(table)), key),
            },
{
    let ghost all = list@;
    let ghost base = crate::tables::entries(*table);
    for o in it: list.into_iter()
        invariant
            it.seq() == all,
            forall|key: Seq<char>| #[trigger]
                crate::tables::value_under(crate::tables::entries(*table), key)
                    == match setting_under(all.take(it.index() as int), key) {
                    Some(setting) => Some(toml_value(setting@)),
                    None => crate::tables::value_under(base, key),
                },
    {
        let ghost i = it.index() as int;
        assert(all.take(i + 1).drop_last() =~= all.take(i));
        assert(all.take(i + 1).last() == o);
        let ghost before = crate::tables::entries(*table);
        insert(table, o.key, setting_value(o.setting));
        assert forall|key: Seq<char>| #[trigger]
            crate::tables::value_under(crate::tables::entries(*table), key)
                == match setting_under(all.take(i + 1), key) {
                Some(setting) => Some(toml_value(setting@)),
                None => crate::tables::value_under(base, key),
            } by {
            let old_value = crate::tables::value_under(before, key);
        }
    }
    assert(all.take(all.len() as int) =~= all);
}

/// Whether a result is the settings, with those of the environment laid over
/// them. There are none if no provider is chosen.
pub open spec fn is_loaded(
    r: Result<Option<toml::Table>, MailError>,
    base: Map<Seq<char>, toml::Value>,
    v: EmailVariables,
) -> bool {
    if has_bad_port(v) {
        r == Err::<Option<toml::Table>, MailError>(MailError::BadPort(v.port->0))
    } else {
        let provider = match override_under(v, "provider"@) {
            Some(setting) => Some(toml_value(setting@)),
            None => crate::tables::value_under(base, "provider"@),
        };
        match r {
            Ok(Some(table)) => provider is Some && is_overlaid(
                crate::tables::entries(table),
                base,
                v,
            ),
            Ok(None) => provider is None,
            Err(_) => false,
        }
    }
}

impl EmailConfig {
    /// The settings on email: those of the catalog file, if it is there, with
    /// those of the environment laid over them. So a secret can be left empty in
    /// the file. There are none if no provider is chosen, in the file or in the
    /// environment.
    pub fn load(
        path: &str,
        text: Option<&str>,
        getter: &impl Fn(&str) -> Option<String>,
    ) -> (r: Result<Option<toml::Table>, MailError>)
        requires
            forall|name: &str| call_requires(*getter, (name,)),
        ensures
            match section_of(opt_view(text)) {
                Err(problem) => r matches Err(e) && tells_of(e, problem, path@),
                Ok(base) => exists|v: EmailVariables| #[trigger]
                    email_answers(*getter, v) && is_loaded(r, base, v),
            },
    {
        let mut table = match base_email_table(path, text) {
            Ok(t) => t,
            Err(e) => return Err(e),
        };
        let ghost base = crate::tables::entries(table);
        let list = email_overrides_from(getter);
        let ghost v = choose|v: EmailVariables| #[trigger]
            email_answers(*getter, v) && match list {
                Ok(list) => {
                    &&& !has_bad_port(v)
                    &&& forall|key: Seq<char>| #[trigger]
                        setting_under(list@, key) == override_under(v, key)
                },
                Err(e) => has_bad_port(v) && e == MailError::BadPort(v.port->0),
            };
        let list = match list {
            Ok(list) => list,
            Err(e) => {
                let r = Err(e);
                assert(email_answers(*getter, v) && is_loaded(r, base, v));
                return r;
            },
        };
        overlay(&mut table, list);
        let chosen = contains_key(&table, "provider");
        assert(crate::tables::value_under(crate::tables::entries(table), "provider"@) is Some
            == chosen);
        let r = if chosen {
            Ok(Some(table))
        } else {
            Ok(None)
        };
        assert(email_answers(*getter, v) && is_loaded(r, base, v));
        r
    }
}

/// Whether an address is made of an email address and a name, an empty name
/// being none.
pub open spec fn is_address(a: Address, email: Seq<char>, name: Option<Seq<char>>) -> bool {
    &&& a.email@ == email
    &&& crate::text::opt_text(a.name) == match name {
        Some(n) => if n.len() == 0 {
            None
        } else {
            Some(n)
        },
        None => None,
    }
}

/// An address, with a name unless it is empty.
pub fn to_address(email: String, name: Option<String>) -> (a: Address)
    ensures
        is_address(a, email@, crate::text::opt_text(name)),
{
    Address { email, name: blank_as_none(name) }
}

/// What sends the emails, from which address, and to which operator.
pub struct MailService {
    pub from: Address,
    pub operator: Option<Address>,
    pub provider: Provider,
}

/// What is wrong with the email settings.
pub open spec fn mail_problem(cfg: EmailConfig) -> Option<MailError> {
    if cfg.from_address is None {
        Some(MailError::MissingFromAddress)
    } else if cfg.provider matches Provider::Lettermint { token } && token@.len() == 0 {
        Some(MailError::EmptyToken)
    } else {
        None
    }
}

/// Whether a service is what the settings say.
pub open spec fn is_service_of(s: MailService, cfg: EmailConfig) -> bool {
    &&& cfg.from_address is Some
    &&& is_address(s.from, cfg.from_address->0@, crate::text::opt_text(cfg.from_name))
    &&& match cfg.operator_address {
        Some(a) => s.operator is Some && is_address(
            s.operator->0,
            a@,
            crate::text::opt_text(cfg.operator_name),
        ),
        None => s.operator is None,
    }
    &&& s.provider == cfg.provider
}

impl MailService {
    /// The service that the settings describe, if they are complete.
    pub fn from_config(cfg: EmailConfig) -> (r: Result<MailService, MailError>)
        ensures
            match r {
                Ok(s) => mail_problem(cfg) is None && is_service_of(s, cfg),
                Err(e) => mail_problem(cfg) == Some(e),
            },
    {
        let from_address = match cfg.from_address {
            Some(a) => a,
            None => return Err(MailError::MissingFromAddress),
        };
        if let Provider::Lettermint { token } = &cfg.provider {
            if token.as_str().is_empty() {
                return Err(MailError::EmptyToken);
            }
        }
        let from = to_address(from_address, cfg.from_name);
        let operator = match cfg.operator_address {
            Some(a) => Some(to_address(a, cfg.operator_name)),
            None => None,
        };
        Ok(MailService { from, operator, provider: cfg.provider })
    }
}

/// What the emails about a sale tell.
#[derive(Debug)]
pub struct PurchaseNotice {
    pub buyer_email: String,
    pub customer: String,
    pub product_display: String,
    pub license_id: String,
    pub license_blob: String,
    pub expires_at: Option<i64>,
    pub price_label: String,
}

/// An expiry in words.
pub open spec fn expiry_text(expires_at: Option<i64>) -> Seq<char> {
    match expires_at {
        None => "Lifetime (no expiry)"@,
        Some(t) => match crate::dates::date_at(t, crate::dates::DATE_FORMAT@) {
            Some(date) => date,
            None => "unknown"@,
        },
    }
}

/// An expiry in words: its date in UTC.
pub fn format_expiry(expires_at: Option<i64>) -> (r: String)
    ensures
        r@ == expiry_text(expires_at),
{
    match expires_at {
        None => "Lifetime (no expiry)".to_owned(),
        Some(t) => match date_of(t) {
            Some(date) => date,
            None => "unknown".to_owned(),
        },
    }
}

/// The text of the email with the license.
pub open spec fn license_body(n: PurchaseNotice) -> Seq<char> {
    "Hi,\n\nthank you for your purchase. Your "@ + n.product_display@
        + " license is below.\n\nLicense key:\n"@ + (n.license_blob@ + "\n\nLicense ID: "@
        + n.license_id@) + ("\nExpires:    "@ + expiry_text(n.expires_at)
        + "\n\nKeep this key safe; it is your proof of license.\n"@)
}

/// The text of the notice of a sale.
pub open spec fn operator_body(n: PurchaseNotice) -> Seq<char> {
    "A new license was sold.\n\nProduct:     "@ + n.product_display@ + "\nCustomer:    "@ + (
    n.customer@ + "\nBuyer email: "@ + (if n.buyer_email@.len() == 0 {
        "(none)"@
    } else {
        n.buyer_email@
    })) + ("\nPrice:       "@ + n.price_label@ + "\nLicense ID:  "@) + (n.license_id@
        + "\nExpires:     "@ + expiry_text(n.expires_at)) + "\n"@
}

/// Whether a text has a value right behind a label, and a line that ends right
/// behind the value.
pub open spec fn has_line(text: Seq<char>, label: Seq<char>, value: Seq<char>) -> bool {
    exists|before: Seq<char>, after: Seq<char>| text == #[trigger] (before + (label + value + "\n"@
        + after))
}

proof fn lemma_has_line(
    text: Seq<char>,
    label: Seq<char>,
    value: Seq<char>,
    before: Seq<char>,
    after: Seq<char>,
)
    requires
        text == before + (label + value + "\n"@ + after),
    ensures
        has_line(text, label, value),
{
}

proof fn lemma_line_before(
    text: Seq<char>,
    label: Seq<char>,
    value: Seq<char>,
    before: Seq<char>,
    after: Seq<char>,
)
    requires
        text == (before + label + value + "\n"@) + after,
    ensures
        has_line(text, label, value),
        text == before + (label + value + "\n"@ + after),
{
    assert(text =~= before + (label + value + "\n"@ + after));
}

proof fn lemma_last_line(text: Seq<char>, label: Seq<char>, value: Seq<char>, before: Seq<char>)
    requires
        text == before + label + value + "\n"@,
    ensures
        has_line(text, label, value),
        text == before + (label + value + "\n"@),
{
    let none = Seq::<char>::empty();
    assert(text =~= before + (label + value + "\n"@));
    assert(text =~= before + (label + value + "\n"@ + none));
    lemma_has_line(text, label, value, before, none);
}

proof fn lemma_flat_3(a: Seq<char>, b: Seq<char>, c: Seq<char>, d: Seq<char>, e: Seq<char>)
    ensures
        (a + b) + c + (d + e) == (a + b + c + d) + e,
{
    assert((a + b) + c + (d + e) =~= (a + b + c + d) + e);
}

proof fn lemma_flat_5(a: Seq<char>, b: Seq<char>, c: Seq<char>, d: Seq<char>, e: Seq<char>)
    ensures
        a + (b + (c + d) + e) == (a + b + c) + d + e,
{
    assert(a + (b + (c + d) + e) =~= (a + b + c) + d + e);
}

proof fn lemma_flat_5_ends(a: Seq<char>, b: Seq<char>, c: Seq<char>, d: Seq<char>, e: Seq<char>)
    ensures
        a + ((b + c) + d + (b + e)) == ((a + b) + c + d + b) + e,
{
    assert(a + ((b + c) + d + (b + e)) =~= ((a + b) + c + d + b) + e);
}

/// The email to the buyer brings the license, whole and on a line of its own
/// behind the words that announce it, and names its identifier and its expiry,
/// whatever they are.
pub proof fn lemma_license_email_carries_the_license(n: PurchaseNotice)
    ensures
        has_line(license_body(n), "License key:\n"@, n.license_blob@),
        has_line(license_body(n), "License ID: "@, n.license_id@),
        has_line(license_body(n), "Expires:    "@, expiry_text(n.expires_at)),
        has_line(license_body(n), "Your "@ + n.product_display@ + " license is below."@, ""@),
{
    let b = n.license_blob@;
    let id = n.license_id@;
    let x = expiry_text(n.expires_at);
    let p = n.product_display@;
    reveal_strlit("Hi,\n\nthank you for your purchase. Your ");
    reveal_strlit("Hi,\n\nthank you for your purchase. ");
    reveal_strlit("Your ");
    reveal_strlit(" license is below.\n\nLicense key:\n");
    reveal_strlit(" license is below.\n\n");
    reveal_strlit(" license is below.");
    reveal_strlit("\nLicense key:\n");
    reveal_strlit("License key:\n");
    reveal_strlit("\n\nLicense ID: ");
    reveal_strlit("\nLicense ID: ");
    reveal_strlit("License ID: ");
    reveal_strlit("\nExpires:    ");
    reveal_strlit("Expires:    ");
    reveal_strlit("\n\nKeep this key safe; it is your proof of license.\n");
    reveal_strlit("\nKeep this key safe; it is your proof of license.\n");
    reveal_strlit("\n");
    reveal_strlit("");
    let hi = "Hi,\n\nthank you for your purchase. "@;
    let keep = "\nKeep this key safe; it is your proof of license.\n"@;
    assert("Hi,\n\nthank you for your purchase. Your "@ =~= hi + "Your "@);
    assert(" license is below.\n\nLicense key:\n"@ =~= " license is below.\n\n"@
        + "License key:\n"@);
    assert(" license is below.\n\n"@ + "License key:\n"@ =~= " license is below."@ + "\n"@
        + "\nLicense key:\n"@);
    assert("\n\nLicense ID: "@ =~= "\n"@ + "\nLicense ID: "@);
    assert("\nLicense ID: "@ =~= "\n"@ + "License ID: "@);
    assert("\nExpires:    "@ =~= "\n"@ + "Expires:    "@);
    assert("\n\nKeep this key safe; it is your proof of license.\n"@ =~= "\n"@ + keep);
    let id_on = "\nLicense ID: "@ + id + "\nExpires:    "@ + x + "\n"@ + keep;
    let before = hi + "Your "@ + p + " license is below.\n\n"@;
    assert(license_body(n) =~= before + ("License key:\n"@ + b + "\n"@ + id_on));
    lemma_has_line(license_body(n), "License key:\n"@, b, before, id_on);
    let before_id = before + "License key:\n"@ + b + "\n"@ + "\n"@;
    let x_on = "Expires:    "@ + x + "\n"@ + keep;
    assert(license_body(n) =~= before_id + ("License ID: "@ + id + "\n"@ + x_on));
    lemma_has_line(license_body(n), "License ID: "@, id, before_id, x_on);
    let before_x = before_id + "License ID: "@ + id + "\n"@;
    assert(license_body(n) =~= before_x + ("Expires:    "@ + x + "\n"@ + keep));
    lemma_has_line(license_body(n), "Expires:    "@, x, before_x, keep);
    let label = "Your "@ + p + " license is below."@;
    let rest = "\nLicense key:\n"@ + b + "\n"@ + id_on;
    assert(license_body(n) =~= hi + (label + ""@ + "\n"@ + rest));
    lemma_has_line(license_body(n), label, ""@, hi, rest);
}

/// The notice to the operator names the product, the customer, the buyer, the
/// price, the identifier of the license and its expiry, each behind its label.
/// Where the buyer gave no address it says so.
pub proof fn lemma_operator_email_tells_of_the_sale(n: PurchaseNotice)
    ensures
        has_line(operator_body(n), "Product:     "@, n.product_display@),
        has_line(operator_body(n), "Customer:    "@, n.customer@),
        n.buyer_email@.len() > 0 ==> has_line(operator_body(n), "Buyer email: "@, n.buyer_email@),
        n.buyer_email@.len() == 0 ==> has_line(operator_body(n), "Buyer email: "@, "(none)"@),
        has_line(operator_body(n), "Price:       "@, n.price_label@),
        has_line(operator_body(n), "License ID:  "@, n.license_id@),
        has_line(operator_body(n), "Expires:     "@, expiry_text(n.expires_at)),
{
    let p = n.product_display@;
    let c = n.customer@;
    let m = if n.buyer_email@.len() == 0 {
        "(none)"@
    } else {
        n.buyer_email@
    };
    let price = n.price_label@;
    let id = n.license_id@;
    let x = expiry_text(n.expires_at);
    assert("A new license was sold.\n\nProduct:     "@ =~= "A new license was sold.\n\n"@
        + "Product:     "@) by {
        reveal_strlit("A new license was sold.\n\nProduct:     ");
        reveal_strlit("A new license was sold.\n\n");
        reveal_strlit("Product:     ");
    }
    assert("\nCustomer:    "@ =~= "\n"@ + "Customer:    "@) by {
        reveal_strlit("\nCustomer:    ");
        reveal_strlit("\n");
        reveal_strlit("Customer:    ");
    }
    assert("\nBuyer email: "@ =~= "\n"@ + "Buyer email: "@) by {
        reveal_strlit("\nBuyer email: ");
        reveal_strlit("\n");
        reveal_strlit("Buyer email: ");
    }
    assert("\nPrice:       "@ =~= "\n"@ + "Price:       "@) by {
        reveal_strlit("\nPrice:       ");
        reveal_strlit("\n");
        reveal_strlit("Price:       ");
    }
    assert("\nLicense ID:  "@ =~= "\n"@ + "License ID:  "@) by {
        reveal_strlit("\nLicense ID:  ");
        reveal_strlit("\n");
        reveal_strlit("License ID:  ");
    }
    assert("\nExpires:     "@ =~= "\n"@ + "Expires:     "@) by {
        reveal_strlit("\nExpires:     ");
        reveal_strlit("\n");
        reveal_strlit("Expires:     ");
    }
    let nl = "\n"@;
    let a0 = "A new license was sold.\n\n"@;
    let a1 = a0 + "Product:     "@ + p + nl;
    let a2 = a1 + "Customer:    "@ + c + nl;
    let a3 = a2 + "Buyer email: "@ + m + nl;
    let a4 = a3 + "Price:       "@ + price + nl;
    let a5 = a4 + "License ID:  "@ + id + nl;
    let z5 = Seq::<char>::empty();
    let z4 = "Expires:     "@ + x + nl;
    let z3 = "License ID:  "@ + id + nl + z4;
    let z2 = "Price:       "@ + price + nl + z3;
    let z1 = "Buyer email: "@ + m + nl + z2;
    let z0 = "Customer:    "@ + c + nl + z1;
    lemma_flat_3(a0, "Product:     "@, p, nl, "Customer:    "@);
    lemma_flat_5(a1 + "Customer:    "@, c, nl, "Buyer email: "@, m);
    lemma_flat_5_ends(a2 + "Buyer email: "@ + m, nl, "Price:       "@, price, "License ID:  "@);
    lemma_flat_5(a4 + "License ID:  "@, id, nl, "Expires:     "@, x);
    let body = a5 + "Expires:     "@ + x + nl;
    assert(body == operator_body(n));
    lemma_last_line(body, "Expires:     "@, x, a5);
    lemma_line_before(body, "License ID:  "@, id, a4, z4);
    lemma_line_before(body, "Price:       "@, price, a3, z3);
    lemma_line_before(body, "Buyer email: "@, m, a2, z2);
    lemma_line_before(body, "Customer:    "@, c, a1, z1);
    lemma_line_before(body, "Product:     "@, p, a0, z0);
}

/// A license that does not expire is called a lifetime license; any other has
/// the date of its last day, as far as there is a date for it.
pub proof fn lemma_expiry_words(t: i64)
    ensures
        expiry_text(None) == "Lifetime (no expiry)"@,
        crate::dates::date_at(t, "%Y-%m-%d"@) matches Some(date) ==> expiry_text(Some(t)) == date,
        crate::dates::date_at(t, "%Y-%m-%d"@) is None ==> expiry_text(Some(t)) == "unknown"@,
{
}

/// The email with the license goes to the buyer's own address, and the notice to
/// the operator's, both from the shop's.
pub proof fn lemma_emails_are_addressed(
    license: Email,
    notice: Email,
    s: MailService,
    n: PurchaseNotice,
)
    requires
        is_license_email(license, s, n),
        is_operator_email(notice, s, n),
    ensures
        license.to.email@ == n.buyer_email@,
        license.from == s.from,
        notice.from == s.from,
        s.operator matches Some(a) && notice.to == a,
        license.to.name matches Some(name) ==> name@ == n.customer@ && name@.len() > 0,
        n.customer@.len() > 0 ==> license.to.name is Some,
        license.body@ == license_body(n),
        notice.body@ == operator_body(n),
{
}

/// Whether an email is the one with the license, to the buyer.
pub open spec fn is_license_email(e: Email, s: MailService, n: PurchaseNotice) -> bool {
    &&& e.from == s.from
    &&& is_address(e.to, n.buyer_email@, Some(n.customer@))
    &&& e.subject@ == "Your "@ + n.product_display@ + " license"@
    &&& e.body@ == license_body(n)
}

/// Whether an email is the notice of a sale, to the operator.
pub open spec fn is_operator_email(e: Email, s: MailService, n: PurchaseNotice) -> bool {
    &&& e.from == s.from
    &&& s.operator == Some(e.to)
    &&& e.subject@ == "New license sold: "@ + n.product_display@
    &&& e.body@ == operator_body(n)
}

/// The emails about a sale.
#[derive(Debug)]
pub struct PurchaseEmails {
    /// For the buyer, unless the address is unknown.
    pub license: Option<Email>,
    /// For the operator, if there is one.
    pub operator: Option<Email>,
}

impl MailService {
    /// The email with the license.
    pub fn build_license_email(&self, n: &PurchaseNotice) -> (e: Email)
        ensures
            is_license_email(e, *self, *n),
            e.to.email@ == n.buyer_email@,
            has_line(e.body@, "License key:\n"@, n.license_blob@),
            has_line(e.body@, "License ID: "@, n.license_id@),
            has_line(e.body@, "Expires:    "@, expiry_text(n.expires_at)),
    {
        proof {
            lemma_license_email_carries_the_license(*n);
        }
        let expiry = format_expiry(n.expires_at);
        let mut body = join3(
            "Hi,\n\nthank you for your purchase. Your ",
            &n.product_display,
            " license is below.\n\nLicense key:\n",
        );
        body.append(&join3(&n.license_blob, "\n\nLicense ID: ", &n.license_id));
        body.append(
            &join3(
                "\nExpires:    ",
                &expiry,
                "\n\nKeep this key safe; it is your proof of license.\n",
            ),
        );
        Email {
            from: self.from.clone(),
            to: to_address(n.buyer_email.clone(), Some(n.customer.clone())),
            subject: join3("Your ", &n.product_display, " license"),
            body,
        }
    }

    /// The notice of a sale, to an operator.
    pub fn build_operator_email(&self, operator: &Address, n: &PurchaseNotice) -> (e: Email)
        ensures
            e.from == self.from,
            e.to == *operator,
            e.subject@ == "New license sold: "@ + n.product_display@,
            e.body@ == operator_body(*n),
            has_line(e.body@, "License ID:  "@, n.license_id@),
            has_line(e.body@, "Price:       "@, n.price_label@),
    {
        proof {
            lemma_operator_email_tells_of_the_sale(*n);
        }
        let expiry = format_expiry(n.expires_at);
        let buyer: &str = if n.buyer_email.as_str().is_empty() {
            "(none)"
        } else {
            n.buyer_email.as_str()
        };
        let mut body = join3(
            "A new license was sold.\n\nProduct:     ",
            &n.product_display,
            "\nCustomer:    ",
        );
        body.append(&join3(&n.customer, "\nBuyer email: ", buyer));
        body.append(&join3("\nPrice:       ", &n.price_label, "\nLicense ID:  "));
        body.append(&join3(&n.license_id, "\nExpires:     ", &expiry));
        body.append("\n");
        Email {
            from: self.from.clone(),
            to: operator.clone(),
            subject: join2("New license sold: ", &n.product_display),
            body,
        }
    }

    /// The emails about a sale.
    pub fn purchase_emails(&self, n: &PurchaseNotice) -> (r: PurchaseEmails)
        ensures
            match r.license {
                Some(e) => n.buyer_email@.len() > 0 && is_license_email(e, *self, *n),
                None => n.buyer_email@.len() == 0,
            },
            match r.operator {
                Some(e) => self.operator is Some && is_operator_email(e, *self, *n),
                None => self.operator is None,
            },
            r.license is Some <==> n.buyer_email@.len() > 0,
            r.license matches Some(e) ==> e.to.email@ == n.buyer_email@ && e.from == self.from
                && has_line(e.body@, "License key:\n"@, n.license_blob@),
            r.operator is Some <==> self.operator is Some,
            r.operator matches Some(e) ==> self.operator == Some(e.to) && e.from == self.from
                && has_line(e.body@, "License ID:  "@, n.license_id@),
    {
        let license = if n.buyer_email.as_str().is_empty() {
            None
        } else {
            Some(self.build_license_email(n))
        };
        let operator = match &self.operator {
            Some(a) => Some(self.build_operator_email(a, n)),
            None => None,
        };
        PurchaseEmails { license, operator }
    }
}

/// Which of the two emails about a sale.
#[derive(Debug, Clone, Copy, PartialEq, Eq, Structural)]
pub enum EmailKind {
    License,
    Operator,
}

/// How an attempt to send an email went.
#[derive(Debug, Clone, Copy, PartialEq, Eq, Structural)]
pub enum Attempt {
    Sent,
    /// It failed, and may work another time.
    FailedForNow,
    /// It failed for good.
    Failed,
}

/// What follows an attempt to send an email.
#[derive(Debug, Clone, Copy, PartialEq, Eq, Structural)]
pub enum AfterAttempt {
    Done,
    Retry,
    /// Say so in the log, and leave it at that.
    GiveUp,
}

/// What follows the `n`th attempt to send an email.
pub open spec fn after_attempt_of(kind: EmailKind, n: u32, how: Attempt) -> AfterAttempt {
    match how {
        Attempt::Sent => AfterAttempt::Done,
        Attempt::FailedForNow => if kind is License && n == 1 {
            AfterAttempt::Retry
        } else {
            AfterAttempt::GiveUp
        },
        Attempt::Failed => AfterAttempt::GiveUp,
    }
}

/// No email is sent twice, or tried a third time. Only the one with the license
/// is tried again, and only after a failure that may pass.
pub proof fn lemma_at_most_two_attempts(kind: EmailKind, n: u32, how: Attempt)
    ensures
        after_attempt_of(kind, n, how) is Done <==> how is Sent,
        n >= 2 ==> !(after_attempt_of(kind, n, how) is Retry),
        after_attempt_of(kind, n, how) is Retry ==> kind is License && how is FailedForNow,
        after_attempt_of(EmailKind::License, 1, Attempt::FailedForNow) is Retry,
        how is Failed ==> after_attempt_of(kind, n, how) is GiveUp,
{
}

/// What follows the `n`th attempt to send an email: the one with the license is
/// tried a second time if the first failed for now.
pub fn after_attempt(kind: EmailKind, n: u32, how: Attempt) -> (r: AfterAttempt)
    ensures
        r == after_attempt_of(kind, n, how),
        r is Done <==> how is Sent,
        r is Retry <==> how is FailedForNow && kind is License && n == 1,
{
    match how {
        Attempt::Sent => AfterAttempt::Done,
        Attempt::FailedForNow => if kind == EmailKind::License && n == 1 {
            AfterAttempt::Retry
        } else {
            AfterAttempt::GiveUp
        },
        Attempt::Failed => AfterAttempt::GiveUp,
    }
}

/// Each setting of the environment reaches the table under its own key, as what
/// it is, and no other key is touched.
pub proof fn lemma_variables_have_their_keys(v: EmailVariables, s: String, n: i64)
    ensures
        v.from_address == Some(s) ==> override_under(v, "from_address"@) == Some(Setting::Text(s)),
        v.from_name == Some(s) ==> override_under(v, "from_name"@) == Some(Setting::Text(s)),
        v.operator_address == Some(s) ==> override_under(v, "operator_address"@) == Some(
            Setting::Text(s),
        ),
        v.operator_name == Some(s) ==> override_under(v, "operator_name"@) == Some(
            Setting::Text(s),
        ),
        v.provider == Some(s) ==> override_under(v, "provider"@) == Some(Setting::Text(s)),
        v.token == Some(s) ==> override_under(v, "token"@) == Some(Setting::Text(s)),
        v.host == Some(s) ==> override_under(v, "host"@) == Some(Setting::Text(s)),
        v.tls == Some(s) ==> override_under(v, "tls"@) == Some(Setting::Text(s)),
        v.user == Some(s) ==> override_under(v, "user"@) == Some(Setting::Text(s)),
        v.pass == Some(s) ==> override_under(v, "pass"@) == Some(Setting::Text(s)),
        v.port == Some(s) && crate::text::written_i64(s@) == Some(n) ==> override_under(v, "port"@)
            == Some(Setting::Integer(n)),
        v.enabled == Some(s) ==> override_under(v, "enabled"@) == Some(
            Setting::Boolean(s@ == "1"@ || s@ == "true"@ || s@ == "yes"@ || s@ == "on"@),
        ),
{
    lemma_keys_differ();
}

/// A variable that is not set leaves what the file says.
pub proof fn lemma_unset_variables_change_nothing(v: EmailVariables, key: Seq<char>)
    requires
        v.from_address is None,
        v.from_name is None,
        v.operator_address is None,
        v.operator_name is None,
        v.provider is None,
        v.token is None,
        v.host is None,
        v.tls is None,
        v.user is None,
        v.pass is None,
        v.port is None,
        v.enabled is None,
    ensures
        override_under(v, key) is None,
        !has_bad_port(v),
{
}

/// With email settings in a file and none in the environment, the settings are
/// those of the file, if a provider is among them; with a variable set, it wins
/// over the file.
pub proof fn lemma_file_and_environment(
    r: Result<Option<toml::Table>, MailError>,
    base: Map<Seq<char>, toml::Value>,
    v: EmailVariables,
    key: Seq<char>,
)
    requires
        is_loaded(r, base, v),
        !has_bad_port(v),
    ensures
        r is Ok,
        r->Ok_0 is Some <==> base.contains_key("provider"@) || override_under(v, "provider"@)
            is Some,
        r->Ok_0 matches Some(t) ==> {
            let m = crate::tables::entries(t);
            &&& override_under(v, key) is None ==> (m.contains_key(key) <==> base.contains_key(key))
            &&& override_under(v, key) is None && base.contains_key(key) ==> m[key] == base[key]
            &&& override_under(v, key) matches Some(x) ==> m.contains_key(key) && m[key]
                == toml_value(x@)
        },
{
    if let Ok(Some(t)) = r {
        let m = crate::tables::entries(t);
        assert(crate::tables::value_under(m, key) == match override_under(v, key) {
            Some(setting) => Some(toml_value(setting@)),
            None => crate::tables::value_under(base, key),
        });
    }
}

/// The settings are complete exactly if there is an address to send from, and a
/// token where the provider needs one. A complete service sends from that
/// address, and tells the operator that is named, if one is.
pub proof fn lemma_complete_settings_make_a_service(s: MailService, cfg: EmailConfig)
    ensures
        mail_problem(cfg) is None <==> cfg.from_address is Some && !(cfg.provider matches
            Provider::Lettermint { token } && token@.len() == 0),
        is_service_of(s, cfg) ==> cfg.from_address is Some && s.from.email@
            == cfg.from_address->0@ && s.provider == cfg.provider,
        is_service_of(s, cfg) ==> (s.operator is Some <==> cfg.operator_address is Some),
        is_service_of(s, cfg) && cfg.operator_address is Some ==> s.operator->0.email@
            == cfg.operator_address->0@,
        is_service_of(s, cfg) && cfg.from_name is Some && cfg.from_name->0@.len() > 0
            ==> s.from.name is Some && s.from.name->0@ == cfg.from_name->0@,
        is_service_of(s, cfg) ==> (cfg.from_name is None ==> s.from.name is None),
{
}

/// An empty value counts as none, and any other stays as it is.
pub proof fn lemma_blank_is_none(v: Option<String>)
    ensures
        non_blank(v) is Some <==> v is Some && v->0@.len() > 0,
        non_blank(v) is Some ==> non_blank(v) == v,
{
}

/// The subjects of the emails name the product.
pub proof fn lemma_subjects_name_the_product(
    license: Email,
    notice: Email,
    s: MailService,
    n: PurchaseNotice,
)
    requires
        is_license_email(license, s, n),
        is_operator_email(notice, s, n),
    ensures
        license.subject@ == "Your "@ + n.product_display@ + " license"@,
        n.product_display@.is_suffix_of(notice.subject@),
        "New license sold: "@.is_prefix_of(notice.subject@),
{
    let all = notice.subject@;
    let start = "New license sold: "@;
    assert(all.subrange(all.len() - n.product_display@.len(), all.len() as int)
        =~= n.product_display@);
    assert(all.subrange(0, start.len() as int) =~= start);
}

/// Each variable on email is asked for by its own name.
pub proof fn lemma_email_variables_have_their_names<F: Fn(&str) -> Option<String>>(
    get: F,
    v: EmailVariables,
)
    requires
        email_answers(get, v),
    ensures
        call_ensures(get, ("SIGNET_EMAIL__FROM_ADDRESS",), v.from_address),
        call_ensures(get, ("SIGNET_EMAIL__FROM_NAME",), v.from_name),
        call_ensures(get, ("SIGNET_EMAIL__OPERATOR_ADDRESS",), v.operator_address),
        call_ensures(get, ("SIGNET_EMAIL__OPERATOR_NAME",), v.operator_name),
        call_ensures(get, ("SIGNET_EMAIL__PROVIDER",), v.provider),
        call_ensures(get, ("SIGNET_EMAIL__TOKEN",), v.token),
        call_ensures(get, ("SIGNET_EMAIL__HOST",), v.host),
        call_ensures(get, ("SIGNET_EMAIL__TLS",), v.tls),
        call_ensures(get, ("SIGNET_EMAIL__USER",), v.user),
        call_ensures(get, ("SIGNET_EMAIL__PASS",), v.pass),
        call_ensures(get, ("SIGNET_EMAIL__PORT",), v.port),
        call_ensures(get, ("SIGNET_EMAIL__ENABLED",), v.enabled),
{
}

/// A port is refused exactly if it is set and is no number, and is named then.
pub proof fn lemma_bad_ports_are_refused(
    r: Result<Option<toml::Table>, MailError>,
    base: Map<Seq<char>, toml::Value>,
    v: EmailVariables,
)
    requires
        is_loaded(r, base, v),
    ensures
        r is Err <==> v.port is Some && crate::text::written_i64(v.port->0@) is None,
        r matches Err(e) ==> e is BadPort && e->BadPort_0 == v.port->0,
{
}

/// The settings of a file are those in its section on email. A file without the
/// section has none, as has no file; one that cannot be read, or in which the
/// section is no table, is refused.
pub proof fn lemma_settings_are_in_their_section(text: Seq<char>)
    ensures
        section_of(None) == Ok::<Map<Seq<char>, toml::Value>, SectionProblem>(Map::empty()),
        crate::tables::file_entries(text) matches Err(words) ==> section_of(Some(text)) == Err::<
            Map<Seq<char>, toml::Value>,
            SectionProblem,
        >(SectionProblem::BadFile(words)),
        crate::tables::file_entries(text) matches Ok(root) ==> {
            &&& !root.contains_key("email"@) ==> section_of(Some(text)) == Ok::<
                Map<Seq<char>, toml::Value>,
                SectionProblem,
            >(Map::empty())
            &&& root.contains_key("email"@) && crate::tables::value_entries(root["email"@]) is Some
                ==> section_of(Some(text)) == Ok::<Map<Seq<char>, toml::Value>, SectionProblem>(
                crate::tables::value_entries(root["email"@])->0,
            )
            &&& root.contains_key("email"@) && crate::tables::value_entries(root["email"@]) is None
                ==> section_of(Some(text)) == Err::<Map<Seq<char>, toml::Value>, SectionProblem>(
                SectionProblem::NotATable,
            )
        },
{
}

/// A problem with a file is told with its path.
pub proof fn lemma_problems_name_the_file(e: MailError, problem: SectionProblem, file: Seq<char>)
    requires
        tells_of(e, problem, file),
    ensures
        problem is NotATable ==> e is NotATable && e->NotATable_path@ == file,
        problem matches SectionProblem::BadFile(words) ==> e is BadFile && e->BadFile_path@ == file
            && e->BadFile_reason@ == words,
{
}

} // verus!
