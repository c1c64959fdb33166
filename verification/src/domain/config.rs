//! The configuration file's model and its semantic validation.
use vstd::prelude::*;

use crate::address::{parse_url, url_parse, UrlParts};
use crate::order::{lex_le, text_le};
use crate::domain::repository::{
    path_push, push_path, spec_identity, spec_parse, RefErrView, RefView, RepositoryRef,
    RepositoryRefError,
};
use crate::text::{
    ascii_lower, chars, concat, contains_char, contains_seq, count, count_char, ends_with, equal,
    has_char, has_infix, has_prefix, has_suffix, is_white, is_whitespace, join, join_with,
    split, split_char, starts_with, string_of, to_ascii_lowercase,
};

verus! {

broadcast use vstd::seq::group_seq_axioms;

#[derive(Debug, Clone)]
pub struct ProviderConfig {
    pub preset: String,
    pub prefix: String,
    pub api_url: Option<String>,
    pub auth: Option<String>,
    pub token_env: Option<String>,
    pub username_env: Option<String>,
    pub password_env: Option<String>,
    pub ssh_user: Option<String>,
    pub ssh_port: Option<u16>,
}

impl Default for ProviderConfig {
    /// A provider with no preset, no prefix and nothing else configured.
    fn default() -> (r: ProviderConfig)
        ensures
            r.preset@.len() == 0,
            r.prefix@.len() == 0,
            r.api_url.is_none(),
            r.auth.is_none(),
            r.token_env.is_none(),
            r.username_env.is_none(),
            r.password_env.is_none(),
            r.ssh_user.is_none(),
            r.ssh_port.is_none(),
    {
        ProviderConfig {
            preset: String::new(),
            prefix: String::new(),
            api_url: None,
            auth: None,
            token_env: None,
            username_env: None,
            password_env: None,
            ssh_user: None,
            ssh_port: None,
        }
    }
}

#[derive(Debug, Clone)]
pub struct RepositoryDeclaration {
    pub url: String,
    pub post_clone: Option<String>,
    pub exclude: Vec<String>,
}

/// A provider configured for a host.
#[derive(Debug, Clone)]
pub struct ProviderEntry {
    pub host: String,
    pub provider: ProviderConfig,
}

/// The configuration: providers by host (in ascending host order, each host once) and
/// repository declarations in file order.
#[derive(Debug, Clone)]
pub struct Config {
    pub root: String,
    pub providers: Vec<ProviderEntry>,
    pub repositories: Vec<RepositoryDeclaration>,
}

#[derive(Debug, Clone, PartialEq, Eq)]
pub enum ConfigError {
    InvalidRoot(String),
    EmptyRoot,
    Semantic(String),
}

pub struct ProviderView {
    pub preset: Seq<char>,
    pub prefix: Seq<char>,
    pub api_url: Option<Seq<char>>,
    pub auth: Option<Seq<char>>,
    pub token_env: Option<Seq<char>>,
    pub username_env: Option<Seq<char>>,
    pub password_env: Option<Seq<char>>,
    pub ssh_user: Option<Seq<char>>,
    pub ssh_port: Option<u16>,
}

pub struct DeclView {
    pub url: Seq<char>,
    pub post_clone: Option<Seq<char>>,
    pub exclude: Seq<Seq<char>>,
}

pub struct ConfigView {
    pub root: Seq<char>,
    pub providers: Seq<(Seq<char>, ProviderView)>,
    pub repositories: Seq<DeclView>,
}

pub enum ConfigErrView {
    InvalidRoot(Seq<char>),
    EmptyRoot,
    Semantic(Seq<char>),
}

impl View for ProviderConfig {
    type V = ProviderView;

    open spec fn view(&self) -> ProviderView {
        ProviderView {
            preset: self.preset@,
            prefix: self.prefix@,
            api_url: self.api_url.deep_view(),
            auth: self.auth.deep_view(),
            token_env: self.token_env.deep_view(),
            username_env: self.username_env.deep_view(),
            password_env: self.password_env.deep_view(),
            ssh_user: self.ssh_user.deep_view(),
            ssh_port: self.ssh_port,
        }
    }
}

impl View for RepositoryDeclaration {
    type V = DeclView;

    open spec fn view(&self) -> DeclView {
        DeclView { url: self.url@, post_clone: self.post_clone.deep_view(), exclude: self.exclude.deep_view() }
    }
}

impl View for Config {
    type V = ConfigView;

    open spec fn view(&self) -> ConfigView {
        ConfigView {
            root: self.root@,
            providers: self.providers@.map_values(|e: ProviderEntry| (e.host@, e.provider@)),
            repositories: self.repositories@.map_values(|d: RepositoryDeclaration| d@),
        }
    }
}

impl View for ConfigError {
    type V = ConfigErrView;

    open spec fn view(&self) -> ConfigErrView {
        match self {
            ConfigError::InvalidRoot(v) => ConfigErrView::InvalidRoot(v@),
            ConfigError::EmptyRoot => ConfigErrView::EmptyRoot,
            ConfigError::Semantic(m) => ConfigErrView::Semantic(m@),
        }
    }
}

pub open spec fn unit_result_view(r: Result<(), ConfigError>) -> Result<(), ConfigErrView> {
    match r {
        Ok(()) => Ok(()),
        Err(e) => Err(e@),
    }
}

pub open spec fn semantic(m: Seq<char>) -> Result<(), ConfigErrView> {
    Err(ConfigErrView::Semantic(m))
}

// ---------------------------------------------------------------------------
// Portable paths
// ---------------------------------------------------------------------------

/// `PathBuf::join`: an absolute path replaces the base.
pub open spec fn path_join(base: Seq<char>, p: Seq<char>) -> Seq<char> {
    if has_prefix(p, "/"@) {
        p
    } else {
        path_push(base, p)
    }
}

pub open spec fn has_segment(segs: Seq<Seq<char>>, s: Seq<char>) -> bool {
    exists|i: int| 0 <= i < segs.len() && segs[i] == s
}

/// Where a configured root (`~`, `~/…` or relative to HOME) lies, or why it cannot.
pub open spec fn spec_resolve_portable_path(value: Seq<char>, home: Seq<char>) -> Result<Seq<char>, ConfigErrView> {
    if value.len() == 0 {
        Err(ConfigErrView::EmptyRoot)
    } else if has_prefix(value, "/"@) || has_segment(split(value, '/'), ".."@) {
        Err(ConfigErrView::InvalidRoot(value))
    } else if value == "~"@ {
        Ok(home)
    } else if has_prefix(value, "~/"@) {
        Ok(path_join(home, value.subrange(2, value.len() as int)))
    } else {
        Ok(path_push(home, value))
    }
}

/// The normal components of a relative path, rejoined with single slashes.
pub open spec fn normal_form(value: Seq<char>) -> Seq<char> {
    join(crate::domain::repository::keep_segments(split(value, '/')), "/"@)
}

/// Whether `value` escapes its owner: absolute, home-relative, current or parent components.
pub open spec fn escapes_owner(value: Seq<char>) -> bool {
    has_prefix(value, "/"@) || value == "~"@ || has_prefix(value, "~/"@) || has_segment(split(value, '/'), ".."@)
        || split(value, '/')[0] == "."@
}

pub open spec fn spec_validate_component_path(value: Seq<char>, empty_allowed: bool, field: Seq<char>) -> Result<(), ConfigErrView> {
    if value.len() == 0 {
        if empty_allowed {
            Ok(())
        } else {
            semantic(field + " cannot be empty"@)
        }
    } else if escapes_owner(value) {
        semantic(field + " must remain below its owner: "@ + value)
    } else if normal_form(value) != value {
        semantic(field + " must be normalized: "@ + value)
    } else {
        Ok(())
    }
}

fn err_text(m: &[char]) -> (r: Result<(), ConfigError>)
    ensures
        unit_result_view(r) == semantic(m@),
{
    Err(ConfigError::Semantic(string_of(m)))
}

fn cat3(a: &[char], b: &[char], c: &[char]) -> (r: Vec<char>)
    ensures
        r@ == a@ + b@ + c@,
{
    concat(&concat(a, b), c)
}

fn segment_present(segs: &Vec<Vec<char>>, s: &[char]) -> (r: bool)
    ensures
        r == has_segment(segs@.map_values(|v: Vec<char>| v@), s@),
{
    let ghost views = segs@.map_values(|v: Vec<char>| v@);
    let mut i: usize = 0;
    while i < segs.len()
        invariant
            i <= segs@.len(),
            views == segs@.map_values(|v: Vec<char>| v@),
            forall|j: int| 0 <= j < i ==> views[j] != s@,
        decreases segs.len() - i,
    {
        if equal(&segs[i], s) {
            assert(views[i as int] == s@);
            return true;
        }
        i += 1;
    }
    false
}

/// Resolves a configured root against HOME.
pub fn resolve_portable_path(value: &str, home: &str) -> (r: Result<String, ConfigError>)
    ensures
        match r {
            Ok(p) => spec_resolve_portable_path(value@, home@) == Ok::<Seq<char>, ConfigErrView>(p@),
            Err(e) => spec_resolve_portable_path(value@, home@) == Err::<Seq<char>, ConfigErrView>(e@),
        },
{
    let v = chars(value);
    if v.len() == 0 {
        return Err(ConfigError::EmptyRoot);
    }
    let segs = split_char(&v, '/');
    if starts_with(&v, &chars("/")) || segment_present(&segs, &chars("..")) {
        return Err(ConfigError::InvalidRoot(string_of(&v)));
    }
    let h = chars(home);
    if equal(&v, &chars("~")) {
        return Ok(string_of(&h));
    }
    if starts_with(&v, &chars("~/")) {
        proof {
            reveal_strlit("~/");
        }
        let relative = crate::text::slice(&v, 2, v.len());
        if starts_with(&relative, &chars("/")) {
            return Ok(string_of(&relative));
        }
        return Ok(string_of(&push_path(&h, &relative)));
    }
    Ok(string_of(&push_path(&h, &v)))
}

fn normal_form_of(v: &[char]) -> (r: Vec<char>)
    ensures
        r@ == normal_form(v@),
{
    let segs = split_char(v, '/');
    let kept = crate::domain::repository::keep_path_segments(&segs);
    join_with(&kept, &chars("/"))
}

/// Checks that a configured relative path stays below its owner and is written normally.
pub fn validate_portable_component_path(value: &str, empty_allowed: bool, field: &str) -> (r: Result<(), ConfigError>)
    ensures
        unit_result_view(r) == spec_validate_component_path(value@, empty_allowed, field@),
{
    let v = chars(value);
    let f = chars(field);
    if v.len() == 0 {
        if empty_allowed {
            return Ok(());
        }
        return err_text(&concat(&f, &chars(" cannot be empty")));
    }
    let segs = split_char(&v, '/');
    let escapes = starts_with(&v, &chars("/")) || equal(&v, &chars("~")) || starts_with(&v, &chars("~/"))
        || segment_present(&segs, &chars("..")) || equal(&segs[0], &chars("."));
    if escapes {
        return err_text(&cat3(&f, &chars(" must remain below its owner: "), &v));
    }
    if !equal(&normal_form_of(&v), &v) {
        return err_text(&cat3(&f, &chars(" must be normalized: "), &v));
    }
    Ok(())
}


// ---------------------------------------------------------------------------
// Providers
// ---------------------------------------------------------------------------

pub open spec fn host_invalid(host: Seq<char>) -> bool {
    host.len() == 0 || host != ascii_lower(host) || has_char(host, '/') || has_char(host, '@')
        || has_infix(host, "://"@) || exists|i: int| 0 <= i < host.len() && is_white(#[trigger] host[i])
}

pub open spec fn is_env_char(c: char) -> bool {
    c == '_' || ('a' <= c && c <= 'z') || ('A' <= c && c <= 'Z') || ('0' <= c && c <= '9')
}

pub open spec fn env_name_ok(v: Option<Seq<char>>) -> bool {
    match v {
        Some(n) => n.len() > 0 && forall|i: int| 0 <= i < n.len() ==> is_env_char(#[trigger] n[i]),
        None => false,
    }
}

pub open spec fn spec_require_env_name(host: Seq<char>, field: Seq<char>, v: Option<Seq<char>>) -> Result<(), ConfigErrView> {
    if env_name_ok(v) {
        Ok(())
    } else {
        semantic("provider `"@ + host + "` requires a valid "@ + field)
    }
}

pub open spec fn spec_check_api_url(host: Seq<char>, api: Option<Seq<char>>) -> Result<(), ConfigErrView> {
    match api {
        None => Ok(()),
        Some(a) => match url_parse(a) {
            Err(e) => semantic("invalid API URL: "@ + e),
            Ok(parts) => if !(parts.0 == "http"@ || parts.0 == "https"@) || parts.1.is_none() || parts.3.len() > 0
                || parts.4.is_some() {
                semantic("provider `"@ + host + "` api_url must be HTTP(S), have a host, and contain no userinfo"@)
            } else {
                Ok(())
            },
        },
    }
}

pub open spec fn auth_mode(p: ProviderView) -> Seq<char> {
    match p.auth {
        Some(a) => a,
        None => "anonymous"@,
    }
}

pub open spec fn spec_check_auth(host: Seq<char>, p: ProviderView) -> Result<(), ConfigErrView> {
    let auth = auth_mode(p);
    if auth == "anonymous"@ {
        if p.token_env.is_some() || p.username_env.is_some() || p.password_env.is_some() {
            semantic("anonymous provider `"@ + host + "` cannot configure credential environment variables"@)
        } else {
            Ok(())
        }
    } else if auth == "bearer"@ {
        if !env_name_ok(p.token_env) {
            spec_require_env_name(host, "token_env"@, p.token_env)
        } else if p.username_env.is_some() || p.password_env.is_some() {
            semantic("bearer provider `"@ + host + "` cannot configure basic credentials"@)
        } else {
            Ok(())
        }
    } else if auth == "basic"@ {
        if !env_name_ok(p.username_env) {
            spec_require_env_name(host, "username_env"@, p.username_env)
        } else if !env_name_ok(p.password_env) {
            spec_require_env_name(host, "password_env"@, p.password_env)
        } else if p.token_env.is_some() {
            semantic("basic provider `"@ + host + "` cannot configure token_env"@)
        } else {
            Ok(())
        }
    } else {
        semantic("unsupported authentication mode `"@ + auth + "`"@)
    }
}

pub open spec fn spec_validate_bitbucket(host: Seq<char>, p: ProviderView, api_required: bool) -> Result<(), ConfigErrView> {
    if api_required && p.api_url.is_none() {
        semantic("Bitbucket Data Center provider `"@ + host + "` requires api_url"@)
    } else {
        match spec_check_api_url(host, p.api_url) {
            Err(e) => Err(e),
            Ok(_) => spec_check_auth(host, p),
        }
    }
}

pub open spec fn spec_validate_preset(host: Seq<char>, p: ProviderView) -> Result<(), ConfigErrView> {
    if p.preset == "github"@ {
        if p.api_url.is_some() || p.auth.is_some() || p.token_env.is_some() || p.username_env.is_some()
            || p.password_env.is_some() {
            semantic("GitHub provider `"@ + host + "` uses gh authentication and cannot configure REST credentials"@)
        } else {
            Ok(())
        }
    } else if p.preset == "bitbucket-cloud"@ {
        spec_validate_bitbucket(host, p, false)
    } else if p.preset == "bitbucket-data-center"@ {
        spec_validate_bitbucket(host, p, true)
    } else {
        semantic("unknown provider preset `"@ + p.preset + "` for `"@ + host + "`"@)
    }
}

pub open spec fn ssh_user_invalid(u: Option<Seq<char>>) -> bool {
    match u {
        Some(v) => v.len() == 0 || has_char(v, '@') || has_char(v, '/') || has_char(v, ':'),
        None => false,
    }
}

pub open spec fn spec_validate_provider(host: Seq<char>, p: ProviderView) -> Result<(), ConfigErrView> {
    if host_invalid(host) {
        semantic("provider host is invalid: "@ + host)
    } else {
        match spec_validate_component_path(p.prefix, true, "provider prefix"@) {
            Err(e) => Err(e),
            Ok(_) => match spec_validate_preset(host, p) {
                Err(e) => Err(e),
                Ok(_) => if p.ssh_port == Some(0u16) {
                    semantic("provider `"@ + host + "` has invalid ssh_port 0"@)
                } else if ssh_user_invalid(p.ssh_user) {
                    semantic("provider `"@ + host + "` has invalid ssh_user"@)
                } else {
                    Ok(())
                },
            },
        }
    }
}

fn opt_chars(o: &Option<String>) -> (r: Option<Vec<char>>)
    ensures
        match r {
            Some(v) => o.deep_view() == Some(v@),
            None => o.is_none(),
        },
{
    match o {
        Some(s) => Some(chars(s.as_str())),
        None => None,
    }
}

fn host_is_invalid(host: &[char]) -> (r: bool)
    ensures
        r == host_invalid(host@),
{
    if host.len() == 0 || !equal(host, &to_ascii_lowercase(host)) || contains_char(host, '/')
        || contains_char(host, '@') || contains_seq(host, &chars("://")) {
        return true;
    }
    let mut i: usize = 0;
    while i < host.len()
        invariant
            i <= host@.len(),
            forall|j: int| 0 <= j < i ==> !is_white(#[trigger] host@[j]),
        decreases host.len() - i,
    {
        if is_whitespace(host[i]) {
            return true;
        }
        i += 1;
    }
    false
}

fn require_env_name(host: &[char], field: &str, value: &Option<String>) -> (r: Result<(), ConfigError>)
    ensures
        unit_result_view(r) == spec_require_env_name(host@, field@, value.deep_view()),
{
    let ok = match value {
        Some(name) => {
            let n = chars(name.as_str());
            let mut good = n.len() > 0;
            let mut i: usize = 0;
            while i < n.len()
                invariant
                    i <= n@.len(),
                    good == (n@.len() > 0 && forall|j: int| 0 <= j < i ==> is_env_char(#[trigger] n@[j])),
                decreases n.len() - i,
            {
                let c = n[i];
                if !(c == '_' || ('a' <= c && c <= 'z') || ('A' <= c && c <= 'Z') || ('0' <= c && c <= '9')) {
                    good = false;
                }
                i += 1;
            }
            good
        },
        None => false,
    };
    if ok {
        Ok(())
    } else {
        err_text(&concat(&cat3(&chars("provider `"), host, &chars("` requires a valid ")), &chars(field)))
    }
}

fn check_api_url(host: &[char], api: &Option<String>) -> (r: Result<(), ConfigError>)
    ensures
        unit_result_view(r) == spec_check_api_url(host@, api.deep_view()),
{
    match api {
        None => Ok(()),
        Some(a) => match parse_url(a.as_str()) {
            Err(e) => err_text(&concat(&chars("invalid API URL: "), &chars(e.as_str()))),
            Ok(url) => {
                let scheme = chars(url.scheme.as_str());
                let web = equal(&scheme, &chars("http")) || equal(&scheme, &chars("https"));
                if !web || url.host.is_none() || url.username.unicode_len() > 0 || url.password.is_some() {
                    err_text(&cat3(&chars("provider `"), host, &chars("` api_url must be HTTP(S), have a host, and contain no userinfo")))
                } else {
                    Ok(())
                }
            },
        },
    }
}

fn check_auth(host: &[char], p: &ProviderConfig) -> (r: Result<(), ConfigError>)
    ensures
        unit_result_view(r) == spec_check_auth(host@, p@),
{
    let auth = match &p.auth {
        Some(a) => chars(a.as_str()),
        None => chars("anonymous"),
    };
    if equal(&auth, &chars("anonymous")) {
        if p.token_env.is_some() || p.username_env.is_some() || p.password_env.is_some() {
            return err_text(&cat3(&chars("anonymous provider `"), host, &chars("` cannot configure credential environment variables")));
        }
        return Ok(());
    }
    if equal(&auth, &chars("bearer")) {
        require_env_name(host, "token_env", &p.token_env)?;
        if p.username_env.is_some() || p.password_env.is_some() {
            return err_text(&cat3(&chars("bearer provider `"), host, &chars("` cannot configure basic credentials")));
        }
        return Ok(());
    }
    if equal(&auth, &chars("basic")) {
        require_env_name(host, "username_env", &p.username_env)?;
        require_env_name(host, "password_env", &p.password_env)?;
        if p.token_env.is_some() {
            return err_text(&cat3(&chars("basic provider `"), host, &chars("` cannot configure token_env")));
        }
        return Ok(());
    }
    err_text(&cat3(&chars("unsupported authentication mode `"), &auth, &chars("`")))
}

fn validate_bitbucket(host: &[char], p: &ProviderConfig, api_required: bool) -> (r: Result<(), ConfigError>)
    ensures
        unit_result_view(r) == spec_validate_bitbucket(host@, p@, api_required),
{
    if api_required && p.api_url.is_none() {
        return err_text(&cat3(&chars("Bitbucket Data Center provider `"), host, &chars("` requires api_url")));
    }
    check_api_url(host, &p.api_url)?;
    check_auth(host, p)
}

fn validate_preset(host: &[char], p: &ProviderConfig) -> (r: Result<(), ConfigError>)
    ensures
        unit_result_view(r) == spec_validate_preset(host@, p@),
{
    let preset = chars(p.preset.as_str());
    if equal(&preset, &chars("github")) {
        if p.api_url.is_some() || p.auth.is_some() || p.token_env.is_some() || p.username_env.is_some()
            || p.password_env.is_some() {
            return err_text(&cat3(&chars("GitHub provider `"), host, &chars("` uses gh authentication and cannot configure REST credentials")));
        }
        return Ok(());
    }
    if equal(&preset, &chars("bitbucket-cloud")) {
        return validate_bitbucket(host, p, false);
    }
    if equal(&preset, &chars("bitbucket-data-center")) {
        return validate_bitbucket(host, p, true);
    }
    let msg = concat(&cat3(&chars("unknown provider preset `"), &preset, &chars("` for `")), &concat(host, &chars("`")));
    assert(msg@ =~= "unknown provider preset `"@ + preset@ + "` for `"@ + host@ + "`"@);
    err_text(&msg)
}

/// Checks one provider's host and settings.
pub fn validate_provider(host: &str, p: &ProviderConfig) -> (r: Result<(), ConfigError>)
    ensures
        unit_result_view(r) == spec_validate_provider(host@, p@),
{
    let h = chars(host);
    if host_is_invalid(&h) {
        return err_text(&concat(&chars("provider host is invalid: "), &h));
    }
    validate_portable_component_path(p.prefix.as_str(), true, "provider prefix")?;
    validate_preset(&h, p)?;
    if p.ssh_port == Some(0u16) {
        return err_text(&cat3(&chars("provider `"), &h, &chars("` has invalid ssh_port 0")));
    }
    let invalid_user = match &p.ssh_user {
        Some(u) => {
            let v = chars(u.as_str());
            v.len() == 0 || contains_char(&v, '@') || contains_char(&v, '/') || contains_char(&v, ':')
        },
        None => false,
    };
    if invalid_user {
        return err_text(&cat3(&chars("provider `"), &h, &chars("` has invalid ssh_user")));
    }
    Ok(())
}


// ---------------------------------------------------------------------------
// Declarations
// ---------------------------------------------------------------------------

pub open spec fn wildcard_misplaced(url: Seq<char>) -> bool {
    count_char(url, '*') > (if has_suffix(url, "/*"@) { 1nat } else { 0nat })
}

/// A canonical `host/owner/repo` identifier (not an SSH, absolute or URL form).
pub open spec fn spec_is_canonical_id(v: Seq<char>) -> bool {
    !has_prefix(v, "git@"@) && !has_prefix(v, "/"@) && !has_infix(v, "://"@) && split(v, '/').len() >= 3
}

pub open spec fn spec_is_builtin_host(h: Seq<char>) -> bool {
    h == "github.com"@ || h == "bitbucket.org"@
}

pub open spec fn has_provider(c: ConfigView, host: Seq<char>) -> bool {
    exists|i: int| 0 <= i < c.providers.len() && (#[trigger] c.providers[i]).0 == host
}

/// The key under which a declaration is recorded: its identity, with `/*` for wildcards.
pub open spec fn decl_key(r: RefView) -> Seq<char> {
    spec_identity(r) + if r.wildcard { "/*"@ } else { Seq::empty() }
}

pub open spec fn spec_check_exclusions(excl: Seq<Seq<char>>, n: nat) -> Result<(), ConfigErrView>
    decreases n,
{
    if n == 0 {
        Ok(())
    } else {
        match spec_check_exclusions(excl, (n - 1) as nat) {
            Err(e) => Err(e),
            Ok(_) => {
                let e = excl[n - 1];
                match spec_validate_component_path(e, false, "repository exclusion"@) {
                    Err(err) => Err(err),
                    Ok(_) => if has_char(e, '*') {
                        semantic("repository exclusion must not contain a wildcard: "@ + e)
                    } else {
                        Ok(())
                    },
                }
            },
        }
    }
}

/// The checks that concern one declaration on its own, yielding its parsed reference.
pub open spec fn spec_check_declaration(c: ConfigView, d: DeclView) -> Result<RefView, ConfigErrView> {
    if wildcard_misplaced(d.url) {
        Err(ConfigErrView::Semantic("repository `"@ + d.url + "` uses a wildcard anywhere other than trailing /*"@))
    } else {
        match spec_parse(d.url) {
            Err(e) => Err(ConfigErrView::Semantic(crate::domain::repository::ref_error_text(e))),
            Ok(r) => if r.wildcard && d.post_clone.is_some() {
                Err(ConfigErrView::Semantic("wildcard declaration `"@ + d.url + "` cannot have post_clone"@))
            } else if r.wildcard && !has_provider(c, r.host) {
                Err(ConfigErrView::Semantic("wildcard declaration `"@ + d.url + "` requires a configured provider"@))
            } else if !r.wildcard && d.exclude.len() > 0 {
                Err(ConfigErrView::Semantic("explicit declaration `"@ + d.url + "` cannot have exclusions"@))
            } else if spec_is_canonical_id(d.url) && !spec_is_builtin_host(r.host) && !has_provider(c, r.host) {
                Err(ConfigErrView::Semantic("canonical repository ID `"@ + d.url + "` requires a configured provider"@))
            } else {
                match spec_check_exclusions(d.exclude, d.exclude.len()) {
                    Err(e) => Err(e),
                    Ok(_) => Ok(r),
                }
            },
        }
    }
}

/// The key of declaration `j`, if it parses.
pub open spec fn key_of(c: ConfigView, j: int) -> Option<Seq<char>> {
    match spec_parse(c.repositories[j].url) {
        Ok(r) => Some(decl_key(r)),
        Err(_) => None,
    }
}

/// The latest declaration before `i` recorded under `k`, or -1.
pub open spec fn prev_same_key(c: ConfigView, i: int, k: Seq<char>) -> int
    decreases i,
{
    if i <= 0 {
        -1
    } else if key_of(c, i - 1) == Some(k) {
        i - 1
    } else {
        prev_same_key(c, i - 1, k)
    }
}

/// What a declaration commits to: hook, exclusions and wildcard-ness.
pub open spec fn semantics_of(c: ConfigView, j: int) -> (Option<Seq<char>>, Seq<Seq<char>>, bool) {
    let d = c.repositories[j];
    (d.post_clone, d.exclude, match spec_parse(d.url) { Ok(r) => r.wildcard, Err(_) => false })
}

pub open spec fn spec_check_declaration_at(c: ConfigView, i: int) -> Result<(), ConfigErrView> {
    match spec_check_declaration(c, c.repositories[i]) {
        Err(e) => Err(e),
        Ok(r) => {
            let k = decl_key(r);
            let j = prev_same_key(c, i, k);
            if j >= 0 && semantics_of(c, j) != semantics_of(c, i) {
                semantic("conflicting declarations for `"@ + k + "`"@)
            } else {
                Ok(())
            }
        },
    }
}

pub open spec fn spec_check_declarations(c: ConfigView, n: nat) -> Result<(), ConfigErrView>
    decreases n,
{
    if n == 0 {
        Ok(())
    } else {
        match spec_check_declarations(c, (n - 1) as nat) {
            Err(e) => Err(e),
            Ok(_) => spec_check_declaration_at(c, n - 1),
        }
    }
}

pub open spec fn spec_check_providers(c: ConfigView, n: nat) -> Result<(), ConfigErrView>
    decreases n,
{
    if n == 0 {
        Ok(())
    } else {
        match spec_check_providers(c, (n - 1) as nat) {
            Err(e) => Err(e),
            Ok(_) => spec_validate_provider(c.providers[n - 1].0, c.providers[n - 1].1),
        }
    }
}

/// What `Config::validate` decides.
/// The providers are kept by host: each host sorts strictly after the one before it, so
/// they stand in ascending host order and no host is configured twice.
pub open spec fn hosts_ascending(c: ConfigView) -> bool {
    forall|i: int| 1 <= i < c.providers.len() ==> !lex_le(#[trigger] c.providers[i].0, c.providers[i - 1].0)
}

pub open spec fn hosts_order_text() -> Seq<char> {
    "providers must be kept in ascending host order, each host once"@
}

pub open spec fn spec_validate(c: ConfigView) -> Result<(), ConfigErrView> {
    match spec_resolve_portable_path(c.root, "/"@) {
        Err(e) => Err(e),
        Ok(_) => match spec_check_providers(c, c.providers.len()) {
            Err(e) => Err(e),
            Ok(_) => if !hosts_ascending(c) {
                semantic(hosts_order_text())
            } else {
                spec_check_declarations(c, c.repositories.len())
            },
        },
    }
}

proof fn lemma_exclusions_stop(excl: Seq<Seq<char>>, k: nat, n: nat)
    requires
        k <= n,
        spec_check_exclusions(excl, k) is Err,
    ensures
        spec_check_exclusions(excl, n) == spec_check_exclusions(excl, k),
    decreases n,
{
    if n > k {
        lemma_exclusions_stop(excl, k, (n - 1) as nat);
    }
}

proof fn lemma_declarations_stop(c: ConfigView, k: nat, n: nat)
    requires
        k <= n,
        spec_check_declarations(c, k) is Err,
    ensures
        spec_check_declarations(c, n) == spec_check_declarations(c, k),
    decreases n,
{
    if n > k {
        lemma_declarations_stop(c, k, (n - 1) as nat);
    }
}

proof fn lemma_providers_stop(c: ConfigView, k: nat, n: nat)
    requires
        k <= n,
        spec_check_providers(c, k) is Err,
    ensures
        spec_check_providers(c, n) == spec_check_providers(c, k),
    decreases n,
{
    if n > k {
        lemma_providers_stop(c, k, (n - 1) as nat);
    }
}

/// Whether `value` is a canonical `host/owner/repo` identifier.
pub fn is_canonical_id(value: &str) -> (r: bool)
    ensures
        r == spec_is_canonical_id(value@),
{
    let v = chars(value);
    !starts_with(&v, &chars("git@")) && !starts_with(&v, &chars("/")) && !contains_seq(&v, &chars("://"))
        && split_char(&v, '/').len() >= 3
}

/// Whether `host` is a host that needs no provider entry.
pub fn is_builtin_host(host: &str) -> (r: bool)
    ensures
        r == spec_is_builtin_host(host@),
{
    let h = chars(host);
    equal(&h, &chars("github.com")) || equal(&h, &chars("bitbucket.org"))
}

fn check_exclusions(excl: &Vec<String>) -> (r: Result<(), ConfigError>)
    ensures
        unit_result_view(r) == spec_check_exclusions(excl.deep_view(), excl@.len()),
{
    let mut i: usize = 0;
    while i < excl.len()
        invariant
            i <= excl@.len(),
            spec_check_exclusions(excl.deep_view(), i as nat) == Ok::<(), ConfigErrView>(()),
        decreases excl.len() - i,
    {
        assert(excl.deep_view()[i as int] == excl@[i as int]@);
        match validate_portable_component_path(excl[i].as_str(), false, "repository exclusion") {
            Err(e) => {
                proof {
                    lemma_exclusions_stop(excl.deep_view(), (i + 1) as nat, excl@.len());
                }
                return Err(e);
            },
            Ok(()) => {},
        }
        let e = chars(excl[i].as_str());
        if contains_char(&e, '*') {
            proof {
                lemma_exclusions_stop(excl.deep_view(), (i + 1) as nat, excl@.len());
            }
            return err_text(&concat(&chars("repository exclusion must not contain a wildcard: "), &e));
        }
        i += 1;
    }
    Ok(())
}

fn provider_index(c: &Config, host: &str) -> (r: Option<usize>)
    ensures
        match r {
            Some(i) => i < c@.providers.len() && c@.providers[i as int].0 == host@,
            None => !has_provider(c@, host@),
        },
{
    let h = chars(host);
    let mut i: usize = 0;
    while i < c.providers.len()
        invariant
            i <= c@.providers.len(),
            h@ == host@,
            forall|j: int| 0 <= j < i ==> (#[trigger] c@.providers[j]).0 != host@,
        decreases c.providers.len() - i,
    {
        let entry = &c.providers[i];
        let same = equal(&chars(entry.host.as_str()), &h);
        assert(c@.providers[i as int].0 == entry.host@);
        if same {
            return Some(i);
        }
        i += 1;
    }
    None
}

impl ConfigError {
    /// The error's text.
    pub fn message(&self) -> (r: String)
        ensures
            r@ == config_error_text(self@),
    {
        match self {
            ConfigError::InvalidRoot(v) => string_of(&concat(&chars("config root must be a portable path: "), &chars(v.as_str()))),
            ConfigError::EmptyRoot => string_of(&chars("config root cannot be empty")),
            ConfigError::Semantic(m) => string_of(&concat(&chars("invalid config: "), &chars(m.as_str()))),
        }
    }
}

/// The text of a configuration error.
pub open spec fn config_error_text(e: ConfigErrView) -> Seq<char> {
    match e {
        ConfigErrView::InvalidRoot(v) => "config root must be a portable path: "@ + v,
        ConfigErrView::EmptyRoot => "config root cannot be empty"@,
        ConfigErrView::Semantic(m) => "invalid config: "@ + m,
    }
}

fn check_declaration(c: &Config, d: &RepositoryDeclaration) -> (r: Result<RepositoryRef, ConfigError>)
    ensures
        match r {
            Ok(v) => spec_check_declaration(c@, d@) == Ok::<RefView, ConfigErrView>(v@),
            Err(e) => spec_check_declaration(c@, d@) == Err::<RefView, ConfigErrView>(e@),
        },
{
    let url = chars(d.url.as_str());
    let limit: usize = if ends_with(&url, &chars("/*")) { 1 } else { 0 };
    if count(&url, '*') > limit {
        return Err(ConfigError::Semantic(string_of(&cat3(&chars("repository `"), &url, &chars("` uses a wildcard anywhere other than trailing /*")))));
    }
    let reference = match RepositoryRef::parse(d.url.as_str()) {
        Ok(r) => r,
        Err(e) => return Err(ConfigError::Semantic(e.message())),
    };
    if reference.wildcard && d.post_clone.is_some() {
        return Err(ConfigError::Semantic(string_of(&cat3(&chars("wildcard declaration `"), &url, &chars("` cannot have post_clone")))));
    }
    let known = provider_index(c, reference.host.as_str()).is_some();
    if reference.wildcard && !known {
        return Err(ConfigError::Semantic(string_of(&cat3(&chars("wildcard declaration `"), &url, &chars("` requires a configured provider")))));
    }
    if !reference.wildcard && d.exclude.len() > 0 {
        return Err(ConfigError::Semantic(string_of(&cat3(&chars("explicit declaration `"), &url, &chars("` cannot have exclusions")))));
    }
    if is_canonical_id(d.url.as_str()) && !is_builtin_host(reference.host.as_str()) && !known {
        return Err(ConfigError::Semantic(string_of(&cat3(&chars("canonical repository ID `"), &url, &chars("` requires a configured provider")))));
    }
    match check_exclusions(&d.exclude) {
        Err(e) => Err(e),
        Ok(()) => Ok(reference),
    }
}

fn key_text(r: &RepositoryRef) -> (k: Vec<char>)
    ensures
        k@ == decl_key(r@),
{
    let identity = chars(r.identity().as_str());
    if r.wildcard {
        concat(&identity, &chars("/*"))
    } else {
        assert(identity@ + Seq::<char>::empty() =~= identity@);
        identity
    }
}

fn same_strings(a: &Vec<String>, b: &Vec<String>) -> (r: bool)
    ensures
        r == (a.deep_view() == b.deep_view()),
{
    if a.len() != b.len() {
        assert(a.deep_view().len() != b.deep_view().len());
        return false;
    }
    let mut i: usize = 0;
    while i < a.len()
        invariant
            a@.len() == b@.len(),
            i <= a@.len(),
            forall|j: int| 0 <= j < i ==> a.deep_view()[j] == b.deep_view()[j],
        decreases a.len() - i,
    {
        if !equal(&chars(a[i].as_str()), &chars(b[i].as_str())) {
            assert(a.deep_view()[i as int] != b.deep_view()[i as int]);
            return false;
        }
        i += 1;
    }
    assert(a.deep_view() =~= b.deep_view());
    true
}

fn same_option(a: &Option<String>, b: &Option<String>) -> (r: bool)
    ensures
        r == (a.deep_view() == b.deep_view()),
{
    match (a, b) {
        (Some(x), Some(y)) => equal(&chars(x.as_str()), &chars(y.as_str())),
        (None, None) => true,
        _ => false,
    }
}

impl Config {
    fn check_declaration_at(&self, j: usize, keys: &Vec<Vec<char>>, wild: &Vec<bool>) -> (r: Result<(Vec<char>, bool), ConfigError>)
        requires
            j < self@.repositories.len(),
            keys@.len() == j,
            wild@.len() == j,
            forall|m: int| 0 <= m < j ==> key_of(self@, m) == Some(#[trigger] keys@[m]@),
            forall|m: int| 0 <= m < j ==> semantics_of(self@, m).2 == #[trigger] wild@[m],
        ensures
            match r {
                Ok((k, w)) => spec_check_declaration_at(self@, j as int) == Ok::<(), ConfigErrView>(())
                    && key_of(self@, j as int) == Some(k@) && semantics_of(self@, j as int).2 == w,
                Err(e) => spec_check_declaration_at(self@, j as int) == Err::<(), ConfigErrView>(e@),
            },
    {
        let d = &self.repositories[j];
        assert(self@.repositories[j as int] == d@);
        let reference = check_declaration(self, d)?;
        proof {
            lemma_checked_parses(self@, self@.repositories[j as int]);
        }
        let key = key_text(&reference);
        let mut m = j;
        let mut found: Option<usize> = None;
        while m > 0
            invariant
                m <= j,
                j < self@.repositories.len(),
                keys@.len() == j,
                forall|q: int| 0 <= q < j ==> key_of(self@, q) == Some(#[trigger] keys@[q]@),
                found.is_none() ==> prev_same_key(self@, j as int, key@) == prev_same_key(self@, m as int, key@),
                found.is_some() ==> found.unwrap() < j && prev_same_key(self@, j as int, key@) == found.unwrap() as int,
            decreases m,
        {
            if found.is_none() && equal(&keys[m - 1], &key) {
                found = Some(m - 1);
            }
            m -= 1;
        }
        let conflict = match found {
            Some(p) => {
                let earlier = &self.repositories[p];
                assert(self@.repositories[p as int] == earlier@);
                !(same_option(&earlier.post_clone, &d.post_clone) && same_strings(&earlier.exclude, &d.exclude)
                    && wild[p] == reference.wildcard)
            },
            None => false,
        };
        if conflict {
            return Err(ConfigError::Semantic(string_of(&cat3(&chars("conflicting declarations for `"), &key, &chars("`")))));
        }
        Ok((key, reference.wildcard))
    }

    /// Where the repository root lies for this HOME.
    pub fn resolve_root(&self, home: &str) -> (r: Result<String, ConfigError>)
        ensures
            match r {
                Ok(p) => spec_resolve_portable_path(self.root@, home@) == Ok::<Seq<char>, ConfigErrView>(p@),
                Err(e) => spec_resolve_portable_path(self.root@, home@) == Err::<Seq<char>, ConfigErrView>(e@),
            },
    {
        resolve_portable_path(self.root.as_str(), home)
    }

    /// Validates every recognized semantic value before an application operation may run.
    pub fn validate(&self) -> (r: Result<(), ConfigError>)
        ensures
            unit_result_view(r) == spec_validate(self@),
    {
        match resolve_portable_path(self.root.as_str(), "/") {
            Err(e) => return Err(e),
            Ok(_) => {},
        }
        let mut i: usize = 0;
        while i < self.providers.len()
            invariant
                i <= self@.providers.len(),
                spec_resolve_portable_path(self@.root, "/"@) is Ok,
                spec_check_providers(self@, i as nat) == Ok::<(), ConfigErrView>(()),
            decreases self.providers.len() - i,
        {
            assert(self@.providers[i as int] == (self.providers@[i as int].host@, self.providers@[i as int].provider@));
            match validate_provider(self.providers[i].host.as_str(), &self.providers[i].provider) {
                Err(e) => {
                    proof {
                        lemma_providers_stop(self@, (i + 1) as nat, self@.providers.len());
                    }
                    return Err(e);
                },
                Ok(()) => {},
            }
            i += 1;
        }
        let mut k: usize = 1;
        while k < self.providers.len()
            invariant
                1 <= k,
                k <= self@.providers.len() || self@.providers.len() == 0,
                spec_resolve_portable_path(self@.root, "/"@) is Ok,
                spec_check_providers(self@, self@.providers.len()) == Ok::<(), ConfigErrView>(()),
                forall|m: int| 1 <= m < k && m < self@.providers.len() ==> !lex_le(#[trigger] self@.providers[m].0, self@.providers[m - 1].0),
            decreases self.providers.len() - k,
        {
            assert(self@.providers[k as int].0 == self.providers@[k as int].host@);
            assert(self@.providers[k - 1].0 == self.providers@[k - 1].host@);
            if text_le(&chars(self.providers[k].host.as_str()), &chars(self.providers[k - 1].host.as_str())) {
                return err_text(&chars("providers must be kept in ascending host order, each host once"));
            }
            k += 1;
        }
        // Earlier declarations' keys and parsed references, in file order.
        let mut keys: Vec<Vec<char>> = Vec::new();
        let mut wild: Vec<bool> = Vec::new();
        let mut j: usize = 0;
        while j < self.repositories.len()
            invariant
                j <= self@.repositories.len(),
                spec_resolve_portable_path(self@.root, "/"@) is Ok,
                spec_check_providers(self@, self@.providers.len()) == Ok::<(), ConfigErrView>(()),
                hosts_ascending(self@),
                spec_check_declarations(self@, j as nat) == Ok::<(), ConfigErrView>(()),
                keys@.len() == j,
                wild@.len() == j,
                forall|m: int| 0 <= m < j ==> key_of(self@, m) == Some(#[trigger] keys@[m]@),
                forall|m: int| 0 <= m < j ==> semantics_of(self@, m).2 == #[trigger] wild@[m],
            decreases self.repositories.len() - j,
        {
            let (key, wildcard) = match self.check_declaration_at(j, &keys, &wild) {
                Ok(found) => found,
                Err(e) => {
                    proof {
                        lemma_declarations_stop(self@, (j + 1) as nat, self@.repositories.len());
                    }
                    return Err(e);
                },
            };
            keys.push(key);
            wild.push(wildcard);
            j += 1;
        }
        Ok(())
    }
}

proof fn lemma_checked_parses(c: ConfigView, d: DeclView)
    ensures
        spec_check_declaration(c, d) is Ok ==> spec_parse(d.url) == Ok::<RefView, RefErrView>(spec_check_declaration(c, d)->Ok_0),
{
}


/// The first provider configured for `host`, or -1.
pub open spec fn first_provider(ps: Seq<(Seq<char>, ProviderView)>, host: Seq<char>, n: int) -> int
    decreases n,
{
    if n <= 0 {
        -1
    } else if first_provider(ps, host, n - 1) >= 0 {
        first_provider(ps, host, n - 1)
    } else if ps[n - 1].0 == host {
        n - 1
    } else {
        -1
    }
}

pub open spec fn provider_for(c: ConfigView, host: Seq<char>) -> int {
    first_provider(c.providers, host, c.providers.len() as int)
}

proof fn lemma_first_provider_stays(ps: Seq<(Seq<char>, ProviderView)>, host: Seq<char>, k: int, n: int)
    requires
        0 <= k <= n,
        first_provider(ps, host, k) >= 0,
    ensures
        first_provider(ps, host, n) == first_provider(ps, host, k),
    decreases n,
{
    if n > k {
        lemma_first_provider_stays(ps, host, k, n - 1);
    }
}

pub proof fn lemma_first_provider_bounds(ps: Seq<(Seq<char>, ProviderView)>, host: Seq<char>, n: int)
    requires
        0 <= n <= ps.len(),
    ensures
        first_provider(ps, host, n) < n,
        first_provider(ps, host, n) >= 0 ==> ps[first_provider(ps, host, n)].0 == host,
    decreases n,
{
    if n > 0 {
        lemma_first_provider_bounds(ps, host, n - 1);
    }
}

impl Config {
    /// The position of the provider configured for `host`, if any.
    pub fn find_provider(&self, host: &str) -> (r: Option<usize>)
        ensures
            match r {
                Some(i) => provider_for(self@, host@) == i as int && i < self@.providers.len(),
                None => provider_for(self@, host@) == -1,
            },
    {
        let h = chars(host);
        let mut i: usize = 0;
        while i < self.providers.len()
            invariant
                i <= self@.providers.len(),
                h@ == host@,
                first_provider(self@.providers, host@, i as int) == -1,
            decreases self.providers.len() - i,
        {
            assert(self@.providers[i as int] == (self.providers@[i as int].host@, self.providers@[i as int].provider@));
            if equal(&chars(self.providers[i].host.as_str()), &h) {
                proof {
                    lemma_first_provider_stays(self@.providers, host@, i + 1, self@.providers.len() as int);
                }
                return Some(i);
            }
            i += 1;
        }
        None
    }
}

// ---------------------------------------------------------------------------
// Laws
// ---------------------------------------------------------------------------

/// A configuration that validates has a root that resolves under every HOME.
pub proof fn law_valid_root_resolves(c: ConfigView, home: Seq<char>)
    requires
        spec_validate(c) is Ok,
    ensures
        spec_resolve_portable_path(c.root, home) is Ok,
{
}

/// A configuration that validates keeps its providers in ascending host order, each host once.
pub proof fn law_valid_hosts_ascending(c: ConfigView, i: int, j: int)
    requires
        spec_validate(c) is Ok,
        0 <= i < j < c.providers.len(),
    ensures
        c.providers[i].0 != c.providers[j].0,
        lex_le(c.providers[i].0, c.providers[j].0),
    decreases j - i,
{
    crate::order::lemma_lex_total(c.providers[j].0, c.providers[j - 1].0);
    crate::order::lemma_lex_total(c.providers[j].0, c.providers[j].0);
    assert(!lex_le(c.providers[j].0, c.providers[j - 1].0));
    if i < j - 1 {
        law_valid_hosts_ascending(c, i, j - 1);
        crate::order::lemma_lex_trans(c.providers[i].0, c.providers[j - 1].0, c.providers[j].0);
    }
}

proof fn lemma_declarations_prefix(c: ConfigView, k: nat, n: nat)
    requires
        k <= n,
        spec_check_declarations(c, n) is Ok,
    ensures
        spec_check_declarations(c, k) is Ok,
    decreases n,
{
    if n > k {
        lemma_declarations_prefix(c, k, (n - 1) as nat);
    }
}

/// In a configuration that validates, every declaration parses; a wildcard declaration
/// names a configured provider and has no hook; an explicit one has no exclusions.
pub proof fn law_valid_declarations(c: ConfigView, i: int)
    requires
        spec_validate(c) is Ok,
        0 <= i < c.repositories.len(),
    ensures
        spec_parse(c.repositories[i].url) is Ok,
        spec_parse(c.repositories[i].url)->Ok_0.wildcard ==> has_provider(c, spec_parse(c.repositories[i].url)->Ok_0.host)
            && c.repositories[i].post_clone.is_none(),
        !spec_parse(c.repositories[i].url)->Ok_0.wildcard ==> c.repositories[i].exclude.len() == 0,
{
    lemma_declarations_prefix(c, (i + 1) as nat, c.repositories.len());
    lemma_checked_parses(c, c.repositories[i]);
}

} // verus!
