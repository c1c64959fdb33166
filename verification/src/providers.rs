//! Repository discovery through the hosting providers: the requests to make, the pages to
//! follow, and how each listed repository becomes a clonable reference. The requests
//! themselves (the `gh` process, HTTP) belong to the embedding program.
use vstd::prelude::*;

use crate::address::{join_url, option_view, parse_url, url_join, url_parse, ParsedUrl, UrlParts};
use crate::application::ports::ProviderFailure;
use crate::config_file::{digits, spec_digits};
use crate::domain::config::ProviderConfig;
use crate::domain::repository::{
    ref_error_text, spec_parse, RefErrView, RefView, RepositoryRef, RepositorySummary,
};
use crate::text::{
    ascii_lower, chars, concat, equal, join, join_with, keep_non_empty, non_empty, slice, split, split_char,
    string_of, to_ascii_lowercase, trim_end_char, trim_end_matches_char, trim_end_whitespace, trim_white_end,
};

verus! {

broadcast use vstd::seq::group_seq_axioms;

// ---------------------------------------------------------------------------
// Clone URLs
// ---------------------------------------------------------------------------

pub open spec fn ssh_user_of(c: Option<Seq<char>>) -> Seq<char> {
    match c {
        Some(u) => u,
        None => "git"@,
    }
}

/// The SSH URL of a repository path on a host, with the provider's SSH user and port.
pub open spec fn spec_ssh_url(host: Seq<char>, user: Option<Seq<char>>, port: Option<u16>, path: Seq<char>) -> Seq<char> {
    match port {
        Some(p) => "ssh://"@ + ssh_user_of(user) + "@"@ + host + ":"@ + spec_digits(p as nat, 10) + "/"@ + path + ".git"@,
        None => ssh_user_of(user) + "@"@ + host + ":"@ + path + ".git"@,
    }
}

/// A provider's SSH clone URL names its configured SSH user, with or without a configured
/// port: it is the URL for the default user `git`, with `git` replaced by that user.
pub proof fn law_ssh_url_names_configured_user(host: Seq<char>, user: Seq<char>, port: Option<u16>, path: Seq<char>)
    ensures
        port is None ==> spec_ssh_url(host, None, port, path).subrange(0, 3) == "git"@
            && spec_ssh_url(host, Some(user), port, path) == user + spec_ssh_url(host, None, port, path).subrange(
            3,
            spec_ssh_url(host, None, port, path).len() as int,
        ),
        port is Some ==> spec_ssh_url(host, None, port, path).subrange(0, 9) == "ssh://git"@
            && spec_ssh_url(host, Some(user), port, path) == "ssh://"@ + user + spec_ssh_url(host, None, port, path).subrange(
            9,
            spec_ssh_url(host, None, port, path).len() as int,
        ),
{
    reveal_strlit("git");
    reveal_strlit("ssh://");
    reveal_strlit("ssh://git");
    let d = spec_ssh_url(host, None, port, path);
    match port {
        None => {
            let rest = "@"@ + host + ":"@ + path + ".git"@;
            assert(d =~= "git"@ + rest);
            assert(d.subrange(0, 3) =~= "git"@);
            assert(d.subrange(3, d.len() as int) =~= rest);
            assert(spec_ssh_url(host, Some(user), port, path) =~= user + rest);
        },
        Some(q) => {
            let rest = "@"@ + host + ":"@ + spec_digits(q as nat, 10) + "/"@ + path + ".git"@;
            assert(d =~= "ssh://git"@ + rest);
            assert(d.subrange(0, 9) =~= "ssh://git"@);
            assert(d.subrange(9, d.len() as int) =~= rest);
            assert(spec_ssh_url(host, Some(user), port, path) =~= "ssh://"@ + user + rest);
        },
    }
}

fn ssh_user(config: &ProviderConfig) -> (r: Vec<char>)
    ensures
        r@ == ssh_user_of(option_view(config.ssh_user)),
{
    match &config.ssh_user {
        Some(u) => chars(u.as_str()),
        None => chars("git"),
    }
}

/// The SSH URL through which a provider's repository is cloned.
pub fn ssh_url(host: &str, config: &ProviderConfig, path: &str) -> (r: String)
    ensures
        r@ == spec_ssh_url(host@, option_view(config.ssh_user), config.ssh_port, path@),
{
    let user = ssh_user(config);
    match config.ssh_port {
        Some(port) => string_of(&concat(&concat(&concat(&concat(&concat(&concat(&concat(&concat(&chars("ssh://"), &user), &chars("@")), &chars(host)), &chars(":")), &chars(digits(port as u64, 10).as_str())), &chars("/")), &chars(path)), &chars(".git"))),
        None => string_of(&concat(&concat(&concat(&concat(&concat(&user, &chars("@")), &chars(host)), &chars(":")), &chars(path)), &chars(".git"))),
    }
}

/// The SSH URL of a Bitbucket Data Center repository: by project key and slug, on the
/// provider's SSH port or 7999.
pub open spec fn spec_data_center_url(host: Seq<char>, user: Option<Seq<char>>, port: Option<u16>, project: Seq<char>, slug: Seq<char>) -> Seq<char> {
    let p: u16 = match port {
        Some(p) => p,
        None => 7999,
    };
    "ssh://"@ + ssh_user_of(user) + "@"@ + host + ":"@ + spec_digits(p as nat, 10) + "/"@ + project + "/"@ + slug + ".git"@
}

/// A Bitbucket Data Center clone URL names the configured SSH user as well: it is the URL for
/// the default user `git`, with `git` replaced by that user.
pub proof fn law_data_center_url_names_configured_user(
    host: Seq<char>,
    user: Seq<char>,
    port: Option<u16>,
    project: Seq<char>,
    slug: Seq<char>,
)
    ensures
        spec_data_center_url(host, None, port, project, slug).subrange(0, 9) == "ssh://git"@,
        spec_data_center_url(host, Some(user), port, project, slug) == "ssh://"@ + user + spec_data_center_url(host, None, port, project, slug).subrange(
            9,
            spec_data_center_url(host, None, port, project, slug).len() as int,
        ),
{
    reveal_strlit("git");
    reveal_strlit("ssh://");
    reveal_strlit("ssh://git");
    let d = spec_data_center_url(host, None, port, project, slug);
    let q: u16 = match port {
        Some(p) => p,
        None => 7999,
    };
    let rest = "@"@ + host + ":"@ + spec_digits(q as nat, 10) + "/"@ + project + "/"@ + slug + ".git"@;
    assert(d =~= "ssh://git"@ + rest);
    assert(d.subrange(0, 9) =~= "ssh://git"@);
    assert(d.subrange(9, d.len() as int) =~= rest);
    assert(spec_data_center_url(host, Some(user), port, project, slug) =~= "ssh://"@ + user + rest);
}

pub fn data_center_url(host: &str, config: &ProviderConfig, project: &str, slug: &str) -> (r: String)
    ensures
        r@ == spec_data_center_url(host@, option_view(config.ssh_user), config.ssh_port, project@, slug@),
{
    let user = ssh_user(config);
    let port: u16 = match config.ssh_port {
        Some(p) => p,
        None => 7999,
    };
    string_of(&concat(&concat(&concat(&concat(&concat(&concat(&concat(&concat(&concat(&concat(&chars("ssh://"), &user), &chars("@")), &chars(host)), &chars(":")), &chars(digits(port as u64, 10).as_str())), &chars("/")), &chars(project)), &chars("/")), &chars(slug)), &chars(".git")))
}

// ---------------------------------------------------------------------------
// Listed repositories
// ---------------------------------------------------------------------------

/// A clone link of a listed repository: its protocol name and URL.
#[derive(Debug, Clone, PartialEq, Eq)]
pub struct CloneLink {
    pub name: String,
    pub href: String,
}

pub open spec fn names_ssh(l: CloneLink) -> bool {
    ascii_lower(l.name@) == "ssh"@
}

/// The link a repository is read from: its first SSH link at or after `from`, else its
/// first link.
pub open spec fn first_ssh(links: Seq<CloneLink>, from: int) -> Option<int>
    decreases links.len() - from,
{
    if from < 0 || from >= links.len() {
        if links.len() > 0 {
            Some(0)
        } else {
            None
        }
    } else if names_ssh(links[from]) {
        Some(from)
    } else {
        first_ssh(links, from + 1)
    }
}

proof fn lemma_first_ssh_bounds(links: Seq<CloneLink>, from: int)
    ensures
        first_ssh(links, from) matches Some(i) ==> 0 <= i < links.len(),
    decreases links.len() - from,
{
    if 0 <= from < links.len() && !names_ssh(links[from]) {
        lemma_first_ssh_bounds(links, from + 1);
    }
}

pub fn choose_link(links: &Vec<CloneLink>) -> (r: Option<usize>)
    ensures
        match first_ssh(links@, 0) {
            Some(i) => r is Some && r->Some_0 as int == i && 0 <= i < links@.len(),
            None => r is None,
        },
{
    proof {
        lemma_first_ssh_bounds(links@, 0);
    }
    let mut i: usize = 0;
    while i < links.len()
        invariant
            i <= links@.len(),
            first_ssh(links@, 0) == first_ssh(links@, i as int),
        decreases links.len() - i,
    {
        if equal(&to_ascii_lowercase(&chars(links[i].name.as_str())), &chars("ssh")) {
            return Some(i);
        }
        i += 1;
    }
    if links.len() > 0 {
        Some(0)
    } else {
        None
    }
}

/// Whether a listed repository is kept: archived ones only when asked for.
pub fn keep_listed(include_archived: bool, archived: Option<bool>) -> (r: bool)
    ensures
        r == (include_archived || !(archived == Some(true))),
{
    match archived {
        Some(true) => include_archived,
        _ => true,
    }
}

fn parse_text(input: &str) -> (r: Result<RepositoryRef, String>)
    ensures
        match spec_parse(input@) {
            Ok(v) => r matches Ok(x) && x@ == v,
            Err(e) => r matches Err(m) && m@ == ref_error_text(e),
        },
{
    match RepositoryRef::parse(input) {
        Ok(r) => Ok(r),
        Err(e) => Err(e.message()),
    }
}

/// A listed repository as a summary: the path of the URL the provider returned, cloned over
/// the provider's own SSH user and port.
pub open spec fn spec_summary(host: Seq<char>, user: Option<Seq<char>>, port: Option<u16>, returned_url: Seq<char>, archived: bool) -> Result<(RefView, bool), Seq<char>> {
    match spec_parse(returned_url) {
        Err(e) => Err(ref_error_text(e)),
        Ok(returned) => match spec_parse(spec_ssh_url(host, user, port, returned.path)) {
            Err(e) => Err(ref_error_text(e)),
            Ok(reference) => Ok((reference, archived)),
        },
    }
}

pub open spec fn summary_view(s: RepositorySummary) -> (RefView, bool) {
    (s.reference@, s.archived)
}

/// The summary of a repository that a provider listed under `returned_url`.
pub fn listed_summary(host: &str, config: &ProviderConfig, returned_url: &str, archived: bool) -> (r: Result<RepositorySummary, String>)
    ensures
        match spec_summary(host@, option_view(config.ssh_user), config.ssh_port, returned_url@, archived) {
            Ok(v) => r matches Ok(s) && summary_view(s) == v,
            Err(e) => r matches Err(m) && m@ == e,
        },
{
    let returned = parse_text(returned_url)?;
    let url = ssh_url(host, config, returned.path.as_str());
    let reference = parse_text(url.as_str())?;
    Ok(RepositorySummary { reference, archived })
}

/// A Bitbucket Cloud repository: from its chosen clone link.
pub fn cloud_summary(host: &str, config: &ProviderConfig, links: &Vec<CloneLink>, archived: Option<bool>) -> (r: Result<RepositorySummary, String>)
    ensures
        match first_ssh(links@, 0) {
            Some(i) => match spec_summary(host@, option_view(config.ssh_user), config.ssh_port, links@[i].href@, archived == Some(true)) {
                Ok(v) => r matches Ok(s) && summary_view(s) == v,
                Err(e) => r matches Err(m) && m@ == e,
            },
            None => r matches Err(m) && m@ == "repository omitted clone links"@,
        },
{
    let i = match choose_link(links) {
        Some(i) => i,
        None => return Err(string_of(&chars("repository omitted clone links"))),
    };
    let flag = match archived {
        Some(a) => a,
        None => false,
    };
    assert(flag == (archived == Some(true)));
    listed_summary(host, config, links[i].href.as_str(), flag)
}


/// A Bitbucket Data Center repository: its chosen clone link must be readable, but it is
/// cloned by project key and slug over the provider's SSH user and port.
pub open spec fn spec_data_center_summary(host: Seq<char>, user: Option<Seq<char>>, port: Option<u16>, href: Seq<char>, project: Seq<char>, slug: Seq<char>, archived: bool) -> Result<(RefView, bool), Seq<char>> {
    match spec_parse(href) {
        Err(e) => Err(ref_error_text(e)),
        Ok(_) => match spec_parse(spec_data_center_url(host, user, port, project, slug)) {
            Err(e) => Err(ref_error_text(e)),
            Ok(reference) => Ok((reference, archived)),
        },
    }
}

pub fn data_center_summary(
    host: &str,
    config: &ProviderConfig,
    links: &Vec<CloneLink>,
    archived: Option<bool>,
    project: &str,
    slug: &str,
) -> (r: Result<RepositorySummary, String>)
    ensures
        match first_ssh(links@, 0) {
            Some(i) => match spec_data_center_summary(host@, option_view(config.ssh_user), config.ssh_port, links@[i].href@, project@, slug@, archived == Some(true)) {
                Ok(v) => r matches Ok(s) && summary_view(s) == v,
                Err(e) => r matches Err(m) && m@ == e,
            },
            None => r matches Err(m) && m@ == "Bitbucket repository omitted clone links"@,
        },
{
    let i = match choose_link(links) {
        Some(i) => i,
        None => return Err(string_of(&chars("Bitbucket repository omitted clone links"))),
    };
    parse_text(links[i].href.as_str())?;
    let url = data_center_url(host, config, project, slug);
    let reference = parse_text(url.as_str())?;
    let flag = match archived {
        Some(a) => a,
        None => false,
    };
    Ok(RepositorySummary { reference, archived: flag })
}

/// Where a provider's repository goes below the root: the provider's prefix, then the
/// repository's path; a Data Center personal project (`~user`) loses its `~`.
pub open spec fn prefixed_segments(prefix: Seq<char>, path: Seq<char>, data_center: bool) -> Seq<Seq<char>> {
    let remote = split(path, '/');
    let remote = if data_center && remote.len() > 0 && remote[0].len() > 0 && remote[0][0] == '~' {
        remote.update(0, remote[0].drop_first())
    } else {
        remote
    };
    non_empty(split(prefix, '/')) + remote
}

/// Places a discovered repository below the provider's prefix.
pub fn apply_prefix(summary: RepositorySummary, prefix: &str, data_center: bool) -> (r: RepositorySummary)
    ensures
        r.reference.clone_url == summary.reference.clone_url,
        r.reference.host == summary.reference.host,
        r.reference.path == summary.reference.path,
        r.reference.wildcard == summary.reference.wildcard,
        r.archived == summary.archived,
        r.reference.destination_segments.deep_view() == prefixed_segments(prefix@, summary.reference.path@, data_center),
{
    let mut remote = split_char(&chars(summary.reference.path.as_str()), '/');
    let ghost rv = remote@.map_values(|v: Vec<char>| v@);
    if data_center && remote.len() > 0 && remote[0].len() > 0 && remote[0][0] == '~' {
        let first = slice(&remote[0], 1, remote[0].len());
        remote.set(0, first);
        assert(remote@.map_values(|v: Vec<char>| v@) =~= rv.update(0, rv[0].drop_first()));
    }
    let mut segments = keep_non_empty(&split_char(&chars(prefix), '/'));
    let ghost base = segments@.map_values(|v: Vec<char>| v@);
    let mut k: usize = 0;
    while k < remote.len()
        invariant
            k <= remote@.len(),
            segments@.map_values(|v: Vec<char>| v@) == base + remote@.map_values(|v: Vec<char>| v@).subrange(0, k as int),
        decreases remote.len() - k,
    {
        let ghost before = segments@.map_values(|v: Vec<char>| v@);
        segments.push(slice(&remote[k], 0, remote[k].len()));
        assert(remote@[k as int]@.subrange(0, remote@[k as int]@.len() as int) =~= remote@[k as int]@);
        assert(segments@.map_values(|v: Vec<char>| v@) =~= before.push(remote@[k as int]@));
        assert(remote@.map_values(|v: Vec<char>| v@).subrange(0, k + 1) =~= remote@.map_values(|v: Vec<char>| v@).subrange(0, k as int).push(remote@[k as int]@));
        k += 1;
    }
    assert(remote@.map_values(|v: Vec<char>| v@).subrange(0, remote@.len() as int) =~= remote@.map_values(|v: Vec<char>| v@));
    let mut destination: Vec<String> = Vec::new();
    let mut j: usize = 0;
    while j < segments.len()
        invariant
            j <= segments@.len(),
            destination.deep_view() =~= segments@.map_values(|v: Vec<char>| v@).subrange(0, j as int),
        decreases segments.len() - j,
    {
        let ghost before = destination.deep_view();
        destination.push(string_of(&segments[j]));
        assert(destination.deep_view() =~= before.push(segments@[j as int]@));
        j += 1;
    }
    assert(segments@.map_values(|v: Vec<char>| v@).subrange(0, segments@.len() as int) =~= segments@.map_values(|v: Vec<char>| v@));
    let RepositorySummary { reference, archived } = summary;
    let RepositoryRef { clone_url, host, path, destination_segments: _, wildcard } = reference;
    RepositorySummary { reference: RepositoryRef { clone_url, host, path, destination_segments: destination, wildcard }, archived }
}

/// The owner a wildcard names: the first segment of its path, which must not be empty.
pub fn wildcard_owner(path: &str, missing: &str) -> (r: Result<String, String>)
    ensures
        split(path@, '/')[0].len() > 0 ==> r == Ok::<String, String>(r->Ok_0) && r->Ok_0@ == split(path@, '/')[0],
        split(path@, '/')[0].len() == 0 ==> r == Err::<String, String>(r->Err_0) && r->Err_0@ == missing@,
{
    let parts = split_char(&chars(path), '/');
    assert(parts@[0]@ == split(path@, '/')[0]);
    if parts[0].len() > 0 {
        Ok(string_of(&parts[0]))
    } else {
        Err(string_of(&chars(missing)))
    }
}

// ---------------------------------------------------------------------------
// Bitbucket requests
// ---------------------------------------------------------------------------

/// How a Bitbucket request authenticates: the environment variables it reads.
#[derive(Debug, Clone, PartialEq, Eq)]
pub enum AuthPlan {
    Anonymous,
    Bearer { token_env: String },
    Basic { username_env: String, password_env: String },
}

pub open spec fn or_else(a: Option<Seq<char>>, b: Option<Seq<char>>) -> Option<Seq<char>> {
    match a {
        Some(x) => Some(x),
        None => b,
    }
}

/// The plan for the configured `auth` mode (anonymous when unset).
pub open spec fn spec_auth_plan(auth: Option<Seq<char>>, token: Option<Seq<char>>, username: Option<Seq<char>>, password: Option<Seq<char>>) -> Result<(Seq<char>, Seq<Seq<char>>), Seq<char>> {
    let mode = match auth {
        Some(a) => a,
        None => "anonymous"@,
    };
    if mode == "anonymous"@ {
        Ok(("anonymous"@, Seq::empty()))
    } else if mode == "bearer"@ {
        match token {
            Some(t) => Ok(("bearer"@, seq![t])),
            None => Err("bearer authentication requires token_env"@),
        }
    } else if mode == "basic"@ {
        match username {
            None => Err("basic authentication requires username_env"@),
            Some(u) => match or_else(password, token) {
                None => Err("basic authentication requires password_env"@),
                Some(p) => Ok(("basic"@, seq![u, p])),
            },
        }
    } else {
        Err("unsupported authentication mode `"@ + mode + "`"@)
    }
}

pub open spec fn auth_plan_view(p: AuthPlan) -> (Seq<char>, Seq<Seq<char>>) {
    match p {
        AuthPlan::Anonymous => ("anonymous"@, Seq::empty()),
        AuthPlan::Bearer { token_env } => ("bearer"@, seq![token_env@]),
        AuthPlan::Basic { username_env, password_env } => ("basic"@, seq![username_env@, password_env@]),
    }
}

pub fn auth_plan(config: &ProviderConfig) -> (r: Result<AuthPlan, String>)
    ensures
        match spec_auth_plan(option_view(config.auth), option_view(config.token_env), option_view(config.username_env), option_view(config.password_env)) {
            Ok(v) => r matches Ok(p) && auth_plan_view(p) == v,
            Err(e) => r matches Err(m) && m@ == e,
        },
{
    proof {
        reveal_strlit("anonymous");
        reveal_strlit("bearer");
        reveal_strlit("basic");
    }
    let mode = match &config.auth {
        Some(a) => chars(a.as_str()),
        None => chars("anonymous"),
    };
    if equal(&mode, &chars("anonymous")) {
        let r = AuthPlan::Anonymous;
        assert(auth_plan_view(r).1 =~= Seq::<Seq<char>>::empty());
        Ok(r)
    } else if equal(&mode, &chars("bearer")) {
        match &config.token_env {
            Some(t) => Ok(AuthPlan::Bearer { token_env: string_of(&chars(t.as_str())) }),
            None => Err(string_of(&chars("bearer authentication requires token_env"))),
        }
    } else if equal(&mode, &chars("basic")) {
        let username = match &config.username_env {
            Some(u) => string_of(&chars(u.as_str())),
            None => return Err(string_of(&chars("basic authentication requires username_env"))),
        };
        let password = match (&config.password_env, &config.token_env) {
            (Some(p), _) => string_of(&chars(p.as_str())),
            (None, Some(t)) => string_of(&chars(t.as_str())),
            (None, None) => return Err(string_of(&chars("basic authentication requires password_env"))),
        };
        Ok(AuthPlan::Basic { username_env: username, password_env: password })
    } else {
        Err(string_of(&concat(&concat(&chars("unsupported authentication mode `"), &mode), &chars("`"))))
    }
}

/// The error for an authentication variable that is not set.
pub fn unset_variable(name: &str) -> (r: String)
    ensures
        r@ == "authentication environment variable "@ + name@ + " is unset"@,
{
    string_of(&concat(&concat(&chars("authentication environment variable "), &chars(name)), &chars(" is unset")))
}

/// The `Authorization` value of a bearer token.
pub fn bearer_value(token: &str) -> (r: String)
    ensures
        r@ == "Bearer "@ + token@,
{
    string_of(&concat(&chars("Bearer "), &chars(token)))
}

/// The API URL of a request path: the base without trailing slashes, then the path, as the
/// URL parser serializes it.
pub open spec fn spec_endpoint(base: Seq<char>, path: Seq<char>) -> Result<Seq<char>, Seq<char>> {
    match url_parse(trim_end_char(base, '/') + path) {
        Ok(parts) => Ok(parts.6),
        Err(e) => Err("invalid Bitbucket API URL: "@ + e),
    }
}

fn endpoint_from(base: &str, path: &str) -> (r: Result<String, String>)
    ensures
        match spec_endpoint(base@, path@) {
            Ok(v) => r matches Ok(x) && x@ == v,
            Err(e) => r matches Err(m) && m@ == e,
        },
{
    let text = string_of(&concat(&trim_end_matches_char(&chars(base), '/'), &chars(path)));
    match parse_url(text.as_str()) {
        Ok(url) => Ok(url.serialized),
        Err(e) => Err(string_of(&concat(&chars("invalid Bitbucket API URL: "), &chars(e.as_str())))),
    }
}

/// A Bitbucket Cloud API URL: below the configured API URL, or `https://api.bitbucket.org`.
pub fn cloud_endpoint(config: &ProviderConfig, path: &str) -> (r: Result<String, String>)
    ensures
        match spec_endpoint(
            match option_view(config.api_url) {
                Some(a) => a,
                None => "https://api.bitbucket.org"@,
            },
            path@,
        ) {
            Ok(v) => r matches Ok(x) && x@ == v,
            Err(e) => r matches Err(m) && m@ == e,
        },
{
    match &config.api_url {
        Some(a) => endpoint_from(a.as_str(), path),
        None => endpoint_from("https://api.bitbucket.org", path),
    }
}

/// A Bitbucket Data Center API URL, below the configured API URL, which it requires.
pub fn data_center_endpoint(config: &ProviderConfig, path: &str) -> (r: Result<String, String>)
    ensures
        match option_view(config.api_url) {
            None => r matches Err(m) && m@ == "Bitbucket Data Center requires api_url"@,
            Some(a) => match spec_endpoint(a, path@) {
                Ok(v) => r matches Ok(x) && x@ == v,
                Err(e) => r matches Err(m) && m@ == e,
            },
        },
{
    match &config.api_url {
        Some(a) => endpoint_from(a.as_str(), path),
        None => Err(string_of(&chars("Bitbucket Data Center requires api_url"))),
    }
}

/// Pages may only be followed over HTTP(S), without credentials, on the origin the listing
/// started from.
pub open spec fn same_origin(t: UrlParts, c: UrlParts) -> bool {
    (t.0 == "http"@ || t.0 == "https"@) && t.0 == c.0 && t.1 == c.1 && t.5 == c.5
}

pub open spec fn spec_validate_page(t: UrlParts, c: UrlParts) -> Result<(), Seq<char>> {
    if !(c.0 == "http"@ || c.0 == "https"@) {
        Err("Bitbucket pagination URL uses an unsafe scheme"@)
    } else if c.3.len() > 0 || c.4.is_some() {
        Err("Bitbucket pagination URL must not contain userinfo"@)
    } else if !same_origin(t, c) {
        Err("Bitbucket pagination URL changed the trusted origin"@)
    } else {
        Ok(())
    }
}

fn same_text(a: &Option<String>, b: &Option<String>) -> (r: bool)
    ensures
        r == (option_view(*a) == option_view(*b)),
{
    match (a, b) {
        (Some(x), Some(y)) => equal(&chars(x.as_str()), &chars(y.as_str())),
        (None, None) => true,
        _ => false,
    }
}

pub fn validate_pagination_url(trusted: &ParsedUrl, candidate: &ParsedUrl) -> (r: Result<(), String>)
    ensures
        match spec_validate_page(trusted.parts(), candidate.parts()) {
            Ok(()) => r is Ok,
            Err(e) => r matches Err(m) && m@ == e,
        },
{
    let scheme = chars(candidate.scheme.as_str());
    let web = equal(&scheme, &chars("http")) || equal(&scheme, &chars("https"));
    if !web {
        return Err(string_of(&chars("Bitbucket pagination URL uses an unsafe scheme")));
    }
    if candidate.username.unicode_len() > 0 || candidate.password.is_some() {
        return Err(string_of(&chars("Bitbucket pagination URL must not contain userinfo")));
    }
    let trusted_scheme = chars(trusted.scheme.as_str());
    let trusted_web = equal(&trusted_scheme, &chars("http")) || equal(&trusted_scheme, &chars("https"));
    let port_same = match (trusted.port, candidate.port) {
        (Some(a), Some(b)) => a == b,
        (None, None) => true,
        _ => false,
    };
    if !(trusted_web && equal(&trusted_scheme, &scheme) && same_text(&trusted.host, &candidate.host) && port_same) {
        return Err(string_of(&chars("Bitbucket pagination URL changed the trusted origin")));
    }
    Ok(())
}

/// The first page of a listing: its URL must parse and be one that may be followed.
pub fn first_page(initial: &str) -> (r: Result<ParsedUrl, String>)
    ensures
        match url_parse(initial@) {
            Err(e) => r matches Err(m) && m@ == "invalid Bitbucket pagination URL: "@ + e,
            Ok(t) => match spec_validate_page(t, t) {
                Ok(()) => r matches Ok(u) && u.parts() == t,
                Err(e) => r matches Err(m) && m@ == e,
            },
        },
{
    let trusted = match parse_url(initial) {
        Ok(u) => u,
        Err(e) => return Err(string_of(&concat(&chars("invalid Bitbucket pagination URL: "), &chars(e.as_str())))),
    };
    validate_pagination_url(&trusted, &trusted)?;
    Ok(trusted)
}

/// The page after `current`: its `next` link read against `current`, which must still be one
/// that may be followed; none after the last page.
pub fn next_page(trusted: &ParsedUrl, current: &ParsedUrl, next: Option<&str>) -> (r: Result<Option<ParsedUrl>, String>)
    ensures
        match next {
            None => r matches Ok(None),
            Some(link) => match url_join(current.serialized@, link@) {
                Err(e) => r matches Err(m) && m@ == "invalid Bitbucket pagination URL: "@ + e,
                Ok(u) => match spec_validate_page(trusted.parts(), u) {
                    Ok(()) => r matches Ok(Some(p)) && p.parts() == u,
                    Err(e) => r matches Err(m) && m@ == e,
                },
            },
        },
{
    let link = match next {
        None => return Ok(None),
        Some(link) => link,
    };
    let url = match join_url(current.serialized.as_str(), link) {
        Ok(u) => u,
        Err(e) => return Err(string_of(&concat(&chars("invalid Bitbucket pagination URL: "), &chars(e.as_str())))),
    };
    validate_pagination_url(trusted, &url)?;
    Ok(Some(url))
}

/// Where a Data Center listing goes on: nowhere after the last page, else from the start the
/// page gave, which it must give.
pub fn next_start(is_last_page: bool, next_page_start: Option<u64>) -> (r: Result<Option<u64>, String>)
    ensures
        is_last_page ==> r == Ok::<Option<u64>, String>(None),
        !is_last_page && next_page_start.is_some() ==> r == Ok::<Option<u64>, String>(next_page_start),
        !is_last_page && next_page_start.is_none() ==> (r matches Err(m) && m@ == "Bitbucket response omitted nextPageStart"@),
{
    if is_last_page {
        return Ok(None);
    }
    match next_page_start {
        Some(start) => Ok(Some(start)),
        None => Err(string_of(&chars("Bitbucket response omitted nextPageStart"))),
    }
}

/// The workspace a permission names: its slug, else its UUID.
pub fn workspace_name(slug: Option<String>, uuid: Option<String>) -> (r: Result<String, String>)
    ensures
        slug.is_some() ==> r == Ok::<String, String>(slug.unwrap()),
        slug.is_none() && uuid.is_some() ==> r == Ok::<String, String>(uuid.unwrap()),
        slug.is_none() && uuid.is_none() ==> (r matches Err(m) && m@ == "workspace response omitted slug and uuid"@),
{
    match (slug, uuid) {
        (Some(s), _) => Ok(s),
        (None, Some(u)) => Ok(u),
        (None, None) => Err(string_of(&chars("workspace response omitted slug and uuid"))),
    }
}

pub fn cloud_workspaces_path() -> (r: String)
    ensures
        r@ == "/2.0/user/permissions/workspaces"@,
{
    string_of(&chars("/2.0/user/permissions/workspaces"))
}

pub fn cloud_repositories_path(workspace: &str) -> (r: String)
    ensures
        r@ == "/2.0/repositories/"@ + workspace@,
{
    string_of(&concat(&chars("/2.0/repositories/"), &chars(workspace)))
}

pub fn data_center_catalog_path(start: u64) -> (r: String)
    ensures
        r@ == "/rest/api/1.0/repos?permission=REPO_READ&start="@ + spec_digits(start as nat, 10) + "&limit=25"@,
{
    string_of(&concat(&concat(&chars("/rest/api/1.0/repos?permission=REPO_READ&start="), &chars(digits(start, 10).as_str())), &chars("&limit=25")))
}

pub fn data_center_project_path(project: &str, start: u64) -> (r: String)
    ensures
        r@ == "/rest/api/1.0/projects/"@ + spec_urlencoding(project@) + "/repos?start="@ + spec_digits(start as nat, 10) + "&limit=25"@,
{
    string_of(&concat(&concat(&concat(&concat(&chars("/rest/api/1.0/projects/"), &urlencoding(project)), &chars("/repos?start=")), &chars(digits(start, 10).as_str())), &chars("&limit=25")))
}

// ---------------------------------------------------------------------------
// Percent-encoding
// ---------------------------------------------------------------------------

/// The UTF-8 encoding of a character.
pub open spec fn utf8(c: char) -> Seq<u8> {
    let n = c as u32 as int;
    if n < 0x80 {
        seq![n as u8]
    } else if n < 0x800 {
        seq![(0xC0 + n / 64) as u8, (0x80 + n % 64) as u8]
    } else if n < 0x10000 {
        seq![(0xE0 + n / 4096) as u8, (0x80 + (n / 64) % 64) as u8, (0x80 + n % 64) as u8]
    } else {
        seq![(0xF0 + n / 262144) as u8, (0x80 + (n / 4096) % 64) as u8, (0x80 + (n / 64) % 64) as u8, (0x80 + n % 64) as u8]
    }
}

pub open spec fn unreserved(b: u8) -> bool {
    (0x41 <= b <= 0x5A) || (0x61 <= b <= 0x7A) || (0x30 <= b <= 0x39) || b == 0x2D || b == 0x5F || b == 0x2E || b == 0x7E
}

pub open spec fn hex_upper(d: int) -> char {
    if d < 10 {
        ((0x30 + d) as u32) as char
    } else {
        ((0x41 + d - 10) as u32) as char
    }
}

/// A byte as it stands in a URL path: unreserved bytes as themselves, others as `%XX`.
pub open spec fn encoded_byte(b: u8) -> Seq<char> {
    if unreserved(b) {
        seq![(b as u32) as char]
    } else {
        seq!['%', hex_upper(b as int / 16), hex_upper(b as int % 16)]
    }
}

pub open spec fn encoded_bytes(bs: Seq<u8>) -> Seq<char>
    decreases bs.len(),
{
    if bs.len() == 0 {
        Seq::empty()
    } else {
        encoded_bytes(bs.drop_last()) + encoded_byte(bs.last())
    }
}

/// Percent-encoding of a text's UTF-8 bytes, keeping letters, digits and `-_.~`.
pub open spec fn spec_urlencoding(s: Seq<char>) -> Seq<char>
    decreases s.len(),
{
    if s.len() == 0 {
        Seq::empty()
    } else {
        spec_urlencoding(s.drop_last()) + encoded_bytes(utf8(s.last()))
    }
}

fn hex_char(d: u8) -> (r: char)
    requires
        d < 16,
    ensures
        r == hex_upper(d as int),
{
    match d {
        0 => '0',
        1 => '1',
        2 => '2',
        3 => '3',
        4 => '4',
        5 => '5',
        6 => '6',
        7 => '7',
        8 => '8',
        9 => '9',
        10 => 'A',
        11 => 'B',
        12 => 'C',
        13 => 'D',
        _ => if d == 14 { 'E' } else { 'F' },
    }
}

fn push_encoded(out: &mut Vec<char>, b: u8)
    ensures
        final(out)@ == old(out)@ + encoded_byte(b),
{
    let keep = (0x41 <= b && b <= 0x5A) || (0x61 <= b && b <= 0x7A) || (0x30 <= b && b <= 0x39) || b == 0x2D || b == 0x5F || b
        == 0x2E || b == 0x7E;
    if keep {
        out.push(b as char);
    } else {
        out.push('%');
        out.push(hex_char(b / 16));
        out.push(hex_char(b % 16));
    }
    assert(final(out)@ =~= old(out)@ + encoded_byte(b));
}

fn utf8_bytes(c: char) -> (r: Vec<u8>)
    ensures
        r@ == utf8(c),
{
    let n = c as u32;
    let mut r: Vec<u8> = Vec::new();
    if n < 0x80 {
        r.push(n as u8);
    } else if n < 0x800 {
        r.push((0xC0 + n / 64) as u8);
        r.push((0x80 + n % 64) as u8);
    } else if n < 0x10000 {
        r.push((0xE0 + n / 4096) as u8);
        r.push((0x80 + (n / 64) % 64) as u8);
        r.push((0x80 + n % 64) as u8);
    } else {
        assert(n <= 0x10FFFF);
        r.push((0xF0 + n / 262144) as u8);
        r.push((0x80 + (n / 4096) % 64) as u8);
        r.push((0x80 + (n / 64) % 64) as u8);
        r.push((0x80 + n % 64) as u8);
    }
    assert(r@ =~= utf8(c));
    r
}

/// Percent-encodes a path segment.
pub fn urlencoding(value: &str) -> (r: Vec<char>)
    ensures
        r@ == spec_urlencoding(value@),
{
    let s = chars(value);
    let mut out: Vec<char> = Vec::new();
    let mut i: usize = 0;
    assert(s@.subrange(0, 0) =~= Seq::<char>::empty());
    while i < s.len()
        invariant
            i <= s@.len(),
            out@ == spec_urlencoding(s@.subrange(0, i as int)),
        decreases s.len() - i,
    {
        let bytes = utf8_bytes(s[i]);
        let ghost start = out@;
        let mut k: usize = 0;
        assert(bytes@.subrange(0, 0) =~= Seq::<u8>::empty());
        assert(start + encoded_bytes(bytes@.subrange(0, 0)) =~= start);
        while k < bytes.len()
            invariant
                k <= bytes@.len(),
                out@ == start + encoded_bytes(bytes@.subrange(0, k as int)),
            decreases bytes.len() - k,
        {
            push_encoded(&mut out, bytes[k]);
            assert(bytes@.subrange(0, k + 1).drop_last() =~= bytes@.subrange(0, k as int));
            k += 1;
        }
        assert(bytes@.subrange(0, bytes@.len() as int) =~= bytes@);
        assert(s@.subrange(0, i + 1).drop_last() =~= s@.subrange(0, i as int));
        i += 1;
    }
    assert(s@.subrange(0, s@.len() as int) =~= s@);
    out
}

// ---------------------------------------------------------------------------
// GitHub through `gh`
// ---------------------------------------------------------------------------

/// What `format!("{:?}", s)` writes for a `str`: the text quoted, with `char::escape_debug`
/// applied inside.
pub uninterp spec fn str_debug(s: Seq<char>) -> Seq<char>;

/// Calls `format!("{:?}", value)` on a `str`. The contract only names the outcome: it is a
/// function of the text alone.
#[verifier::external_body]
fn debug_text(value: &str) -> (r: String)
    ensures
        r@ == str_debug(value@),
{
    format!("{value:?}")
}

pub open spec fn viewer_query_text() -> Seq<char> {
    "query($endCursor:String){viewer{repositories(first:100,after:$endCursor){nodes{name isArchived isPrivate sshUrl owner{login}} pageInfo{hasNextPage endCursor}}}}"@
}

/// The GraphQL query for the repositories the authenticated user can read.
pub fn viewer_query() -> (r: String)
    ensures
        r@ == viewer_query_text(),
{
    string_of(&chars("query($endCursor:String){viewer{repositories(first:100,after:$endCursor){nodes{name isArchived isPrivate sshUrl owner{login}} pageInfo{hasNextPage endCursor}}}}"))
}

/// The GraphQL query for an organization's repositories.
pub fn organization_query(organization: &str) -> (r: String)
    ensures
        r@ == "query($endCursor:String){organization(login:"@ + str_debug(organization@)
            + "){repositories(first:100,after:$endCursor){nodes{name isArchived isPrivate sshUrl owner{login}} pageInfo{hasNextPage endCursor}}}}"@,
{
    let quoted = debug_text(organization);
    string_of(&concat(&concat(&chars("query($endCursor:String){organization(login:"), &chars(quoted.as_str())), &chars("){repositories(first:100,after:$endCursor){nodes{name isArchived isPrivate sshUrl owner{login}} pageInfo{hasNextPage endCursor}}}}")))
}

/// The arguments of `gh` for a paginated GraphQL query, naming the host unless it is
/// `github.com`.
pub open spec fn spec_gh_arguments(host: Seq<char>, query: Seq<char>) -> Seq<Seq<char>> {
    seq!["api"@] + (if host != "github.com"@ { seq!["--hostname"@, host] } else { Seq::empty() }) + seq![
        "graphql"@,
        "--paginate"@,
        "--slurp"@,
        "-f"@,
        "query="@ + query,
    ]
}

pub fn gh_arguments(host: &str, query: &str) -> (r: Vec<String>)
    ensures
        r.deep_view() == spec_gh_arguments(host@, query@),
{
    let mut r: Vec<String> = Vec::new();
    r.push(string_of(&chars("api")));
    let named = !equal(&chars(host), &chars("github.com"));
    if named {
        r.push(string_of(&chars("--hostname")));
        r.push(string_of(&chars(host)));
    }
    r.push(string_of(&chars("graphql")));
    r.push(string_of(&chars("--paginate")));
    r.push(string_of(&chars("--slurp")));
    r.push(string_of(&chars("-f")));
    r.push(string_of(&concat(&chars("query="), &chars(query))));
    assert(r.deep_view() =~= spec_gh_arguments(host@, query@));
    r
}

/// A failed `gh` run reports its standard error without trailing white space.
pub fn gh_failure(stderr: &str) -> (r: String)
    ensures
        r@ == trim_white_end(stderr@),
{
    string_of(&trim_end_whitespace(&chars(stderr)))
}

/// `gh` could not be started: missing, or failing for another reason.
pub fn gh_start_error(not_found: bool, error: &str) -> (r: String)
    ensures
        not_found ==> r@ == "GitHub provider requires `gh`; install GitHub CLI and run `gh auth login`"@,
        !not_found ==> r@ == "could not start gh: "@ + error@,
{
    if not_found {
        string_of(&chars("GitHub provider requires `gh`; install GitHub CLI and run `gh auth login`"))
    } else {
        string_of(&concat(&chars("could not start gh: "), &chars(error)))
    }
}

// ---------------------------------------------------------------------------
// The catalog of every provider
// ---------------------------------------------------------------------------

pub open spec fn failure_text(f: ProviderFailure) -> Seq<char> {
    f.provider@ + ": "@ + f.error@
}

// ---------------------------------------------------------------------------
// GitHub
// ---------------------------------------------------------------------------

/// A repository as a GitHub listing returns it.
#[derive(Debug, Clone, PartialEq, Eq)]
pub struct ListedRepository {
    pub ssh_url: String,
    pub is_archived: bool,
}

/// The summaries of the repositories a listing kept, in listing order, or the error of the
/// first kept repository whose URL does not read as a reference.
pub open spec fn listing_summaries(
    host: Seq<char>,
    user: Option<Seq<char>>,
    port: Option<u16>,
    listed: Seq<ListedRepository>,
    include_archived: bool,
) -> Result<Seq<(RefView, bool)>, Seq<char>>
    decreases listed.len(),
{
    if listed.len() == 0 {
        Ok(Seq::empty())
    } else {
        match listing_summaries(host, user, port, listed.drop_last(), include_archived) {
            Err(e) => Err(e),
            Ok(prefix) => {
                let last = listed.last();
                if !(include_archived || !last.is_archived) {
                    Ok(prefix)
                } else {
                    match spec_summary(host, user, port, last.ssh_url@, last.is_archived) {
                        Err(e) => Err(e),
                        Ok(v) => Ok(prefix.push(v)),
                    }
                }
            },
        }
    }
}

proof fn lemma_listing_error_stays(
    host: Seq<char>,
    user: Option<Seq<char>>,
    port: Option<u16>,
    listed: Seq<ListedRepository>,
    include_archived: bool,
    n: int,
)
    requires
        0 <= n <= listed.len(),
        listing_summaries(host, user, port, listed.subrange(0, n), include_archived) is Err,
    ensures
        listing_summaries(host, user, port, listed, include_archived) == listing_summaries(
            host,
            user,
            port,
            listed.subrange(0, n),
            include_archived,
        ),
    decreases listed.len() - n,
{
    if n < listed.len() {
        assert(listed.subrange(0, n + 1).drop_last() =~= listed.subrange(0, n));
        lemma_listing_error_stays(host, user, port, listed, include_archived, n + 1);
    } else {
        assert(listed.subrange(0, n) =~= listed);
    }
}

/// GitHub discovery through the `gh` command line, for one host.
#[derive(Debug, Clone)]
pub struct Github {
    pub host: String,
    pub config: ProviderConfig,
    pub gh_executable: String,
}

impl Github {
    /// The adapter of a host, running the `gh` found on the search path.
    pub fn new(host: String, config: ProviderConfig) -> (r: Github)
        ensures
            r.host == host,
            r.config == config,
            r.gh_executable@ == "gh"@,
    {
        Github { host, config, gh_executable: string_of(&chars("gh")) }
    }

    /// The arguments of `gh` for a query to this adapter's host.
    pub fn arguments(&self, query: &str) -> (r: Vec<String>)
        ensures
            r.deep_view() == spec_gh_arguments(self.host@, query@),
    {
        gh_arguments(self.host.as_str(), query)
    }

    /// The query whose listing `expand` reads: the repositories of the wildcard's organization.
    pub fn expand_query(&self, reference: &RepositoryRef) -> (r: Result<String, String>)
        ensures
            split(reference.path@, '/')[0].len() > 0 ==> (r matches Ok(q) && q@ == "query($endCursor:String){organization(login:"@
                + str_debug(split(reference.path@, '/')[0])
                + "){repositories(first:100,after:$endCursor){nodes{name isArchived isPrivate sshUrl owner{login}} pageInfo{hasNextPage endCursor}}}}"@),
            split(reference.path@, '/')[0].len() == 0 ==> (r matches Err(m) && m@ == "GitHub wildcard requires an organization"@),
    {
        let organization = wildcard_owner(reference.path.as_str(), "GitHub wildcard requires an organization")?;
        Ok(organization_query(organization.as_str()))
    }

    fn summaries(&self, include_archived: bool, listed: &Vec<ListedRepository>) -> (r: Result<Vec<RepositorySummary>, String>)
        ensures
            match listing_summaries(self.host@, option_view(self.config.ssh_user), self.config.ssh_port, listed@, include_archived) {
                Ok(v) => r matches Ok(s) && s@.map_values(|x: RepositorySummary| summary_view(x)) == v,
                Err(e) => r matches Err(m) && m@ == e,
            },
    {
        let ghost host = self.host@;
        let ghost user = option_view(self.config.ssh_user);
        let ghost port = self.config.ssh_port;
        let mut result: Vec<RepositorySummary> = Vec::new();
        let mut i: usize = 0;
        assert(listed@.subrange(0, 0) =~= Seq::<ListedRepository>::empty());
        assert(result@.map_values(|x: RepositorySummary| summary_view(x)) =~= Seq::<(RefView, bool)>::empty());
        while i < listed.len()
            invariant
                i <= listed@.len(),
                host == self.host@,
                user == option_view(self.config.ssh_user),
                port == self.config.ssh_port,
                listing_summaries(host, user, port, listed@.subrange(0, i as int), include_archived) == Ok::<
                    Seq<(RefView, bool)>,
                    Seq<char>,
                >(result@.map_values(|x: RepositorySummary| summary_view(x))),
            decreases listed.len() - i,
        {
            let item = &listed[i];
            assert(listed@.subrange(0, i + 1).drop_last() =~= listed@.subrange(0, i as int));
            assert(listed@.subrange(0, i + 1).last() == listed@[i as int]);
            if keep_listed(include_archived, Some(item.is_archived)) {
                match listed_summary(self.host.as_str(), &self.config, item.ssh_url.as_str(), item.is_archived) {
                    Ok(summary) => {
                        let ghost before = result@;
                        result.push(summary);
                        assert(result@.map_values(|x: RepositorySummary| summary_view(x)) =~= before.map_values(
                            |x: RepositorySummary| summary_view(x),
                        ).push(summary_view(summary)));
                    },
                    Err(error) => {
                        proof {
                            lemma_listing_error_stays(host, user, port, listed@, include_archived, i + 1);
                        }
                        return Err(error);
                    },
                }
            }
            i += 1;
        }
        assert(listed@.subrange(0, listed@.len() as int) =~= listed@);
        Ok(result)
    }

    /// The summaries of the repositories the viewer can read, from the listing of
    /// `viewer_query`: archived ones only when asked for, each cloned over this host's SSH.
    pub fn catalog(&self, include_archived: bool, listed: &Vec<ListedRepository>) -> (r: Result<Vec<RepositorySummary>, String>)
        ensures
            match listing_summaries(self.host@, option_view(self.config.ssh_user), self.config.ssh_port, listed@, include_archived) {
                Ok(v) => r matches Ok(s) && s@.map_values(|x: RepositorySummary| summary_view(x)) == v,
                Err(e) => r matches Err(m) && m@ == e,
            },
    {
        self.summaries(include_archived, listed)
    }

    /// The members of a wildcard, from the listing of `expand_query`, summarized as `catalog`
    /// summarizes.
    pub fn expand(&self, include_archived: bool, listed: &Vec<ListedRepository>) -> (r: Result<Vec<RepositorySummary>, String>)
        ensures
            match listing_summaries(self.host@, option_view(self.config.ssh_user), self.config.ssh_port, listed@, include_archived) {
                Ok(v) => r matches Ok(s) && s@.map_values(|x: RepositorySummary| summary_view(x)) == v,
                Err(e) => r matches Err(m) && m@ == e,
            },
    {
        self.summaries(include_archived, listed)
    }
}

/// The catalog's error when any provider failed: each failure as `provider: error`, joined by `; `.
pub fn catalog_error(failures: &Vec<ProviderFailure>) -> (r: String)
    ensures
        r@ == join(failures@.map_values(|f: ProviderFailure| failure_text(f)), "; "@),
{
    let mut parts: Vec<Vec<char>> = Vec::new();
    let mut i: usize = 0;
    while i < failures.len()
        invariant
            i <= failures@.len(),
            parts@.map_values(|v: Vec<char>| v@) =~= failures@.map_values(|f: ProviderFailure| failure_text(f)).subrange(0, i as int),
        decreases failures.len() - i,
    {
        let ghost before = parts@.map_values(|v: Vec<char>| v@);
        parts.push(concat(&concat(&chars(failures[i].provider.as_str()), &chars(": ")), &chars(failures[i].error.as_str())));
        assert(parts@.map_values(|v: Vec<char>| v@) =~= before.push(failure_text(failures@[i as int])));
        i += 1;
    }
    assert(failures@.map_values(|f: ProviderFailure| failure_text(f)).subrange(0, failures@.len() as int) =~= failures@.map_values(|f: ProviderFailure| failure_text(f)));
    string_of(&join_with(&parts, &chars("; ")))
}

/// The catalog's failure when no provider is configured.
pub fn no_configured_providers() -> (r: ProviderFailure)
    ensures
        r.provider@ == "catalog"@,
        r.error@ == "no configured providers"@,
{
    ProviderFailure { provider: string_of(&chars("catalog")), error: string_of(&chars("no configured providers")) }
}

} // verus!
