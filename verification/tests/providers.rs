use lager::application::ports::ProviderFailure;
use lager::domain::config::ProviderConfig;
use lager::domain::repository::RepositoryRef;
use lager::providers::{
    apply_prefix, auth_plan, bearer_value, catalog_error, choose_link, cloud_endpoint, cloud_repositories_path, cloud_summary,
    data_center_catalog_path, data_center_endpoint, data_center_project_path, data_center_summary, first_page, gh_arguments,
    gh_failure, gh_start_error, keep_listed, listed_summary, next_page, next_start, no_configured_providers, organization_query,
    ssh_url, unset_variable, urlencoding, validate_pagination_url, viewer_query, wildcard_owner, workspace_name, AuthPlan,
    CloneLink, Github, ListedRepository,
};

fn forge() -> ProviderConfig {
    ProviderConfig { ssh_user: Some("forge".to_owned()), ssh_port: Some(2222), ..ProviderConfig::default() }
}

fn link(name: &str, href: &str) -> CloneLink {
    CloneLink { name: name.to_owned(), href: href.to_owned() }
}

#[test]
fn configured_ssh_identity_and_port_are_materialized() {
    assert_eq!(ssh_url("github.example", &forge(), "org/repo"), "ssh://forge@github.example:2222/org/repo.git");
    assert_eq!(ssh_url("github.com", &ProviderConfig::default(), "org/repo"), "git@github.com:org/repo.git");
}

#[test]
fn listed_repositories_are_cloned_over_the_provider_ssh_settings() {
    let summary = listed_summary("ghe.example", &forge(), "ssh://returned@ghe.example:2222/org/active.git", false).unwrap();
    assert_eq!(summary.reference.clone_url, "ssh://forge@ghe.example:2222/org/active.git");
    assert!(!summary.archived);
    assert!(listed_summary("ghe.example", &forge(), "", true).is_err());
}

#[test]
fn cloud_summaries_prefer_the_ssh_link() {
    let links = vec![link("https", "https://bb.example/one/old.git"), link("SSH", "ssh://returned@bb.example/one/active.git")];
    assert_eq!(choose_link(&links), Some(1));
    let summary = cloud_summary("bb.example", &forge(), &links, None).unwrap();
    assert_eq!(summary.reference.clone_url, "ssh://forge@bb.example:2222/one/active.git");
    let only_https = vec![link("https", "https://bb.example/one/old.git")];
    let archived = cloud_summary("bb.example", &forge(), &only_https, Some(true)).unwrap();
    assert_eq!(archived.reference.clone_url, "ssh://forge@bb.example:2222/one/old.git");
    assert!(archived.archived);
    assert_eq!(cloud_summary("bb.example", &forge(), &vec![], None), Err("repository omitted clone links".to_owned()));
}

#[test]
fn data_center_summaries_use_project_and_slug() {
    let links = vec![link("ssh", "ssh://returned@dc.example:7999/PROJ/active.git")];
    let summary = data_center_summary("dc.example", &forge(), &links, Some(false), "PROJ", "active").unwrap();
    assert_eq!(summary.reference.clone_url, "ssh://forge@dc.example:2222/PROJ/active.git");
    let default_port = data_center_summary("dc.example", &ProviderConfig::default(), &links, None, "PROJ", "active").unwrap();
    assert_eq!(default_port.reference.clone_url, "ssh://git@dc.example:7999/PROJ/active.git");
    assert_eq!(
        data_center_summary("dc.example", &forge(), &vec![], None, "PROJ", "active"),
        Err("Bitbucket repository omitted clone links".to_owned())
    );
}

#[test]
fn archived_repositories_are_listed_only_on_request() {
    assert!(keep_listed(false, Some(false)));
    assert!(keep_listed(false, None));
    assert!(!keep_listed(false, Some(true)));
    assert!(keep_listed(true, Some(true)));
}

#[test]
fn prefixes_place_provider_repositories() {
    let summary = listed_summary("dc.example", &ProviderConfig::default(), "ssh://git@dc.example/~alice/tool.git", false).unwrap();
    let placed = apply_prefix(summary, "work//dc", true);
    assert_eq!(placed.reference.destination_segments, ["work", "dc", "alice", "tool"]);
    let plain = listed_summary("github.com", &ProviderConfig::default(), "git@github.com:org/repo.git", false).unwrap();
    let placed = apply_prefix(plain, "", false);
    assert_eq!(placed.reference.destination_segments, ["org", "repo"]);
}

#[test]
fn wildcards_name_their_owner() {
    let reference = RepositoryRef::parse("bb.example/team/*").unwrap();
    assert_eq!(wildcard_owner(&reference.path, "Bitbucket wildcard requires a workspace"), Ok("team".to_owned()));
    assert_eq!(wildcard_owner("", "GitHub wildcard requires an organization"), Err("GitHub wildcard requires an organization".to_owned()));
}

#[test]
fn unknown_auth_modes_are_reported_before_any_request() {
    let config = ProviderConfig { auth: Some("invalid".to_owned()), ..ProviderConfig::default() };
    assert!(auth_plan(&config).unwrap_err().contains("unsupported authentication mode"));
    assert_eq!(auth_plan(&ProviderConfig::default()), Ok(AuthPlan::Anonymous));
    let bearer = ProviderConfig { auth: Some("bearer".to_owned()), token_env: Some("TOKEN".to_owned()), ..ProviderConfig::default() };
    assert_eq!(auth_plan(&bearer), Ok(AuthPlan::Bearer { token_env: "TOKEN".to_owned() }));
    let basic = ProviderConfig {
        auth: Some("basic".to_owned()),
        username_env: Some("USER".to_owned()),
        token_env: Some("TOKEN".to_owned()),
        ..ProviderConfig::default()
    };
    assert_eq!(auth_plan(&basic), Ok(AuthPlan::Basic { username_env: "USER".to_owned(), password_env: "TOKEN".to_owned() }));
    let incomplete = ProviderConfig { auth: Some("bearer".to_owned()), ..ProviderConfig::default() };
    assert_eq!(auth_plan(&incomplete), Err("bearer authentication requires token_env".to_owned()));
    assert_eq!(unset_variable("TOKEN"), "authentication environment variable TOKEN is unset");
    assert_eq!(bearer_value("abc"), "Bearer abc");
}

#[test]
fn endpoints_are_built_below_the_api_url() {
    assert_eq!(
        cloud_endpoint(&ProviderConfig::default(), &cloud_repositories_path("one")),
        Ok("https://api.bitbucket.org/2.0/repositories/one".to_owned())
    );
    let configured = ProviderConfig { api_url: Some("http://127.0.0.1:9/".to_owned()), ..ProviderConfig::default() };
    assert_eq!(
        data_center_endpoint(&configured, &data_center_catalog_path(13)),
        Ok("http://127.0.0.1:9/rest/api/1.0/repos?permission=REPO_READ&start=13&limit=25".to_owned())
    );
    assert_eq!(
        data_center_endpoint(&ProviderConfig::default(), "/x"),
        Err("Bitbucket Data Center requires api_url".to_owned())
    );
}

#[test]
fn adapter_expands_personal_project_without_encoding_tilde() {
    assert_eq!(data_center_project_path("~alice", 0), "/rest/api/1.0/projects/~alice/repos?start=0&limit=25");
    assert_eq!(urlencoding("a b/ü").into_iter().collect::<String>(), "a%20b%2F%C3%BC");
}

#[test]
fn pagination_stays_on_the_trusted_origin() {
    let trusted = first_page("https://api.bitbucket.org/2.0/user/permissions/workspaces").unwrap();
    let next = next_page(&trusted, &trusted, Some("/workspaces?page=2")).unwrap().unwrap();
    assert_eq!(next.serialized, "https://api.bitbucket.org/workspaces?page=2");
    assert_eq!(next_page(&trusted, &trusted, None), Ok(None));
    assert_eq!(
        next_page(&trusted, &trusted, Some("https://elsewhere.example/page")),
        Err("Bitbucket pagination URL changed the trusted origin".to_owned())
    );
    assert_eq!(
        next_page(&trusted, &trusted, Some("https://user:pw@api.bitbucket.org/page")),
        Err("Bitbucket pagination URL must not contain userinfo".to_owned())
    );
    let file = first_page("file:///etc/passwd");
    assert_eq!(file, Err("Bitbucket pagination URL uses an unsafe scheme".to_owned()));
    assert!(first_page("not a url").unwrap_err().starts_with("invalid Bitbucket pagination URL: "));
    assert_eq!(validate_pagination_url(&trusted, &next), Ok(()));
}

#[test]
fn data_center_pages_continue_from_the_given_start() {
    assert_eq!(next_start(true, None), Ok(None));
    assert_eq!(next_start(false, Some(13)), Ok(Some(13)));
    assert_eq!(next_start(false, None), Err("Bitbucket response omitted nextPageStart".to_owned()));
    assert_eq!(workspace_name(None, Some("{uuid}".to_owned())), Ok("{uuid}".to_owned()));
    assert_eq!(workspace_name(None, None), Err("workspace response omitted slug and uuid".to_owned()));
}

#[test]
fn gh_is_asked_for_every_page() {
    let arguments = gh_arguments("ghe.example", &viewer_query());
    assert_eq!(&arguments[..3], ["api", "--hostname", "ghe.example"]);
    assert!(arguments.contains(&"--paginate".to_owned()));
    assert!(arguments.contains(&"--slurp".to_owned()));
    assert!(arguments.last().unwrap().contains("after:$endCursor"));
    assert_eq!(gh_arguments("github.com", "q")[..2], ["api", "graphql"]);
    assert_eq!(
        organization_query("org"),
        "query($endCursor:String){organization(login:\"org\"){repositories(first:100,after:$endCursor){nodes{name isArchived isPrivate sshUrl owner{login}} pageInfo{hasNextPage endCursor}}}}"
    );
    assert_eq!(gh_failure("auth fixture diagnostic\n"), "auth fixture diagnostic");
    assert!(gh_start_error(true, "").contains("install GitHub CLI"));
    assert_eq!(gh_start_error(false, "denied"), "could not start gh: denied");
}

#[test]
fn catalog_failures_are_reported_together() {
    let failures = vec![
        ProviderFailure { provider: "github.com".to_owned(), error: "offline".to_owned() },
        ProviderFailure { provider: "bb.example".to_owned(), error: "denied".to_owned() },
    ];
    assert_eq!(catalog_error(&failures), "github.com: offline; bb.example: denied");
    let none = no_configured_providers();
    assert_eq!((none.provider.as_str(), none.error.as_str()), ("catalog", "no configured providers"));
}

fn listed(url: &str, archived: bool) -> ListedRepository {
    ListedRepository { ssh_url: url.to_owned(), is_archived: archived }
}

#[test]
fn adapter_runs_gh_pagination_filters_archived_and_materializes_ssh() {
    let provider = Github::new("ghe.example".to_owned(), forge());
    let listing = vec![
        listed("ssh://returned@ghe.example:2222/org/active.git", false),
        listed("ssh://returned@ghe.example:2222/org/old.git", true),
    ];
    let active = provider.catalog(false, &listing).unwrap();
    assert_eq!(active.len(), 1);
    assert_eq!(active[0].reference.clone_url, "ssh://forge@ghe.example:2222/org/active.git");
    assert_eq!(provider.catalog(true, &listing).unwrap().len(), 2);
    let args = provider.arguments(&viewer_query()).join(" ");
    assert!(args.contains("--hostname ghe.example"));
    assert!(args.contains("--paginate"));
    assert!(args.contains("--slurp"));
    assert!(args.contains("after:$endCursor"));
}

#[test]
fn adapter_preserves_gh_stderr_on_command_failure() {
    let error = gh_failure("auth fixture diagnostic");
    assert!(error.contains("auth fixture diagnostic"));
}

#[test]
fn adapter_reports_unknown_auth_mode_before_request() {
    let config = ProviderConfig {
        api_url: Some("http://127.0.0.1:9".to_owned()),
        auth: Some("invalid".to_owned()),
        ..ProviderConfig::default()
    };
    let error = auth_plan(&config).unwrap_err();
    assert!(error.contains("unsupported authentication mode"));
}

#[test]
fn github_adapter_runs_the_gh_on_the_path() {
    let provider = Github::new("github.com".to_owned(), ProviderConfig::default());
    assert_eq!(provider.gh_executable, "gh");
    assert_eq!(provider.host, "github.com");
    assert!(!provider.arguments("q").contains(&"--hostname".to_owned()));
}

#[test]
fn github_expansion_asks_for_the_wildcard_organization() {
    let provider = Github::new("github.com".to_owned(), ProviderConfig::default());
    let wildcard = RepositoryRef::parse("github.com/org/*").unwrap();
    let query = provider.expand_query(&wildcard).unwrap();
    assert_eq!(query, organization_query("org"));
    assert!(query.contains("organization(login:\"org\")"));
    let members = provider.expand(false, &vec![listed("git@github.com:org/one.git", false)]).unwrap();
    assert_eq!(members[0].reference.clone_url, "git@github.com:org/one.git");
    assert_eq!(members[0].reference.path, "org/one");
}

#[test]
fn github_listing_stops_at_the_first_unreadable_url() {
    let provider = Github::new("github.com".to_owned(), ProviderConfig::default());
    let listing = vec![listed("git@github.com:org/one.git", false), listed("", false), listed("::", false)];
    assert!(provider.catalog(false, &listing).is_err());
    let archived_only = vec![listed("", true)];
    assert_eq!(provider.catalog(false, &archived_only).unwrap().len(), 0);
}
