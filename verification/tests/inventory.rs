use lager::application::inventory::{
    build_inventory, changes_observation, origin_fact, CheckoutState, InventoryFilesystem, LocalCheckout, LocalScan, ObservationField,
    OriginFact, RegistrationState,
};
use lager::domain::config::{Config, ProviderConfig, ProviderEntry, RepositoryDeclaration};

/// A disk on which no declared destination exists yet.
struct EmptyDisk;

impl InventoryFilesystem for EmptyDisk {
    fn destination_state(&self, _destination: &str) -> CheckoutState {
        CheckoutState::Missing
    }

    fn config_revision(&self, path: &str) -> String {
        path.to_owned()
    }
}

fn github() -> ProviderConfig {
    ProviderConfig {
        preset: "github".to_owned(),
        prefix: String::new(),
        api_url: None,
        auth: None,
        token_env: None,
        username_env: None,
        password_env: None,
        ssh_user: None,
        ssh_port: None,
    }
}

fn config(declarations: &[(&str, &[&str])]) -> Config {
    Config {
        root: "repos".to_owned(),
        providers: vec![ProviderEntry { host: "github.com".to_owned(), provider: github() }],
        repositories: declarations
            .iter()
            .map(|(url, exclude)| RepositoryDeclaration {
                url: (*url).to_owned(),
                post_clone: None,
                exclude: exclude.iter().map(|value| (*value).to_owned()).collect(),
            })
            .collect(),
    }
}

fn checkout(path: &str, identity: &str) -> LocalCheckout {
    LocalCheckout {
        path: path.to_owned(),
        identity: Some(identity.to_owned()),
        origin: OriginFact::Supported { original: format!("git@{}.git", identity), identity: identity.to_owned() },
        branch: ObservationField::Known("main".to_owned()),
        changes: ObservationField::Clean,
    }
}

fn scan_of(checkouts: Vec<LocalCheckout>) -> LocalScan {
    LocalScan { checkouts, complete: true, ..Default::default() }
}

const HOME: &str = "/tmp/lager-inventory/home";

#[test]
fn misplaced_wildcard_checkout_keeps_configured_destination_warning() {
    let observed = format!("{HOME}/repos/elsewhere/repo");
    let report = build_inventory(
        &EmptyDisk,
        &config(&[("github.com/org/*", &[])]),
        "/tmp/lager-inventory/config.toml",
        HOME,
        scan_of(vec![checkout(&observed, "github.com/org/repo")]),
    )
    .unwrap();
    let row = report.rows.iter().find(|row| row.observed_path.as_ref() == Some(&observed)).unwrap();
    let configured = format!("{HOME}/repos/org/repo");
    assert_eq!(row.configured_destination, Some(configured.clone()));
    assert!(row
        .warnings
        .iter()
        .any(|warning| warning == &format!("misplaced checkout; found: {observed}; configured: {configured}")));
}

#[test]
fn explicit_relationships_include_overlapping_wildcards_in_each_declaration_order() {
    for declarations in [
        vec![("github.com/org/*", &[][..]), ("github.com/org/team/*", &[][..]), ("github.com/org/team/repo", &[][..])],
        vec![("github.com/org/team/*", &[][..]), ("github.com/org/*", &[][..]), ("github.com/org/team/repo", &[][..])],
    ] {
        let observed = format!("{HOME}/repos/elsewhere/repo");
        let report = build_inventory(
            &EmptyDisk,
            &config(&declarations),
            "/tmp/lager-inventory/config.toml",
            HOME,
            scan_of(vec![checkout(&observed, "github.com/org/team/repo")]),
        )
        .unwrap();
        let row = report.rows.iter().find(|row| row.observed_path.as_ref() == Some(&observed)).unwrap();
        assert_eq!(row.registration, RegistrationState::Explicit);
        assert!(row.warnings.iter().any(|warning| warning == "covered by github.com/org/*"));
        assert!(row.warnings.iter().any(|warning| warning == "covered by github.com/org/team/*"));
    }
}

#[test]
fn declared_but_unscanned_destinations_are_missing_rows() {
    let report = build_inventory(
        &EmptyDisk,
        &config(&[("github.com/org/repo", &[])]),
        "/tmp/lager-inventory/config.toml",
        HOME,
        scan_of(vec![]),
    )
    .unwrap();
    assert_eq!(report.rows.len(), 1);
    assert_eq!(report.rows[0].checkout, CheckoutState::Missing);
    assert_eq!(report.rows[0].registration, RegistrationState::Explicit);
    assert_eq!(report.rows[0].configured_destination, Some(format!("{HOME}/repos/org/repo")));
    assert_eq!(report.observation_generation, 1);
}

#[test]
fn an_unregistered_checkout_gets_a_row_of_its_own() {
    let observed = format!("{HOME}/repos/other/tool");
    let report = build_inventory(
        &EmptyDisk,
        &config(&[]),
        "/tmp/lager-inventory/config.toml",
        HOME,
        scan_of(vec![checkout(&observed, "github.com/other/tool")]),
    )
    .unwrap();
    assert_eq!(report.rows.len(), 1);
    assert_eq!(report.rows[0].registration, RegistrationState::Unregistered);
    assert_eq!(report.rows[0].checkout, CheckoutState::Cloned);
}

#[test]
fn a_root_outside_the_rules_is_refused() {
    let mut bad = config(&[]);
    bad.root = "../escape".to_owned();
    assert!(build_inventory(&EmptyDisk, &bad, "/tmp/lager-inventory/config.toml", HOME, scan_of(vec![])).is_err());
}

#[test]
fn labels_read_as_the_terminal_shows_them() {
    assert_eq!(RegistrationState::Explicit.label(), "explicit");
    assert_eq!(CheckoutState::Unreadable.label(), "unreadable");
    assert_eq!(ObservationField::Clean.label(), "known clean");
    assert_eq!(ObservationField::Error("boom".to_owned()).label(), "error: boom");
    assert_eq!(ObservationField::Stale("old".to_owned()).label(), "stale: old");
    assert_eq!(OriginFact::Absent.display(), "No origin");
}

#[test]
fn origin_and_change_observations_follow_git_output() {
    assert_eq!(
        origin_fact("git@github.com:org/repo.git"),
        OriginFact::Supported { original: "git@github.com:org/repo.git".to_owned(), identity: "github.com/org/repo".to_owned() }
    );
    assert_eq!(origin_fact("nonsense"), OriginFact::Unsupported("nonsense".to_owned()));
    assert_eq!(changes_observation("  \n"), ObservationField::Clean);
    assert_eq!(changes_observation(" M a\n?? b\n"), ObservationField::Dirty("2 modified".to_owned()));
}

#[test]
fn providers_out_of_host_order_or_repeated_do_not_validate() {
    let mut config = config(&[("github.com/org/repo", &[])]);
    assert!(config.validate().is_ok());
    config.providers = vec![
        ProviderEntry { host: "github.com".to_owned(), provider: github() },
        ProviderEntry { host: "example.com".to_owned(), provider: github() },
    ];
    let error = config.validate().unwrap_err();
    assert_eq!(error.message(), "invalid config: providers must be kept in ascending host order, each host once");
    config.providers = vec![
        ProviderEntry { host: "github.com".to_owned(), provider: github() },
        ProviderEntry { host: "github.com".to_owned(), provider: github() },
    ];
    assert!(config.validate().is_err());
}
