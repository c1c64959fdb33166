use lager::application::declarations::{
    edit_registrations, register_reference, register_references, remove_reference, remove_references, ConfigStoreError,
    DeclarationEntry,
};
use lager::application::ports::{Mutation, RegistrationRequest};

fn entry(url: &str, post_clone: Option<&str>, exclude: Option<&[&str]>) -> DeclarationEntry {
    DeclarationEntry {
        url: url.to_owned(),
        post_clone: post_clone.map(str::to_owned),
        exclude: exclude.map(|names| names.iter().map(|name| name.to_string()).collect()),
        source: Some(0),
    }
}

#[test]
fn registering_adds_a_declaration_once() {
    let mut entries = vec![];
    assert_eq!(register_reference(&mut entries, "github.com/org/repo", None), Ok(Mutation::Changed));
    assert_eq!(entries.len(), 1);
    assert_eq!(entries[0].url, "github.com/org/repo");
    assert_eq!(register_reference(&mut entries, "git@github.com:org/repo.git", None), Ok(Mutation::Noop));
    assert_eq!(entries.len(), 1);
}

#[test]
fn registering_a_covered_repository_lifts_its_exclusion() {
    let mut entries = vec![entry("github.com/org/*", None, Some(&["skip", "other"]))];
    assert_eq!(register_reference(&mut entries, "github.com/org/skip", None), Ok(Mutation::Changed));
    assert_eq!(entries.len(), 1);
    assert_eq!(entries[0].exclude, Some(vec!["other".to_owned()]));
    assert_eq!(register_reference(&mut entries, "github.com/org/other", None), Ok(Mutation::Changed));
    assert_eq!(entries[0].exclude, None);
    assert_eq!(register_reference(&mut entries, "github.com/org/new", None), Ok(Mutation::Noop));
}

#[test]
fn a_hook_needs_its_own_declaration_and_never_conflicts_silently() {
    let mut entries = vec![entry("github.com/org/*", None, None)];
    assert_eq!(register_reference(&mut entries, "github.com/org/tool", Some("make")), Ok(Mutation::Changed));
    assert_eq!(entries[1].post_clone, Some("make".to_owned()));
    assert_eq!(
        register_reference(&mut entries, "github.com/org/tool", Some("other")),
        Err(ConfigStoreError::Conflict("github.com/org/tool".to_owned()))
    );
    assert_eq!(
        register_reference(&mut entries, "github.com/org/*", Some("make")),
        Err(ConfigStoreError::Reference("wildcard declarations cannot have post_clone".to_owned()))
    );
    assert!(matches!(register_reference(&mut entries, "nonsense", None), Err(ConfigStoreError::Reference(_))));
}

#[test]
fn removing_drops_the_declaration_or_excludes_the_member() {
    let mut entries = vec![entry("github.com/org/*", None, None), entry("github.com/org/tool", None, None)];
    assert_eq!(remove_reference(&mut entries, "github.com/org/tool"), Ok(Mutation::Changed));
    assert_eq!(entries.len(), 1);
    assert_eq!(entries[0].exclude, Some(vec!["tool".to_owned()]));
    assert_eq!(remove_reference(&mut entries, "github.com/org/tool"), Ok(Mutation::Noop));
    assert_eq!(remove_reference(&mut entries, "github.com/org/*"), Ok(Mutation::Changed));
    assert!(entries.is_empty());
}

#[test]
fn batches_report_each_reference() {
    let mut entries = vec![];
    let requests = vec![
        RegistrationRequest { reference: "github.com/org/one".to_owned(), post_clone: None },
        RegistrationRequest { reference: "github.com/org/two".to_owned(), post_clone: Some("make".to_owned()) },
        RegistrationRequest { reference: "github.com/org/one".to_owned(), post_clone: None },
    ];
    assert_eq!(edit_registrations(&mut entries, &requests), Ok(vec![Mutation::Changed, Mutation::Changed, Mutation::Noop]));
    assert_eq!(
        register_references(&mut entries, &vec!["github.com/org/three".to_owned()], None),
        Ok(vec![Mutation::Changed])
    );
    assert_eq!(
        remove_references(&mut entries, &vec!["github.com/org/one".to_owned(), "github.com/org/none".to_owned()]),
        Ok(vec![Mutation::Changed, Mutation::Noop])
    );
    assert_eq!(entries.len(), 2);
    assert_eq!(ConfigStoreError::Conflict("x".to_owned()).message(), "conflicting declaration for x");
}

#[test]
fn registering_the_same_reference_again_changes_nothing() {
    let mut entries = vec![entry("github.com/org/*", None, Some(&["tool"])), entry("github.com/other/x", None, None)];
    assert_eq!(register_reference(&mut entries, "github.com/org/tool", Some("make")), Ok(Mutation::Changed));
    let once = entries.clone();
    assert_eq!(register_reference(&mut entries, "github.com/org/tool", Some("make")), Ok(Mutation::Noop));
    assert_eq!(entries, once);
}

#[test]
fn removing_a_wildcard_member_twice_excludes_it_once() {
    let mut entries = vec![entry("github.com/org/*", None, None)];
    assert_eq!(remove_reference(&mut entries, "github.com/org/member"), Ok(Mutation::Changed));
    assert_eq!(entries[0].exclude, Some(vec!["member".to_owned()]));
    let once = entries.clone();
    assert_eq!(remove_reference(&mut entries, "github.com/org/member"), Ok(Mutation::Noop));
    assert_eq!(entries, once);
}

#[test]
fn registering_then_removing_an_unrelated_reference_restores_the_entries() {
    let original = vec![entry("github.com/other/x", Some("make"), None), entry("gitlab.com/team/*", None, Some(&["skip"]))];
    let mut entries = original.clone();
    assert_eq!(register_reference(&mut entries, "github.com/org/new", Some("build")), Ok(Mutation::Changed));
    assert_eq!(entries.len(), 3);
    assert_eq!(remove_reference(&mut entries, "github.com/org/new"), Ok(Mutation::Changed));
    assert_eq!(entries, original);
}

#[test]
fn a_batch_registered_or_removed_again_changes_nothing() {
    let mut entries = vec![entry("github.com/org/*", None, Some(&["a"])), entry("github.com/other/x", None, None)];
    let requests = vec![
        RegistrationRequest { reference: "github.com/org/a".to_owned(), post_clone: Some("make".to_owned()) },
        RegistrationRequest { reference: "github.com/team/*".to_owned(), post_clone: None },
        RegistrationRequest { reference: "github.com/org/b".to_owned(), post_clone: None },
    ];
    edit_registrations(&mut entries, &requests).unwrap();
    let once = entries.clone();
    assert_eq!(edit_registrations(&mut entries, &requests), Ok(vec![Mutation::Noop, Mutation::Noop, Mutation::Noop]));
    assert_eq!(entries, once);

    let references = vec!["github.com/org/a".to_owned(), "github.com/org/c".to_owned()];
    remove_references(&mut entries, &references).unwrap();
    let removed = entries.clone();
    assert_eq!(remove_references(&mut entries, &references), Ok(vec![Mutation::Noop, Mutation::Noop]));
    assert_eq!(entries, removed);
}
