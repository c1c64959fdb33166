use lager::domain::state::LocalState;
use lager::git_report::{check_origin, check_portable, classify_origin, clone_plan, removal_warnings, UnsafePath};

#[test]
fn every_unsafe_local_state_is_warned_about_in_order() {
    let warnings = removal_warnings(
        b"!! target/\nM  staged.rs\n M edited.rs\n?? new.rs\n",
        true,
        false,
        false,
        Some("2\n"),
        b"+1234567 sub (heads/main)\n",
    );
    assert_eq!(
        warnings,
        [
            "ignored files",
            "staged changes",
            "unstaged changes",
            "untracked files",
            "stashes",
            "detached HEAD",
            "unsafe branch tip",
            "local commits absent from the remote-tracking ref",
            "dirty submodules"
        ]
    );
}

#[test]
fn a_clean_attached_tracked_checkout_has_no_warning() {
    assert!(removal_warnings(b"", false, true, true, Some("0\n"), b" 1234567 sub (heads/main)\n").is_empty());
    assert_eq!(removal_warnings(b"", false, true, true, None, b""), ["no upstream"]);
    assert_eq!(
        removal_warnings(b"", false, true, true, Some("many"), b""),
        ["local commits absent from the remote-tracking ref"]
    );
}

#[test]
fn origins_compare_by_identity() {
    assert_eq!(classify_origin("git@github.com:org/repo.git\n", "https://github.com/org/repo"), LocalState::Cloned);
    assert_eq!(classify_origin("git@github.com:org/other.git\n", "github.com/org/repo"), LocalState::Conflict);
    assert_eq!(classify_origin("", "github.com/org/repo"), LocalState::Conflict);
    assert_eq!(check_origin("git@github.com:org/repo.git\n", "org/repo"), Ok(()));
    assert_eq!(
        check_origin("git@github.com:org/other.git\n", "org/repo"),
        Err("origin does not match the requested repository".to_owned())
    );
}

#[test]
fn a_clone_walks_from_home_to_its_destination() {
    let plan = clone_plan("/home/me", "/home/me/repos", "/home/me/repos/org/repo").unwrap();
    assert_eq!(plan.root_relative, ["repos"]);
    assert_eq!(plan.parents, ["org"]);
    assert_eq!(plan.name, "repo");
}

#[test]
fn unsafe_clone_destinations_are_refused() {
    assert_eq!(
        clone_plan("/home/me", "/srv/repos", "/srv/repos/org/repo"),
        Err(UnsafePath { path: "/srv/repos".to_owned(), message: "configured root is outside the trusted home directory".to_owned() })
    );
    assert_eq!(
        clone_plan("/home/me", "/home/me/repos", "/home/me/other/repo"),
        Err(UnsafePath { path: "/home/me/other/repo".to_owned(), message: "destination is outside the configured root".to_owned() })
    );
    assert_eq!(
        clone_plan("/home/me", "/home/me/repos", "/home/me/repos/../escape"),
        Err(UnsafePath { path: "/home/me/repos/../escape".to_owned(), message: "destination contains a non-portable component".to_owned() })
    );
    let error = clone_plan("/home/me", "/home/me/repos", "/home/me/repos").unwrap_err();
    assert_eq!(error.text(), "unsafe clone destination /home/me/repos: destination has no repository name");
    assert!(check_portable(&vec!["a".to_owned(), "..".to_owned()], "/home/me/a/..").is_err());
    assert_eq!(check_portable(&vec!["a".to_owned()], "/home/me/a"), Ok(()));
}

#[test]
fn removal_goes_on_only_inside_a_non_bare_work_tree() {
    assert_eq!(lager::git_report::inside_work_tree("true\n"), Ok(()));
    assert_eq!(lager::git_report::inside_work_tree("false\n"), Err("destination is not inside a Git work tree".to_owned()));
    assert_eq!(lager::git_report::not_bare(" false\n"), Ok(()));
    assert_eq!(lager::git_report::not_bare("true\n"), Err("bare repositories cannot be removed".to_owned()));
}
