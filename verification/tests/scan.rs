use lager::application::inventory::{LocalCheckout, ObservationField, OriginFact, ScanDiagnostic};
use lager::inventory_view::ScanUpdate;
use lager::scan::{
    after_bare_check, after_marker, branch_observation, changes_probe, detached, discover_path, event_is_current,
    local_checkout, needs_commit, origin_after_remotes, origin_probe, scan_local_repositories, scan_update, Discovery,
    GitMarker, OriginProbe, PathKind, ProbeError, ScanContext, ScanEvent, TargetSnapshot,
};

fn context() -> ScanContext {
    ScanContext { generation: 1, config_revision: "config.toml".to_owned(), root: "/r".to_owned() }
}

fn target(path: &str) -> TargetSnapshot {
    TargetSnapshot { path: path.to_owned(), receiver_token: Some("1:2".to_owned()), content_token: Some(7) }
}

fn checkout(path: &str) -> LocalCheckout {
    LocalCheckout {
        path: path.to_owned(),
        identity: None,
        origin: OriginFact::Absent,
        branch: ObservationField::Known("main".to_owned()),
        changes: ObservationField::Clean,
    }
}

#[test]
fn a_scan_collects_events_until_it_completes_in_path_order() {
    let events = vec![
        ScanEvent::Discovered { path: "/r/b".to_owned(), context: context(), target: target("/r/b") },
        ScanEvent::Checkout { checkout: checkout("/r/b"), context: context(), target: target("/r/b"), content_current: true },
        ScanEvent::Failure,
        ScanEvent::Checkout { checkout: checkout("/r/a-b"), context: context(), target: target("/r/a-b"), content_current: true },
        ScanEvent::Checkout { checkout: checkout("/r/a/b"), context: context(), target: target("/r/a/b"), content_current: true },
        ScanEvent::Diagnostic {
            diagnostic: ScanDiagnostic { path: "/r/x".to_owned(), message: "unreadable path: denied".to_owned(), incomplete: true },
            context: context(),
        },
        ScanEvent::Complete { incomplete: false, context: context() },
        ScanEvent::Discovered { path: "/r/late".to_owned(), context: context(), target: target("/r/late") },
    ];
    let scan = scan_local_repositories(events);
    assert!(scan.complete);
    assert!(scan.incomplete);
    assert_eq!(scan.pending_paths, ["/r/b"]);
    let paths: Vec<&str> = scan.checkouts.iter().map(|checkout| checkout.path.as_str()).collect();
    assert_eq!(paths, ["/r/a/b", "/r/a-b", "/r/b"]);
    assert_eq!(scan.diagnostics.len(), 1);
    assert!(scan.stale_paths.is_empty());
}

#[test]
fn events_are_current_only_for_the_running_scan() {
    assert!(event_is_current(&context(), 1, "/r/", "config.toml"));
    assert!(!event_is_current(&context(), 2, "/r", "config.toml"));
    assert!(!event_is_current(&context(), 1, "/other", "config.toml"));
    assert!(!event_is_current(&context(), 1, "/r", "config.toml:9"));
}

#[test]
fn targets_compare_by_their_captured_identity() {
    let snapshot = target("/r/a");
    assert!(snapshot.matches_current(&Some("1:2".to_owned())));
    assert!(!snapshot.matches_current(&Some("1:3".to_owned())));
    assert!(!snapshot.matches_current(&None));
    assert!(snapshot.contents_match_current(Some(7)));
    assert!(!snapshot.contents_match_current(Some(8)));
}

#[test]
fn updates_carry_whether_the_event_still_applies() {
    let update = scan_update(
        ScanEvent::Checkout { checkout: checkout("/r/a"), context: context(), target: target("/r/a"), content_current: true },
        1,
        "/r",
        "config.toml",
        &Some("other".to_owned()),
    );
    assert_eq!(update, ScanUpdate::Checkout { checkout: checkout("/r/a"), target: "/r/a".to_owned(), current: true, fresh: false });
    let discovered = scan_update(
        ScanEvent::Discovered { path: "/r/a".to_owned(), context: context(), target: target("/r/a") },
        1,
        "/r",
        "config.toml",
        &Some("1:2".to_owned()),
    );
    assert_eq!(discovered, ScanUpdate::Discovered { path: "/r/a".to_owned(), current: true });
    assert_eq!(scan_update(ScanEvent::Failure, 1, "/r", "c", &None), ScanUpdate::Failure);
}

#[test]
fn probe_errors_read_as_git_reports_them() {
    assert_eq!(ProbeError::Cancelled.message(), "cancelled");
    assert_eq!(
        ProbeError::Exit { code: Some(128), stderr: "fatal: not a git repository".to_owned() }.message(),
        "git command failed (exit Some(128)): fatal: not a git repository"
    );
    assert_eq!(ProbeError::Exit { code: None, stderr: String::new() }.message(), "git command failed (exit None): ");
    assert_eq!(ProbeError::Failed("spawn failed".to_owned()).message(), "spawn failed");
}

#[test]
fn the_origin_probe_decides_between_origin_absence_and_error() {
    assert_eq!(
        origin_probe(&Ok("git@github.com:org/repo.git\n".to_owned())),
        OriginProbe::Known {
            fact: OriginFact::Supported {
                original: "git@github.com:org/repo.git".to_owned(),
                identity: "github.com/org/repo".to_owned()
            },
            failed: false
        }
    );
    assert_eq!(origin_probe(&Err(ProbeError::Cancelled)), OriginProbe::Cancelled);
    let no_origin = ProbeError::Exit { code: Some(2), stderr: "error: No such remote 'origin'".to_owned() };
    assert_eq!(origin_probe(&Err(no_origin.clone())), OriginProbe::ListRemotes);
    assert_eq!(
        origin_after_remotes(&no_origin, &Ok("upstream\n".to_owned())),
        OriginProbe::Known { fact: OriginFact::Absent, failed: false }
    );
    assert_eq!(
        origin_after_remotes(&no_origin, &Ok("origin\n".to_owned())),
        OriginProbe::Known {
            fact: OriginFact::Error("git command failed (exit Some(2)): error: No such remote 'origin'".to_owned()),
            failed: true
        }
    );
    assert_eq!(origin_after_remotes(&no_origin, &Err(ProbeError::Cancelled)), OriginProbe::Cancelled);
}

#[test]
fn branch_and_changes_observations() {
    assert!(needs_commit(&Err(ProbeError::Exit { code: Some(1), stderr: String::new() })));
    assert!(!needs_commit(&Err(ProbeError::Exit { code: Some(1), stderr: "fatal".to_owned() })));
    assert_eq!(detached(Ok("abc123\n".to_owned())), Ok("detached HEAD abc123".to_owned()));
    assert_eq!(
        branch_observation(Ok("main\n".to_owned())),
        Some((ObservationField::Known("main".to_owned()), false))
    );
    assert_eq!(branch_observation(Err(ProbeError::Cancelled)), None);
    assert_eq!(
        branch_observation(Err(ProbeError::Failed("boom".to_owned()))),
        Some((ObservationField::Error("boom".to_owned()), true))
    );
    assert_eq!(changes_probe(Ok(String::new())), Some((ObservationField::Clean, false)));
    assert_eq!(changes_probe(Ok(" M a\n M b\n?? c\n".to_owned())), Some((ObservationField::Dirty("3 modified".to_owned()), false)));
}

#[test]
fn a_checkout_takes_the_identity_of_a_supported_origin() {
    let made = local_checkout(
        "/r/a".to_owned(),
        OriginFact::Supported { original: "x".to_owned(), identity: "github.com/org/a".to_owned() },
        ObservationField::Pending,
        ObservationField::Pending,
    );
    assert_eq!(made.identity, Some("github.com/org/a".to_owned()));
    let unsupported = local_checkout("/r/b".to_owned(), OriginFact::Unsupported("x".to_owned()), ObservationField::Pending, ObservationField::Pending);
    assert_eq!(unsupported.identity, None);
}

#[test]
fn walking_decides_each_path_in_turn() {
    assert_eq!(
        discover_path("/r/x", &PathKind::Unreadable("permission denied".to_owned())),
        Discovery::Report(ScanDiagnostic { path: "/r/x".to_owned(), message: "unreadable path: permission denied".to_owned(), incomplete: true })
    );
    assert_eq!(discover_path("/r/x", &PathKind::Other), Discovery::Skip);
    assert_eq!(discover_path("/r/x", &PathKind::Directory { bare_layout: true }), Discovery::CheckBare);
    assert_eq!(discover_path("/r/x", &PathKind::Directory { bare_layout: false }), Discovery::CheckMarker);
    assert_eq!(
        after_bare_check("/r/x", &Ok("true\n".to_owned())),
        Discovery::Report(ScanDiagnostic { path: "/r/x".to_owned(), message: "bare repository ignored".to_owned(), incomplete: false })
    );
    assert_eq!(after_bare_check("/r/x", &Ok("false\n".to_owned())), Discovery::CheckMarker);
    assert_eq!(after_bare_check("/r/x", &Err(ProbeError::Cancelled)), Discovery::Stop);
    assert_eq!(after_marker("/r/x", GitMarker::Directory), Discovery::Emit);
    assert_eq!(after_marker("/r/x", GitMarker::Neither), Discovery::ReadDirectory);
    assert_eq!(
        after_marker("/r/x", GitMarker::File),
        Discovery::Report(ScanDiagnostic {
            path: "/r/x".to_owned(),
            message: "linked worktree or submodule ignored".to_owned(),
            incomplete: false
        })
    );
}
