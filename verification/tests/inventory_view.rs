use lager::application::inventory::{LocalCheckout, LocalScan, ObservationField, OriginFact, ScanDiagnostic};
use lager::inventory_view::{
    apply_scan_update, edit_query, fuzzy_subsequence, moved_index, stale_observation, stale_scan, warning_notice, QueryKey,
    ScanSession, ScanUpdate,
};

fn checkout(path: &str) -> LocalCheckout {
    LocalCheckout {
        path: path.to_owned(),
        identity: None,
        origin: OriginFact::Absent,
        branch: ObservationField::Known("main".to_owned()),
        changes: ObservationField::Clean,
    }
}

fn session() -> ScanSession {
    ScanSession { scan: LocalScan::default(), complete: false, had_failure: false }
}

#[test]
fn warnings_are_noticed_together() {
    assert_eq!(warning_notice(vec![]), None);
    assert_eq!(warning_notice(vec!["a".to_owned(), "b".to_owned()]), Some("warning: a · b".to_owned()));
}

#[test]
fn a_refresh_keeps_observations_as_stale() {
    assert_eq!(stale_observation(ObservationField::Clean), ObservationField::Stale("known clean".to_owned()));
    assert_eq!(stale_observation(ObservationField::Known("main".to_owned())), ObservationField::Stale("main".to_owned()));
    assert_eq!(stale_observation(ObservationField::Pending), ObservationField::Pending);
    let previous = LocalScan { checkouts: vec![checkout("/r/a")], complete: true, incomplete: true, ..LocalScan::default() };
    let stale = stale_scan(&previous);
    assert_eq!(stale.checkouts[0].branch, ObservationField::Stale("main".to_owned()));
    assert_eq!(stale.checkouts[0].changes, ObservationField::Stale("known clean".to_owned()));
    assert!(!stale.complete);
    assert!(!stale.incomplete);
}

#[test]
fn search_matches_characters_in_order() {
    assert!(fuzzy_subsequence("github.com/Org/Repo", "orgrepo"));
    assert!(!fuzzy_subsequence("github.com/org/repo", "oper"));
    assert!(fuzzy_subsequence("anything", ""));
    let mut query = "ab".to_owned();
    edit_query(&mut query, QueryKey::Char { character: 'c', modified: false });
    edit_query(&mut query, QueryKey::Char { character: 'x', modified: true });
    assert_eq!(query, "abc");
    edit_query(&mut query, QueryKey::Backspace);
    edit_query(&mut query, QueryKey::Other);
    assert_eq!(query, "ab");
}

#[test]
fn moving_the_selection_stays_in_range() {
    assert_eq!(moved_index(None, 1, 3), 1);
    assert_eq!(moved_index(Some(2), 5, 3), 2);
    assert_eq!(moved_index(Some(1), -4, 3), 0);
}

#[test]
fn scan_updates_apply_only_to_the_running_scan() {
    let mut state = session();
    apply_scan_update(&mut state, ScanUpdate::Discovered { path: "/r/a".to_owned(), current: true });
    apply_scan_update(&mut state, ScanUpdate::Discovered { path: "/r/old".to_owned(), current: false });
    assert_eq!(state.scan.pending_paths, ["/r/a"]);
    apply_scan_update(&mut state, ScanUpdate::Checkout { checkout: checkout("/r/a"), target: "/r/a".to_owned(), current: true, fresh: true });
    assert_eq!(state.scan.checkouts.len(), 1);
    apply_scan_update(&mut state, ScanUpdate::Checkout { checkout: checkout("/r/a"), target: "/r/a".to_owned(), current: true, fresh: false });
    assert!(state.scan.checkouts.is_empty());
    assert_eq!(state.scan.stale_paths, ["/r/a"]);
    apply_scan_update(&mut state, ScanUpdate::Diagnostic {
        diagnostic: ScanDiagnostic { path: "/r/x".to_owned(), message: "unreadable path: denied".to_owned(), incomplete: true },
        current: true,
    });
    assert!(state.had_failure);
    assert!(state.scan.incomplete);
    apply_scan_update(&mut state, ScanUpdate::Complete { incomplete: false, current: true });
    assert!(state.complete);
    assert!(state.scan.complete);
    apply_scan_update(&mut state, ScanUpdate::Failure);
    assert!(state.had_failure);
}

#[test]
fn a_fresh_checkout_replaces_the_one_at_its_path_and_completion_keeps_pending_ones() {
    let mut s = session();
    for path in ["/r/a", "/r/b"] {
        apply_scan_update(&mut s, ScanUpdate::Discovered { path: path.to_owned(), current: true });
    }
    for path in ["/r/a", "/r/b", "/r/gone"] {
        s.scan.checkouts.push(checkout(path));
    }
    let mut newer = checkout("/r/a");
    newer.branch = ObservationField::Known("topic".to_owned());
    apply_scan_update(
        &mut s,
        ScanUpdate::Checkout { checkout: newer.clone(), target: "/r/a".to_owned(), current: true, fresh: true },
    );
    let paths: Vec<&str> = s.scan.checkouts.iter().map(|c| c.path.as_str()).collect();
    assert_eq!(paths, ["/r/b", "/r/gone", "/r/a"]);
    assert_eq!(s.scan.checkouts[2], newer);
    apply_scan_update(&mut s, ScanUpdate::Complete { incomplete: false, current: true });
    let paths: Vec<&str> = s.scan.checkouts.iter().map(|c| c.path.as_str()).collect();
    assert_eq!(paths, ["/r/b", "/r/a"]);
    assert!(s.complete && s.scan.complete);
}

#[test]
fn a_changed_target_is_listed_as_stale_once() {
    let mut s = session();
    apply_scan_update(&mut s, ScanUpdate::Discovered { path: "/r/a".to_owned(), current: true });
    s.scan.checkouts.push(checkout("/r/a"));
    for _ in 0..2 {
        apply_scan_update(
            &mut s,
            ScanUpdate::Checkout { checkout: checkout("/r/a"), target: "/r/a".to_owned(), current: true, fresh: false },
        );
    }
    assert!(s.scan.pending_paths.is_empty());
    assert!(s.scan.checkouts.is_empty());
    assert_eq!(s.scan.stale_paths, vec!["/r/a".to_owned()]);
}

#[test]
fn report_lines_give_the_header_and_the_scan_summary() {
    let report = lager::application::inventory::InventoryReport {
        rows: vec![],
        diagnostics: vec![
            lager::application::inventory::ScanDiagnostic {
                path: "/home/u/repos/broken".to_owned(),
                message: "unreadable".to_owned(),
                incomplete: true,
            },
            lager::application::inventory::ScanDiagnostic {
                path: "/home/u/repos/vendor/".to_owned(),
                message: "nested repository".to_owned(),
                incomplete: false,
            },
        ],
        config_revision: "rev-1".to_owned(),
        observation_generation: 3,
        incomplete: true,
    };
    let (header, summary) = lager::inventory_view::report_lines(&report, true, 12, false, "org");
    assert_eq!(header, vec!["NORMAL / org · 12 rows · generation 3 · rev-1".to_owned()]);
    assert_eq!(
        summary,
        vec![
            "partial scan: 2 diagnostics; one or more paths could not be read".to_owned(),
            "ignored repositories: vendor: nested repository".to_owned(),
            "q quit · Esc quit · R refresh local/config · remote unavailable".to_owned(),
        ]
    );
    let quiet = lager::application::inventory::InventoryReport { diagnostics: vec![report.diagnostics[0].clone()], incomplete: false, ..report };
    let (_, summary) = lager::inventory_view::report_lines(&quiet, false, 0, true, "");
    assert_eq!(
        summary,
        vec![
            "diagnostic: /home/u/repos/broken: unreadable".to_owned(),
            "loading local discovery and observations…".to_owned(),
            "q quit · Esc quit · R refresh local/config · remote unavailable".to_owned(),
        ]
    );
}
