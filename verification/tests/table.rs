use lager::table::{abbreviate, column_widths, columns, fit_widths};

#[test]
fn cells_that_fit_stay_whole_and_others_end_in_an_ellipsis() {
    assert_eq!(abbreviate("repo", 4, false), "repo");
    assert_eq!(abbreviate("repository", 5, false), "repo…");
    assert_eq!(abbreviate("/home/u/repos/x", 6, true), "…pos/x");
    assert_eq!(abbreviate("anything", 0, false), "");
}

#[test]
fn widths_shrink_from_the_last_widest_column_down_to_the_headings() {
    assert_eq!(fit_widths(vec![10, 8, 4], &vec![4, 4, 4], 16), vec![6, 6, 4]);
    assert_eq!(fit_widths(vec![5, 5], &vec![5, 5], 3), vec![5, 5]);
    assert_eq!(fit_widths(vec![9, 2], &vec![3, 2], 20), vec![9, 2]);
}

#[test]
fn columns_take_the_widest_cell_or_heading_and_pad_each_cell() {
    let headings = vec!["name".to_owned(), "state".to_owned()];
    let rows = vec![vec!["repository".to_owned(), "ok".to_owned()], vec!["x".to_owned(), "missing".to_owned()]];
    assert_eq!(column_widths(&headings, &rows), vec![10, 7]);
    assert_eq!(columns(&vec!["ab".to_owned(), "c".to_owned()], &vec![4, 2]), "ab   | c ");
}

#[test]
fn a_checkout_found_elsewhere_shows_where_it_was_configured_and_its_warnings() {
    let row = lager::application::inventory::InventoryRow {
        key: lager::application::inventory::RowKey::Path("/r/x".to_owned()),
        repository: "github.com/org/repo".to_owned(),
        path: "/r/elsewhere/repo".to_owned(),
        registration: lager::application::inventory::RegistrationState::Explicit,
        checkout: lager::application::inventory::CheckoutState::Cloned,
        origin: "git@github.com:org/repo.git".to_owned(),
        branch: lager::application::inventory::ObservationField::Known("main".to_owned()),
        changes: lager::application::inventory::ObservationField::Error("git failed".to_owned()),
        configured_destination: Some("/r/org/repo".to_owned()),
        observed_path: Some("/r/elsewhere/repo".to_owned()),
        declaration: None,
        warnings: vec!["misplaced checkout".to_owned()],
        markable: true,
    };
    let wide = lager::table::row_lines(&row, &vec![19, 17, 8, 6, 27, 4, 10], false);
    assert_eq!(wide.len(), 4);
    assert_eq!(wide[1], "  configured: /r/org/repo");
    assert_eq!(wide[2], "  warning: misplaced checkout");
    assert_eq!(wide[3], "  changes: error: git failed");
    let compact = lager::table::row_lines(&row, &vec![10, 8, 6, 4, 10], true);
    assert_eq!(compact, vec!["github.co… | explicit | cloned | main | error: gi…".to_owned(), "  changes: error: git failed".to_owned()]);
}
