use lager::application::ports::{SelectionCandidate, SelectionError};
use lager::domain::repository::RepositoryRef;
use lager::picker::{candidate_label, exit_error, picker_rows, selected_positions, selection_error, FzfError};

fn candidate(reference: &str, display: &str) -> SelectionCandidate {
    SelectionCandidate { reference: RepositoryRef::parse(reference).unwrap(), display: display.to_owned(), archived: false, exact_path: None }
}

#[test]
fn rows_carry_hidden_positions_before_their_labels() {
    let candidates = vec![candidate("org/first", "duplicate"), candidate("org/second", "dup\tlicate")];
    assert_eq!(picker_rows(&candidates), ["0\tduplicate", "1\tdup\\tlicate"]);
    let exact = SelectionCandidate { exact_path: Some("/home/me/repos/org/first".to_owned()), ..candidate("org/first", "x") };
    assert_eq!(candidate_label(&exact), "github.com/org/first\t/home/me/repos/org/first");
}

#[test]
fn selections_map_back_by_position_not_by_label() {
    assert_eq!(selected_positions("1\tduplicate\n", 2), [1]);
    assert_eq!(selected_positions("0\tduplicate\n1\tduplicate\n", 2), [0, 1]);
    assert_eq!(selected_positions("0\tx\n0\tx\n7\tunknown\nno tab\n", 2), [0]);
    assert!(selected_positions("", 3).is_empty());
}

#[test]
fn exit_statuses_of_the_picker() {
    assert_eq!(exit_error(Some(130)), FzfError::Cancelled);
    assert_eq!(exit_error(Some(1)), FzfError::Cancelled);
    assert_eq!(exit_error(None), FzfError::Cancelled);
    assert_eq!(exit_error(Some(2)), FzfError::Failed(2));
    assert_eq!(selection_error(FzfError::Cancelled), SelectionError::Cancelled);
    assert!(matches!(selection_error(FzfError::Missing), SelectionError::Unavailable(message) if message.contains("install fzf")));
    assert_eq!(selection_error(FzfError::Failed(-3)), SelectionError::Failed("fzf failed with status -3".to_owned()));
    assert_eq!(FzfError::Start("denied".to_owned()).message(), "could not start fzf: denied");
}

#[test]
fn answers_keep_the_order_of_the_lines_that_named_them() {
    assert_eq!(selected_positions("2\tb\n0\ta\n2\tb again\n9\tunknown\n", 3), vec![2, 0]);
}
