use lager::keys::{
    parse_key, Action, ActionOverride, Bindings, InventoryKeyOverrides, Key, KeyCode, Mode, ModeOverride,
};

fn no_overrides() -> InventoryKeyOverrides {
    InventoryKeyOverrides { modes: Vec::new() }
}

fn one_override(mode: &str, action: &str, keys: &[&str]) -> InventoryKeyOverrides {
    InventoryKeyOverrides {
        modes: vec![ModeOverride {
            mode: mode.to_owned(),
            actions: vec![ActionOverride { action: action.to_owned(), keys: keys.iter().map(|k| k.to_string()).collect() }],
        }],
    }
}

fn plain(c: char) -> Key {
    Key { code: KeyCode::Char(c), ctrl: false, shift: false, other: false }
}

#[test]
fn default_bindings_load_and_answer_keys() {
    let bindings = Bindings::load(no_overrides()).expect("default bindings are valid");
    assert_eq!(bindings.action(Mode::Normal, plain('q')), Some(Action::Quit));
    assert_eq!(bindings.action(Mode::Normal, plain('k')), Some(Action::Up));
    assert_eq!(
        bindings.action(Mode::Normal, Key { code: KeyCode::Char('r'), ctrl: false, shift: true, other: false }),
        Some(Action::Refresh)
    );
    assert_eq!(bindings.action(Mode::Normal, plain('r')), None);
    assert_eq!(bindings.action(Mode::Menu, plain('k')), None);
    assert_eq!(
        bindings.action(Mode::Search, Key { code: KeyCode::Char('q'), ctrl: true, shift: false, other: false }),
        Some(Action::Quit)
    );
    assert_eq!(bindings.action(Mode::Search, plain('q')), None);
}

#[test]
fn hints_and_help_read_the_bindings() {
    let bindings = Bindings::load(no_overrides()).unwrap();
    assert_eq!(bindings.hint(Mode::Normal, Action::Up), "k/Up");
    assert_eq!(bindings.hint(Mode::Inspection, Action::Up), "k/Up/Shift+Tab");
    assert_eq!(bindings.hint(Mode::Search, Action::PageUp), "");
    assert_eq!(
        bindings.help(Mode::Normal),
        ["k/Up up", "j/Down down", "? help", "q/Esc quit", "R refresh", "/ search", "Backspace clear_search"]
    );
    assert_eq!(bindings.help(Mode::Search), ["Enter accept", "Esc cancel", "F1 help", "Ctrl+q quit"]);
    assert!(bindings.help(Mode::Menu).is_empty());
}

#[test]
fn overrides_replace_an_action_keys() {
    let bindings = Bindings::load(one_override("normal", "quit", &["x"])).unwrap();
    assert_eq!(bindings.action(Mode::Normal, plain('x')), Some(Action::Quit));
    assert_eq!(bindings.action(Mode::Normal, plain('q')), None);
    assert_eq!(bindings.hint(Mode::Normal, Action::Quit), "x");
}

#[test]
fn unknown_modes_and_actions_are_refused() {
    assert_eq!(
        Bindings::load(one_override("visual", "quit", &["x"])),
        Err("unknown inventory key mode `visual`".to_owned())
    );
    assert_eq!(
        Bindings::load(one_override("search", "refresh", &["x"])),
        Err("unknown inventory action `search.refresh`".to_owned())
    );
}

#[test]
fn required_actions_must_remain_reachable() {
    assert_eq!(
        Bindings::load(one_override("normal", "help", &[])),
        Err("inventory normal.help must remain reachable".to_owned())
    );
    assert_eq!(
        Bindings::load(one_override("menu", "cancel", &[])),
        Err("inventory menu.cancel must remain reachable".to_owned())
    );
}

#[test]
fn typing_modes_keep_ordinary_input() {
    assert_eq!(
        Bindings::load(one_override("search", "quit", &["q"])),
        Err("inventory search binding `q` must preserve ordinary input".to_owned())
    );
    assert_eq!(
        Bindings::load(one_override("input", "cancel", &["Left"])),
        Err("inventory input binding `Left` must preserve ordinary input".to_owned())
    );
}

#[test]
fn a_key_cannot_serve_two_actions() {
    assert_eq!(
        Bindings::load(one_override("normal", "refresh", &["q"])),
        Err("inventory normal key collision: `q`".to_owned())
    );
}

#[test]
fn key_names_are_read_strictly() {
    assert_eq!(parse_key("Ctrl+q"), Ok(Key { code: KeyCode::Char('q'), ctrl: true, shift: false, other: false }));
    assert_eq!(parse_key("Shift+Tab"), Ok(Key { code: KeyCode::BackTab, ctrl: false, shift: true, other: false }));
    assert_eq!(parse_key("Space"), Ok(plain(' ')));
    assert_eq!(parse_key("F1"), Ok(Key { code: KeyCode::F(1), ctrl: false, shift: false, other: false }));
    assert_eq!(parse_key("Ctrl+xy"), Err("invalid inventory key `xy`".to_owned()));
    assert_eq!(parse_key("Ctrl+c"), Err("native terminal controls cannot be rebound".to_owned()));
    assert_eq!(parse_key("\u{7}"), Err("invalid inventory key `\u{7}`".to_owned()));
    assert_eq!(
        Bindings::load(one_override("normal", "quit", &["Hyper+q"])),
        Err("invalid inventory key `Hyper+q`".to_owned())
    );
}

#[test]
fn action_names_and_availability() {
    assert_eq!(Action::ClearSearch.name(), "clear_search");
    assert_eq!(Mode::Confirmation.name(), "confirmation");
    assert!(Action::PageDown.available(Mode::Inspection));
    assert!(!Action::PageDown.available(Mode::Normal));
    assert!(!Action::Quit.available(Mode::Menu));
}
