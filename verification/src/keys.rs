//! Key bindings of the inventory screen: the defaults of each mode, user overrides, and the
//! rules that keep every mode operable.
use vstd::prelude::*;

use crate::order::{first_where, lemma_first_where_bounds, lemma_first_where_stays};
use crate::text::{ascii_upper_char, char_to_ascii_uppercase, chars, concat, copy_strings, equal, join, join_with, has_prefix, starts_with, string_of, slice};

verus! {

broadcast use vstd::seq::group_seq_axioms;

/// The screen's modes, in the order their bindings are built.
#[derive(Debug, Clone, Copy, PartialEq, Eq, Structural)]
pub enum Mode {
    Normal,
    Menu,
    Search,
    Input,
    Confirmation,
    Inspection,
}

/// The actions a key can trigger, in the order a mode's bindings are kept and consulted.
#[derive(Debug, Clone, Copy, PartialEq, Eq, Structural)]
pub enum Action {
    Up,
    Down,
    PageUp,
    PageDown,
    Accept,
    Cancel,
    Help,
    Quit,
    Refresh,
    Search,
    ClearSearch,
    Inspect,
    Menu,
    Add,
    Remove,
    Mark,
    Register,
    Unregister,
    Clone,
    CloneRegister,
    RemoveUnregister,
    Copy,
    Open,
    Remote,
    Retry,
    Archives,
}

/// The key itself, apart from its modifiers.
#[derive(Debug, Clone, Copy, PartialEq, Eq, Structural)]
pub enum KeyCode {
    Char(char),
    Enter,
    Esc,
    Up,
    Down,
    Left,
    Right,
    Home,
    End,
    PageUp,
    PageDown,
    Tab,
    BackTab,
    Backspace,
    Delete,
    F(u8),
    Other,
}

/// A key press: the key, Control, Shift, and whether any other modifier was held.
#[derive(Debug, Clone, Copy, PartialEq, Eq, Structural)]
pub struct Key {
    pub code: KeyCode,
    pub ctrl: bool,
    pub shift: bool,
    pub other: bool,
}

pub open spec fn mode_name(m: Mode) -> Seq<char> {
    match m {
        Mode::Normal => "normal"@,
        Mode::Menu => "menu"@,
        Mode::Search => "search"@,
        Mode::Input => "input"@,
        Mode::Confirmation => "confirmation"@,
        Mode::Inspection => "inspection"@,
    }
}

pub open spec fn mode_index(m: Mode) -> int {
    match m {
        Mode::Normal => 0,
        Mode::Menu => 1,
        Mode::Search => 2,
        Mode::Input => 3,
        Mode::Confirmation => 4,
        Mode::Inspection => 5,
    }
}

/// The modes in the order their bindings are built.
pub open spec fn all_modes() -> Seq<Mode> {
    seq![Mode::Normal, Mode::Menu, Mode::Search, Mode::Input, Mode::Confirmation, Mode::Inspection]
}

/// Modes in which ordinary keys type text.
pub open spec fn typing(m: Mode) -> bool {
    m == Mode::Search || m == Mode::Input
}

pub open spec fn action_name(a: Action) -> Seq<char> {
    match a {
        Action::Up => "up"@,
        Action::Down => "down"@,
        Action::PageUp => "page_up"@,
        Action::PageDown => "page_down"@,
        Action::Accept => "accept"@,
        Action::Cancel => "cancel"@,
        Action::Help => "help"@,
        Action::Quit => "quit"@,
        Action::Refresh => "refresh"@,
        Action::Search => "search"@,
        Action::ClearSearch => "clear_search"@,
        Action::Inspect => "inspect"@,
        Action::Menu => "menu"@,
        Action::Add => "add"@,
        Action::Remove => "remove"@,
        Action::Mark => "mark"@,
        Action::Register => "register"@,
        Action::Unregister => "unregister"@,
        Action::Clone => "clone"@,
        Action::CloneRegister => "clone_register"@,
        Action::RemoveUnregister => "remove_unregister"@,
        Action::Copy => "copy"@,
        Action::Open => "open"@,
        Action::Remote => "remote"@,
        Action::Retry => "retry"@,
        Action::Archives => "archives"@,
    }
}

/// Whether an action can be triggered in a mode.
pub open spec fn spec_available(a: Action, m: Mode) -> bool {
    match m {
        Mode::Normal => a == Action::Up || a == Action::Down || a == Action::Refresh || a == Action::Help || a
            == Action::Quit || a == Action::Search || a == Action::ClearSearch,
        Mode::Search => a == Action::Accept || a == Action::Cancel || a == Action::Help || a == Action::Quit,
        Mode::Inspection => a == Action::Up || a == Action::Down || a == Action::PageUp || a == Action::PageDown || a
            == Action::Accept || a == Action::Cancel || a == Action::Help || a == Action::Quit,
        _ => false,
    }
}

impl Mode {
    /// The mode's name in the configuration.
    pub fn name(self) -> (r: &'static str)
        ensures
            r@ == mode_name(self),
    {
        proof {
            reveal_strlit("normal");
            reveal_strlit("menu");
            reveal_strlit("search");
            reveal_strlit("input");
            reveal_strlit("confirmation");
            reveal_strlit("inspection");
        }
        match self {
            Mode::Normal => "normal",
            Mode::Menu => "menu",
            Mode::Search => "search",
            Mode::Input => "input",
            Mode::Confirmation => "confirmation",
            Mode::Inspection => "inspection",
        }
    }
}

impl Action {
    /// The action's name in the configuration and in the help line.
    pub fn name(self) -> (r: &'static str)
        ensures
            r@ == action_name(self),
    {
        proof {
            reveal_strlit("up");
            reveal_strlit("down");
            reveal_strlit("page_up");
            reveal_strlit("page_down");
            reveal_strlit("accept");
            reveal_strlit("cancel");
            reveal_strlit("help");
            reveal_strlit("quit");
            reveal_strlit("refresh");
            reveal_strlit("search");
            reveal_strlit("clear_search");
            reveal_strlit("inspect");
            reveal_strlit("menu");
            reveal_strlit("add");
            reveal_strlit("remove");
            reveal_strlit("mark");
            reveal_strlit("register");
            reveal_strlit("unregister");
            reveal_strlit("clone");
            reveal_strlit("clone_register");
            reveal_strlit("remove_unregister");
            reveal_strlit("copy");
            reveal_strlit("open");
            reveal_strlit("remote");
            reveal_strlit("retry");
            reveal_strlit("archives");
        }
        match self {
            Action::Up => "up",
            Action::Down => "down",
            Action::PageUp => "page_up",
            Action::PageDown => "page_down",
            Action::Accept => "accept",
            Action::Cancel => "cancel",
            Action::Help => "help",
            Action::Quit => "quit",
            Action::Refresh => "refresh",
            Action::Search => "search",
            Action::ClearSearch => "clear_search",
            Action::Inspect => "inspect",
            Action::Menu => "menu",
            Action::Add => "add",
            Action::Remove => "remove",
            Action::Mark => "mark",
            Action::Register => "register",
            Action::Unregister => "unregister",
            Action::Clone => "clone",
            Action::CloneRegister => "clone_register",
            Action::RemoveUnregister => "remove_unregister",
            Action::Copy => "copy",
            Action::Open => "open",
            Action::Remote => "remote",
            Action::Retry => "retry",
            Action::Archives => "archives",
        }
    }

    /// Whether the action can be triggered in `mode`.
    pub fn available(self, mode: Mode) -> (r: bool)
        ensures
            r == spec_available(self, mode),
    {
        match mode {
            Mode::Normal => match self {
                Action::Up | Action::Down | Action::Refresh | Action::Help | Action::Quit | Action::Search
                | Action::ClearSearch => true,
                _ => false,
            },
            Mode::Search => match self {
                Action::Accept | Action::Cancel | Action::Help | Action::Quit => true,
                _ => false,
            },
            Mode::Inspection => match self {
                Action::Up | Action::Down | Action::PageUp | Action::PageDown | Action::Accept | Action::Cancel
                | Action::Help | Action::Quit => true,
                _ => false,
            },
            _ => false,
        }
    }
}

// ---------------------------------------------------------------------------
// Keys
// ---------------------------------------------------------------------------

/// A key as bindings compare it: a character typed with Shift is the upper-case character.
pub open spec fn spec_normalized(k: Key) -> Key {
    match k.code {
        KeyCode::Char(c) if k.shift => Key { code: KeyCode::Char(ascii_upper_char(c)), ctrl: k.ctrl, shift: false, other: k.other },
        _ => k,
    }
}

pub fn normalized(key: Key) -> (r: Key)
    ensures
        r == spec_normalized(key),
{
    match key.code {
        KeyCode::Char(c) => if key.shift {
            Key { code: KeyCode::Char(char_to_ascii_uppercase(c)), ctrl: key.ctrl, shift: false, other: key.other }
        } else {
            key
        },
        _ => key,
    }
}

/// `char::is_control`: the characters of general category Cc.
pub open spec fn is_control(c: char) -> bool {
    (c as u32) < 0x20 || (0x7f <= (c as u32) && (c as u32) <= 0x9f)
}

/// The named keys a binding can use.
pub open spec fn named_key(v: Seq<char>) -> Option<KeyCode> {
    if v == "Enter"@ {
        Some(KeyCode::Enter)
    } else if v == "Esc"@ {
        Some(KeyCode::Esc)
    } else if v == "Up"@ {
        Some(KeyCode::Up)
    } else if v == "Down"@ {
        Some(KeyCode::Down)
    } else if v == "Left"@ {
        Some(KeyCode::Left)
    } else if v == "Right"@ {
        Some(KeyCode::Right)
    } else if v == "Home"@ {
        Some(KeyCode::Home)
    } else if v == "End"@ {
        Some(KeyCode::End)
    } else if v == "PageUp"@ {
        Some(KeyCode::PageUp)
    } else if v == "PageDown"@ {
        Some(KeyCode::PageDown)
    } else if v == "Tab"@ {
        Some(KeyCode::Tab)
    } else if v == "Backspace"@ {
        Some(KeyCode::Backspace)
    } else if v == "Delete"@ {
        Some(KeyCode::Delete)
    } else if v == "Space"@ {
        Some(KeyCode::Char(' '))
    } else if v == "F1"@ {
        Some(KeyCode::F(1))
    } else {
        None
    }
}

/// Reads a binding such as `q`, `Ctrl+q`, `Enter` or `Shift+Tab`.
pub open spec fn spec_parse_key(value: Seq<char>) -> Result<Key, Seq<char>> {
    let ctrl = has_prefix(value, "Ctrl+"@);
    let rest = if ctrl { value.subrange(5, value.len() as int) } else { value };
    if !ctrl && rest == "Shift+Tab"@ {
        Ok(Key { code: KeyCode::BackTab, ctrl: false, shift: true, other: false })
    } else {
        let code = match named_key(rest) {
            Some(code) => Some(code),
            None => if rest.len() == 1 && !is_control(rest[0]) {
                Some(KeyCode::Char(rest[0]))
            } else {
                None
            },
        };
        match code {
            None => Err("invalid inventory key `"@ + rest + "`"@),
            Some(code) => if ctrl && (code == KeyCode::Char('c') || code == KeyCode::Char('z') || code == KeyCode::Char('C')
                || code == KeyCode::Char('Z')) {
                Err("native terminal controls cannot be rebound"@)
            } else {
                Ok(spec_normalized(Key { code, ctrl, shift: false, other: false }))
            },
        }
    }
}

fn named_key_of(v: &[char]) -> (r: Option<KeyCode>)
    ensures
        r == named_key(v@),
{
    if equal(v, &chars("Enter")) {
        Some(KeyCode::Enter)
    } else if equal(v, &chars("Esc")) {
        Some(KeyCode::Esc)
    } else if equal(v, &chars("Up")) {
        Some(KeyCode::Up)
    } else if equal(v, &chars("Down")) {
        Some(KeyCode::Down)
    } else if equal(v, &chars("Left")) {
        Some(KeyCode::Left)
    } else if equal(v, &chars("Right")) {
        Some(KeyCode::Right)
    } else if equal(v, &chars("Home")) {
        Some(KeyCode::Home)
    } else if equal(v, &chars("End")) {
        Some(KeyCode::End)
    } else if equal(v, &chars("PageUp")) {
        Some(KeyCode::PageUp)
    } else if equal(v, &chars("PageDown")) {
        Some(KeyCode::PageDown)
    } else if equal(v, &chars("Tab")) {
        Some(KeyCode::Tab)
    } else if equal(v, &chars("Backspace")) {
        Some(KeyCode::Backspace)
    } else if equal(v, &chars("Delete")) {
        Some(KeyCode::Delete)
    } else if equal(v, &chars("Space")) {
        Some(KeyCode::Char(' '))
    } else if equal(v, &chars("F1")) {
        Some(KeyCode::F(1))
    } else {
        None
    }
}

/// Reads a binding such as `q`, `Ctrl+q`, `Enter` or `Shift+Tab`.
pub fn parse_key(value: &str) -> (r: Result<Key, String>)
    ensures
        match r {
            Ok(k) => spec_parse_key(value@) == Ok::<Key, Seq<char>>(k),
            Err(e) => spec_parse_key(value@) == Err::<Key, Seq<char>>(e@),
        },
{
    let v = chars(value);
    proof {
        reveal_strlit("Ctrl+");
    }
    let ctrl = starts_with(&v, &chars("Ctrl+"));
    let rest = if ctrl { slice(&v, 5, v.len()) } else { slice(&v, 0, v.len()) };
    assert(v@.subrange(0, v@.len() as int) =~= v@);
    if !ctrl && equal(&rest, &chars("Shift+Tab")) {
        return Ok(Key { code: KeyCode::BackTab, ctrl: false, shift: true, other: false });
    }
    let code = match named_key_of(&rest) {
        Some(code) => Some(code),
        None => if rest.len() == 1 && !is_control_char(rest[0]) {
            Some(KeyCode::Char(rest[0]))
        } else {
            None
        },
    };
    match code {
        None => Err(string_of(&concat(&concat(&chars("invalid inventory key `"), &rest), &chars("`")))),
        Some(code) => {
            let native = match code {
                KeyCode::Char(c) => c == 'c' || c == 'z' || c == 'C' || c == 'Z',
                _ => false,
            };
            if ctrl && native {
                Err(string_of(&chars("native terminal controls cannot be rebound")))
            } else {
                Ok(normalized(Key { code, ctrl, shift: false, other: false }))
            }
        },
    }
}

fn is_control_char(c: char) -> (r: bool)
    ensures
        r == is_control(c),
{
    let n = c as u32;
    n < 0x20 || (0x7f <= n && n <= 0x9f)
}


// ---------------------------------------------------------------------------
// Overrides and the bindings they produce
// ---------------------------------------------------------------------------

/// The key names configured for one action.
#[derive(Debug, Clone, PartialEq, Eq)]
pub struct ActionOverride {
    pub action: String,
    pub keys: Vec<String>,
}

/// The overrides configured for one mode, in the order they are applied.
#[derive(Debug, Clone, PartialEq, Eq)]
pub struct ModeOverride {
    pub mode: String,
    pub actions: Vec<ActionOverride>,
}

/// The user's key overrides, by mode.
#[derive(Debug, Clone, PartialEq, Eq)]
pub struct InventoryKeyOverrides {
    pub modes: Vec<ModeOverride>,
}

pub open spec fn action_override_view(o: ActionOverride) -> (Seq<char>, Seq<Seq<char>>) {
    (o.action@, o.keys.deep_view())
}

pub open spec fn actions_view(v: Seq<ActionOverride>) -> Seq<(Seq<char>, Seq<Seq<char>>)> {
    v.map_values(|o: ActionOverride| action_override_view(o))
}

pub open spec fn mode_override_view(o: ModeOverride) -> (Seq<char>, Seq<(Seq<char>, Seq<Seq<char>>)>) {
    (o.mode@, actions_view(o.actions@))
}

impl View for InventoryKeyOverrides {
    type V = Seq<(Seq<char>, Seq<(Seq<char>, Seq<Seq<char>>)>)>;

    open spec fn view(&self) -> Self::V {
        self.modes@.map_values(|o: ModeOverride| mode_override_view(o))
    }
}

/// A key bound to an action, with the name it was configured by.
#[derive(Debug, Clone, PartialEq, Eq)]
pub struct Binding {
    pub key: Key,
    pub label: String,
}

/// The keys of one action in one mode.
#[derive(Debug, Clone, PartialEq, Eq)]
pub struct ActionBindings {
    pub action: Action,
    pub keys: Vec<Binding>,
}

/// The bindings of every mode, in the order of `all_modes`.
#[derive(Debug, Clone, PartialEq, Eq)]
pub struct Bindings {
    pub modes: Vec<Vec<ActionBindings>>,
}

pub open spec fn binding_view(b: Binding) -> (Key, Seq<char>) {
    (b.key, b.label@)
}

pub open spec fn action_bindings_view(a: ActionBindings) -> (Action, Seq<(Key, Seq<char>)>) {
    (a.action, a.keys@.map_values(|b: Binding| binding_view(b)))
}

pub open spec fn mode_bindings_view(v: Seq<ActionBindings>) -> Seq<(Action, Seq<(Key, Seq<char>)>)> {
    v.map_values(|a: ActionBindings| action_bindings_view(a))
}

impl View for Bindings {
    type V = Seq<Seq<(Action, Seq<(Key, Seq<char>)>)>>;

    open spec fn view(&self) -> Self::V {
        self.modes@.map_values(|m: Vec<ActionBindings>| mode_bindings_view(m@))
    }
}

/// A mode's bindings by name, before the names are read as keys.
pub type KeyTable = Seq<(Action, Seq<Seq<char>>)>;

/// The default bindings of each mode, in action order.
pub open spec fn default_map(m: Mode) -> KeyTable {
    if m == Mode::Normal {
        seq![
            (Action::Up, seq!["k"@, "Up"@]),
            (Action::Down, seq!["j"@, "Down"@]),
            (Action::Help, seq!["?"@]),
            (Action::Quit, seq!["q"@, "Esc"@]),
            (Action::Refresh, seq!["R"@]),
            (Action::Search, seq!["/"@]),
            (Action::ClearSearch, seq!["Backspace"@]),
            (Action::Inspect, seq!["Enter"@]),
            (Action::Menu, seq!["m"@]),
            (Action::Add, seq!["a"@]),
            (Action::Remove, seq!["r"@]),
            (Action::Mark, seq!["Space"@]),
            (Action::Register, Seq::<Seq<char>>::empty()),
            (Action::Unregister, Seq::<Seq<char>>::empty()),
            (Action::Clone, Seq::<Seq<char>>::empty()),
            (Action::CloneRegister, Seq::<Seq<char>>::empty()),
            (Action::RemoveUnregister, Seq::<Seq<char>>::empty()),
            (Action::Copy, Seq::<Seq<char>>::empty()),
            (Action::Open, Seq::<Seq<char>>::empty()),
            (Action::Remote, Seq::<Seq<char>>::empty()),
            (Action::Retry, Seq::<Seq<char>>::empty()),
            (Action::Archives, Seq::<Seq<char>>::empty()),
        ]
    } else if typing(m) {
        seq![
            (Action::Accept, seq!["Enter"@]),
            (Action::Cancel, seq!["Esc"@]),
            (Action::Help, seq!["F1"@]),
            (Action::Quit, seq!["Ctrl+q"@]),
        ]
    } else {
        seq![
            (Action::Up, seq!["k"@, "Up"@, "Shift+Tab"@]),
            (Action::Down, seq!["j"@, "Down"@, "Tab"@]),
            (Action::PageUp, seq!["PageUp"@]),
            (Action::PageDown, seq!["PageDown"@]),
            (Action::Accept, seq!["Enter"@]),
            (Action::Cancel, seq!["Esc"@]),
            (Action::Help, seq!["?"@]),
            (Action::Quit, seq!["q"@]),
        ]
    }
}

pub open spec fn named(name: Seq<char>) -> spec_fn((Action, Seq<Seq<char>>)) -> bool {
    |e: (Action, Seq<Seq<char>>)| action_name(e.0) == name
}

pub open spec fn for_action(a: Action) -> spec_fn((Action, Seq<Seq<char>>)) -> bool {
    |e: (Action, Seq<Seq<char>>)| e.0 == a
}

/// Applies a mode's overrides in order: each names an action of the mode and replaces its keys.
pub open spec fn spec_apply(map: KeyTable, mode: Seq<char>, custom: Seq<(Seq<char>, Seq<Seq<char>>)>) -> Result<KeyTable, Seq<char>>
    decreases custom.len(),
{
    if custom.len() == 0 {
        Ok(map)
    } else {
        match spec_apply(map, mode, custom.drop_last()) {
            Err(e) => Err(e),
            Ok(m) => {
                let name = custom.last().0;
                let i = first_where(m, named(name), m.len() as int);
                if i < 0 {
                    Err("unknown inventory action `"@ + mode + "."@ + name + "`"@)
                } else {
                    Ok(m.update(i, (m[i].0, custom.last().1)))
                }
            },
        }
    }
}

/// The actions every mode must keep a key for.
pub open spec fn required(m: Mode) -> Seq<Action> {
    if m == Mode::Normal {
        seq![Action::Help, Action::Quit]
    } else {
        seq![Action::Accept, Action::Cancel, Action::Help, Action::Quit]
    }
}

pub open spec fn keys_of(map: KeyTable, a: Action) -> Seq<Seq<char>> {
    let i = first_where(map, for_action(a), map.len() as int);
    if i < 0 {
        Seq::<Seq<char>>::empty()
    } else {
        map[i].1
    }
}

/// The first required action, among the first `n`, that was left without a key.
pub open spec fn first_unreachable(map: KeyTable, req: Seq<Action>, n: int) -> Option<Action>
    decreases n,
{
    if n <= 0 {
        None
    } else {
        match first_unreachable(map, req, n - 1) {
            Some(a) => Some(a),
            None => if keys_of(map, req[n - 1]).len() == 0 {
                Some(req[n - 1])
            } else {
                None
            },
        }
    }
}

/// Keys that would take ordinary text input away from a typing mode.
pub open spec fn reserved(k: Key) -> bool {
    (k.code is Char && !k.ctrl) || k.code == KeyCode::Backspace || k.code == KeyCode::Delete || k.code == KeyCode::Left
        || k.code == KeyCode::Right || k.code == KeyCode::Home || k.code == KeyCode::End
}

/// Reads a mode's key names in order: each must name a key, must not take ordinary input
/// in a typing mode, and must not repeat an earlier key of the mode.
pub open spec fn spec_bind(keys: Seq<Seq<char>>, mode: Seq<char>, typing: bool) -> Result<Seq<Key>, Seq<char>>
    decreases keys.len(),
{
    if keys.len() == 0 {
        Ok(Seq::<Key>::empty())
    } else {
        match spec_bind(keys.drop_last(), mode, typing) {
            Err(e) => Err(e),
            Ok(used) => {
                let label = keys.last();
                match spec_parse_key(label) {
                    Err(e) => Err(e),
                    Ok(k) => if typing && reserved(k) {
                        Err("inventory "@ + mode + " binding `"@ + label + "` must preserve ordinary input"@)
                    } else if used.contains(k) {
                        Err("inventory "@ + mode + " key collision: `"@ + label + "`"@)
                    } else {
                        Ok(used.push(k))
                    },
                }
            },
        }
    }
}

/// All key names of a table, action by action.
pub open spec fn flat(map: KeyTable) -> Seq<Seq<char>>
    decreases map.len(),
{
    if map.len() == 0 {
        Seq::<Seq<char>>::empty()
    } else {
        flat(map.drop_last()) + map.last().1
    }
}

pub open spec fn bound_keys(labels: Seq<Seq<char>>) -> Seq<(Key, Seq<char>)> {
    labels.map_values(|l: Seq<char>| (spec_parse_key(l)->Ok_0, l))
}

/// A table with its key names read as keys.
pub open spec fn bound(map: KeyTable) -> Seq<(Action, Seq<(Key, Seq<char>)>)> {
    map.map_values(|e: (Action, Seq<Seq<char>>)| (e.0, bound_keys(e.1)))
}

/// The overrides configured for a mode: those of the first entry with its name.
pub type OverrideView = (Seq<char>, Seq<(Seq<char>, Seq<Seq<char>>)>);

pub open spec fn mode_is(name: Seq<char>) -> spec_fn(OverrideView) -> bool {
    |o: OverrideView| o.0 == name
}

pub open spec fn not_a_mode() -> spec_fn(OverrideView) -> bool {
    |o: OverrideView| !is_mode_name(o.0)
}

pub open spec fn custom_for(ov: Seq<OverrideView>, name: Seq<char>) -> Seq<(Seq<char>, Seq<Seq<char>>)> {
    let i = first_where(ov, mode_is(name), ov.len() as int);
    if i < 0 {
        Seq::empty()
    } else {
        ov[i].1
    }
}

/// The bindings of one mode: defaults, then overrides, then the reachability and key rules.
pub open spec fn spec_mode_bindings(ov: Seq<OverrideView>, m: Mode) -> Result<Seq<(Action, Seq<(Key, Seq<char>)>)>, Seq<char>> {
    let name = mode_name(m);
    match spec_apply(default_map(m), name, custom_for(ov, name)) {
        Err(e) => Err(e),
        Ok(map) => match first_unreachable(map, required(m), required(m).len() as int) {
            Some(a) => Err("inventory "@ + name + "."@ + action_name(a) + " must remain reachable"@),
            None => match spec_bind(flat(map), name, typing(m)) {
                Err(e) => Err(e),
                Ok(_) => Ok(bound(map)),
            },
        },
    }
}

pub open spec fn is_mode_name(v: Seq<char>) -> bool {
    exists|i: int| 0 <= i < 6 && #[trigger] mode_name(all_modes()[i]) == v
}

/// The bindings of the first `n` modes.
pub open spec fn spec_modes(ov: Seq<OverrideView>, n: int) -> Result<Seq<Seq<(Action, Seq<(Key, Seq<char>)>)>>, Seq<char>>
    decreases n,
{
    if n <= 0 {
        Ok(Seq::empty())
    } else {
        match spec_modes(ov, n - 1) {
            Err(e) => Err(e),
            Ok(v) => match spec_mode_bindings(ov, all_modes()[n - 1]) {
                Err(e) => Err(e),
                Ok(b) => Ok(v.push(b)),
            },
        }
    }
}

/// The bindings of every mode, or the first problem: an unknown mode, then each mode's own.
pub open spec fn spec_load(ov: Seq<OverrideView>) -> Result<Seq<Seq<(Action, Seq<(Key, Seq<char>)>)>>, Seq<char>> {
    let i = first_where(ov, not_a_mode(), ov.len() as int);
    if i >= 0 {
        Err("unknown inventory key mode `"@ + ov[i].0 + "`"@)
    } else {
        spec_modes(ov, 6)
    }
}


// ---------------------------------------------------------------------------
// Building the bindings
// ---------------------------------------------------------------------------

/// An action with the names of its keys.
struct Entry {
    action: Action,
    keys: Vec<String>,
}

spec fn entries_view(v: Seq<Entry>) -> KeyTable {
    v.map_values(|e: Entry| (e.action, e.keys.deep_view()))
}

fn name_list(items: &[&str]) -> (r: Vec<String>)
    ensures
        r.deep_view().len() == items@.len(),
        forall|j: int| 0 <= j < items@.len() ==> r.deep_view()[j] == items@[j]@,
{
    let mut r: Vec<String> = Vec::new();
    let mut i: usize = 0;
    while i < items.len()
        invariant
            i <= items@.len(),
            r.deep_view().len() == i,
            forall|j: int| 0 <= j < i ==> r.deep_view()[j] == items@[j]@,
        decreases items.len() - i,
    {
        let ghost before = r.deep_view();
        r.push(string_of(&chars(items[i])));
        assert(r.deep_view() =~= before.push(items@[i as int]@));
        i += 1;
    }
    r
}

fn entry0(action: Action) -> (r: Entry)
    ensures
        r.action == action,
        r.keys.deep_view() == Seq::<Seq<char>>::empty(),
{
    let r = Entry { action, keys: Vec::new() };
    assert(r.keys.deep_view() =~= Seq::<Seq<char>>::empty());
    r
}

fn entry1(action: Action, a: &str) -> (r: Entry)
    ensures
        r.action == action,
        r.keys.deep_view() == seq![a@],
{
    let keys = name_list(&[a]);
    assert(keys.deep_view() =~= seq![a@]);
    Entry { action, keys }
}

fn entry2(action: Action, a: &str, b: &str) -> (r: Entry)
    ensures
        r.action == action,
        r.keys.deep_view() == seq![a@, b@],
{
    let keys = name_list(&[a, b]);
    assert(keys.deep_view() =~= seq![a@, b@]);
    Entry { action, keys }
}

fn entry3(action: Action, a: &str, b: &str, c: &str) -> (r: Entry)
    ensures
        r.action == action,
        r.keys.deep_view() == seq![a@, b@, c@],
{
    let keys = name_list(&[a, b, c]);
    assert(keys.deep_view() =~= seq![a@, b@, c@]);
    Entry { action, keys }
}

/// The default bindings of `mode`.
fn defaults(mode: Mode) -> (r: Vec<Entry>)
    ensures
        entries_view(r@) == default_map(mode),
{
    let mut r: Vec<Entry> = Vec::new();
    match mode {
        Mode::Normal => {
            r.push(entry2(Action::Up, "k", "Up"));
            r.push(entry2(Action::Down, "j", "Down"));
            r.push(entry1(Action::Help, "?"));
            r.push(entry2(Action::Quit, "q", "Esc"));
            r.push(entry1(Action::Refresh, "R"));
            r.push(entry1(Action::Search, "/"));
            r.push(entry1(Action::ClearSearch, "Backspace"));
            r.push(entry1(Action::Inspect, "Enter"));
            r.push(entry1(Action::Menu, "m"));
            r.push(entry1(Action::Add, "a"));
            r.push(entry1(Action::Remove, "r"));
            r.push(entry1(Action::Mark, "Space"));
            r.push(entry0(Action::Register));
            r.push(entry0(Action::Unregister));
            r.push(entry0(Action::Clone));
            r.push(entry0(Action::CloneRegister));
            r.push(entry0(Action::RemoveUnregister));
            r.push(entry0(Action::Copy));
            r.push(entry0(Action::Open));
            r.push(entry0(Action::Remote));
            r.push(entry0(Action::Retry));
            r.push(entry0(Action::Archives));
        },
        Mode::Search | Mode::Input => {
            r.push(entry1(Action::Accept, "Enter"));
            r.push(entry1(Action::Cancel, "Esc"));
            r.push(entry1(Action::Help, "F1"));
            r.push(entry1(Action::Quit, "Ctrl+q"));
        },
        _ => {
            r.push(entry3(Action::Up, "k", "Up", "Shift+Tab"));
            r.push(entry3(Action::Down, "j", "Down", "Tab"));
            r.push(entry1(Action::PageUp, "PageUp"));
            r.push(entry1(Action::PageDown, "PageDown"));
            r.push(entry1(Action::Accept, "Enter"));
            r.push(entry1(Action::Cancel, "Esc"));
            r.push(entry1(Action::Help, "?"));
            r.push(entry1(Action::Quit, "q"));
        },
    }
    assert(entries_view(r@) =~= default_map(mode));
    r
}


fn find_named(map: &Vec<Entry>, name: &[char]) -> (r: Option<usize>)
    ensures
        match r {
            Some(i) => first_where(entries_view(map@), named(name@), map@.len() as int) == i as int && i < map@.len(),
            None => first_where(entries_view(map@), named(name@), map@.len() as int) == -1,
        },
{
    let ghost view = entries_view(map@);
    let mut i: usize = 0;
    while i < map.len()
        invariant
            i <= map@.len(),
            view == entries_view(map@),
            first_where(view, named(name@), i as int) == -1,
        decreases map.len() - i,
    {
        if equal(&chars(map[i].action.name()), name) {
            assert(named(name@)(view[i as int]));
            proof {
                lemma_first_where_stays(view, named(name@), i as int + 1, map@.len() as int);
            }
            return Some(i);
        }
        assert(!named(name@)(view[i as int]));
        i += 1;
    }
    None
}

fn find_action(map: &Vec<Entry>, action: Action) -> (r: Option<usize>)
    ensures
        match r {
            Some(i) => first_where(entries_view(map@), for_action(action), map@.len() as int) == i as int && i < map@.len(),
            None => first_where(entries_view(map@), for_action(action), map@.len() as int) == -1,
        },
{
    let ghost view = entries_view(map@);
    let mut i: usize = 0;
    while i < map.len()
        invariant
            i <= map@.len(),
            view == entries_view(map@),
            first_where(view, for_action(action), i as int) == -1,
        decreases map.len() - i,
    {
        if map[i].action == action {
            assert(for_action(action)(view[i as int]));
            proof {
                lemma_first_where_stays(view, for_action(action), i as int + 1, map@.len() as int);
            }
            return Some(i);
        }
        assert(!for_action(action)(view[i as int]));
        i += 1;
    }
    None
}

proof fn lemma_apply_err_prefix(map: KeyTable, mode: Seq<char>, c: Seq<(Seq<char>, Seq<Seq<char>>)>, k: int)
    requires
        0 <= k <= c.len(),
        spec_apply(map, mode, c.subrange(0, k)) is Err,
    ensures
        spec_apply(map, mode, c) == spec_apply(map, mode, c.subrange(0, k)),
    decreases c.len(),
{
    if k == c.len() {
        assert(c.subrange(0, k) =~= c);
    } else {
        assert(c.drop_last().subrange(0, k) =~= c.subrange(0, k));
        lemma_apply_err_prefix(map, mode, c.drop_last(), k);
    }
}

proof fn lemma_bind_err_prefix(keys: Seq<Seq<char>>, mode: Seq<char>, typing: bool, k: int)
    requires
        0 <= k <= keys.len(),
        spec_bind(keys.subrange(0, k), mode, typing) is Err,
    ensures
        spec_bind(keys, mode, typing) == spec_bind(keys.subrange(0, k), mode, typing),
    decreases keys.len(),
{
    if k == keys.len() {
        assert(keys.subrange(0, k) =~= keys);
    } else {
        assert(keys.drop_last().subrange(0, k) =~= keys.subrange(0, k));
        lemma_bind_err_prefix(keys.drop_last(), mode, typing, k);
    }
}

proof fn lemma_flat_prefix(s: KeyTable, a: int, b: int)
    requires
        0 <= a <= b <= s.len(),
    ensures
        flat(s.subrange(0, b)).len() >= flat(s.subrange(0, a)).len(),
        flat(s.subrange(0, a)) == flat(s.subrange(0, b)).subrange(0, flat(s.subrange(0, a)).len() as int),
    decreases b - a,
{
    if a == b {
        assert(flat(s.subrange(0, b)).subrange(0, flat(s.subrange(0, a)).len() as int) =~= flat(s.subrange(0, a)));
    } else {
        lemma_flat_prefix(s, a, b - 1);
        lemma_flat_step(s, b - 1);
        let x = flat(s.subrange(0, a));
        let y = flat(s.subrange(0, b - 1));
        assert((y + s[b - 1].1).subrange(0, x.len() as int) =~= y.subrange(0, x.len() as int));
    }
}

/// Applies a mode's overrides to its table.
fn apply_overrides(table: Vec<Entry>, mode: &[char], custom: &Vec<ActionOverride>) -> (r: Result<Vec<Entry>, String>)
    ensures
        match spec_apply(entries_view(table@), mode@, actions_view(custom@)) {
            Ok(m) => r matches Ok(v) && entries_view(v@) == m,
            Err(e) => r matches Err(x) && x@ == e,
        },
{
    let ghost start = entries_view(table@);
    let ghost cv = actions_view(custom@);
    let mut map = table;
    let mut i: usize = 0;
    assert(cv.subrange(0, 0) =~= Seq::<(Seq<char>, Seq<Seq<char>>)>::empty());
    while i < custom.len()
        invariant
            i <= custom@.len(),
            cv == actions_view(custom@),
            start == entries_view(table@),
            spec_apply(start, mode@, cv.subrange(0, i as int)) == Ok::<KeyTable, Seq<char>>(entries_view(map@)),
        decreases custom.len() - i,
    {
        let ghost before = entries_view(map@);
        assert(cv.subrange(0, i + 1).drop_last() =~= cv.subrange(0, i as int));
        assert(cv.subrange(0, i + 1).last() == action_override_view(custom@[i as int]));
        let name = chars(custom[i].action.as_str());
        match find_named(&map, &name) {
            None => {
                let message = string_of(&concat(&concat(&concat(&concat(&chars("unknown inventory action `"), mode), &chars(".")), &name), &chars("`")));
                proof {
                    assert(name@ == cv.subrange(0, i + 1).last().0);
                    assert(spec_apply(start, mode@, cv.subrange(0, i + 1)) == Err::<KeyTable, Seq<char>>(message@));
                    lemma_apply_err_prefix(start, mode@, cv, i as int + 1);
                    assert(spec_apply(start, mode@, cv) == Err::<KeyTable, Seq<char>>(message@));
                }
                return Err(message);
            },
            Some(j) => {
                let action = map[j].action;
                let keys = copy_strings(&custom[i].keys);
                map.set(j, Entry { action, keys });
                assert(entries_view(map@) =~= before.update(j as int, (before[j as int].0, custom@[i as int].keys.deep_view())));
            },
        }
        i += 1;
    }
    assert(cv.subrange(0, custom@.len() as int) =~= cv);
    Ok(map)
}

fn required_of(mode: Mode) -> (r: Vec<Action>)
    ensures
        r@ == required(mode),
{
    let mut r: Vec<Action> = Vec::new();
    if !(mode == Mode::Normal) {
        r.push(Action::Accept);
        r.push(Action::Cancel);
    }
    r.push(Action::Help);
    r.push(Action::Quit);
    assert(r@ =~= required(mode));
    r
}

proof fn lemma_first_unreachable_stays(map: KeyTable, req: Seq<Action>, k: int, n: int)
    requires
        0 <= k <= n,
        first_unreachable(map, req, k) is Some,
    ensures
        first_unreachable(map, req, n) == first_unreachable(map, req, k),
    decreases n,
{
    if n > k {
        lemma_first_unreachable_stays(map, req, k, n - 1);
    }
}

/// The first required action of `mode` that the table leaves without a key.
fn unreachable_action(map: &Vec<Entry>, mode: Mode) -> (r: Option<Action>)
    ensures
        r == first_unreachable(entries_view(map@), required(mode), required(mode).len() as int),
{
    let ghost view = entries_view(map@);
    let req = required_of(mode);
    let mut i: usize = 0;
    while i < req.len()
        invariant
            i <= req@.len(),
            req@ == required(mode),
            view == entries_view(map@),
            first_unreachable(view, req@, i as int) is None,
        decreases req.len() - i,
    {
        let empty = match find_action(map, req[i]) {
            Some(j) => map[j].keys.len() == 0,
            None => true,
        };
        proof {
            lemma_first_where_bounds(view, for_action(req@[i as int]), view.len() as int);
            let j = first_where(view, for_action(req@[i as int]), view.len() as int);
            if j >= 0 {
                assert(view[j].1 == map@[j].keys.deep_view());
            }
        }
        if empty {
            proof {
                lemma_first_unreachable_stays(view, req@, i as int + 1, req@.len() as int);
            }
            return Some(req[i]);
        }
        i += 1;
    }
    None
}

fn is_reserved(k: Key) -> (r: bool)
    ensures
        r == reserved(k),
{
    match k.code {
        KeyCode::Char(_) => !k.ctrl,
        KeyCode::Backspace | KeyCode::Delete | KeyCode::Left | KeyCode::Right | KeyCode::Home | KeyCode::End => true,
        _ => false,
    }
}

fn contains_key(used: &Vec<Key>, k: Key) -> (r: bool)
    ensures
        r == used@.contains(k),
{
    let mut i: usize = 0;
    while i < used.len()
        invariant
            i <= used@.len(),
            forall|j: int| 0 <= j < i ==> used@[j] != k,
        decreases used.len() - i,
    {
        if used[i] == k {
            assert(used@[i as int] == k);
            return true;
        }
        i += 1;
    }
    false
}

proof fn lemma_flat_step(map: KeyTable, i: int)
    requires
        0 <= i < map.len(),
    ensures
        flat(map.subrange(0, i + 1)) == flat(map.subrange(0, i)) + map[i].1,
{
    assert(map.subrange(0, i + 1).drop_last() =~= map.subrange(0, i));
}

/// Reads the key names of a table into bindings, with the mode's rules.
fn bind_table(map: &Vec<Entry>, mode: &[char], typing: bool) -> (r: Result<Vec<ActionBindings>, String>)
    ensures
        match spec_bind(flat(entries_view(map@)), mode@, typing) {
            Ok(_) => r matches Ok(b) && mode_bindings_view(b@) == bound(entries_view(map@)),
            Err(e) => r matches Err(x) && x@ == e,
        },
{
    let ghost view = entries_view(map@);
    let mut used: Vec<Key> = Vec::new();
    let mut out: Vec<ActionBindings> = Vec::new();
    let mut i: usize = 0;
    assert(view.subrange(0, 0) =~= Seq::<(Action, Seq<Seq<char>>)>::empty());
    assert(mode_bindings_view(out@) =~= bound(view.subrange(0, 0)));
    while i < map.len()
        invariant
            i <= map@.len(),
            view == entries_view(map@),
            spec_bind(flat(view.subrange(0, i as int)), mode@, typing) == Ok::<Seq<Key>, Seq<char>>(used@),
            mode_bindings_view(out@) == bound(view.subrange(0, i as int)),
        decreases map.len() - i,
    {
        let ghost prefix = flat(view.subrange(0, i as int));
        let ghost labels = view[i as int].1;
        assert(labels == map@[i as int].keys.deep_view());
        let mut keys: Vec<Binding> = Vec::new();
        let mut j: usize = 0;
        assert(prefix + labels.subrange(0, 0) =~= prefix);
        assert(keys@.map_values(|b: Binding| binding_view(b)) =~= bound_keys(labels.subrange(0, 0)));
        while j < map[i].keys.len()
            invariant
                i < map@.len(),
                j <= map@[i as int].keys@.len(),
                view == entries_view(map@),
                labels == view[i as int].1,
                labels == map@[i as int].keys.deep_view(),
                prefix == flat(view.subrange(0, i as int)),
                spec_bind(prefix + labels.subrange(0, j as int), mode@, typing) == Ok::<Seq<Key>, Seq<char>>(used@),
                keys@.map_values(|b: Binding| binding_view(b)) == bound_keys(labels.subrange(0, j as int)),
            decreases map@[i as int].keys@.len() - j,
        {
            let label = map[i].keys[j].as_str();
            assert(label@ == labels[j as int]);
            let ghost all = prefix + labels.subrange(0, j + 1);
            assert(all.drop_last() =~= prefix + labels.subrange(0, j as int));
            assert(all.last() == label@);
            proof {
                lemma_flat_step(view, i as int);
                lemma_flat_prefix(view, i as int + 1, view.len() as int);
                assert(view.subrange(0, view.len() as int) =~= view);
                let next = flat(view.subrange(0, i + 1));
                assert(next == prefix + labels);
                assert(all =~= next.subrange(0, all.len() as int));
                assert(all =~= flat(view).subrange(0, all.len() as int));
            }
            let key = match parse_key(label) {
                Ok(key) => key,
                Err(e) => {
                    proof {
                        lemma_bind_err_prefix(flat(view), mode@, typing, all.len() as int);
                    }
                    return Err(e);
                },
            };
            if typing && is_reserved(key) {
                proof {
                    lemma_bind_err_prefix(flat(view), mode@, typing, all.len() as int);
                }
                return Err(string_of(&concat(&concat(&concat(&concat(&chars("inventory "), mode), &chars(" binding `")), &chars(label)), &chars("` must preserve ordinary input"))));
            }
            if contains_key(&used, key) {
                proof {
                    lemma_bind_err_prefix(flat(view), mode@, typing, all.len() as int);
                }
                return Err(string_of(&concat(&concat(&concat(&concat(&chars("inventory "), mode), &chars(" key collision: `")), &chars(label)), &chars("`"))));
            }
            used.push(key);
            let ghost kb = keys@.map_values(|b: Binding| binding_view(b));
            keys.push(Binding { key, label: string_of(&chars(label)) });
            assert(keys@.map_values(|b: Binding| binding_view(b)) =~= kb.push((key, label@)));
            assert(labels.subrange(0, j + 1) =~= labels.subrange(0, j as int).push(label@));
            assert(bound_keys(labels.subrange(0, j + 1)) =~= bound_keys(labels.subrange(0, j as int)).push((key, label@)));
            j += 1;
        }
        assert(labels.subrange(0, labels.len() as int) =~= labels);
        proof {
            lemma_flat_step(view, i as int);
        }
        let ghost ob = mode_bindings_view(out@);
        out.push(ActionBindings { action: map[i].action, keys });
        assert(mode_bindings_view(out@) =~= ob.push((view[i as int].0, bound_keys(labels))));
        assert(view.subrange(0, i + 1) =~= view.subrange(0, i as int).push(view[i as int]));
        assert(bound(view.subrange(0, i + 1)) =~= bound(view.subrange(0, i as int)).push((view[i as int].0, bound_keys(labels))));
        i += 1;
    }
    assert(view.subrange(0, view.len() as int) =~= view);
    Ok(out)
}


fn find_mode(modes: &Vec<ModeOverride>, name: &[char]) -> (r: Option<usize>)
    ensures
        match r {
            Some(k) => first_where(modes@.map_values(|o: ModeOverride| mode_override_view(o)), mode_is(name@), modes@.len() as int) == k as int
                && k < modes@.len(),
            None => first_where(modes@.map_values(|o: ModeOverride| mode_override_view(o)), mode_is(name@), modes@.len() as int) == -1,
        },
{
    let ghost view = modes@.map_values(|o: ModeOverride| mode_override_view(o));
    let mut i: usize = 0;
    while i < modes.len()
        invariant
            i <= modes@.len(),
            view == modes@.map_values(|o: ModeOverride| mode_override_view(o)),
            first_where(view, mode_is(name@), i as int) == -1,
        decreases modes.len() - i,
    {
        if equal(&chars(modes[i].mode.as_str()), name) {
            assert(mode_is(name@)(view[i as int]));
            proof {
                lemma_first_where_stays(view, mode_is(name@), i as int + 1, modes@.len() as int);
            }
            return Some(i);
        }
        assert(!mode_is(name@)(view[i as int]));
        i += 1;
    }
    None
}

fn is_typing(mode: Mode) -> (r: bool)
    ensures
        r == typing(mode),
{
    match mode {
        Mode::Search | Mode::Input => true,
        _ => false,
    }
}

/// The bindings of one mode: its defaults, the overrides configured for it, then the rules.
fn mode_bindings(overrides: &InventoryKeyOverrides, mode: Mode) -> (r: Result<Vec<ActionBindings>, String>)
    ensures
        match spec_mode_bindings(overrides@, mode) {
            Ok(b) => r matches Ok(v) && mode_bindings_view(v@) == b,
            Err(e) => r matches Err(x) && x@ == e,
        },
{
    let name = chars(mode.name());
    let table = defaults(mode);
    let applied = match find_mode(&overrides.modes, &name) {
        Some(k) => {
            assert(overrides@[k as int].1 == actions_view(overrides.modes@[k as int].actions@));
            apply_overrides(table, &name, &overrides.modes[k].actions)
        },
        None => {
            let none: Vec<ActionOverride> = Vec::new();
            assert(actions_view(none@) =~= Seq::<(Seq<char>, Seq<Seq<char>>)>::empty());
            apply_overrides(table, &name, &none)
        },
    };
    let applied = match applied {
        Ok(map) => map,
        Err(e) => return Err(e),
    };
    match unreachable_action(&applied, mode) {
        Some(action) => {
            return Err(string_of(&concat(&concat(&concat(&concat(&chars("inventory "), &name), &chars(".")), &chars(action.name())), &chars(" must remain reachable"))));
        },
        None => {},
    }
    bind_table(&applied, &name, is_typing(mode))
}

fn known_mode(v: &[char]) -> (r: bool)
    ensures
        r == is_mode_name(v@),
{
    let r = equal(v, &chars(Mode::Normal.name())) || equal(v, &chars(Mode::Menu.name())) || equal(v, &chars(Mode::Search.name()))
        || equal(v, &chars(Mode::Input.name())) || equal(v, &chars(Mode::Confirmation.name())) || equal(v, &chars(
        Mode::Inspection.name(),
    ));
    proof {
        let ms = all_modes();
        assert(ms[0] == Mode::Normal && ms[1] == Mode::Menu && ms[2] == Mode::Search && ms[3] == Mode::Input && ms[4]
            == Mode::Confirmation && ms[5] == Mode::Inspection);
        if r {
            if v@ == mode_name(ms[0]) {
            } else if v@ == mode_name(ms[1]) {
            } else if v@ == mode_name(ms[2]) {
            } else if v@ == mode_name(ms[3]) {
            } else if v@ == mode_name(ms[4]) {
            } else {
                assert(v@ == mode_name(ms[5]));
            }
        } else {
            assert forall|i: int| 0 <= i < 6 implies #[trigger] mode_name(all_modes()[i]) != v@ by {
                if i == 0 {
                } else if i == 1 {
                } else if i == 2 {
                } else if i == 3 {
                } else if i == 4 {
                } else {
                }
            }
        }
    }
    r
}

fn mode_at(k: usize) -> (r: Mode)
    requires
        k < 6,
    ensures
        r == all_modes()[k as int],
{
    if k == 0 {
        Mode::Normal
    } else if k == 1 {
        Mode::Menu
    } else if k == 2 {
        Mode::Search
    } else if k == 3 {
        Mode::Input
    } else if k == 4 {
        Mode::Confirmation
    } else {
        Mode::Inspection
    }
}

proof fn lemma_modes_err(ov: Seq<OverrideView>, k: int, n: int)
    requires
        0 <= k <= n,
        spec_modes(ov, k) is Err,
    ensures
        spec_modes(ov, n) == spec_modes(ov, k),
    decreases n,
{
    if n > k {
        lemma_modes_err(ov, k, n - 1);
    }
}

impl Bindings {
    /// Builds every mode's bindings from the defaults and the user's overrides, refusing
    /// unknown modes and actions, unreadable keys, keys that would take ordinary input in a
    /// typing mode, repeated keys, and modes that could no longer be left or answered.
    pub fn load(overrides: InventoryKeyOverrides) -> (r: Result<Bindings, String>)
        ensures
            match spec_load(overrides@) {
                Ok(v) => r matches Ok(b) && b@ == v,
                Err(e) => r matches Err(x) && x@ == e,
            },
    {
        let ghost ov = overrides@;
        let mut i: usize = 0;
        while i < overrides.modes.len()
            invariant
                i <= overrides.modes@.len(),
                ov == overrides@,
                first_where(ov, not_a_mode(), i as int) == -1,
            decreases overrides.modes.len() - i,
        {
            let name = chars(overrides.modes[i].mode.as_str());
            assert(ov[i as int].0 == name@);
            if !known_mode(&name) {
                assert(not_a_mode()(ov[i as int]));
                proof {
                    lemma_first_where_stays(ov, not_a_mode(), i as int + 1, ov.len() as int);
                }
                return Err(string_of(&concat(&concat(&chars("unknown inventory key mode `"), &name), &chars("`"))));
            }
            assert(!not_a_mode()(ov[i as int]));
            i += 1;
        }
        let mut modes: Vec<Vec<ActionBindings>> = Vec::new();
        let mut k: usize = 0;
        assert(modes@.map_values(|m: Vec<ActionBindings>| mode_bindings_view(m@)) =~= Seq::<Seq<(Action, Seq<(Key, Seq<char>)>)>>::empty());
        while k < 6
            invariant
                k <= 6,
                ov == overrides@,
                first_where(ov, not_a_mode(), ov.len() as int) == -1,
                spec_modes(ov, k as int) == Ok::<Seq<Seq<(Action, Seq<(Key, Seq<char>)>)>>, Seq<char>>(
                    modes@.map_values(|m: Vec<ActionBindings>| mode_bindings_view(m@)),
                ),
            decreases 6 - k,
        {
            let mode = mode_at(k);
            let ghost before = modes@.map_values(|m: Vec<ActionBindings>| mode_bindings_view(m@));
            match mode_bindings(&overrides, mode) {
                Ok(b) => {
                    modes.push(b);
                    assert(modes@.map_values(|m: Vec<ActionBindings>| mode_bindings_view(m@)) =~= before.push(mode_bindings_view(b@)));
                },
                Err(e) => {
                    proof {
                        assert(spec_modes(ov, k as int + 1) == Err::<Seq<Seq<(Action, Seq<(Key, Seq<char>)>)>>, Seq<char>>(e@));
                        lemma_modes_err(ov, k as int + 1, 6);
                    }
                    return Err(e);
                },
            }
            k += 1;
        }
        Ok(Bindings { modes })
    }
}


// ---------------------------------------------------------------------------
// Consulting the bindings
// ---------------------------------------------------------------------------

pub type BoundEntry = (Action, Seq<(Key, Seq<char>)>);

pub open spec fn has_key(keys: Seq<(Key, Seq<char>)>, k: Key) -> bool {
    exists|j: int| 0 <= j < keys.len() && (#[trigger] keys[j]).0 == k
}

pub open spec fn fires(m: Mode, k: Key) -> spec_fn(BoundEntry) -> bool {
    |e: BoundEntry| spec_available(e.0, m) && has_key(e.1, k)
}

pub open spec fn bound_to(a: Action) -> spec_fn(BoundEntry) -> bool {
    |e: BoundEntry| e.0 == a
}

/// The action a key press triggers in a mode: the first available action bound to it.
pub open spec fn spec_action(b: Seq<BoundEntry>, m: Mode, key: Key) -> Option<Action> {
    let i = first_where(b, fires(m, spec_normalized(key)), b.len() as int);
    if i < 0 {
        None
    } else {
        Some(b[i].0)
    }
}

pub open spec fn labels(keys: Seq<(Key, Seq<char>)>) -> Seq<Seq<char>> {
    keys.map_values(|p: (Key, Seq<char>)| p.1)
}

/// The key names of an action in a mode, joined by `/`; empty when the mode has no such action.
pub open spec fn spec_hint(b: Seq<BoundEntry>, a: Action) -> Seq<char> {
    let i = first_where(b, bound_to(a), b.len() as int);
    if i < 0 {
        Seq::empty()
    } else {
        join(labels(b[i].1), "/"@)
    }
}

/// The help lines of the first `n` actions of a mode: each available action with a key,
/// as its keys and then its name.
pub open spec fn help_lines(b: Seq<BoundEntry>, m: Mode, n: int) -> Seq<Seq<char>>
    decreases n,
{
    if n <= 0 {
        Seq::empty()
    } else if spec_available(b[n - 1].0, m) && b[n - 1].1.len() > 0 {
        help_lines(b, m, n - 1).push(join(labels(b[n - 1].1), "/"@) + " "@ + action_name(b[n - 1].0))
    } else {
        help_lines(b, m, n - 1)
    }
}

fn mode_position(m: Mode) -> (r: usize)
    ensures
        r as int == mode_index(m),
        r < 6,
{
    match m {
        Mode::Normal => 0,
        Mode::Menu => 1,
        Mode::Search => 2,
        Mode::Input => 3,
        Mode::Confirmation => 4,
        Mode::Inspection => 5,
    }
}

fn label_chars(keys: &Vec<Binding>) -> (r: Vec<Vec<char>>)
    ensures
        r@.map_values(|v: Vec<char>| v@) == labels(keys@.map_values(|b: Binding| binding_view(b))),
{
    let ghost target = labels(keys@.map_values(|b: Binding| binding_view(b)));
    let mut r: Vec<Vec<char>> = Vec::new();
    let mut i: usize = 0;
    while i < keys.len()
        invariant
            i <= keys@.len(),
            target == labels(keys@.map_values(|b: Binding| binding_view(b))),
            r@.map_values(|v: Vec<char>| v@) =~= target.subrange(0, i as int),
        decreases keys.len() - i,
    {
        let ghost before = r@.map_values(|v: Vec<char>| v@);
        r.push(chars(keys[i].label.as_str()));
        assert(r@.map_values(|v: Vec<char>| v@) =~= before.push(keys@[i as int].label@));
        i += 1;
    }
    assert(target.subrange(0, keys@.len() as int) =~= target);
    r
}

impl Bindings {
    /// The action that `key` triggers in `mode`, if any.
    pub fn action(&self, mode: Mode, key: Key) -> (r: Option<Action>)
        requires
            self@.len() == 6,
        ensures
            r == spec_action(self@[mode_index(mode)], mode, key),
    {
        let k = normalized(key);
        let p = mode_position(mode);
        let entries = &self.modes[p];
        let ghost b = mode_bindings_view(entries@);
        assert(b == self@[mode_index(mode)]);
        let mut i: usize = 0;
        while i < entries.len()
            invariant
                i <= entries@.len(),
                b == mode_bindings_view(entries@),
                b == self@[mode_index(mode)],
                self@.len() == 6,
                k == spec_normalized(key),
                first_where(b, fires(mode, k), i as int) == -1,
            decreases entries.len() - i,
        {
            let mut found = false;
            let mut j: usize = 0;
            while j < entries[i].keys.len()
                invariant
                    i < entries@.len(),
                    j <= entries@[i as int].keys@.len(),
                    b == mode_bindings_view(entries@),
                    found == exists|q: int| 0 <= q < j && (#[trigger] b[i as int].1[q]).0 == k,
                decreases entries@[i as int].keys@.len() - j,
            {
                assert(b[i as int].1[j as int].0 == entries@[i as int].keys@[j as int].key);
                if entries[i].keys[j].key == k {
                    found = true;
                }
                j += 1;
            }
            assert(found == has_key(b[i as int].1, k));
            if entries[i].action.available(mode) && found {
                assert(fires(mode, k)(b[i as int]));
                proof {
                    lemma_first_where_stays(b, fires(mode, k), i as int + 1, b.len() as int);
                }
                return Some(entries[i].action);
            }
            assert(!fires(mode, k)(b[i as int]));
            i += 1;
        }
        None
    }

    /// The key names of `action` in `mode`, joined by `/`.
    pub fn hint(&self, mode: Mode, action: Action) -> (r: String)
        requires
            self@.len() == 6,
        ensures
            r@ == spec_hint(self@[mode_index(mode)], action),
    {
        let p = mode_position(mode);
        let entries = &self.modes[p];
        let ghost b = mode_bindings_view(entries@);
        assert(b == self@[mode_index(mode)]);
        let mut i: usize = 0;
        while i < entries.len()
            invariant
                i <= entries@.len(),
                b == mode_bindings_view(entries@),
                b == self@[mode_index(mode)],
                self@.len() == 6,
                first_where(b, bound_to(action), i as int) == -1,
            decreases entries.len() - i,
        {
            if entries[i].action == action {
                assert(bound_to(action)(b[i as int]));
                proof {
                    lemma_first_where_stays(b, bound_to(action), i as int + 1, b.len() as int);
                }
                return string_of(&join_with(&label_chars(&entries[i].keys), &chars("/")));
            }
            assert(!bound_to(action)(b[i as int]));
            i += 1;
        }
        String::new()
    }

    /// The help lines of `mode`: each available action with a key, as `keys name`.
    pub fn help(&self, mode: Mode) -> (r: Vec<String>)
        requires
            self@.len() == 6,
        ensures
            r.deep_view() == help_lines(self@[mode_index(mode)], mode, self@[mode_index(mode)].len() as int),
    {
        let p = mode_position(mode);
        let entries = &self.modes[p];
        let ghost b = mode_bindings_view(entries@);
        assert(b == self@[mode_index(mode)]);
        let mut lines: Vec<String> = Vec::new();
        let mut i: usize = 0;
        while i < entries.len()
            invariant
                i <= entries@.len(),
                b == mode_bindings_view(entries@),
                b == self@[mode_index(mode)],
                self@.len() == 6,
                lines.deep_view() == help_lines(b, mode, i as int),
            decreases entries.len() - i,
        {
            if entries[i].action.available(mode) && entries[i].keys.len() > 0 {
                let line = concat(&concat(&join_with(&label_chars(&entries[i].keys), &chars("/")), &chars(" ")), &chars(entries[i].action.name()));
                let ghost before = lines.deep_view();
                lines.push(string_of(&line));
                assert(lines.deep_view() =~= before.push(line@));
            }
            i += 1;
        }
        lines
    }
}


// ---------------------------------------------------------------------------
// Laws
// ---------------------------------------------------------------------------

/// The keys bound to an action in a mode's bindings; none when the mode has no such action.
pub open spec fn keys_bound(b: Seq<BoundEntry>, a: Action) -> Seq<(Key, Seq<char>)> {
    let i = first_where(b, bound_to(a), b.len() as int);
    if i < 0 {
        Seq::empty()
    } else {
        b[i].1
    }
}

proof fn lemma_modes_ok(ov: Seq<OverrideView>, n: int, k: int)
    requires
        0 <= k < n,
        spec_modes(ov, n) is Ok,
    ensures
        spec_modes(ov, n)->Ok_0.len() == n,
        spec_mode_bindings(ov, all_modes()[k]) is Ok,
        spec_modes(ov, n)->Ok_0[k] == spec_mode_bindings(ov, all_modes()[k])->Ok_0,
    decreases n,
{
    if k < n - 1 {
        lemma_modes_ok(ov, n - 1, k);
    } else if n - 1 > 0 {
        lemma_modes_ok(ov, n - 1, 0);
    }
    if n - 1 == 0 {
        assert(spec_modes(ov, 0) == Ok::<Seq<Seq<BoundEntry>>, Seq<char>>(Seq::empty()));
    }
}

proof fn lemma_unreachable_none(map: KeyTable, req: Seq<Action>, n: int, i: int)
    requires
        0 <= i < n,
        first_unreachable(map, req, n) is None,
    ensures
        keys_of(map, req[i]).len() > 0,
    decreases n,
{
    if i < n - 1 {
        lemma_unreachable_none(map, req, n - 1, i);
    }
}

proof fn lemma_first_where_bound(map: KeyTable, a: Action, n: int)
    requires
        0 <= n <= map.len(),
    ensures
        first_where(bound(map), bound_to(a), n) == first_where(map, for_action(a), n),
    decreases n,
{
    if n > 0 {
        lemma_first_where_bound(map, a, n - 1);
        assert(bound(map)[n - 1].0 == map[n - 1].0);
    }
}

/// Loaded bindings keep a key for every action a mode requires: help and quit in every
/// mode, and accept and cancel in every mode but the normal one.
pub proof fn law_required_actions_stay_bound(ov: Seq<OverrideView>, m: Mode, a: Action)
    requires
        spec_load(ov) is Ok,
        required(m).contains(a),
    ensures
        spec_load(ov)->Ok_0.len() == 6,
        keys_bound(spec_load(ov)->Ok_0[mode_index(m)], a).len() > 0,
{
    let k = mode_index(m);
    assert(all_modes()[k] == m);
    lemma_modes_ok(ov, 6, k);
    let name = mode_name(m);
    let map = spec_apply(default_map(m), name, custom_for(ov, name))->Ok_0;
    let req = required(m);
    let i = choose|i: int| 0 <= i < req.len() && req[i] == a;
    lemma_unreachable_none(map, req, req.len() as int, i);
    lemma_first_where_bound(map, a, map.len() as int);
    lemma_first_where_bounds(map, for_action(a), map.len() as int);
    let j = first_where(map, for_action(a), map.len() as int);
    if j >= 0 {
        assert(bound(map)[j].1.len() == map[j].1.len());
    }
}


/// Every key of a mode's bindings, action by action.
pub open spec fn all_keys(b: Seq<BoundEntry>) -> Seq<Key>
    decreases b.len(),
{
    if b.len() == 0 {
        Seq::empty()
    } else {
        all_keys(b.drop_last()) + b.last().1.map_values(|p: (Key, Seq<char>)| p.0)
    }
}

pub open spec fn parsed_keys(labels: Seq<Seq<char>>) -> Seq<Key> {
    labels.map_values(|l: Seq<char>| spec_parse_key(l)->Ok_0)
}

proof fn lemma_bind_ok(keys: Seq<Seq<char>>, mode: Seq<char>, typing: bool)
    requires
        spec_bind(keys, mode, typing) is Ok,
    ensures
        spec_bind(keys, mode, typing)->Ok_0 == parsed_keys(keys),
        parsed_keys(keys).no_duplicates(),
    decreases keys.len(),
{
    if keys.len() > 0 {
        lemma_bind_ok(keys.drop_last(), mode, typing);
        assert(parsed_keys(keys) =~= parsed_keys(keys.drop_last()).push(spec_parse_key(keys.last())->Ok_0));
    } else {
        assert(parsed_keys(keys) =~= Seq::<Key>::empty());
    }
}

proof fn lemma_all_keys_bound(map: KeyTable)
    ensures
        all_keys(bound(map)) == parsed_keys(flat(map)),
    decreases map.len(),
{
    if map.len() > 0 {
        lemma_all_keys_bound(map.drop_last());
        assert(bound(map).drop_last() =~= bound(map.drop_last()));
        assert(bound(map).last().1.map_values(|p: (Key, Seq<char>)| p.0) =~= parsed_keys(map.last().1));
        assert(parsed_keys(flat(map)) =~= parsed_keys(flat(map.drop_last())) + parsed_keys(map.last().1));
    } else {
        assert(all_keys(bound(map)) =~= parsed_keys(flat(map)));
    }
}

/// No key of a mode of loaded bindings is bound twice: a key press means one thing.
pub proof fn law_bound_keys_are_distinct(ov: Seq<OverrideView>, m: Mode)
    requires
        spec_load(ov) is Ok,
    ensures
        spec_load(ov)->Ok_0.len() == 6,
        all_keys(spec_load(ov)->Ok_0[mode_index(m)]).no_duplicates(),
{
    let k = mode_index(m);
    assert(all_modes()[k] == m);
    lemma_modes_ok(ov, 6, k);
    let name = mode_name(m);
    let map = spec_apply(default_map(m), name, custom_for(ov, name))->Ok_0;
    lemma_bind_ok(flat(map), name, typing(m));
    lemma_all_keys_bound(map);
}

} // verus!
