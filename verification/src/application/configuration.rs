//! `init` and `unregister`.
use vstd::prelude::*;

use crate::application::ports::{
    ConfigStore, ConfigurationFilesystem, Interaction, InteractionError, Mutation, ToolInspector,
};
use crate::domain::config::{resolve_portable_path, spec_resolve_portable_path, ConfigErrView, config_error_text};
use crate::domain::repository::path_names;
use crate::paths::{components, components_of};
use crate::text::{chars, concat, has_prefix, join, join_with, slice, split, split_char, starts_with, string_of};

verus! {

broadcast use vstd::seq::group_seq_axioms;

#[derive(Debug, Clone, PartialEq, Eq)]
pub struct InitChoices {
    pub root: String,
    pub create_root: bool,
    pub github: bool,
}

pub open spec fn init_outside_tty_text() -> Seq<char> {
    "init requires one root, create-root choice, and GitHub choice outside a TTY"@
}

/// Collects the `init` choices: supplied values are kept, omitted ones are asked for in a
/// terminal and refused outside one.
pub fn resolve_init_choices<I: Interaction>(
    root: Option<&str>,
    create_root: Option<bool>,
    github: Option<bool>,
    interactive: bool,
    interaction: &mut I,
) -> (r: Result<InitChoices, InteractionError>)
    ensures
        !interactive && (root.is_none() || create_root.is_none() || github.is_none()) ==> (r matches Err(
            InteractionError::Failed(m),
        ) && m@ == init_outside_tty_text()),
        (root.is_some() && create_root.is_some() && github.is_some()) ==> (r matches Ok(c) && c.root@
            == root.unwrap()@ && c.create_root == create_root.unwrap() && c.github == github.unwrap()),
        r matches Ok(c) ==> (root matches Some(v) ==> c.root@ == v@) && (create_root matches Some(b) ==> c.create_root
            == b) && (github matches Some(b) ==> c.github == b),
{
    if !interactive && (root.is_none() || create_root.is_none() || github.is_none()) {
        return Err(InteractionError::Failed(string_of(&chars("init requires one root, create-root choice, and GitHub choice outside a TTY"))));
    }
    let root = match root {
        Some(root) => string_of(&chars(root)),
        None => interaction.input("Where should repositories be stored?", "repos", Some("repos"))?,
    };
    let create_root = match create_root {
        Some(create_root) => create_root,
        None => interaction.confirm("Create the repository root if it is missing?", true)?,
    };
    let github = match github {
        Some(github) => github,
        None => interaction.confirm("Configure GitHub repository discovery?", true)?,
    };
    Ok(InitChoices { root, create_root, github })
}

pub open spec fn git_missing_text() -> Seq<char> {
    "git is not available; install git before adding repositories"@
}

pub open spec fn fzf_missing_text() -> Seq<char> {
    "fzf is not available; install fzf for interactive repository selection"@
}

pub open spec fn gh_missing_text() -> Seq<char> {
    "authenticated gh is not available; install gh and run `gh auth login`"@
}

/// The warnings for the tools found missing, in a fixed order.
pub open spec fn diagnostic_texts(git: bool, fzf: bool, gh: bool) -> Seq<Seq<char>> {
    (if git { Seq::empty() } else { seq![git_missing_text()] }) + (if fzf { Seq::empty() } else { seq![fzf_missing_text()] })
        + (if gh { Seq::empty() } else { seq![gh_missing_text()] })
}

pub open spec fn texts_view(v: Seq<&'static str>) -> Seq<Seq<char>> {
    v.map_values(|s: &'static str| s@)
}

/// The warnings for the given tool availability.
pub fn missing_tool_messages(git: bool, fzf: bool, gh: bool) -> (r: Vec<&'static str>)
    ensures
        texts_view(r@) == diagnostic_texts(git, fzf, gh),
{
    let mut messages: Vec<&'static str> = Vec::new();
    if !git {
        messages.push("git is not available; install git before adding repositories");
    }
    if !fzf {
        messages.push("fzf is not available; install fzf for interactive repository selection");
    }
    if !gh {
        messages.push("authenticated gh is not available; install gh and run `gh auth login`");
    }
    assert(texts_view(messages@) =~= diagnostic_texts(git, fzf, gh));
    messages
}

/// Warnings about missing tools; GitHub authentication is only checked when requested.
pub fn init_diagnostics<T: ToolInspector>(tools: &T, github: bool) -> (r: Vec<&'static str>)
    ensures
        exists|git: bool, fzf: bool, gh: bool| texts_view(r@) == #[trigger] diagnostic_texts(git, fzf, gh) && (!github ==> gh),
{
    let git = tools.command_available("git");
    let fzf = tools.command_available("fzf");
    let gh = !github || tools.github_authenticated();
    let r = missing_tool_messages(git, fzf, gh);
    assert(texts_view(r@) == diagnostic_texts(git, fzf, gh) && (!github ==> gh));
    r
}

/// How a root is persisted: relative roots as given, absolute ones below HOME as `~/…`.
pub open spec fn spec_portable_root(value: Seq<char>, home: Seq<char>) -> Result<Seq<char>, Seq<char>> {
    if !has_prefix(value, "/"@) {
        Ok(value)
    } else {
        let hc = components(home);
        let vc = components(value);
        if !has_prefix(home, "/"@) || hc.len() > vc.len() || vc.subrange(0, hc.len() as int) != hc {
            Err("--root must be under HOME when persisted"@)
        } else if hc.len() == vc.len() {
            Ok("~"@)
        } else {
            Ok("~/"@ + join(vc.subrange(hc.len() as int, vc.len() as int), "/"@))
        }
    }
}

/// How a root is persisted: relative roots as given, absolute ones below HOME as `~/…`
/// (the part below HOME rendered with single separators).
pub fn portable_root(value: &str, home: &str) -> (r: Result<String, String>)
    ensures
        match r {
            Ok(v) => spec_portable_root(value@, home@) == Ok::<Seq<char>, Seq<char>>(v@),
            Err(e) => spec_portable_root(value@, home@) == Err::<Seq<char>, Seq<char>>(e@),
        },
{
    let v = chars(value);
    if !starts_with(&v, &chars("/")) {
        return Ok(string_of(&v));
    }
    let h = chars(home);
    let hc = components_of(&h);
    let vc = components_of(&v);
    if !starts_with(&h, &chars("/")) || !crate::paths::prefix_of(&hc, &vc) {
        return Err(string_of(&chars("--root must be under HOME when persisted")));
    }
    if hc.len() == vc.len() {
        return Ok(string_of(&chars("~")));
    }
    let mut rest: Vec<Vec<char>> = Vec::new();
    let mut i = hc.len();
    while i < vc.len()
        invariant
            hc@.len() <= i <= vc@.len(),
            rest@.map_values(|x: Vec<char>| x@) =~= vc@.map_values(|x: Vec<char>| x@).subrange(hc@.len() as int, i as int),
        decreases vc.len() - i,
    {
        let piece = slice(&vc[i], 0, vc[i].len());
        assert(piece@ =~= vc@[i as int]@);
        let ghost before = rest@.map_values(|x: Vec<char>| x@);
        rest.push(piece);
        assert(rest@.map_values(|x: Vec<char>| x@) =~= before.push(piece@));
        i += 1;
    }
    Ok(string_of(&concat(&chars("~/"), &join_with(&rest, &chars("/")))))
}

/// What `init` settles before consulting the store: the persisted root and its location.
pub open spec fn spec_init_plan(root: Seq<char>, home: Seq<char>) -> Result<(Seq<char>, Seq<char>), Seq<char>> {
    match spec_portable_root(root, home) {
        Err(e) => Err(e),
        Ok(persisted) => match spec_resolve_portable_path(persisted, home) {
            Err(e) => Err(config_error_text(e)),
            Ok(path) => Ok((persisted, path)),
        },
    }
}

/// What `init` settles before consulting the store: the root as it will be persisted, and
/// the directory it names.
pub fn init_plan(root: &str, home: &str) -> (r: Result<(String, String), String>)
    ensures
        match r {
            Ok((persisted, path)) => spec_init_plan(root@, home@) == Ok::<(Seq<char>, Seq<char>), Seq<char>>((persisted@, path@)),
            Err(e) => spec_init_plan(root@, home@) == Err::<(Seq<char>, Seq<char>), Seq<char>>(e@),
        },
{
    let persisted_root = portable_root(root, home)?;
    let root_path = match resolve_portable_path(persisted_root.as_str(), home) {
        Ok(p) => p,
        Err(error) => return Err(error.message()),
    };
    Ok((persisted_root, root_path))
}

/// Where `init` stands when an outside answer comes in.
pub enum InitStage {
    /// The store said whether a configuration exists at the path.
    Checked,
    /// The root was created (or not).
    Created,
    /// The store wrote (or failed to write) the configuration.
    Written,
}

/// An outside answer during `init`.
pub enum InitAnswer {
    Exists(bool),
    Created(Result<(), String>),
    Written(Result<(), String>),
}

/// What `init` does after an answer: go on, or end with this result.
pub enum InitNext {
    Go,
    Finish(Result<(), String>),
}

/// The decision on one outside answer during `init`: an existing configuration is refused, a
/// root that cannot be created stops it with the reason, and the store's answer is the result.
pub fn init_step(stage: &InitStage, answer: &InitAnswer) -> (r: InitNext)
    ensures
        *stage is Checked ==> match *answer {
            InitAnswer::Exists(true) => r matches InitNext::Finish(Err(m)) && m@ == "config already exists"@,
            InitAnswer::Exists(false) => r is Go,
            _ => r is Finish,
        },
        *stage is Created ==> match *answer {
            InitAnswer::Created(Ok(())) => r is Go,
            InitAnswer::Created(Err(e)) => r matches InitNext::Finish(Err(m)) && m@ == "could not create root: "@ + e@,
            _ => r is Finish,
        },
        *stage is Written ==> match *answer {
            InitAnswer::Written(Ok(())) => r == InitNext::Finish(Ok(())),
            InitAnswer::Written(Err(e)) => r matches InitNext::Finish(Err(m)) && m@ == e@,
            _ => r is Finish,
        },
{
    match (stage, answer) {
        (InitStage::Checked, InitAnswer::Exists(exists)) => if *exists {
            InitNext::Finish(Err(string_of(&chars("config already exists"))))
        } else {
            InitNext::Go
        },
        (InitStage::Created, InitAnswer::Created(created)) => match created {
            Ok(()) => InitNext::Go,
            Err(error) => InitNext::Finish(Err(string_of(&concat(&chars("could not create root: "), &chars(error.as_str()))))),
        },
        (InitStage::Written, InitAnswer::Written(written)) => InitNext::Finish(match written {
            Ok(()) => Ok(()),
            Err(error) => Err(string_of(&chars(error.as_str()))),
        }),
        _ => InitNext::Finish(Err(string_of(&chars("init answered out of turn")))),
    }
}

/// Creates the configuration: refuses an existing one, creates the root when asked.
pub fn init<S: ConfigStore, F: ConfigurationFilesystem>(
    store: &S,
    filesystem: &F,
    path: &str,
    root: &str,
    create_root: bool,
    github: bool,
    home: &str,
) -> (r: Result<(), String>)
    ensures
        spec_init_plan(root@, home@) matches Err(e) ==> r == Err::<(), String>(r->Err_0) && r->Err_0@ == e,
{
    let (persisted_root, root_path) = init_plan(root, home)?;
    if let InitNext::Finish(result) = init_step(&InitStage::Checked, &InitAnswer::Exists(store.exists_at(path))) {
        return result;
    }
    if create_root {
        let created = InitAnswer::Created(filesystem.create_dir_all(root_path.as_str()));
        if let InitNext::Finish(result) = init_step(&InitStage::Created, &created) {
            return result;
        }
    }
    match init_step(&InitStage::Written, &InitAnswer::Written(store.init(path, persisted_root.as_str(), github))) {
        InitNext::Finish(result) => result,
        InitNext::Go => Err(string_of(&chars("init answered out of turn"))),
    }
}

/// Removes declarations through the store.
pub fn unregister<S: ConfigStore>(store: &S, path: &str, references: &Vec<String>) -> (r: Result<Vec<Mutation>, String>) {
    store.remove(path, references)
}

} // verus!
