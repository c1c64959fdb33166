//! The boundaries between the application logic and the outside world. Each trait is
//! implemented by the embedding program (and by test doubles).
use vstd::prelude::*;

use crate::domain::config::Config;
use crate::domain::repository::{RepositoryRef, RepositorySummary};
use crate::domain::state::LocalState;
use crate::text::{chars, string_of};

verus! {

#[derive(Debug, Clone, Copy, PartialEq, Eq, Structural)]
pub enum Mutation {
    Changed,
    Noop,
}

#[derive(Debug, Clone, PartialEq, Eq)]
pub enum InteractionError {
    Cancelled,
    Failed(String),
}

/// Questions put to the person at the terminal.
pub trait Interaction {
    fn confirm(&mut self, message: &str, default: bool) -> Result<bool, InteractionError>;

    fn input(&mut self, message: &str, placeholder: &str, default: Option<&str>) -> Result<String, InteractionError>;
}

/// Which external tools are installed.
pub trait ToolInspector {
    fn command_available(&self, name: &str) -> bool;

    fn github_authenticated(&self) -> bool;
}

/// Directory creation for `init`.
pub trait ConfigurationFilesystem {
    fn create_dir_all(&self, path: &str) -> Result<(), String>;
}

/// The persisted configuration file.
pub trait ConfigStore {
    fn exists_at(&self, path: &str) -> bool;

    fn load(&self, path: &str) -> Result<Config, String>;

    fn init(&self, path: &str, root: &str, github: bool) -> Result<(), String>;

    fn register(&self, path: &str, references: &Vec<String>, post_clone: Option<&str>) -> Result<Vec<Mutation>, String>;

    fn remove(&self, path: &str, references: &Vec<String>) -> Result<Vec<Mutation>, String>;
}

/// One registration inside an all-or-nothing batch.
#[derive(Debug, Clone, PartialEq, Eq)]
pub struct RegistrationRequest {
    pub reference: String,
    pub post_clone: Option<String>,
}

/// A store that commits a whole batch of registrations at once, or none of it.
pub trait AtomicRegistrationStore: ConfigStore {
    fn register_batch(&self, path: &str, requests: &Vec<RegistrationRequest>) -> Result<Vec<Mutation>, String>;
}

/// Progress of `ensure`.
#[derive(Debug, Clone, Copy, PartialEq, Eq)]
pub enum EnsureEvent<'a> {
    CloneStarted { reference: &'a str, destination: &'a str },
    CloneSucceeded { reference: &'a str },
    CloneFailed { reference: &'a str, error: &'a str },
}

pub trait EnsureReporter {
    fn report(&mut self, event: EnsureEvent<'_>);
}

/// Cloning; a failure reports whether it was a cancellation.
pub trait GitClient {
    fn clone_repository(&self, url: &str, home: &str, root: &str, destination: &str) -> Result<(), String>;

    fn is_cancelled(&self, error: &String) -> bool;
}

/// What a destination holds.
pub trait GitState {
    fn classify_destination(&self, destination: &str, expected_url: &str) -> LocalState;
}

/// The guards consulted before a checkout is deleted.
pub trait GitRemoval {
    fn inspect_removal(&self, destination: &str, expected_url: &str) -> Result<Vec<String>, String>;

    fn origin_identity(&self, destination: &str) -> Result<String, String>;
}

/// Filesystem access for removal.
pub trait RemovalFilesystem {
    fn canonicalize(&self, path: &str) -> Result<String, String>;

    fn is_symlink(&self, path: &str) -> Result<bool, String>;

    fn exists_at(&self, path: &str) -> bool;

    /// Returns false only when metadata reports NotFound; all other failures are errors.
    /// The default reads every failure as absence, so it never fails.
    fn metadata_exists(&self, path: &str) -> (r: Result<bool, String>)
        default_ensures
            r is Ok,
    {
        Ok(self.exists_at(path))
    }

    fn contains_symlink(&self, path: &str) -> Result<bool, String>;

    fn remove_dir_all(&self, path: &str) -> Result<(), String>;

    fn discover_directories(&self, root: &str) -> Result<Vec<String>, String>;
}

/// Post-clone hooks; a failure reports whether it was a cancellation.
pub trait HookRunner {
    fn run_hook(&self, command: &str, directory: &str) -> Result<(), String>;

    fn is_cancelled(&self, error: &String) -> bool;
}

#[derive(Debug, Clone, PartialEq, Eq)]
pub struct SelectionCandidate {
    pub reference: RepositoryRef,
    pub display: String,
    pub archived: bool,
    /// Canonical discovered path retained only for local removal selections.
    pub exact_path: Option<String>,
}

#[derive(Debug, Clone, PartialEq, Eq)]
pub enum SelectionError {
    Cancelled,
    Unavailable(String),
    Failed(String),
}

pub trait RepositorySelector {
    fn select(&self, candidates: &Vec<SelectionCandidate>) -> Result<Vec<SelectionCandidate>, SelectionError>;
}

#[derive(Debug, Clone, PartialEq, Eq)]
pub struct ProviderFailure {
    pub provider: String,
    pub error: String,
}

/// Repository discovery through the configured providers.
pub trait ProviderCatalog {
    fn catalog(&self, include_archived: bool) -> Result<Vec<RepositorySummary>, String>;

    fn expand(&self, reference: &RepositoryRef, include_archived: bool) -> Result<Vec<RepositorySummary>, String>;

    /// By default, the whole catalog, or no repository and one failure named `catalog`.
    fn catalog_with_failures(&self, include_archived: bool) -> (r: (Vec<RepositorySummary>, Vec<ProviderFailure>))
        default_ensures
            r.1@.len() == 0 || (r.0@.len() == 0 && r.1@.len() == 1 && r.1@[0].provider@ == "catalog"@),
    {
        match self.catalog(include_archived) {
            Ok(repositories) => (repositories, Vec::new()),
            Err(error) => {
                proof {
                    reveal_strlit("catalog");
                }
                let mut failures: Vec<ProviderFailure> = Vec::new();
                failures.push(ProviderFailure { provider: string_of(&chars("catalog")), error });
                (Vec::new(), failures)
            },
        }
    }
}

} // verus!
