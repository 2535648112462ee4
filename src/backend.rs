use vstd::prelude::*;
use crate::reconcile::{SortMode, ViewSpec, ViewState};

verus! {

/// Where the tasks are kept.
#[derive(Debug)]
pub enum BackendConfig {
    Local { path: String },
    Remote { url: String, path: String, username: String, password: String },
}

/// The store that every operation goes to. A switch makes a new handle with
/// the next generation, so that work begun against an older one can be told
/// apart and dropped.
#[derive(Debug)]
pub struct StoreHandle {
    pub config: BackendConfig,
    pub generation: u64,
}

impl StoreHandle {
    /// The first handle, on `config`.
    pub fn new(config: BackendConfig) -> (r: StoreHandle)
        ensures
            r.config == config,
            r.generation == 0,
    {
        StoreHandle { config, generation: 0 }
    }

    /// A handle on `config` that replaces this one.
    pub fn switch_to(self, config: BackendConfig) -> (r: StoreHandle)
        requires
            self.generation < u64::MAX,
        ensures
            r.config == config,
            r.generation == self.generation + 1,
    {
        StoreHandle { config, generation: self.generation + 1 }
    }

    /// Whether a result begun under `generation` still belongs to this handle.
    pub fn is_current(&self, generation: u64) -> (r: bool)
        ensures
            r == (generation == self.generation),
    {
        generation == self.generation
    }
}

/// What a connectivity check of a remote store is given.
#[derive(Debug)]
pub struct ProbeRequest {
    pub url: String,
    pub path: String,
    pub username: String,
    pub password: String,
}

/// The check to run for a configuration: only a remote store has one.
pub fn probe_request(config: &BackendConfig) -> (r: Option<ProbeRequest>)
    ensures
        match config {
            BackendConfig::Local { .. } => r is None,
            BackendConfig::Remote { url, path, username, password } => (r matches Some(p) && p.url@
                == url@ && p.path@ == path@ && p.username@ == username@ && p.password@
                == password@),
        },
{
    match config {
        BackendConfig::Local { .. } => None,
        BackendConfig::Remote { url, path, username, password } => Some(
            ProbeRequest {
                url: url.clone(),
                path: path.clone(),
                username: username.clone(),
                password: password.clone(),
            },
        ),
    }
}

/// Where a connectivity check stands.
#[derive(Debug)]
pub enum ProbeStatus {
    Idle,
    Checking,
    Succeeded,
    Failed(String),
}

/// Marks a check as under way, unless one already is; says whether a check
/// is to be started.
pub fn begin_probe(status: &mut ProbeStatus) -> (started: bool)
    ensures
        started == !(*old(status) is Checking),
        *final(status) is Checking,
{
    if let ProbeStatus::Checking = status {
        false
    } else {
        *status = ProbeStatus::Checking;
        true
    }
}

/// Takes the outcome of a check that was under way; an outcome that arrives
/// when none was is dropped.
pub fn finish_probe(status: &mut ProbeStatus, outcome: Result<(), String>)
    ensures
        *old(status) is Checking ==> match outcome {
            Ok(()) => *final(status) is Succeeded,
            Err(e) => (*final(status) matches ProbeStatus::Failed(m) && m@ == e@),
        },
        !(*old(status) is Checking) ==> *final(status) == *old(status),
{
    if let ProbeStatus::Checking = status {
        *status = match outcome {
            Ok(()) => ProbeStatus::Succeeded,
            Err(e) => ProbeStatus::Failed(e),
        };
    }
}

/// The settings that persist across sessions.
#[derive(Debug)]
pub struct Preferences {
    pub sort: SortMode,
    pub show_done: bool,
    pub due_only: bool,
    pub backend: BackendConfig,
    pub voice_enabled: bool,
    pub voice_language: String,
}

impl Preferences {
    /// The view that a window opens with: the saved sort and filters, no
    /// search.
    pub fn view_state(&self) -> (r: ViewState)
        ensures
            r@ == (ViewSpec {
                sort: self.sort,
                search: Seq::empty(),
                show_done: self.show_done,
                due_only: self.due_only,
            }),
    {
        ViewState {
            sort: self.sort,
            search: String::new(),
            show_done: self.show_done,
            due_only: self.due_only,
        }
    }
}

} // verus!
