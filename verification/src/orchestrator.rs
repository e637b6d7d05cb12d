//! The startup orchestrator.
//!
//! One state machine drives application startup: initialise the store
//! through the migration engine, then — depending on the runtime mode —
//! either spawn the API sidecar or announce that an externally-run service
//! is expected. Store and spawn failures are fatal: startup moves to
//! `Failed` and never degrades silently to a backend-less mode.

use vstd::prelude::*;
use crate::migration::MigrationError;
use crate::supervisor::SpawnError;

verus! {

/// How the application was started: a production build supervises the
/// bundled sidecar, a development build expects an externally-run service.
pub enum RuntimeMode {
    Production,
    Development,
}

/// Why startup failed.
pub enum FailureReason {
    /// Opening or migrating the store failed.
    Store(MigrationError),
    /// Launching the sidecar failed; in production mode this aborts startup.
    Spawn(SpawnError),
}

/// The startup states. Startup proceeds `Initializing` to `StoreReady` to
/// one of `SidecarRunning` / `SidecarSkipped` to `Ready`; `Failed` is
/// terminal and reachable only from `Initializing` (store failure) and from
/// the spawn step (spawn failure in production mode).
pub enum StartupState {
    Initializing,
    StoreReady,
    SidecarRunning,
    SidecarSkipped,
    Ready,
    Failed(FailureReason),
}

/// What the host has to do next to advance startup.
pub enum StartupAction {
    /// Run the migration engine against the local store.
    RunMigrations,
    /// Resolve and launch the sidecar with the contracted environment.
    SpawnSidecar,
    /// Log that an externally-managed service is expected, spawn nothing.
    AnnounceExternalService,
    /// Hand control to the command layer.
    Finish,
    /// Startup is complete; nothing is left to do.
    Done,
    /// Startup failed; abort with a user-visible error.
    Abort,
}

/// The startup orchestrator: holds the runtime mode, fixed at construction,
/// and the current startup state.
pub struct Orchestrator {
    pub mode: RuntimeMode,
    pub state: StartupState,
}

impl Orchestrator {
    /// Startup begins in `Initializing`, with the mode resolved once from
    /// configuration.
    pub fn new(mode: RuntimeMode) -> (o: Orchestrator)
        ensures
            o.mode == mode,
            o.state is Initializing,
    {
        Orchestrator { mode, state: StartupState::Initializing }
    }

    /// What the host has to do in the current state: migrate first, then
    /// spawn the sidecar exactly in production mode and skip it exactly in
    /// development mode, then finish.
    pub fn next_action(&self) -> (a: StartupAction)
        ensures
            match self.state {
                StartupState::Initializing => a is RunMigrations,
                StartupState::StoreReady => if self.mode is Production {
                    a is SpawnSidecar
                } else {
                    a is AnnounceExternalService
                },
                StartupState::SidecarRunning => a is Finish,
                StartupState::SidecarSkipped => a is Finish,
                StartupState::Ready => a is Done,
                StartupState::Failed(_) => a is Abort,
            },
    {
        match &self.state {
            StartupState::Initializing => StartupAction::RunMigrations,
            StartupState::StoreReady => match &self.mode {
                RuntimeMode::Production => StartupAction::SpawnSidecar,
                RuntimeMode::Development => StartupAction::AnnounceExternalService,
            },
            StartupState::SidecarRunning => StartupAction::Finish,
            StartupState::SidecarSkipped => StartupAction::Finish,
            StartupState::Ready => StartupAction::Done,
            StartupState::Failed(_) => StartupAction::Abort,
        }
    }

    /// The migration run finished: success makes the store ready, any
    /// migration error is fatal and carries the error into the failure.
    pub fn on_store_result(&mut self, r: Result<(), MigrationError>)
        requires
            old(self).state is Initializing,
        ensures
            final(self).mode == old(self).mode,
            match r {
                Ok(_) => final(self).state is StoreReady,
                Err(e) => final(self).state matches StartupState::Failed(
                    FailureReason::Store(e2),
                ) && e2 == e,
            },
    {
        match r {
            Ok(_) => {
                self.state = StartupState::StoreReady;
            },
            Err(e) => {
                self.state = StartupState::Failed(FailureReason::Store(e));
            },
        }
    }

    /// The spawn attempt finished (production mode only). On success the
    /// sidecar is running; a spawn error is fatal — no handle and no event
    /// stream exist, and startup aborts rather than degrading.
    pub fn on_spawn_result(&mut self, r: Result<(), SpawnError>)
        requires
            old(self).state is StoreReady,
            old(self).mode is Production,
        ensures
            final(self).mode == old(self).mode,
            match r {
                Ok(_) => final(self).state is SidecarRunning,
                Err(e) => final(self).state matches StartupState::Failed(
                    FailureReason::Spawn(e2),
                ) && e2 == e,
            },
    {
        match r {
            Ok(_) => {
                self.state = StartupState::SidecarRunning;
            },
            Err(e) => {
                self.state = StartupState::Failed(FailureReason::Spawn(e));
            },
        }
    }

    /// Development mode launches nothing: the sidecar step is skipped.
    pub fn skip_sidecar(&mut self)
        requires
            old(self).state is StoreReady,
            old(self).mode is Development,
        ensures
            final(self).mode == old(self).mode,
            final(self).state is SidecarSkipped,
    {
        self.state = StartupState::SidecarSkipped;
    }

    /// With the sidecar either running or deliberately skipped, the command
    /// layer becomes usable. Reaching `Ready` promises nothing about the
    /// sidecar's own internal startup.
    pub fn finish(&mut self)
        requires
            old(self).state is SidecarRunning || old(self).state is SidecarSkipped,
        ensures
            final(self).mode == old(self).mode,
            final(self).state is Ready,
    {
        self.state = StartupState::Ready;
    }
}

} // verus!
