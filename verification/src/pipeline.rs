//! The transactional installation pipeline. The pipeline is a state machine:
//! the surrounding program performs one outside step at a time (run the
//! backend install, locate the installed binary, hash it, write the shim
//! artifact) and reports each outcome as an event; the machine decides every
//! transition, updates the shim registry, and on a hard failure demands a
//! rollback of exactly what has been done. Verification failures always roll
//! back; a shim write failure never does.

use vstd::prelude::*;

use crate::strutil::{lower, eq_ci, str_eq};
use crate::shims::{ShimRegistry, ShimEntryV};

verus! {

/// The errors an installation can end with.
#[derive(Debug)]
pub enum InstallError {
    /// A backend was requested by name but is not available on this system;
    /// nothing was mutated.
    BackendUnavailable { name: String },
    /// The backend's install operation failed; nothing had been mutated yet.
    InstallFailed,
    /// Verification was requested but the installed binary could not be
    /// located.
    BinaryNotLocated,
    /// Verification was requested but the located binary could not be read
    /// and hashed.
    HashUnreadable,
    /// Verification was requested and the computed hash differs from the
    /// expected one.
    HashMismatch { expected: String, actual: String },
}

/// In-memory record of what one install has done so far; drives rollback.
#[derive(Debug)]
pub struct Transaction {
    /// The logical package name being installed.
    pub package: String,
    /// Identifier of the backend performing the install.
    pub backend: String,
    /// Whether the backend install succeeded.
    pub installed: bool,
    /// Whether a shim was created and registered for this install.
    pub shim_created: bool,
}

impl Transaction {
    /// A fresh transaction: nothing done yet.
    pub fn new(package: String, backend: String) -> (t: Transaction)
        ensures
            t.package == package,
            t.backend == backend,
            !t.installed,
            !t.shim_created,
    {
        Transaction { package, backend, installed: false, shim_created: false }
    }

    /// The undo work owed if this transaction must be abandoned: uninstall
    /// exactly when the install succeeded, remove the shim and its registry
    /// entry exactly when a shim was created. Both actions are attempted
    /// best-effort by the caller; neither may be skipped because of the
    /// other.
    pub fn rollback_plan(&self) -> (p: RollbackPlan)
        ensures
            p.uninstall == self.installed,
            p.remove_shim == self.shim_created,
    {
        RollbackPlan { uninstall: self.installed, remove_shim: self.shim_created }
    }
}

/// The undo actions owed after a hard failure.
#[derive(Debug)]
pub struct RollbackPlan {
    /// Invoke the backend's uninstall for the package.
    pub uninstall: bool,
    /// Remove the registry entry and delete the shim artifact.
    pub remove_shim: bool,
}

/// What the install has reported on success.
#[derive(Debug)]
pub struct InstallReport {
    /// Whether a shim was created and registered.
    pub shim_created: bool,
}

/// Which outside step the pipeline is waiting on.
#[derive(Debug, PartialEq, Eq, Structural)]
pub enum Phase {
    /// Waiting for the backend install to finish.
    AwaitInstall,
    /// Waiting for the installed binary to be located.
    AwaitLocate,
    /// Waiting for the located binary's hash.
    AwaitHash,
    /// Waiting for the shim artifact to be written.
    AwaitShim,
    /// The install committed.
    Committed,
    /// The install failed and any owed rollback was demanded.
    Failed,
}

/// The outcome of one outside step, reported to the pipeline.
#[derive(Debug)]
pub enum FlowEvent {
    /// The backend install finished, successfully or not.
    InstallFinished { ok: bool },
    /// Locating the installed binary finished, with its path if found.
    BinaryLocated { path: Option<String> },
    /// Hashing the located binary finished, with the hex digest if the file
    /// could be read.
    HashComputed { hex: Option<String> },
    /// Writing the shim artifact finished, successfully or not.
    ShimWritten { ok: bool },
}

/// What the surrounding program must do next.
#[derive(Debug)]
pub enum FlowAction {
    /// Locate the installed binary for the named package.
    LocateBinary { name: String },
    /// Compute the hash of the binary at the given path.
    ComputeHash { path: String },
    /// Write a shim artifact forwarding `name` to `target`.
    WriteShim { name: String, target: String },
    /// The install is over: report the result, after performing the owed
    /// rollback actions.
    Finish { result: Result<InstallReport, InstallError>, rollback: RollbackPlan },
}

/// One installation in progress.
#[derive(Debug)]
pub struct InstallFlow {
    /// The transaction being tracked.
    pub tx: Transaction,
    /// The expected hash, when the caller requested integrity verification.
    pub expected_hash: Option<String>,
    /// Whether configuration asks for a shim to be created.
    pub create_shims: bool,
    /// The located binary path, once known.
    pub located: Option<String>,
    /// The step the pipeline is waiting on.
    pub phase: Phase,
}

impl InstallFlow {
    /// The states the machine can actually be in.
    pub open spec fn wf(self) -> bool {
        match self.phase {
            Phase::AwaitInstall => !self.tx.installed && !self.tx.shim_created,
            Phase::AwaitLocate => self.tx.installed && !self.tx.shim_created,
            Phase::AwaitHash => self.tx.installed && !self.tx.shim_created && self.located is Some
                && self.expected_hash is Some,
            Phase::AwaitShim => self.tx.installed && !self.tx.shim_created && self.located is Some
                && self.create_shims,
            Phase::Committed => true,
            Phase::Failed => true,
        }
    }

    /// Whether the event answers the step the machine is waiting on.
    pub open spec fn event_fits(self, ev: FlowEvent) -> bool {
        match ev {
            FlowEvent::InstallFinished { .. } => self.phase is AwaitInstall,
            FlowEvent::BinaryLocated { .. } => self.phase is AwaitLocate,
            FlowEvent::HashComputed { .. } => self.phase is AwaitHash,
            FlowEvent::ShimWritten { .. } => self.phase is AwaitShim,
        }
    }

    /// A new pipeline for one install invocation, ready for the backend
    /// install to be run.
    pub fn new(package: String, backend: String, expected_hash: Option<String>, create_shims: bool)
        -> (f: InstallFlow)
        ensures
            f.tx.package == package,
            f.tx.backend == backend,
            !f.tx.installed,
            !f.tx.shim_created,
            f.expected_hash == expected_hash,
            f.create_shims == create_shims,
            f.located is None,
            f.phase is AwaitInstall,
            f.wf(),
    {
        InstallFlow {
            tx: Transaction::new(package, backend),
            expected_hash,
            create_shims,
            located: None,
            phase: Phase::AwaitInstall,
        }
    }

    /// Process one event: the machine after it, and the action it demands.
    pub fn step(&mut self, registry: &mut ShimRegistry, ev: FlowEvent) -> (action: FlowAction)
        requires
            old(self).wf(),
            old(self).event_fits(ev),
            old(registry).wf(),
        ensures
            final(self).wf(),
            final(registry).wf(),
            *final(self) == next_flow(*old(self), ev),
            action == next_action(*old(self), ev),
            adds_shim_entry(*old(self), ev) ==> {
                &&& final(registry)@.dom() == old(registry)@.dom().insert(old(self).tx.package@)
                &&& final(registry)@[old(self).tx.package@].name == old(self).tx.package@
                &&& final(registry)@[old(self).tx.package@].target == old(
                    self,
                ).located->Some_0@
                &&& final(registry)@[old(self).tx.package@].installed_by == old(
                    self,
                ).tx.backend@
                &&& final(registry)@.remove(old(self).tx.package@) == old(registry)@.remove(
                    old(self).tx.package@,
                )
            },
            !adds_shim_entry(*old(self), ev) ==> final(registry)@ == old(registry)@,
    {
        match ev {
            FlowEvent::InstallFinished { ok } => {
                if ok {
                    self.tx.installed = true;
                    self.phase = Phase::AwaitLocate;
                    FlowAction::LocateBinary { name: self.tx.package.clone() }
                } else {
                    self.phase = Phase::Failed;
                    FlowAction::Finish {
                        result: Err(InstallError::InstallFailed),
                        rollback: RollbackPlan { uninstall: false, remove_shim: false },
                    }
                }
            },
            FlowEvent::BinaryLocated { path } => {
                self.located = path;
                if self.expected_hash.is_some() {
                    match &self.located {
                        Some(p) => {
                            self.phase = Phase::AwaitHash;
                            FlowAction::ComputeHash { path: p.clone() }
                        },
                        None => {
                            self.phase = Phase::Failed;
                            FlowAction::Finish {
                                result: Err(InstallError::BinaryNotLocated),
                                rollback: RollbackPlan { uninstall: true, remove_shim: false },
                            }
                        },
                    }
                } else {
                    match &self.located {
                        Some(p) if self.create_shims => {
                            self.phase = Phase::AwaitShim;
                            FlowAction::WriteShim {
                                name: self.tx.package.clone(),
                                target: p.clone(),
                            }
                        },
                        _ => {
                            self.phase = Phase::Committed;
                            FlowAction::Finish {
                                result: Ok(InstallReport { shim_created: false }),
                                rollback: RollbackPlan { uninstall: false, remove_shim: false },
                            }
                        },
                    }
                }
            },
            FlowEvent::HashComputed { hex } => {
                match hex {
                    None => {
                        self.phase = Phase::Failed;
                        FlowAction::Finish {
                            result: Err(InstallError::HashUnreadable),
                            rollback: RollbackPlan { uninstall: true, remove_shim: false },
                        }
                    },
                    Some(h) => {
                        let expected_ref = match &self.expected_hash {
                            Some(e) => e,
                            None => unreached(),
                        };
                        if eq_ci(h.as_str(), expected_ref.as_str()) {
                            match &self.located {
                                Some(p) if self.create_shims => {
                                    self.phase = Phase::AwaitShim;
                                    FlowAction::WriteShim {
                                        name: self.tx.package.clone(),
                                        target: p.clone(),
                                    }
                                },
                                _ => {
                                    self.phase = Phase::Committed;
                                    FlowAction::Finish {
                                        result: Ok(InstallReport { shim_created: false }),
                                        rollback: RollbackPlan {
                                            uninstall: false,
                                            remove_shim: false,
                                        },
                                    }
                                },
                            }
                        } else {
                            self.phase = Phase::Failed;
                            FlowAction::Finish {
                                result: Err(
                                    InstallError::HashMismatch {
                                        expected: expected_ref.clone(),
                                        actual: h,
                                    },
                                ),
                                rollback: RollbackPlan { uninstall: true, remove_shim: false },
                            }
                        }
                    },
                }
            },
            FlowEvent::ShimWritten { ok } => {
                if ok {
                    let target = match &self.located {
                        Some(p) => p.clone(),
                        None => unreached(),
                    };
                    registry.add(self.tx.package.clone(), target, self.tx.backend.clone());
                    self.tx.shim_created = true;
                    self.phase = Phase::Committed;
                    FlowAction::Finish {
                        result: Ok(InstallReport { shim_created: true }),
                        rollback: RollbackPlan { uninstall: false, remove_shim: false },
                    }
                } else {
                    self.phase = Phase::Committed;
                    FlowAction::Finish {
                        result: Ok(InstallReport { shim_created: false }),
                        rollback: RollbackPlan { uninstall: false, remove_shim: false },
                    }
                }
            },
        }
    }
}

/// The machine after processing the event.
pub open spec fn next_flow(f: InstallFlow, ev: FlowEvent) -> InstallFlow {
    match ev {
        FlowEvent::InstallFinished { ok } => {
            if ok {
                InstallFlow {
                    tx: Transaction { installed: true, ..f.tx },
                    phase: Phase::AwaitLocate,
                    ..f
                }
            } else {
                InstallFlow { phase: Phase::Failed, ..f }
            }
        },
        FlowEvent::BinaryLocated { path } => {
            if f.expected_hash is Some {
                if path is Some {
                    InstallFlow { located: path, phase: Phase::AwaitHash, ..f }
                } else {
                    InstallFlow { located: path, phase: Phase::Failed, ..f }
                }
            } else {
                if path is Some && f.create_shims {
                    InstallFlow { located: path, phase: Phase::AwaitShim, ..f }
                } else {
                    InstallFlow { located: path, phase: Phase::Committed, ..f }
                }
            }
        },
        FlowEvent::HashComputed { hex } => {
            match hex {
                None => InstallFlow { phase: Phase::Failed, ..f },
                Some(h) => {
                    if lower(h@) == lower(f.expected_hash->Some_0@) {
                        if f.create_shims {
                            InstallFlow { phase: Phase::AwaitShim, ..f }
                        } else {
                            InstallFlow { phase: Phase::Committed, ..f }
                        }
                    } else {
                        InstallFlow { phase: Phase::Failed, ..f }
                    }
                },
            }
        },
        FlowEvent::ShimWritten { ok } => {
            if ok {
                InstallFlow {
                    tx: Transaction { shim_created: true, ..f.tx },
                    phase: Phase::Committed,
                    ..f
                }
            } else {
                InstallFlow { phase: Phase::Committed, ..f }
            }
        },
    }
}

/// The action the machine demands for the event.
pub open spec fn next_action(f: InstallFlow, ev: FlowEvent) -> FlowAction {
    match ev {
        FlowEvent::InstallFinished { ok } => {
            if ok {
                FlowAction::LocateBinary { name: f.tx.package }
            } else {
                FlowAction::Finish {
                    result: Err(InstallError::InstallFailed),
                    rollback: RollbackPlan { uninstall: false, remove_shim: false },
                }
            }
        },
        FlowEvent::BinaryLocated { path } => {
            if f.expected_hash is Some {
                match path {
                    Some(p) => FlowAction::ComputeHash { path: p },
                    None => FlowAction::Finish {
                        result: Err(InstallError::BinaryNotLocated),
                        rollback: RollbackPlan { uninstall: true, remove_shim: false },
                    },
                }
            } else {
                match path {
                    Some(p) => {
                        if f.create_shims {
                            FlowAction::WriteShim { name: f.tx.package, target: p }
                        } else {
                            FlowAction::Finish {
                                result: Ok(InstallReport { shim_created: false }),
                                rollback: RollbackPlan { uninstall: false, remove_shim: false },
                            }
                        }
                    },
                    None => FlowAction::Finish {
                        result: Ok(InstallReport { shim_created: false }),
                        rollback: RollbackPlan { uninstall: false, remove_shim: false },
                    },
                }
            }
        },
        FlowEvent::HashComputed { hex } => {
            match hex {
                None => FlowAction::Finish {
                    result: Err(InstallError::HashUnreadable),
                    rollback: RollbackPlan { uninstall: true, remove_shim: false },
                },
                Some(h) => {
                    if lower(h@) == lower(f.expected_hash->Some_0@) {
                        if f.create_shims {
                            FlowAction::WriteShim {
                                name: f.tx.package,
                                target: f.located->Some_0,
                            }
                        } else {
                            FlowAction::Finish {
                                result: Ok(InstallReport { shim_created: false }),
                                rollback: RollbackPlan { uninstall: false, remove_shim: false },
                            }
                        }
                    } else {
                        FlowAction::Finish {
                            result: Err(
                                InstallError::HashMismatch {
                                    expected: f.expected_hash->Some_0,
                                    actual: h,
                                },
                            ),
                            rollback: RollbackPlan { uninstall: true, remove_shim: false },
                        }
                    }
                },
            }
        },
        FlowEvent::ShimWritten { ok } => {
            if ok {
                FlowAction::Finish {
                    result: Ok(InstallReport { shim_created: true }),
                    rollback: RollbackPlan { uninstall: false, remove_shim: false },
                }
            } else {
                FlowAction::Finish {
                    result: Ok(InstallReport { shim_created: false }),
                    rollback: RollbackPlan { uninstall: false, remove_shim: false },
                }
            }
        },
    }
}

/// Whether processing the event records a shim in the registry.
pub open spec fn adds_shim_entry(f: InstallFlow, ev: FlowEvent) -> bool {
    f.phase is AwaitShim && ev == (FlowEvent::ShimWritten { ok: true })
}

/// Failure of the backend install leaves the world untouched: the pipeline
/// reports the install failure, owes no undo work (neither an uninstall nor
/// a shim removal), records nothing in the registry, and no shim write is
/// ever requested for the failed install.
pub proof fn lemma_install_failure_is_clean(f: InstallFlow, ev: FlowEvent)
    requires
        f.wf(),
        f.phase is AwaitInstall,
        ev == (FlowEvent::InstallFinished { ok: false }),
    ensures
        next_flow(f, ev).phase is Failed,
        !next_flow(f, ev).tx.installed,
        !next_flow(f, ev).tx.shim_created,
        !adds_shim_entry(f, ev),
        next_action(f, ev) == (FlowAction::Finish {
            result: Err::<InstallReport, InstallError>(InstallError::InstallFailed),
            rollback: RollbackPlan { uninstall: false, remove_shim: false },
        }),
{
}

/// A failed integrity verification always rolls the install back: the
/// pipeline fails with the hash-mismatch error carrying both hashes, demands
/// that the package be uninstalled, and records nothing in the registry —
/// so a registry with no entry for the package before the install still has
/// none after it.
pub proof fn lemma_verification_failure_rolls_back(
    f: InstallFlow,
    h: String,
    reg: Map<Seq<char>, ShimEntryV>,
)
    requires
        f.wf(),
        f.phase is AwaitHash,
        lower(h@) != lower(f.expected_hash->Some_0@),
    ensures
        next_flow(f, FlowEvent::HashComputed { hex: Some(h) }).phase is Failed,
        !next_flow(f, FlowEvent::HashComputed { hex: Some(h) }).tx.shim_created,
        !adds_shim_entry(f, FlowEvent::HashComputed { hex: Some(h) }),
        next_action(f, FlowEvent::HashComputed { hex: Some(h) }) == (FlowAction::Finish {
            result: Err::<InstallReport, InstallError>(
                InstallError::HashMismatch { expected: f.expected_hash->Some_0, actual: h },
            ),
            rollback: RollbackPlan { uninstall: true, remove_shim: false },
        }),
        !reg.contains_key(f.tx.package@) ==> !reg.contains_key(
            next_flow(f, FlowEvent::HashComputed { hex: Some(h) }).tx.package@,
        ),
{
}

/// When verification is requested and the installed binary cannot be
/// located, the pipeline likewise fails and demands an uninstall: a security
/// check is never silently skipped.
pub proof fn lemma_missing_binary_rolls_back(f: InstallFlow)
    requires
        f.wf(),
        f.phase is AwaitLocate,
        f.expected_hash is Some,
    ensures
        next_flow(f, FlowEvent::BinaryLocated { path: None }).phase is Failed,
        !adds_shim_entry(f, FlowEvent::BinaryLocated { path: None }),
        next_action(f, FlowEvent::BinaryLocated { path: None }) == (FlowAction::Finish {
            result: Err::<InstallReport, InstallError>(InstallError::BinaryNotLocated),
            rollback: RollbackPlan { uninstall: true, remove_shim: false },
        }),
{
}

/// Pick the backend the caller named, from the identifiers of the backends
/// available on this system; an unknown or unavailable name fails before
/// anything is mutated.
pub fn select_named_backend(name: &str, available: &Vec<String>) -> (r: Result<
    String,
    InstallError,
>)
    ensures
        r is Ok <==> (exists|i: int| 0 <= i < available@.len() && #[trigger] available@[i]@
            == name@),
        r is Ok ==> r->Ok_0@ == name@,
        r matches Err(InstallError::BackendUnavailable { name: n }) ==> n@ == name@,
        r is Err ==> r->Err_0 is BackendUnavailable,
{
    let n = available.len();
    let mut i: usize = 0;
    while i < n
        invariant
            n == available@.len(),
            i <= n,
            forall|j: int| 0 <= j < i ==> #[trigger] available@[j]@ != name@,
        decreases n - i,
    {
        if str_eq(available[i].as_str(), name) {
            return Ok(name.to_owned());
        }
        i += 1;
    }
    Err(InstallError::BackendUnavailable { name: name.to_owned() })
}

} // verus!
