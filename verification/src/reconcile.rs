//! The resolver reconciler: the transactional state machine that applies
//! a mutated entry list. It demands, one at a time, the outside actions
//! "persist this list" and "restart the resolver", and reacts to their
//! outcomes: a successful restart commits the new list; a failed restart
//! triggers a restore of the original list followed by a best-effort
//! restart, and reports a conflict.
//!
//! The machine carries a ghost model of the backing file: after each
//! successful persist, the model equals the encoding of the persisted
//! list; after a failed persist, the model makes no claim. Under that
//! model, well-formedness ties every phase to the file contents, and the
//! rollback law below is its consequence.

use vstd::prelude::*;

use crate::codec::Entry;
use crate::codec::encode_list_spec;

verus! {

/// The phases of one reconciliation. Construction enters `Writing`;
/// `Committed`, `RolledBack` and `Aborted` are terminal.
#[derive(Clone, Copy, Debug, PartialEq, Eq, Structural)]
pub enum Phase {
    /// The persist of the updated list is pending.
    Writing,
    /// The updated list is on disk; the resolver restart is pending.
    Reloading,
    /// The restart failed; the persist of the original list is pending.
    RollingBack,
    /// The original list is restored; a best-effort restart is pending.
    ReloadingPrior,
    /// The updated list is live.
    Committed,
    /// The original list is back in place; the mutation was not applied.
    RolledBack,
    /// The persist of the updated list failed; nothing was reloaded.
    Aborted,
}

/// The outside action the driver must perform next.
#[derive(Clone, Copy, Debug, PartialEq, Eq, Structural)]
pub enum ReconcileAction {
    /// Overwrite the backing file with the encoding of the updated list.
    PersistUpdated,
    /// Overwrite the backing file with the encoding of the original list.
    PersistOriginal,
    /// Restart the resolver service and report whether it succeeded.
    Restart,
    /// The run is over; report the outcome to the caller.
    Report,
}

/// How a finished reconciliation ended.
#[derive(Clone, Copy, Debug, PartialEq, Eq, Structural)]
pub enum ApplyOutcome {
    /// The updated list was persisted and the resolver accepted it.
    Success,
    /// The resolver rejected the new state; the original was restored.
    Conflict,
    /// The first persist failed; the file state is indeterminate.
    WriteFailed,
}

pub open spec fn action_of(phase: Phase) -> ReconcileAction {
    match phase {
        Phase::Writing => ReconcileAction::PersistUpdated,
        Phase::Reloading => ReconcileAction::Restart,
        Phase::RollingBack => ReconcileAction::PersistOriginal,
        Phase::ReloadingPrior => ReconcileAction::Restart,
        Phase::Committed => ReconcileAction::Report,
        Phase::RolledBack => ReconcileAction::Report,
        Phase::Aborted => ReconcileAction::Report,
    }
}

pub open spec fn outcome_of(phase: Phase) -> Option<ApplyOutcome> {
    match phase {
        Phase::Committed => Some(ApplyOutcome::Success),
        Phase::RolledBack => Some(ApplyOutcome::Conflict),
        Phase::Aborted => Some(ApplyOutcome::WriteFailed),
        _ => None,
    }
}

/// One in-flight reconciliation: the list loaded at the start of the
/// request, the list the caller wants, the current phase, and the ghost
/// model of the backing file.
pub struct Reconciler {
    pub original: Vec<Entry>,
    pub updated: Vec<Entry>,
    pub phase: Phase,
    /// Model of the backing file's contents, meaningful when
    /// `file_known` holds.
    pub file: Ghost<Seq<char>>,
    /// Whether the model tracks the file: cleared by a failed persist.
    pub file_known: Ghost<bool>,
}

impl Reconciler {
    /// Well-formedness: what each phase guarantees of the backing file.
    pub open spec fn wf(self) -> bool {
        match self.phase {
            Phase::Writing => true,
            Phase::Reloading | Phase::Committed | Phase::RollingBack => self.file_known@
                && self.file@ == encode_list_spec(self.updated.deep_view()),
            Phase::ReloadingPrior | Phase::RolledBack => self.file_known@ ==> self.file@
                == encode_list_spec(self.original.deep_view()),
            Phase::Aborted => !self.file_known@,
        }
    }

    /// Begin a reconciliation for a mutation from `original` to
    /// `updated`; the persist of `updated` is immediately pending.
    pub fn new(original: Vec<Entry>, updated: Vec<Entry>) -> (r: Reconciler)
        ensures
            r.wf(),
            r.phase == Phase::Writing,
            r.original == original,
            r.updated == updated,
            !r.file_known@,
    {
        Reconciler {
            original,
            updated,
            phase: Phase::Writing,
            file: Ghost(Seq::empty()),
            file_known: Ghost(false),
        }
    }

    /// The outside action the driver must perform next.
    pub fn pending_action(&self) -> (a: ReconcileAction)
        ensures
            a == action_of(self.phase),
    {
        match self.phase {
            Phase::Writing => ReconcileAction::PersistUpdated,
            Phase::Reloading => ReconcileAction::Restart,
            Phase::RollingBack => ReconcileAction::PersistOriginal,
            Phase::ReloadingPrior => ReconcileAction::Restart,
            Phase::Committed => ReconcileAction::Report,
            Phase::RolledBack => ReconcileAction::Report,
            Phase::Aborted => ReconcileAction::Report,
        }
    }

    /// React to the outcome of a demanded persist. A success pins the
    /// file model to the encoding of the persisted list; a failure
    /// leaves the file indeterminate. A failed first persist aborts the
    /// run with no reload attempt; the rollback persist proceeds to the
    /// best-effort restart either way.
    pub fn on_persist_result(&mut self, ok: bool)
        requires
            old(self).wf(),
            action_of(old(self).phase) == ReconcileAction::PersistUpdated || action_of(
                old(self).phase,
            ) == ReconcileAction::PersistOriginal,
        ensures
            final(self).wf(),
            final(self).original == old(self).original,
            final(self).updated == old(self).updated,
            old(self).phase == Phase::Writing && ok ==> final(self).phase == Phase::Reloading,
            old(self).phase == Phase::Writing && !ok ==> final(self).phase == Phase::Aborted,
            old(self).phase == Phase::RollingBack ==> final(self).phase == Phase::ReloadingPrior,
            ok ==> final(self).file_known@,
            ok && old(self).phase == Phase::Writing ==> final(self).file@ == encode_list_spec(
                old(self).updated.deep_view(),
            ),
            ok && old(self).phase == Phase::RollingBack ==> final(self).file@ == encode_list_spec(
                old(self).original.deep_view(),
            ),
            !ok ==> !final(self).file_known@,
    {
        match self.phase {
            Phase::Writing => {
                if ok {
                    self.file = Ghost(encode_list_spec(self.updated.deep_view()));
                    self.file_known = Ghost(true);
                    self.phase = Phase::Reloading;
                } else {
                    self.file_known = Ghost(false);
                    self.phase = Phase::Aborted;
                }
            },
            Phase::RollingBack => {
                if ok {
                    self.file = Ghost(encode_list_spec(self.original.deep_view()));
                    self.file_known = Ghost(true);
                } else {
                    self.file_known = Ghost(false);
                }
                self.phase = Phase::ReloadingPrior;
            },
            _ => {
                proof {
                    assert(false);
                }
            },
        }
    }

    /// React to the outcome of a demanded restart. After the first
    /// restart, success commits and failure starts the rollback; the
    /// best-effort restart after a restore ends the run as rolled back
    /// whatever its outcome. A restart never changes the file.
    pub fn on_restart_result(&mut self, ok: bool)
        requires
            old(self).wf(),
            action_of(old(self).phase) == ReconcileAction::Restart,
        ensures
            final(self).wf(),
            final(self).original == old(self).original,
            final(self).updated == old(self).updated,
            final(self).file == old(self).file,
            final(self).file_known == old(self).file_known,
            old(self).phase == Phase::Reloading && ok ==> final(self).phase == Phase::Committed,
            old(self).phase == Phase::Reloading && !ok ==> final(self).phase == Phase::RollingBack,
            old(self).phase == Phase::ReloadingPrior ==> final(self).phase == Phase::RolledBack,
    {
        match self.phase {
            Phase::Reloading => {
                if ok {
                    self.phase = Phase::Committed;
                } else {
                    self.phase = Phase::RollingBack;
                }
            },
            Phase::ReloadingPrior => {
                self.phase = Phase::RolledBack;
            },
            _ => {
                proof {
                    assert(false);
                }
            },
        }
    }

    /// The run's outcome, once a terminal phase is reached.
    pub fn outcome(&self) -> (r: Option<ApplyOutcome>)
        ensures
            r == outcome_of(self.phase),
    {
        match self.phase {
            Phase::Committed => Some(ApplyOutcome::Success),
            Phase::RolledBack => Some(ApplyOutcome::Conflict),
            Phase::Aborted => Some(ApplyOutcome::WriteFailed),
            _ => None,
        }
    }
}

/// Rollback invariant: a reconciliation that ends rolled back with its
/// restore persist performed leaves the backing file holding exactly the
/// encoding of the original list — and its outcome reports the conflict.
pub proof fn lemma_rollback_restores_original(r: Reconciler)
    requires
        r.wf(),
        r.phase == Phase::RolledBack,
        r.file_known@,
    ensures
        r.file@ == encode_list_spec(r.original.deep_view()),
        outcome_of(r.phase) == Some(ApplyOutcome::Conflict),
{
}

/// Commit invariant: a committed reconciliation leaves the backing file
/// holding exactly the encoding of the updated list.
pub proof fn lemma_commit_applies_updated(r: Reconciler)
    requires
        r.wf(),
        r.phase == Phase::Committed,
    ensures
        r.file_known@,
        r.file@ == encode_list_spec(r.updated.deep_view()),
        outcome_of(r.phase) == Some(ApplyOutcome::Success),
{
}

} // verus!
