//! Forward-only schema migration of the path store.
//!
//! The store records how many migration steps have been applied as a single
//! counter. A [`SchemaMigrator`] decides, from that counter, which step is to
//! run next; the caller runs it inside one transaction and reports whether the
//! transaction committed.

use vstd::prelude::*;

verus! {

/// Number of migration steps that this version of the library knows.
pub const MIGRATION_STEP_COUNT: u32 = 1;

/// The statement of the first step: it creates the table of path records,
/// unless the table is there already.
pub open spec fn create_paths_table() -> Seq<char> {
    "CREATE TABLE IF NOT EXISTS world_paths (
    id INTEGER NOT NULL,
    path TEXT NOT NULL,
    PRIMARY KEY('id')
  );"@
}

/// The statement that brings the store from version `index` to `index + 1`.
pub fn migration_statement(index: u32) -> (r: &'static str)
    requires
        index < MIGRATION_STEP_COUNT,
    ensures
        r@ == create_paths_table(),
{
    "CREATE TABLE IF NOT EXISTS world_paths (
    id INTEGER NOT NULL,
    path TEXT NOT NULL,
    PRIMARY KEY('id')
  );"
}

/// Why an upgrade of the store stopped.
#[derive(Debug, Clone, Copy, PartialEq, Eq, Structural)]
pub enum MigrationError {
    /// The store was written by a later version of the library.
    UnsupportedVersion { found: u32 },
    /// The step with this index was rolled back.
    StepFailed { step: u32 },
}

/// What the caller is to do next while upgrading the store.
#[derive(Debug, Clone, Copy, PartialEq, Eq, Structural)]
pub enum UpgradeAction {
    /// The store is at the current version: nothing is left to do.
    Finished,
    /// Run the step with this index and its version update in one transaction.
    ApplyStep { index: u32 },
    /// Stop with this error.
    Fail { error: MigrationError },
}

/// Progress of one upgrade of the store.
#[derive(Debug, Clone, Copy, PartialEq, Eq, Structural)]
pub struct SchemaMigrator {
    /// The version that the store holds now.
    pub version: u32,
    /// Whether the last step was rolled back.
    pub failed: bool,
}

/// The action that a migrator in state `m` asks for.
pub open spec fn action_of(m: SchemaMigrator) -> UpgradeAction {
    if m.failed {
        UpgradeAction::Fail { error: MigrationError::StepFailed { step: m.version } }
    } else if m.version > MIGRATION_STEP_COUNT {
        UpgradeAction::Fail { error: MigrationError::UnsupportedVersion { found: m.version } }
    } else if m.version == MIGRATION_STEP_COUNT {
        UpgradeAction::Finished
    } else {
        UpgradeAction::ApplyStep { index: m.version }
    }
}

/// The state after the step that `m` asked for committed (`true`) or was
/// rolled back (`false`).
pub open spec fn after_step(m: SchemaMigrator, committed: bool) -> SchemaMigrator {
    if committed {
        SchemaMigrator { version: (m.version + 1) as u32, failed: false }
    } else {
        SchemaMigrator { version: m.version, failed: true }
    }
}

/// The state that an upgrade reaches from `m` when the steps it runs have the
/// outcomes `outcomes`, one for each step, in order.
pub open spec fn run_upgrade(m: SchemaMigrator, outcomes: Seq<bool>) -> SchemaMigrator
    decreases outcomes.len(),
{
    if action_of(m) is ApplyStep && outcomes.len() > 0 {
        run_upgrade(after_step(m, outcomes[0]), outcomes.drop_first())
    } else {
        m
    }
}

/// The state in which an upgrade starts on a store at `version`.
pub open spec fn fresh(version: u32) -> SchemaMigrator {
    SchemaMigrator { version, failed: false }
}

impl SchemaMigrator {
    /// Starts an upgrade of a store whose counter reads `stored_version`.
    pub fn new(stored_version: u32) -> (r: SchemaMigrator)
        ensures
            r == fresh(stored_version),
    {
        SchemaMigrator { version: stored_version, failed: false }
    }

    /// The action to perform next.
    pub fn next_action(&self) -> (r: UpgradeAction)
        ensures
            r == action_of(*self),
    {
        if self.failed {
            UpgradeAction::Fail { error: MigrationError::StepFailed { step: self.version } }
        } else if self.version > MIGRATION_STEP_COUNT {
            UpgradeAction::Fail {
                error: MigrationError::UnsupportedVersion { found: self.version },
            }
        } else if self.version == MIGRATION_STEP_COUNT {
            UpgradeAction::Finished
        } else {
            UpgradeAction::ApplyStep { index: self.version }
        }
    }

    /// Records the outcome of the step that [`SchemaMigrator::next_action`]
    /// asked for. A committed step advances the version by one; a rolled-back
    /// step leaves it where it was.
    pub fn record_step(&mut self, committed: bool)
        requires
            action_of(*old(self)) is ApplyStep,
        ensures
            *final(self) == after_step(*old(self), committed),
    {
        if committed {
            self.version = self.version + 1;
        } else {
            self.failed = true;
        }
    }

    /// The version that the store holds now.
    pub fn version(&self) -> (r: u32)
        ensures
            r == self.version,
    {
        self.version
    }
}

/// Upgrading a store that an upgrade has just brought to the current version
/// runs no step and leaves its version as it is, whatever the outcomes handed
/// to the second run.
pub proof fn lemma_upgrade_twice_is_noop(start: u32, first: Seq<bool>, second: Seq<bool>)
    requires
        action_of(run_upgrade(fresh(start), first)) is Finished,
    ensures
        run_upgrade(fresh(run_upgrade(fresh(start), first).version), second)
            == fresh(run_upgrade(fresh(start), first).version),
        run_upgrade(fresh(start), first).version == MIGRATION_STEP_COUNT,
{
    let v = run_upgrade(fresh(start), first).version;
    assert(action_of(fresh(v)) is Finished);
    if second.len() > 0 {
        assert(!(action_of(fresh(v)) is ApplyStep));
    }
}

/// An upgrade that ends in a failed step
/// leaves the version that the store held before that step: every step before
/// it committed, and the step at that version was rolled back.
pub proof fn lemma_failed_step_keeps_version(start: u32, outcomes: Seq<bool>)
    requires
        run_upgrade(fresh(start), outcomes).failed,
    ensures
        ({
            let end = run_upgrade(fresh(start), outcomes);
            let k = end.version - start;
            &&& start <= end.version < MIGRATION_STEP_COUNT
            &&& k < outcomes.len()
            &&& !outcomes[k]
            &&& forall|i: int| 0 <= i < k ==> outcomes[i]
        }),
    decreases outcomes.len(),
{
    let m = fresh(start);
    if action_of(m) is ApplyStep && outcomes.len() > 0 {
        if outcomes[0] {
            let rest = outcomes.drop_first();
            assert(after_step(m, true) == fresh((start + 1) as u32));
            lemma_failed_step_keeps_version((start + 1) as u32, rest);
            let end = run_upgrade(fresh(start), outcomes);
            let k = end.version - start;
            assert forall|i: int| 0 <= i < k implies outcomes[i] by {
                if i > 0 {
                    assert(outcomes[i] == rest[i - 1]);
                }
            }
            assert(outcomes[k] == rest[k - 1]);
        } else {
            let f = after_step(m, false);
            assert(!(action_of(f) is ApplyStep));
            assert(run_upgrade(f, outcomes.drop_first()) == f);
        }
    }
}

} // verus!
