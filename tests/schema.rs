use mc_world_manager::schema::{
    migration_statement, MigrationError, SchemaMigrator, UpgradeAction, MIGRATION_STEP_COUNT,
};

fn run(start: u32, outcomes: &[bool]) -> (SchemaMigrator, UpgradeAction, usize) {
    let mut m = SchemaMigrator::new(start);
    let mut used = 0;
    loop {
        match m.next_action() {
            UpgradeAction::ApplyStep { index } => {
                assert_eq!(index, m.version());
                assert!(!migration_statement(index).is_empty());
                let ok = outcomes.get(used).copied().unwrap_or(true);
                used += 1;
                m.record_step(ok);
            }
            other => return (m, other, used),
        }
    }
}

#[test]
fn fresh_store_is_upgraded_to_current_version() {
    let (m, action, used) = run(0, &[]);
    assert_eq!(action, UpgradeAction::Finished);
    assert_eq!(m.version(), MIGRATION_STEP_COUNT);
    assert_eq!(used, MIGRATION_STEP_COUNT as usize);
}

#[test]
fn second_upgrade_is_noop() {
    let (first, _, _) = run(0, &[]);
    let (second, action, used) = run(first.version(), &[]);
    assert_eq!(action, UpgradeAction::Finished);
    assert_eq!(used, 0);
    assert_eq!(second.version(), first.version());
}

#[test]
fn failed_step_keeps_version() {
    let (m, action, used) = run(0, &[false]);
    assert_eq!(used, 1);
    assert_eq!(m.version(), 0);
    assert_eq!(action, UpgradeAction::Fail { error: MigrationError::StepFailed { step: 0 } });
}

#[test]
fn later_version_is_unsupported() {
    let m = SchemaMigrator::new(MIGRATION_STEP_COUNT + 1);
    assert_eq!(
        m.next_action(),
        UpgradeAction::Fail {
            error: MigrationError::UnsupportedVersion { found: MIGRATION_STEP_COUNT + 1 }
        }
    );
}

#[test]
fn first_step_creates_path_table() {
    assert!(migration_statement(0).contains("CREATE TABLE IF NOT EXISTS world_paths"));
}
