use shared::error::Error;
use shared::migration::MigrationManager;

fn names(list: &[&str]) -> Vec<String> {
    list.iter().map(|s| s.to_string()).collect()
}

fn manager() -> MigrationManager {
    MigrationManager::new("migrations".to_string())
}

#[test]
fn version_from_up_file_reads_prefix() {
    assert_eq!(MigrationManager::extract_version_from_up_file("1_init.up.sql"), Some(1));
    assert_eq!(MigrationManager::extract_version_from_up_file("20240101_add_email.up.sql"), Some(20240101));
    assert_eq!(MigrationManager::extract_version_from_up_file("10.up.sql"), Some(10));
    assert_eq!(MigrationManager::extract_version_from_up_file("7.up.sql.up.sql"), Some(7));
    assert_eq!(MigrationManager::extract_version_from_up_file("+7_a.up.sql"), Some(7));
    assert_eq!(MigrationManager::extract_version_from_up_file("-3_a.up.sql"), Some(-3));
    assert_eq!(MigrationManager::extract_version_from_up_file("007_a.up.sql"), Some(7));
}

#[test]
fn version_from_up_file_rejects_non_numbers() {
    assert_eq!(MigrationManager::extract_version_from_up_file("init_1.up.sql"), None);
    assert_eq!(MigrationManager::extract_version_from_up_file("_1.up.sql"), None);
    assert_eq!(MigrationManager::extract_version_from_up_file("-_a.up.sql"), None);
    assert_eq!(MigrationManager::extract_version_from_up_file("1a_x.up.sql"), None);
    assert_eq!(MigrationManager::extract_version_from_up_file(""), None);
}

#[test]
fn version_from_up_file_range_limits() {
    assert_eq!(
        MigrationManager::extract_version_from_up_file("9223372036854775807_max.up.sql"),
        Some(i64::MAX)
    );
    assert_eq!(
        MigrationManager::extract_version_from_up_file("-9223372036854775808_min.up.sql"),
        Some(i64::MIN)
    );
    assert_eq!(MigrationManager::extract_version_from_up_file("9223372036854775808_x.up.sql"), None);
    assert_eq!(MigrationManager::extract_version_from_up_file("99999999999999999999999_x.up.sql"), None);
}

#[test]
fn version_from_down_file_reads_prefix() {
    assert_eq!(MigrationManager::extract_version_from_down_file("3_drop.down.sql"), Some(3));
    assert_eq!(MigrationManager::extract_version_from_down_file("x_drop.down.sql"), None);
}

#[test]
fn up_files_are_filtered_and_sorted() {
    let m = manager();
    let files = names(&["2_b.up.sql", "1_a.down.sql", "notes.txt", "10_c.up.sql", "1_a.up.sql"]);
    assert_eq!(
        m.extract_up_migration_files(&files),
        names(&["10_c.up.sql", "1_a.up.sql", "2_b.up.sql"])
    );
    assert_eq!(m.extract_up_migration_files(&Vec::new()), Vec::<String>::new());
}

#[test]
fn down_files_are_filtered_and_sorted_descending() {
    let m = manager();
    let files = names(&["1_a.down.sql", "2_b.up.sql", "2_b.down.sql", "10_c.down.sql"]);
    assert_eq!(
        m.extract_down_migration_files(&files),
        names(&["2_b.down.sql", "1_a.down.sql", "10_c.down.sql"])
    );
}

#[test]
fn file_path_joins_directory_and_name() {
    assert_eq!(manager().migration_file_path("1_a.up.sql"), "migrations/1_a.up.sql");
    assert_eq!(manager().migrations_dir(), "migrations");
}

#[test]
fn down_file_is_paired_with_up_file() {
    let m = manager();
    let files = names(&["1_init.up.sql", "1_init.down.sql", "2_add.up.sql"]);
    assert_eq!(m.find_down_file_for_up("1_init.up.sql", &files), Some("1_init.down.sql".to_string()));
    assert_eq!(m.find_down_file_for_up("2_add.up.sql", &files), None);
}

#[test]
fn pending_is_difference_in_ascending_order() {
    let m = manager();
    let ups = names(&["10_c.up.sql", "1_a.up.sql", "2_b.up.sql", "x_bad.up.sql", "3_d.up.sql"]);
    let pending = m.find_pending_up_migrations(&ups, &vec![2]);
    assert_eq!(
        pending,
        vec![
            (1, "1_a.up.sql".to_string()),
            (3, "3_d.up.sql".to_string()),
            (10, "10_c.up.sql".to_string()),
        ]
    );
}

#[test]
fn pending_after_apply_is_empty() {
    let m = manager();
    let ups = names(&["1_a.up.sql", "2_b.up.sql", "3_c.up.sql"]);
    let mut applied = vec![1];
    let pending = m.find_pending_up_migrations(&ups, &applied);
    assert_eq!(pending.len(), 2);
    for (v, _) in &pending {
        applied.push(*v);
    }
    assert!(m.find_pending_up_migrations(&ups, &applied).is_empty());
}

#[test]
fn apply_when_current_has_no_steps() {
    let m = manager();
    let ups = names(&["1_a.up.sql", "2_b.up.sql"]);
    assert!(m.find_pending_up_migrations(&ups, &vec![1, 2]).is_empty());
    assert!(m.find_pending_up_migrations(&Vec::new(), &vec![]).is_empty());
}

#[test]
fn rollback_removes_versions_above_target_descending() {
    let downs = names(&["3_c.down.sql", "2_b.down.sql", "1_a.down.sql"]);
    let plan = MigrationManager::rollback_to(1, &vec![1, 2, 3], &downs);
    assert_eq!(
        plan.steps,
        vec![(3, "3_c.down.sql".to_string()), (2, "2_b.down.sql".to_string())]
    );
    assert_eq!(plan.missing, None);
    assert!(plan.outcome().is_ok());
}

#[test]
fn rollback_with_nothing_above_target_is_empty() {
    let plan = MigrationManager::rollback_to(5, &vec![1, 2, 3], &Vec::new());
    assert!(plan.steps.is_empty());
    assert_eq!(plan.missing, None);
    assert!(plan.outcome().is_ok());
}

#[test]
fn rollback_stops_at_missing_down_file() {
    let downs = names(&["3_c.down.sql", "1_a.down.sql"]);
    let plan = MigrationManager::rollback_to(0, &vec![1, 2, 3], &downs);
    assert_eq!(plan.steps, vec![(3, "3_c.down.sql".to_string())]);
    assert_eq!(plan.missing, Some(2));
    match plan.outcome() {
        Err(Error::NotFound(msg)) => assert_eq!(msg, "down file not found"),
        _ => panic!("expected NotFound"),
    }
}

#[test]
fn example_directory_scenario() {
    let m = manager();
    let files = names(&["1_init.up.sql", "1_init.down.sql", "2_add_email.up.sql"]);
    let ups = m.extract_up_migration_files(&files);
    let mut applied: Vec<i64> = Vec::new();
    let pending = m.find_pending_up_migrations(&ups, &applied);
    assert_eq!(
        pending,
        vec![(1, "1_init.up.sql".to_string()), (2, "2_add_email.up.sql".to_string())]
    );
    for (v, _) in &pending {
        applied.push(*v);
    }
    assert_eq!(applied, vec![1, 2]);
    let downs = m.extract_down_migration_files(&files);
    let plan = MigrationManager::rollback_to(0, &applied, &downs);
    assert!(plan.steps.is_empty());
    assert_eq!(plan.missing, Some(2));
    assert!(matches!(plan.outcome(), Err(Error::NotFound(_))));
}

#[test]
fn pending_keeps_files_that_share_a_version() {
    let m = manager();
    let ups = names(&["2_x.up.sql", "1_b.up.sql", "1_a.up.sql"]);
    let pending = m.find_pending_up_migrations(&ups, &vec![]);
    assert_eq!(pending.len(), 3);
    assert_eq!(pending[0].0, 1);
    assert_eq!(pending[1].0, 1);
    assert_eq!(pending[2], (2, "2_x.up.sql".to_string()));
}

#[test]
fn rollback_takes_first_down_file_in_descending_order() {
    let m = manager();
    let files = names(&["2_a.down.sql", "2_z.down.sql"]);
    let downs = m.extract_down_migration_files(&files);
    let plan = MigrationManager::rollback_to(1, &vec![1, 2], &downs);
    assert_eq!(plan.steps, vec![(2, "2_z.down.sql".to_string())]);
}
