use migrate::baseline::{
    cleanup_targets, deleted_items, validate_baseline, version_lte, BaselineError,
};
use migrate::state::Baseline;
use migrate::timestamp::Timestamp;
use migrate::{AppliedMigration, Migration};

fn now() -> Timestamp {
    Timestamp::from_nanos(chrono::Utc::now().timestamp_nanos_opt().unwrap())
}

fn migration(id: &str, version: &str, file_path: &str) -> Migration {
    Migration { id: id.to_string(), version: version.to_string(), file_path: file_path.to_string() }
}

fn applied(id: &str) -> AppliedMigration {
    AppliedMigration { id: id.to_string(), applied_at: now() }
}

#[test]
fn test_version_lte() {
    assert!(version_lte("1f700", "1f700"));
    assert!(version_lte("1f700", "1f710"));
    assert!(!version_lte("1f710", "1f700"));
    assert!(version_lte("00000", "zzzzz"));
}

#[test]
fn version_lte_prefix_and_lengths() {
    assert!(version_lte("", ""));
    assert!(version_lte("", "a"));
    assert!(!version_lte("a", ""));
    assert!(version_lte("1f7", "1f700"));
    assert!(!version_lte("1f700", "1f7"));
    assert!(version_lte("1f700", "2"));
    assert!(version_lte("Z", "a"));
    assert!(!version_lte("b", "ab"));
}

#[test]
fn test_validate_baseline_no_matching_migration() {
    let available = vec![migration("1f700-first", "1f700", "1f700-first.sh")];
    let applied: Vec<AppliedMigration> = vec![];

    let result = validate_baseline("1f800", &available, &applied, None);
    assert!(result.is_err());
    assert!(result.unwrap_err().message().contains("No migration found"));
}

#[test]
fn test_validate_baseline_unapplied_migration() {
    let available = vec![
        migration("1f700-first", "1f700", "1f700-first.sh"),
        migration("1f710-second", "1f710", "1f710-second.sh"),
    ];
    let applied = vec![applied("1f710-second")];

    let result = validate_baseline("1f710", &available, &applied, None);
    assert!(result.is_err());
    assert!(result.unwrap_err().message().contains("has not been applied"));
}

#[test]
fn test_validate_baseline_backward_movement() {
    let available = vec![
        migration("1f700-first", "1f700", "1f700-first.sh"),
        migration("1f710-second", "1f710", "1f710-second.sh"),
    ];
    let applied = vec![applied("1f700-first"), applied("1f710-second")];
    let existing = Baseline { version: "1f710".to_string(), created: now(), summary: None };

    let result = validate_baseline("1f700", &available, &applied, Some(&existing));
    assert!(result.is_err());
    assert!(result.unwrap_err().message().contains("backward"));
}

#[test]
fn test_validate_baseline_success() {
    let available = vec![
        migration("1f700-first", "1f700", "1f700-first.sh"),
        migration("1f710-second", "1f710", "1f710-second.sh"),
    ];
    let applied = vec![applied("1f700-first"), applied("1f710-second")];

    let result = validate_baseline("1f710", &available, &applied, None);
    assert!(result.is_ok());
}

#[test]
fn validate_at_existing_baseline_version_succeeds() {
    let available = vec![
        migration("1f700-first", "1f700", "1f700-first.sh"),
        migration("1f710-second", "1f710", "1f710-second.sh"),
    ];
    let applied = vec![applied("1f700-first"), applied("1f710-second")];
    let existing = Baseline { version: "1f710".to_string(), created: now(), summary: None };
    assert!(validate_baseline("1f710", &available, &applied, Some(&existing)).is_ok());
}

#[test]
fn validate_error_precedence_and_messages() {
    let available = vec![
        migration("1f700-first", "1f700", "1f700-first.sh"),
        migration("1f710-second", "1f710", "1f710-second.sh"),
    ];
    let none: Vec<AppliedMigration> = vec![];
    let existing = Baseline { version: "1f710".to_string(), created: now(), summary: None };

    // No match comes before a backward move.
    match validate_baseline("1f6ff", &available, &none, Some(&existing)) {
        Err(e @ BaselineError::NoMatchingMigration { .. }) => {
            assert_eq!(e.message(), "No migration found with version '1f6ff'");
        }
        other => panic!("unexpected {:?}", other),
    }
    // A backward move comes before an unapplied migration.
    match validate_baseline("1f700", &available, &none, Some(&existing)) {
        Err(e @ BaselineError::MovesBackward { .. }) => {
            assert_eq!(e.message(), "Cannot move baseline backward from '1f710' to '1f700'");
        }
        other => panic!("unexpected {:?}", other),
    }
    // The first unapplied migration is named.
    match validate_baseline("1f710", &available, &none, None) {
        Err(e @ BaselineError::NotApplied { .. }) => {
            assert_eq!(e.message(), "Cannot baseline: migration '1f700-first' has not been applied");
        }
        other => panic!("unexpected {:?}", other),
    }
    // Migrations after the version need not be applied.
    let first = vec![applied("1f700-first")];
    assert!(validate_baseline("1f700", &available, &first, None).is_ok());
}

#[test]
fn cleanup_targets_with_asset_dirs() {
    let available = vec![
        migration("1f700-first", "1f700", "/tmp/m/1f700-first.sh"),
        migration("1f710-second", "1f710", "/tmp/m/1f710-second.sh"),
    ];
    let targets = cleanup_targets("1f710", &available);
    let paths: Vec<(String, bool)> =
        targets.iter().map(|t| (t.path.clone(), t.is_directory)).collect();
    assert_eq!(
        paths,
        vec![
            ("/tmp/m/1f700-first.sh".to_string(), false),
            ("/tmp/m/1f700-first".to_string(), true),
            ("/tmp/m/1f710-second.sh".to_string(), false),
            ("/tmp/m/1f710-second".to_string(), true),
        ]
    );

    // Both scripts and the first asset directory exist.
    let deleted = deleted_items(&targets, &[true, true, true, false]);
    assert_eq!(deleted.len(), 3);
    let files: Vec<_> = deleted.iter().filter(|d| !d.is_directory).collect();
    let dirs: Vec<_> = deleted.iter().filter(|d| d.is_directory).collect();
    assert_eq!(files.len(), 2);
    assert_eq!(dirs.len(), 1);
    assert_eq!(dirs[0].path, "/tmp/m/1f700-first");
}

#[test]
fn cleanup_targets_no_asset_dir() {
    let available = vec![migration("1f700-first", "1f700", "1f700-first.sh")];
    let targets = cleanup_targets("1f700", &available);
    assert_eq!(targets.len(), 2);
    assert_eq!(targets[1].path, "1f700-first");
    let deleted = deleted_items(&targets, &[true, false]);
    assert_eq!(deleted.len(), 1);
    assert!(!deleted[0].is_directory);
    assert_eq!(deleted[0].path, "1f700-first.sh");
}

#[test]
fn cleanup_skips_later_versions() {
    let available = vec![
        migration("1f700-first", "1f700", "m/1f700-first.sh"),
        migration("1f720-third", "1f720", "m/1f720-third.sh"),
    ];
    let targets = cleanup_targets("1f710", &available);
    assert_eq!(targets.len(), 2);
    assert_eq!(targets[0].path, "m/1f700-first.sh");
    assert_eq!(targets[1].path, "m/1f700-first");
}

#[test]
fn cleanup_second_run_removes_nothing() {
    let available = vec![
        migration("1f700-first", "1f700", "m/1f700-first.sh"),
        migration("1f710-second", "1f710", "m/1f710-second.sh"),
    ];
    let targets = cleanup_targets("1f710", &available);
    let none = vec![false; targets.len()];
    assert!(deleted_items(&targets, &none).is_empty());
}

#[test]
fn baseline_then_cleanup_scenario() {
    let available = vec![
        migration("1f700-first", "1f700", "m/1f700-first.sh"),
        migration("1f710-second", "1f710", "m/1f710-second.sh"),
    ];
    let applied = vec![applied("1f700-first"), applied("1f710-second")];
    assert!(validate_baseline("1f710", &available, &applied, None).is_ok());
    let targets = cleanup_targets("1f710", &available);
    // Without asset directories: the two scripts.
    assert_eq!(deleted_items(&targets, &[true, false, true, false]).len(), 2);
    // With an asset directory for the first migration: three items.
    assert_eq!(deleted_items(&targets, &[true, true, true, false]).len(), 3);
}
