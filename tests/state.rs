use migrate::history::{
    flatten_newlines, format_applied_line, format_baseline_line, parse_legacy_baseline,
    upgrade_log_content,
};
use migrate::state::{
    get_current_version, get_pending, get_target_version, parse_history, Baseline, HistoryError,
    HistoryState,
};
use migrate::text::split_lines;
use migrate::timestamp::Timestamp;
use migrate::{AppliedMigration, Migration};

fn now() -> Timestamp {
    Timestamp::from_nanos(chrono::Utc::now().timestamp_nanos_opt().unwrap())
}

fn at(text: &str) -> Timestamp {
    Timestamp::parse_rfc3339(text).unwrap()
}

fn migration(id: &str, version: &str, file_path: &str) -> Migration {
    Migration { id: id.to_string(), version: version.to_string(), file_path: file_path.into() }
}

fn three() -> Vec<Migration> {
    vec![
        migration("1f700-first", "1f700", "1f700-first.sh"),
        migration("1f710-second", "1f710", "1f710-second.sh"),
        migration("1f720-third", "1f720", "1f720-third.sh"),
    ]
}

fn lines(v: &[&str]) -> Vec<String> {
    v.iter().map(|s| s.to_string()).collect()
}

#[test]
fn test_get_pending() {
    let available = three();
    let state = HistoryState {
        applied: vec![AppliedMigration { id: "1f700-first".to_string(), applied_at: now() }],
        baseline: None,
    };

    let pending = get_pending(&available, &state);
    assert_eq!(pending.len(), 2);
    assert_eq!(pending[0].id, "1f710-second");
    assert_eq!(pending[1].id, "1f720-third");
}

#[test]
fn test_get_pending_with_baseline() {
    let available = three();
    let state = HistoryState {
        applied: vec![],
        baseline: Some(Baseline { version: "1f710".to_string(), created: now(), summary: None }),
    };

    let pending = get_pending(&available, &state);
    assert_eq!(pending.len(), 1);
    assert_eq!(pending[0].id, "1f720-third");
}

#[test]
fn pending_excludes_applied_after_baseline() {
    let available = three();
    let state = HistoryState {
        applied: vec![AppliedMigration { id: "1f720-third".to_string(), applied_at: now() }],
        baseline: Some(Baseline { version: "1f700".to_string(), created: now(), summary: None }),
    };
    let pending = get_pending(&available, &state);
    assert_eq!(pending.len(), 1);
    assert_eq!(pending[0].id, "1f710-second");
}

#[test]
fn test_get_current_version() {
    let available = vec![
        migration("1f700-first", "1f700", "1f700-first.sh"),
        migration("1f710-second", "1f710", "1f710-second.sh"),
    ];

    let applied: Vec<AppliedMigration> = vec![];
    assert_eq!(get_current_version(&available, &applied), None);

    let applied = vec![AppliedMigration { id: "1f700-first".to_string(), applied_at: now() }];
    assert_eq!(get_current_version(&available, &applied), Some("1f700".to_string()));

    let applied = vec![
        AppliedMigration { id: "1f700-first".to_string(), applied_at: now() },
        AppliedMigration { id: "1f710-second".to_string(), applied_at: now() },
    ];
    assert_eq!(get_current_version(&available, &applied), Some("1f710".to_string()));
}

#[test]
fn current_version_ignores_removed_migrations() {
    let available = vec![migration("1f700-first", "1f700", "1f700-first.sh")];
    let applied = vec![
        AppliedMigration { id: "1f700-first".to_string(), applied_at: now() },
        AppliedMigration { id: "1f6ff-gone".to_string(), applied_at: now() },
    ];
    assert_eq!(get_current_version(&available, &applied), Some("1f700".to_string()));
}

#[test]
fn test_get_target_version() {
    let available: Vec<Migration> = vec![];
    assert_eq!(get_target_version(&available), None);

    let available = vec![
        migration("1f700-first", "1f700", "1f700-first.sh"),
        migration("1f710-second", "1f710", "1f710-second.sh"),
    ];
    assert_eq!(get_target_version(&available), Some("1f710".to_string()));
}

#[test]
fn test_format_baseline_line() {
    let baseline = Baseline {
        version: "1f710".to_string(),
        created: at("2024-06-15T14:30:00Z"),
        summary: None,
    };
    assert_eq!(format_baseline_line(&baseline), "baseline: 1f710 2024-06-15T14:30:00+00:00");

    let baseline_with_summary = Baseline {
        version: "1f710".to_string(),
        created: at("2024-06-15T14:30:00Z"),
        summary: Some("Initial setup\nAdded config".to_string()),
    };
    assert_eq!(
        format_baseline_line(&baseline_with_summary),
        "baseline: 1f710 2024-06-15T14:30:00+00:00 Initial setup Added config"
    );
}

#[test]
fn timestamps_read_and_write() {
    let t = at("2024-06-15T16:30:00+02:00");
    assert_eq!(t.nanos, 1_718_461_800_000_000_000);
    assert_eq!(t.to_rfc3339(), "2024-06-15T14:30:00+00:00");
    assert_eq!(at("2024-06-15T14:30:00.5Z").to_rfc3339(), "2024-06-15T14:30:00.500+00:00");
    assert!(Timestamp::parse_rfc3339("yesterday").is_none());
    assert_eq!(format_applied_line("1f700-first", t), "1f700-first 2024-06-15T14:30:00+00:00");
}

#[test]
fn flatten_replaces_every_newline() {
    assert_eq!(flatten_newlines("a\nb\n\nc\n"), "a b  c ");
    assert_eq!(flatten_newlines(""), "");
}

#[test]
fn parse_history_records() {
    let log = lines(&[
        "1f700-first 2024-06-15T14:30:00Z",
        "",
        "   ",
        "garbage",
        "baseline: 1f700 2024-06-15T15:00:00+00:00",
        "  1f710-second 2024-06-15T16:00:00+00:00  ",
        "baseline: 1f710 2024-06-15T17:00:00Z summary with  spaces",
        "baseline: incomplete",
    ]);
    let h = parse_history(&log).unwrap();
    assert_eq!(h.applied.len(), 2);
    assert_eq!(h.applied[0].id, "1f700-first");
    assert_eq!(h.applied[0].applied_at, at("2024-06-15T14:30:00Z"));
    assert_eq!(h.applied[1].id, "1f710-second");
    let b = h.baseline.unwrap();
    assert_eq!(b.version, "1f710");
    assert_eq!(b.created, at("2024-06-15T17:00:00Z"));
    assert_eq!(b.summary, Some("summary with  spaces".to_string()));
}

#[test]
fn parse_history_empty() {
    let h = parse_history(&[]).unwrap();
    assert!(h.applied.is_empty());
    assert!(h.baseline.is_none());
}

#[test]
fn parse_history_bad_applied_timestamp() {
    let log = lines(&["1f700-first 2024-06-15T14:30:00Z", "1f710-second not-a-time"]);
    match parse_history(&log) {
        Err(e @ HistoryError::InvalidAppliedTimestamp { .. }) => {
            assert_eq!(e.message(), "Invalid timestamp in history file: not-a-time");
        }
        other => panic!("unexpected {:?}", other.map(|h| h.applied.len())),
    }
}

#[test]
fn parse_history_bad_baseline_timestamp() {
    let log = lines(&["baseline: 1f700 soon", "1f710-second also-bad"]);
    match parse_history(&log) {
        Err(e @ HistoryError::InvalidBaselineTimestamp { .. }) => {
            assert_eq!(e.message(), "Invalid timestamp in baseline: soon");
        }
        other => panic!("unexpected {:?}", other.map(|h| h.applied.len())),
    }
}

#[test]
fn split_lines_as_std() {
    for text in ["", "a", "a\n", "a\r\nb", "a\n\nb\n", "x\r", "\n", "a\rb\n"] {
        let expected: Vec<String> = text.lines().map(|l| l.to_string()).collect();
        assert_eq!(split_lines(text), expected, "{:?}", text);
    }
}

#[test]
fn legacy_baseline_with_block_summary() {
    let text = "version: 1f710\ncreated: 2024-06-15T14:30:00Z\nsummary: |\n  Initial setup\n    indented\n\n Added config\n\n";
    let b = parse_legacy_baseline(&split_lines(text)).unwrap().unwrap();
    assert_eq!(b.version, "1f710");
    assert_eq!(b.created, at("2024-06-15T14:30:00Z"));
    assert_eq!(b.summary, Some("Initial setup\n  indented\n\nAdded config".to_string()));
}

#[test]
fn legacy_baseline_block_closed_by_key() {
    let text = "summary: |\n  one\n  two\nversion:  1f700  \ncreated: 2024-06-15T14:30:00Z\n";
    let b = parse_legacy_baseline(&split_lines(text)).unwrap().unwrap();
    assert_eq!(b.version, "1f700");
    assert_eq!(b.summary, Some("one\ntwo".to_string()));
}

#[test]
fn legacy_baseline_inline_summary_and_missing_keys() {
    let text = "version: 1f700\ncreated: 2024-06-15T14:30:00Z\nsummary: short\n";
    let b = parse_legacy_baseline(&split_lines(text)).unwrap().unwrap();
    assert_eq!(b.summary, Some("short".to_string()));

    let text = "version: 1f700\nsummary: short\n";
    assert!(parse_legacy_baseline(&split_lines(text)).unwrap().is_none());

    let text = "version: 1f700\ncreated: later\n";
    assert!(matches!(
        parse_legacy_baseline(&split_lines(text)),
        Err(HistoryError::InvalidBaselineTimestamp { .. })
    ));
}

#[test]
fn legacy_upgrade_content() {
    let legacy_history = "1f700-first 2024-06-15T14:30:00Z\n1f710-second 2024-06-15T15:00:00Z";
    let legacy_baseline = "version: 1f710\ncreated: 2024-06-15T16:00:00Z\nsummary: |\n  Initial setup\n  Added config\n";
    let b = parse_legacy_baseline(&split_lines(legacy_baseline)).unwrap().unwrap();
    let content = upgrade_log_content(legacy_history, Some(&b));
    assert_eq!(
        content,
        "1f700-first 2024-06-15T14:30:00Z\n1f710-second 2024-06-15T15:00:00Z\nbaseline: 1f710 2024-06-15T16:00:00+00:00 Initial setup Added config\n"
    );
    let h = parse_history(&split_lines(&content)).unwrap();
    assert_eq!(h.applied.len(), 2);
    let hb = h.baseline.unwrap();
    assert_eq!(hb.version, "1f710");
    assert_eq!(hb.summary, Some("Initial setup Added config".to_string()));
    // Reading the same log again gives the same state.
    let again = parse_history(&split_lines(&content)).unwrap();
    assert_eq!(again.applied.len(), 2);
    assert_eq!(again.baseline.unwrap().summary, Some("Initial setup Added config".to_string()));

    assert_eq!(upgrade_log_content("a 2024-06-15T14:30:00Z\n", None), "a 2024-06-15T14:30:00Z\n");
    assert_eq!(
        upgrade_log_content("", Some(&b)),
        "baseline: 1f710 2024-06-15T16:00:00+00:00 Initial setup Added config\n"
    );
}
