use migrate::loader::{extract_id, extract_prefix};

#[test]
fn test_extract_prefix() {
    assert_eq!(extract_prefix("001-init.sh"), Some(1));
    assert_eq!(extract_prefix("123-something.ts"), Some(123));
    assert_eq!(extract_prefix("999-last.py"), Some(999));
    assert_eq!(extract_prefix("ab-invalid.sh"), None);
    assert_eq!(extract_prefix("1-short.sh"), None);
}

#[test]
fn extract_prefix_edge_cases() {
    assert_eq!(extract_prefix(""), None);
    assert_eq!(extract_prefix("12"), None);
    assert_eq!(extract_prefix("+12-x.sh"), Some(12));
    assert_eq!(extract_prefix("-12-x.sh"), None);
    assert_eq!(extract_prefix("0a0-x.sh"), None);
}

#[test]
fn test_extract_id() {
    assert_eq!(extract_id("001-init.sh"), "001-init");
    assert_eq!(extract_id("002-add-config.ts"), "002-add-config");
    assert_eq!(extract_id("003-no-extension"), "003-no-extension");
}

#[test]
fn extract_id_uses_last_dot() {
    assert_eq!(extract_id("004-a.b.sh"), "004-a.b");
    assert_eq!(extract_id(".hidden"), "");
}
