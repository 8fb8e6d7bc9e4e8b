use mechanix_shell::helper::{
    format_elapsed, format_notification_body, format_notification_name,
    format_notification_summary, parse_actions, should_auto_hide, time_ago,
};

#[test]
fn time_ago_under_a_minute_is_now() {
    assert_eq!(time_ago(100, 100), "now");
    assert_eq!(time_ago(159, 100), "now");
}

#[test]
fn time_ago_minutes() {
    assert_eq!(time_ago(160, 100), "1m");
    assert_eq!(time_ago(400, 100), "5m");
    assert_eq!(time_ago(3599, 0), "59m");
}

#[test]
fn time_ago_hours() {
    assert_eq!(time_ago(3600, 0), "1hr");
    assert_eq!(time_ago(3 * 3600 + 50, 0), "3hr");
    assert_eq!(time_ago(86399, 0), "23hr");
}

#[test]
fn time_ago_days() {
    assert_eq!(time_ago(86400, 0), "1d");
    assert_eq!(time_ago(2 * 86400 + 5, 0), "2d");
    assert_eq!(time_ago(u64::MAX, 0), format!("{}d", u64::MAX / 86400));
}

#[test]
fn time_ago_future_timestamp_is_now() {
    assert_eq!(time_ago(100, 5000), "now");
}

#[test]
fn format_elapsed_labels() {
    assert_eq!(format_elapsed(None), "now");
    assert_eq!(format_elapsed(Some(30)), "now");
    assert_eq!(format_elapsed(Some(120)), "2m");
    assert_eq!(format_elapsed(Some(7200)), "2h");
    assert_eq!(format_elapsed(Some(3 * 86400)), "3d");
}

#[test]
fn auto_hide_unless_timeout_zero() {
    assert!(!should_auto_hide(0));
    assert!(should_auto_hide(-1));
    assert!(should_auto_hide(5000));
    assert!(should_auto_hide(i32::MIN));
}

#[test]
fn parse_actions_pairs_and_drops_trailing() {
    let actions = vec![
        "default".to_string(),
        "Open".to_string(),
        "reply".to_string(),
        "Reply".to_string(),
        "dangling".to_string(),
    ];
    let pairs = parse_actions(actions);
    assert_eq!(
        pairs,
        vec![
            ("default".to_string(), "Open".to_string()),
            ("reply".to_string(), "Reply".to_string()),
        ]
    );
}

#[test]
fn parse_actions_empty() {
    assert!(parse_actions(Vec::new()).is_empty());
    assert!(parse_actions(vec!["only".to_string()]).is_empty());
}

#[test]
fn notification_name_kept_when_short() {
    assert_eq!(format_notification_name(""), "");
    assert_eq!(format_notification_name("Firefox"), "Firefox");
    let thirty = "a".repeat(30);
    assert_eq!(format_notification_name(&thirty), thirty);
}

#[test]
fn notification_name_cut_at_thirty_bytes() {
    let long = "abcdefghij".repeat(4);
    assert_eq!(format_notification_name(&long), format!("{}...", &long[..30]));
}

#[test]
fn notification_body_empty_is_name() {
    assert_eq!(format_notification_body("Mail", ""), "Mail");
}

#[test]
fn notification_body_flattens_lines() {
    assert_eq!(format_notification_body("Mail", "hi\nthere"), "Mail: hi there");
}

#[test]
fn notification_body_cut_over_hundred_bytes() {
    let body = "x".repeat(120);
    assert_eq!(
        format_notification_body("Mail", &body),
        format!("Mail: {}...", "x".repeat(97))
    );
    let exact = "y".repeat(100);
    assert_eq!(format_notification_body("Mail", &exact), format!("Mail: {}", exact));
}

#[test]
fn summary_key_before_parenthesis_trimmed() {
    assert_eq!(format_notification_summary("  Download (3) "), "Download");
    assert_eq!(format_notification_summary("Hello"), "Hello");
    assert_eq!(format_notification_summary("(x) tail"), "");
    assert_eq!(format_notification_summary("\tNew mail\n"), "New mail");
    assert_eq!(format_notification_summary(""), "");
}
