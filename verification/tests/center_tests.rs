use mechanix_shell::center::{DbNotification, NotificationCenter};

fn notif(id: u32, app: &str, summary: &str, body: &str, at: u64) -> DbNotification {
    DbNotification {
        id,
        app_name: app.to_string(),
        app_icon: String::new(),
        summary: summary.to_string(),
        body: body.to_string(),
        actions: Vec::new(),
        hints: Vec::new(),
        received_at: Some(at),
    }
}

fn with_image(mut n: DbNotification, key: &str, path: &str) -> DbNotification {
    n.hints.push((key.to_string(), path.to_string()));
    n
}

#[test]
fn new_center_is_empty_and_hidden() {
    let c = NotificationCenter::new();
    assert!(!c.is_visible());
    assert!(c.groups.is_empty());
    assert!(c.rows.is_empty());
    assert!(!c.clearing);
    assert_eq!(c.estimated_content_height(), 0);
}

#[test]
fn visibility_toggles() {
    let mut c = NotificationCenter::new();
    c.set_visible(true);
    assert!(c.is_visible());
    c.set_visible(false);
    assert!(!c.is_visible());
}

#[test]
fn first_notification_opens_group_on_top() {
    let mut c = NotificationCenter::new();
    c.add_db_notification_at(notif(7, "Mail", "New mail (2)", "hello", 1000), 1130);
    assert_eq!(c.groups.len(), 1);
    let g = &c.groups[0];
    assert_eq!(g.id, 1000);
    assert_eq!(g.app_name, "Mail");
    assert_eq!(g.app_summary, "New mail");
    assert_eq!(g.time_ago, "· 2m");
    assert_eq!(g.preview, "Mail: hello");
    assert_eq!(g.count, 1);
    assert!(!g.has_thumbnail);
    assert_eq!(g.icon_path, None);
    assert_eq!(g.items.len(), 1);
    assert_eq!(g.items[0].id, 1007);
    assert_eq!(g.items[0].db_id, 7);
    assert_eq!(c.rows.len(), 1);
    assert_eq!(c.rows[0].id, 1000);
    assert_eq!(c.rows[0].anim_epoch, 1);
}

#[test]
fn same_summary_joins_group_and_moves_it_up() {
    let mut c = NotificationCenter::new();
    c.add_db_notification_at(notif(1, "Mail", "New mail", "first", 0), 10);
    c.add_db_notification_at(notif(2, "Chat", "Ping", "yo", 0), 10);
    assert_eq!(c.groups[0].app_summary, "Ping");
    assert_eq!(c.groups[0].id, 2000);
    c.add_db_notification_at(
        with_image(notif(3, "Mail", " New mail (1)", "second", 0), "image-path", "/tmp/a.png"),
        10,
    );
    assert_eq!(c.groups.len(), 2);
    let g = &c.groups[0];
    assert_eq!(g.app_summary, "New mail");
    assert_eq!(g.id, 1000);
    assert_eq!(g.count, 2);
    assert_eq!(g.preview, "Mail: second");
    assert!(g.has_thumbnail);
    assert_eq!(g.icon_path.as_deref(), Some("/tmp/a.png"));
    assert_eq!(g.items[0].db_id, 3);
    assert_eq!(g.items[0].id, 1000 + 1 + 3);
    assert_eq!(g.items[1].db_id, 1);
    assert_eq!(c.groups[1].app_summary, "Ping");
    let row = c.rows.iter().find(|r| r.id == 1000).unwrap();
    assert_eq!(row.anim_epoch, 2);
}

#[test]
fn image_hint_underscore_form_is_used() {
    let mut c = NotificationCenter::new();
    c.add_db_notification_at(
        with_image(notif(4, "Cam", "Shot", "b", 0), "image_path", "/img/x.jpg"),
        0,
    );
    assert!(c.groups[0].has_thumbnail);
    assert_eq!(c.groups[0].items[0].icon_path.as_deref(), Some("/img/x.jpg"));
}

#[test]
fn close_undoes_arrival() {
    let mut c = NotificationCenter::new();
    c.add_db_notification_at(notif(1, "Mail", "New mail", "first", 0), 10);
    let groups_before = c.groups.len();
    let rows_before = c.rows.len();
    c.add_db_notification_at(notif(9, "Chat", "Ping", "yo", 0), 10);
    c.remove_db_notification(9);
    assert_eq!(c.groups.len(), groups_before);
    assert_eq!(c.rows.len(), rows_before);
    assert_eq!(c.groups[0].app_summary, "New mail");
    assert_eq!(c.groups[0].count, 1);
}

#[test]
fn removing_one_of_two_items_shows_next() {
    let mut c = NotificationCenter::new();
    c.add_db_notification_at(
        with_image(notif(1, "Mail", "New mail", "first", 0), "image-path", "/p1"),
        10,
    );
    c.add_db_notification_at(notif(2, "Mail", "New mail", "second", 0), 10);
    c.remove_db_notification(2);
    let g = &c.groups[0];
    assert_eq!(g.count, 1);
    assert_eq!(g.preview, "Mail: first");
    assert!(g.has_thumbnail);
    assert_eq!(g.icon_path.as_deref(), Some("/p1"));
}

#[test]
fn removing_unknown_id_changes_nothing() {
    let mut c = NotificationCenter::new();
    c.add_db_notification_at(notif(1, "Mail", "New mail", "first", 0), 10);
    c.remove_db_notification(42);
    assert_eq!(c.groups.len(), 1);
    assert_eq!(c.groups[0].count, 1);
}

#[test]
fn toggle_group_flips_expansion() {
    let mut c = NotificationCenter::new();
    c.toggle_group(1000);
    assert_eq!(c.expanded_groups.get(&1000), Some(&true));
    c.toggle_group(1000);
    assert_eq!(c.expanded_groups.get(&1000), Some(&false));
}

#[test]
fn dismiss_item_reports_and_collapses() {
    let mut c = NotificationCenter::new();
    c.add_db_notification_at(notif(1, "Mail", "New mail", "first", 0), 10);
    c.add_db_notification_at(notif(2, "Mail", "New mail", "second", 0), 10);
    c.toggle_group(1000);
    let item_id = c.groups[0].items[0].id;
    assert_eq!(c.dismiss_item(1000, item_id), Some(2));
    assert_eq!(c.groups[0].count, 1);
    assert_eq!(c.groups[0].preview, "Mail: first");
    assert_eq!(c.expanded_groups.get(&1000), Some(&false));
    assert_eq!(c.dismiss_item(1000, 99999), None);
    assert_eq!(c.dismiss_item(5, item_id), None);
}

#[test]
fn clear_all_reports_every_notification_once() {
    let mut c = NotificationCenter::new();
    c.add_db_notification_at(notif(1, "Mail", "New mail", "a", 0), 10);
    c.add_db_notification_at(notif(2, "Chat", "Ping", "b", 0), 10);
    c.add_db_notification_at(notif(3, "Mail", "New mail", "c", 0), 10);
    let ids = c.begin_clear_all().unwrap();
    assert_eq!(ids, vec![3, 1, 2]);
    assert!(c.clearing);
    assert_eq!(c.begin_clear_all(), None);
    c.finish_clear_all();
    assert!(c.groups.is_empty());
    assert!(!c.clearing);
}

#[test]
fn content_height_counts_cards_gaps_and_padding() {
    let mut c = NotificationCenter::new();
    c.add_db_notification_at(notif(1, "Mail", "New mail", "a", 0), 10);
    c.add_db_notification_at(notif(2, "Chat", "Ping", "b", 0), 10);
    c.add_db_notification_at(notif(3, "Mail", "New mail", "c", 0), 10);
    assert_eq!(c.estimated_content_height(), 24 + 100 + 100 + 10);
    c.toggle_group(1000);
    assert_eq!(c.estimated_group_height(&c.groups[0]), 100 + 108);
    assert_eq!(c.estimated_content_height(), 24 + 208 + 100 + 10);
}

#[test]
fn max_group_id_tracks_largest() {
    let mut c = NotificationCenter::new();
    assert_eq!(c.max_group_id(), 0);
    c.add_db_notification_at(notif(1, "Mail", "A", "a", 0), 10);
    c.add_db_notification_at(notif(2, "Mail", "B", "b", 0), 10);
    assert_eq!(c.max_group_id(), 2000);
}

#[test]
fn bump_row_animation_advances_epoch() {
    let mut c = NotificationCenter::new();
    c.add_db_notification_at(notif(1, "Mail", "A", "a", 0), 10);
    c.bump_row_animation(1000);
    assert_eq!(c.rows[0].anim_epoch, 2);
    c.bump_row_animation(777);
    assert_eq!(c.rows[0].anim_epoch, 2);
}

#[test]
fn load_groups_by_summary_newest_first() {
    let mut c = NotificationCenter::new();
    let ns = vec![
        notif(1, "Mail", "New mail", "a", 100),
        notif(5, "Chat", "Ping (2)", "b", 200),
        notif(3, "Mail", "New mail", "c", 300),
    ];
    c.load_from_database_at(ns, 400);
    assert_eq!(c.groups.len(), 2);
    assert_eq!(c.groups[0].app_summary, "Ping");
    assert_eq!(c.groups[0].items[0].db_id, 5);
    assert_eq!(c.groups[0].time_ago, "· 3m");
    let mail = &c.groups[1];
    assert_eq!(mail.app_summary, "New mail");
    assert_eq!(mail.count, 2);
    assert_eq!(mail.items[0].db_id, 3);
    assert_eq!(mail.items[1].db_id, 1);
    assert_eq!(mail.preview, "Mail: c");
    assert_eq!(mail.time_ago, "· 1m");
    assert_eq!(mail.items[0].id, mail.id + 3);
    let mut ids: Vec<u64> = c.groups.iter().map(|g| g.id).collect();
    ids.sort();
    assert_eq!(ids, vec![1, 1001]);
    assert_eq!(c.rows.len(), 2);
    assert_eq!(c.rows[0].id, c.groups[0].id);
    assert_eq!(c.rows[0].anim_epoch, 0);
}

#[test]
fn load_empty_clears_groups() {
    let mut c = NotificationCenter::new();
    c.add_db_notification_at(notif(1, "Mail", "New mail", "a", 0), 10);
    c.load_from_database_at(Vec::new(), 10);
    assert!(c.groups.is_empty());
    assert!(c.rows.is_empty());
}

#[test]
fn add_and_load_at_current_time() {
    let mut c = NotificationCenter::new();
    let now = mechanix_shell::clock::epoch_seconds();
    c.add_db_notification(notif(1, "Mail", "New mail", "a", now));
    assert_eq!(c.groups[0].time_ago, "· now");
    c.load_from_database(vec![notif(2, "Chat", "Ping", "b", now)]);
    assert_eq!(c.groups.len(), 1);
    assert_eq!(c.groups[0].app_summary, "Ping");
    assert_eq!(c.groups[0].time_ago, "· now");
}

#[test]
fn load_formats_only_group_heads_names() {
    let long_odd = format!("a{}", "é".repeat(20));
    let mut c = NotificationCenter::new();
    c.load_from_database_at(
        vec![notif(1, &long_odd, "Mail", "old", 0), notif(2, "Mail", "Mail", "new", 0)],
        10,
    );
    assert_eq!(c.groups.len(), 1);
    assert_eq!(c.groups[0].app_name, "Mail");
    assert_eq!(c.groups[0].items[1].preview, format!("{}: old", long_odd));
}

#[test]
fn dismiss_group_reports_items_and_drops_row() {
    let mut c = NotificationCenter::new();
    c.add_db_notification_at(notif(1, "Mail", "New mail", "a", 0), 10);
    c.add_db_notification_at(notif(2, "Chat", "Ping", "b", 0), 10);
    c.add_db_notification_at(notif(3, "Mail", "New mail", "c", 0), 10);
    c.toggle_group(1000);
    assert_eq!(c.dismiss_group(1000), vec![3, 1]);
    assert_eq!(c.groups.len(), 1);
    assert_eq!(c.groups[0].app_summary, "Ping");
    assert!(c.rows.iter().all(|r| r.id != 1000));
    assert_eq!(c.expanded_groups.get(&1000), None);
    assert!(c.dismiss_group(1000).is_empty());
}
