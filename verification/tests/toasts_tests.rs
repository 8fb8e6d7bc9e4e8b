use mechanix_shell::toasts::{
    DismissStep, NotificationId, NotificationList, NotificationType, NotificationUi,
};

fn key_of(n: &NotificationUi) -> String {
    match &n.id {
        NotificationId::Generated(s) => format!("gen:{}", s),
        NotificationId::Keyed(s) => format!("key:{}", s),
    }
}

#[test]
fn new_toast_defaults() {
    let n = NotificationUi::new();
    match &n.id {
        NotificationId::Generated(s) => assert_eq!(s.len(), 36),
        NotificationId::Keyed(_) => panic!("expected a generated id"),
    }
    assert_eq!(n.db_id, 0);
    assert!(n.title.is_none());
    assert!(n.message.is_none());
    assert!(n.autohide);
    assert_eq!(n.expire_timeout_ms, 5000);
}

#[test]
fn generated_ids_differ() {
    let a = NotificationUi::new();
    let b = NotificationUi::new();
    assert_ne!(key_of(&a), key_of(&b));
}

#[test]
fn builders_set_fields() {
    let n = NotificationUi::new()
        .id1("42".to_string())
        .db_id(42)
        .title("Mail: New".to_string())
        .message("hello".to_string())
        .icon("bell".to_string())
        .icon_img("/tmp/i.png".to_string())
        .with_type(NotificationType::Application)
        .autohide(true)
        .expire_timeout(3000);
    assert_eq!(key_of(&n), "key:42");
    assert_eq!(n.db_id, 42);
    assert_eq!(n.title.as_deref(), Some("Mail: New"));
    assert_eq!(n.message.as_deref(), Some("hello"));
    assert_eq!(n.icon.as_deref(), Some("bell"));
    assert_eq!(n.icon_img.as_deref(), Some("/tmp/i.png"));
    assert!(n.type_ == Some(NotificationType::Application));
    assert!(n.autohide);
    assert_eq!(n.expire_timeout_ms, 3000);
}

#[test]
fn info_toast() {
    let n = NotificationUi::info("saved".to_string());
    assert_eq!(n.message.as_deref(), Some("saved"));
    assert!(n.type_ == Some(NotificationType::Info));
}

#[test]
fn push_replaces_same_id_and_keeps_others() {
    let mut list = NotificationList::new();
    list.push(NotificationUi::new().id1("a".to_string()).db_id(1));
    list.push(NotificationUi::new().id1("b".to_string()).db_id(2));
    list.push(NotificationUi::new().id1("a".to_string()).db_id(3));
    let keys: Vec<String> = list.notifications.iter().map(key_of).collect();
    assert_eq!(keys, vec!["key:b", "key:a"]);
    assert_eq!(list.notifications[1].db_id, 3);
}

#[test]
fn remove_id_drops_only_that_id() {
    let mut list = NotificationList::new();
    list.push(NotificationUi::new().id1("a".to_string()));
    list.push(NotificationUi::new().id1("b".to_string()));
    list.remove_id(&NotificationId::Keyed("a".to_string()));
    let keys: Vec<String> = list.notifications.iter().map(key_of).collect();
    assert_eq!(keys, vec!["key:b"]);
    list.remove_id(&NotificationId::Generated("b".to_string()));
    assert_eq!(list.notifications.len(), 1);
}

#[test]
fn close_finds_first_by_db_id() {
    let mut list = NotificationList::new();
    list.push(NotificationUi::new().id1("a".to_string()).db_id(5));
    list.push(NotificationUi::new().id1("b".to_string()).db_id(6));
    assert_eq!(list.close(6), Some((1, DismissStep::RemoveAfterMs(250))));
    assert!(list.notifications[1].closing);
    assert!(!list.notifications[0].closing);
    assert_eq!(list.close(6), Some((1, DismissStep::AlreadyClosing)));
    assert_eq!(list.close(5), Some((0, DismissStep::RemoveAfterMs(250))));
    assert_eq!(list.close(7), None);
    assert_eq!(list.notifications.len(), 2);
}

#[test]
fn clear_empties_list() {
    let mut list = NotificationList::new();
    list.push(NotificationUi::new());
    list.clear();
    assert!(list.notifications.is_empty());
}

#[test]
fn visible_range_is_newest_ten() {
    let mut list = NotificationList::new();
    assert_eq!(list.visible_range(), (0, 0));
    for i in 0..12 {
        list.push(NotificationUi::new().id1(format!("{}", i)));
    }
    assert_eq!(list.visible_range(), (2, 12));
}

#[test]
fn info_toast_keeps_new_defaults() {
    let n = NotificationUi::info("saved".to_string());
    assert_eq!(n.db_id, 0);
    assert!(n.db_notification.is_none());
    assert!(n.title.is_none());
    assert!(n.icon.is_none());
    assert!(n.icon_img.is_none());
    assert!(n.autohide);
    assert_eq!(n.expire_timeout_ms, 5000);
}

#[test]
fn dismiss_starts_closing_once() {
    let mut n = NotificationUi::new();
    assert!(!n.closing);
    assert_eq!(n.dismiss(), DismissStep::RemoveAfterMs(250));
    assert!(n.closing);
    assert_eq!(n.dismiss(), DismissStep::AlreadyClosing);
    assert!(n.closing);
}

#[test]
fn push_reports_autohide_delay() {
    let mut list = NotificationList::new();
    assert_eq!(list.push(NotificationUi::new().expire_timeout(3000)), Some(3000));
    assert_eq!(list.push(NotificationUi::new().autohide(false)), None);
}

#[test]
fn dismiss_at_and_position_of() {
    let mut list = NotificationList::new();
    list.push(NotificationUi::new().id1("a".to_string()));
    list.push(NotificationUi::new().id1("b".to_string()));
    let pos = list.position_of(&NotificationId::Keyed("b".to_string())).unwrap();
    assert_eq!(pos, 1);
    assert_eq!(list.dismiss_at(pos), DismissStep::RemoveAfterMs(250));
    assert!(list.notifications[1].closing);
    assert!(!list.notifications[0].closing);
    assert_eq!(list.position_of(&NotificationId::Keyed("c".to_string())), None);
}
