use mechanix_shell::events::{
    on_app_event, on_ui_event, user_dismissed, AppEvents, BackendAction, IncomingNotification,
    UiAction,
};
use mechanix_shell::toasts::NotificationId;

fn incoming(timeout: i32, image: Option<&str>) -> IncomingNotification {
    IncomingNotification {
        app_name: "Mail".to_string(),
        app_icon: "mail".to_string(),
        summary: "New".to_string(),
        body: "hi".to_string(),
        actions: vec!["open".to_string(), "Open".to_string()],
        expire_timeout: timeout,
        expire_timeout_ms: 4000,
        image_path: image.map(|s| s.to_string()),
    }
}

#[test]
fn received_while_center_visible_goes_to_center() {
    let ev = AppEvents::NotificationReceived { id: 12, notification: incoming(-1, Some("/p")) };
    match on_app_event(ev, true, 99) {
        UiAction::AddToCenter(d) => {
            assert_eq!(d.id, 12);
            assert_eq!(d.app_name, "Mail");
            assert_eq!(d.summary, "New");
            assert_eq!(d.body, "hi");
            assert_eq!(d.received_at, Some(99));
            assert_eq!(d.hints, vec![("image-path".to_string(), "/p".to_string())]);
        }
        _ => panic!("expected AddToCenter"),
    }
}

#[test]
fn received_while_hidden_becomes_toast() {
    let ev = AppEvents::NotificationReceived { id: 12, notification: incoming(-1, None) };
    match on_app_event(ev, false, 99) {
        UiAction::ShowToast { toast, actions } => {
            match &toast.id {
                NotificationId::Keyed(k) => assert_eq!(k, "12"),
                NotificationId::Generated(_) => panic!("expected a keyed id"),
            }
            assert_eq!(toast.db_id, 12);
            assert_eq!(toast.title.as_deref(), Some("Mail: New"));
            assert_eq!(toast.message.as_deref(), Some("hi"));
            assert!(toast.autohide);
            assert_eq!(toast.expire_timeout_ms, 4000);
            assert!(!toast.closing);
            assert_eq!(toast.icon_img, None);
            assert_eq!(toast.db_notification.as_ref().map(|d| d.id), Some(12));
            assert_eq!(actions, vec![("open".to_string(), "Open".to_string())]);
        }
        _ => panic!("expected ShowToast"),
    }
}

#[test]
fn zero_timeout_toast_stays() {
    let ev = AppEvents::NotificationReceived { id: 3, notification: incoming(0, Some("/img")) };
    match on_app_event(ev, false, 0) {
        UiAction::ShowToast { toast, .. } => {
            assert!(!toast.autohide);
            assert_eq!(toast.icon_img.as_deref(), Some("/img"));
        }
        _ => panic!("expected ShowToast"),
    }
}

#[test]
fn close_goes_everywhere() {
    match on_app_event(AppEvents::CloseNotification { id: 8 }, false, 0) {
        UiAction::CloseEverywhere(id) => assert_eq!(id, 8),
        _ => panic!("expected CloseEverywhere"),
    }
}

#[test]
fn ui_events_ignored_by_app_loop() {
    let ev = AppEvents::ActionInvoked { id: 1, action_id: "x".to_string() };
    assert!(matches!(on_app_event(ev, true, 0), UiAction::Ignore));
    assert!(matches!(on_app_event(user_dismissed(1), false, 0), UiAction::Ignore));
}

#[test]
fn ui_events_forwarded_to_backend() {
    match on_ui_event(AppEvents::ActionInvoked { id: 4, action_id: "reply".to_string() }) {
        BackendAction::InvokeAction { id, action_id } => {
            assert_eq!(id, 4);
            assert_eq!(action_id, "reply");
        }
        _ => panic!("expected InvokeAction"),
    }
    match on_ui_event(user_dismissed(9)) {
        BackendAction::Close { id, reason } => {
            assert_eq!(id, 9);
            assert_eq!(reason, 2);
        }
        _ => panic!("expected Close"),
    }
    assert!(matches!(on_ui_event(AppEvents::CloseNotification { id: 1 }), BackendAction::Ignore));
}

#[test]
fn records_keep_icon_and_actions() {
    let ev = AppEvents::NotificationReceived { id: 5, notification: incoming(-1, None) };
    match on_app_event(ev, true, 1) {
        UiAction::AddToCenter(d) => {
            assert_eq!(d.app_icon, "mail");
            assert_eq!(d.actions, vec!["open".to_string(), "Open".to_string()]);
        }
        _ => panic!("expected AddToCenter"),
    }
    let ev = AppEvents::NotificationReceived { id: 5, notification: incoming(-1, None) };
    match on_app_event(ev, false, 1) {
        UiAction::ShowToast { toast, .. } => {
            let d = toast.db_notification.unwrap();
            assert_eq!(d.app_icon, "mail");
            assert_eq!(d.actions, vec!["open".to_string(), "Open".to_string()]);
        }
        _ => panic!("expected ShowToast"),
    }
}
