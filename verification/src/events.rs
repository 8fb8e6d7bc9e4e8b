//! The decisions of the notification app's event loops: what the UI does
//! with each event from the daemon, and what the daemon is told of each
//! event from the UI.
use vstd::prelude::*;
use crate::center::{distinct_hint_keys, DbNotification, DbNotificationView};
use crate::helper::{parse_actions, should_auto_hide};
use crate::text::{join_text, decimal, decimal_string};
use crate::toasts::{IdView, NotificationId, NotificationUi};

verus! {

/// A notification as the daemon delivers it.
pub struct IncomingNotification {
    pub app_name: String,
    pub app_icon: String,
    pub summary: String,
    pub body: String,
    pub actions: Vec<String>,
    /// The timeout the sender asked for: 0 never hides, -1 is the default.
    pub expire_timeout: i32,
    /// How long the toast stays, in milliseconds.
    pub expire_timeout_ms: u64,
    /// The image the notification carries, resolved to a path.
    pub image_path: Option<String>,
}

/// An event of the notification app.
pub enum AppEvents {
    NotificationReceived { id: u32, notification: IncomingNotification },
    CloseNotification { id: u32 },
    /// Sent from the UI when the user picks one of a notification's actions.
    ActionInvoked { id: u32, action_id: String },
    /// Sent from the UI when the user dismisses a notification; `reason` is
    /// the freedesktop close reason.
    UserCloseNotification { id: u32, reason: u32 },
}

/// What the UI does with an event from the daemon.
pub enum UiAction {
    /// File the notification into the visible notification center.
    AddToCenter(DbNotification),
    /// Show the notification as a toast with these action buttons
    /// (`(action id, label)` pairs).
    ShowToast { toast: NotificationUi, actions: Vec<(String, String)> },
    /// Close the toast keyed by the id and remove the notification from the
    /// center.
    CloseEverywhere(u32),
    /// Nothing to do.
    Ignore,
}

/// What the daemon is told of an event from the UI.
pub enum BackendAction {
    InvokeAction { id: u32, action_id: String },
    Close { id: u32, reason: u32 },
    Ignore,
}

/// The daemon's record of a notification received at `now`.
pub open spec fn record_of(id: u32, n: IncomingNotification, now: u64) -> DbNotificationView {
    DbNotificationView {
        id,
        app_name: n.app_name@,
        summary: n.summary@,
        body: n.body@,
        hints: match n.image_path {
            Some(p) => seq![("image-path"@, p@)],
            None => Seq::empty(),
        },
        received_at: Some(now),
    }
}

fn record(id: u32, n: &IncomingNotification, now: u64) -> (r: DbNotification)
    ensures
        r@ == record_of(id, *n, now),
        r.app_icon@ == n.app_icon@,
        r.actions@ == n.actions@,
        distinct_hint_keys(r@.hints),
{
    let mut hints: Vec<(String, String)> = Vec::new();
    match &n.image_path {
        Some(p) => {
            hints.push(("image-path".to_owned(), p.clone()));
        },
        None => {},
    }
    let r = DbNotification {
        id,
        app_name: n.app_name.clone(),
        app_icon: n.app_icon.clone(),
        summary: n.summary.clone(),
        body: n.body.clone(),
        actions: n.actions.clone(),
        hints,
        received_at: Some(now),
    };
    assert(r@.hints =~= record_of(id, *n, now).hints);
    r
}

/// What the UI does with an event from the daemon, when the notification
/// center is `center_visible` and the clock reads `now`: a new notification
/// goes to the visible center, else it becomes a toast titled
/// "app: summary", keyed by its id, hiding by itself unless its timeout is 0;
/// a closed notification leaves both the toasts and the center; events the
/// UI itself sends are ignored.
pub fn on_app_event(event: AppEvents, center_visible: bool, now: u64) -> (r: UiAction)
    ensures
        match event {
            AppEvents::NotificationReceived { id, notification: n } => if center_visible {
                r matches UiAction::AddToCenter(d) && d@ == record_of(id, n, now) && d.app_icon@
                    == n.app_icon@ && d.actions@ == n.actions@ && distinct_hint_keys(d@.hints)
            } else {
                r matches UiAction::ShowToast { toast, actions } && {
                    &&& toast.id@ == IdView::Keyed(decimal(id as nat))
                    &&& toast.db_id == id
                    &&& toast.db_notification matches Some(d) && d@ == record_of(id, n, now)
                        && d.app_icon@ == n.app_icon@ && d.actions@ == n.actions@ && distinct_hint_keys(
                        d@.hints,
                    )
                    &&& toast.title matches Some(t) && t@ == n.app_name@ + ": "@ + n.summary@
                    &&& toast.message matches Some(m) && m@ == n.body@
                    &&& toast.autohide == (n.expire_timeout != 0)
                    &&& toast.expire_timeout_ms == n.expire_timeout_ms
                    &&& toast.icon_img == n.image_path
                    &&& toast.type_ is None
                    &&& toast.icon is None
                    &&& !toast.closing
                    &&& actions.len() == n.actions.len() / 2
                    &&& forall|i: int|
                        #![trigger actions[i]]
                        0 <= i < actions.len() ==> actions[i].0 == n.actions[2 * i] && actions[i].1
                            == n.actions[2 * i + 1]
                }
            },
            AppEvents::CloseNotification { id } => r matches UiAction::CloseEverywhere(c) && c == id,
            _ => r is Ignore,
        },
{
    match event {
        AppEvents::NotificationReceived { id, notification } => {
            let db = record(id, &notification, now);
            if center_visible {
                return UiAction::AddToCenter(db);
            }
            let title = {
                let mut t = join_text(notification.app_name.as_str(), ": ");
                t.append(notification.summary.as_str());
                t
            };
            let key = decimal_string(id as u64);
            let actions = parse_actions(notification.actions);
            let toast = NotificationUi::new().id1(key).db_id(id).db_notification(db).title(
                title,
            ).message(notification.body).autohide(should_auto_hide(notification.expire_timeout)).expire_timeout(
            notification.expire_timeout_ms);
            let toast = match notification.image_path {
                Some(p) => toast.icon_img(p),
                None => toast,
            };
            UiAction::ShowToast { toast, actions }
        },
        AppEvents::CloseNotification { id } => UiAction::CloseEverywhere(id),
        _ => UiAction::Ignore,
    }
}

/// What the daemon is told of an event from the UI: an invoked action and a
/// user's close are forwarded, anything else is not.
pub fn on_ui_event(event: AppEvents) -> (r: BackendAction)
    ensures
        match event {
            AppEvents::ActionInvoked { id, action_id } => r matches BackendAction::InvokeAction {
                id: i,
                action_id: a,
            } && i == id && a == action_id,
            AppEvents::UserCloseNotification { id, reason } => r matches BackendAction::Close {
                id: i,
                reason: c,
            } && i == id && c == reason,
            _ => r is Ignore,
        },
{
    match event {
        AppEvents::ActionInvoked { id, action_id } => BackendAction::InvokeAction { id, action_id },
        AppEvents::UserCloseNotification { id, reason } => BackendAction::Close { id, reason },
        _ => BackendAction::Ignore,
    }
}

/// The event the UI sends when the user dismisses notification `id`: a
/// close with reason 2 (dismissed by the user).
pub fn user_dismissed(id: u32) -> (r: AppEvents)
    ensures
        r matches AppEvents::UserCloseNotification { id: i, reason } && i == id && reason == 2,
{
    AppEvents::UserCloseNotification { id, reason: 2 }
}

} // verus!
