//! The pop-up notification list: toasts keyed by id, a newer toast with the
//! same id replacing the older one, the newest shown last.
use vstd::prelude::*;
use crate::text::same_text;
use crate::center::DbNotification;

verus! {

/// A fresh random id in hyphenated form (`uuid::Uuid::new_v4`, shown with
/// `Display`): 36 characters. Its value depends on chance and is not
/// stated further.
#[verifier::external_body]
fn random_uuid() -> (r: String)
    ensures
        r@.len() == 36,
{
    uuid::Uuid::new_v4().to_string()
}

/// What makes a toast unique.
pub enum NotificationId {
    /// A random id given at creation.
    Generated(String),
    /// An id chosen by the caller (the daemon's notification id).
    Keyed(String),
}

/// The value of a [`NotificationId`].
pub enum IdView {
    Generated(Seq<char>),
    Keyed(Seq<char>),
}

impl View for NotificationId {
    type V = IdView;

    open spec fn view(&self) -> IdView {
        match self {
            NotificationId::Generated(s) => IdView::Generated(s@),
            NotificationId::Keyed(s) => IdView::Keyed(s@),
        }
    }
}

/// The look of a toast.
#[derive(Clone, Copy, PartialEq, Eq, Structural)]
pub enum NotificationType {
    Info,
    Application,
}

/// A pop-up notification.
pub struct NotificationUi {
    pub id: NotificationId,
    pub db_id: u32,
    pub db_notification: Option<DbNotification>,
    pub type_: Option<NotificationType>,
    pub title: Option<String>,
    pub message: Option<String>,
    pub icon: Option<String>,
    pub icon_img: Option<String>,
    pub autohide: bool,
    pub expire_timeout_ms: u64,
    /// Whether the toast is playing its closing animation.
    pub closing: bool,
}

/// What a dismissal leaves to be done.
#[derive(Clone, Copy, Debug, PartialEq, Eq, Structural)]
pub enum DismissStep {
    /// The toast was already closing: nothing more.
    AlreadyClosing,
    /// Remove the toast from the list after this many milliseconds, when its
    /// closing animation has played.
    RemoveAfterMs(u64),
}

/// A toast once a dismissal has started.
pub open spec fn closing_toast(n: NotificationUi) -> NotificationUi {
    NotificationUi { closing: true, ..n }
}

/// What dismissing toast `n` leaves to be done: nothing when it is already
/// closing, else its removal once the 250 ms closing animation has played.
pub open spec fn dismiss_step(n: NotificationUi) -> DismissStep {
    if n.closing {
        DismissStep::AlreadyClosing
    } else {
        DismissStep::RemoveAfterMs(250)
    }
}

/// How long toast `n` stays before it dismisses itself, if it does.
pub open spec fn autohide_delay_of(n: NotificationUi) -> Option<u64> {
    if n.autohide {
        Some(n.expire_timeout_ms)
    } else {
        None
    }
}

impl NotificationUi {
    /// A toast with a fresh random id, no text, hiding by itself after the
    /// default 5000 ms delay.
    pub fn new() -> (r: Self)
        ensures
            r.id is Generated,
            r.id->Generated_0@.len() == 36,
            r.db_id == 0,
            r.db_notification is None,
            r.type_ is None,
            r.title is None,
            r.message is None,
            r.icon is None,
            r.icon_img is None,
            r.autohide,
            r.expire_timeout_ms == 5000,
            !r.closing,
    {
        NotificationUi {
            id: NotificationId::Generated(random_uuid()),
            db_id: 0,
            db_notification: None,
            type_: None,
            title: None,
            message: None,
            icon: None,
            icon_img: None,
            autohide: true,
            expire_timeout_ms: 5000,
            closing: false,
        }
    }

    /// An info toast showing `message`; every other field is as [`new`]
    /// makes it.
    ///
    /// [`new`]: NotificationUi::new
    pub fn info(message: String) -> (r: Self)
        ensures
            r.id is Generated,
            r.id->Generated_0@.len() == 36,
            r.message == Some(message),
            r.type_ == Some(NotificationType::Info),
            r.db_id == 0,
            r.db_notification is None,
            r.title is None,
            r.icon is None,
            r.icon_img is None,
            r.autohide,
            r.expire_timeout_ms == 5000,
            !r.closing,
    {
        Self::new().message(message).with_type(NotificationType::Info)
    }

    /// Keys the toast by `key`; a later toast with the same key replaces it.
    pub fn id1(self, key: String) -> (r: Self)
        ensures
            r == (NotificationUi { id: NotificationId::Keyed(key), ..self }),
    {
        NotificationUi { id: NotificationId::Keyed(key), ..self }
    }

    /// Sets the message.
    pub fn message(self, message: String) -> (r: Self)
        ensures
            r == (NotificationUi { message: Some(message), ..self }),
    {
        NotificationUi { message: Some(message), ..self }
    }

    /// Sets the daemon's id of the notification.
    pub fn db_id(self, db_id: u32) -> (r: Self)
        ensures
            r == (NotificationUi { db_id, ..self }),
    {
        NotificationUi { db_id, ..self }
    }

    /// Keeps the daemon's record of the notification with the toast.
    pub fn db_notification(self, n: DbNotification) -> (r: Self)
        ensures
            r == (NotificationUi { db_notification: Some(n), ..self }),
    {
        NotificationUi { db_notification: Some(n), ..self }
    }

    /// Sets the title.
    pub fn title(self, title: String) -> (r: Self)
        ensures
            r == (NotificationUi { title: Some(title), ..self }),
    {
        NotificationUi { title: Some(title), ..self }
    }

    /// Sets the icon.
    pub fn icon(self, icon: String) -> (r: Self)
        ensures
            r == (NotificationUi { icon: Some(icon), ..self }),
    {
        NotificationUi { icon: Some(icon), ..self }
    }

    /// Sets the path of a raster image shown as the icon.
    pub fn icon_img(self, path: String) -> (r: Self)
        ensures
            r == (NotificationUi { icon_img: Some(path), ..self }),
    {
        NotificationUi { icon_img: Some(path), ..self }
    }

    /// Sets the look.
    pub fn with_type(self, type_: NotificationType) -> (r: Self)
        ensures
            r == (NotificationUi { type_: Some(type_), ..self }),
    {
        NotificationUi { type_: Some(type_), ..self }
    }

    /// Sets whether the toast hides by itself.
    pub fn autohide(self, autohide: bool) -> (r: Self)
        ensures
            r == (NotificationUi { autohide, ..self }),
    {
        NotificationUi { autohide, ..self }
    }

    /// Sets how long, in milliseconds, the toast stays before hiding itself.
    pub fn expire_timeout(self, ms: u64) -> (r: Self)
        ensures
            r == (NotificationUi { expire_timeout_ms: ms, ..self }),
    {
        NotificationUi { expire_timeout_ms: ms, ..self }
    }

    /// Starts dismissing the toast: it begins closing, and unless it was
    /// closing already, it leaves the list once its 250 ms closing animation
    /// has played (see [`dismiss_step`]).
    pub fn dismiss(&mut self) -> (r: DismissStep)
        ensures
            *final(self) == closing_toast(*old(self)),
            r == dismiss_step(*old(self)),
    {
        if self.closing {
            return DismissStep::AlreadyClosing;
        }
        self.closing = true;
        DismissStep::RemoveAfterMs(250)
    }

    /// How long the toast stays before dismissing itself, if it hides by
    /// itself (see [`autohide_delay_of`]).
    pub fn autohide_delay(&self) -> (r: Option<u64>)
        ensures
            r == autohide_delay_of(*self),
    {
        if self.autohide {
            Some(self.expire_timeout_ms)
        } else {
            None
        }
    }
}

fn same_id(a: &NotificationId, b: &NotificationId) -> (r: bool)
    ensures
        r == (a@ == b@),
{
    match (a, b) {
        (NotificationId::Generated(x), NotificationId::Generated(y)) => same_text(x.as_str(), y.as_str()),
        (NotificationId::Keyed(x), NotificationId::Keyed(y)) => same_text(x.as_str(), y.as_str()),
        _ => false,
    }
}

/// The toasts shown, oldest first.
pub struct NotificationList {
    pub notifications: Vec<NotificationUi>,
    pub expanded: bool,
}

/// The ids of a list of toasts.
pub open spec fn ids(list: Seq<NotificationUi>) -> Seq<IdView> {
    list.map_values(|n: NotificationUi| n.id@)
}

/// `list` without the toasts whose id is `id`, in order.
pub open spec fn without_id(list: Seq<NotificationUi>, id: IdView) -> Seq<NotificationUi>
    decreases list.len(),
{
    if list.len() == 0 {
        list
    } else {
        let r = without_id(list.drop_last(), id);
        if list.last().id@ != id {
            r.push(list.last())
        } else {
            r
        }
    }
}

/// How many toasts of `list` have id `id`.
pub open spec fn id_count(list: Seq<NotificationUi>, id: IdView) -> nat
    decreases list.len(),
{
    if list.len() == 0 {
        0
    } else {
        id_count(list.drop_last(), id) + if list.last().id@ == id {
            1nat
        } else {
            0nat
        }
    }
}

proof fn lemma_without_id_count(list: Seq<NotificationUi>, id: IdView, other: IdView)
    ensures
        id_count(without_id(list, id), id) == 0,
        other != id ==> id_count(without_id(list, id), other) == id_count(list, other),
    decreases list.len(),
{
    if list.len() > 0 {
        lemma_without_id_count(list.drop_last(), id, other);
        let r = without_id(list.drop_last(), id);
        if list.last().id@ != id {
            assert(r.push(list.last()).drop_last() =~= r);
        }
    }
}

proof fn lemma_push_count(list: Seq<NotificationUi>, n: NotificationUi, id: IdView)
    ensures
        id_count(list.push(n), id) == id_count(list, id) + if n.id@ == id {
            1nat
        } else {
            0nat
        },
{
    assert(list.push(n).drop_last() =~= list);
}

impl NotificationList {
    /// An empty list.
    pub fn new() -> (r: Self)
        ensures
            r.notifications@.len() == 0,
            !r.expanded,
    {
        NotificationList { notifications: Vec::new(), expanded: false }
    }

    /// Shows `n` as the newest toast; a toast with the same id leaves.
    /// Returns after how many milliseconds the new toast dismisses itself,
    /// when it hides by itself (see [`autohide_delay_of`]).
    pub fn push(&mut self, n: NotificationUi) -> (r: Option<u64>)
        ensures
            final(self).notifications@ == without_id(old(self).notifications@, n.id@).push(n),
            final(self).expanded == old(self).expanded,
            r == autohide_delay_of(n),
    {
        let delay = n.autohide_delay();
        self.remove_id(&n.id);
        self.notifications.push(n);
        delay
    }

    /// Drops the toasts whose id is `id` (when a toast has finished hiding).
    pub fn remove_id(&mut self, id: &NotificationId)
        ensures
            final(self).notifications@ == without_id(old(self).notifications@, id@),
            final(self).expanded == old(self).expanded,
    {
        let mut old_list = Vec::new();
        std::mem::swap(&mut old_list, &mut self.notifications);
        let ghost all = old_list@;
        assert(all.len() == old_list.len());
        let mut kept: Vec<NotificationUi> = Vec::new();
        let mut rest = old_list;
        let mut i: usize = 0;
        assert(rest@ =~= all.subrange(0, all.len() as int));
        while rest.len() > 0
            invariant
                i + rest@.len() == all.len(),
                all.len() == old(self).notifications@.len(),
                old(self).notifications@.len() <= usize::MAX,
                rest@ =~= all.subrange(i as int, all.len() as int),
                kept@ == without_id(all.take(i as int), id@),
                self.expanded == old(self).expanded,
            decreases rest@.len(),
        {
            let n = rest.remove(0);
            assert(n == all[i as int]);
            assert(all.take(i + 1).drop_last() =~= all.take(i as int));
            assert(all.take(i + 1).last() == all[i as int]);
            if !same_id(&n.id, id) {
                kept.push(n);
            }
            i = i + 1;
        }
        assert(all.take(i as int) =~= all);
        self.notifications = kept;
    }

    /// The position of the first toast whose id is `id`.
    pub fn position_of(&self, id: &NotificationId) -> (r: Option<usize>)
        ensures
            match r {
                Some(i) => i < self.notifications@.len() && self.notifications@[i as int].id@ == id@
                    && forall|j: int| 0 <= j < i ==> self.notifications@[j].id@ != id@,
                None => forall|j: int| 0 <= j < self.notifications@.len() ==> self.notifications@[j].id@ != id@,
            },
    {
        let mut i: usize = 0;
        while i < self.notifications.len()
            invariant
                i <= self.notifications@.len(),
                forall|j: int| 0 <= j < i ==> self.notifications@[j].id@ != id@,
            decreases self.notifications@.len() - i,
        {
            if same_id(&self.notifications[i].id, id) {
                return Some(i);
            }
            i = i + 1;
        }
        None
    }

    /// Starts dismissing the toast at position `i` (see
    /// [`NotificationUi::dismiss`]); no other toast changes.
    pub fn dismiss_at(&mut self, i: usize) -> (r: DismissStep)
        requires
            i < old(self).notifications@.len(),
        ensures
            final(self).notifications@ == old(self).notifications@.update(
                i as int,
                closing_toast(old(self).notifications@[i as int]),
            ),
            final(self).expanded == old(self).expanded,
            r == dismiss_step(old(self).notifications@[i as int]),
    {
        let ghost before = self.notifications@;
        let mut n = self.notifications.remove(i);
        let step = n.dismiss();
        self.notifications.insert(i, n);
        assert(self.notifications@ =~= before.update(i as int, closing_toast(before[i as int])));
        step
    }

    /// Closes the toast of notification `db_id` that the daemon closed: the
    /// first toast of that notification starts dismissing, and its position
    /// and what is left to do are returned; no other toast changes, and
    /// with no such toast nothing does.
    pub fn close(&mut self, db_id: u32) -> (r: Option<(usize, DismissStep)>)
        ensures
            final(self).expanded == old(self).expanded,
            match r {
                Some((i, step)) => i < old(self).notifications@.len() && old(self).notifications@[i as int].db_id
                    == db_id && (forall|j: int|
                    0 <= j < i ==> old(self).notifications@[j].db_id != db_id)
                    && final(self).notifications@ == old(self).notifications@.update(
                    i as int,
                    closing_toast(old(self).notifications@[i as int]),
                ) && step == dismiss_step(old(self).notifications@[i as int]),
                None => (forall|j: int|
                    0 <= j < old(self).notifications@.len() ==> old(self).notifications@[j].db_id != db_id)
                    && final(self).notifications@ == old(self).notifications@,
            },
    {
        let mut i: usize = 0;
        while i < self.notifications.len()
            invariant
                i <= self.notifications@.len(),
                self.notifications@ == old(self).notifications@,
                self.expanded == old(self).expanded,
                forall|j: int| 0 <= j < i ==> self.notifications@[j].db_id != db_id,
            decreases self.notifications@.len() - i,
        {
            if self.notifications[i].db_id == db_id {
                let step = self.dismiss_at(i);
                return Some((i, step));
            }
            i = i + 1;
        }
        None
    }

    /// Removes every toast.
    pub fn clear(&mut self)
        ensures
            final(self).notifications@.len() == 0,
            final(self).expanded == old(self).expanded,
    {
        self.notifications.clear();
    }

    /// The positions of the toasts on screen: the newest ten at most, oldest
    /// first.
    pub fn visible_range(&self) -> (r: (usize, usize))
        ensures
            r.1 == self.notifications@.len(),
            r.0 == if self.notifications@.len() > 10 {
                self.notifications@.len() - 10
            } else {
                0
            },
    {
        let n = self.notifications.len();
        if n > 10 {
            (n - 10, n)
        } else {
            (0, n)
        }
    }
}

/// Pushing a toast leaves exactly one toast with its id, the newest one,
/// and keeps every toast with another id.
pub proof fn law_push_replaces(list: Seq<NotificationUi>, n: NotificationUi, other: IdView)
    requires
        other != n.id@,
    ensures
        id_count(without_id(list, n.id@).push(n), n.id@) == 1,
        without_id(list, n.id@).push(n).last() == n,
        id_count(without_id(list, n.id@).push(n), other) == id_count(list, other),
{
    lemma_without_id_count(list, n.id@, other);
    lemma_push_count(without_id(list, n.id@), n, n.id@);
    lemma_push_count(without_id(list, n.id@), n, other);
}

} // verus!
