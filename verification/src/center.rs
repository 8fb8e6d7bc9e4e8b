//! The notification center: notifications grouped by their summary, newest
//! group first, with per-group expansion and the bookkeeping behind the
//! center's cards (row animation epochs, clear-all, swipe dismissal).
use std::collections::HashMap;
use vstd::prelude::*;
use vstd::string::StringExecFns;
use crate::helper::{
    format_notification_body, format_notification_name, format_notification_summary, newline_to_space,
    notification_body_text, notification_name_text, summary_key, time_ago, time_ago_text,
};
use crate::text::{byte_len, join_text, on_boundary, same_text};
use crate::clock::epoch_seconds;

verus! {

broadcast use vstd::std_specs::hash::group_hash_axioms;

/// A notification as stored by the notification daemon.
pub struct DbNotification {
    pub id: u32,
    pub app_name: String,
    pub app_icon: String,
    pub summary: String,
    pub body: String,
    pub actions: Vec<String>,
    /// Hints as key/value pairs, each key at most once (see
    /// [`distinct_hint_keys`]).
    pub hints: Vec<(String, String)>,
    pub received_at: Option<u64>,
}

/// The value of a [`DbNotification`] that the center reads.
#[verifier::ext_equal]
pub struct DbNotificationView {
    pub id: u32,
    pub app_name: Seq<char>,
    pub summary: Seq<char>,
    pub body: Seq<char>,
    pub hints: Seq<(Seq<char>, Seq<char>)>,
    pub received_at: Option<u64>,
}

impl View for DbNotification {
    type V = DbNotificationView;

    open spec fn view(&self) -> DbNotificationView {
        DbNotificationView {
            id: self.id,
            app_name: self.app_name@,
            summary: self.summary@,
            body: self.body@,
            hints: self.hints@.map_values(|h: (String, String)| (h.0@, h.1@)),
            received_at: self.received_at,
        }
    }
}

/// No hint key occurs twice, as in the daemon's hint map; a lookup takes the
/// first pair with the key.
pub open spec fn distinct_hint_keys(hints: Seq<(Seq<char>, Seq<char>)>) -> bool {
    forall|i: int, j: int| 0 <= i < j < hints.len() ==> #[trigger] hints[i].0 != #[trigger] hints[j].0
}

/// The value of the first hint named `key`.
pub open spec fn hint(hints: Seq<(Seq<char>, Seq<char>)>, key: Seq<char>) -> Option<Seq<char>>
    decreases hints.len(),
{
    if hints.len() == 0 {
        None
    } else if hints[0].0 == key {
        Some(hints[0].1)
    } else {
        hint(hints.drop_first(), key)
    }
}

/// The image a notification carries: its "image-path" hint, else its
/// "image_path" hint.
pub open spec fn image_path(hints: Seq<(Seq<char>, Seq<char>)>) -> Option<Seq<char>> {
    match hint(hints, "image-path"@) {
        Some(p) => Some(p),
        None => hint(hints, "image_path"@),
    }
}

/// The receive time of a notification, 0 when unknown.
pub open spec fn received(n: DbNotificationView) -> u64 {
    match n.received_at {
        Some(t) => t,
        None => 0,
    }
}

/// The cut of a notification's name preview falls on a character boundary.
pub open spec fn name_fits(n: DbNotificationView) -> bool {
    byte_len(n.app_name) <= 30 || on_boundary(n.app_name, 30)
}

/// The cut of a notification's body preview falls on a character boundary.
pub open spec fn body_fits(n: DbNotificationView) -> bool {
    byte_len(newline_to_space(n.body)) <= 100 || on_boundary(newline_to_space(n.body), 97)
}

/// What the center needs of a notification's text: the cuts of its name and
/// body previews fall on character boundaries.
pub open spec fn displayable(n: DbNotificationView) -> bool {
    &&& name_fits(n)
    &&& body_fits(n)
}

fn find_hint(hints: &Vec<(String, String)>, key: &str) -> (r: Option<String>)
    ensures
        opt_view(r) == hint(hints@.map_values(|h: (String, String)| (h.0@, h.1@)), key@),
{
    let ghost hs = hints@.map_values(|h: (String, String)| (h.0@, h.1@));
    let mut i: usize = 0;
    assert(hs.skip(0) =~= hs);
    while i < hints.len()
        invariant
            i <= hints.len(),
            hs == hints@.map_values(|h: (String, String)| (h.0@, h.1@)),
            hint(hs, key@) == hint(hs.skip(i as int), key@),
        decreases hints.len() - i,
    {
        let ghost rest = hs.skip(i as int);
        assert(rest[0] == (hints@[i as int].0@, hints@[i as int].1@));
        if same_text(hints[i].0.as_str(), key) {
            return Some(hints[i].1.clone());
        }
        assert(rest.drop_first() =~= hs.skip(i + 1));
        i = i + 1;
    }
    None
}

pub(crate) fn find_image_path(hints: &Vec<(String, String)>) -> (r: Option<String>)
    ensures
        opt_view(r) == image_path(hints@.map_values(|h: (String, String)| (h.0@, h.1@))),
{
    match find_hint(hints, "image-path") {
        Some(p) => Some(p),
        None => find_hint(hints, "image_path"),
    }
}

/// The view of an optional string.
pub open spec fn opt_view(o: Option<String>) -> Option<Seq<char>> {
    match o {
        Some(s) => Some(s@),
        None => None,
    }
}

pub(crate) fn clone_opt(o: &Option<String>) -> (r: Option<String>)
    ensures
        opt_view(r) == opt_view(*o),
{
    match o {
        Some(s) => Some(s.clone()),
        None => None,
    }
}

/// One notification inside a group.
pub struct NotificationItem {
    pub id: u64,
    pub db_id: u32,
    pub preview: String,
    pub has_thumbnail: bool,
    pub icon_path: Option<String>,
}

/// The value of a [`NotificationItem`].
#[verifier::ext_equal]
pub struct ItemView {
    pub id: u64,
    pub db_id: u32,
    pub preview: Seq<char>,
    pub has_thumbnail: bool,
    pub icon_path: Option<Seq<char>>,
}

impl View for NotificationItem {
    type V = ItemView;

    open spec fn view(&self) -> ItemView {
        ItemView {
            id: self.id,
            db_id: self.db_id,
            preview: self.preview@,
            has_thumbnail: self.has_thumbnail,
            icon_path: opt_view(self.icon_path),
        }
    }
}

/// The notifications of one summary, newest first.
pub struct NotificationGroupItem {
    pub id: u64,
    pub app_name: String,
    pub app_summary: String,
    pub time_ago: String,
    pub preview: String,
    pub count: u32,
    pub has_thumbnail: bool,
    pub icon_path: Option<String>,
    pub items: Vec<NotificationItem>,
}

/// The value of a [`NotificationGroupItem`].
#[verifier::ext_equal]
pub struct GroupView {
    pub id: u64,
    pub app_name: Seq<char>,
    pub app_summary: Seq<char>,
    pub time_ago: Seq<char>,
    pub preview: Seq<char>,
    pub count: u32,
    pub has_thumbnail: bool,
    pub icon_path: Option<Seq<char>>,
    pub items: Seq<ItemView>,
}

/// The values of a list of items.
pub open spec fn item_views(items: Seq<NotificationItem>) -> Seq<ItemView> {
    items.map_values(|i: NotificationItem| i@)
}

impl View for NotificationGroupItem {
    type V = GroupView;

    open spec fn view(&self) -> GroupView {
        GroupView {
            id: self.id,
            app_name: self.app_name@,
            app_summary: self.app_summary@,
            time_ago: self.time_ago@,
            preview: self.preview@,
            count: self.count,
            has_thumbnail: self.has_thumbnail,
            icon_path: opt_view(self.icon_path),
            items: item_views(self.items@),
        }
    }
}

/// The animation epoch of a group's card; a new epoch restarts its
/// entrance animation.
#[derive(Clone, Copy)]
pub struct RowState {
    pub id: u64,
    pub anim_epoch: u64,
}

impl RowState {
    /// A row for group `id` at epoch 0.
    pub fn new(id: u64) -> (r: Self)
        ensures
            r.id == id,
            r.anim_epoch == 0,
    {
        RowState { id, anim_epoch: 0 }
    }
}

/// The grouped notification center.
pub struct NotificationCenter {
    pub is_visible: bool,
    pub groups: Vec<NotificationGroupItem>,
    pub rows: Vec<RowState>,
    pub clearing: bool,
    pub expanded_groups: HashMap<u64, bool>,
}

/// The value of a [`NotificationCenter`].
#[verifier::ext_equal]
pub struct CenterView {
    pub is_visible: bool,
    pub groups: Seq<GroupView>,
    pub rows: Seq<RowState>,
    pub clearing: bool,
    pub expanded: Map<u64, bool>,
}

/// The values of a list of groups.
pub open spec fn group_views(groups: Seq<NotificationGroupItem>) -> Seq<GroupView> {
    groups.map_values(|g: NotificationGroupItem| g@)
}

impl View for NotificationCenter {
    type V = CenterView;

    open spec fn view(&self) -> CenterView {
        CenterView {
            is_visible: self.is_visible,
            groups: group_views(self.groups@),
            rows: self.rows@,
            clearing: self.clearing,
            expanded: self.expanded_groups@,
        }
    }
}

/// Well-formed groups: distinct ids, distinct summaries, and a count that
/// matches the items of each group.
pub open spec fn groups_wf(groups: Seq<GroupView>) -> bool {
    &&& forall|i: int, j: int|
        0 <= i < j < groups.len() ==> #[trigger] groups[i].id != #[trigger] groups[j].id
    &&& forall|i: int, j: int|
        0 <= i < j < groups.len() ==> #[trigger] groups[i].app_summary
            != #[trigger] groups[j].app_summary
    &&& forall|i: int| 0 <= i < groups.len() ==> #[trigger] groups[i].count == groups[i].items.len()
}

/// Group `id` has a row.
pub open spec fn has_row(rows: Seq<RowState>, id: u64) -> bool {
    exists|j: int| 0 <= j < rows.len() && rows[j].id == id
}

/// The center's invariant: well-formed groups, none of them empty, and a
/// row for every group.
pub open spec fn center_wf(c: CenterView) -> bool {
    &&& groups_wf(c.groups)
    &&& forall|i: int| 0 <= i < c.groups.len() ==> (#[trigger] c.groups[i]).items.len() > 0
    &&& forall|i: int| 0 <= i < c.groups.len() ==> has_row(c.rows, (#[trigger] c.groups[i]).id)
}

/// Whether group `id` is shown expanded.
pub open spec fn is_expanded(expanded: Map<u64, bool>, id: u64) -> bool {
    expanded.contains_key(id) && expanded[id]
}

/// The index of the first group filed under `key`.
pub open spec fn find_group(groups: Seq<GroupView>, key: Seq<char>) -> Option<int>
    decreases groups.len(),
{
    if groups.len() == 0 {
        None
    } else if groups[0].app_summary == key {
        Some(0)
    } else {
        match find_group(groups.drop_first(), key) {
            Some(i) => Some(i + 1),
            None => None,
        }
    }
}

/// The largest group id, 0 for no group.
pub open spec fn max_id(groups: Seq<GroupView>) -> u64
    decreases groups.len(),
{
    if groups.len() == 0 {
        0
    } else {
        let m = max_id(groups.drop_last());
        if groups.last().id > m {
            groups.last().id
        } else {
            m
        }
    }
}

/// `e + 1`, wrapping to 0 past the largest epoch.
pub open spec fn next_epoch(e: u64) -> u64 {
    if e == u64::MAX {
        0
    } else {
        (e + 1) as u64
    }
}

/// The first row of group `id` moved to its next epoch.
pub open spec fn bump(rows: Seq<RowState>, id: u64) -> Seq<RowState>
    decreases rows.len(),
{
    if rows.len() == 0 {
        rows
    } else if rows[0].id == id {
        rows.update(0, RowState { id, anim_epoch: next_epoch(rows[0].anim_epoch) })
    } else {
        seq![rows[0]] + bump(rows.drop_first(), id)
    }
}

/// Group ids leave room for the ids that adding a notification derives.
pub open spec fn ids_bounded(groups: Seq<GroupView>) -> bool {
    forall|i: int| 0 <= i < groups.len() ==> #[trigger] groups[i].id <= u64::MAX - 1001 - u32::MAX
}

/// The center after `n` arrives at time `now`: filed at the front of the group
/// of its summary (that group moving to the top and taking the
/// notification's preview, thumbnail, image and age), or opening a new group
/// at the top whose id lies 1000 past the largest one.
pub open spec fn added(c: CenterView, n: DbNotificationView, now: u64) -> CenterView {
    let name = notification_name_text(n.app_name);
    let key = summary_key(n.summary);
    let ago = "· "@ + time_ago_text(now, received(n));
    let thumb = image_path(n.hints) is Some;
    let icon = image_path(n.hints);
    match find_group(c.groups, key) {
        Some(i) => {
            let g = c.groups[i];
            let preview = notification_body_text(name, n.body);
            let item = ItemView {
                id: (g.id + 1 + n.id) as u64,
                db_id: n.id,
                preview,
                has_thumbnail: thumb,
                icon_path: icon,
            };
            let g2 = GroupView {
                time_ago: ago,
                preview,
                count: (g.count + 1) as u32,
                has_thumbnail: thumb,
                icon_path: if icon is Some { icon } else { g.icon_path },
                items: seq![item] + g.items,
                ..g
            };
            CenterView { groups: seq![g2] + c.groups.remove(i), rows: bump(c.rows, g.id), ..c }
        },
        None => {
            let next = (max_id(c.groups) + 1000) as u64;
            let preview = notification_body_text(n.app_name, n.body);
            let item = ItemView {
                id: (next + n.id) as u64,
                db_id: n.id,
                preview,
                has_thumbnail: thumb,
                icon_path: icon,
            };
            let g = GroupView {
                id: next,
                app_name: name,
                app_summary: key,
                time_ago: ago,
                preview,
                count: 1,
                has_thumbnail: thumb,
                icon_path: icon,
                items: seq![item],
            };
            CenterView {
                groups: seq![g] + c.groups,
                rows: seq![RowState { id: next, anim_epoch: 1 }] + c.rows,
                ..c
            }
        },
    }
}

/// What adding `n` needs: its previews cut on character boundaries, its
/// hints name each key once, the group ids leave room for new ids, and the
/// group it joins holds fewer than `u32::MAX` notifications.
pub open spec fn can_add(c: CenterView, n: DbNotificationView) -> bool {
    &&& displayable(n)
    &&& distinct_hint_keys(n.hints)
    &&& ids_bounded(c.groups)
    &&& match find_group(c.groups, summary_key(n.summary)) {
        Some(i) => c.groups[i].count < u32::MAX,
        None => true,
    }
}

/// The index of the first item of `db` among `items`.
pub open spec fn item_index(items: Seq<ItemView>, db: u32) -> Option<int>
    decreases items.len(),
{
    if items.len() == 0 {
        None
    } else if items[0].db_id == db {
        Some(0)
    } else {
        match item_index(items.drop_first(), db) {
            Some(j) => Some(j + 1),
            None => None,
        }
    }
}

/// The group and position of the first item of `db`.
pub open spec fn locate(groups: Seq<GroupView>, db: u32) -> Option<(int, int)>
    decreases groups.len(),
{
    if groups.len() == 0 {
        None
    } else {
        match item_index(groups[0].items, db) {
            Some(j) => Some((0, j)),
            None => match locate(groups.drop_first(), db) {
                Some((i, j)) => Some((i + 1, j)),
                None => None,
            },
        }
    }
}

/// `n - 1`, stopping at 0.
pub open spec fn count_down(n: u32) -> u32 {
    if n == 0 {
        0
    } else {
        (n - 1) as u32
    }
}

/// `rows` without the rows of group `id`.
pub open spec fn rows_without(rows: Seq<RowState>, id: u64) -> Seq<RowState>
    decreases rows.len(),
{
    if rows.len() == 0 {
        rows
    } else {
        let r = rows_without(rows.drop_last(), id);
        if rows.last().id != id {
            r.push(rows.last())
        } else {
            r
        }
    }
}

/// The center after the notification `db` closes: its item leaves the first
/// group holding it; a group left empty goes away with its row and
/// expansion state, otherwise the group shows its new first item.
pub open spec fn removed(c: CenterView, db: u32) -> CenterView {
    match locate(c.groups, db) {
        None => c,
        Some((i, j)) => {
            let g = c.groups[i];
            let items = g.items.remove(j);
            if items.len() == 0 {
                CenterView {
                    groups: c.groups.remove(i),
                    rows: rows_without(c.rows, g.id),
                    expanded: c.expanded.remove(g.id),
                    ..c
                }
            } else {
                let g2 = GroupView {
                    items,
                    count: count_down(g.count),
                    preview: items[0].preview,
                    has_thumbnail: items[0].has_thumbnail,
                    icon_path: items[0].icon_path,
                    ..g
                };
                CenterView { groups: c.groups.update(i, g2), ..c }
            }
        },
    }
}

/// The index of the first group `id`.
pub open spec fn group_index(groups: Seq<GroupView>, id: u64) -> Option<int>
    decreases groups.len(),
{
    if groups.len() == 0 {
        None
    } else if groups[0].id == id {
        Some(0)
    } else {
        match group_index(groups.drop_first(), id) {
            Some(i) => Some(i + 1),
            None => None,
        }
    }
}

/// The index of the first item `id`.
pub open spec fn item_pos(items: Seq<ItemView>, id: u64) -> Option<int>
    decreases items.len(),
{
    if items.len() == 0 {
        None
    } else if items[0].id == id {
        Some(0)
    } else {
        match item_pos(items.drop_first(), id) {
            Some(j) => Some(j + 1),
            None => None,
        }
    }
}

/// The center after the user swipes item `item_id` of the expanded group
/// `group_id` away, and the notification that reports: the item leaves the
/// group; a group left empty goes away with its row and expansion state,
/// otherwise the group shows its new first item and collapses when at most
/// one item is left.
pub open spec fn dismissed(c: CenterView, group_id: u64, item_id: u64) -> (CenterView, Option<u32>) {
    match group_index(c.groups, group_id) {
        None => (c, None),
        Some(i) => {
            let g = c.groups[i];
            match item_pos(g.items, item_id) {
                None => (c, None),
                Some(j) => {
                    let items = g.items.remove(j);
                    let db = Some(g.items[j].db_id);
                    if items.len() == 0 {
                        (
                            CenterView {
                                groups: c.groups.remove(i),
                                rows: rows_without(c.rows, group_id),
                                expanded: c.expanded.remove(group_id),
                                ..c
                            },
                            db,
                        )
                    } else {
                        let g2 = GroupView {
                            items,
                            count: count_down(g.count),
                            preview: items[0].preview,
                            has_thumbnail: items[0].has_thumbnail,
                            icon_path: items[0].icon_path,
                            ..g
                        };
                        let expanded = if items.len() <= 1 {
                            c.expanded.insert(group_id, false)
                        } else {
                            c.expanded
                        };
                        (CenterView { groups: c.groups.update(i, g2), expanded, ..c }, db)
                    }
                },
            }
        },
    }
}

/// The center after the user swipes the whole group `id` away, and the
/// notifications that reports, in the group's order: the group leaves with
/// its rows and expansion state.
pub open spec fn group_dismissed(c: CenterView, id: u64) -> (CenterView, Seq<u32>) {
    let rest = CenterView { rows: rows_without(c.rows, id), expanded: c.expanded.remove(id), ..c };
    match group_index(c.groups, id) {
        Some(i) => (
            CenterView { groups: c.groups.remove(i), ..rest },
            c.groups[i].items.map_values(|t: ItemView| t.db_id),
        ),
        None => (rest, Seq::empty()),
    }
}

/// The notifications of all groups, group by group, as the daemon knows them.
pub open spec fn all_db_ids(groups: Seq<GroupView>) -> Seq<u32>
    decreases groups.len(),
{
    if groups.len() == 0 {
        Seq::empty()
    } else {
        all_db_ids(groups.drop_last()) + groups.last().items.map_values(|i: ItemView| i.db_id)
    }
}

/// The estimated height in pixels of a group's cards: one card when
/// collapsed, else one card plus 108 (a card and its gap) per further item.
pub open spec fn group_height(expanded: Map<u64, bool>, g: GroupView) -> nat {
    if is_expanded(expanded, g.id) && g.items.len() > 1 {
        (100 + (g.items.len() - 1) * 108) as nat
    } else {
        100
    }
}

/// The summed heights of groups.
pub open spec fn heights(expanded: Map<u64, bool>, groups: Seq<GroupView>) -> nat
    decreases groups.len(),
{
    if groups.len() == 0 {
        0
    } else {
        heights(expanded, groups.drop_last()) + group_height(expanded, groups.last())
    }
}

/// The estimated height in pixels of the center's content: the groups, a
/// 10 pixel gap between groups, and 12 pixels of padding above and below;
/// nothing when there is no group.
pub open spec fn content_height(c: CenterView) -> nat {
    if c.groups.len() == 0 {
        0
    } else {
        (24 + heights(c.expanded, c.groups) + 10 * (c.groups.len() - 1)) as nat
    }
}

proof fn lemma_heights_prefix(expanded: Map<u64, bool>, groups: Seq<GroupView>, i: int)
    requires
        0 <= i <= groups.len(),
    ensures
        heights(expanded, groups.take(i)) <= heights(expanded, groups),
    decreases groups.len() - i,
{
    if i < groups.len() {
        lemma_heights_prefix(expanded, groups, i + 1);
        assert(groups.take(i + 1).drop_last() =~= groups.take(i));
    } else {
        assert(groups.take(i) =~= groups);
    }
}

proof fn lemma_item_index(items: Seq<ItemView>, db: u32)
    ensures
        match item_index(items, db) {
            Some(j) => 0 <= j < items.len() && items[j].db_id == db && forall|k: int|
                0 <= k < j ==> items[k].db_id != db,
            None => forall|k: int| 0 <= k < items.len() ==> items[k].db_id != db,
        },
    decreases items.len(),
{
    if items.len() > 0 && items[0].db_id != db {
        lemma_item_index(items.drop_first(), db);
        assert forall|k: int| 0 <= k < items.len() && k > 0 implies items[k] == items.drop_first()[k - 1] by {}
    }
}

proof fn lemma_item_pos(items: Seq<ItemView>, id: u64)
    ensures
        match item_pos(items, id) {
            Some(j) => 0 <= j < items.len() && items[j].id == id && forall|k: int|
                0 <= k < j ==> items[k].id != id,
            None => forall|k: int| 0 <= k < items.len() ==> items[k].id != id,
        },
    decreases items.len(),
{
    if items.len() > 0 && items[0].id != id {
        lemma_item_pos(items.drop_first(), id);
        assert forall|k: int| 0 <= k < items.len() && k > 0 implies items[k] == items.drop_first()[k - 1] by {}
    }
}

proof fn lemma_group_index(groups: Seq<GroupView>, id: u64)
    ensures
        match group_index(groups, id) {
            Some(i) => 0 <= i < groups.len() && groups[i].id == id && forall|k: int|
                0 <= k < i ==> groups[k].id != id,
            None => forall|k: int| 0 <= k < groups.len() ==> groups[k].id != id,
        },
    decreases groups.len(),
{
    if groups.len() > 0 && groups[0].id != id {
        lemma_group_index(groups.drop_first(), id);
        assert forall|k: int| 0 <= k < groups.len() && k > 0 implies groups[k] == groups.drop_first()[k - 1] by {}
    }
}

proof fn lemma_locate(groups: Seq<GroupView>, db: u32)
    ensures
        match locate(groups, db) {
            Some((i, j)) => 0 <= i < groups.len() && item_index(groups[i].items, db) == Some(j)
                && forall|k: int| 0 <= k < i ==> item_index(#[trigger] groups[k].items, db) is None,
            None => forall|k: int| 0 <= k < groups.len() ==> item_index(#[trigger] groups[k].items, db) is None,
        },
    decreases groups.len(),
{
    if groups.len() > 0 && item_index(groups[0].items, db) is None {
        lemma_locate(groups.drop_first(), db);
        assert forall|k: int| 0 <= k < groups.len() && k > 0 implies groups[k] == groups.drop_first()[k - 1] by {}
    }
}

pub proof fn lemma_find_group(groups: Seq<GroupView>, key: Seq<char>)
    ensures
        match find_group(groups, key) {
            Some(i) => 0 <= i < groups.len() && groups[i].app_summary == key && forall|j: int|
                0 <= j < i ==> groups[j].app_summary != key,
            None => forall|j: int| 0 <= j < groups.len() ==> groups[j].app_summary != key,
        },
    decreases groups.len(),
{
    if groups.len() > 0 && groups[0].app_summary != key {
        lemma_find_group(groups.drop_first(), key);
        match find_group(groups.drop_first(), key) {
            Some(i) => {
                assert forall|j: int| 0 <= j < i + 1 implies groups[j].app_summary != key by {
                    if j > 0 {
                        assert(groups[j] == groups.drop_first()[j - 1]);
                    }
                }
            },
            None => {
                assert forall|j: int| 0 <= j < groups.len() implies groups[j].app_summary != key by {
                    if j > 0 {
                        assert(groups[j] == groups.drop_first()[j - 1]);
                    }
                }
            },
        }
    }
}

proof fn lemma_max_id(groups: Seq<GroupView>)
    ensures
        forall|j: int| 0 <= j < groups.len() ==> #[trigger] groups[j].id <= max_id(groups),
        groups.len() > 0 ==> exists|j: int| 0 <= j < groups.len() && groups[j].id == max_id(groups),
    decreases groups.len(),
{
    if groups.len() > 0 {
        lemma_max_id(groups.drop_last());
        assert forall|j: int| 0 <= j < groups.len() implies #[trigger] groups[j].id <= max_id(groups) by {
            if j < groups.len() - 1 {
                assert(groups[j] == groups.drop_last()[j]);
            }
        }
        if groups.last().id <= max_id(groups.drop_last()) && groups.drop_last().len() > 0 {
            let j = choose|j: int| 0 <= j < groups.drop_last().len() && groups.drop_last()[j].id == max_id(groups.drop_last());
            assert(groups[j] == groups.drop_last()[j]);
        } else {
            assert(groups[groups.len() - 1].id == max_id(groups));
        }
    }
}

proof fn lemma_bump(rows: Seq<RowState>, id: u64)
    ensures
        bump(rows, id).len() == rows.len(),
        forall|j: int| 0 <= j < rows.len() ==> (#[trigger] bump(rows, id)[j]).id == rows[j].id,
    decreases rows.len(),
{
    if rows.len() > 0 && rows[0].id != id {
        lemma_bump(rows.drop_first(), id);
        assert forall|j: int| 0 <= j < rows.len() implies (#[trigger] bump(rows, id)[j]).id == rows[j].id by {
            if j > 0 {
                assert(bump(rows, id)[j] == bump(rows.drop_first(), id)[j - 1]);
            }
        }
    }
}

impl NotificationCenter {
    /// An empty, hidden center.
    pub fn new() -> (r: Self)
        ensures
            r@.groups.len() == 0,
            r@.rows.len() == 0,
            !r@.is_visible,
            !r@.clearing,
            r@.expanded == Map::<u64, bool>::empty(),
            center_wf(r@),
    {
        NotificationCenter {
            is_visible: false,
            groups: Vec::new(),
            rows: Vec::new(),
            clearing: false,
            expanded_groups: HashMap::new(),
        }
    }

    /// Shows or hides the center.
    pub fn set_visible(&mut self, visible: bool)
        ensures
            final(self)@ == (CenterView { is_visible: visible, ..old(self)@ }),
    {
        self.is_visible = visible;
    }

    /// Whether the center is shown.
    pub fn is_visible(&self) -> (r: bool)
        ensures
            r == self@.is_visible,
    {
        self.is_visible
    }

    /// Flips whether group `group_id` is expanded (a group never toggled is
    /// collapsed).
    pub fn toggle_group(&mut self, group_id: u64)
        ensures
            final(self)@ == (CenterView {
                expanded: old(self)@.expanded.insert(
                    group_id,
                    !is_expanded(old(self)@.expanded, group_id),
                ),
                ..old(self)@
            }),
    {
        let is_expanded = match self.expanded_groups.get(&group_id) {
            Some(b) => *b,
            None => false,
        };
        self.expanded_groups.insert(group_id, !is_expanded);
    }

    /// Files `notif`, received by the clock at `now`, into the center (see
    /// [`added`]).
    pub fn add_db_notification_at(&mut self, notif: DbNotification, now: u64)
        requires
            groups_wf(old(self)@.groups),
            can_add(old(self)@, notif@),
        ensures
            final(self)@ == added(old(self)@, notif@, now),
            groups_wf(final(self)@.groups),
            center_wf(old(self)@) ==> center_wf(final(self)@),
    {
        proof {
            lemma_added_wf(self@, notif@, now);
            if center_wf(self@) {
                lemma_added_center_wf(self@, notif@, now);
            }
        }
        let ghost c = self@;
        let ghost n = notif@;
        let app_name_formatted = format_notification_name(notif.app_name.as_str());
        let app_summary = format_notification_summary(notif.summary.as_str());
        let ts = match notif.received_at {
            Some(t) => t,
            None => 0,
        };
        let ago = time_ago(now, ts);
        let time_label = join_text("· ", ago.as_str());
        let thumb_path = find_image_path(&notif.hints);
        let thumb = thumb_path.is_some();
        proof {
            lemma_find_group(c.groups, app_summary@);
        }
        let mut i: usize = 0;
        while i < self.groups.len()
            invariant
                i <= self.groups.len(),
                self@ == c,
                forall|j: int| 0 <= j < i ==> c.groups[j].app_summary != app_summary@,
            ensures
                i < self.groups.len() ==> c.groups[i as int].app_summary == app_summary@,
                forall|j: int| 0 <= j < i ==> c.groups[j].app_summary != app_summary@,
                i <= self.groups.len(),
                self@ == c,
            decreases self.groups.len() - i,
        {
            if same_text(self.groups[i].app_summary.as_str(), app_summary.as_str()) {
                break;
            }
            i = i + 1;
        }
        if i < self.groups.len() {
            assert(find_group(c.groups, app_summary@) == Some(i as int));
            let mut g = self.groups.remove(i);
            assert(group_views(self.groups@) =~= c.groups.remove(i as int));
            let preview = format_notification_body(app_name_formatted.as_str(), notif.body.as_str());
            let item = NotificationItem {
                id: g.id + 1 + notif.id as u64,
                db_id: notif.id,
                preview: preview.clone(),
                has_thumbnail: thumb,
                icon_path: clone_opt(&thumb_path),
            };
            let ghost old_items = item_views(g.items@);
            g.items.insert(0, item);
            assert(item_views(g.items@) =~= seq![item@] + old_items);
            g.count = g.count + 1;
            g.preview = preview;
            g.has_thumbnail = thumb;
            if thumb_path.is_some() {
                g.icon_path = thumb_path;
            }
            g.time_ago = time_label;
            let gid = g.id;
            let ghost rest = group_views(self.groups@);
            self.groups.insert(0, g);
            assert(group_views(self.groups@) =~= seq![g@] + rest);
            self.bump_row_animation(gid);
            assert(self@.groups =~= added(c, n, now).groups);
            assert(self@.rows =~= added(c, n, now).rows);
            assert(self@ =~= added(c, n, now));
        } else {
            assert(find_group(c.groups, app_summary@) is None);
            proof {
                lemma_max_id(c.groups);
            }
            let next_id = self.max_group_id() + 1000;
            let preview = format_notification_body(notif.app_name.as_str(), notif.body.as_str());
            let item = NotificationItem {
                id: next_id + notif.id as u64,
                db_id: notif.id,
                preview: preview.clone(),
                has_thumbnail: thumb,
                icon_path: clone_opt(&thumb_path),
            };
            let mut items = Vec::new();
            items.push(item);
            let g = NotificationGroupItem {
                id: next_id,
                app_name: app_name_formatted,
                app_summary,
                time_ago: time_label,
                preview,
                count: 1,
                has_thumbnail: thumb,
                icon_path: thumb_path,
                items,
            };
            assert(item_views(g.items@) =~= seq![g.items@[0]@]);
            let ghost rest = group_views(self.groups@);
            self.groups.insert(0, g);
            assert(group_views(self.groups@) =~= seq![g@] + rest);
            self.rows.insert(0, RowState { id: next_id, anim_epoch: 1 });
            assert(self@.groups =~= added(c, n, now).groups);
            assert(self@.rows =~= added(c, n, now).rows);
            assert(self@ =~= added(c, n, now));
        }
    }

    /// Files `notif` into the center at the current time (see [`added`]).
    pub fn add_db_notification(&mut self, notif: DbNotification)
        requires
            groups_wf(old(self)@.groups),
            can_add(old(self)@, notif@),
        ensures
            exists|now: u64| final(self)@ == added(old(self)@, notif@, now),
            groups_wf(final(self)@.groups),
            center_wf(old(self)@) ==> center_wf(final(self)@),
    {
        let now = epoch_seconds();
        self.add_db_notification_at(notif, now);
    }

    /// Removes the notification `db` that the daemon closed (see [`removed`]).
    pub fn remove_db_notification(&mut self, db_id: u32)
        requires
            groups_wf(old(self)@.groups),
        ensures
            final(self)@ == removed(old(self)@, db_id),
            groups_wf(final(self)@.groups),
            center_wf(old(self)@) ==> center_wf(final(self)@),
    {
        let ghost c = self@;
        proof {
            lemma_locate(c.groups, db_id);
            lemma_removed_wf(c, db_id);
            if center_wf(c) {
                lemma_removed_center_wf(c, db_id);
            }
        }
        let mut i: usize = 0;
        let mut found: Option<(usize, usize)> = None;
        while i < self.groups.len()
            invariant_except_break
                found is None,
            invariant
                i <= self.groups.len(),
                self@ == c,
                forall|k: int| 0 <= k < i ==> item_index(#[trigger] c.groups[k].items, db_id) is None,
                match locate(c.groups, db_id) {
                    Some((li, lj)) => 0 <= li < c.groups.len() && item_index(c.groups[li].items, db_id)
                        == Some(lj) && forall|k: int|
                        0 <= k < li ==> item_index(#[trigger] c.groups[k].items, db_id) is None,
                    None => forall|k: int|
                        0 <= k < c.groups.len() ==> item_index(#[trigger] c.groups[k].items, db_id) is None,
                },
            ensures
                self@ == c,
                match found {
                    Some((fi, fj)) => locate(c.groups, db_id) == Some((fi as int, fj as int)),
                    None => locate(c.groups, db_id) is None,
                },
            decreases self.groups.len() - i,
        {
            proof {
                lemma_item_index(c.groups[i as int].items, db_id);
            }
            let mut j: usize = 0;
            let n = self.groups[i].items.len();
            while j < n
                invariant
                    i < self.groups.len(),
                    n == c.groups[i as int].items.len(),
                    j <= n,
                    self@ == c,
                    forall|k: int| 0 <= k < j ==> c.groups[i as int].items[k].db_id != db_id,
                ensures
                    j <= n,
                    self@ == c,
                    forall|k: int| 0 <= k < j ==> c.groups[i as int].items[k].db_id != db_id,
                    j < n ==> c.groups[i as int].items[j as int].db_id == db_id,
                decreases n - j,
            {
                if self.groups[i].items[j].db_id == db_id {
                    break;
                }
                j = j + 1;
            }
            proof {
                lemma_item_index(c.groups[i as int].items, db_id);
            }
            if j < n {
                proof {
                    if item_index(c.groups[i as int].items, db_id) != Some(j as int) {
                        assert(false);
                    }
                    match locate(c.groups, db_id) {
                        Some((li, lj)) => {
                            if li < i {
                                assert(item_index(c.groups[li].items, db_id) is None);
                            }
                            if li > i {
                                assert(item_index(c.groups[i as int].items, db_id) is None);
                            }
                        },
                        None => {
                            assert(item_index(c.groups[i as int].items, db_id) is None);
                        },
                    }
                }
                found = Some((i, j));
                break;
            }
            assert(item_index(c.groups[i as int].items, db_id) is None);
            i = i + 1;
        }
        match found {
            None => {},
            Some((gi, ij)) => {
                proof {
                    lemma_item_index(c.groups[gi as int].items, db_id);
                }
                let mut g = self.groups.remove(gi);
                let ghost gv = g@;
                g.items.remove(ij);
                assert(item_views(g.items@) =~= gv.items.remove(ij as int));
                g.count = if g.count > 0 {
                    g.count - 1
                } else {
                    0
                };
                if g.items.len() == 0 {
                    let gid = g.id;
                    assert(group_views(self.groups@) =~= c.groups.remove(gi as int));
                    self.remove_rows_of(gid);
                    self.expanded_groups.remove(&gid);
                    assert(self@ =~= removed(c, db_id));
                } else {
                    g.preview = g.items[0].preview.clone();
                    g.has_thumbnail = g.items[0].has_thumbnail;
                    g.icon_path = clone_opt(&g.items[0].icon_path);
                    let ghost rest = group_views(self.groups@);
                    self.groups.insert(gi, g);
                    assert(group_views(self.groups@) =~= c.groups.update(gi as int, g@));
                    assert(self@ =~= removed(c, db_id));
                }
                proof {
                    lemma_removed_wf(c, db_id);
                }
            },
        }
    }

    fn remove_rows_of(&mut self, id: u64)
        ensures
            final(self)@ == (CenterView { rows: rows_without(old(self)@.rows, id), ..old(self)@ }),
    {
        let mut kept: Vec<RowState> = Vec::new();
        let mut i: usize = 0;
        while i < self.rows.len()
            invariant
                i <= self.rows.len(),
                self == old(self),
                kept@ == rows_without(self.rows@.take(i as int), id),
            decreases self.rows.len() - i,
        {
            assert(self.rows@.take(i + 1).drop_last() =~= self.rows@.take(i as int));
            let r = self.rows[i];
            if r.id != id {
                kept.push(r);
            }
            i = i + 1;
        }
        assert(self.rows@.take(i as int) =~= self.rows@);
        self.rows = kept;
    }

    /// Swipes item `item_id` of group `group_id` away (see [`dismissed`]) and
    /// returns the notification to report as dismissed by the user.
    pub fn dismiss_item(&mut self, group_id: u64, item_id: u64) -> (r: Option<u32>)
        requires
            groups_wf(old(self)@.groups),
        ensures
            (final(self)@, r) == dismissed(old(self)@, group_id, item_id),
            groups_wf(final(self)@.groups),
            center_wf(old(self)@) ==> center_wf(final(self)@),
    {
        let ghost c = self@;
        proof {
            lemma_dismissed_wf(c, group_id, item_id);
            if center_wf(c) {
                lemma_dismissed_center_wf(c, group_id, item_id);
            }
        }
        proof {
            lemma_group_index(c.groups, group_id);
        }
        let mut i: usize = 0;
        while i < self.groups.len()
            invariant
                i <= self.groups.len(),
                self@ == c,
                forall|k: int| 0 <= k < i ==> c.groups[k].id != group_id,
            ensures
                self@ == c,
                i <= self.groups.len(),
                forall|k: int| 0 <= k < i ==> c.groups[k].id != group_id,
                i < self.groups.len() ==> c.groups[i as int].id == group_id,
            decreases self.groups.len() - i,
        {
            if self.groups[i].id == group_id {
                break;
            }
            i = i + 1;
        }
        if i == self.groups.len() {
            return None;
        }
        assert(group_index(c.groups, group_id) == Some(i as int));
        proof {
            lemma_item_pos(c.groups[i as int].items, item_id);
        }
        let n = self.groups[i].items.len();
        let mut j: usize = 0;
        while j < n
            invariant
                i < self.groups.len(),
                n == c.groups[i as int].items.len(),
                j <= n,
                self@ == c,
                forall|k: int| 0 <= k < j ==> c.groups[i as int].items[k].id != item_id,
            ensures
                self@ == c,
                j <= n,
                forall|k: int| 0 <= k < j ==> c.groups[i as int].items[k].id != item_id,
                j < n ==> c.groups[i as int].items[j as int].id == item_id,
            decreases n - j,
        {
            if self.groups[i].items[j].id == item_id {
                break;
            }
            j = j + 1;
        }
        if j == n {
            return None;
        }
        assert(item_pos(c.groups[i as int].items, item_id) == Some(j as int));
        let mut g = self.groups.remove(i);
        let ghost gv = g@;
        let item = g.items.remove(j);
        assert(item_views(g.items@) =~= gv.items.remove(j as int));
        g.count = if g.count > 0 {
            g.count - 1
        } else {
            0
        };
        if g.items.len() == 0 {
            assert(group_views(self.groups@) =~= c.groups.remove(i as int));
            self.remove_rows_of(group_id);
            self.expanded_groups.remove(&group_id);
        } else {
            g.preview = g.items[0].preview.clone();
            g.has_thumbnail = g.items[0].has_thumbnail;
            g.icon_path = clone_opt(&g.items[0].icon_path);
            let collapse = g.items.len() <= 1;
            self.groups.insert(i, g);
            assert(group_views(self.groups@) =~= c.groups.update(i as int, g@));
            if collapse {
                self.expanded_groups.insert(group_id, false);
            }
        }
        proof {
            lemma_dismissed_wf(c, group_id, item_id);
        }
        assert(self@ =~= dismissed(c, group_id, item_id).0);
        Some(item.db_id)
    }

    /// Swipes the whole group `group_id` away (see [`group_dismissed`]) and
    /// returns the notifications to report as dismissed by the user.
    pub fn dismiss_group(&mut self, group_id: u64) -> (r: Vec<u32>)
        requires
            groups_wf(old(self)@.groups),
        ensures
            (final(self)@, r@) == group_dismissed(old(self)@, group_id),
            groups_wf(final(self)@.groups),
            center_wf(old(self)@) ==> center_wf(final(self)@),
    {
        let ghost c = self@;
        proof {
            lemma_group_index(c.groups, group_id);
            lemma_group_dismissed_wf(c, group_id);
        }
        let mut ids: Vec<u32> = Vec::new();
        let mut i: usize = 0;
        while i < self.groups.len()
            invariant
                i <= self.groups.len(),
                self@ == c,
                forall|k: int| 0 <= k < i ==> c.groups[k].id != group_id,
            ensures
                self@ == c,
                i <= self.groups.len(),
                forall|k: int| 0 <= k < i ==> c.groups[k].id != group_id,
                i < self.groups.len() ==> c.groups[i as int].id == group_id,
            decreases self.groups.len() - i,
        {
            if self.groups[i].id == group_id {
                break;
            }
            i = i + 1;
        }
        if i < self.groups.len() {
            assert(group_index(c.groups, group_id) == Some(i as int));
            let g = self.groups.remove(i);
            assert(group_views(self.groups@) =~= c.groups.remove(i as int));
            let ghost gv = g@;
            let mut j: usize = 0;
            while j < g.items.len()
                invariant
                    gv == g@,
                    j <= g.items@.len(),
                    ids@ == gv.items.take(j as int).map_values(|t: ItemView| t.db_id),
                decreases g.items@.len() - j,
            {
                ids.push(g.items[j].db_id);
                assert(gv.items.take(j + 1).map_values(|t: ItemView| t.db_id) =~= gv.items.take(
                    j as int,
                ).map_values(|t: ItemView| t.db_id).push(gv.items[j as int].db_id));
                j = j + 1;
            }
            assert(gv.items.take(j as int) =~= gv.items);
        } else {
            assert(group_index(c.groups, group_id) is None);
        }
        self.remove_rows_of(group_id);
        self.expanded_groups.remove(&group_id);
        assert(self@ =~= group_dismissed(c, group_id).0);
        assert(ids@ =~= group_dismissed(c, group_id).1);
        ids
    }

    /// Starts clearing the center: unless a clear is already under way,
    /// marks the center as clearing and returns every notification in it,
    /// group by group, to report as dismissed.
    pub fn begin_clear_all(&mut self) -> (r: Option<Vec<u32>>)
        ensures
            old(self)@.clearing ==> r is None && final(self)@ == old(self)@,
            !old(self)@.clearing ==> r is Some && r->0@ == all_db_ids(old(self)@.groups)
                && final(self)@ == (CenterView { clearing: true, ..old(self)@ }),
    {
        if self.clearing {
            return None;
        }
        let mut ids: Vec<u32> = Vec::new();
        let mut i: usize = 0;
        while i < self.groups.len()
            invariant
                i <= self.groups.len(),
                self == old(self),
                ids@ == all_db_ids(group_views(self.groups@).take(i as int)),
            decreases self.groups.len() - i,
        {
            let ghost gs = group_views(self.groups@);
            assert(gs.take(i + 1).drop_last() =~= gs.take(i as int));
            let ghost before = ids@;
            let mut j: usize = 0;
            while j < self.groups[i].items.len()
                invariant
                    i < self.groups.len(),
                    gs == group_views(self.groups@),
                    j <= self.groups[i as int].items.len(),
                    self == old(self),
                    ids@ == before + gs[i as int].items.take(j as int).map_values(|t: ItemView| t.db_id),
                decreases self.groups[i as int].items.len() - j,
            {
                ids.push(self.groups[i].items[j].db_id);
                assert(gs[i as int].items.take(j + 1).map_values(|t: ItemView| t.db_id) =~= gs[i as int].items.take(
                    j as int,
                ).map_values(|t: ItemView| t.db_id).push(gs[i as int].items[j as int].db_id));
                j = j + 1;
            }
            assert(gs[i as int].items.take(j as int) =~= gs[i as int].items);
            i = i + 1;
        }
        assert(group_views(self.groups@).take(i as int) =~= group_views(self.groups@));
        self.clearing = true;
        Some(ids)
    }

    /// Ends a clear: the center is left without groups.
    pub fn finish_clear_all(&mut self)
        ensures
            final(self)@ == (CenterView { groups: Seq::empty(), clearing: false, ..old(self)@ }),
            center_wf(final(self)@),
    {
        self.groups.clear();
        self.clearing = false;
        assert(group_views(self.groups@) =~= Seq::<GroupView>::empty());
    }

    /// The estimated height of a group's cards (see [`group_height`]).
    pub fn estimated_group_height(&self, g: &NotificationGroupItem) -> (r: u64)
        requires
            group_height(self@.expanded, g@) <= u64::MAX,
        ensures
            r == group_height(self@.expanded, g@),
    {
        let is_expanded = match self.expanded_groups.get(&g.id) {
            Some(b) => *b,
            None => false,
        };
        if is_expanded && g.items.len() > 1 {
            let extra = (g.items.len() - 1) as u64;
            assert(g@.items.len() == g.items.len());
            100 + extra * 108
        } else {
            100
        }
    }

    /// The estimated height of the center's content (see
    /// [`content_height`]).
    pub fn estimated_content_height(&self) -> (r: u64)
        requires
            content_height(self@) <= u64::MAX,
        ensures
            r == content_height(self@),
    {
        if self.groups.len() == 0 {
            return 0;
        }
        let ghost gs = group_views(self.groups@);
        let mut total: u64 = 24;
        let mut i: usize = 0;
        while i < self.groups.len()
            invariant
                gs == group_views(self.groups@),
                gs.len() > 0,
                content_height(self@) <= u64::MAX,
                i <= self.groups.len(),
                total == 24 + heights(self@.expanded, gs.take(i as int)) + (if i == 0 {
                    0
                } else if i < gs.len() {
                    10 * i
                } else {
                    10 * (i - 1)
                }),
            decreases self.groups.len() - i,
        {
            proof {
                lemma_heights_prefix(self@.expanded, gs, i + 1);
                assert(gs.take(i + 1).drop_last() =~= gs.take(i as int));
            }
            let h = self.estimated_group_height(&self.groups[i]);
            total = total + h;
            if i + 1 < self.groups.len() {
                total = total + 10;
            }
            i = i + 1;
        }
        assert(gs.take(i as int) =~= gs);
        total
    }

    /// The largest group id, 0 when there is no group.
    pub fn max_group_id(&self) -> (r: u64)
        ensures
            r == max_id(self@.groups),
    {
        let mut m: u64 = 0;
        let mut i: usize = 0;
        while i < self.groups.len()
            invariant
                i <= self.groups.len(),
                m == max_id(group_views(self.groups@).take(i as int)),
            decreases self.groups.len() - i,
        {
            let ghost gs = group_views(self.groups@);
            assert(gs.take(i + 1).drop_last() =~= gs.take(i as int));
            if self.groups[i].id > m {
                m = self.groups[i].id;
            }
            i = i + 1;
        }
        assert(group_views(self.groups@).take(i as int) =~= group_views(self.groups@));
        m
    }

    /// Restarts the entrance animation of the first row of `group_id`.
    pub fn bump_row_animation(&mut self, group_id: u64)
        ensures
            final(self)@ == (CenterView { rows: bump(old(self)@.rows, group_id), ..old(self)@ }),
            center_wf(old(self)@) ==> center_wf(final(self)@),
    {
        proof {
            lemma_bump_center_wf(self@, group_id);
        }
        let mut i: usize = 0;
        let ghost rows0 = self.rows@;
        while i < self.rows.len()
            invariant
                i <= self.rows.len(),
                self.rows@ == rows0,
                forall|j: int| 0 <= j < i ==> rows0[j].id != group_id,
                self.groups == old(self).groups,
                self.is_visible == old(self).is_visible,
                self.clearing == old(self).clearing,
                self.expanded_groups == old(self).expanded_groups,
                rows0 == old(self).rows@,
                center_wf(old(self)@) ==> center_wf(CenterView { rows: bump(rows0, group_id), ..old(self)@ }),
            decreases self.rows.len() - i,
        {
            if self.rows[i].id == group_id {
                let e = self.rows[i].anim_epoch;
                let ne = if e == u64::MAX {
                    0
                } else {
                    e + 1
                };
                self.rows.set(i, RowState { id: group_id, anim_epoch: ne });
                proof {
                    lemma_bump_at(rows0, group_id, i as int);
                }
                assert(self.rows@ =~= bump(rows0, group_id));
                return ;
            }
            i = i + 1;
        }
        proof {
            lemma_bump_absent(rows0, group_id);
        }
    }
}

/// Adding a notification keeps the center well-formed: group ids and
/// summaries stay distinct and every count matches its group.
pub proof fn lemma_added_wf(c: CenterView, n: DbNotificationView, now: u64)
    requires
        groups_wf(c.groups),
        can_add(c, n),
    ensures
        groups_wf(added(c, n, now).groups),
{
    let key = summary_key(n.summary);
    lemma_find_group(c.groups, key);
    let r = added(c, n, now).groups;
    match find_group(c.groups, key) {
        Some(i) => {
            let rest = c.groups.remove(i);
            assert forall|a: int| 0 <= a < rest.len() implies #[trigger] rest[a] == c.groups[if a < i { a } else { a + 1 }] by {}
            assert forall|a: int, b: int| 0 <= a < b < r.len() implies #[trigger] r[a].id != #[trigger] r[b].id by {
                let ob = if b - 1 < i { b - 1 } else { b };
                assert(r[b] == rest[b - 1]);
                if a == 0 {
                    assert(r[a].id == c.groups[i].id);
                    assert(ob != i);
                } else {
                    let oa = if a - 1 < i { a - 1 } else { a };
                    assert(r[a] == rest[a - 1]);
                    assert(oa < ob);
                }
            }
            assert forall|a: int, b: int| 0 <= a < b < r.len() implies #[trigger] r[a].app_summary != #[trigger] r[b].app_summary by {
                let ob = if b - 1 < i { b - 1 } else { b };
                assert(r[b] == rest[b - 1]);
                if a == 0 {
                    assert(r[a].app_summary == c.groups[i].app_summary);
                    assert(ob != i);
                } else {
                    let oa = if a - 1 < i { a - 1 } else { a };
                    assert(r[a] == rest[a - 1]);
                    assert(oa < ob);
                }
            }
            assert forall|a: int| 0 <= a < r.len() implies #[trigger] r[a].count == r[a].items.len() by {
                if a > 0 {
                    assert(r[a] == rest[a - 1]);
                }
            }
        },
        None => {
            lemma_max_id(c.groups);
            assert forall|a: int, b: int| 0 <= a < b < r.len() implies #[trigger] r[a].id != #[trigger] r[b].id by {
                assert(r[b] == c.groups[b - 1]);
                if a > 0 {
                    assert(r[a] == c.groups[a - 1]);
                }
            }
            assert forall|a: int, b: int| 0 <= a < b < r.len() implies #[trigger] r[a].app_summary != #[trigger] r[b].app_summary by {
                assert(r[b] == c.groups[b - 1]);
                if a > 0 {
                    assert(r[a] == c.groups[a - 1]);
                }
            }
            assert forall|a: int| 0 <= a < r.len() implies #[trigger] r[a].count == r[a].items.len() by {
                if a > 0 {
                    assert(r[a] == c.groups[a - 1]);
                }
            }
        },
    }
}

/// Closing a notification keeps the center well-formed.
pub proof fn lemma_removed_wf(c: CenterView, db: u32)
    requires
        groups_wf(c.groups),
    ensures
        groups_wf(removed(c, db).groups),
{
    lemma_locate(c.groups, db);
    match locate(c.groups, db) {
        None => {},
        Some((i, j)) => {
            lemma_item_index(c.groups[i].items, db);
            let r = removed(c, db).groups;
            let g = c.groups[i];
            if g.items.remove(j).len() == 0 {
                assert forall|a: int| 0 <= a < r.len() implies #[trigger] r[a] == c.groups[if a < i { a } else { a + 1 }] by {}
                assert forall|a: int, b: int| 0 <= a < b < r.len() implies #[trigger] r[a].id != #[trigger] r[b].id by {
                    assert(r[a] == c.groups[if a < i { a } else { a + 1 }]);
                    assert(r[b] == c.groups[if b < i { b } else { b + 1 }]);
                }
                assert forall|a: int, b: int| 0 <= a < b < r.len() implies #[trigger] r[a].app_summary != #[trigger] r[b].app_summary by {
                    assert(r[a] == c.groups[if a < i { a } else { a + 1 }]);
                    assert(r[b] == c.groups[if b < i { b } else { b + 1 }]);
                }
                assert forall|a: int| 0 <= a < r.len() implies #[trigger] r[a].count == r[a].items.len() by {
                    assert(r[a] == c.groups[if a < i { a } else { a + 1 }]);
                }
            } else {
                assert forall|a: int| 0 <= a < r.len() implies #[trigger] r[a].count == r[a].items.len() by {
                    if a != i {
                        assert(r[a] == c.groups[a]);
                    }
                }
                assert forall|a: int, b: int| 0 <= a < b < r.len() implies #[trigger] r[a].id != #[trigger] r[b].id by {
                    assert(r[a].id == c.groups[a].id);
                    assert(r[b].id == c.groups[b].id);
                }
                assert forall|a: int, b: int| 0 <= a < b < r.len() implies #[trigger] r[a].app_summary != #[trigger] r[b].app_summary by {
                    assert(r[a].app_summary == c.groups[a].app_summary);
                    assert(r[b].app_summary == c.groups[b].app_summary);
                }
            }
        },
    }
}

/// Swiping an item away keeps the center well-formed.
pub proof fn lemma_dismissed_wf(c: CenterView, group_id: u64, item_id: u64)
    requires
        groups_wf(c.groups),
    ensures
        groups_wf(dismissed(c, group_id, item_id).0.groups),
{
    lemma_group_index(c.groups, group_id);
    match group_index(c.groups, group_id) {
        None => {},
        Some(i) => {
            lemma_item_pos(c.groups[i].items, item_id);
            match item_pos(c.groups[i].items, item_id) {
                None => {},
                Some(j) => {
                    let r = dismissed(c, group_id, item_id).0.groups;
                    if c.groups[i].items.remove(j).len() == 0 {
                        assert forall|a: int| 0 <= a < r.len() implies #[trigger] r[a] == c.groups[if a < i { a } else { a + 1 }] by {}
                        assert forall|a: int, b: int| 0 <= a < b < r.len() implies #[trigger] r[a].id != #[trigger] r[b].id by {
                            assert(r[a] == c.groups[if a < i { a } else { a + 1 }]);
                            assert(r[b] == c.groups[if b < i { b } else { b + 1 }]);
                        }
                        assert forall|a: int, b: int| 0 <= a < b < r.len() implies #[trigger] r[a].app_summary != #[trigger] r[b].app_summary by {
                            assert(r[a] == c.groups[if a < i { a } else { a + 1 }]);
                            assert(r[b] == c.groups[if b < i { b } else { b + 1 }]);
                        }
                        assert forall|a: int| 0 <= a < r.len() implies #[trigger] r[a].count == r[a].items.len() by {
                            assert(r[a] == c.groups[if a < i { a } else { a + 1 }]);
                        }
                    } else {
                        assert forall|a: int| 0 <= a < r.len() implies #[trigger] r[a].count == r[a].items.len() by {
                            if a != i {
                                assert(r[a] == c.groups[a]);
                            }
                        }
                        assert forall|a: int, b: int| 0 <= a < b < r.len() implies #[trigger] r[a].id != #[trigger] r[b].id by {
                            assert(r[a].id == c.groups[a].id);
                            assert(r[b].id == c.groups[b].id);
                        }
                        assert forall|a: int, b: int| 0 <= a < b < r.len() implies #[trigger] r[a].app_summary != #[trigger] r[b].app_summary by {
                            assert(r[a].app_summary == c.groups[a].app_summary);
                            assert(r[b].app_summary == c.groups[b].app_summary);
                        }
                    }
                },
            }
        },
    }
}

/// A notification that arrives lands in the top group, as that group's
/// newest item, and that group is the one of its summary.
pub proof fn law_arrival_on_top(c: CenterView, n: DbNotificationView, now: u64)
    requires
        groups_wf(c.groups),
    ensures
        added(c, n, now).groups.len() > 0,
        added(c, n, now).groups[0].app_summary == summary_key(n.summary),
        added(c, n, now).groups[0].items.len() > 0,
        added(c, n, now).groups[0].items[0].db_id == n.id,
{
    lemma_find_group(c.groups, summary_key(n.summary));
}

proof fn lemma_rows_without_absent(rows: Seq<RowState>, id: u64)
    requires
        forall|j: int| 0 <= j < rows.len() ==> rows[j].id != id,
    ensures
        rows_without(rows, id) == rows,
    decreases rows.len(),
{
    if rows.len() > 0 {
        lemma_rows_without_absent(rows.drop_last(), id);
        assert(rows.drop_last().push(rows.last()) =~= rows);
    }
}

proof fn lemma_rows_without_front(r: RowState, rows: Seq<RowState>, id: u64)
    requires
        r.id == id,
    ensures
        rows_without(seq![r] + rows, id) == rows_without(rows, id),
    decreases rows.len(),
{
    if rows.len() > 0 {
        lemma_rows_without_front(r, rows.drop_last(), id);
        assert((seq![r] + rows).drop_last() =~= seq![r] + rows.drop_last());
    } else {
        assert((seq![r] + rows).drop_last() =~= rows);
    }
}

/// Closing a notification undoes its arrival when it opened a group of its
/// own: a summary no group had, an id no item had, and no leftover row or
/// expansion state under the new group's id.
pub proof fn law_close_undoes_arrival(c: CenterView, n: DbNotificationView, now: u64)
    requires
        groups_wf(c.groups),
        can_add(c, n),
        find_group(c.groups, summary_key(n.summary)) is None,
        locate(c.groups, n.id) is None,
        forall|j: int| 0 <= j < c.rows.len() ==> c.rows[j].id != (max_id(c.groups) + 1000) as u64,
        !c.expanded.contains_key((max_id(c.groups) + 1000) as u64),
    ensures
        removed(added(c, n, now), n.id) == c,
{
    let a = added(c, n, now);
    let next = (max_id(c.groups) + 1000) as u64;
    assert(item_index(a.groups[0].items, n.id) == Some(0int));
    assert(locate(a.groups, n.id) == Some((0int, 0int)));
    assert(a.groups[0].items.remove(0) =~= Seq::<ItemView>::empty());
    assert(a.groups.remove(0) =~= c.groups);
    lemma_rows_without_front(RowState { id: next, anim_epoch: 1 }, c.rows, next);
    lemma_rows_without_absent(c.rows, next);
    assert(c.expanded.remove(next) =~= c.expanded);
    assert(removed(a, n.id) =~= c);
}

proof fn lemma_bump_at(rows: Seq<RowState>, id: u64, i: int)
    requires
        0 <= i < rows.len(),
        rows[i].id == id,
        forall|j: int| 0 <= j < i ==> rows[j].id != id,
    ensures
        bump(rows, id) == rows.update(i, RowState { id, anim_epoch: next_epoch(rows[i].anim_epoch) }),
    decreases rows.len(),
{
    if i > 0 {
        lemma_bump_at(rows.drop_first(), id, i - 1);
        assert(seq![rows[0]] + rows.drop_first().update(
            i - 1,
            RowState { id, anim_epoch: next_epoch(rows[i].anim_epoch) },
        ) =~= rows.update(i, RowState { id, anim_epoch: next_epoch(rows[i].anim_epoch) }));
    }
}

proof fn lemma_bump_absent(rows: Seq<RowState>, id: u64)
    requires
        forall|j: int| 0 <= j < rows.len() ==> rows[j].id != id,
    ensures
        bump(rows, id) == rows,
    decreases rows.len(),
{
    if rows.len() > 0 {
        lemma_bump_absent(rows.drop_first(), id);
        assert(seq![rows[0]] + rows.drop_first() =~= rows);
    }
}

/// Toggling a group twice leaves it as expanded or collapsed as it was.
pub proof fn law_toggle_group_twice(expanded: Map<u64, bool>, id: u64)
    ensures
        is_expanded(
            expanded.insert(id, !is_expanded(expanded, id)).insert(
                id,
                !is_expanded(expanded.insert(id, !is_expanded(expanded, id)), id),
            ),
            id,
        ) == is_expanded(expanded, id),
{
}

proof fn lemma_bump_ids(rows: Seq<RowState>, id: u64)
    ensures
        bump(rows, id).len() == rows.len(),
        forall|j: int| 0 <= j < rows.len() ==> #[trigger] bump(rows, id)[j].id == rows[j].id,
    decreases rows.len(),
{
    if rows.len() > 0 && rows[0].id != id {
        lemma_bump_ids(rows.drop_first(), id);
        assert forall|j: int| 0 <= j < rows.len() implies #[trigger] bump(rows, id)[j].id == rows[j].id by {
            if j > 0 {
                assert(bump(rows, id)[j] == bump(rows.drop_first(), id)[j - 1]);
            }
        }
    }
}

proof fn lemma_bump_has_row(rows: Seq<RowState>, id: u64, x: u64)
    requires
        has_row(rows, x),
    ensures
        has_row(bump(rows, id), x),
{
    lemma_bump_ids(rows, id);
    let j = choose|j: int| 0 <= j < rows.len() && rows[j].id == x;
    assert(bump(rows, id)[j].id == x);
}

proof fn lemma_rows_without_has_row(rows: Seq<RowState>, id: u64, x: u64)
    requires
        has_row(rows, x),
        x != id,
    ensures
        has_row(rows_without(rows, id), x),
    decreases rows.len(),
{
    let r = rows_without(rows.drop_last(), id);
    if rows.last().id == x {
        assert(rows_without(rows, id) == r.push(rows.last()));
        assert(r.push(rows.last())[r.len() as int].id == x);
    } else {
        let j = choose|j: int| 0 <= j < rows.len() && rows[j].id == x;
        assert(rows.drop_last()[j].id == x);
        lemma_rows_without_has_row(rows.drop_last(), id, x);
        let k = choose|k: int| 0 <= k < r.len() && r[k].id == x;
        if rows.last().id != id {
            assert(r.push(rows.last())[k].id == x);
        }
    }
}

/// Restarting a row's animation keeps the center's invariant.
pub proof fn lemma_bump_center_wf(c: CenterView, id: u64)
    ensures
        center_wf(c) ==> center_wf(CenterView { rows: bump(c.rows, id), ..c }),
{
    if center_wf(c) {
        assert forall|i: int| 0 <= i < c.groups.len() implies has_row(bump(c.rows, id), (#[trigger] c.groups[i]).id) by {
            lemma_bump_has_row(c.rows, id, c.groups[i].id);
        }
    }
}

/// Adding a notification keeps the center's invariant.
pub proof fn lemma_added_center_wf(c: CenterView, n: DbNotificationView, now: u64)
    requires
        center_wf(c),
        can_add(c, n),
    ensures
        center_wf(added(c, n, now)),
{
    lemma_added_wf(c, n, now);
    let key = summary_key(n.summary);
    lemma_find_group(c.groups, key);
    let a = added(c, n, now);
    match find_group(c.groups, key) {
        Some(i) => {
            let rest = c.groups.remove(i);
            assert forall|k: int| 0 <= k < a.groups.len() implies (#[trigger] a.groups[k]).items.len() > 0
                && has_row(a.rows, a.groups[k].id) by {
                if k == 0 {
                    lemma_bump_has_row(c.rows, c.groups[i].id, c.groups[i].id);
                } else {
                    let o = if k - 1 < i { k - 1 } else { k };
                    assert(a.groups[k] == rest[k - 1]);
                    assert(rest[k - 1] == c.groups[o]);
                    lemma_bump_has_row(c.rows, c.groups[i].id, c.groups[o].id);
                }
            }
        },
        None => {
            assert forall|k: int| 0 <= k < a.groups.len() implies (#[trigger] a.groups[k]).items.len() > 0
                && has_row(a.rows, a.groups[k].id) by {
                if k == 0 {
                    assert(a.rows[0].id == a.groups[0].id);
                } else {
                    assert(a.groups[k] == c.groups[k - 1]);
                    let j = choose|j: int| 0 <= j < c.rows.len() && c.rows[j].id == c.groups[k - 1].id;
                    assert(a.rows[j + 1] == c.rows[j]);
                }
            }
        },
    }
}

/// Closing a notification keeps the center's invariant.
pub proof fn lemma_removed_center_wf(c: CenterView, db: u32)
    requires
        center_wf(c),
    ensures
        center_wf(removed(c, db)),
{
    lemma_removed_wf(c, db);
    lemma_locate(c.groups, db);
    match locate(c.groups, db) {
        None => {},
        Some((i, j)) => {
            let r = removed(c, db);
            let g = c.groups[i];
            if g.items.remove(j).len() == 0 {
                assert forall|k: int| 0 <= k < r.groups.len() implies (#[trigger] r.groups[k]).items.len() > 0
                    && has_row(r.rows, r.groups[k].id) by {
                    let o = if k < i { k } else { k + 1 };
                    assert(r.groups[k] == c.groups[o]);
                    assert(c.groups[o].id != g.id);
                    lemma_rows_without_has_row(c.rows, g.id, c.groups[o].id);
                }
            } else {
                assert forall|k: int| 0 <= k < r.groups.len() implies (#[trigger] r.groups[k]).items.len() > 0
                    && has_row(r.rows, r.groups[k].id) by {
                    if k != i {
                        assert(r.groups[k] == c.groups[k]);
                    }
                }
            }
        },
    }
}

/// Swiping an item away keeps the center's invariant.
pub proof fn lemma_dismissed_center_wf(c: CenterView, group_id: u64, item_id: u64)
    requires
        center_wf(c),
    ensures
        center_wf(dismissed(c, group_id, item_id).0),
{
    lemma_dismissed_wf(c, group_id, item_id);
    lemma_group_index(c.groups, group_id);
    match group_index(c.groups, group_id) {
        None => {},
        Some(i) => {
            lemma_item_pos(c.groups[i].items, item_id);
            match item_pos(c.groups[i].items, item_id) {
                None => {},
                Some(j) => {
                    let r = dismissed(c, group_id, item_id).0;
                    if c.groups[i].items.remove(j).len() == 0 {
                        assert forall|k: int| 0 <= k < r.groups.len() implies (#[trigger] r.groups[k]).items.len() > 0
                            && has_row(r.rows, r.groups[k].id) by {
                            let o = if k < i { k } else { k + 1 };
                            assert(r.groups[k] == c.groups[o]);
                            assert(c.groups[o].id != group_id);
                            lemma_rows_without_has_row(c.rows, group_id, c.groups[o].id);
                        }
                    } else {
                        assert forall|k: int| 0 <= k < r.groups.len() implies (#[trigger] r.groups[k]).items.len() > 0
                            && has_row(r.rows, r.groups[k].id) by {
                            if k != i {
                                assert(r.groups[k] == c.groups[k]);
                            }
                        }
                    }
                },
            }
        },
    }
}

/// Swiping a whole group away keeps the center's invariants.
pub proof fn lemma_group_dismissed_wf(c: CenterView, id: u64)
    ensures
        groups_wf(c.groups) ==> groups_wf(group_dismissed(c, id).0.groups),
        center_wf(c) ==> center_wf(group_dismissed(c, id).0),
{
    lemma_group_index(c.groups, id);
    let r = group_dismissed(c, id).0;
    match group_index(c.groups, id) {
        Some(i) => {
            assert forall|a: int| 0 <= a < r.groups.len() implies #[trigger] r.groups[a] == c.groups[if a < i { a } else { a + 1 }] by {}
            if groups_wf(c.groups) {
                assert forall|a: int, b: int| 0 <= a < b < r.groups.len() implies #[trigger] r.groups[a].id != #[trigger] r.groups[b].id by {
                    assert(r.groups[a] == c.groups[if a < i { a } else { a + 1 }]);
                    assert(r.groups[b] == c.groups[if b < i { b } else { b + 1 }]);
                }
                assert forall|a: int, b: int| 0 <= a < b < r.groups.len() implies #[trigger] r.groups[a].app_summary != #[trigger] r.groups[b].app_summary by {
                    assert(r.groups[a] == c.groups[if a < i { a } else { a + 1 }]);
                    assert(r.groups[b] == c.groups[if b < i { b } else { b + 1 }]);
                }
                assert forall|a: int| 0 <= a < r.groups.len() implies #[trigger] r.groups[a].count == r.groups[a].items.len() by {
                    assert(r.groups[a] == c.groups[if a < i { a } else { a + 1 }]);
                }
            }
            if center_wf(c) {
                assert forall|k: int| 0 <= k < r.groups.len() implies (#[trigger] r.groups[k]).items.len() > 0
                    && has_row(r.rows, r.groups[k].id) by {
                    let o = if k < i { k } else { k + 1 };
                    assert(r.groups[k] == c.groups[o]);
                    assert(c.groups[o].id != id);
                    lemma_rows_without_has_row(c.rows, id, c.groups[o].id);
                }
            }
        },
        None => {
            if center_wf(c) {
                assert forall|k: int| 0 <= k < r.groups.len() implies (#[trigger] r.groups[k]).items.len() > 0
                    && has_row(r.rows, r.groups[k].id) by {
                    lemma_rows_without_has_row(c.rows, id, c.groups[k].id);
                }
            }
        },
    }
}

/// The arriving notification's group, whether it opened or joined, comes
/// first and shows the arrival: the age label of the arriving notification,
/// the preview and thumbnail of its (newest) item.
pub proof fn law_arrival_shows_newest_age(c: CenterView, n: DbNotificationView, now: u64)
    ensures
        added(c, n, now).groups.len() > 0,
        added(c, n, now).groups[0].time_ago == "· "@ + time_ago_text(now, received(n)),
        added(c, n, now).groups[0].items.len() > 0,
        added(c, n, now).groups[0].items[0].db_id == n.id,
        added(c, n, now).groups[0].preview == added(c, n, now).groups[0].items[0].preview,
        added(c, n, now).groups[0].has_thumbnail == (image_path(n.hints) is Some),
{
}

/// A group shows its newest item: it has one, and its preview and
/// thumbnail flag are that item's.
pub open spec fn shows_newest(g: GroupView) -> bool {
    &&& g.items.len() > 0
    &&& g.preview == g.items[0].preview
    &&& g.has_thumbnail == g.items[0].has_thumbnail
}

/// Every group of the center shows its newest item.
pub open spec fn all_show_newest(groups: Seq<GroupView>) -> bool {
    forall|i: int| 0 <= i < groups.len() ==> shows_newest(#[trigger] groups[i])
}

/// An arrival keeps every group showing its newest item.
pub proof fn law_arrival_keeps_newest_shown(c: CenterView, n: DbNotificationView, now: u64)
    requires
        all_show_newest(c.groups),
    ensures
        all_show_newest(added(c, n, now).groups),
{
    let key = summary_key(n.summary);
    lemma_find_group(c.groups, key);
    let r = added(c, n, now).groups;
    match find_group(c.groups, key) {
        Some(i) => {
            let rest = c.groups.remove(i);
            assert forall|k: int| 0 <= k < r.len() implies shows_newest(#[trigger] r[k]) by {
                if k > 0 {
                    assert(r[k] == rest[k - 1]);
                    assert(rest[k - 1] == c.groups[if k - 1 < i { k - 1 } else { k }]);
                }
            }
        },
        None => {
            assert forall|k: int| 0 <= k < r.len() implies shows_newest(#[trigger] r[k]) by {
                if k > 0 {
                    assert(r[k] == c.groups[k - 1]);
                }
            }
        },
    }
}

/// Closing a notification keeps every group showing its newest item: a
/// group that loses its newest notification shows the next newest one.
pub proof fn law_close_keeps_newest_shown(c: CenterView, db: u32)
    requires
        all_show_newest(c.groups),
    ensures
        all_show_newest(removed(c, db).groups),
{
    lemma_locate(c.groups, db);
    match locate(c.groups, db) {
        None => {},
        Some((i, j)) => {
            let r = removed(c, db).groups;
            if c.groups[i].items.remove(j).len() == 0 {
                assert forall|k: int| 0 <= k < r.len() implies shows_newest(#[trigger] r[k]) by {
                    assert(r[k] == c.groups[if k < i { k } else { k + 1 }]);
                }
            } else {
                assert forall|k: int| 0 <= k < r.len() implies shows_newest(#[trigger] r[k]) by {
                    if k != i {
                        assert(r[k] == c.groups[k]);
                    }
                }
            }
        },
    }
}

/// Swiping an item away keeps every group showing its newest item.
pub proof fn law_swipe_keeps_newest_shown(c: CenterView, group_id: u64, item_id: u64)
    requires
        all_show_newest(c.groups),
    ensures
        all_show_newest(dismissed(c, group_id, item_id).0.groups),
{
    lemma_group_index(c.groups, group_id);
    match group_index(c.groups, group_id) {
        None => {},
        Some(i) => {
            lemma_item_pos(c.groups[i].items, item_id);
            match item_pos(c.groups[i].items, item_id) {
                None => {},
                Some(j) => {
                    let r = dismissed(c, group_id, item_id).0.groups;
                    if c.groups[i].items.remove(j).len() == 0 {
                        assert forall|k: int| 0 <= k < r.len() implies shows_newest(#[trigger] r[k]) by {
                            assert(r[k] == c.groups[if k < i { k } else { k + 1 }]);
                        }
                    } else {
                        assert forall|k: int| 0 <= k < r.len() implies shows_newest(#[trigger] r[k]) by {
                            if k != i {
                                assert(r[k] == c.groups[k]);
                            }
                        }
                    }
                },
            }
        },
    }
}

/// A swipe reports the notification of the item swiped: when it reports
/// `d`, group `group_id` held an item `item_id` of notification `d`, and
/// one item fewer remains in it (or the group is gone); when it reports
/// nothing, that group holds no item `item_id` and nothing changes.
pub proof fn law_swipe_reports_swiped(c: CenterView, group_id: u64, item_id: u64)
    requires
        groups_wf(c.groups),
    ensures
        match dismissed(c, group_id, item_id).1 {
            Some(d) => exists|k: int, j: int|
                #![trigger c.groups[k].items[j]]
                0 <= k < c.groups.len() && c.groups[k].id == group_id && 0 <= j < c.groups[k].items.len()
                    && c.groups[k].items[j].id == item_id && c.groups[k].items[j].db_id == d && (
                c.groups[k].items.len() > 1 ==> dismissed(c, group_id, item_id).0.groups[k].items.len()
                    == c.groups[k].items.len() - 1) && (c.groups[k].items.len() == 1
                    ==> dismissed(c, group_id, item_id).0.groups.len() == c.groups.len() - 1),
            None => dismissed(c, group_id, item_id).0 == c && forall|k: int, j: int|
                0 <= k < c.groups.len() && c.groups[k].id == group_id && 0 <= j < c.groups[k].items.len()
                    ==> #[trigger] c.groups[k].items[j].id != item_id,
        },
{
    lemma_group_index(c.groups, group_id);
    match group_index(c.groups, group_id) {
        None => {},
        Some(i) => {
            lemma_item_pos(c.groups[i].items, item_id);
            match item_pos(c.groups[i].items, item_id) {
                None => {
                    assert forall|k: int, j: int|
                        0 <= k < c.groups.len() && c.groups[k].id == group_id && 0 <= j < c.groups[k].items.len()
                            implies #[trigger] c.groups[k].items[j].id != item_id by {
                        if k != i {
                            assert(c.groups[k].id != c.groups[i].id);
                        }
                    }
                },
                Some(j) => {
                    assert(c.groups[i].items[j].id == item_id);
                },
            }
        },
    }
}

/// Swiping a whole group away reports each of its notifications, one per
/// item and in its order, and leaves no group with that id; with no such
/// group nothing is reported.
pub proof fn law_group_swipe_reports_all(c: CenterView, group_id: u64)
    requires
        groups_wf(c.groups),
    ensures
        forall|i: int| 0 <= i < group_dismissed(c, group_id).0.groups.len()
            ==> (#[trigger] group_dismissed(c, group_id).0.groups[i]).id != group_id,
        (forall|k: int| 0 <= k < c.groups.len() ==> (#[trigger] c.groups[k]).id != group_id)
            ==> group_dismissed(c, group_id).1.len() == 0,
        forall|k: int|
            0 <= k < c.groups.len() && (#[trigger] c.groups[k]).id == group_id ==> group_dismissed(c, group_id).1.len()
                == c.groups[k].items.len() && forall|j: int|
                0 <= j < c.groups[k].items.len() ==> group_dismissed(c, group_id).1[j]
                    == #[trigger] c.groups[k].items[j].db_id,
{
    lemma_group_index(c.groups, group_id);
    let r = group_dismissed(c, group_id);
    match group_index(c.groups, group_id) {
        Some(i) => {
            assert forall|a: int| 0 <= a < r.0.groups.len() implies (#[trigger] r.0.groups[a]).id != group_id by {
                assert(r.0.groups[a] == c.groups[if a < i { a } else { a + 1 }]);
            }
            assert forall|k: int| 0 <= k < c.groups.len() && (#[trigger] c.groups[k]).id == group_id implies k == i by {
                if k != i {
                    assert(c.groups[k].id != c.groups[i].id);
                }
            }
        },
        None => {},
    }
}

} // verus!
