//! Filling the notification center from the daemon's stored notifications:
//! one group per summary, newest notification first within a group, groups
//! ordered by their newest notification.
use vstd::prelude::*;
use vstd::multiset::Multiset;
use vstd::string::StringExecFns;
use crate::center::{
    added, body_fits, bump, can_add, center_wf, clone_opt, dismissed, displayable, distinct_hint_keys,
    find_group, find_image_path, group_dismissed, group_views, groups_wf, has_row, image_path,
    is_expanded, item_views, lemma_added_center_wf, lemma_bump_center_wf, lemma_dismissed_center_wf,
    lemma_find_group, lemma_group_dismissed_wf, lemma_removed_center_wf, name_fits, received, removed,
    CenterView, DbNotification, DbNotificationView, GroupView, ItemView, NotificationCenter,
    NotificationGroupItem, NotificationItem, RowState,
};
use crate::helper::{
    format_notification_body, format_notification_name, format_notification_summary,
    notification_body_text, notification_name_text, summary_key, time_ago, time_ago_text,
};
use crate::text::{join_text, same_text};
use crate::clock::epoch_seconds;

verus! {

broadcast use vstd::seq_lib::group_to_multiset_ensures;

/// The item notification `n` makes in group `gid`.
pub open spec fn item_of(gid: u64, n: DbNotificationView) -> ItemView {
    ItemView {
        id: (gid + n.id) as u64,
        db_id: n.id,
        preview: notification_body_text(n.app_name, n.body),
        has_thumbnail: image_path(n.hints) is Some,
        icon_path: image_path(n.hints),
    }
}

/// The items group `gid` gets from the notifications filed under `key`, in
/// the order of `ns`.
pub open spec fn members(ns: Seq<DbNotificationView>, key: Seq<char>, gid: u64) -> Seq<ItemView>
    decreases ns.len(),
{
    if ns.len() == 0 {
        Seq::empty()
    } else {
        members(ns.drop_last(), key, gid) + if summary_key(ns.last().summary) == key {
            seq![item_of(gid, ns.last())]
        } else {
            Seq::<ItemView>::empty()
        }
    }
}

/// Items ordered from the highest notification id down.
pub open spec fn sorted_desc(items: Seq<ItemView>) -> bool {
    forall|i: int, j: int| 0 <= i < j < items.len() ==> #[trigger] items[i].db_id >= #[trigger] items[j].db_id
}

/// Group `gid` of summary `key` holding `items`, headed by notification `n`.
pub open spec fn header_of(
    gid: u64,
    key: Seq<char>,
    n: DbNotificationView,
    now: u64,
    items: Seq<ItemView>,
) -> GroupView {
    GroupView {
        id: gid,
        app_name: notification_name_text(n.app_name),
        app_summary: key,
        time_ago: "· "@ + time_ago_text(now, received(n)),
        preview: notification_body_text(n.app_name, n.body),
        count: items.len() as u32,
        has_thumbnail: image_path(n.hints) is Some,
        icon_path: image_path(n.hints),
        items,
    }
}

/// A group loaded from `ns` at time `now`: not empty, newest first, holding
/// exactly the notifications of its summary, and headed by its newest one.
pub open spec fn loaded_group(ns: Seq<DbNotificationView>, now: u64, g: GroupView) -> bool {
    &&& g.items.len() > 0
    &&& sorted_desc(g.items)
    &&& g.items.to_multiset() == members(ns, g.app_summary, g.id).to_multiset()
    &&& exists|k: int|
        0 <= k < ns.len() && summary_key(ns[k].summary) == g.app_summary && g.items[0] == item_of(
            g.id,
            ns[k],
        ) && g == #[trigger] header_of(g.id, g.app_summary, ns[k], now, g.items)
}

/// The groups of a load from `ns` at time `now`: well-formed, one per
/// summary of `ns`, ids 1, 1001, 2001, ... in some order, and ordered by
/// their newest notification, highest id first.
pub open spec fn loaded(ns: Seq<DbNotificationView>, now: u64, groups: Seq<GroupView>) -> bool {
    &&& groups_wf(groups)
    &&& forall|i: int| 0 <= i < groups.len() ==> loaded_group(ns, now, #[trigger] groups[i])
    &&& forall|i: int|
        #![trigger groups[i]]
        0 <= i < groups.len() ==> exists|t: int| 0 <= t < groups.len() && groups[i].id == #[trigger] slot_id(t)
    &&& forall|k: int| 0 <= k < ns.len() ==> #[trigger] find_group(groups, summary_key(ns[k].summary)) is Some
    &&& forall|i: int, j: int|
        0 <= i < j < groups.len() ==> #[trigger] groups[i].items[0].db_id >= #[trigger] groups[j].items[0].db_id
}

/// The id of the group loaded in slot `t`: 1, 1001, 2001, ...
pub open spec fn slot_id(t: int) -> int {
    1 + 1000 * t
}

/// The views of a list of notifications.
pub open spec fn notif_views(ns: Seq<DbNotification>) -> Seq<DbNotificationView> {
    ns.map_values(|n: DbNotification| n@)
}

/// Notification `k` heads its summary's group among `ns`: no notification
/// of that summary has a higher id, and none before it has the same id.
pub open spec fn heads_group(ns: Seq<DbNotificationView>, k: int) -> bool {
    forall|j: int|
        0 <= j < ns.len() && summary_key(#[trigger] ns[j].summary) == summary_key(ns[k].summary) ==> ns[j].id
            <= ns[k].id && (j < k ==> ns[j].id < ns[k].id)
}

/// What a load needs of the stored notifications: every body preview cuts
/// on a character boundary, and so does the name preview of each group's
/// head, the only names the load shows; every notification's hints name
/// each key once.
pub open spec fn loadable(ns: Seq<DbNotificationView>) -> bool {
    forall|k: int|
        0 <= k < ns.len() ==> body_fits(#[trigger] ns[k]) && distinct_hint_keys(ns[k].hints) && (heads_group(ns, k)
            ==> name_fits(ns[k]))
}

/// Group `b` of a load in progress over the first `m` notifications, headed
/// by notification `f` among them; its header is not filled in yet.
pub open spec fn group_building(ns: Seq<DbNotificationView>, m: int, g: GroupView, b: int, f: int) -> bool {
    &&& g.id == slot_id(b)
    &&& g.items.len() > 0
    &&& sorted_desc(g.items)
    &&& g.items.to_multiset() == members(ns.take(m), g.app_summary, g.id).to_multiset()
    &&& 0 <= f < m
    &&& summary_key(ns[f].summary) == g.app_summary
    &&& g.items[0] == item_of(g.id, ns[f])
    &&& forall|j: int|
        0 <= j < m && summary_key(#[trigger] ns[j].summary) == g.app_summary ==> ns[j].id <= ns[f].id && (j
            < f ==> ns[j].id < ns[f].id)
}

/// Group `b` of a finished load over the first `m` notifications, headed
/// by notification `f`.
pub open spec fn group_ok(
    ns: Seq<DbNotificationView>,
    m: int,
    now: u64,
    g: GroupView,
    b: int,
    f: int,
) -> bool {
    &&& g.id == slot_id(b)
    &&& g.items.len() > 0
    &&& sorted_desc(g.items)
    &&& g.items.to_multiset() == members(ns.take(m), g.app_summary, g.id).to_multiset()
    &&& 0 <= f < m
    &&& summary_key(ns[f].summary) == g.app_summary
    &&& g.items[0] == item_of(g.id, ns[f])
    &&& g == header_of(g.id, g.app_summary, ns[f], now, g.items)
}

/// A load in progress over the first `m` notifications.
pub open spec fn partial_ok(
    ns: Seq<DbNotificationView>,
    m: int,
    pre: Seq<GroupView>,
    first: Seq<usize>,
) -> bool {
    &&& pre.len() == first.len()
    &&& pre.len() <= m
    &&& forall|b: int| 0 <= b < pre.len() ==> group_building(ns, m, #[trigger] pre[b], b, first[b] as int)
    &&& forall|a: int, b: int|
        0 <= a < b < pre.len() ==> #[trigger] pre[a].app_summary != #[trigger] pre[b].app_summary
    &&& forall|k: int| 0 <= k < m ==> #[trigger] find_group(pre, summary_key(ns[k].summary)) is Some
}

proof fn lemma_members_len(ns: Seq<DbNotificationView>, key: Seq<char>, gid: u64)
    ensures
        members(ns, key, gid).len() <= ns.len(),
    decreases ns.len(),
{
    if ns.len() > 0 {
        lemma_members_len(ns.drop_last(), key, gid);
    }
}

proof fn lemma_members_step(ns: Seq<DbNotificationView>, m: int, key: Seq<char>, gid: u64)
    requires
        0 <= m < ns.len(),
    ensures
        members(ns.take(m + 1), key, gid) == members(ns.take(m), key, gid) + if summary_key(ns[m].summary) == key {
            seq![item_of(gid, ns[m])]
        } else {
            Seq::<ItemView>::empty()
        },
{
    assert(ns.take(m + 1).drop_last() =~= ns.take(m));
    assert(ns.take(m + 1).last() == ns[m]);
}

proof fn lemma_members_none(ns: Seq<DbNotificationView>, key: Seq<char>, gid: u64)
    requires
        forall|k: int| 0 <= k < ns.len() ==> summary_key(ns[k].summary) != key,
    ensures
        members(ns, key, gid) == Seq::<ItemView>::empty(),
    decreases ns.len(),
{
    if ns.len() > 0 {
        lemma_members_none(ns.drop_last(), key, gid);
        assert(summary_key(ns.last().summary) != key);
        assert(Seq::<ItemView>::empty() + Seq::<ItemView>::empty() =~= Seq::<ItemView>::empty());
    }
}

fn item_for(gid: u64, n: &DbNotification) -> (r: NotificationItem)
    requires
        body_fits(n@),
        gid + n.id <= u64::MAX,
    ensures
        r@ == item_of(gid, n@),
{
    let path = find_image_path(&n.hints);
    NotificationItem {
        id: gid + n.id as u64,
        db_id: n.id,
        preview: format_notification_body(n.app_name.as_str(), n.body.as_str()),
        has_thumbnail: path.is_some(),
        icon_path: path,
    }
}

fn set_header(g: &mut NotificationGroupItem, n: &DbNotification, now: u64)
    requires
        displayable(n@),
        old(g).items.len() <= u32::MAX,
    ensures
        final(g)@ == header_of(old(g).id, old(g)@.app_summary, n@, now, old(g)@.items),
{
    g.app_name = format_notification_name(n.app_name.as_str());
    let ts = match n.received_at {
        Some(t) => t,
        None => 0,
    };
    let ago = time_ago(now, ts);
    g.time_ago = join_text("· ", ago.as_str());
    g.preview = format_notification_body(n.app_name.as_str(), n.body.as_str());
    let path = find_image_path(&n.hints);
    g.has_thumbnail = path.is_some();
    g.icon_path = path;
    g.count = g.items.len() as u32;
}

/// Inserts `item` after every item with an id at least as high.
fn insert_sorted(items: &mut Vec<NotificationItem>, item: NotificationItem) -> (p: usize)
    requires
        sorted_desc(item_views(old(items)@)),
    ensures
        p <= old(items)@.len(),
        item_views(final(items)@) == item_views(old(items)@).insert(p as int, item@),
        sorted_desc(item_views(final(items)@)),
        p == 0 <==> (old(items)@.len() == 0 || old(items)@[0].db_id < item.db_id),
{
    let ghost old_v = item_views(items@);
    let mut p: usize = 0;
    while p < items.len() && items[p].db_id >= item.db_id
        invariant
            p <= items@.len(),
            items@ == old(items)@,
            old_v == item_views(items@),
            forall|j: int| 0 <= j < p ==> items@[j].db_id >= item.db_id,
        decreases items@.len() - p,
    {
        p = p + 1;
    }
    let ghost iv = item@;
    items.insert(p, item);
    assert(item_views(items@) =~= old_v.insert(p as int, iv));
    assert forall|i: int, j: int| 0 <= i < j < item_views(items@).len() implies #[trigger] item_views(items@)[i].db_id >= #[trigger] item_views(items@)[j].db_id by {
        let v = item_views(items@);
        if i < p && j < p {
            assert(v[i] == old_v[i] && v[j] == old_v[j]);
        } else if i < p && j == p {
        } else if i < p {
            assert(v[i] == old_v[i] && v[j] == old_v[j - 1]);
        } else if i == p {
            assert(v[j] == old_v[j - 1]);
            if p < old_v.len() {
                assert(old_v[p as int].db_id < iv.db_id);
                if j - 1 > p {
                    assert(old_v[p as int].db_id >= old_v[j - 1].db_id);
                }
            }
        } else {
            assert(v[i] == old_v[i - 1] && v[j] == old_v[j - 1]);
        }
    }
    p
}


/// Whether some group is filed under `key`.
proof fn lemma_find_group_iff(groups: Seq<GroupView>, key: Seq<char>, j: int)
    requires
        0 <= j < groups.len(),
        groups[j].app_summary == key,
    ensures
        find_group(groups, key) is Some,
{
    lemma_find_group(groups, key);
}

/// Files notification `m` into the groups built from the ones before it.
fn add_to_groups(
    pre: &mut Vec<NotificationGroupItem>,
    first: &mut Vec<usize>,
    notifs: &Vec<DbNotification>,
    m: usize,
)
    requires
        m < notifs.len() <= u32::MAX,
        forall|k: int| 0 <= k < notifs.len() ==> body_fits(#[trigger] notifs@[k]@),
        partial_ok(notif_views(notifs@), m as int, group_views(old(pre)@), old(first)@),
    ensures
        partial_ok(notif_views(notifs@), m + 1, group_views(final(pre)@), final(first)@),
{
    let ghost ns = notif_views(notifs@);
    let ghost pv = group_views(pre@);
    let n = &notifs[m];
    assert(ns[m as int] == n@);
    let key = format_notification_summary(n.summary.as_str());
    let mut b: usize = 0;
    while b < pre.len()
        invariant
            b <= pre@.len(),
            pv == group_views(pre@),
            forall|j: int| 0 <= j < b ==> pv[j].app_summary != key@,
        ensures
            b <= pre@.len(),
            pv == group_views(pre@),
            forall|j: int| 0 <= j < b ==> pv[j].app_summary != key@,
            b < pre@.len() ==> pv[b as int].app_summary == key@,
        decreases pre@.len() - b,
    {
        if same_text(pre[b].app_summary.as_str(), key.as_str()) {
            break;
        }
        b = b + 1;
    }
    proof {
        lemma_members_step(ns, m as int, key@, 0);
        assert forall|c: int| 0 <= c < pv.len() && c != b implies #[trigger] members(ns.take(m + 1), pv[c].app_summary, pv[c].id)
            == members(ns.take(m as int), pv[c].app_summary, pv[c].id) by {
            lemma_members_step(ns, m as int, pv[c].app_summary, pv[c].id);
            if c < b {
            } else {
                assert(pv[c].app_summary != pv[b as int].app_summary);
            }
            assert(members(ns.take(m as int), pv[c].app_summary, pv[c].id) + Seq::<ItemView>::empty()
                =~= members(ns.take(m as int), pv[c].app_summary, pv[c].id));
        }
    }
    if b < pre.len() {
        let ghost gv = pv[b as int];
        let ghost f = first@[b as int];
        let mut g = pre.remove(b);
        assert(g@ == gv);
        assert(group_building(ns, m as int, gv, b as int, f as int));
        let item = item_for(g.id, n);
        let ghost iv = item@;
        let p = insert_sorted(&mut g.items, item);
        proof {
            lemma_members_step(ns, m as int, gv.app_summary, gv.id);
            let old_m = members(ns.take(m as int), gv.app_summary, gv.id);
            assert(old_m + seq![iv] =~= old_m.push(iv));
            vstd::seq_lib::to_multiset_insert(gv.items, p as int, iv);
            assert(gv.items[0] == item_of(gv.id, ns[f as int]));
        }
        if p == 0 {
            first.set(b, m);
        } else {
            assert(item_views(g.items@)[0] == gv.items[0]);
        }
        let ghost ng = g@;
        pre.insert(b, g);
        proof {
            let pv2 = group_views(pre@);
            assert(pv2 =~= pv.update(b as int, ng));
            assert(group_building(ns, m + 1, ng, b as int, first@[b as int] as int));
            assert forall|c: int| 0 <= c < pv2.len() implies group_building(ns, m + 1, #[trigger] pv2[c], c, first@[c] as int) by {
                if c != b {
                    assert(pv2[c] == pv[c]);
                    assert(group_building(ns, m as int, pv[c], c, first@[c] as int));
                    if c > b {
                        assert(pv[b as int].app_summary != pv[c].app_summary);
                    }
                    assert(summary_key(ns[m as int].summary) != pv[c].app_summary);
                }
            }
            assert forall|k: int| 0 <= k < m + 1 implies #[trigger] find_group(pv2, summary_key(ns[k].summary)) is Some by {
                if k < m {
                    let kk = summary_key(ns[k].summary);
                    assert(find_group(pv, kk) is Some);
                    lemma_find_group(pv, kk);
                    let j = find_group(pv, kk)->0;
                    lemma_find_group_iff(pv2, kk, j);
                } else {
                    lemma_find_group_iff(pv2, summary_key(ns[k].summary), b as int);
                }
            }
        }
    } else {
        proof {
            assert forall|k: int| 0 <= k < m implies summary_key(ns[k].summary) != key@ by {
                let kk = summary_key(ns[k].summary);
                assert(find_group(pv, kk) is Some);
                lemma_find_group(pv, kk);
            }
            lemma_members_none(ns.take(m as int), key@, (1 + 1000 * pv.len()) as u64);
            lemma_members_step(ns, m as int, key@, (1 + 1000 * pv.len()) as u64);
        }
        let gid = 1 + 1000 * (pre.len() as u64);
        let item = item_for(gid, n);
        let ghost iv = item@;
        let mut items = Vec::new();
        items.push(item);
        let g = NotificationGroupItem {
            id: gid,
            app_name: String::new(),
            app_summary: key,
            time_ago: String::new(),
            preview: String::new(),
            count: 1,
            has_thumbnail: false,
            icon_path: None,
            items,
        };
        assert(item_views(g.items@) =~= seq![iv]);
        let ghost ng = g@;
        pre.push(g);
        first.push(m);
        proof {
            let pv2 = group_views(pre@);
            assert(pv2 =~= pv.push(ng));
            assert(Seq::<ItemView>::empty() + seq![iv] =~= seq![iv]);
            assert(seq![iv].to_multiset() =~= members(ns.take(m + 1), key@, gid).to_multiset());
            assert forall|c: int| 0 <= c < pv2.len() implies group_building(ns, m + 1, #[trigger] pv2[c], c, first@[c] as int) by {
                if c < pv.len() {
                    assert(pv2[c] == pv[c]);
                    assert(group_building(ns, m as int, pv[c], c, first@[c] as int));
                    assert(summary_key(ns[m as int].summary) != pv[c].app_summary);
                }
            }
            assert forall|a: int, c: int| 0 <= a < c < pv2.len() implies #[trigger] pv2[a].app_summary != #[trigger] pv2[c].app_summary by {
                if c < pv.len() {
                    assert(pv2[a] == pv[a] && pv2[c] == pv[c]);
                } else {
                    assert(pv2[a] == pv[a]);
                }
            }
            assert forall|k: int| 0 <= k < m + 1 implies #[trigger] find_group(pv2, summary_key(ns[k].summary)) is Some by {
                if k < m {
                    let kk = summary_key(ns[k].summary);
                    assert(find_group(pv, kk) is Some);
                    lemma_find_group(pv, kk);
                    let j = find_group(pv, kk)->0;
                    lemma_find_group_iff(pv2, kk, j);
                } else {
                    lemma_find_group_iff(pv2, summary_key(ns[k].summary), pv.len() as int);
                }
            }
        }
    }
}


/// The newest notification id of group `g`.
pub open spec fn newest(g: GroupView) -> u32 {
    g.items[0].db_id
}

/// An order of the groups `pre`, newest first: each group once, and a
/// group's newest notification id never below that of a later group.
fn order_by_newest(pre: &Vec<NotificationGroupItem>) -> (order: Vec<usize>)
    requires
        forall|b: int| 0 <= b < pre@.len() ==> (#[trigger] pre@[b]).items@.len() > 0,
    ensures
        order@.len() == pre@.len(),
        forall|i: int| 0 <= i < order@.len() ==> #[trigger] order@[i] < pre@.len(),
        forall|i: int, j: int| 0 <= i < j < order@.len() ==> #[trigger] order@[i] != #[trigger] order@[j],
        forall|b: int| 0 <= b < pre@.len() ==> #[trigger] order@.contains(b as usize),
        forall|i: int, j: int|
            0 <= i < j < order@.len() ==> newest(#[trigger] group_views(pre@)[order@[i] as int])
                >= newest(#[trigger] group_views(pre@)[order@[j] as int]),
{
    let ghost pv = group_views(pre@);
    let mut order: Vec<usize> = Vec::new();
    let mut t: usize = 0;
    while t < pre.len()
        invariant
            pv == group_views(pre@),
            forall|b: int| 0 <= b < pre@.len() ==> (#[trigger] pre@[b]).items@.len() > 0,
            t <= pre@.len(),
            order@.len() == t,
            forall|i: int| 0 <= i < order@.len() ==> #[trigger] order@[i] < t,
            forall|i: int, j: int| 0 <= i < j < order@.len() ==> #[trigger] order@[i] != #[trigger] order@[j],
            forall|b: int| 0 <= b < t ==> #[trigger] order@.contains(b as usize),
            forall|i: int, j: int|
                0 <= i < j < order@.len() ==> newest(#[trigger] pv[order@[i] as int]) >= newest(
                    #[trigger] pv[order@[j] as int],
                ),
        decreases pre@.len() - t,
    {
        let key = pre[t].items[0].db_id;
        assert(key == newest(pv[t as int]));
        let mut p: usize = 0;
        while p < order.len() && pre[order[p]].items[0].db_id >= key
            invariant
                pv == group_views(pre@),
                forall|b: int| 0 <= b < pre@.len() ==> (#[trigger] pre@[b]).items@.len() > 0,
                t < pre@.len(),
                p <= order@.len(),
                forall|i: int| 0 <= i < order@.len() ==> #[trigger] order@[i] < t,
                forall|i: int| 0 <= i < p ==> newest(#[trigger] pv[order@[i] as int]) >= key,
            decreases order@.len() - p,
        {
            assert(pre@[order@[p as int] as int].items@[0].db_id == newest(pv[order@[p as int] as int]));
            p = p + 1;
        }
        let ghost old_order = order@;
        proof {
            if p < old_order.len() {
                assert(pre@[old_order[p as int] as int].items@[0].db_id == newest(pv[old_order[p as int] as int]));
            }
        }
        order.insert(p, t);
        proof {
            let o = order@;
            assert(o =~= old_order.insert(p as int, t));
            assert forall|i: int| 0 <= i < o.len() implies #[trigger] o[i] < t + 1 by {
                if i < p { assert(o[i] == old_order[i]); } else if i > p { assert(o[i] == old_order[i - 1]); }
            }
            assert forall|i: int, j: int| 0 <= i < j < o.len() implies #[trigger] o[i] != #[trigger] o[j] by {
                if i < p && j < p {
                    assert(o[i] == old_order[i] && o[j] == old_order[j]);
                } else if i < p && j == p {
                    assert(o[i] == old_order[i]);
                } else if i < p {
                    assert(o[i] == old_order[i] && o[j] == old_order[j - 1]);
                } else if i == p {
                    assert(o[j] == old_order[j - 1]);
                } else {
                    assert(o[i] == old_order[i - 1] && o[j] == old_order[j - 1]);
                }
            }
            assert forall|b: int| 0 <= b < t + 1 implies #[trigger] o.contains(b as usize) by {
                if b < t {
                    assert(old_order.contains(b as usize));
                    let i = choose|i: int| 0 <= i < old_order.len() && old_order[i] == b as usize;
                    if i < p { assert(o[i] == old_order[i]); } else { assert(o[i + 1] == old_order[i]); }
                } else {
                    assert(o[p as int] == t);
                }
            }
            assert forall|i: int, j: int| 0 <= i < j < o.len() implies newest(#[trigger] pv[o[i] as int]) >= newest(
                #[trigger] pv[o[j] as int],
            ) by {
                if i < p && j < p {
                    assert(o[i] == old_order[i] && o[j] == old_order[j]);
                } else if i < p && j == p {
                    assert(o[i] == old_order[i]);
                } else if i < p {
                    assert(o[i] == old_order[i] && o[j] == old_order[j - 1]);
                } else if i == p {
                    assert(o[j] == old_order[j - 1]);
                    assert(newest(pv[old_order[p as int] as int]) < key);
                } else {
                    assert(o[i] == old_order[i - 1] && o[j] == old_order[j - 1]);
                }
            }
        }
        t = t + 1;
    }
    order
}

fn clone_item(i: &NotificationItem) -> (r: NotificationItem)
    ensures
        r@ == i@,
{
    NotificationItem {
        id: i.id,
        db_id: i.db_id,
        preview: i.preview.clone(),
        has_thumbnail: i.has_thumbnail,
        icon_path: clone_opt(&i.icon_path),
    }
}

fn clone_group(g: &NotificationGroupItem) -> (r: NotificationGroupItem)
    ensures
        r@ == g@,
{
    let mut items: Vec<NotificationItem> = Vec::new();
    let mut i: usize = 0;
    while i < g.items.len()
        invariant
            i <= g.items@.len(),
            item_views(items@) == item_views(g.items@).take(i as int),
        decreases g.items@.len() - i,
    {
        let c = clone_item(&g.items[i]);
        let ghost before = item_views(items@);
        let ghost cv = c@;
        items.push(c);
        assert(item_views(items@) =~= before.push(cv));
        assert(item_views(g.items@).take(i + 1) =~= item_views(g.items@).take(i as int).push(g.items@[i as int]@));
        assert(item_views(items@) =~= item_views(g.items@).take(i + 1));
        i = i + 1;
    }
    assert(item_views(g.items@).take(i as int) =~= item_views(g.items@));
    let r = NotificationGroupItem {
        id: g.id,
        app_name: g.app_name.clone(),
        app_summary: g.app_summary.clone(),
        time_ago: g.time_ago.clone(),
        preview: g.preview.clone(),
        count: g.count,
        has_thumbnail: g.has_thumbnail,
        icon_path: clone_opt(&g.icon_path),
        items,
    };
    assert(r@ =~= g@);
    r
}

/// The rows of freshly loaded groups: one per group, at epoch 0.
pub open spec fn fresh_rows(groups: Seq<GroupView>) -> Seq<RowState> {
    groups.map_values(|g: GroupView| RowState { id: g.id, anim_epoch: 0 })
}

impl NotificationCenter {
    /// Replaces the groups with the daemon's stored notifications read at
    /// `now` (see [`loaded`]); each group gets a fresh row.
    pub fn load_from_database_at(&mut self, notifications: Vec<DbNotification>, now: u64)
        requires
            notifications@.len() <= u32::MAX,
            loadable(notif_views(notifications@)),
        ensures
            loaded(notif_views(notifications@), now, final(self)@.groups),
            final(self)@.rows == fresh_rows(final(self)@.groups),
            center_wf(final(self)@),
            final(self)@.is_visible == old(self)@.is_visible,
            final(self)@.clearing == old(self)@.clearing,
            final(self)@.expanded == old(self)@.expanded,
    {
        let ghost ns = notif_views(notifications@);
        assert forall|k: int| 0 <= k < notifications@.len() implies body_fits(#[trigger] notifications@[k]@) by {
            assert(ns[k] == notifications@[k]@);
        }
        let mut pre: Vec<NotificationGroupItem> = Vec::new();
        let mut first: Vec<usize> = Vec::new();
        let mut m: usize = 0;
        assert(group_views(pre@) =~= Seq::<GroupView>::empty());
        while m < notifications.len()
            invariant
                m <= notifications@.len() <= u32::MAX,
                ns == notif_views(notifications@),
                forall|k: int| 0 <= k < notifications@.len() ==> body_fits(#[trigger] notifications@[k]@),
                partial_ok(ns, m as int, group_views(pre@), first@),
            decreases notifications@.len() - m,
        {
            add_to_groups(&mut pre, &mut first, &notifications, m);
            m = m + 1;
        }
        assert(ns.take(m as int) =~= ns);
        let mut b: usize = 0;
        while b < pre.len()
            invariant
                m == notifications@.len() <= u32::MAX,
                ns == notif_views(notifications@),
                ns.take(m as int) == ns,
                loadable(ns),
                b <= pre@.len(),
                partial_ok(ns, m as int, group_views(pre@), first@),
                forall|c: int| 0 <= c < b ==> group_ok(ns, m as int, now, #[trigger] group_views(pre@)[c], c, first@[c] as int),
            decreases pre@.len() - b,
        {
            let ghost pv = group_views(pre@);
            let f = first[b];
            let ghost gv = pv[b as int];
            proof {
                assert(group_building(ns, m as int, gv, b as int, f as int));
                assert(heads_group(ns, f as int));
                assert(name_fits(ns[f as int]));
                lemma_members_len(ns, gv.app_summary, gv.id);
                vstd::seq_lib::to_multiset_len(gv.items);
                vstd::seq_lib::to_multiset_len(members(ns, gv.app_summary, gv.id));
                assert(ns[f as int] == notifications@[f as int]@);
            }
            let mut g = pre.remove(b);
            assert(g@ == gv);
            set_header(&mut g, &notifications[f], now);
            let ghost ng = g@;
            pre.insert(b, g);
            proof {
                let pv2 = group_views(pre@);
                assert(pv2 =~= pv.update(b as int, ng));
                assert(group_ok(ns, m as int, now, ng, b as int, f as int));
                assert forall|c: int| 0 <= c < pv2.len() implies group_building(ns, m as int, #[trigger] pv2[c], c, first@[c] as int) by {
                    if c != b {
                        assert(pv2[c] == pv[c]);
                    }
                }
                assert forall|a: int, c: int| 0 <= a < c < pv2.len() implies #[trigger] pv2[a].app_summary != #[trigger] pv2[c].app_summary by {
                    assert(pv2[a].app_summary == pv[a].app_summary);
                    assert(pv2[c].app_summary == pv[c].app_summary);
                }
                assert forall|k: int| 0 <= k < m implies #[trigger] find_group(pv2, summary_key(ns[k].summary)) is Some by {
                    let kk = summary_key(ns[k].summary);
                    assert(find_group(pv, kk) is Some);
                    lemma_find_group(pv, kk);
                    let j = find_group(pv, kk)->0;
                    assert(pv2[j].app_summary == pv[j].app_summary);
                    lemma_find_group_iff(pv2, kk, j);
                }
                assert forall|c: int| 0 <= c < b + 1 implies group_ok(ns, m as int, now, #[trigger] pv2[c], c, first@[c] as int) by {
                    if c != b {
                        assert(pv2[c] == pv[c]);
                    }
                }
            }
            b = b + 1;
        }
        let ghost pv = group_views(pre@);
        assert forall|b: int| 0 <= b < pre@.len() implies (#[trigger] pre@[b]).items@.len() > 0 by {
            assert(group_ok(ns, m as int, now, pv[b], b, first@[b] as int));
            assert(pv[b].items.len() == pre@[b].items@.len());
        }
        let order = order_by_newest(&pre);
        let mut groups: Vec<NotificationGroupItem> = Vec::new();
        let mut rows: Vec<RowState> = Vec::new();
        let mut i: usize = 0;
        while i < order.len()
            invariant
                pv == group_views(pre@),
                order@.len() == pre@.len(),
                forall|j: int| 0 <= j < order@.len() ==> #[trigger] order@[j] < pre@.len(),
                i <= order@.len(),
                groups@.len() == i,
                forall|j: int| 0 <= j < i ==> #[trigger] group_views(groups@)[j] == pv[order@[j] as int],
                rows@ == fresh_rows(group_views(groups@)),
            decreases order@.len() - i,
        {
            let g = clone_group(&pre[order[i]]);
            let ghost gv = g@;
            let gid = g.id;
            let ghost before = group_views(groups@);
            groups.push(g);
            rows.push(RowState::new(gid));
            proof {
                assert(group_views(groups@) =~= before.push(gv));
                assert(rows@ =~= fresh_rows(group_views(groups@)));
            }
            i = i + 1;
        }
        let ghost r = group_views(groups@);
        proof {
            assert forall|a: int| 0 <= a < r.len() implies group_ok(ns, m as int, now, #[trigger] r[a], order@[a] as int, first@[order@[a] as int] as int) by {
                assert(r[a] == pv[order@[a] as int]);
            }
            lemma_loaded(ns, now, pv, first@, order@, r);
        }
        self.groups = groups;
        self.rows = rows;
        proof {
            let c = self@;
            assert forall|i: int| 0 <= i < c.groups.len() implies (#[trigger] c.groups[i]).items.len() > 0
                && has_row(c.rows, c.groups[i].id) by {
                assert(loaded_group(ns, now, c.groups[i]));
                assert(c.rows[i].id == c.groups[i].id);
            }
        }
    }

    /// Replaces the groups with the daemon's stored notifications, read at
    /// the current time (see [`loaded`]).
    pub fn load_from_database(&mut self, notifications: Vec<DbNotification>)
        requires
            notifications@.len() <= u32::MAX,
            loadable(notif_views(notifications@)),
        ensures
            exists|now: u64| loaded(notif_views(notifications@), now, final(self)@.groups),
            final(self)@.rows == fresh_rows(final(self)@.groups),
            center_wf(final(self)@),
            final(self)@.is_visible == old(self)@.is_visible,
            final(self)@.clearing == old(self)@.clearing,
            final(self)@.expanded == old(self)@.expanded,
    {
        let now = epoch_seconds();
        self.load_from_database_at(notifications, now);
    }
}

proof fn lemma_loaded(
    ns: Seq<DbNotificationView>,
    now: u64,
    pv: Seq<GroupView>,
    first: Seq<usize>,
    order: Seq<usize>,
    r: Seq<GroupView>,
)
    requires
        partial_ok(ns, ns.len() as int, pv, first),
        forall|b: int| 0 <= b < pv.len() ==> group_ok(ns, ns.len() as int, now, #[trigger] pv[b], b, first[b] as int),
        ns.len() <= u32::MAX,
        order.len() == pv.len(),
        r.len() == order.len(),
        forall|i: int| 0 <= i < order.len() ==> #[trigger] order[i] < pv.len(),
        forall|i: int, j: int| 0 <= i < j < order.len() ==> #[trigger] order[i] != #[trigger] order[j],
        forall|b: int| 0 <= b < pv.len() ==> #[trigger] order.contains(b as usize),
        forall|i: int, j: int|
            0 <= i < j < order.len() ==> newest(#[trigger] pv[order[i] as int]) >= newest(#[trigger] pv[order[j] as int]),
        forall|i: int| 0 <= i < r.len() ==> #[trigger] r[i] == pv[order[i] as int],
    ensures
        loaded(ns, now, r),
{
    assert(ns.take(ns.len() as int) =~= ns);
    assert forall|a: int| 0 <= a < r.len() implies group_ok(ns, ns.len() as int, now, #[trigger] r[a], order[a] as int, first[order[a] as int] as int) by {
        assert(r[a] == pv[order[a] as int]);
    }
    assert forall|a: int, b: int| 0 <= a < b < r.len() implies #[trigger] r[a].id != #[trigger] r[b].id by {
        assert(group_ok(ns, ns.len() as int, now, r[a], order[a] as int, first[order[a] as int] as int));
        assert(group_ok(ns, ns.len() as int, now, r[b], order[b] as int, first[order[b] as int] as int));
    }
    assert forall|a: int, b: int| 0 <= a < b < r.len() implies #[trigger] r[a].app_summary != #[trigger] r[b].app_summary by {
        assert(r[a] == pv[order[a] as int]);
        assert(r[b] == pv[order[b] as int]);
        if order[a] < order[b] {
        } else {
        }
    }
    assert forall|a: int| 0 <= a < r.len() implies #[trigger] r[a].count == r[a].items.len() by {
        let g = r[a];
        assert(group_ok(ns, ns.len() as int, now, g, order[a] as int, first[order[a] as int] as int));
        lemma_members_len(ns, g.app_summary, g.id);
        vstd::seq_lib::to_multiset_len(g.items);
        vstd::seq_lib::to_multiset_len(members(ns, g.app_summary, g.id));
    }
    assert forall|a: int| 0 <= a < r.len() implies loaded_group(ns, now, #[trigger] r[a]) by {
        let g = r[a];
        let f = first[order[a] as int] as int;
        assert(group_ok(ns, ns.len() as int, now, g, order[a] as int, f));
        assert(g == header_of(g.id, g.app_summary, ns[f], now, g.items));
    }
    assert forall|a: int| 0 <= a < r.len() implies exists|t: int| 0 <= t < r.len() && #[trigger] r[a].id == #[trigger] slot_id(t) by {
        assert(group_ok(ns, ns.len() as int, now, r[a], order[a] as int, first[order[a] as int] as int));
        assert(r[a].id == slot_id(order[a] as int));
    }
    assert forall|k: int| 0 <= k < ns.len() implies #[trigger] find_group(r, summary_key(ns[k].summary)) is Some by {
        let kk = summary_key(ns[k].summary);
        assert(find_group(pv, kk) is Some);
        lemma_find_group(pv, kk);
        let j = find_group(pv, kk)->0;
        assert(order.contains(j as usize));
        let i = choose|i: int| 0 <= i < order.len() && order[i] == j as usize;
        assert(r[i] == pv[j]);
        lemma_find_group_iff(r, kk, i);
    }
    assert forall|a: int, b: int| 0 <= a < b < r.len() implies #[trigger] r[a].items[0].db_id >= #[trigger] r[b].items[0].db_id by {
        assert(r[a] == pv[order[a] as int]);
        assert(r[b] == pv[order[b] as int]);
    }
}

/// One step of the notification center, as its operations take it: a
/// notification added or closed, an item or a whole group swiped away, the
/// stored notifications loaded, a group toggled, the center shown or
/// hidden, a row's animation restarted, or a clear-all begun or finished.
pub open spec fn center_step(c: CenterView, d: CenterView) -> bool {
    ||| exists|n: DbNotificationView, now: u64| can_add(c, n) && d == #[trigger] added(c, n, now)
    ||| exists|db: u32| d == #[trigger] removed(c, db)
    ||| exists|g: u64, i: u64| d == #[trigger] dismissed(c, g, i).0
    ||| exists|g: u64| d == #[trigger] group_dismissed(c, g).0
    ||| exists|ns: Seq<DbNotificationView>, now: u64|
        #[trigger] loaded(ns, now, d.groups) && d.rows == fresh_rows(d.groups) && d.is_visible == c.is_visible
            && d.clearing == c.clearing && d.expanded == c.expanded
    ||| exists|g: u64|
        #![trigger is_expanded(c.expanded, g)]
        d == (CenterView { expanded: c.expanded.insert(g, !is_expanded(c.expanded, g)), ..c })
    ||| d == (CenterView { is_visible: d.is_visible, ..c })
    ||| exists|g: u64| d == (CenterView { rows: #[trigger] bump(c.rows, g), ..c })
    ||| d == (CenterView { clearing: d.clearing, ..c })
    ||| d == (CenterView { groups: Seq::empty(), clearing: false, ..c })
}

/// A load leaves the center's invariant holding.
pub proof fn lemma_loaded_center_wf(ns: Seq<DbNotificationView>, now: u64, d: CenterView)
    requires
        loaded(ns, now, d.groups),
        d.rows == fresh_rows(d.groups),
    ensures
        center_wf(d),
{
    assert forall|i: int| 0 <= i < d.groups.len() implies (#[trigger] d.groups[i]).items.len() > 0 && has_row(
        d.rows,
        d.groups[i].id,
    ) by {
        assert(loaded_group(ns, now, d.groups[i]));
        assert(d.rows[i].id == d.groups[i].id);
    }
}

/// Every step of the center keeps its invariant.
pub proof fn lemma_step_center_wf(c: CenterView, d: CenterView)
    requires
        center_wf(c),
        center_step(c, d),
    ensures
        center_wf(d),
{
    if exists|n: DbNotificationView, now: u64| can_add(c, n) && d == #[trigger] added(c, n, now) {
        let (n, now) = choose|n: DbNotificationView, now: u64| can_add(c, n) && d == #[trigger] added(c, n, now);
        lemma_added_center_wf(c, n, now);
    } else if exists|db: u32| d == #[trigger] removed(c, db) {
        let db = choose|db: u32| d == #[trigger] removed(c, db);
        lemma_removed_center_wf(c, db);
    } else if exists|g: u64, i: u64| d == #[trigger] dismissed(c, g, i).0 {
        let (g, i) = choose|g: u64, i: u64| d == #[trigger] dismissed(c, g, i).0;
        lemma_dismissed_center_wf(c, g, i);
    } else if exists|g: u64| d == #[trigger] group_dismissed(c, g).0 {
        let g = choose|g: u64| d == #[trigger] group_dismissed(c, g).0;
        lemma_group_dismissed_wf(c, g);
    } else if exists|ns: Seq<DbNotificationView>, now: u64|
        #[trigger] loaded(ns, now, d.groups) && d.rows == fresh_rows(d.groups) && d.is_visible == c.is_visible
            && d.clearing == c.clearing && d.expanded == c.expanded {
        let (ns, now) = choose|ns: Seq<DbNotificationView>, now: u64|
            #[trigger] loaded(ns, now, d.groups) && d.rows == fresh_rows(d.groups) && d.is_visible
                == c.is_visible && d.clearing == c.clearing && d.expanded == c.expanded;
        lemma_loaded_center_wf(ns, now, d);
    } else if exists|g: u64| d == (CenterView { rows: #[trigger] bump(c.rows, g), ..c }) {
        let g = choose|g: u64| d == (CenterView { rows: #[trigger] bump(c.rows, g), ..c });
        lemma_bump_center_wf(c, g);
    } else {
    }
}

/// The center's invariant holds in every state its operations reach from an
/// empty center: groups with distinct ids and summaries, none of them
/// empty, each with as many items as its count and with a row.
pub proof fn law_center_wf_reachable(trace: Seq<CenterView>)
    requires
        trace.len() > 0,
        trace[0].groups.len() == 0,
        forall|i: int| 0 <= i < trace.len() - 1 ==> center_step(#[trigger] trace[i], trace[i + 1]),
    ensures
        forall|i: int| 0 <= i < trace.len() ==> center_wf(#[trigger] trace[i]),
{
    assert forall|i: int| 0 <= i < trace.len() implies center_wf(#[trigger] trace[i]) by {
        lemma_trace_center_wf(trace, i);
    }
}

proof fn lemma_trace_center_wf(trace: Seq<CenterView>, i: int)
    requires
        0 <= i < trace.len(),
        trace[0].groups.len() == 0,
        forall|k: int| 0 <= k < trace.len() - 1 ==> center_step(#[trigger] trace[k], trace[k + 1]),
    ensures
        center_wf(trace[i]),
    decreases i,
{
    if i > 0 {
        lemma_trace_center_wf(trace, i - 1);
        assert(center_step(trace[i - 1], trace[i]));
        lemma_step_center_wf(trace[i - 1], trace[i]);
    }
}

} // verus!
