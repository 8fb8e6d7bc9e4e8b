//! The notification drawer's model: one stack of cards per application,
//! newest stack and newest card first, and a per-application choice of
//! showing the stack collapsed ("stacked") or spread out.
use vstd::prelude::*;
use crate::helper::parse_actions;
use crate::text::same_text;

verus! {

/// The cards of one application, newest first; a card is the notification
/// id it shows.
pub struct AppStack {
    pub app_name: String,
    pub cards: Vec<u32>,
}

/// The value of an [`AppStack`].
#[verifier::ext_equal]
pub struct StackView {
    pub app_name: Seq<char>,
    pub cards: Seq<u32>,
}

impl View for AppStack {
    type V = StackView;

    open spec fn view(&self) -> StackView {
        StackView { app_name: self.app_name@, cards: self.cards@ }
    }
}

/// The drawer: the stacks shown, newest first, and the stacking choice of
/// each application that has one.
pub struct DrawerModel {
    pub stacks: Vec<AppStack>,
    pub stacking: Vec<(String, bool)>,
}

/// The value of a [`DrawerModel`].
#[verifier::ext_equal]
pub struct DrawerView {
    pub stacks: Seq<StackView>,
    pub stacking: Seq<(Seq<char>, bool)>,
}

/// The values of a list of stacks.
pub open spec fn stack_views(stacks: Seq<AppStack>) -> Seq<StackView> {
    stacks.map_values(|s: AppStack| s@)
}

/// The value of a list of stacking choices.
pub open spec fn choice_views(st: Seq<(String, bool)>) -> Seq<(Seq<char>, bool)> {
    st.map_values(|e: (String, bool)| (e.0@, e.1))
}

impl View for DrawerModel {
    type V = DrawerView;

    open spec fn view(&self) -> DrawerView {
        DrawerView { stacks: stack_views(self.stacks@), stacking: choice_views(self.stacking@) }
    }
}

/// At most one stack and one stacking choice per application.
pub open spec fn drawer_wf(d: DrawerView) -> bool {
    &&& forall|i: int, j: int|
        0 <= i < j < d.stacks.len() ==> #[trigger] d.stacks[i].app_name != #[trigger] d.stacks[j].app_name
    &&& forall|i: int, j: int|
        0 <= i < j < d.stacking.len() ==> #[trigger] d.stacking[i].0 != #[trigger] d.stacking[j].0
}

/// The index of the stack of `app`.
pub open spec fn stack_index(stacks: Seq<StackView>, app: Seq<char>) -> Option<int>
    decreases stacks.len(),
{
    if stacks.len() == 0 {
        None
    } else if stacks[0].app_name == app {
        Some(0)
    } else {
        match stack_index(stacks.drop_first(), app) {
            Some(i) => Some(i + 1),
            None => None,
        }
    }
}

/// The index of the stacking choice of `app`.
pub open spec fn choice_index(st: Seq<(Seq<char>, bool)>, app: Seq<char>) -> Option<int>
    decreases st.len(),
{
    if st.len() == 0 {
        None
    } else if st[0].0 == app {
        Some(0)
    } else {
        match choice_index(st.drop_first(), app) {
            Some(i) => Some(i + 1),
            None => None,
        }
    }
}

/// The index of the card of notification `id`.
pub open spec fn card_index(cards: Seq<u32>, id: u32) -> Option<int>
    decreases cards.len(),
{
    if cards.len() == 0 {
        None
    } else if cards[0] == id {
        Some(0)
    } else {
        match card_index(cards.drop_first(), id) {
            Some(i) => Some(i + 1),
            None => None,
        }
    }
}

/// Whether `app`'s stack is shown collapsed; an application never toggled
/// is not.
pub open spec fn is_stacked(st: Seq<(Seq<char>, bool)>, app: Seq<char>) -> bool {
    match choice_index(st, app) {
        Some(k) => st[k].1,
        None => false,
    }
}

/// The stacking choices without the one of `app`.
pub open spec fn without_choice(st: Seq<(Seq<char>, bool)>, app: Seq<char>) -> Seq<(Seq<char>, bool)> {
    match choice_index(st, app) {
        Some(k) => st.remove(k),
        None => st,
    }
}

/// Where a new card goes in its stack.
#[derive(Clone, Copy, Debug, PartialEq, Eq, Structural)]
pub enum CardPlacement {
    /// In the flow of the stack, as in a spread-out stack or an empty one.
    Flow,
    /// On top of a collapsed stack that already holds `depth` cards.
    Stacked { depth: usize },
}

/// Where the card of a notification of `app` goes.
pub open spec fn placement_of(d: DrawerView, app: Seq<char>) -> CardPlacement {
    match stack_index(d.stacks, app) {
        Some(i) => if is_stacked(d.stacking, app) && d.stacks[i].cards.len() > 0 {
            CardPlacement::Stacked { depth: d.stacks[i].cards.len() as usize }
        } else {
            CardPlacement::Flow
        },
        None => CardPlacement::Flow,
    }
}

/// The drawer after notification `id` of `app` arrives: its card goes on
/// top of `app`'s stack, a new stack opening at the top when `app` has none.
pub open spec fn after_receive(d: DrawerView, app: Seq<char>, id: u32) -> DrawerView {
    match stack_index(d.stacks, app) {
        Some(i) => DrawerView {
            stacks: d.stacks.update(i, StackView { app_name: app, cards: seq![id] + d.stacks[i].cards }),
            ..d
        },
        None => DrawerView { stacks: seq![StackView { app_name: app, cards: seq![id] }] + d.stacks, ..d },
    }
}

/// The drawer after the user closes the card of notification `id` in
/// `app`'s stack: the card leaves, and a stack left without cards goes away
/// together with its application's stacking choice.
pub open spec fn after_close(d: DrawerView, app: Seq<char>, id: u32) -> DrawerView {
    match stack_index(d.stacks, app) {
        None => d,
        Some(i) => {
            let cards = match card_index(d.stacks[i].cards, id) {
                Some(j) => d.stacks[i].cards.remove(j),
                None => d.stacks[i].cards,
            };
            if cards.len() == 0 {
                DrawerView { stacks: d.stacks.remove(i), stacking: without_choice(d.stacking, app) }
            } else {
                DrawerView { stacks: d.stacks.update(i, StackView { app_name: app, cards }), ..d }
            }
        },
    }
}

/// The drawer after `app`'s stacking choice flips (an application never
/// toggled becomes stacked).
pub open spec fn after_toggle(d: DrawerView, app: Seq<char>) -> DrawerView {
    match choice_index(d.stacking, app) {
        Some(k) => DrawerView { stacking: d.stacking.update(k, (app, !d.stacking[k].1)), ..d },
        None => DrawerView { stacking: d.stacking.push((app, true)), ..d },
    }
}

proof fn lemma_stack_index(stacks: Seq<StackView>, app: Seq<char>)
    ensures
        match stack_index(stacks, app) {
            Some(i) => 0 <= i < stacks.len() && stacks[i].app_name == app && forall|k: int|
                0 <= k < i ==> #[trigger] stacks[k].app_name != app,
            None => forall|k: int| 0 <= k < stacks.len() ==> #[trigger] stacks[k].app_name != app,
        },
    decreases stacks.len(),
{
    if stacks.len() > 0 && stacks[0].app_name != app {
        lemma_stack_index(stacks.drop_first(), app);
        assert forall|k: int| 0 < k < stacks.len() implies stacks[k] == stacks.drop_first()[k - 1] by {}
    }
}

proof fn lemma_choice_index(st: Seq<(Seq<char>, bool)>, app: Seq<char>)
    ensures
        match choice_index(st, app) {
            Some(i) => 0 <= i < st.len() && st[i].0 == app && forall|k: int|
                0 <= k < i ==> #[trigger] st[k].0 != app,
            None => forall|k: int| 0 <= k < st.len() ==> #[trigger] st[k].0 != app,
        },
    decreases st.len(),
{
    if st.len() > 0 && st[0].0 != app {
        lemma_choice_index(st.drop_first(), app);
        assert forall|k: int| 0 < k < st.len() implies st[k] == st.drop_first()[k - 1] by {}
    }
}

proof fn lemma_card_index(cards: Seq<u32>, id: u32)
    ensures
        match card_index(cards, id) {
            Some(i) => 0 <= i < cards.len() && cards[i] == id && forall|k: int|
                0 <= k < i ==> #[trigger] cards[k] != id,
            None => forall|k: int| 0 <= k < cards.len() ==> #[trigger] cards[k] != id,
        },
    decreases cards.len(),
{
    if cards.len() > 0 && cards[0] != id {
        lemma_card_index(cards.drop_first(), id);
        assert forall|k: int| 0 < k < cards.len() implies cards[k] == cards.drop_first()[k - 1] by {}
    }
}

/// The first index at which `p` holds in a sequence is the index the
/// recursive search finds.
proof fn lemma_stack_index_at(stacks: Seq<StackView>, app: Seq<char>, i: int)
    requires
        0 <= i < stacks.len(),
        stacks[i].app_name == app,
        forall|k: int| 0 <= k < i ==> #[trigger] stacks[k].app_name != app,
    ensures
        stack_index(stacks, app) == Some(i),
{
    lemma_stack_index(stacks, app);
}

proof fn lemma_choice_index_at(st: Seq<(Seq<char>, bool)>, app: Seq<char>, i: int)
    requires
        0 <= i < st.len(),
        st[i].0 == app,
        forall|k: int| 0 <= k < i ==> #[trigger] st[k].0 != app,
    ensures
        choice_index(st, app) == Some(i),
{
    lemma_choice_index(st, app);
}

proof fn lemma_card_index_at(cards: Seq<u32>, id: u32, i: int)
    requires
        0 <= i < cards.len(),
        cards[i] == id,
        forall|k: int| 0 <= k < i ==> #[trigger] cards[k] != id,
    ensures
        card_index(cards, id) == Some(i),
{
    lemma_card_index(cards, id);
}

/// One element of a card's action row.
pub enum ActionRowItem {
    /// A button invoking `action_id`, labelled `label`.
    Button { action_id: String, label: String },
    /// The bar between two buttons.
    Separator,
}

/// The action row of a card: a button per `(id, label)` pair of the flat
/// action list, with a separator between consecutive buttons.
pub fn action_row(actions: Vec<String>) -> (r: Vec<ActionRowItem>)
    ensures
        r.len() == if actions.len() / 2 == 0 {
            0
        } else {
            2 * (actions.len() / 2) - 1
        },
        forall|i: int|
            #![trigger r[i]]
            0 <= i < r.len() ==> if i % 2 == 0 {
                r[i] matches ActionRowItem::Button { action_id, label } && action_id == actions[i]
                    && label == actions[i + 1]
            } else {
                r[i] is Separator
            },
{
    let pairs = parse_actions(actions);
    let n = pairs.len();
    let mut row: Vec<ActionRowItem> = Vec::new();
    let mut k: usize = 0;
    while k < n
        invariant
            n == pairs.len(),
            n == actions.len() / 2,
            k <= n,
            row.len() == if k == 0 {
                0
            } else {
                2 * k - 1
            },
            forall|i: int|
                #![trigger pairs[i]]
                0 <= i < n ==> pairs[i].0 == actions[2 * i] && pairs[i].1 == actions[2 * i + 1],
            forall|i: int|
                #![trigger row[i]]
                0 <= i < row.len() ==> if i % 2 == 0 {
                    row[i] matches ActionRowItem::Button { action_id, label } && action_id
                        == actions[i] && label == actions[i + 1]
                } else {
                    row[i] is Separator
                },
        decreases n - k,
    {
        if k > 0 {
            row.push(ActionRowItem::Separator);
        }
        let (action_id, label) = (pairs[k].0.clone(), pairs[k].1.clone());
        assert(pairs[k as int].0 == actions[2 * k as int]);
        row.push(ActionRowItem::Button { action_id, label });
        k = k + 1;
    }
    row
}

impl DrawerModel {
    /// An empty drawer.
    pub fn new() -> (r: Self)
        ensures
            r@.stacks.len() == 0,
            r@.stacking.len() == 0,
    {
        let r = DrawerModel { stacks: Vec::new(), stacking: Vec::new() };
        assert(r@.stacks =~= Seq::<StackView>::empty());
        assert(r@.stacking =~= Seq::<(Seq<char>, bool)>::empty());
        r
    }

    fn find_stack(&self, app: &str) -> (r: Option<usize>)
        ensures
            match r {
                Some(i) => i < self.stacks.len() && stack_index(self@.stacks, app@) == Some(i as int),
                None => stack_index(self@.stacks, app@) is None,
            },
    {
        proof {
            lemma_stack_index(self@.stacks, app@);
        }
        let mut i: usize = 0;
        while i < self.stacks.len()
            invariant
                i <= self.stacks.len(),
                forall|k: int| 0 <= k < i ==> #[trigger] self@.stacks[k].app_name != app@,
            decreases self.stacks.len() - i,
        {
            assert(self@.stacks[i as int].app_name == self.stacks@[i as int].app_name@);
            if same_text(self.stacks[i].app_name.as_str(), app) {
                proof {
                    lemma_stack_index_at(self@.stacks, app@, i as int);
                }
                return Some(i);
            }
            i = i + 1;
        }
        None
    }

    fn find_choice(&self, app: &str) -> (r: Option<usize>)
        ensures
            match r {
                Some(i) => i < self.stacking.len() && choice_index(self@.stacking, app@) == Some(i as int),
                None => choice_index(self@.stacking, app@) is None,
            },
    {
        proof {
            lemma_choice_index(self@.stacking, app@);
        }
        let mut i: usize = 0;
        while i < self.stacking.len()
            invariant
                i <= self.stacking.len(),
                forall|k: int| 0 <= k < i ==> #[trigger] self@.stacking[k].0 != app@,
            decreases self.stacking.len() - i,
        {
            assert(self@.stacking[i as int].0 == self.stacking@[i as int].0@);
            if same_text(self.stacking[i].0.as_str(), app) {
                proof {
                    lemma_choice_index_at(self@.stacking, app@, i as int);
                }
                return Some(i);
            }
            i = i + 1;
        }
        None
    }

    /// Whether `app`'s stack is shown collapsed.
    pub fn stacked(&self, app: &str) -> (r: bool)
        ensures
            r == is_stacked(self@.stacking, app@),
    {
        match self.find_choice(app) {
            Some(k) => self.stacking[k].1,
            None => false,
        }
    }

    /// Files the card of notification `id` of `app` (see [`after_receive`])
    /// and says where it goes (see [`placement_of`]).
    pub fn receive(&mut self, app: &str, id: u32) -> (r: CardPlacement)
        requires
            drawer_wf(old(self)@),
        ensures
            r == placement_of(old(self)@, app@),
            final(self)@ == after_receive(old(self)@, app@, id),
            drawer_wf(final(self)@),
    {
        let ghost d = self@;
        proof {
            lemma_stack_index(d.stacks, app@);
        }
        let stacked = self.stacked(app);
        match self.find_stack(app) {
            Some(i) => {
                let depth = self.stacks[i].cards.len();
                let placement = if stacked && depth > 0 {
                    CardPlacement::Stacked { depth }
                } else {
                    CardPlacement::Flow
                };
                let mut s = self.stacks.remove(i);
                let ghost old_cards = s.cards@;
                s.cards.insert(0, id);
                assert(s.cards@ =~= seq![id] + old_cards);
                self.stacks.insert(i, s);
                assert(self@.stacks =~= d.stacks.update(i as int, StackView { app_name: app@, cards: seq![id] + old_cards }));
                assert(self@ =~= after_receive(d, app@, id));
                placement
            },
            None => {
                let mut cards: Vec<u32> = Vec::new();
                cards.push(id);
                let s = AppStack { app_name: app.to_owned(), cards };
                self.stacks.insert(0, s);
                assert(self@.stacks =~= seq![StackView { app_name: app@, cards: seq![id] }] + d.stacks);
                assert(self@ =~= after_receive(d, app@, id));
                CardPlacement::Flow
            },
        }
    }

    /// Closes the card of notification `id` in `app`'s stack (see
    /// [`after_close`]).
    pub fn close_card(&mut self, app: &str, id: u32)
        requires
            drawer_wf(old(self)@),
        ensures
            final(self)@ == after_close(old(self)@, app@, id),
            drawer_wf(final(self)@),
    {
        let ghost d = self@;
        let i = match self.find_stack(app) {
            Some(i) => i,
            None => {
                return ;
            },
        };
        proof {
            lemma_stack_index(d.stacks, app@);
        }
        let mut s = self.stacks.remove(i);
        assert(self@.stacks =~= d.stacks.remove(i as int));
        let ghost cards0 = s.cards@;
        proof {
            lemma_card_index(cards0, id);
        }
        let mut j: usize = 0;
        while j < s.cards.len()
            invariant
                s.cards@ == cards0,
                j <= s.cards.len(),
                forall|k: int| 0 <= k < j ==> #[trigger] cards0[k] != id,
            ensures
                s.cards@ == cards0,
                j <= s.cards.len(),
                forall|k: int| 0 <= k < j ==> #[trigger] cards0[k] != id,
                j < s.cards.len() ==> cards0[j as int] == id,
            decreases s.cards.len() - j,
        {
            if s.cards[j] == id {
                break;
            }
            j = j + 1;
        }
        if j < s.cards.len() {
            proof {
                lemma_card_index_at(cards0, id, j as int);
            }
            s.cards.remove(j);
        }
        if s.cards.len() == 0 {
            proof {
                lemma_choice_index(d.stacking, app@);
            }
            match self.find_choice(app) {
                Some(k) => {
                    self.stacking.remove(k);
                    assert(self@.stacking =~= d.stacking.remove(k as int));
                },
                None => {},
            }
            assert(self@ =~= after_close(d, app@, id));
        } else {
            let ghost cards1 = s.cards@;
            let ghost rest = self@.stacks;
            self.stacks.insert(i, s);
            assert(self@.stacks =~= rest.insert(i as int, StackView { app_name: app@, cards: cards1 }));
            assert(self@.stacks =~= d.stacks.update(i as int, StackView { app_name: app@, cards: cards1 }));
            assert(self@ =~= after_close(d, app@, id));
        }
    }

    /// Removes `app`'s whole stack (its stacking choice stays).
    pub fn clear_stack(&mut self, app: &str)
        requires
            drawer_wf(old(self)@),
        ensures
            final(self)@ == match stack_index(old(self)@.stacks, app@) {
                Some(i) => DrawerView { stacks: old(self)@.stacks.remove(i), ..old(self)@ },
                None => old(self)@,
            },
            drawer_wf(final(self)@),
    {
        let ghost d = self@;
        match self.find_stack(app) {
            Some(i) => {
                self.stacks.remove(i);
                assert(self@.stacks =~= d.stacks.remove(i as int));
            },
            None => {},
        }
    }

    /// Removes every stack and every stacking choice.
    pub fn clear_all(&mut self)
        ensures
            final(self)@.stacks.len() == 0,
            final(self)@.stacking.len() == 0,
    {
        self.stacks.clear();
        self.stacking.clear();
        assert(self@.stacks =~= Seq::<StackView>::empty());
        assert(self@.stacking =~= Seq::<(Seq<char>, bool)>::empty());
    }

    /// Flips `app`'s stacking choice (see [`after_toggle`]) and returns the
    /// new choice.
    pub fn toggle_stacking(&mut self, app: &str) -> (r: bool)
        requires
            drawer_wf(old(self)@),
        ensures
            final(self)@ == after_toggle(old(self)@, app@),
            r == is_stacked(final(self)@.stacking, app@),
            drawer_wf(final(self)@),
    {
        let ghost d = self@;
        proof {
            lemma_choice_index(d.stacking, app@);
        }
        match self.find_choice(app) {
            Some(k) => {
                let v = !self.stacking[k].1;
                self.stacking.set(k, (app.to_owned(), v));
                assert(self@.stacking =~= d.stacking.update(k as int, (app@, v)));
                assert(self@ =~= after_toggle(d, app@));
                proof {
                    lemma_choice_index(self@.stacking, app@);
                    assert forall|m: int| 0 <= m < k implies #[trigger] self@.stacking[m].0 != app@ by {
                        assert(self@.stacking[m] == d.stacking[m]);
                    }
                    lemma_choice_index_at(self@.stacking, app@, k as int);
                }
                v
            },
            None => {
                self.stacking.push((app.to_owned(), true));
                assert(self@.stacking =~= d.stacking.push((app@, true)));
                assert(self@ =~= after_toggle(d, app@));
                proof {
                    let n = d.stacking.len() as int;
                    assert forall|m: int| 0 <= m < n implies #[trigger] self@.stacking[m].0 != app@ by {
                        assert(self@.stacking[m] == d.stacking[m]);
                    }
                    lemma_choice_index_at(self@.stacking, app@, n);
                }
                true
            },
        }
    }

    /// A click on a card of a collapsed stack spreads it out: returns
    /// whether `app` was stacked, and it no longer is.
    pub fn unstack(&mut self, app: &str) -> (r: bool)
        requires
            drawer_wf(old(self)@),
        ensures
            r == is_stacked(old(self)@.stacking, app@),
            final(self)@ == if r {
                DrawerView {
                    stacking: old(self)@.stacking.update(
                        choice_index(old(self)@.stacking, app@)->0,
                        (app@, false),
                    ),
                    ..old(self)@
                }
            } else {
                old(self)@
            },
            !is_stacked(final(self)@.stacking, app@),
            drawer_wf(final(self)@),
    {
        let ghost d = self@;
        proof {
            lemma_choice_index(d.stacking, app@);
        }
        match self.find_choice(app) {
            Some(k) => {
                if self.stacking[k].1 {
                    self.stacking.set(k, (app.to_owned(), false));
                    assert(self@.stacking =~= d.stacking.update(k as int, (app@, false)));
                    proof {
                        assert forall|m: int| 0 <= m < k implies #[trigger] self@.stacking[m].0 != app@ by {
                            assert(self@.stacking[m] == d.stacking[m]);
                        }
                        lemma_choice_index_at(self@.stacking, app@, k as int);
                    }
                    true
                } else {
                    false
                }
            },
            None => false,
        }
    }
}

/// Flipping an application's stacking choice twice restores whether its
/// stack is shown collapsed, and never touches the stacks.
pub proof fn law_toggle_twice(d: DrawerView, app: Seq<char>)
    requires
        drawer_wf(d),
    ensures
        is_stacked(after_toggle(after_toggle(d, app), app).stacking, app) == is_stacked(d.stacking, app),
        after_toggle(after_toggle(d, app), app).stacks == d.stacks,
{
    lemma_choice_index(d.stacking, app);
    let d1 = after_toggle(d, app);
    match choice_index(d.stacking, app) {
        Some(k) => {
            assert forall|m: int| 0 <= m < k implies #[trigger] d1.stacking[m].0 != app by {
                assert(d1.stacking[m] == d.stacking[m]);
            }
            lemma_choice_index_at(d1.stacking, app, k);
            let d2 = after_toggle(d1, app);
            assert forall|m: int| 0 <= m < k implies #[trigger] d2.stacking[m].0 != app by {
                assert(d2.stacking[m] == d1.stacking[m]);
            }
            lemma_choice_index_at(d2.stacking, app, k);
        },
        None => {
            let n = d.stacking.len() as int;
            assert forall|m: int| 0 <= m < n implies #[trigger] d1.stacking[m].0 != app by {
                assert(d1.stacking[m] == d.stacking[m]);
            }
            lemma_choice_index_at(d1.stacking, app, n);
            let d2 = after_toggle(d1, app);
            assert forall|m: int| 0 <= m < n implies #[trigger] d2.stacking[m].0 != app by {
                assert(d2.stacking[m] == d1.stacking[m]);
            }
            lemma_choice_index_at(d2.stacking, app, n);
        },
    }
}

/// Closing the card that just arrived gives back the drawer as it was,
/// when the application's stack already held cards or when the
/// application had neither a stack nor a stacking choice.
pub proof fn law_close_undoes_receive(d: DrawerView, app: Seq<char>, id: u32)
    requires
        drawer_wf(d),
        match stack_index(d.stacks, app) {
            Some(i) => d.stacks[i].cards.len() > 0,
            None => choice_index(d.stacking, app) is None,
        },
    ensures
        after_close(after_receive(d, app, id), app, id) == d,
{
    lemma_stack_index(d.stacks, app);
    let d1 = after_receive(d, app, id);
    match stack_index(d.stacks, app) {
        Some(i) => {
            assert forall|m: int| 0 <= m < i implies #[trigger] d1.stacks[m].app_name != app by {
                assert(d1.stacks[m] == d.stacks[m]);
            }
            lemma_stack_index_at(d1.stacks, app, i);
            let cards = seq![id] + d.stacks[i].cards;
            assert(card_index(cards, id) == Some(0int));
            assert(cards.remove(0) =~= d.stacks[i].cards);
            assert(d1.stacks.update(i, StackView { app_name: app, cards: d.stacks[i].cards }) =~= d.stacks);
        },
        None => {
            lemma_stack_index_at(d1.stacks, app, 0);
            assert(seq![id].remove(0).len() == 0);
            assert(d1.stacks.remove(0) =~= d.stacks);
        },
    }
}

} // verus!
