use vstd::prelude::*;
use std::collections::BTreeMap;
use vstd::std_specs::btree::{increasing_seq, spec_keys_iter};
use vstd::std_specs::cmp::OrdSpec;
use vstd::std_specs::iter::IteratorSpec;

use crate::tab::{Tab, TabID};

verus! {

/// Identifies a connected client for focus and history bookkeeping.
pub type ClientKey = u64;

/// The abstract state of a registry: every tab by its identifier, and per
/// registered client its back-navigation stack (top at the end) and focus.
pub ghost struct TabsView {
    pub tabs: Map<TabID, Tab>,
    pub history: Map<ClientKey, Seq<TabID>>,
    pub focused: Map<ClientKey, TabID>,
}

/// Whether `k` is the largest identifier in `ids`.
pub open spec fn is_max_id(ids: Set<TabID>, k: TabID) -> bool {
    ids.contains(k) && forall|j: TabID| #[trigger] ids.contains(j) ==> j <= k
}

/// The identifier that the next tab receives: one past the largest one in
/// use, or zero when there is none.
pub open spec fn free_index(tabs: Map<TabID, Tab>) -> int {
    if tabs.dom().is_empty() {
        0
    } else {
        (choose|k: TabID| is_max_id(tabs.dom(), k)) + 1
    }
}

/// Every tab is stored under its own identifier.
pub open spec fn ids_consistent(tabs: Map<TabID, Tab>) -> bool {
    forall|id: TabID| #[trigger] tabs.contains_key(id) ==> tabs[id].uid == id
}

/// The tab that `key` currently focuses, if the key is registered and the
/// focused identifier names a stored tab.
pub open spec fn focused_tab(v: TabsView, key: ClientKey) -> Option<Tab> {
    if v.focused.contains_key(key) && v.tabs.contains_key(v.focused[key]) {
        Some(v.tabs[v.focused[key]])
    } else {
        None
    }
}

/// The tab that a client's most recent history entry names, if there is
/// such an entry and it names a stored tab.
pub open spec fn prev_tab(v: TabsView, key: ClientKey) -> Option<Tab> {
    if v.history.contains_key(key) && v.history[key].len() > 0 && v.tabs.contains_key(
        v.history[key].last(),
    ) {
        Some(v.tabs[v.history[key].last()])
    } else {
        None
    }
}

/// The state after a client's most recent history entry is dropped; a
/// client with no entries leaves the state as it was.
pub open spec fn after_pop(v: TabsView, key: ClientKey) -> TabsView {
    if v.history.contains_key(key) && v.history[key].len() > 0 {
        TabsView { history: v.history.insert(key, v.history[key].drop_last()), ..v }
    } else {
        v
    }
}

/// The state after `key` registers: an empty history, and a focus on the
/// identifier that the next tab will receive.
pub open spec fn registered(v: TabsView, key: ClientKey) -> TabsView {
    TabsView {
        tabs: v.tabs,
        history: v.history.insert(key, Seq::empty()),
        focused: v.focused.insert(key, free_index(v.tabs) as TabID),
    }
}

/// The state after `key` leaves: its history and focus are gone.
pub open spec fn deregistered(v: TabsView, key: ClientKey) -> TabsView {
    TabsView { tabs: v.tabs, history: v.history.remove(key), focused: v.focused.remove(key) }
}

/// The last of the keys that a map yields in increasing order is its largest.
proof fn lemma_last_key_is_max(ks: Seq<&TabID>, ids: Set<TabID>)
    requires
        ks.len() > 0,
        ks.unref().to_set() == ids,
        increasing_seq(ks),
    ensures
        is_max_id(ids, *ks[ks.len() - 1]),
{
    let last = ks.len() - 1;
    broadcast use vstd::laws_cmp::lemma_ref_obeys_cmp_spec;
    assert(vstd::laws_cmp::obeys_cmp::<TabID>());
    assert(vstd::laws_cmp::obeys_cmp::<&TabID>());
    vstd::std_specs::btree::axiom_increasing_seq_meaning(ks);
    assert(ks.unref()[last] == *ks[last]);
    assert(ks.unref().to_set().contains(*ks[last]));
    assert forall|j: TabID| #[trigger] ids.contains(j) implies j <= *ks[last] by {
        assert(ks.unref().contains(j));
        let i = choose|i: int| 0 <= i < ks.unref().len() && ks.unref()[i] == j;
        assert(ks.unref()[i] == *ks[i]);
        if i < last {
            assert(<&TabID as OrdSpec>::cmp_spec(&ks[i], &ks[last]) is Less);
        }
    }
}

/// A largest identifier fixes the free index.
pub proof fn lemma_free_index_of_max(tabs: Map<TabID, Tab>, k: TabID)
    requires
        is_max_id(tabs.dom(), k),
    ensures
        free_index(tabs) == k + 1,
{
    assert(!tabs.dom().is_empty()) by {
        assert(tabs.dom().contains(k));
    }
    let c = choose|c: TabID| is_max_id(tabs.dom(), c);
    assert(c <= k && k <= c);
}

/// The tab registry shared by all clients of one server.
pub struct Tabs {
    /// Every tab, by identifier.
    tabs: BTreeMap<TabID, Tab>,
    /// Per client, the identifiers it focused before, most recent last.
    history: BTreeMap<ClientKey, Vec<TabID>>,
    /// Per client, the identifier it focuses now.
    focused: BTreeMap<ClientKey, TabID>,
}

impl View for Tabs {
    type V = TabsView;

    closed spec fn view(&self) -> TabsView {
        TabsView {
            tabs: self.tabs@,
            history: self.history@.map_values(|h: Vec<TabID>| h@),
            focused: self.focused@,
        }
    }
}

impl Tabs {
    /// An empty registry.
    pub fn new() -> (r: Tabs)
        ensures
            r@.tabs == Map::<TabID, Tab>::empty(),
            r@.history == Map::<ClientKey, Seq<TabID>>::empty(),
            r@.focused == Map::<ClientKey, TabID>::empty(),
            ids_consistent(r@.tabs),
    {
        let r = Tabs { tabs: BTreeMap::new(), history: BTreeMap::new(), focused: BTreeMap::new() };
        assert(r@.history =~= Map::<ClientKey, Seq<TabID>>::empty());
        r
    }

    /// Stores `tab` under its own identifier. The identifier must be free:
    /// storing a second tab under a taken one would silently redirect the
    /// focus and history of every client that names it.
    pub fn add_tab(&mut self, tab: Tab)
        requires
            !old(self)@.tabs.contains_key(tab.uid),
        ensures
            final(self)@.tabs == old(self)@.tabs.insert(tab.uid, tab),
            final(self)@.history == old(self)@.history,
            final(self)@.focused == old(self)@.focused,
            ids_consistent(old(self)@.tabs) ==> ids_consistent(final(self)@.tabs),
    {
        self.tabs.insert(tab.uid, tab);
    }

    /// Whether no tab is stored.
    pub fn is_empty(&self) -> (r: bool)
        ensures
            r == self@.tabs.is_empty(),
            r == (self@.tabs.len() == 0),
    {
        self.tabs.is_empty()
    }

    /// The number of stored tabs.
    pub fn amount_tabs(&self) -> (r: usize)
        ensures
            r == self@.tabs.len(),
    {
        self.tabs.len()
    }

    /// The identifier for the next tab: one past the largest stored
    /// identifier, or zero when no tab is stored.
    pub fn get_free_tab_index(&self) -> (r: usize)
        requires
            !self@.tabs.contains_key(usize::MAX),
        ensures
            r == free_index(self@.tabs),
            self@.tabs.dom().finite(),
            !self@.tabs.contains_key(r),
            forall|id: TabID| #[trigger] self@.tabs.contains_key(id) ==> id < r,
    {
        let ghost ks = spec_keys_iter(&self.tabs).remaining();
        let ghost mut n: int = 0;
        let mut last: Option<TabID> = None;
        for k in it: self.tabs.keys()
            invariant
                it.seq() == ks,
                n == it.index(),
                n == 0 ==> last is None,
                n > 0 ==> last == Some(*ks[n - 1]),
        {
            last = Some(*k);
            proof {
                n = n + 1;
            }
        }
        proof {
            assert(n == ks.len());
            assert(ks.unref().to_set() == self.tabs@.dom());
            assert(increasing_seq(ks));
            if n > 0 {
                lemma_last_key_is_max(ks, self.tabs@.dom());
                lemma_free_index_of_max(self.tabs@, *ks[n - 1]);
            } else {
                assert(ks.unref().to_set() =~= Set::<TabID>::empty());
            }
        }
        match last {
            Some(index) => {
                index + 1
            },
            None => {
                0
            },
        }
    }
    /// The tab that `key` focuses; absent for an unregistered key or a
    /// focus that names no stored tab.
    pub fn get_focused_tab(&self, key: ClientKey) -> (r: Option<&Tab>)
        ensures
            match r {
                Some(t) => focused_tab(self@, key) == Some(*t),
                None => focused_tab(self@, key) is None,
            },
    {
        match self.focused.get(&key) {
            Some(id) => self.tabs.get(id),
            None => None,
        }
    }

    /// Drops the most recent entry of `key`'s history and returns the tab it
    /// names. The focus of `key` is left for the caller to update.
    pub fn pop_prev_tab(&mut self, key: ClientKey) -> (r: Option<&Tab>)
        ensures
            final(self)@ == after_pop(old(self)@, key),
            match r {
                Some(t) => prev_tab(old(self)@, key) == Some(*t),
                None => prev_tab(old(self)@, key) is None,
            },
    {
        let popped: Option<TabID> = match self.history.remove(&key) {
            Some(mut h) => {
                let p = h.pop();
                self.history.insert(key, h);
                p
            },
            None => None,
        };
        proof {
            assert(self@.history =~= after_pop(old(self)@, key).history);
        }
        match popped {
            Some(id) => self.tabs.get(&id),
            None => None,
        }
    }
    /// Registers `key` with an empty history, focused on the identifier that
    /// the next tab will receive.
    pub fn add_key(&mut self, key: ClientKey)
        requires
            !old(self)@.tabs.contains_key(usize::MAX),
        ensures
            final(self)@ == registered(old(self)@, key),
    {
        self.history.insert(key, Vec::new());
        let free = self.get_free_tab_index();
        self.focused.insert(key, free);
        proof {
            assert(self@.history =~= registered(old(self)@, key).history);
        }
    }

    /// Forgets the focus and history of `key`; the tabs stay as they are.
    pub fn remove_key(&mut self, key: &ClientKey)
        ensures
            final(self)@ == deregistered(old(self)@, *key),
    {
        self.history.remove(key);
        self.focused.remove(key);
        proof {
            assert(self@.history =~= deregistered(old(self)@, *key).history);
        }
    }

    /// Mutable access to the tab stored under `tab_index`, if any.
    pub fn get_tab(&mut self, tab_index: TabID) -> (r: Option<&mut Tab>)
        ensures
            final(self)@.history == old(self)@.history,
            final(self)@.focused == old(self)@.focused,
            match r {
                Some(t) => {
                    &&& old(self)@.tabs.contains_key(tab_index)
                    &&& *t == old(self)@.tabs[tab_index]
                    &&& final(self)@.tabs == old(self)@.tabs.insert(tab_index, *final(t))
                },
                None => {
                    &&& !old(self)@.tabs.contains_key(tab_index)
                    &&& final(self)@.tabs == old(self)@.tabs
                },
            },
    {
        map_entry_mut(&mut self.tabs, tab_index)
    }

    /// Exclusive access to the whole tab collection.
    pub fn get_mut_tabs(&mut self) -> (r: &mut BTreeMap<TabID, Tab>)
        ensures
            r@ == old(self)@.tabs,
            final(self)@.tabs == final(r)@,
            final(self)@.history == old(self)@.history,
            final(self)@.focused == old(self)@.focused,
    {
        &mut self.tabs
    }
}

/// Relies on `BTreeMap::get_mut`: a reference to the value under `k`, through
/// which the map's entry is changed, or `None` when `k` is absent.
#[verifier::external_body]
fn map_entry_mut(m: &mut BTreeMap<TabID, Tab>, k: TabID) -> (r: Option<&mut Tab>)
    ensures
        match r {
            Some(v) => {
                &&& old(m)@.contains_key(k)
                &&& *v == old(m)@[k]
                &&& final(m)@ == old(m)@.insert(k, *final(v))
            },
            None => {
                &&& !old(m)@.contains_key(k)
                &&& final(m)@ == old(m)@
            },
        },
{
    m.get_mut(&k)
}

} // verus!

verus! {

/// The tab collection after each of `ts` is stored in turn into `m`.
pub open spec fn insert_tabs(m: Map<TabID, Tab>, ts: Seq<Tab>) -> Map<TabID, Tab>
    decreases ts.len(),
{
    if ts.len() == 0 {
        m
    } else {
        insert_tabs(m, ts.drop_last()).insert(ts.last().uid, ts.last())
    }
}

/// Each tab of `ts` has a larger identifier than every tab before it.
pub open spec fn strictly_increasing_ids(ts: Seq<Tab>) -> bool {
    forall|i: int, j: int| 0 <= i < j < ts.len() ==> #[trigger] ts[i].uid < #[trigger] ts[j].uid
}

/// Storing tabs with strictly increasing identifiers into an empty registry
/// keeps the free index one past the latest identifier (zero while none is
/// stored), and stores one tab per call.
pub proof fn lemma_free_index_after_increasing_adds(ts: Seq<Tab>)
    requires
        strictly_increasing_ids(ts),
    ensures
        free_index(insert_tabs(Map::empty(), ts)) == (if ts.len() == 0 {
            0
        } else {
            ts.last().uid + 1
        }),
        insert_tabs(Map::empty(), ts).dom().finite(),
        insert_tabs(Map::empty(), ts).len() == ts.len(),
        ts.len() > 0 ==> is_max_id(insert_tabs(Map::empty(), ts).dom(), ts.last().uid),
    decreases ts.len(),
{
    let m = insert_tabs(Map::empty(), ts);
    if ts.len() == 0 {
        assert(m.dom() =~= Set::empty());
    } else {
        let prev = ts.drop_last();
        let last = ts.last();
        assert(strictly_increasing_ids(prev)) by {
            assert forall|i: int, j: int| 0 <= i < j < prev.len() implies #[trigger] prev[i].uid
                < #[trigger] prev[j].uid by {
                assert(prev[i] == ts[i] && prev[j] == ts[j]);
            }
        }
        lemma_free_index_after_increasing_adds(prev);
        let pm = insert_tabs(Map::empty(), prev);
        if prev.len() == 0 {
            assert(pm.dom() =~= Set::empty());
        } else {
            assert(prev.last() == ts[ts.len() - 2]);
            assert(prev.last().uid < last.uid);
        }
        assert(!pm.contains_key(last.uid));
        assert(m == pm.insert(last.uid, last));
        assert(is_max_id(m.dom(), last.uid));
        lemma_free_index_of_max(m, last.uid);
    }
}

/// A finite, non-empty set of identifiers has a largest one.
proof fn lemma_max_id_exists(ids: Set<TabID>)
    requires
        ids.finite(),
        !ids.is_empty(),
    ensures
        exists|k: TabID| is_max_id(ids, k),
{
    let leq = |a: TabID, b: TabID| a <= b;
    assert(vstd::relations::total_ordering(leq));
    assert(ids.len() > 0) by {
        if ids.len() == 0 {
            ids.lemma_len0_is_empty();
        }
    }
    ids.find_unique_maximal_ensures(leq);
    let m = ids.find_unique_maximal(leq);
    ids.lemma_maximal_equivalent_greatest(leq, m);
    assert forall|j: TabID| #[trigger] ids.contains(j) implies j <= m by {
        assert(leq(j, m));
    }
    assert(is_max_id(ids, m));
}

/// A client that registers focuses no tab until the next tab is added: the
/// free index names no stored tab. In particular this holds on an empty
/// registry.
pub proof fn lemma_registered_client_has_no_focus(v: TabsView, key: ClientKey)
    requires
        v.tabs.dom().finite(),
        !v.tabs.contains_key(usize::MAX),
    ensures
        focused_tab(registered(v, key), key) is None,
{
    if !v.tabs.dom().is_empty() {
        lemma_max_id_exists(v.tabs.dom());
        let k = choose|k: TabID| is_max_id(v.tabs.dom(), k);
        lemma_free_index_of_max(v.tabs, k);
    }
}

/// Popping a client that has no history entry returns nothing and changes
/// nothing.
pub proof fn lemma_pop_without_history(v: TabsView, key: ClientKey)
    requires
        !v.history.contains_key(key) || v.history[key].len() == 0,
    ensures
        prev_tab(v, key) is None,
        after_pop(v, key) == v,
{
}

/// The stored tab named by `id`, if any.
pub open spec fn tab_named(tabs: Map<TabID, Tab>, id: TabID) -> Option<Tab> {
    if tabs.contains_key(id) {
        Some(tabs[id])
    } else {
        None
    }
}

/// The state after `n` pops of `key`'s history.
pub open spec fn pop_times(v: TabsView, key: ClientKey, n: nat) -> TabsView
    decreases n,
{
    if n == 0 {
        v
    } else {
        after_pop(pop_times(v, key, (n - 1) as nat), key)
    }
}

/// Pops take a client's history apart last in, first out: after `n` pops
/// exactly the first `len - n` entries remain, the `i`-th pop returns the
/// tab of the `i`-th entry from the end, and tabs and focus never change.
pub proof fn lemma_pops_are_last_in_first_out(v: TabsView, key: ClientKey, n: nat)
    requires
        v.history.contains_key(key),
        n <= v.history[key].len(),
    ensures
        pop_times(v, key, n).tabs == v.tabs,
        pop_times(v, key, n).focused == v.focused,
        pop_times(v, key, n).history == v.history.insert(
            key,
            v.history[key].subrange(0, v.history[key].len() - n),
        ),
        forall|i: nat|
            i < n ==> prev_tab(#[trigger] pop_times(v, key, i), key) == tab_named(
                v.tabs,
                v.history[key][v.history[key].len() - 1 - i],
            ),
    decreases n,
{
    let h = v.history[key];
    if n == 0 {
        assert(h.subrange(0, h.len() as int) =~= h);
        assert(v.history.insert(key, h.subrange(0, h.len() as int)) =~= v.history);
    } else {
        let m = (n - 1) as nat;
        lemma_pops_are_last_in_first_out(v, key, m);
        let before = pop_times(v, key, m);
        let rest = h.subrange(0, h.len() - m);
        assert(before.history[key] == rest);
        assert(rest.last() == h[h.len() - 1 - m]);
        assert(prev_tab(before, key) == tab_named(v.tabs, h[h.len() - 1 - m]));
        assert(rest.drop_last() =~= h.subrange(0, h.len() - n));
        assert(pop_times(v, key, n).history =~= v.history.insert(
            key,
            h.subrange(0, h.len() - n),
        ));
        assert forall|i: nat| i < n implies prev_tab(#[trigger] pop_times(v, key, i), key)
            == tab_named(v.tabs, h[h.len() - 1 - i]) by {
            if i == m {
                assert(pop_times(v, key, i) == before);
            }
        }
    }
}

/// A registry's tab collection is finite.
pub proof fn lemma_tabs_finite(r: &Tabs)
    ensures
        r@.tabs.dom().finite(),
{
}

/// The free index of any registry lies above every stored identifier: it is
/// one past the largest one, or zero when none is stored.
pub proof fn lemma_free_index_above_every_id(tabs: Map<TabID, Tab>)
    requires
        tabs.dom().finite(),
        !tabs.contains_key(usize::MAX),
    ensures
        tabs.dom().is_empty() ==> free_index(tabs) == 0,
        !tabs.dom().is_empty() ==> exists|k: TabID|
            is_max_id(tabs.dom(), k) && free_index(tabs) == k + 1,
        forall|id: TabID| #[trigger] tabs.contains_key(id) ==> id < free_index(tabs),
        !tabs.contains_key(free_index(tabs) as TabID),
{
    if !tabs.dom().is_empty() {
        lemma_max_id_exists(tabs.dom());
        let k = choose|k: TabID| is_max_id(tabs.dom(), k);
        lemma_free_index_of_max(tabs, k);
        assert(k < usize::MAX);
    }
}

/// Once a client is deregistered it has neither a focused tab nor a tab to
/// go back to; the tabs and every other client stay as they were.
pub proof fn lemma_deregistered_client_is_gone(v: TabsView, key: ClientKey)
    ensures
        focused_tab(deregistered(v, key), key) is None,
        prev_tab(deregistered(v, key), key) is None,
        after_pop(deregistered(v, key), key) == deregistered(v, key),
        deregistered(v, key).tabs == v.tabs,
        forall|k: ClientKey|
            k != key ==> {
                &&& (#[trigger] deregistered(v, key).history.contains_key(k))
                    == v.history.contains_key(k)
                &&& deregistered(v, key).focused.contains_key(k) == v.focused.contains_key(k)
                &&& v.history.contains_key(k) ==> deregistered(v, key).history[k]
                    == v.history[k]
                &&& v.focused.contains_key(k) ==> deregistered(v, key).focused[k]
                    == v.focused[k]
                &&& focused_tab(deregistered(v, key), k) == focused_tab(v, k)
                &&& prev_tab(deregistered(v, key), k) == prev_tab(v, k)
            },
{
}

/// A registry is empty exactly when it holds no tab.
pub proof fn lemma_empty_iff_no_tabs(r: &Tabs)
    ensures
        r@.tabs.is_empty() <==> r@.tabs.len() == 0,
{
    assert(r@.tabs.dom().finite());
    if r@.tabs.len() == 0 {
        r@.tabs.dom().lemma_len0_is_empty();
    }
}

} // verus!
