use vstd::prelude::*;

verus! {

/// How many closed tabs are remembered for reopening.
pub const CLOSED_TAB_HISTORY: usize = 12;

/// One document tab.  `doc_id` is 0 for an empty tab; `state` holds the reading
/// state of a tab while it is not the active one (the active tab's state lives in
/// the viewer itself).
pub struct TabSlot<S> {
    pub doc_id: u64,
    pub path: Option<String>,
    pub title: String,
    pub state: Option<S>,
}

/// What the viewer must load after the active tab changed.
pub enum TabChange<S> {
    /// Restore this saved reading state.
    Restore(S),
    /// Start over with an empty viewer.
    Blank,
    /// Load the document `path` afresh under `doc_id`.
    Open { doc_id: u64, path: String },
}

/// A reference to a tab, open or closed.
#[derive(Clone, Copy, Debug, PartialEq, Eq, Structural)]
pub enum TabRef {
    Open(usize),
    Closed(usize),
}

/// Who a message from the document worker is for.
#[derive(Clone, Copy, Debug, PartialEq, Eq, Structural)]
pub enum EventRoute {
    /// The document shown in the active tab.
    Active,
    /// The saved state of another tab, open or closed.
    Tab(TabRef),
    /// No tab holds the document any more.
    Unknown,
}

/// The open tabs, the history of closed tabs, and which tab is active.
pub struct TabSet<S> {
    pub tabs: Vec<TabSlot<S>>,
    pub closed_tabs: Vec<TabSlot<S>>,
    pub active_tab: Option<usize>,
    pub next_doc_id: u64,
}

/// The document id that follows `id`: one more, wrapping around and skipping 0.
pub open spec fn following_doc_id(id: u64) -> u64 {
    if id == u64::MAX { 1 } else { (id + 1) as u64 }
}

/// `slot` with its saved state replaced by `state`.
pub open spec fn with_state<S>(slot: TabSlot<S>, state: Option<S>) -> TabSlot<S> {
    TabSlot { doc_id: slot.doc_id, path: slot.path, title: slot.title, state }
}

/// The open tabs after the active tab's reading state `live` was saved into it.
pub open spec fn saved_tabs<S>(tabs: Seq<TabSlot<S>>, active: Option<usize>, live: Option<S>) -> Seq<TabSlot<S>> {
    match active {
        Some(i) => if i < tabs.len() { tabs.update(i as int, with_state(tabs[i as int], live)) } else { tabs },
        None => tabs,
    }
}

impl<S> TabSet<S> {
    /// The tab set's invariant: exactly the inactive open tabs and all closed tabs
    /// hold a saved state, there is an active tab exactly when a tab is open, and
    /// the closed history holds documents only and stays within its cap.
    pub open spec fn wf(&self) -> bool {
        &&& (self.active_tab is Some <==> self.tabs@.len() > 0)
        &&& (self.active_tab matches Some(i) ==> i < self.tabs@.len())
        &&& forall|j: int| 0 <= j < self.tabs@.len()
            ==> ((#[trigger] self.tabs@[j]).state is Some <==> self.active_tab != Some(j as usize))
        &&& forall|j: int| 0 <= j < self.closed_tabs@.len()
            ==> (#[trigger] self.closed_tabs@[j]).state is Some && self.closed_tabs@[j].doc_id != 0
        &&& self.closed_tabs@.len() <= CLOSED_TAB_HISTORY
    }

    /// Whether opening a document fills the active tab instead of adding one:
    /// the active tab is an empty tab that was deliberately created.
    pub open spec fn spec_replaces_blank(&self) -> bool {
        match self.active_tab {
            Some(i) => i < self.tabs@.len() && self.tabs@[i as int].doc_id == 0 && self.tabs@[i as int].path is None,
            None => false,
        }
    }

    pub fn new() -> (r: Self)
        ensures
            r.wf(),
            r.tabs@.len() == 0,
            r.closed_tabs@.len() == 0,
            r.active_tab is None,
            r.next_doc_id == 0,
    {
        TabSet { tabs: Vec::new(), closed_tabs: Vec::new(), active_tab: None, next_doc_id: 0 }
    }

    pub fn replaces_blank(&self) -> (r: bool)
        ensures
            r == self.spec_replaces_blank(),
    {
        match self.active_tab {
            Some(i) => i < self.tabs.len() && self.tabs[i].doc_id == 0 && self.tabs[i].path.is_none(),
            None => false,
        }
    }

    /// Whether a command that saves the active tab's reading state must be given that state.
    pub fn has_active(&self) -> (r: bool)
        ensures
            r == self.active_tab is Some,
    {
        self.active_tab.is_some()
    }

    fn save_active(&mut self, live: Option<S>)
        requires
            old(self).wf(),
            live is Some <==> old(self).active_tab is Some,
        ensures
            final(self).tabs@ == saved_tabs(old(self).tabs@, old(self).active_tab, live),
            final(self).closed_tabs@ == old(self).closed_tabs@,
            final(self).active_tab == old(self).active_tab,
            final(self).next_doc_id == old(self).next_doc_id,
    {
        if let Some(i) = self.active_tab {
            let slot = self.tabs.remove(i);
            let TabSlot { doc_id, path, title, state: _ } = slot;
            self.tabs.insert(i, TabSlot { doc_id, path, title, state: live });
            assert(self.tabs@ =~= saved_tabs(old(self).tabs@, old(self).active_tab, live));
        }
    }

    /// Opens the document at `path` titled `title` (the file's stem until the
    /// document reports its own): into the active tab when that is a fresh empty
    /// tab, otherwise into a new tab that becomes active after the active tab's
    /// reading state `live` is saved.  Returns the document's new id, never 0.
    pub fn open_path(&mut self, path: String, title: String, live: Option<S>) -> (doc_id: u64)
        requires
            old(self).wf(),
            live is Some <==> (old(self).active_tab is Some && !old(self).spec_replaces_blank()),
        ensures
            final(self).wf(),
            doc_id == following_doc_id(old(self).next_doc_id),
            doc_id != 0,
            final(self).next_doc_id == doc_id,
            final(self).closed_tabs@ == old(self).closed_tabs@,
            old(self).spec_replaces_blank() ==> {
                &&& final(self).active_tab == old(self).active_tab
                &&& final(self).tabs@ == old(self).tabs@.update(
                    old(self).active_tab->0 as int,
                    TabSlot { doc_id, path: Some(path), title, state: None },
                )
            },
            !old(self).spec_replaces_blank() ==> {
                &&& final(self).active_tab == Some(old(self).tabs@.len() as usize)
                &&& final(self).tabs@ == saved_tabs(old(self).tabs@, old(self).active_tab, live).push(
                    TabSlot { doc_id, path: Some(path), title, state: None },
                )
            },
    {
        let doc_id = if self.next_doc_id == u64::MAX { 1 } else { self.next_doc_id + 1 };
        self.next_doc_id = doc_id;
        if self.replaces_blank() {
            let i = self.active_tab.unwrap();
            self.tabs.remove(i);
            self.tabs.insert(i, TabSlot { doc_id, path: Some(path), title, state: None });
            assert(self.tabs@ =~= old(self).tabs@.update(i as int, TabSlot { doc_id, path: Some(path), title, state: None }));
        } else {
            self.save_active(live);
            let index = self.tabs.len();
            self.tabs.push(TabSlot { doc_id, path: Some(path), title, state: None });
            self.active_tab = Some(index);
        }
        doc_id
    }

    /// The open tabs a new-tab command leaves: the active state saved, then a
    /// fresh empty tab appended.
    pub fn new_tab(&mut self, live: Option<S>)
        requires
            old(self).wf(),
            live is Some <==> old(self).active_tab is Some,
        ensures
            final(self).wf(),
            final(self).next_doc_id == old(self).next_doc_id,
            final(self).closed_tabs@ == old(self).closed_tabs@,
            final(self).active_tab == Some(old(self).tabs@.len() as usize),
            final(self).tabs@.len() == old(self).tabs@.len() + 1,
            final(self).tabs@.drop_last() == saved_tabs(old(self).tabs@, old(self).active_tab, live),
            final(self).tabs@.last().doc_id == 0,
            final(self).tabs@.last().path is None,
            final(self).tabs@.last().title@ == "New Tab"@,
            final(self).tabs@.last().state is None,
    {
        self.save_active(live);
        let index = self.tabs.len();
        let title = String::from_str("New Tab");
        self.tabs.push(TabSlot { doc_id: 0, path: None, title, state: None });
        self.active_tab = Some(index);
        assert(self.tabs@.drop_last() =~= saved_tabs(old(self).tabs@, old(self).active_tab, live));
    }

    /// The open tabs after closing the active one, before the next tab is activated.
    pub open spec fn spec_tabs_without_active(&self, live: S) -> Seq<TabSlot<S>> {
        saved_tabs(self.tabs@, self.active_tab, Some(live)).remove(self.active_tab->0 as int)
    }

    /// The tab that closing the active one removes, with its reading state saved.
    pub open spec fn spec_closing_slot(&self, live: S) -> TabSlot<S> {
        with_state(self.tabs@[self.active_tab->0 as int], Some(live))
    }

    /// The closed-tab history with the closing tab added (documents only).
    pub open spec fn spec_grown_history(&self, live: S) -> Seq<TabSlot<S>> {
        let closing = self.spec_closing_slot(live);
        if closing.doc_id != 0 { self.closed_tabs@.push(closing) } else { self.closed_tabs@ }
    }

    /// The closed-tab history after closing the active tab: the oldest entry is
    /// forgotten once the history would exceed its cap.
    pub open spec fn spec_history_after_close(&self, live: S) -> Seq<TabSlot<S>> {
        let grown = self.spec_grown_history(live);
        if grown.len() > CLOSED_TAB_HISTORY { grown.drop_first() } else { grown }
    }

    /// The index of the tab that becomes active after closing the active one.
    pub open spec fn spec_next_after_close(&self, live: S) -> int {
        let rest = self.spec_tabs_without_active(live);
        let i = self.active_tab->0 as int;
        if i < rest.len() - 1 { i } else { rest.len() - 1 }
    }

    /// Closes the active tab.  Its reading state `live` is saved and, for a document
    /// tab, it joins the closed-tab history (whose oldest entry is forgotten beyond
    /// `CLOSED_TAB_HISTORY`; its document id is returned so that the document can
    /// be released).  The tab now at the closed tab's position, or the last tab,
    /// becomes active, and its saved state is handed back.
    pub fn close_current_tab(&mut self, live: S) -> (r: (TabChange<S>, Option<u64>))
        requires
            old(self).wf(),
            old(self).active_tab is Some,
        ensures
            final(self).wf(),
            final(self).next_doc_id == old(self).next_doc_id,
            final(self).closed_tabs@ == old(self).spec_history_after_close(live),
            r.1 == (if old(self).spec_grown_history(live).len() > CLOSED_TAB_HISTORY {
                Some(old(self).spec_grown_history(live)[0].doc_id)
            } else {
                None
            }),
            old(self).spec_tabs_without_active(live).len() == 0 ==> {
                &&& final(self).active_tab is None
                &&& final(self).tabs@.len() == 0
                &&& r.0 is Blank
            },
            old(self).spec_tabs_without_active(live).len() > 0 ==> {
                let rest = old(self).spec_tabs_without_active(live);
                let next = old(self).spec_next_after_close(live);
                &&& final(self).active_tab == Some(next as usize)
                &&& final(self).tabs@ == rest.update(next, with_state(rest[next], None))
                &&& rest[next].state is Some
                &&& r.0 == TabChange::Restore(rest[next].state->0)
            },
    {
        let i = self.active_tab.unwrap();
        self.save_active(Some(live));
        let closing = self.tabs.remove(i);
        assert(self.tabs@ =~= old(self).spec_tabs_without_active(live));
        let mut forgotten: Option<u64> = None;
        if closing.doc_id != 0 {
            self.closed_tabs.push(closing);
            if self.closed_tabs.len() > CLOSED_TAB_HISTORY {
                let oldest = self.closed_tabs.remove(0);
                assert(self.closed_tabs@ =~= old(self).spec_grown_history(live).drop_first());
                forgotten = Some(oldest.doc_id);
            }
        }
        if self.tabs.len() == 0 {
            self.active_tab = None;
            (TabChange::Blank, forgotten)
        } else {
            let last = self.tabs.len() - 1;
            let next = if i < last { i } else { last };
            let ghost rest = self.tabs@;
            let slot = self.tabs.remove(next);
            let TabSlot { doc_id, path, title, state } = slot;
            self.tabs.insert(next, TabSlot { doc_id, path, title, state: None });
            assert(self.tabs@ =~= rest.update(next as int, with_state(rest[next as int], None)));
            self.active_tab = Some(next);
            let change = match state {
                Some(s) => TabChange::Restore(s),
                None => TabChange::Blank,
            };
            (change, forgotten)
        }
    }

    /// Reopens the most recently closed tab as a new, active tab, after saving the
    /// active tab's reading state `live`; hands back what the viewer must load.
    pub fn reopen_closed_tab(&mut self, live: Option<S>) -> (r: TabChange<S>)
        requires
            old(self).wf(),
            old(self).closed_tabs@.len() > 0,
            live is Some <==> old(self).active_tab is Some,
        ensures
            final(self).wf(),
            final(self).next_doc_id == old(self).next_doc_id,
            final(self).closed_tabs@ == old(self).closed_tabs@.drop_last(),
            final(self).active_tab == Some(old(self).tabs@.len() as usize),
            final(self).tabs@ == saved_tabs(old(self).tabs@, old(self).active_tab, live).push(
                with_state(old(self).closed_tabs@.last(), None),
            ),
            r == TabChange::Restore(old(self).closed_tabs@.last().state->0),
    {
        let tab = self.closed_tabs.pop().unwrap();
        self.save_active(live);
        let TabSlot { doc_id, path, title, state } = tab;
        let index = self.tabs.len();
        match state {
            Some(s) => {
                self.tabs.push(TabSlot { doc_id, path, title, state: None });
                self.active_tab = Some(index);
                TabChange::Restore(s)
            },
            None => {
                let change = match &path {
                    Some(p) => TabChange::Open { doc_id, path: p.clone() },
                    None => TabChange::Blank,
                };
                self.tabs.push(TabSlot { doc_id, path, title, state: None });
                self.active_tab = Some(index);
                change
            },
        }
    }

    /// Whether `index` names an open tab other than the active one.
    pub fn can_switch_to(&self, index: usize) -> (r: bool)
        ensures
            r == (self.active_tab != Some(index) && index < self.tabs@.len()),
    {
        !(self.active_tab == Some(index)) && index < self.tabs.len()
    }

    /// The open tabs after switching to tab `index` with `live` as the active tab's state.
    pub open spec fn spec_switched_tabs(&self, index: usize, live: S) -> Seq<TabSlot<S>> {
        saved_tabs(self.tabs@, self.active_tab, Some(live)).update(
            index as int,
            with_state(self.tabs@[index as int], None),
        )
    }

    /// Makes tab `index` active: the active tab's reading state `live` is saved,
    /// and the saved state of tab `index` is handed back.  When `index` is the
    /// active tab or no tab, nothing changes and `live` is handed back.
    pub fn switch_tab(&mut self, index: usize, live: S) -> (r: S)
        requires
            old(self).wf(),
        ensures
            final(self).wf(),
            final(self).next_doc_id == old(self).next_doc_id,
            final(self).closed_tabs@ == old(self).closed_tabs@,
            (old(self).active_tab != Some(index) && index < old(self).tabs@.len()) ==> {
                &&& final(self).active_tab == Some(index)
                &&& final(self).tabs@ == old(self).spec_switched_tabs(index, live)
                &&& r == old(self).tabs@[index as int].state->0
            },
            !(old(self).active_tab != Some(index) && index < old(self).tabs@.len()) ==> {
                &&& final(self).active_tab == old(self).active_tab
                &&& final(self).tabs@ == old(self).tabs@
                &&& r == live
            },
    {
        if !self.can_switch_to(index) {
            return live;
        }
        self.save_active(Some(live));
        let ghost saved = self.tabs@;
        let slot = self.tabs.remove(index);
        let TabSlot { doc_id, path, title, state } = slot;
        self.tabs.insert(index, TabSlot { doc_id, path, title, state: None });
        assert(self.tabs@ =~= saved.update(index as int, with_state(old(self).tabs@[index as int], None)));
        self.active_tab = Some(index);
        assert forall|j: int| 0 <= j < self.tabs@.len()
            implies ((#[trigger] self.tabs@[j]).state is Some <==> self.active_tab != Some(j as usize)) by {
            let a = old(self).active_tab->0 as int;
            assert(old(self).active_tab == Some(a as usize));
            assert(self.tabs.len() == self.tabs@.len());
            assert(j as usize as int == j);
            if j != index as int {
                assert(self.tabs@[j] == saved[j]);
                if j == a {
                    assert(saved[j].state == Some(live));
                } else {
                    assert(saved[j] == old(self).tabs@[j]);
                    assert(old(self).tabs@[j].state is Some);
                }
            }
        }
        state.unwrap()
    }

    /// The tab a Command-`number` shortcut selects: tabs 1 to 8 by position, and 9
    /// for the last tab.
    pub fn switch_tab_shortcut(&self, number: usize) -> (r: Option<usize>)
        ensures
            self.tabs@.len() == 0 ==> r is None,
            self.tabs@.len() > 0 ==> r == ({
                let index: int = if number == 9 {
                    self.tabs@.len() - 1
                } else if number == 0 {
                    0
                } else {
                    number - 1
                };
                if index < self.tabs@.len() { Some(index as usize) } else { None }
            }),
    {
        if self.tabs.len() == 0 {
            return None;
        }
        let index = if number == 9 {
            self.tabs.len() - 1
        } else if number == 0 {
            0
        } else {
            number - 1
        };
        if index < self.tabs.len() {
            Some(index)
        } else {
            None
        }
    }

    /// Whether `r` names the tab that holds document `doc_id`: the first open tab
    /// with it, else the first closed tab with it, else none.
    pub open spec fn finds_doc(&self, doc_id: u64, r: Option<TabRef>) -> bool {
        match r {
            Some(TabRef::Open(i)) => {
                &&& i < self.tabs@.len()
                &&& self.tabs@[i as int].doc_id == doc_id
                &&& forall|j: int| 0 <= j < i ==> self.tabs@[j].doc_id != doc_id
            },
            Some(TabRef::Closed(i)) => {
                &&& i < self.closed_tabs@.len()
                &&& self.closed_tabs@[i as int].doc_id == doc_id
                &&& forall|j: int| 0 <= j < i ==> self.closed_tabs@[j].doc_id != doc_id
                &&& forall|j: int| 0 <= j < self.tabs@.len() ==> self.tabs@[j].doc_id != doc_id
            },
            None => {
                &&& forall|j: int| 0 <= j < self.tabs@.len() ==> self.tabs@[j].doc_id != doc_id
                &&& forall|j: int| 0 <= j < self.closed_tabs@.len() ==> self.closed_tabs@[j].doc_id != doc_id
            },
        }
    }

    /// The tab that holds document `doc_id`: the first open tab with it, else the
    /// first closed tab with it.
    pub fn find_doc(&self, doc_id: u64) -> (r: Option<TabRef>)
        ensures
            self.finds_doc(doc_id, r),
    {
        let mut i: usize = 0;
        while i < self.tabs.len()
            invariant
                i <= self.tabs@.len(),
                forall|j: int| 0 <= j < i ==> self.tabs@[j].doc_id != doc_id,
            decreases self.tabs@.len() - i,
        {
            if self.tabs[i].doc_id == doc_id {
                return Some(TabRef::Open(i));
            }
            i = i + 1;
        }
        let mut k: usize = 0;
        while k < self.closed_tabs.len()
            invariant
                k <= self.closed_tabs@.len(),
                forall|j: int| 0 <= j < self.tabs@.len() ==> self.tabs@[j].doc_id != doc_id,
                forall|j: int| 0 <= j < k ==> self.closed_tabs@[j].doc_id != doc_id,
            decreases self.closed_tabs@.len() - k,
        {
            if self.closed_tabs[k].doc_id == doc_id {
                return Some(TabRef::Closed(k));
            }
            k = k + 1;
        }
        None
    }
}


impl<S> TabSet<S> {
    /// Routes a worker message about document `event_doc`: to the active tab when
    /// it shows that document (or when the message concerns no document, id 0, and
    /// `global` says such messages go to the active tab), else to the tab holding
    /// the document.
    pub fn route_event(&self, event_doc: u64, active_doc: u64, global: bool) -> (r: EventRoute)
        ensures
            (event_doc == active_doc || (global && event_doc == 0)) ==> r == EventRoute::Active,
            !(event_doc == active_doc || (global && event_doc == 0)) ==> match r {
                EventRoute::Active => false,
                EventRoute::Tab(t) => self.finds_doc(event_doc, Some(t)),
                EventRoute::Unknown => self.finds_doc(event_doc, None),
            },
    {
        if event_doc == active_doc || (global && event_doc == 0) {
            return EventRoute::Active;
        }
        match self.find_doc(event_doc) {
            Some(r) => EventRoute::Tab(r),
            None => EventRoute::Unknown,
        }
    }
}

/// Reopening right after closing a document tab brings that tab back: the
/// reopened tab has the closed tab's document, path and title, and the viewer
/// gets back exactly the reading state the tab had when it was closed.
pub proof fn lemma_reopen_restores_closed_tab<S>(t: TabSet<S>, live: S)
    requires
        t.wf(),
        t.active_tab is Some,
        t.tabs@[t.active_tab->0 as int].doc_id != 0,
    ensures
        ({
            let history = t.spec_history_after_close(live);
            let active = t.tabs@[t.active_tab->0 as int];
            &&& history.len() > 0
            &&& TabChange::Restore(history.last().state->0) == TabChange::<S>::Restore(live)
            &&& with_state(history.last(), None) == with_state(active, None)
        }),
{
    let grown = t.spec_grown_history(live);
    assert(grown.last() == t.spec_closing_slot(live));
    if grown.len() > CLOSED_TAB_HISTORY {
        assert(grown.drop_first().last() == grown.last());
    }
}

/// Switching to another tab and straight back hands the first tab its own
/// reading state again.
pub proof fn lemma_switch_back_restores_state<S>(t: TabSet<S>, index: usize, live: S)
    requires
        t.wf(),
        t.active_tab is Some,
        t.active_tab != Some(index),
        index < t.tabs@.len(),
    ensures
        t.spec_switched_tabs(index, live)[t.active_tab->0 as int].state == Some(live),
{
}

} // verus!
