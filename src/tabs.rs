//! The state of the terminal shell around the scheduler: which tab is shown,
//! in what order the tabs stand, what the global keys do, and the progress
//! popup of an import.
use vstd::prelude::*;

verus! {

/// The screens of the shell.
#[derive(Clone, Copy, Debug, PartialEq, Eq, Structural)]
pub enum TabKind {
    Review,
    AddCard,
    IncrementalReading,
    Import,
}

/// The keys that the shell tells apart.
#[derive(Clone, Copy, Debug, PartialEq, Eq, Structural)]
pub enum MyKey {
    Tab,
    BackTab,
    SwapTab,
    BackSwapTab,
    F(u8),
    Alt(char),
    Char(char),
    Enter,
    Esc,
    Other,
}

/// The tabs in their order, and the one selected.
pub struct TabsState {
    pub tabs: Vec<TabKind>,
    pub index: usize,
}

impl TabsState {
    pub open spec fn wf(&self) -> bool {
        self.index < self.tabs@.len()
    }

    /// The four screens, in their usual order, with the first selected.
    pub fn new() -> (r: TabsState)
        ensures
            r.wf(),
            r.index == 0,
            r.tabs@ == seq![
                TabKind::Review,
                TabKind::AddCard,
                TabKind::IncrementalReading,
                TabKind::Import,
            ],
    {
        let mut tabs: Vec<TabKind> = Vec::new();
        tabs.push(TabKind::Review);
        tabs.push(TabKind::AddCard);
        tabs.push(TabKind::IncrementalReading);
        tabs.push(TabKind::Import);
        assert(tabs@ =~= seq![
            TabKind::Review,
            TabKind::AddCard,
            TabKind::IncrementalReading,
            TabKind::Import,
        ]);
        TabsState { tabs, index: 0 }
    }

    /// Selects the tab to the right, if there is one.
    pub fn next(&mut self)
        requires
            old(self).wf(),
        ensures
            final(self).wf(),
            final(self).tabs@ == old(self).tabs@,
            final(self).index == if old(self).index + 1 < old(self).tabs@.len() {
                old(self).index + 1
            } else {
                old(self).index as int
            },
    {
        if self.index < self.tabs.len() - 1 {
            self.index += 1;
        }
    }

    /// Selects the tab to the left, if there is one.
    pub fn previous(&mut self)
        requires
            old(self).wf(),
        ensures
            final(self).wf(),
            final(self).tabs@ == old(self).tabs@,
            final(self).index == if old(self).index > 0 {
                old(self).index - 1
            } else {
                0
            },
    {
        if self.index > 0 {
            self.index -= 1;
        }
    }

    /// Moves the selected tab one place to the left, keeping it selected.
    pub fn swap_left(&mut self)
        requires
            old(self).wf(),
        ensures
            final(self).wf(),
            old(self).index == 0 ==> *final(self) == *old(self),
            old(self).index > 0 ==> {
                let i = old(self).index as int;
                &&& final(self).index == i - 1
                &&& final(self).tabs@ == old(self).tabs@.update(i, old(self).tabs@[i - 1]).update(
                    i - 1,
                    old(self).tabs@[i],
                )
            },
    {
        if self.index == 0 {
            return;
        }
        let i = self.index;
        let a = self.tabs[i];
        let b = self.tabs[i - 1];
        self.tabs[i] = b;
        self.tabs[i - 1] = a;
        self.previous();
    }

    /// Moves the selected tab one place to the right, keeping it selected.
    pub fn swap_right(&mut self)
        requires
            old(self).wf(),
        ensures
            final(self).wf(),
            old(self).index + 1 == old(self).tabs@.len() ==> *final(self) == *old(self),
            old(self).index + 1 < old(self).tabs@.len() ==> {
                let i = old(self).index as int;
                &&& final(self).index == i + 1
                &&& final(self).tabs@ == old(self).tabs@.update(i, old(self).tabs@[i + 1]).update(
                    i + 1,
                    old(self).tabs@[i],
                )
            },
    {
        if self.index == self.tabs.len() - 1 {
            return;
        }
        let i = self.index;
        let a = self.tabs[i];
        let b = self.tabs[i + 1];
        self.tabs[i] = b;
        self.tabs[i + 1] = a;
        self.next();
    }
}

/// The shell's own state: its tabs and two switches.
pub struct App {
    pub tabs: TabsState,
    pub should_quit: bool,
    pub display_help: bool,
}

impl App {
    pub fn new(display_help: bool) -> (r: App)
        ensures
            r.tabs.wf(),
            r.tabs.index == 0,
            r.tabs.tabs@ == seq![
                TabKind::Review,
                TabKind::AddCard,
                TabKind::IncrementalReading,
                TabKind::Import,
            ],
            r.display_help == display_help,
            !r.should_quit,
    {
        App { tabs: TabsState::new(), should_quit: false, display_help }
    }

    /// Applies the global meaning of `key`: tab moves, help toggle, quit.
    /// Other keys leave this state as it is.
    pub fn keyhandler(&mut self, key: MyKey)
        requires
            old(self).tabs.wf(),
        ensures
            final(self).tabs.wf(),
            final(self).tabs.tabs@.to_multiset() == old(self).tabs.tabs@.to_multiset(),
            key == MyKey::Tab ==> final(self).tabs.tabs@ == old(self).tabs.tabs@
                && final(self).tabs.index == if old(self).tabs.index + 1 < old(
                self,
            ).tabs.tabs@.len() {
                old(self).tabs.index + 1
            } else {
                old(self).tabs.index as int
            },
            key == MyKey::BackTab ==> final(self).tabs.tabs@ == old(self).tabs.tabs@
                && final(self).tabs.index == if old(self).tabs.index > 0 {
                old(self).tabs.index - 1
            } else {
                0
            },
            key == MyKey::SwapTab ==> if old(self).tabs.index + 1 < old(self).tabs.tabs@.len() {
                let i = old(self).tabs.index as int;
                &&& final(self).tabs.index == i + 1
                &&& final(self).tabs.tabs@ == swapped(old(self).tabs.tabs@, i, i + 1)
            } else {
                final(self).tabs == old(self).tabs
            },
            key == MyKey::BackSwapTab ==> if old(self).tabs.index > 0 {
                let i = old(self).tabs.index as int;
                &&& final(self).tabs.index == i - 1
                &&& final(self).tabs.tabs@ == swapped(old(self).tabs.tabs@, i, i - 1)
            } else {
                final(self).tabs == old(self).tabs
            },
            final(self).display_help == (old(self).display_help != (key == MyKey::F(1))),
            final(self).should_quit == (old(self).should_quit || key == MyKey::Alt('q')),
            !(key is Tab || key is BackTab || key is SwapTab || key is BackSwapTab)
                ==> final(self).tabs == old(self).tabs,
    {
        let ghost before = self.tabs.tabs@;
        match key {
            MyKey::Tab => self.tabs.next(),
            MyKey::BackTab => self.tabs.previous(),
            MyKey::SwapTab => {
                self.tabs.swap_right();
                proof {
                    if old(self).tabs.index + 1 < before.len() {
                        lemma_swap_same_multiset(before, old(self).tabs.index as int, old(self).tabs.index + 1);
                    }
                }
            },
            MyKey::BackSwapTab => {
                self.tabs.swap_left();
                proof {
                    if old(self).tabs.index > 0 {
                        lemma_swap_same_multiset(before, old(self).tabs.index as int, old(self).tabs.index - 1);
                    }
                }
            },
            MyKey::F(1) => self.display_help = !self.display_help,
            MyKey::Alt('q') => self.should_quit = true,
            _ => {},
        }
    }
}

/// `s` with the entries at `i` and `j` exchanged.
pub open spec fn swapped(s: Seq<TabKind>, i: int, j: int) -> Seq<TabKind> {
    s.update(i, s[j]).update(j, s[i])
}

proof fn lemma_swap_same_multiset(s: Seq<TabKind>, i: int, j: int)
    requires
        0 <= i < s.len(),
        0 <= j < s.len(),
    ensures
        s.update(i, s[j]).update(j, s[i]).to_multiset() == s.to_multiset(),
{
    let t = s.update(i, s[j]);
    vstd::seq_lib::to_multiset_update(s, i, s[j]);
    vstd::seq_lib::to_multiset_update(t, j, s[i]);
    if i != j {
        assert(t[j] == s[j]);
    }
    broadcast use vstd::multiset::group_multiset_axioms;
    vstd::seq_lib::to_multiset_contains(s, s[i]);
    assert(s.contains(s[i]));
    assert(s.to_multiset().insert(s[j]).remove(s[i]).insert(s[i]).remove(s[j]) =~= s.to_multiset());
}

/// The progress of an import, shown as a popup until the last item arrives.
pub struct Progress {
    pub title: String,
    pub current: u32,
    pub max: u32,
    /// The popup has finished and should close.
    pub done: bool,
}

impl Progress {
    pub fn new(title: String) -> (r: Self)
        ensures
            r.title@ == title@,
            r.current == 0,
            r.max == 0,
            !r.done,
    {
        Progress { title, current: 0, max: 0, done: false }
    }

    /// Records that item `curr_index` of `max` has been imported. The popup
    /// is done once the last one has.
    pub fn advance(&mut self, curr_index: u32, max: u32)
        ensures
            final(self).current == curr_index,
            final(self).max == max,
            final(self).title@ == old(self).title@,
            final(self).done == (old(self).done || (max > 0 && curr_index == max - 1)),
    {
        self.current = curr_index;
        self.max = max;
        if max > 0 && curr_index == max - 1 {
            self.done = true;
        }
    }

    /// Records that the import has stopped sending: the popup is done.
    pub fn disconnect(&mut self)
        ensures
            final(self).done,
            final(self).current == old(self).current,
            final(self).max == old(self).max,
            final(self).title@ == old(self).title@,
    {
        self.done = true;
    }

    pub fn get_title(&self) -> (r: String)
        ensures
            r@ == self.title@,
    {
        self.title.clone()
    }
}

} // verus!
