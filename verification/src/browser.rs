//! The tabs of the browser window and the operations on them.
use vstd::prelude::*;
use vstd::string::*;
use crate::url::{DEFAULT_URL, NEW_TAB_TITLE, normalized, label, normalize_url, label_for_url, lemma_label_of_normalized};
use crate::state_file::{scan_text, scan_lines, renumbered, lemma_load_saved, lemma_scan_bound, state_text, scan_state_file, state_file_contents};

verus! {

/// One tab: its id, its title and the URL it shows.
#[derive(Debug, Clone)]
pub struct ShellTab {
    pub id: usize,
    pub title: String,
    pub url: String,
}

/// A tab as a mathematical value.
pub struct TabView {
    pub id: usize,
    pub title: Seq<char>,
    pub url: Seq<char>,
}

impl View for ShellTab {
    type V = TabView;

    open spec fn view(&self) -> TabView {
        TabView { id: self.id, title: self.title@, url: self.url@ }
    }
}

/// The tabs as mathematical values.
pub open spec fn tabs_view(tabs: Seq<ShellTab>) -> Seq<TabView> {
    tabs.map_values(|t: ShellTab| t@)
}

/// What the shell hands to the page to draw the tab list.
#[derive(Debug, Clone)]
pub struct ShellState {
    pub active_index: usize,
    pub active_url: String,
    pub tabs: Vec<ShellTab>,
}

/// A `ShellState` as a mathematical value.
pub struct ShellStateView {
    pub active_index: usize,
    pub active_url: Seq<char>,
    pub tabs: Seq<TabView>,
}

impl View for ShellState {
    type V = ShellStateView;

    open spec fn view(&self) -> ShellStateView {
        ShellStateView {
            active_index: self.active_index,
            active_url: self.active_url@,
            tabs: tabs_view(self.tabs@),
        }
    }
}

/// The tabs of the window, which of them is active, and the id the next new
/// tab gets.
pub struct LinuxBrowser {
    tabs: Vec<ShellTab>,
    active_index: usize,
    next_tab_id: usize,
}

/// A `LinuxBrowser` as a mathematical value.
pub struct BrowserView {
    pub tabs: Seq<TabView>,
    pub active_index: usize,
    pub next_tab_id: usize,
}

impl View for LinuxBrowser {
    type V = BrowserView;

    closed spec fn view(&self) -> BrowserView {
        BrowserView {
            tabs: tabs_view(self.tabs@),
            active_index: self.active_index,
            next_tab_id: self.next_tab_id,
        }
    }
}

/// What every operation keeps: there is a tab, the active index names one,
/// the ids increase along the list and all lie below the next id.
pub open spec fn browser_wf(b: BrowserView) -> bool {
    &&& b.tabs.len() >= 1
    &&& b.active_index < b.tabs.len()
    &&& forall|i: int, j: int| 0 <= i < j < b.tabs.len() ==> b.tabs[i].id < b.tabs[j].id
    &&& forall|i: int| 0 <= i < b.tabs.len() ==> #[trigger] b.tabs[i].id < b.next_tab_id
}

/// A fresh tab that shows the default page.
pub open spec fn default_tab(id: usize) -> TabView {
    TabView { id, title: NEW_TAB_TITLE@, url: DEFAULT_URL@ }
}

/// What loading the state file text `raw` makes of `b`: where the file holds
/// tabs of the active workspace, they replace the tabs (numbered from 1), the
/// next id follows the last, and the tab the file names active becomes
/// active where there is one with that id; a file without such tabs changes
/// nothing.
pub open spec fn loaded(b: BrowserView, raw: Seq<char>) -> BrowserView {
    let st = scan_text(raw);
    if st.tabs.len() > 0 {
        BrowserView {
            tabs: st.tabs,
            next_tab_id: (st.tabs.len() + 1) as usize,
            active_index: if st.active_tab_id is Some && 1 <= st.active_tab_id->0 <= st.tabs.len() {
                (st.active_tab_id->0 - 1) as usize
            } else {
                b.active_index
            },
        }
    } else {
        b
    }
}

/// The browser at start, given the text of the state file where it could be
/// read: the loaded tabs, or else one tab on the default page.
pub open spec fn started(saved: Option<Seq<char>>) -> BrowserView {
    let empty = BrowserView { tabs: Seq::empty(), active_index: 0, next_tab_id: 1 };
    let b = match saved {
        Some(raw) => loaded(empty, raw),
        None => empty,
    };
    if b.tabs.len() == 0 {
        BrowserView { tabs: seq![default_tab(1)], active_index: 0, next_tab_id: 2 }
    } else {
        b
    }
}

/// `b` after opening a tab on the URL that `url` stands for: the tab goes
/// last, gets the next id and the title "New Tab", and becomes active.
pub open spec fn created(b: BrowserView, url: Seq<char>) -> BrowserView {
    BrowserView {
        tabs: b.tabs.push(TabView { id: b.next_tab_id, title: NEW_TAB_TITLE@, url: normalized(url) }),
        active_index: b.tabs.len() as usize,
        next_tab_id: (b.next_tab_id + 1) as usize,
    }
}

/// `b` after closing the active tab. A single tab is kept but turned back
/// into a new tab on the default page (its id kept). Otherwise the active tab
/// goes, and the active index stays, or moves to the new last tab where the
/// last one went.
pub open spec fn closed(b: BrowserView) -> BrowserView {
    if b.tabs.len() <= 1 {
        BrowserView {
            tabs: b.tabs.update(0, TabView { title: NEW_TAB_TITLE@, url: DEFAULT_URL@, ..b.tabs[0] }),
            active_index: 0,
            ..b
        }
    } else {
        let rest = b.tabs.remove(b.active_index as int);
        BrowserView {
            tabs: rest,
            active_index: if b.active_index >= rest.len() {
                (rest.len() - 1) as usize
            } else {
                b.active_index
            },
            ..b
        }
    }
}

/// `b` after asking to switch to the tab at `index`: it becomes active where
/// there is one, and nothing changes otherwise.
pub open spec fn switched(b: BrowserView, index: usize) -> BrowserView {
    if index < b.tabs.len() {
        BrowserView { active_index: index, ..b }
    } else {
        b
    }
}

/// `b` after pointing the active tab at the URL that `url` stands for: the tab
/// keeps its id and takes that URL and the title for it.
pub open spec fn navigated(b: BrowserView, url: Seq<char>) -> BrowserView {
    BrowserView {
        tabs: b.tabs.update(
            b.active_index as int,
            TabView {
                id: b.tabs[b.active_index as int].id,
                title: label(normalized(url)),
                url: normalized(url),
            },
        ),
        ..b
    }
}

/// The text of the state file that saving `b` writes.
pub open spec fn saved_text(b: BrowserView) -> Seq<char> {
    state_text(b.tabs, b.active_index as int)
}

/// The URL of the active tab, or the default page where there is none.
pub open spec fn current_url_of(b: BrowserView) -> Seq<char> {
    if b.active_index < b.tabs.len() {
        b.tabs[b.active_index as int].url
    } else {
        DEFAULT_URL@
    }
}

/// Where in `tabs` the first tab with this id stands.
fn tab_position(tabs: &Vec<ShellTab>, id: usize) -> (pos: Option<usize>)
    ensures
        match pos {
            Some(k) => k < tabs@.len() && tabs@[k as int].id == id && forall|j: int|
                0 <= j < k ==> tabs@[j].id != id,
            None => forall|j: int| 0 <= j < tabs@.len() ==> tabs@[j].id != id,
        },
{
    let mut k: usize = 0;
    while k < tabs.len()
        invariant
            k <= tabs@.len(),
            forall|j: int| 0 <= j < k ==> tabs@[j].id != id,
        decreases tabs@.len() - k,
    {
        if tabs[k].id == id {
            return Some(k);
        }
        k = k + 1;
    }
    None
}

/// A copy of a tab.
fn copy_tab(tab: &ShellTab) -> (copy: ShellTab)
    ensures
        copy@ == tab@,
{
    ShellTab { id: tab.id, title: tab.title.clone(), url: tab.url.clone() }
}

impl LinuxBrowser {
    /// The invariant of the browser (see `browser_wf`).
    pub open spec fn wf(&self) -> bool {
        browser_wf(self@)
    }

    /// Starts the browser from the text of its state file, where it could be
    /// read (`None` where it could not): the saved tabs of the active
    /// workspace, or else one new tab on the default page.
    pub fn new(saved: Option<&str>) -> (browser: Self)
        ensures
            browser@ == started(
                match saved {
                    Some(raw) => Some(raw@),
                    None => None,
                },
            ),
            browser.wf(),
    {
        let mut browser = LinuxBrowser { tabs: Vec::new(), active_index: 0, next_tab_id: 1 };
        assert(tabs_view(browser.tabs@) =~= Seq::<TabView>::empty());
        if let Some(raw) = saved {
            browser.load_state(raw);
        }
        if browser.tabs.len() == 0 {
            browser.tabs.push(
                ShellTab {
                    id: 1,
                    title: String::from_str(NEW_TAB_TITLE),
                    url: String::from_str(DEFAULT_URL),
                },
            );
            browser.active_index = 0;
            browser.next_tab_id = 2;
            assert(browser@.tabs =~= seq![default_tab(1)]);
        }
        browser
    }

    /// Replaces the tabs by those the state file text `raw` holds for the
    /// active workspace, where it holds any (see `loaded`).
    fn load_state(&mut self, raw: &str)
        ensures
            final(self)@ == loaded(old(self)@, raw@),
            scan_text(raw@).tabs.len() > 0 && old(self)@.active_index == 0 ==> browser_wf(
                final(self)@,
            ),
    {
        let (tabs, active_tab_id) = scan_state_file(raw);
        proof {
            lemma_scan_ids(raw@);
        }
        if tabs.len() > 0 {
            self.next_tab_id = tabs.len() + 1;
            if let Some(id) = active_tab_id {
                if let Some(index) = tab_position(&tabs, id) {
                    assert(tabs_view(tabs@)[index as int].id == tabs@[index as int].id);
                    self.active_index = index;
                } else {
                    assert(!(1 <= id <= tabs@.len())) by {
                        if 1 <= id <= tabs@.len() {
                            assert(tabs_view(tabs@)[id - 1].id == tabs@[id - 1].id);
                        }
                    }
                }
            }
            self.tabs = tabs;
        }
    }

    /// The active tab, where the active index names one.
    pub fn active_tab(&self) -> (tab: Option<&ShellTab>)
        ensures
            self@.active_index < self@.tabs.len() ==> (tab matches Some(t) && t@
                == self@.tabs[self@.active_index as int]),
            self@.active_index >= self@.tabs.len() ==> tab is None,
    {
        if self.active_index < self.tabs.len() {
            Some(&self.tabs[self.active_index])
        } else {
            None
        }
    }

    /// The active tab for changing it in place, where the active index names
    /// one; what is written through it becomes that tab.
    pub fn active_tab_mut(&mut self) -> (tab: Option<&mut ShellTab>)
        ensures
            old(self)@.active_index < old(self)@.tabs.len() ==> (tab matches Some(t) && (*t)@
                == old(self)@.tabs[old(self)@.active_index as int] && final(self)@ == (BrowserView {
                tabs: old(self)@.tabs.update(old(self)@.active_index as int, (*final(t))@),
                ..old(self)@
            })),
            old(self)@.active_index >= old(self)@.tabs.len() ==> (tab is None && final(self)@ == old(
                self,
            )@),
    {
        if self.active_index < self.tabs.len() {
            let ghost before = self.tabs@;
            let tab = &mut self.tabs[self.active_index];
            proof {
                assert(tabs_view(before.update(self.active_index as int, *final(tab))) =~= tabs_view(
                    before,
                ).update(self.active_index as int, (*final(tab))@));
            }
            Some(tab)
        } else {
            None
        }
    }

    /// Opens a new tab on the URL that `url` stands for, after the others,
    /// and makes it active.
    pub fn create_tab(&mut self, url: String)
        requires
            old(self).wf(),
            old(self)@.next_tab_id < usize::MAX,
        ensures
            final(self).wf(),
            final(self)@ == created(old(self)@, url@),
    {
        proof {
            lemma_created_wf(old(self)@, url@);
        }
        let tab = ShellTab {
            id: self.next_tab_id,
            title: String::from_str(NEW_TAB_TITLE),
            url: normalize_url(url.as_str()),
        };
        self.next_tab_id = self.next_tab_id + 1;
        let ghost before = self.tabs@;
        self.tabs.push(tab);
        assert(tabs_view(self.tabs@) =~= tabs_view(before).push(tab@));
        self.active_index = self.tabs.len() - 1;
    }

    /// Closes the active tab. The last remaining tab is not closed but turned
    /// back into a new tab on the default page. After a close the tab that
    /// followed the closed one is active, or the new last tab where the last
    /// one was closed.
    pub fn close_active_tab(&mut self)
        requires
            old(self).wf(),
        ensures
            final(self).wf(),
            final(self)@ == closed(old(self)@),
    {
        proof {
            lemma_closed_wf(old(self)@);
        }
        if self.tabs.len() <= 1 {
            if let Some(tab) = self.active_tab_mut() {
                tab.url = String::from_str(DEFAULT_URL);
                tab.title = String::from_str(NEW_TAB_TITLE);
            }
            self.active_index = 0;
            return;
        }
        if self.active_index < self.tabs.len() {
            let ghost before = self.tabs@;
            self.tabs.remove(self.active_index);
            assert(tabs_view(self.tabs@) =~= tabs_view(before).remove(
                old(self)@.active_index as int,
            ));
            if self.active_index >= self.tabs.len() {
                self.active_index = self.tabs.len() - 1;
            }
        }
    }

    /// Makes the tab at `index` active, where there is one.
    pub fn switch_tab(&mut self, index: usize)
        requires
            old(self).wf(),
        ensures
            final(self).wf(),
            final(self)@ == switched(old(self)@, index),
    {
        if index < self.tabs.len() {
            self.active_index = index;
        }
    }

    /// Points the active tab at the URL that `url` stands for, titled by it.
    pub fn navigate_active(&mut self, url: String)
        requires
            old(self).wf(),
        ensures
            final(self).wf(),
            final(self)@ == navigated(old(self)@, url@),
    {
        proof {
            lemma_navigated_wf(old(self)@, url@);
        }
        if let Some(tab) = self.active_tab_mut() {
            tab.url = normalize_url(url.as_str());
            tab.title = label_for_url(tab.url.as_str());
        }
    }

    /// What the page needs to draw the tab list: the active index, the URL of
    /// the active tab (empty where there is none) and all the tabs.
    pub fn sync_state(&self) -> (state: ShellState)
        ensures
            state@ == (ShellStateView {
                active_index: self@.active_index,
                active_url: if self@.active_index < self@.tabs.len() {
                    self@.tabs[self@.active_index as int].url
                } else {
                    Seq::empty()
                },
                tabs: self@.tabs,
            }),
    {
        let active_url = match self.active_tab() {
            Some(tab) => tab.url.clone(),
            None => String::new(),
        };
        let mut tabs: Vec<ShellTab> = Vec::new();
        let mut i: usize = 0;
        while i < self.tabs.len()
            invariant
                i <= self.tabs@.len(),
                tabs_view(tabs@) == tabs_view(self.tabs@).take(i as int),
            decreases self.tabs@.len() - i,
        {
            let ghost before = tabs@;
            let copy = copy_tab(&self.tabs[i]);
            tabs.push(copy);
            assert(tabs_view(tabs@) =~= tabs_view(before).push(copy@));
            assert(tabs_view(self.tabs@).take(i + 1) =~= tabs_view(self.tabs@).take(i as int).push(
                self.tabs@[i as int]@,
            ));
            i = i + 1;
        }
        assert(tabs_view(self.tabs@).take(i as int) =~= tabs_view(self.tabs@));
        ShellState { active_index: self.active_index, active_url, tabs }
    }

    /// The text that saving writes to the state file.
    pub fn save_state(&self) -> (text: String)
        ensures
            text@ == saved_text(self@),
    {
        state_file_contents(&self.tabs, self.active_index)
    }

    /// The URL of the active tab, or the default page where there is none.
    pub fn current_url(&self) -> (url: String)
        ensures
            url@ == current_url_of(self@),
    {
        match self.active_tab() {
            Some(tab) => tab.url.clone(),
            None => String::from_str(DEFAULT_URL),
        }
    }

    /// The tabs, in order.
    pub fn tabs(&self) -> (tabs: &Vec<ShellTab>)
        ensures
            tabs_view(tabs@) == self@.tabs,
    {
        &self.tabs
    }

    /// The index of the active tab.
    pub fn active_index(&self) -> (index: usize)
        ensures
            index == self@.active_index,
    {
        self.active_index
    }

    /// The id the next new tab gets.
    pub fn next_tab_id(&self) -> (id: usize)
        ensures
            id == self@.next_tab_id,
    {
        self.next_tab_id
    }
}

/// Law: opening a tab keeps the invariant (while ids remain).
pub proof fn lemma_created_wf(b: BrowserView, url: Seq<char>)
    requires
        browser_wf(b),
        b.next_tab_id < usize::MAX,
    ensures
        browser_wf(created(b, url)),
{
    let c = created(b, url);
    assert forall|i: int| 0 <= i < c.tabs.len() implies #[trigger] c.tabs[i].id < c.next_tab_id by {
        if i < b.tabs.len() {
            assert(c.tabs[i] == b.tabs[i]);
        }
    }
    assert forall|i: int, j: int| 0 <= i < j < c.tabs.len() implies c.tabs[i].id < c.tabs[j].id by {
        assert(c.tabs[i] == b.tabs[i]);
        if j < b.tabs.len() {
            assert(c.tabs[j] == b.tabs[j]);
        } else {
            assert(b.tabs[i].id < b.next_tab_id);
        }
    }
}

/// Law: closing the active tab keeps the invariant; in particular a tab
/// always remains.
pub proof fn lemma_closed_wf(b: BrowserView)
    requires
        browser_wf(b),
    ensures
        browser_wf(closed(b)),
{
    let c = closed(b);
    if b.tabs.len() <= 1 {
        assert forall|i: int| 0 <= i < c.tabs.len() implies #[trigger] c.tabs[i].id < c.next_tab_id by {
            assert(c.tabs[i].id == b.tabs[i].id);
        }
    } else {
        let a = b.active_index as int;
        assert forall|i: int| 0 <= i < c.tabs.len() implies #[trigger] c.tabs[i].id < c.next_tab_id by {
            if i < a {
                assert(c.tabs[i] == b.tabs[i]);
            } else {
                assert(c.tabs[i] == b.tabs[i + 1]);
            }
        }
        assert forall|i: int, j: int| 0 <= i < j < c.tabs.len() implies c.tabs[i].id
            < c.tabs[j].id by {
            let bi = if i < a { i } else { i + 1 };
            let bj = if j < a { j } else { j + 1 };
            assert(c.tabs[i] == b.tabs[bi]);
            assert(c.tabs[j] == b.tabs[bj]);
        }
    }
}

/// Law: switching tabs keeps the invariant.
pub proof fn lemma_switched_wf(b: BrowserView, index: usize)
    requires
        browser_wf(b),
    ensures
        browser_wf(switched(b, index)),
{
}

/// Law: navigating keeps the invariant.
pub proof fn lemma_navigated_wf(b: BrowserView, url: Seq<char>)
    requires
        browser_wf(b),
    ensures
        browser_wf(navigated(b, url)),
{
    let c = navigated(b, url);
    assert forall|i: int| 0 <= i < c.tabs.len() implies #[trigger] c.tabs[i].id == b.tabs[i].id by {}
}

/// Law: opening a tab appends exactly one tab, keeps the others in place, and
/// makes the new tab active: the active index is the last index, whatever tab
/// was active before. The new tab shows the URL that the typed text stands
/// for, is titled "New Tab" and gets the next id, which then moves on by one.
pub proof fn lemma_create_tab_activates_new_tab(b: BrowserView, url: Seq<char>)
    requires
        browser_wf(b),
        b.next_tab_id < usize::MAX,
    ensures
        created(b, url).tabs.len() == b.tabs.len() + 1,
        created(b, url).active_index == created(b, url).tabs.len() - 1,
        created(b, url).tabs[created(b, url).active_index as int].url == normalized(url),
        created(b, url).tabs[created(b, url).active_index as int].title == NEW_TAB_TITLE@,
        created(b, url).tabs[created(b, url).active_index as int].id == b.next_tab_id,
        created(b, url).next_tab_id == b.next_tab_id + 1,
        forall|i: int| 0 <= i < b.tabs.len() ==> #[trigger] created(b, url).tabs[i] == b.tabs[i],
{
    lemma_wf_tab_count(b);
}

/// Ids increase along the tabs and lie below the next id, so there are no
/// more tabs than the next id.
pub proof fn lemma_wf_tab_count(b: BrowserView)
    requires
        browser_wf(b),
    ensures
        b.tabs.len() <= b.next_tab_id,
{
    lemma_ids_at_least_index(b, b.tabs.len() - 1);
}

proof fn lemma_ids_at_least_index(b: BrowserView, k: int)
    requires
        browser_wf(b),
        0 <= k < b.tabs.len(),
    ensures
        b.tabs[k].id >= k,
    decreases k,
{
    if k > 0 {
        lemma_ids_at_least_index(b, k - 1);
    }
}

/// Law: closing one of several tabs removes exactly the active tab and keeps
/// the order of the others. Where the closed tab was not the last, the active
/// index stays, so the tab that followed the closed one becomes active; where
/// it was the last, the tab before it becomes active.
pub proof fn lemma_close_tab_activates_follower(b: BrowserView)
    requires
        browser_wf(b),
        b.tabs.len() > 1,
    ensures
        closed(b).tabs.len() == b.tabs.len() - 1,
        forall|i: int| 0 <= i < b.active_index ==> #[trigger] closed(b).tabs[i] == b.tabs[i],
        forall|i: int|
            b.active_index <= i < closed(b).tabs.len() ==> #[trigger] closed(b).tabs[i] == b.tabs[i
                + 1],
        b.active_index < b.tabs.len() - 1 ==> closed(b).active_index == b.active_index,
        b.active_index < b.tabs.len() - 1 ==> closed(b).tabs[closed(b).active_index as int]
            == b.tabs[b.active_index + 1],
        b.active_index == b.tabs.len() - 1 ==> closed(b).tabs[closed(b).active_index as int]
            == b.tabs[b.active_index - 1],
        closed(b).next_tab_id == b.next_tab_id,
{
}

/// Law: closing the only tab keeps it (with its id) but turns it back into a
/// new tab on the default page.
pub proof fn lemma_close_only_tab_resets(b: BrowserView)
    requires
        browser_wf(b),
        b.tabs.len() == 1,
    ensures
        closed(b).tabs.len() == 1,
        closed(b).active_index == 0,
        closed(b).tabs[0].id == b.tabs[0].id,
        closed(b).tabs[0].url == DEFAULT_URL@,
        closed(b).tabs[0].title == NEW_TAB_TITLE@,
        closed(b).next_tab_id == b.next_tab_id,
{
}

/// Law: navigating changes the tab at the active index only: it takes the URL
/// that the typed text stands for and the title for that URL, keeps its id,
/// and every other tab, the active index and the next id stay as they were.
pub proof fn lemma_navigate_changes_active_tab_only(b: BrowserView, url: Seq<char>)
    requires
        browser_wf(b),
    ensures
        navigated(b, url).tabs.len() == b.tabs.len(),
        navigated(b, url).active_index == b.active_index,
        navigated(b, url).next_tab_id == b.next_tab_id,
        navigated(b, url).tabs[b.active_index as int].url == normalized(url),
        navigated(b, url).tabs[b.active_index as int].title == label(url),
        navigated(b, url).tabs[b.active_index as int].id == b.tabs[b.active_index as int].id,
        forall|i: int|
            0 <= i < b.tabs.len() && i != b.active_index ==> #[trigger] navigated(b, url).tabs[i]
                == b.tabs[i],
{
    lemma_label_of_normalized(url);
}

/// Law: switching to a tab that exists makes exactly it active and changes no
/// tab; switching to an index past the tabs changes nothing.
pub proof fn lemma_switch_tab_selects_index(b: BrowserView, index: usize)
    requires
        browser_wf(b),
    ensures
        switched(b, index).tabs == b.tabs,
        switched(b, index).next_tab_id == b.next_tab_id,
        index < b.tabs.len() ==> switched(b, index).active_index == index,
        index >= b.tabs.len() ==> switched(b, index) == b,
{
}

/// Law: starting from what saving wrote gives back the tabs in order, with
/// their titles and URLs, numbered 1, 2, ...; the tab that was active is
/// active again, and the next id follows the last tab.
pub proof fn lemma_start_from_saved(b: BrowserView)
    requires
        browser_wf(b),
        b.tabs.len() <= usize::MAX,
    ensures
        started(Some(saved_text(b))) == (BrowserView {
            tabs: renumbered(b.tabs),
            active_index: b.active_index,
            next_tab_id: (b.tabs.len() + 1) as usize,
        }),
{
    lemma_load_saved(b.tabs, b.active_index as int);
}

/// Law: saving a browser whose tabs are numbered 1, 2, ... in order (as
/// every browser is right after it starts) and starting from what was
/// written gives the same tabs and the same active tab.
pub proof fn lemma_start_from_saved_numbered(b: BrowserView)
    requires
        browser_wf(b),
        b.tabs.len() <= usize::MAX,
        forall|i: int| 0 <= i < b.tabs.len() ==> #[trigger] b.tabs[i].id == i + 1,
    ensures
        started(Some(saved_text(b))) == (BrowserView { next_tab_id: (b.tabs.len() + 1) as usize, ..b }),
{
    lemma_start_from_saved(b);
    assert forall|i: int| 0 <= i < b.tabs.len() implies #[trigger] renumbered(b.tabs)[i] == b.tabs[i] by {
        assert(b.tabs[i].id == i + 1);
    }
    assert(renumbered(b.tabs) =~= b.tabs);
}

/// Law: saving right after the start and starting again from what was
/// written gives the same browser.
pub proof fn lemma_restart_unchanged(saved: Option<Seq<char>>)
    requires
        saved is Some ==> saved->0.len() <= usize::MAX,
    ensures
        started(Some(saved_text(started(saved)))) == started(saved),
{
    let b = started(saved);
    lemma_started_numbered(saved);
    lemma_start_from_saved_numbered(b);
}

/// Right after the start the tabs are numbered 1, 2, ... and the next id
/// follows the last one.
pub proof fn lemma_started_numbered(saved: Option<Seq<char>>)
    requires
        saved is Some ==> saved->0.len() <= usize::MAX,
    ensures
        browser_wf(started(saved)),
        started(saved).tabs.len() < usize::MAX,
        started(saved).next_tab_id == started(saved).tabs.len() + 1,
        forall|i: int|
            0 <= i < started(saved).tabs.len() ==> #[trigger] started(saved).tabs[i].id == i + 1,
{
    match saved {
        Some(raw) => {
            lemma_scan_ids(raw);
            lemma_scan_bound(raw);
        },
        None => {},
    }
}

/// The tabs read from a state file are numbered 1, 2, ... in order.
pub proof fn lemma_scan_ids(raw: Seq<char>)
    ensures
        forall|i: int|
            0 <= i < scan_text(raw).tabs.len() ==> #[trigger] scan_text(raw).tabs[i].id == (i
                + 1) as usize,
{
    lemma_scan_lines_ids(crate::text::lines(raw));
}

proof fn lemma_scan_lines_ids(ls: Seq<Seq<char>>)
    ensures
        forall|i: int|
            0 <= i < scan_lines(ls).tabs.len() ==> #[trigger] scan_lines(ls).tabs[i].id == (i
                + 1) as usize,
    decreases ls.len(),
{
    if ls.len() > 0 {
        lemma_scan_lines_ids(ls.drop_last());
        let prev = scan_lines(ls.drop_last()).tabs;
        let cur = scan_lines(ls).tabs;
        assert(cur == prev || (cur.len() == prev.len() + 1 && cur.drop_last() == prev
            && cur.last().id == (prev.len() + 1) as usize));
        assert forall|i: int| 0 <= i < cur.len() implies #[trigger] cur[i].id == (i + 1) as usize by {
            if cur != prev && i < prev.len() {
                assert(cur[i] == cur.drop_last()[i]);
            }
        }
    }
}

} // verus!
