//! The tabs that a session document shows.

use vstd::prelude::*;
use vstd::std_specs::convert::FromSpecImpl;
use crate::error::{Error, ErrorView};
use crate::recovery;
use crate::recovery::{optional_text, TopLevel, TopLevelView, Window, WindowView};

verus! {

/// An open tab: the page that it shows, and its icon.
#[derive(Debug)]
pub struct Tab {
    /// Title of the page.
    pub title: String,
    /// Address of the page.
    pub url: String,
    /// The tab's icon, where it has one.
    pub icon: Option<String>,
}

/// The mathematical value of a [`Tab`].
pub struct TabView {
    pub title: Seq<char>,
    pub url: Seq<char>,
    pub icon: Option<Seq<char>>,
}

impl View for Tab {
    type V = TabView;

    open spec fn view(&self) -> TabView {
        TabView { title: self.title@, url: self.url@, icon: optional_text(self.icon) }
    }
}

impl From<recovery::Entry> for Tab {
    /// A tab that shows `entry` and has no icon.
    fn from(entry: recovery::Entry) -> (tab: Tab) {
        Tab { title: entry.title, url: entry.url, icon: None }
    }
}

impl FromSpecImpl<recovery::Entry> for Tab {
    open spec fn obeys_from_spec() -> bool {
        true
    }

    open spec fn from_spec(entry: recovery::Entry) -> Tab {
        Tab { title: entry.title, url: entry.url, icon: None }
    }
}

/// The values of `tabs`, in their order.
pub open spec fn views(tabs: Seq<Tab>) -> Seq<TabView> {
    tabs.map_values(|t: Tab| t@)
}

/// The open tab that a tab's state stands for: the entry that it selects,
/// with the state's icon.
pub open spec fn shown(state: recovery::TabView) -> TabView
    recommends
        state.selects_an_entry(),
{
    TabView { title: state.selected().title, url: state.selected().url, icon: state.image }
}

/// Every tab of the window selects an entry of its history.
pub open spec fn window_well_indexed(window: WindowView) -> bool {
    forall|t: int| 0 <= t < window.tabs.len() ==> (#[trigger] window.tabs[t]).selects_an_entry()
}

/// Every tab of the document selects an entry of its history.
pub open spec fn well_indexed(document: TopLevelView) -> bool {
    forall|w: int|
        0 <= w < document.windows.len() ==> window_well_indexed(#[trigger] document.windows[w])
}

/// The open tabs of one window, in the window's order.
pub open spec fn window_tabs(window: WindowView) -> Seq<TabView> {
    window.tabs.map_values(|state: recovery::TabView| shown(state))
}

/// The open tabs of a document: those of the first window, then those of
/// the second, and so on.
pub open spec fn document_tabs(document: TopLevelView) -> Seq<TabView> {
    document.windows.map_values(|window: WindowView| window_tabs(window)).flatten()
}

/// Text of the failure on a tab whose index points at no entry.
pub open spec fn index_text() -> Seq<char> {
    "selected history entry is out of range"@
}

/// What extraction makes of a document: its open tabs, or the text of the
/// failure where some tab's index is 0 or larger than its history.
pub open spec fn extracted(document: TopLevelView) -> Result<Seq<TabView>, Seq<char>> {
    if well_indexed(document) {
        Ok(document_tabs(document))
    } else {
        Err(index_text())
    }
}

/// The open tab of one tab state; `None` where its index points at no entry.
pub fn show(state: recovery::Tab) -> (tab: Option<Tab>)
    ensures
        match tab {
            Some(tab) => state@.selects_an_entry() && tab@ == shown(state@),
            None => !state@.selects_an_entry(),
        },
{
    if state.index < 1 || state.index > state.entries.len() {
        return None;
    }
    let mut state = state;
    let icon = state.image.take();
    let entry = state.into_entry();
    let mut tab = Tab::from(entry);
    tab.icon = icon;
    Some(tab)
}

/// The open tabs of one window; `None` where some index points at no entry.
fn show_window(window: Window) -> (tabs: Option<Vec<Tab>>)
    ensures
        match tabs {
            Some(tabs) => window_well_indexed(window@) && views(tabs@) == window_tabs(window@),
            None => !window_well_indexed(window@),
        },
{
    let ghost view = window@;
    let ghost states = window.tabs@;
    let mut tabs: Vec<Tab> = Vec::new();
    for state in it: window.tabs.into_iter()
        invariant
            it.seq() == states,
            view.tabs == recovery::tab_views(states),
            tabs.len() == it.index(),
            forall|k: int|
                0 <= k < it.index() ==> (#[trigger] view.tabs[k]).selects_an_entry() && tabs[k]@
                    == shown(view.tabs[k]),
    {
        assert(view.tabs[it.index() as int] == state@);
        match show(state) {
            Some(tab) => {
                tabs.push(tab);
            },
            None => {
                return None;
            },
        }
    }
    assert(views(tabs@) =~= window_tabs(view));
    Some(tabs)
}

/// The open tabs of a session document, window by window and, within a
/// window, tab by tab. A tab whose index is 0 or larger than its history
/// makes the whole document a `MalformedSession`.
pub fn extract_tabs(document: TopLevel) -> (tabs: Result<Vec<Tab>, Error>)
    ensures
        match tabs {
            Ok(tabs) => extracted(document@) == Ok::<Seq<TabView>, Seq<char>>(views(tabs@)),
            Err(e) => extracted(document@) matches Err(cause) && e@
                == ErrorView::MalformedSession(cause),
        },
{
    let ghost view = document@;
    let ghost windows = document.windows@;
    let ghost parts = view.windows.map_values(|window: WindowView| window_tabs(window));
    let mut tabs: Vec<Tab> = Vec::new();
    assert(parts.skip(0) =~= parts);
    assert(views(tabs@) + parts.flatten() =~= parts.flatten());
    for window in it: document.windows.into_iter()
        invariant
            it.seq() == windows,
            view.windows == recovery::window_views(windows),
            parts == view.windows.map_values(|window: WindowView| window_tabs(window)),
            forall|k: int| 0 <= k < it.index() ==> window_well_indexed(#[trigger] view.windows[k]),
            parts.flatten() == views(tabs@) + parts.skip(it.index() as int).flatten(),
    {
        let ghost rest = parts.skip(it.index() as int);
        let ghost before = views(tabs@);
        assert(view.windows[it.index() as int] == window@);
        assert(rest.first() == window_tabs(window@));
        assert(rest.drop_first() =~= parts.skip(it.index() + 1));
        match show_window(window) {
            Some(mut part) => {
                let ghost added = views(part@);
                tabs.append(&mut part);
                assert(views(tabs@) =~= before + added);
                assert(views(tabs@) + rest.drop_first().flatten() =~= before + (rest.first()
                    + rest.drop_first().flatten()));
            },
            None => {
                return Err(
                    Error::MalformedSession(
                        String::from_str("selected history entry is out of range"),
                    ),
                );
            },
        }
    }
    assert(parts.skip(parts.len() as int).flatten() =~= Seq::<TabView>::empty());
    Ok(tabs)
}

/// A tab whose index is 0 or larger than its history makes extraction
/// fail, wherever in the document it stands.
pub proof fn lemma_index_out_of_range_fails(document: TopLevelView, window: int, tab: int)
    requires
        0 <= window < document.windows.len(),
        0 <= tab < document.windows[window].tabs.len(),
        ({
            let state = document.windows[window].tabs[tab];
            state.index == 0 || state.index > state.entries.len()
        }),
    ensures
        extracted(document) == Err::<Seq<TabView>, Seq<char>>(index_text()),
{
    assert(!document.windows[window].tabs[tab].selects_an_entry());
    assert(!window_well_indexed(document.windows[window]));
}

} // verus!
