//! The session document of a recovery file, and how it is read from JSON.
//!
//! ```text
//! { "windows": [ { "tabs": [
//!     { "entries": [ {"title": str, "url": str}, ... ],
//!       "index": int,            // counts from 1
//!       "image": str | null      // may be missing
//!     }, ... ] } ] }
//! ```
//!
//! Members that the schema does not name play no part in the document.
//! They are read as JSON with the rest of the text, though: the whole text
//! fails on a member that is not well-formed JSON, that nests deeper than
//! the parser follows, or that holds a number beyond the parser's range,
//! whether the schema names the member or not. Of a member that an object
//! names twice, the one that stands last in the text counts.

use vstd::prelude::*;
use crate::error::{Error, ErrorView};
use crate::json::{item_views, parse_json, parsed_json, Json, JsonView};

verus! {

/// One page of a tab's history.
#[derive(Debug)]
pub struct Entry {
    pub title: String,
    pub url: String,
}

/// The mathematical value of an [`Entry`].
pub struct EntryView {
    pub title: Seq<char>,
    pub url: Seq<char>,
}

impl View for Entry {
    type V = EntryView;

    open spec fn view(&self) -> EntryView {
        EntryView { title: self.title@, url: self.url@ }
    }
}

/// The state of one tab: its history, which entry of it is shown (counted
/// from 1), and its icon.
#[derive(Debug)]
pub struct Tab {
    pub entries: Vec<Entry>,
    pub index: usize,
    pub image: Option<String>,
}

/// The mathematical value of a [`Tab`].
pub struct TabView {
    pub entries: Seq<EntryView>,
    pub index: nat,
    pub image: Option<Seq<char>>,
}

/// The values of `entries`, in their order.
pub open spec fn entry_views(entries: Seq<Entry>) -> Seq<EntryView> {
    entries.map_values(|e: Entry| e@)
}

/// The characters of an optional text.
pub open spec fn optional_text(text: Option<String>) -> Option<Seq<char>> {
    match text {
        Some(text) => Some(text@),
        None => None,
    }
}

impl View for Tab {
    type V = TabView;

    open spec fn view(&self) -> TabView {
        TabView {
            entries: entry_views(self.entries@),
            index: self.index as nat,
            image: optional_text(self.image),
        }
    }
}

impl TabView {
    /// The index points at an entry of the history.
    pub open spec fn selects_an_entry(self) -> bool {
        1 <= self.index <= self.entries.len()
    }

    /// The entry that the tab shows.
    pub open spec fn selected(self) -> EntryView
        recommends
            self.selects_an_entry(),
    {
        self.entries[self.index - 1]
    }
}

impl Tab {
    /// The entry that the tab shows.
    pub fn into_entry(self) -> (entry: Entry)
        requires
            self@.selects_an_entry(),
        ensures
            entry@ == self@.selected(),
    {
        let mut entries = self.entries;
        entries.swap_remove(self.index - 1)
    }
}

/// One window: its tabs, in their order.
#[derive(Debug)]
pub struct Window {
    pub tabs: Vec<Tab>,
}

/// The mathematical value of a [`Window`].
pub struct WindowView {
    pub tabs: Seq<TabView>,
}

/// The values of `tabs`, in their order.
pub open spec fn tab_views(tabs: Seq<Tab>) -> Seq<TabView> {
    tabs.map_values(|t: Tab| t@)
}

impl View for Window {
    type V = WindowView;

    open spec fn view(&self) -> WindowView {
        WindowView { tabs: tab_views(self.tabs@) }
    }
}

/// The session document: the windows, in their order.
#[derive(Debug)]
pub struct TopLevel {
    pub windows: Vec<Window>,
}

/// The mathematical value of a [`TopLevel`].
pub struct TopLevelView {
    pub windows: Seq<WindowView>,
}

/// The values of `windows`, in their order.
pub open spec fn window_views(windows: Seq<Window>) -> Seq<WindowView> {
    windows.map_values(|w: Window| w@)
}

impl View for TopLevel {
    type V = TopLevelView;

    open spec fn view(&self) -> TopLevelView {
        TopLevelView { windows: window_views(self.windows@) }
    }
}

/// The member `name` of `value`, where it is a text.
pub open spec fn text_member(value: JsonView, name: Seq<char>) -> Option<Seq<char>> {
    match value.member(name) {
        Some(JsonView::Text(text)) => Some(text),
        _ => None,
    }
}

/// The member `name` of `value`, where it is an array.
pub open spec fn array_member(value: JsonView, name: Seq<char>) -> Option<Seq<JsonView>> {
    match value.member(name) {
        Some(JsonView::Array(items)) => Some(items),
        _ => None,
    }
}

/// The history entry that `value` describes: an object with the texts
/// `title` and `url`.
pub open spec fn entry_of(value: JsonView) -> Option<EntryView> {
    match (text_member(value, "title"@), text_member(value, "url"@)) {
        (Some(title), Some(url)) => Some(EntryView { title, url }),
        _ => None,
    }
}

/// The history that `items` describe, where each of them describes an entry.
pub open spec fn entries_of(items: Seq<JsonView>) -> Option<Seq<EntryView>> {
    if forall|i: int| 0 <= i < items.len() ==> entry_of(#[trigger] items[i]) is Some {
        Some(items.map_values(|item: JsonView| entry_of(item)->0))
    } else {
        None
    }
}

/// The index that `value` holds: the member `index`, a non-negative integer
/// that fits the machine's word.
pub open spec fn index_of(value: JsonView) -> Option<nat> {
    match value.member("index"@) {
        Some(JsonView::Number(Some(n))) => if n <= usize::MAX {
            Some(n as nat)
        } else {
            None
        },
        _ => None,
    }
}

/// The icon that `value` holds: none where the member `image` is missing or
/// `null`, its characters where it is a text. The outer `None` stands for a
/// member of another kind.
pub open spec fn image_of(value: JsonView) -> Option<Option<Seq<char>>> {
    match value.member("image"@) {
        None => Some(None),
        Some(JsonView::Null) => Some(None),
        Some(JsonView::Text(text)) => Some(Some(text)),
        _ => None,
    }
}

/// The tab that `value` describes: an object with the array `entries`, the
/// integer `index` and, if it is there, the icon `image`.
pub open spec fn tab_of(value: JsonView) -> Option<TabView> {
    match array_member(value, "entries"@) {
        Some(items) => match (entries_of(items), index_of(value), image_of(value)) {
            (Some(entries), Some(index), Some(image)) => Some(TabView { entries, index, image }),
            _ => None,
        },
        None => None,
    }
}

/// The tabs that `items` describe, where each of them describes a tab.
pub open spec fn tabs_of(items: Seq<JsonView>) -> Option<Seq<TabView>> {
    if forall|i: int| 0 <= i < items.len() ==> tab_of(#[trigger] items[i]) is Some {
        Some(items.map_values(|item: JsonView| tab_of(item)->0))
    } else {
        None
    }
}

/// The window that `value` describes: an object with the array `tabs`.
pub open spec fn window_of(value: JsonView) -> Option<WindowView> {
    match array_member(value, "tabs"@) {
        Some(items) => match tabs_of(items) {
            Some(tabs) => Some(WindowView { tabs }),
            None => None,
        },
        None => None,
    }
}

/// The windows that `items` describe, where each of them describes a window.
pub open spec fn windows_of(items: Seq<JsonView>) -> Option<Seq<WindowView>> {
    if forall|i: int| 0 <= i < items.len() ==> window_of(#[trigger] items[i]) is Some {
        Some(items.map_values(|item: JsonView| window_of(item)->0))
    } else {
        None
    }
}

/// The session document that `value` describes: an object with the array
/// `windows`. `None` where a member that the schema asks for is missing or
/// of another kind, at any level.
pub open spec fn document_of(value: JsonView) -> Option<TopLevelView> {
    match array_member(value, "windows"@) {
        Some(items) => match windows_of(items) {
            Some(windows) => Some(TopLevelView { windows }),
            None => None,
        },
        None => None,
    }
}

/// The member `name` of `value` as a text of its own.
fn text_member_of(value: &Json, name: &str) -> (text: Option<String>)
    ensures
        optional_text(text) == text_member(value@, name@),
{
    match value.member(name) {
        Some(member) => match member.as_text() {
            Some(text) => Some(text.clone()),
            None => None,
        },
        None => None,
    }
}

/// The member `name` of `value`, where it is an array.
fn array_member_of<'a>(value: &'a Json, name: &str) -> (items: Option<&'a Vec<Json>>)
    ensures
        match items {
            Some(items) => array_member(value@, name@) == Some(item_views(items@)),
            None => array_member(value@, name@) is None,
        },
{
    match value.member(name) {
        Some(member) => member.as_array(),
        None => None,
    }
}

impl Entry {
    /// Reads a history entry.
    pub fn from_json(value: &Json) -> (entry: Option<Entry>)
        ensures
            match entry {
                Some(entry) => entry_of(value@) == Some(entry@),
                None => entry_of(value@) is None,
            },
    {
        match text_member_of(value, "title") {
            Some(title) => match text_member_of(value, "url") {
                Some(url) => Some(Entry { title, url }),
                None => None,
            },
            None => None,
        }
    }
}

/// Reads a history: every item must describe an entry.
fn entries_from(items: &Vec<Json>) -> (entries: Option<Vec<Entry>>)
    ensures
        match entries {
            Some(entries) => entries_of(item_views(items@)) == Some(entry_views(entries@)),
            None => entries_of(item_views(items@)) is None,
        },
{
    let ghost views = item_views(items@);
    let mut entries: Vec<Entry> = Vec::new();
    let mut i: usize = 0;
    while i < items.len()
        invariant
            i <= items.len(),
            views == item_views(items@),
            entries.len() == i,
            forall|k: int| 0 <= k < i ==> entry_of(views[k]) == Some(#[trigger] entries[k]@),
        decreases items.len() - i,
    {
        match Entry::from_json(&items[i]) {
            Some(entry) => {
                entries.push(entry);
            },
            None => {
                assert(entry_of(views[i as int]) is None);
                return None;
            },
        }
        i = i + 1;
    }
    assert forall|k: int| 0 <= k < views.len() implies entry_of(#[trigger] views[k]) is Some by {
        assert(entry_of(views[k]) == Some(entries[k]@));
    }
    assert(views.map_values(|item: JsonView| entry_of(item)->0) =~= entry_views(entries@)) by {
        assert forall|k: int| 0 <= k < views.len() implies entry_of(views[k])->0
            == entry_views(entries@)[k] by {
            assert(entry_of(views[k]) == Some(entries[k]@));
        }
    }
    Some(entries)
}

impl Tab {
    /// Reads the state of a tab.
    pub fn from_json(value: &Json) -> (tab: Option<Tab>)
        ensures
            match tab {
                Some(tab) => tab_of(value@) == Some(tab@),
                None => tab_of(value@) is None,
            },
    {
        let entries = match array_member_of(value, "entries") {
            Some(items) => match entries_from(items) {
                Some(entries) => entries,
                None => { return None; },
            },
            None => { return None; },
        };
        let index: usize = match value.member("index") {
            Some(member) => match member.as_unsigned() {
                Some(n) => if n <= usize::MAX as u64 {
                    n as usize
                } else {
                    return None;
                },
                None => { return None; },
            },
            None => { return None; },
        };
        let image: Option<String> = match value.member("image") {
            None => None,
            Some(member) => if member.is_null() {
                None
            } else {
                match member.as_text() {
                    Some(text) => Some(text.clone()),
                    None => { return None; },
                }
            },
        };
        Some(Tab { entries, index, image })
    }
}

/// Reads the tabs of a window: every item must describe a tab.
fn tabs_from(items: &Vec<Json>) -> (tabs: Option<Vec<Tab>>)
    ensures
        match tabs {
            Some(tabs) => tabs_of(item_views(items@)) == Some(tab_views(tabs@)),
            None => tabs_of(item_views(items@)) is None,
        },
{
    let ghost views = item_views(items@);
    let mut tabs: Vec<Tab> = Vec::new();
    let mut i: usize = 0;
    while i < items.len()
        invariant
            i <= items.len(),
            views == item_views(items@),
            tabs.len() == i,
            forall|k: int| 0 <= k < i ==> tab_of(views[k]) == Some(#[trigger] tabs[k]@),
        decreases items.len() - i,
    {
        match Tab::from_json(&items[i]) {
            Some(tab) => {
                tabs.push(tab);
            },
            None => {
                assert(tab_of(views[i as int]) is None);
                return None;
            },
        }
        i = i + 1;
    }
    assert forall|k: int| 0 <= k < views.len() implies tab_of(#[trigger] views[k]) is Some by {
        assert(tab_of(views[k]) == Some(tabs[k]@));
    }
    assert(views.map_values(|item: JsonView| tab_of(item)->0) =~= tab_views(tabs@)) by {
        assert forall|k: int| 0 <= k < views.len() implies tab_of(views[k])->0 == tab_views(
            tabs@,
        )[k] by {
            assert(tab_of(views[k]) == Some(tabs[k]@));
        }
    }
    Some(tabs)
}

impl Window {
    /// Reads a window.
    pub fn from_json(value: &Json) -> (window: Option<Window>)
        ensures
            match window {
                Some(window) => window_of(value@) == Some(window@),
                None => window_of(value@) is None,
            },
    {
        match array_member_of(value, "tabs") {
            Some(items) => match tabs_from(items) {
                Some(tabs) => Some(Window { tabs }),
                None => None,
            },
            None => None,
        }
    }
}

/// Reads the windows of a document: every item must describe a window.
fn windows_from(items: &Vec<Json>) -> (windows: Option<Vec<Window>>)
    ensures
        match windows {
            Some(windows) => windows_of(item_views(items@)) == Some(window_views(windows@)),
            None => windows_of(item_views(items@)) is None,
        },
{
    let ghost views = item_views(items@);
    let mut windows: Vec<Window> = Vec::new();
    let mut i: usize = 0;
    while i < items.len()
        invariant
            i <= items.len(),
            views == item_views(items@),
            windows.len() == i,
            forall|k: int| 0 <= k < i ==> window_of(views[k]) == Some(#[trigger] windows[k]@),
        decreases items.len() - i,
    {
        match Window::from_json(&items[i]) {
            Some(window) => {
                windows.push(window);
            },
            None => {
                assert(window_of(views[i as int]) is None);
                return None;
            },
        }
        i = i + 1;
    }
    assert forall|k: int| 0 <= k < views.len() implies window_of(#[trigger] views[k]) is Some by {
        assert(window_of(views[k]) == Some(windows[k]@));
    }
    assert(views.map_values(|item: JsonView| window_of(item)->0) =~= window_views(windows@)) by {
        assert forall|k: int| 0 <= k < views.len() implies window_of(views[k])->0 == window_views(
            windows@,
        )[k] by {
            assert(window_of(views[k]) == Some(windows[k]@));
        }
    }
    Some(windows)
}

/// Text of the failure on a JSON value that does not describe a session.
pub open spec fn shape_text() -> Seq<char> {
    "document does not have the structure of a session"@
}

/// The session document that a JSON text holds, or the text of the failure:
/// that of reading the text where it is not JSON or too long, and
/// [`shape_text`] where the value does not describe a session.
pub open spec fn session_of(text: Seq<u8>) -> Result<TopLevelView, Seq<char>> {
    match parsed_json(text) {
        Err(cause) => Err(cause),
        Ok(value) => match document_of(value) {
            Some(document) => Ok(document),
            None => Err(shape_text()),
        },
    }
}

impl TopLevel {
    /// Reads a session document from a JSON value. Only the shape is
    /// looked at: whether an index points at an entry is not.
    pub fn from_json(value: &Json) -> (document: Result<TopLevel, Error>)
        ensures
            match document {
                Ok(document) => document_of(value@) == Some(document@),
                Err(e) => document_of(value@) is None && e@ == ErrorView::MalformedSession(
                    shape_text(),
                ),
            },
    {
        let windows = match array_member_of(value, "windows") {
            Some(items) => windows_from(items),
            None => None,
        };
        match windows {
            Some(windows) => Ok(TopLevel { windows }),
            None => Err(
                Error::MalformedSession(
                    String::from_str("document does not have the structure of a session"),
                ),
            ),
        }
    }

    /// Reads a session document from a JSON text.
    ///
    /// The text is parsed as a whole before the schema is looked at, as
    /// [`parse_json`] says: what is wrong with a member that the schema
    /// does not name (nesting beyond 128 levels, a number out of range,
    /// broken syntax) fails the document, and a member named twice is
    /// taken as it stands last.
    pub fn from_slice(text: &[u8]) -> (document: Result<TopLevel, Error>)
        ensures
            match document {
                Ok(document) => session_of(text@) == Ok::<TopLevelView, Seq<char>>(document@),
                Err(e) => session_of(text@) matches Err(cause) && e@
                    == ErrorView::MalformedSession(cause),
            },
    {
        match parse_json(text) {
            Ok(value) => TopLevel::from_json(&value),
            Err(e) => Err(e),
        }
    }
}

} // verus!
