//! What the tray menu holds and what a click on one of its items asks for.

use crate::utils::text::same_text;
use vstd::prelude::*;
use vstd::string::{StrSliceExecFns, StringExecFns};

verus! {

/// An item of the tray menu.
#[derive(Debug)]
pub struct TrayItem {
    pub id: String,
    pub title: String,
    pub selected: bool,
}

/// What a click on an item of the tray menu asks for.
#[derive(Debug)]
pub enum TrayCommand {
    /// Switch to the profile of this name.
    SwitchProfile(String),
    /// Switch to the layout of this name.
    SwitchLayout(String),
    /// Leave the application.
    Quit,
    /// Make a new profile.
    AddProfile,
    /// Make a new layout.
    AddLayout,
    /// The item asks for nothing.
    Ignore,
}

pub enum TrayCommandView {
    SwitchProfile(Seq<char>),
    SwitchLayout(Seq<char>),
    Quit,
    AddProfile,
    AddLayout,
    Ignore,
}

impl View for TrayCommand {
    type V = TrayCommandView;

    open spec fn view(&self) -> TrayCommandView {
        match self {
            TrayCommand::SwitchProfile(n) => TrayCommandView::SwitchProfile(n@),
            TrayCommand::SwitchLayout(n) => TrayCommandView::SwitchLayout(n@),
            TrayCommand::Quit => TrayCommandView::Quit,
            TrayCommand::AddProfile => TrayCommandView::AddProfile,
            TrayCommand::AddLayout => TrayCommandView::AddLayout,
            TrayCommand::Ignore => TrayCommandView::Ignore,
        }
    }
}

/// What the item with the identifier `id` asks for. An identifier that
/// begins with `profile:` or `layout:` names the document to switch to in
/// what follows the colon.
pub open spec fn command_of(id: Seq<char>) -> TrayCommandView {
    if "profile:"@.is_prefix_of(id) {
        TrayCommandView::SwitchProfile(id.skip("profile:"@.len() as int))
    } else if "layout:"@.is_prefix_of(id) {
        TrayCommandView::SwitchLayout(id.skip("layout:"@.len() as int))
    } else if id == "quit"@ {
        TrayCommandView::Quit
    } else if id == "add_profile"@ {
        TrayCommandView::AddProfile
    } else if id == "add_layout"@ {
        TrayCommandView::AddLayout
    } else {
        TrayCommandView::Ignore
    }
}

/// What follows `prefix` in `s`, where `s` begins with `prefix`.
pub fn strip_prefix(s: &str, prefix: &str) -> (r: Option<String>)
    ensures
        match r {
            Some(rest) => prefix@.is_prefix_of(s@) && rest@ == s@.skip(prefix@.len() as int),
            None => !prefix@.is_prefix_of(s@),
        },
{
    let n = s.unicode_len();
    let m = prefix.unicode_len();
    if m > n {
        return None;
    }
    let mut i: usize = 0;
    while i < m
        invariant
            0 <= i <= m <= n,
            n == s@.len(),
            m == prefix@.len(),
            forall|p: int| 0 <= p < i ==> s@[p] == prefix@[p],
        decreases m - i,
    {
        if s.get_char(i) != prefix.get_char(i) {
            assert(s@.subrange(0, m as int)[i as int] != prefix@[i as int]);
            return None;
        }
        i += 1;
    }
    assert(s@.subrange(0, m as int) =~= prefix@);
    let rest = String::from_str(s.substring_char(m, n));
    assert(rest@ =~= s@.skip(m as int));
    Some(rest)
}

/// What a click on the item with the identifier `id` asks for.
pub fn tray_command(id: &str) -> (c: TrayCommand)
    ensures
        c@ == command_of(id@),
{
    match strip_prefix(id, "profile:") {
        Some(name) => {
            return TrayCommand::SwitchProfile(name);
        },
        None => {},
    }
    match strip_prefix(id, "layout:") {
        Some(name) => {
            return TrayCommand::SwitchLayout(name);
        },
        None => {},
    }
    if same_text(id, "quit") {
        TrayCommand::Quit
    } else if same_text(id, "add_profile") {
        TrayCommand::AddProfile
    } else if same_text(id, "add_layout") {
        TrayCommand::AddLayout
    } else {
        TrayCommand::Ignore
    }
}

/// The menu items for the documents called `names`: each item is
/// identified by `prefix` and the name, shows the name, and is selected
/// where the name is that of the current document.
pub open spec fn items_of(prefix: Seq<char>, names: Seq<String>, current: Seq<char>) -> Seq<
    (Seq<char>, Seq<char>, bool),
> {
    names.map_values(|n: String| (prefix + n@, n@, n@ == current))
}

/// The id, the title and the selection of each item.
pub open spec fn items_view(items: Seq<TrayItem>) -> Seq<(Seq<char>, Seq<char>, bool)> {
    items.map_values(|i: TrayItem| (i.id@, i.title@, i.selected))
}

/// The menu items for the documents called `names`.
pub fn document_items(prefix: &str, names: &Vec<String>, current: &str) -> (items: Vec<TrayItem>)
    ensures
        items_view(items@) == items_of(prefix@, names@, current@),
{
    let mut items: Vec<TrayItem> = Vec::new();
    let mut i: usize = 0;
    while i < names.len()
        invariant
            0 <= i <= names.len(),
            items.len() == i,
            forall|p: int|
                0 <= p < i ==> (#[trigger] items@[p]).id@ == prefix@ + names@[p]@ && items@[p].title@
                    == names@[p]@ && items@[p].selected == (names@[p]@ == current@),
        decreases names.len() - i,
    {
        let item = TrayItem {
            id: String::from_str(prefix).concat(names[i].as_str()),
            title: names[i].clone(),
            selected: same_text(names[i].as_str(), current),
        };
        items.push(item);
        i += 1;
    }
    assert(items_view(items@) =~= items_of(prefix@, names@, current@));
    items
}

} // verus!
