//! The launchable item and its mathematical model.
use vstd::prelude::*;

verus! {

/// The kind of a launchable item: a closed, exhaustive tag.
#[derive(Debug, Clone, Copy, PartialEq, Eq, Structural)]
pub enum ItemType {
    Application,
    Command,
    RecentFile,
}

/// One candidate of the result list.
#[derive(Debug, Clone)]
pub struct AppInfo {
    pub name: String,
    pub description: String,
    pub exec_command: String,
    pub icon: Option<String>,
    pub categories: Vec<String>,
    pub item_type: ItemType,
    pub file_path: Option<String>,
}

/// A bookmark of the recent-files log: a file path and its MIME type.
#[derive(Debug)]
pub struct XbelBookmark {
    pub file_path: String,
    pub mime_type: String,
}

/// What an `AppInfo` holds, as character sequences.
pub struct AppInfoView {
    pub name: Seq<char>,
    pub description: Seq<char>,
    pub exec_command: Seq<char>,
    pub icon: Option<Seq<char>>,
    pub categories: Seq<Seq<char>>,
    pub item_type: ItemType,
    pub file_path: Option<Seq<char>>,
}

pub open spec fn opt_view(o: Option<String>) -> Option<Seq<char>> {
    match o {
        Some(s) => Some(s@),
        None => None,
    }
}

impl View for AppInfo {
    type V = AppInfoView;

    open spec fn view(&self) -> AppInfoView {
        AppInfoView {
            name: self.name@,
            description: self.description@,
            exec_command: self.exec_command@,
            icon: opt_view(self.icon),
            categories: self.categories.deep_view(),
            item_type: self.item_type,
            file_path: opt_view(self.file_path),
        }
    }
}

/// The views of a sequence of items.
pub open spec fn items_view(v: Seq<AppInfo>) -> Seq<AppInfoView> {
    v.map_values(|a: AppInfo| a@)
}

pub fn copy_opt_string(o: &Option<String>) -> (r: Option<String>)
    ensures
        opt_view(r) == opt_view(*o),
{
    match o {
        Some(s) => Some(s.clone()),
        None => None,
    }
}

pub fn copy_strings(v: &Vec<String>) -> (r: Vec<String>)
    ensures
        r.deep_view() == v.deep_view(),
{
    let mut out: Vec<String> = Vec::new();
    let mut i: usize = 0;
    while i < v.len()
        invariant
            i <= v@.len(),
            out@.len() == i,
            forall|k: int| 0 <= k < i ==> out@[k]@ == v@[k]@,
        decreases v@.len() - i,
    {
        out.push(v[i].clone());
        i = i + 1;
    }
    assert(out.deep_view() =~= v.deep_view());
    out
}

impl AppInfo {
    /// A copy of the item with the same view.
    pub fn copied(&self) -> (r: AppInfo)
        ensures
            r@ == self@,
    {
        AppInfo {
            name: self.name.clone(),
            description: self.description.clone(),
            exec_command: self.exec_command.clone(),
            icon: copy_opt_string(&self.icon),
            categories: copy_strings(&self.categories),
            item_type: self.item_type,
            file_path: copy_opt_string(&self.file_path),
        }
    }
}

} // verus!
