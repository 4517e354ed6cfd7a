//! Projects: the history of opened project folders, their display names,
//! and the request and response bodies of the project endpoints.

use vstd::prelude::*;
use crate::paths::{folder_name, folder_name_spec};
use crate::text::{chars_of, is_blank, str_eq, trim};

verus! {

#[derive(Debug, Clone, Copy, PartialEq, Eq)]
pub enum StartupStatus {
    Starting,
    Ready,
    Error,
}

#[derive(Debug, Clone, PartialEq)]
pub struct StartupResponse {
    pub status: StartupStatus,
}

/// A registered project.
#[derive(Debug, Clone, PartialEq)]
pub struct ProjectItem {
    /// Absolute path of the folder.
    pub path: String,
    pub name: String,
    /// The folder still exists.
    pub exists: bool,
}

#[derive(Debug, Clone, PartialEq)]
pub struct ProjectListResponse {
    pub projects: Vec<ProjectItem>,
}

/// An entry of `history.toml`.
#[derive(Debug, Clone, PartialEq)]
pub struct HistoryEntry {
    pub path: String,
    pub opened_at: u64,
}

#[derive(Debug, Clone, PartialEq)]
pub struct CreateProjectRequest {
    pub path: String,
    /// Display name (blank: the folder name).
    pub name: String,
}

#[derive(Debug, Clone, PartialEq)]
pub struct RemoveProjectRequest {
    pub path: String,
}

#[derive(Debug, Clone, PartialEq)]
pub struct RenameProjectRequest {
    pub path: String,
    pub new_name: String,
}

/// A node of the project tree.
#[derive(Debug)]
pub struct TreeNode {
    pub name: String,
    /// Path relative to the project, with `/`.
    pub path: String,
    /// `folder` or `file`.
    pub kind: String,
    pub modified: Option<u64>,
    pub children: Option<Vec<TreeNode>>,
}

#[derive(Debug, Clone, PartialEq)]
pub struct TreeRequest {
    pub path: String,
}

#[derive(Debug)]
pub struct TreeResponse {
    pub children: Vec<TreeNode>,
}

#[derive(Debug, Clone, PartialEq)]
pub struct ExcerptsRequest {
    pub path: String,
    pub folder: String,
}

#[derive(Debug, Clone, PartialEq)]
pub struct SheetExcerpt {
    pub file: String,
    pub excerpt: String,
}

#[derive(Debug, Clone, PartialEq)]
pub struct ExcerptsResponse {
    pub excerpts: Vec<SheetExcerpt>,
}

#[derive(Debug, Clone, PartialEq)]
pub struct ReadFileRequest {
    pub path: String,
    pub file: String,
}

#[derive(Debug, Clone, PartialEq)]
pub struct FileContent {
    pub content: String,
    pub modified: u64,
}

#[derive(Debug, Clone, PartialEq)]
pub struct WriteFileRequest {
    pub path: String,
    pub file: String,
    pub content: String,
}

#[derive(Debug, Clone, PartialEq)]
pub struct CreateFileRequest {
    pub path: String,
    pub file: String,
}

#[derive(Debug, Clone, PartialEq)]
pub struct RemoveFileRequest {
    pub path: String,
    pub file: String,
}

#[derive(Debug, Clone, PartialEq)]
pub struct CreateFolderRequest {
    pub path: String,
    pub folder: String,
}

#[derive(Debug, Clone, PartialEq)]
pub struct RemoveFolderRequest {
    pub path: String,
    pub folder: String,
}

#[derive(Debug, Clone, PartialEq)]
pub struct RenameEntryRequest {
    pub path: String,
    pub rel: String,
    pub new_name: String,
}

#[derive(Debug, Clone, PartialEq)]
pub struct WatchRequest {
    pub path: String,
}

/// The display name of a project: the `name` of its `project.toml` when
/// set and not blank, else the folder name.
pub open spec fn display_name_spec(toml_name: Option<Seq<char>>, path: Seq<char>) -> Seq<char> {
    match toml_name {
        Some(n) => if trim(n).len() > 0 { n } else { folder_name_spec(path) },
        None => folder_name_spec(path),
    }
}

/// The display name of a project, given the `name` read from the
/// project's `project.toml` (none when absent or unreadable).
pub fn project_display_name(toml_name: Option<String>, path: &str) -> (r: String)
    ensures
        r@ == display_name_spec(match toml_name {
            Some(n) => Some(n@),
            None => None,
        }, path@),
{
    match toml_name {
        Some(n) => if is_blank(&n) {
            folder_name(path)
        } else {
            n
        },
        None => folder_name(path),
    }
}

pub type EntryV = (Seq<char>, u64);

pub open spec fn entries_view(es: Seq<HistoryEntry>) -> Seq<EntryV> {
    es.map_values(|e: HistoryEntry| (e.path@, e.opened_at))
}

/// Records that a project was opened: the project
/// moves to the front, opened at `now`, and no other entry has its path.
pub fn touch_history(entries: &mut Vec<HistoryEntry>, path: &str, now: u64)
    ensures
        entries_view(final(entries)@) == seq![(path@, now)] + entries_view(old(entries)@).filter(|e: EntryV| e.0 != path@),
{
    let pv = chars_of(path);
    let mut kept: Vec<HistoryEntry> = Vec::new();
    kept.push(HistoryEntry { path: path.to_owned(), opened_at: now });
    let ghost all = entries_view(entries@);
    let mut i: usize = 0;
    while i < entries.len()
        invariant
            i <= entries@.len(),
            pv@ == path@,
            all == entries_view(entries@),
            entries_view(kept@) == seq![(path@, now)] + all.take(i as int).filter(|e: EntryV| e.0 != path@),
        decreases entries@.len() - i,
    {
        let e = &entries[i];
        let ev = chars_of(&e.path);
        assert(all.take(i + 1).drop_last() =~= all.take(i as int));
        reveal(Seq::filter);
        if !crate::text::chars_eq(&ev, &pv) {
            let ghost prev = kept@;
            kept.push(HistoryEntry { path: e.path.clone(), opened_at: e.opened_at });
            assert(entries_view(kept@) =~= entries_view(prev).push((e.path@, e.opened_at)));
        }
        i += 1;
    }
    assert(all.take(all.len() as int) =~= all);
    *entries = kept;
}


/// Law of the project history: after a project is opened it comes first,
/// and no other entry has its path.
pub proof fn law_history_front_once(es: Seq<EntryV>, path: Seq<char>, now: u64)
    ensures
        ({
            let r = seq![(path, now)] + es.filter(|e: EntryV| e.0 != path);
            &&& r[0] == (path, now)
            &&& forall|j: int| 1 <= j < r.len() ==> (#[trigger] r[j]).0 != path
        }),
{
    let f = es.filter(|e: EntryV| e.0 != path);
    let r = seq![(path, now)] + f;
    assert forall|j: int| 1 <= j < r.len() implies (#[trigger] r[j]).0 != path by {
        assert(r[j] == f[j - 1]);
        es.lemma_filter_pred(|e: EntryV| e.0 != path, j - 1);
    }
}

} // verus!
