//! The data model: directory-tree nodes, directory-listing snapshots, and
//! the typed shape of the configuration, together with the mathematical
//! models that contracts speak of.

use vstd::prelude::*;
use crate::paths::spec_base_name;

verus! {

/// A markdown file inside a directory node.
#[derive(Debug, Clone, PartialEq)]
pub struct DirectoryFile {
    pub name: String,
    pub path: String,
    pub shorthand_id: String,
}

/// A node of the cheatsheet tree: a directory with its markdown files and
/// its child directories.
#[derive(Debug, PartialEq)]
pub struct Directory {
    pub name: String,
    pub path: String,
    pub files: Vec<DirectoryFile>,
    pub sub_directories: Vec<Directory>,
    pub shorthand_id: String,
}

/// The mathematical value of a file entry.
#[verifier::ext_equal]
pub struct FileModel {
    pub name: Seq<char>,
    pub path: Seq<char>,
    pub shorthand: Seq<char>,
}

/// The mathematical value of a directory node.
#[verifier::ext_equal]
pub struct DirModel {
    pub name: Seq<char>,
    pub path: Seq<char>,
    pub files: Seq<FileModel>,
    pub subs: Seq<DirModel>,
    pub shorthand: Seq<char>,
}

/// The model of a file entry.
pub open spec fn file_view(f: DirectoryFile) -> FileModel {
    FileModel { name: f.name@, path: f.path@, shorthand: f.shorthand_id@ }
}

/// The models of a list of file entries.
pub open spec fn files_view(s: Seq<DirectoryFile>) -> Seq<FileModel> {
    s.map_values(|f: DirectoryFile| file_view(f))
}

/// The model of a directory node.
pub open spec fn dir_view(d: Directory) -> DirModel
    decreases d,
{
    proof {
        assert(decreases_to!(d => d.sub_directories));
        assert(decreases_to!(d.sub_directories => d.sub_directories@));
    }
    DirModel {
        name: d.name@,
        path: d.path@,
        files: files_view(d.files@),
        subs: dirs_view(d.sub_directories@),
        shorthand: d.shorthand_id@,
    }
}

/// The models of a forest of directory nodes.
pub open spec fn dirs_view(s: Seq<Directory>) -> Seq<DirModel>
    decreases s,
{
    if s.len() == 0 {
        Seq::empty()
    } else {
        seq![dir_view(s[0])] + dirs_view(s.drop_first())
    }
}

/// A forest's model lists the model of each of its nodes, in order.
pub proof fn lemma_dirs_view_index(s: Seq<Directory>)
    ensures
        dirs_view(s).len() == s.len(),
        forall|i: int| 0 <= i < s.len() ==> #[trigger] dirs_view(s)[i] == dir_view(s[i]),
    decreases s.len(),
{
    if s.len() > 0 {
        lemma_dirs_view_index(s.drop_first());
    }
}

/// Extending a forest by one node extends its model by the node's model.
pub proof fn lemma_dirs_view_push(s: Seq<Directory>, d: Directory)
    ensures
        dirs_view(s.push(d)) == dirs_view(s).push(dir_view(d)),
{
    lemma_dirs_view_index(s.push(d));
    lemma_dirs_view_index(s);
    assert(dirs_view(s.push(d)) =~= dirs_view(s).push(dir_view(d)));
}

/// Extending a file list by one entry extends its model by the entry's
/// model.
pub proof fn lemma_files_view_push(s: Seq<DirectoryFile>, f: DirectoryFile)
    ensures
        files_view(s.push(f)) == files_view(s).push(file_view(f)),
{
    assert(files_view(s.push(f)) =~= files_view(s).push(file_view(f)));
}

/// Inserting a node into a forest inserts its model into the forest's
/// model, at the same place.
pub proof fn lemma_dirs_view_insert(s: Seq<Directory>, j: int, d: Directory)
    requires
        0 <= j <= s.len(),
    ensures
        dirs_view(s.insert(j, d)) == dirs_view(s).insert(j, dir_view(d)),
{
    lemma_dirs_view_index(s.insert(j, d));
    lemma_dirs_view_index(s);
    s.insert_ensures(j, d);
    dirs_view(s).insert_ensures(j, dir_view(d));
    assert(dirs_view(s.insert(j, d)) =~= dirs_view(s).insert(j, dir_view(d)));
}

/// Inserting a file entry into a list inserts its model into the list's
/// model, at the same place.
pub proof fn lemma_files_view_insert(s: Seq<DirectoryFile>, j: int, f: DirectoryFile)
    requires
        0 <= j <= s.len(),
    ensures
        files_view(s.insert(j, f)) == files_view(s).insert(j, file_view(f)),
{
    s.insert_ensures(j, f);
    files_view(s).insert_ensures(j, file_view(f));
    assert(files_view(s.insert(j, f)) =~= files_view(s).insert(j, file_view(f)));
}

/// What a directory listing reports an entry to be.
#[derive(Debug, Clone, Copy, PartialEq, Eq, Structural)]
pub enum EntryKind {
    File,
    Dir,
    Other,
}

/// One entry of a directory listing, with the listing of the entry itself
/// where the entry is a directory that was read.
#[derive(Debug, PartialEq)]
pub struct FsEntry {
    pub name: String,
    pub path: String,
    pub kind: EntryKind,
    pub entries: Vec<FsEntry>,
}

/// The mathematical value of a listing entry.
#[verifier::ext_equal]
pub struct EntryModel {
    pub name: Seq<char>,
    pub path: Seq<char>,
    pub kind: EntryKind,
    pub entries: Seq<EntryModel>,
}

/// The model of a listing entry.
pub open spec fn entry_view(e: FsEntry) -> EntryModel
    decreases e,
{
    proof {
        assert(decreases_to!(e => e.entries));
        assert(decreases_to!(e.entries => e.entries@));
    }
    EntryModel {
        name: e.name@,
        path: e.path@,
        kind: e.kind,
        entries: entries_view(e.entries@),
    }
}

/// The models of a directory listing.
pub open spec fn entries_view(s: Seq<FsEntry>) -> Seq<EntryModel>
    decreases s,
{
    if s.len() == 0 {
        Seq::empty()
    } else {
        seq![entry_view(s[0])] + entries_view(s.drop_first())
    }
}

/// A listing's model lists the model of each of its entries, in order.
pub proof fn lemma_entries_view_index(s: Seq<FsEntry>)
    ensures
        entries_view(s).len() == s.len(),
        forall|i: int| 0 <= i < s.len() ==> #[trigger] entries_view(s)[i] == entry_view(s[i]),
    decreases s.len(),
{
    if s.len() > 0 {
        lemma_entries_view_index(s.drop_first());
    }
}

/// A configured root: either a bare path, whose title defaults to the
/// path's base name, or a titled path.
#[derive(Debug, Clone, PartialEq)]
pub enum CheatsheetData {
    Simple(String),
    Info(CheatsheetInfo),
}

/// A titled root directory.
#[derive(Debug, Clone, PartialEq)]
pub struct CheatsheetInfo {
    pub title: String,
    pub path: String,
}

/// Presentation hints, opaque to the core.
#[derive(Debug, Clone, PartialEq)]
pub struct Styling {
    pub menu: Option<Menu>,
}

/// Presentation hints for the menu.
#[derive(Debug, Clone, PartialEq)]
pub struct Menu {
    pub width: Option<String>,
}

/// The typed shape of the configuration: the ordered root list, an
/// optional external editor command, and optional presentation hints.
#[derive(Debug, Clone, PartialEq)]
pub struct CognitioConfig {
    pub editor: Option<String>,
    pub cheatsheets: Vec<CheatsheetData>,
    pub styling: Option<Styling>,
}

/// The path a configured root points at.
pub open spec fn root_path(c: CheatsheetData) -> Seq<char> {
    match c {
        CheatsheetData::Simple(p) => p@,
        CheatsheetData::Info(info) => info.path@,
    }
}

/// The display title of a configured root: the configured title, or the
/// base name of a bare path.
pub open spec fn root_title(c: CheatsheetData) -> Seq<char> {
    match c {
        CheatsheetData::Simple(p) => spec_base_name(p@),
        CheatsheetData::Info(info) => info.title@,
    }
}

} // verus!
