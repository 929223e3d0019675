//! The tree builder: turns directory listings and the configured root list
//! into a forest of directory nodes, filters hidden directories and
//! non-markdown files, sorts every level by name, and annotates each node
//! with its shorthand identifier.

use vstd::prelude::*;
use crate::model::CheatsheetData;
use crate::model::CognitioConfig;
use crate::model::Directory;
use crate::model::DirectoryFile;
use crate::model::DirModel;
use crate::model::EntryKind;
use crate::model::EntryModel;
use crate::model::FileModel;
use crate::model::FsEntry;
use crate::model::dir_view;
use crate::model::dirs_view;
use crate::model::entries_view;
use crate::model::entry_view;
use crate::model::file_view;
use crate::model::files_view;
use crate::model::lemma_dirs_view_index;
use crate::model::lemma_dirs_view_insert;
use crate::model::lemma_dirs_view_push;
use crate::model::lemma_entries_view_index;
use crate::model::lemma_files_view_insert;
use crate::model::lemma_files_view_push;
use crate::model::root_path;
use crate::model::root_title;
use crate::paths::base_name;
use crate::paths::make_short_id_from_two_first_letters_of_path_parts;
use crate::paths::spec_shorthand_id;
use crate::sorting::lemma_insert_by_name_at;
use crate::sorting::sort_by_name;
use crate::text::is_md_name;
use crate::text::lex_le;
use crate::text::name_is_markdown;
use crate::text::name_starts_with_dot;
use crate::text::starts_with_dot;
use crate::text::str_le;

verus! {

broadcast use vstd::seq_lib::group_filter_ensures;

/// Whether a listing entry is a markdown file.
pub open spec fn is_markdown_entry(e: EntryModel) -> bool {
    e.kind is File && is_md_name(e.name)
}

/// The file node a listing entry yields, not yet annotated.
pub open spec fn file_of_entry(e: EntryModel) -> FileModel {
    FileModel { name: e.name, path: e.path, shorthand: Seq::empty() }
}

/// The markdown-file test, as a value.
pub open spec fn md_entry_pred() -> spec_fn(EntryModel) -> bool {
    |e: EntryModel| is_markdown_entry(e)
}

/// The entry-to-file-node map, as a value.
pub open spec fn file_of_entry_fn() -> spec_fn(EntryModel) -> FileModel {
    |e: EntryModel| file_of_entry(e)
}

/// The file nodes of one directory listing: its markdown files, in listing
/// order, not yet annotated.
pub open spec fn spec_markdown_files(s: Seq<EntryModel>) -> Seq<FileModel> {
    s.filter(md_entry_pred()).map_values(file_of_entry_fn())
}

/// Filtering a sequence extended by one element keeps the element exactly
/// when it satisfies the predicate.
proof fn lemma_filter_push<A>(s: Seq<A>, x: A, pred: spec_fn(A) -> bool)
    ensures
        s.push(x).filter(pred) == if pred(x) {
            s.filter(pred).push(x)
        } else {
            s.filter(pred)
        },
{
    reveal(Seq::filter);
    assert(s.push(x).drop_last() =~= s);
    assert(s.push(x).last() == x);
}

/// Collects the markdown files of one directory listing, in listing order.
pub fn list_files_in_directory(entries: &Vec<FsEntry>) -> (files: Vec<DirectoryFile>)
    ensures
        files_view(files@) == spec_markdown_files(entries_view(entries@)),
{
    let ghost ev = entries_view(entries@);
    proof {
        lemma_entries_view_index(entries@);
    }
    let mut files: Vec<DirectoryFile> = Vec::new();
    let mut i: usize = 0;
    proof {
        assert(ev.take(0) =~= Seq::<EntryModel>::empty());
        assert(files_view(files@) =~= spec_markdown_files(ev.take(0)));
    }
    while i < entries.len()
        invariant
            i <= entries.len(),
            ev == entries_view(entries@),
            ev.len() == entries@.len(),
            forall|k: int| 0 <= k < entries@.len() ==> #[trigger] ev[k] == entry_view(entries@[k]),
            files_view(files@) == spec_markdown_files(ev.take(i as int)),
        decreases entries.len() - i,
    {
        let e = &entries[i];
        let ghost em = ev[i as int];
        let is_file = match e.kind {
            EntryKind::File => true,
            _ => false,
        };
        if is_file && name_is_markdown(e.name.as_str()) {
            let f = DirectoryFile {
                name: e.name.clone(),
                path: e.path.clone(),
                shorthand_id: String::new(),
            };
            proof {
                assert(file_view(f) =~~= file_of_entry(em));
            }
            let ghost old_files = files@;
            files.push(f);
            proof {
                assert(is_markdown_entry(em));
                assert(ev.take(i + 1) =~= ev.take(i as int).push(em));
                lemma_filter_push(ev.take(i as int), em, md_entry_pred());
                ev.take(i as int).filter(md_entry_pred()).lemma_push_map_commute(
                    file_of_entry_fn(),
                    em,
                );
                lemma_files_view_push(old_files, f);
                assert(files_view(files@) =~= spec_markdown_files(ev.take(i + 1)));
            }
        } else {
            proof {
                assert(!is_markdown_entry(em));
                assert(ev.take(i + 1) =~= ev.take(i as int).push(em));
                lemma_filter_push(ev.take(i as int), em, md_entry_pred());
                assert(files_view(files@) =~= spec_markdown_files(ev.take(i + 1)));
            }
        }
        i = i + 1;
    }
    proof {
        assert(ev.take(entries@.len() as int) =~= ev);
    }
    files
}

/// Whether a listing entry is a directory shown in the index: a directory
/// whose name does not start with a dot.
pub open spec fn is_visible_dir(e: EntryModel) -> bool {
    e.kind is Dir && !starts_with_dot(e.name)
}

/// The directory node a listing entry yields: its markdown files, no
/// children of its own, not yet annotated.
pub open spec fn dir_of_entry(e: EntryModel) -> DirModel {
    DirModel {
        name: e.name,
        path: e.path,
        files: spec_markdown_files(e.entries),
        subs: Seq::empty(),
        shorthand: Seq::empty(),
    }
}

/// The visible-directory test, as a value.
pub open spec fn visible_dir_pred() -> spec_fn(EntryModel) -> bool {
    |e: EntryModel| is_visible_dir(e)
}

/// The entry-to-directory-node map, as a value.
pub open spec fn dir_of_entry_fn() -> spec_fn(EntryModel) -> DirModel {
    |e: EntryModel| dir_of_entry(e)
}

/// The child nodes of one root listing: its visible directories, in
/// listing order, each holding its own markdown files.
pub open spec fn spec_subdirectories(s: Seq<EntryModel>) -> Seq<DirModel> {
    s.filter(visible_dir_pred()).map_values(dir_of_entry_fn())
}

/// Collects the visible subdirectories of one root listing, each with its
/// markdown files, in listing order.
pub fn list_subdirectories(entries: &Vec<FsEntry>) -> (dirs: Vec<Directory>)
    ensures
        dirs_view(dirs@) == spec_subdirectories(entries_view(entries@)),
{
    let ghost ev = entries_view(entries@);
    proof {
        lemma_entries_view_index(entries@);
    }
    let mut dirs: Vec<Directory> = Vec::new();
    let mut i: usize = 0;
    proof {
        lemma_dirs_view_index(dirs@);
        assert(ev.take(0) =~= Seq::<EntryModel>::empty());
        assert(dirs_view(dirs@) =~= spec_subdirectories(ev.take(0)));
    }
    while i < entries.len()
        invariant
            i <= entries.len(),
            ev == entries_view(entries@),
            ev.len() == entries@.len(),
            forall|k: int| 0 <= k < entries@.len() ==> #[trigger] ev[k] == entry_view(entries@[k]),
            dirs_view(dirs@) == spec_subdirectories(ev.take(i as int)),
        decreases entries.len() - i,
    {
        let e = &entries[i];
        let ghost em = ev[i as int];
        let is_dir = match e.kind {
            EntryKind::Dir => true,
            _ => false,
        };
        if is_dir && !name_starts_with_dot(e.name.as_str()) {
            let files = list_files_in_directory(&e.entries);
            let d = Directory {
                name: e.name.clone(),
                path: e.path.clone(),
                files,
                sub_directories: Vec::new(),
                shorthand_id: String::new(),
            };
            proof {
                assert(dirs_view(d.sub_directories@) =~= Seq::<DirModel>::empty());
                assert(dir_view(d) =~~= dir_of_entry(em));
            }
            let ghost old_dirs = dirs@;
            dirs.push(d);
            proof {
                assert(is_visible_dir(em));
                assert(ev.take(i + 1) =~= ev.take(i as int).push(em));
                lemma_filter_push(ev.take(i as int), em, visible_dir_pred());
                ev.take(i as int).filter(visible_dir_pred()).lemma_push_map_commute(
                    dir_of_entry_fn(),
                    em,
                );
                lemma_dirs_view_push(old_dirs, d);
                assert(dirs_view(dirs@) =~= spec_subdirectories(ev.take(i + 1)));
            }
        } else {
            proof {
                assert(!is_visible_dir(em));
                assert(ev.take(i + 1) =~= ev.take(i as int).push(em));
                lemma_filter_push(ev.take(i as int), em, visible_dir_pred());
            }
        }
        i = i + 1;
    }
    proof {
        assert(ev.take(entries@.len() as int) =~= ev);
    }
    dirs
}

/// The views of a list of root listings.
pub open spec fn listings_view(v: Seq<Vec<FsEntry>>) -> Seq<Seq<EntryModel>> {
    v.map_values(|l: Vec<FsEntry>| entries_view(l@))
}

/// The root node a configured root yields from its listing: its title, no
/// files of its own, its visible subdirectories as children.
pub open spec fn spec_root_dir(c: CheatsheetData, listing: Seq<EntryModel>) -> DirModel {
    DirModel {
        name: root_title(c),
        path: root_path(c),
        files: Seq::empty(),
        subs: spec_subdirectories(listing),
        shorthand: Seq::empty(),
    }
}

/// The forest the configured roots yield from their listings, in
/// configuration order.
pub open spec fn spec_build_forest(
    roots: Seq<CheatsheetData>,
    listings: Seq<Seq<EntryModel>>,
) -> Seq<DirModel> {
    Seq::new(roots.len(), |i: int| spec_root_dir(roots[i], listings[i]))
}

/// Builds one directory node per configured root, in configuration order;
/// `listings[i]` is the listing of the `i`-th root's path, empty where the
/// root cannot be read.
pub fn list_cheatsheet_directories(config: &CognitioConfig, listings: &Vec<Vec<FsEntry>>) -> (dirs:
    Vec<Directory>)
    requires
        listings@.len() == config.cheatsheets@.len(),
    ensures
        dirs_view(dirs@) == spec_build_forest(config.cheatsheets@, listings_view(listings@)),
{
    let ghost roots = config.cheatsheets@;
    let ghost lv = listings_view(listings@);
    let mut dirs: Vec<Directory> = Vec::new();
    let mut i: usize = 0;
    proof {
        assert(dirs_view(dirs@) =~= spec_build_forest(roots.take(0), lv));
    }
    while i < config.cheatsheets.len()
        invariant
            i <= config.cheatsheets.len(),
            roots == config.cheatsheets@,
            lv == listings_view(listings@),
            listings@.len() == roots.len(),
            dirs_view(dirs@) == spec_build_forest(roots.take(i as int), lv),
        decreases config.cheatsheets.len() - i,
    {
        let listing = &listings[i];
        let sub_directories = list_subdirectories(listing);
        let d = match &config.cheatsheets[i] {
            CheatsheetData::Simple(path) => {
                let name = base_name(path.as_str());
                Directory {
                    name,
                    path: path.clone(),
                    files: Vec::new(),
                    sub_directories,
                    shorthand_id: String::new(),
                }
            },
            CheatsheetData::Info(info) => {
                Directory {
                    name: info.title.clone(),
                    path: info.path.clone(),
                    files: Vec::new(),
                    sub_directories,
                    shorthand_id: String::new(),
                }
            },
        };
        proof {
            assert(lv[i as int] == entries_view(listings@[i as int]@));
            assert(files_view(d.files@) =~= Seq::<FileModel>::empty());
            assert(dir_view(d) =~~= spec_root_dir(roots[i as int], lv[i as int]));
        }
        let ghost old_dirs = dirs@;
        dirs.push(d);
        proof {
            lemma_dirs_view_push(old_dirs, d);
            assert(dirs_view(dirs@) =~= spec_build_forest(roots.take(i + 1), lv)) by {
                assert(forall|k: int|
                    0 <= k < i ==> #[trigger] roots.take(i + 1)[k] == roots.take(i as int)[k]);
            }
        }
        i = i + 1;
    }
    proof {
        assert(roots.take(roots.len() as int) =~= roots);
    }
    dirs
}

/// The name of a directory node, as a key.
pub open spec fn dir_name_key() -> spec_fn(DirModel) -> Seq<char> {
    |d: DirModel| d.name
}

/// The name of a file entry, as a key.
pub open spec fn file_name_key() -> spec_fn(FileModel) -> Seq<char> {
    |f: FileModel| f.name
}

/// One node, sorted throughout: its files ordered by name, each child
/// sorted throughout, the children ordered by name.
pub open spec fn sort_dir_deep(d: DirModel) -> DirModel
    decreases d,
{
    DirModel {
        files: sort_by_name(d.files, file_name_key()),
        subs: sort_by_name(sort_each_deep(d.subs), dir_name_key()),
        ..d
    }
}

/// Every node of the forest sorted throughout, the forest's own order
/// untouched.
pub open spec fn sort_each_deep(s: Seq<DirModel>) -> Seq<DirModel>
    decreases s,
{
    if s.len() == 0 {
        s
    } else {
        sort_each_deep(s.drop_last()).push(sort_dir_deep(s.last()))
    }
}

/// The forest, sorted throughout and ordered by name at the top level.
pub open spec fn spec_sort_forest(s: Seq<DirModel>) -> Seq<DirModel> {
    sort_by_name(sort_each_deep(s), dir_name_key())
}

/// Sorting each node deeply maps the forest pointwise.
pub proof fn lemma_sort_each_deep_index(s: Seq<DirModel>)
    ensures
        sort_each_deep(s).len() == s.len(),
        forall|i: int| 0 <= i < s.len() ==> #[trigger] sort_each_deep(s)[i] == sort_dir_deep(s[i]),
    decreases s.len(),
{
    if s.len() > 0 {
        lemma_sort_each_deep_index(s.drop_last());
    }
}

/// Copies a file entry, field by field.
fn copy_file(f: &DirectoryFile) -> (r: DirectoryFile)
    ensures
        file_view(r) == file_view(*f),
{
    let r = DirectoryFile {
        name: f.name.clone(),
        path: f.path.clone(),
        shorthand_id: f.shorthand_id.clone(),
    };
    proof {
        assert(file_view(r) =~~= file_view(*f));
    }
    r
}

/// Sorts a list of file entries by name.
fn sort_files_by_name(fs: &Vec<DirectoryFile>) -> (r: Vec<DirectoryFile>)
    ensures
        files_view(r@) == sort_by_name(files_view(fs@), file_name_key()),
{
    let ghost fsv = files_view(fs@);
    let mut out: Vec<DirectoryFile> = Vec::new();
    proof {
        assert(fsv.take(0) =~= Seq::<FileModel>::empty());
        assert(files_view(out@) =~= sort_by_name(fsv.take(0), file_name_key()));
    }
    let mut i: usize = 0;
    while i < fs.len()
        invariant
            i <= fs.len(),
            fsv == files_view(fs@),
            fsv.len() == fs@.len(),
            files_view(out@) == sort_by_name(fsv.take(i as int), file_name_key()),
        decreases fs.len() - i,
    {
        let f = copy_file(&fs[i]);
        let ghost fv = file_view(f);
        proof {
            assert(fv == fsv[i as int]);
        }
        let mut j: usize = out.len();
        loop
            invariant_except_break
                j <= out@.len(),
                fv == file_view(f),
                forall|k: int|
                    j <= k < out@.len() ==> !lex_le(file_view(#[trigger] out@[k]).name, fv.name),
            ensures
                j <= out@.len(),
                forall|k: int|
                    j <= k < out@.len() ==> !lex_le(file_view(#[trigger] out@[k]).name, fv.name),
                j > 0 ==> lex_le(file_view(out@[j - 1]).name, fv.name),
            decreases j,
        {
            if j == 0 {
                break;
            }
            if str_le(out[j - 1].name.as_str(), f.name.as_str()) {
                break;
            }
            j = j - 1;
        }
        let ghost old_out = out@;
        out.insert(j, f);
        proof {
            lemma_files_view_insert(old_out, j as int, f);
            lemma_insert_by_name_at(files_view(old_out), fv, file_name_key(), j as int);
            assert(fsv.take(i + 1).drop_last() =~= fsv.take(i as int));
            assert(fsv.take(i + 1).last() == fsv[i as int]);
            assert(files_view(out@) == sort_by_name(fsv.take(i + 1), file_name_key()));
        }
        i = i + 1;
    }
    proof {
        assert(fsv.take(fsv.len() as int) =~= fsv);
    }
    out
}

/// Sorts a forest by name at its top level, consuming it.
fn sort_dirs_vec(v: Vec<Directory>) -> (r: Vec<Directory>)
    ensures
        dirs_view(r@) == sort_by_name(dirs_view(v@), dir_name_key()),
{
    let ghost vv = v@;
    let ghost dv = dirs_view(v@);
    proof {
        lemma_dirs_view_index(v@);
    }
    let mut rem = v;
    let mut out: Vec<Directory> = Vec::new();
    let ghost mut i: int = 0;
    proof {
        assert(dv.take(0) =~= Seq::<DirModel>::empty());
        assert(dirs_view(out@) =~= sort_by_name(dv.take(0), dir_name_key()));
        assert(rem@ =~= vv.skip(0));
    }
    while rem.len() > 0
        invariant
            0 <= i,
            i + rem@.len() == vv.len(),
            rem@ == vv.skip(i),
            dv == dirs_view(vv),
            dv.len() == vv.len(),
            forall|k: int| 0 <= k < vv.len() ==> #[trigger] dv[k] == dir_view(vv[k]),
            dirs_view(out@) == sort_by_name(dv.take(i), dir_name_key()),
        decreases rem@.len(),
    {
        let ghost old_rem = rem@;
        let d = rem.remove(0);
        let ghost dm = dir_view(d);
        proof {
            assert(d == vv[i]);
            assert(dm == dv[i]);
            assert(rem@ =~= vv.skip(i + 1));
        }
        let mut j: usize = out.len();
        loop
            invariant_except_break
                j <= out@.len(),
                dm == dir_view(d),
                forall|k: int|
                    j <= k < out@.len() ==> !lex_le(dir_view(#[trigger] out@[k]).name, dm.name),
            ensures
                j <= out@.len(),
                forall|k: int|
                    j <= k < out@.len() ==> !lex_le(dir_view(#[trigger] out@[k]).name, dm.name),
                j > 0 ==> lex_le(dir_view(out@[j - 1]).name, dm.name),
            decreases j,
        {
            if j == 0 {
                break;
            }
            if str_le(out[j - 1].name.as_str(), d.name.as_str()) {
                break;
            }
            j = j - 1;
        }
        let ghost old_out = out@;
        out.insert(j, d);
        proof {
            lemma_dirs_view_insert(old_out, j as int, d);
            lemma_dirs_view_index(old_out);
            lemma_insert_by_name_at(dirs_view(old_out), dm, dir_name_key(), j as int);
            assert(dv.take(i + 1).drop_last() =~= dv.take(i));
            assert(dv.take(i + 1).last() == dv[i]);
            assert(dirs_view(out@) == sort_by_name(dv.take(i + 1), dir_name_key()));
            i = i + 1;
        }
    }
    proof {
        assert(dv.take(dv.len() as int) =~= dv);
    }
    out
}

/// Sorts one node throughout: its files by name, its children recursively
/// and then by name.
fn sort_one(d: &Directory) -> (r: Directory)
    ensures
        dir_view(r) == sort_dir_deep(dir_view(*d)),
    decreases *d,
{
    let files = sort_files_by_name(&d.files);
    let ghost subsv = dirs_view(d.sub_directories@);
    proof {
        lemma_dirs_view_index(d.sub_directories@);
    }
    let mut subs: Vec<Directory> = Vec::new();
    let mut i: usize = 0;
    proof {
        assert(subsv.take(0) =~= Seq::<DirModel>::empty());
        assert(dirs_view(subs@) =~= sort_each_deep(subsv.take(0)));
    }
    while i < d.sub_directories.len()
        invariant
            i <= d.sub_directories.len(),
            subsv == dirs_view(d.sub_directories@),
            subsv.len() == d.sub_directories@.len(),
            forall|k: int|
                0 <= k < subsv.len() ==> #[trigger] subsv[k] == dir_view(d.sub_directories@[k]),
            dirs_view(subs@) == sort_each_deep(subsv.take(i as int)),
        decreases d.sub_directories.len() - i,
    {
        proof {
            assert(decreases_to!(*d => d.sub_directories));
            assert(decreases_to!(d.sub_directories => d.sub_directories@));
            assert(decreases_to!(d.sub_directories@ => d.sub_directories@[i as int]));
        }
        let sd = sort_one(&d.sub_directories[i]);
        let ghost old_subs = subs@;
        subs.push(sd);
        proof {
            lemma_dirs_view_push(old_subs, sd);
            assert(subsv.take(i + 1).drop_last() =~= subsv.take(i as int));
            assert(subsv.take(i + 1).last() == subsv[i as int]);
            assert(dirs_view(subs@) == sort_each_deep(subsv.take(i + 1)));
        }
        i = i + 1;
    }
    proof {
        assert(subsv.take(subsv.len() as int) =~= subsv);
    }
    let sorted_subs = sort_dirs_vec(subs);
    let r = Directory {
        name: d.name.clone(),
        path: d.path.clone(),
        files,
        sub_directories: sorted_subs,
        shorthand_id: d.shorthand_id.clone(),
    };
    proof {
        assert(dir_view(r) =~~= sort_dir_deep(dir_view(*d)));
    }
    r
}

/// Sorts every node of the forest throughout, keeping the forest's own
/// order.
fn sort_each_node(dirs: &Vec<Directory>) -> (r: Vec<Directory>)
    ensures
        dirs_view(r@) == sort_each_deep(dirs_view(dirs@)),
{
    let ghost dv = dirs_view(dirs@);
    proof {
        lemma_dirs_view_index(dirs@);
    }
    let mut each: Vec<Directory> = Vec::new();
    let mut i: usize = 0;
    proof {
        assert(dv.take(0) =~= Seq::<DirModel>::empty());
        assert(dirs_view(each@) =~= sort_each_deep(dv.take(0)));
    }
    while i < dirs.len()
        invariant
            i <= dirs.len(),
            dv == dirs_view(dirs@),
            dv.len() == dirs@.len(),
            forall|k: int| 0 <= k < dirs@.len() ==> #[trigger] dv[k] == dir_view(dirs@[k]),
            dirs_view(each@) == sort_each_deep(dv.take(i as int)),
        decreases dirs.len() - i,
    {
        let sd = sort_one(&dirs[i]);
        let ghost old_each = each@;
        each.push(sd);
        proof {
            lemma_dirs_view_push(old_each, sd);
            assert(dv.take(i + 1).drop_last() =~= dv.take(i as int));
            assert(dv.take(i + 1).last() == dv[i as int]);
            assert(dirs_view(each@) == sort_each_deep(dv.take(i + 1)));
        }
        i = i + 1;
    }
    proof {
        assert(dv.take(dv.len() as int) =~= dv);
    }
    each
}

/// Sorts a forest: for every node, files ordered by name and children
/// ordered by name, recursively; the top-level list itself is sorted by
/// name as well.
pub fn sort_directories_and_files(dirs: &Vec<Directory>) -> (sorted: Vec<Directory>)
    ensures
        dirs_view(sorted@) == spec_sort_forest(dirs_view(dirs@)),
{
    let each = sort_each_node(dirs);
    sort_dirs_vec(each)
}

/// A file entry annotated with its shorthand identifier, derived from the
/// last three components of its path.
pub open spec fn enrich_file(f: FileModel) -> FileModel {
    FileModel { shorthand: spec_shorthand_id(f.path, 3), ..f }
}

/// The file annotation, as a value.
pub open spec fn enrich_file_fn() -> spec_fn(FileModel) -> FileModel {
    |f: FileModel| enrich_file(f)
}

/// A node annotated throughout: its own shorthand identifier derives from
/// the last two components of its path, each file's from the last three of
/// its own.
pub open spec fn enrich_dir(d: DirModel) -> DirModel
    decreases d,
{
    DirModel {
        shorthand: spec_shorthand_id(d.path, 2),
        files: d.files.map_values(enrich_file_fn()),
        subs: enrich_forest(d.subs),
        ..d
    }
}

/// Every node of the forest annotated throughout.
pub open spec fn enrich_forest(s: Seq<DirModel>) -> Seq<DirModel>
    decreases s,
{
    if s.len() == 0 {
        s
    } else {
        enrich_forest(s.drop_last()).push(enrich_dir(s.last()))
    }
}

/// Annotating a forest maps it pointwise.
pub proof fn lemma_enrich_forest_index(s: Seq<DirModel>)
    ensures
        enrich_forest(s).len() == s.len(),
        forall|i: int| 0 <= i < s.len() ==> #[trigger] enrich_forest(s)[i] == enrich_dir(s[i]),
    decreases s.len(),
{
    if s.len() > 0 {
        lemma_enrich_forest_index(s.drop_last());
    }
}

/// Annotates one node throughout with shorthand identifiers.
fn enrich_one(d: &Directory) -> (r: Directory)
    ensures
        dir_view(r) == enrich_dir(dir_view(*d)),
    decreases *d,
{
    let mut files: Vec<DirectoryFile> = Vec::new();
    let mut i: usize = 0;
    while i < d.files.len()
        invariant
            i <= d.files.len(),
            files@.len() == i,
            forall|k: int|
                0 <= k < i ==> #[trigger] file_view(files@[k]) == enrich_file(
                    file_view(d.files@[k]),
                ),
        decreases d.files.len() - i,
    {
        let f = &d.files[i];
        let nf = DirectoryFile {
            name: f.name.clone(),
            path: f.path.clone(),
            shorthand_id: make_short_id_from_two_first_letters_of_path_parts(f.path.as_str(), 3),
        };
        proof {
            assert(file_view(nf) =~~= enrich_file(file_view(d.files@[i as int])));
        }
        files.push(nf);
        i = i + 1;
    }
    let mut subs: Vec<Directory> = Vec::new();
    let mut k: usize = 0;
    while k < d.sub_directories.len()
        invariant
            k <= d.sub_directories.len(),
            subs@.len() == k,
            forall|m: int|
                0 <= m < k ==> #[trigger] dir_view(subs@[m]) == enrich_dir(
                    dir_view(d.sub_directories@[m]),
                ),
        decreases d.sub_directories.len() - k,
    {
        proof {
            assert(decreases_to!(*d => d.sub_directories));
            assert(decreases_to!(d.sub_directories => d.sub_directories@));
            assert(decreases_to!(d.sub_directories@ => d.sub_directories@[k as int]));
        }
        let sd = enrich_one(&d.sub_directories[k]);
        subs.push(sd);
        k = k + 1;
    }
    let r = Directory {
        name: d.name.clone(),
        path: d.path.clone(),
        files,
        sub_directories: subs,
        shorthand_id: make_short_id_from_two_first_letters_of_path_parts(d.path.as_str(), 2),
    };
    proof {
        lemma_dirs_view_index(r.sub_directories@);
        lemma_enrich_forest_index(dir_view(*d).subs);
        lemma_dirs_view_index(d.sub_directories@);
        assert(dirs_view(r.sub_directories@) =~= enrich_forest(dir_view(*d).subs));
        assert(files_view(r.files@) =~= dir_view(*d).files.map_values(enrich_file_fn()));
        assert(dir_view(r) =~~= enrich_dir(dir_view(*d)));
    }
    r
}

/// Annotates every node and file of the forest with its shorthand
/// identifier: depth two for a directory, depth three for a file.
pub fn enrich_directories_with_shorthand_ids(dirs: &mut Vec<Directory>)
    ensures
        dirs_view(final(dirs)@) == enrich_forest(dirs_view(old(dirs)@)),
{
    let ghost dv = dirs_view(old(dirs)@);
    proof {
        lemma_dirs_view_index(old(dirs)@);
    }
    let mut out: Vec<Directory> = Vec::new();
    let mut i: usize = 0;
    while i < dirs.len()
        invariant
            i <= dirs.len(),
            dirs@ == old(dirs)@,
            dv == dirs_view(dirs@),
            dv.len() == dirs@.len(),
            forall|k: int| 0 <= k < dirs@.len() ==> #[trigger] dv[k] == dir_view(dirs@[k]),
            out@.len() == i,
            forall|k: int| 0 <= k < i ==> #[trigger] dir_view(out@[k]) == enrich_dir(dv[k]),
        decreases dirs.len() - i,
    {
        let e = enrich_one(&dirs[i]);
        out.push(e);
        i = i + 1;
    }
    proof {
        lemma_dirs_view_index(out@);
        lemma_enrich_forest_index(dv);
        assert(dirs_view(out@) =~= enrich_forest(dv));
    }
    *dirs = out;
}

/// The fully built index: the forest the configured roots yield, in
/// configuration order, every node sorted throughout and annotated
/// throughout.
pub open spec fn spec_list_tree(
    roots: Seq<CheatsheetData>,
    listings: Seq<Seq<EntryModel>>,
) -> Seq<DirModel> {
    enrich_forest(sort_each_deep(spec_build_forest(roots, listings)))
}

/// Builds the whole index: one node per configured root from its listing,
/// roots in configuration order, files and children of every node sorted
/// by name, every node and file annotated with its shorthand identifier.
pub fn list_tree_down_to_snippet_names(config: &CognitioConfig, listings: &Vec<Vec<FsEntry>>) -> (r:
    Vec<Directory>)
    requires
        listings@.len() == config.cheatsheets@.len(),
    ensures
        dirs_view(r@) == spec_list_tree(config.cheatsheets@, listings_view(listings@)),
{
    let dirs = list_cheatsheet_directories(config, listings);
    let mut sorted = sort_each_node(&dirs);
    enrich_directories_with_shorthand_ids(&mut sorted);
    sorted
}

} // verus!
