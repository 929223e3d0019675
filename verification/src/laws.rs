//! What the library states of the built index as a whole: it never shows a
//! hidden directory or a non-markdown file, every node is ordered by name,
//! building is a function of the configuration and the listings alone, and
//! a missing root degrades to an empty node without touching the rest.

use vstd::prelude::*;
use crate::model::CheatsheetData;
use crate::model::DirModel;
use crate::model::EntryModel;
use crate::model::root_path;
use crate::model::root_title;
use crate::sorting::lemma_sort_by_name_all;
use crate::sorting::lemma_sort_by_name_of_sorted;
use crate::sorting::lemma_sort_by_name_sorted;
use crate::sorting::sort_by_name;
use crate::sorting::sorted_by_name;
use crate::text::is_md_name;
use crate::text::starts_with_dot;
use crate::tree::dir_name_key;
use crate::tree::dir_of_entry_fn;
use crate::tree::enrich_dir;
use crate::tree::enrich_file_fn;
use crate::tree::enrich_forest;
use crate::tree::file_name_key;
use crate::tree::file_of_entry_fn;
use crate::tree::is_visible_dir;
use crate::tree::lemma_enrich_forest_index;
use crate::tree::lemma_sort_each_deep_index;
use crate::tree::md_entry_pred;
use crate::tree::sort_dir_deep;
use crate::tree::sort_each_deep;
use crate::tree::spec_build_forest;
use crate::tree::spec_list_tree;
use crate::tree::spec_markdown_files;
use crate::tree::spec_root_dir;
use crate::tree::spec_sort_forest;
use crate::tree::spec_subdirectories;
use crate::tree::visible_dir_pred;

verus! {

broadcast use vstd::seq_lib::group_filter_ensures;

/// A leaf node as the builder shapes it: not hidden, only markdown-named
/// files, no children of its own.
pub open spec fn leaf_ok(d: DirModel) -> bool {
    &&& !starts_with_dot(d.name)
    &&& d.subs.len() == 0
    &&& forall|k: int| 0 <= k < d.files.len() ==> is_md_name(#[trigger] d.files[k].name)
}

/// A root node as the builder shapes it: no files of its own, every child
/// a well-shaped leaf.
pub open spec fn root_ok(d: DirModel) -> bool {
    &&& d.files.len() == 0
    &&& forall|j: int| 0 <= j < d.subs.len() ==> leaf_ok(#[trigger] d.subs[j])
}

/// Every file node a listing yields carries a markdown name.
proof fn lemma_markdown_files_names(s: Seq<EntryModel>)
    ensures
        forall|k: int|
            0 <= k < spec_markdown_files(s).len() ==> is_md_name(
                #[trigger] spec_markdown_files(s)[k].name,
            ),
{
    let filtered = s.filter(md_entry_pred());
    assert forall|k: int| 0 <= k < spec_markdown_files(s).len() implies is_md_name(
        #[trigger] spec_markdown_files(s)[k].name,
    ) by {
        assert(md_entry_pred()(filtered[k]));
        assert(spec_markdown_files(s)[k] == file_of_entry_fn()(filtered[k]));
    }
}

/// Every child node a listing yields is a well-shaped leaf.
proof fn lemma_subdirectories_leaf_ok(s: Seq<EntryModel>)
    ensures
        forall|j: int|
            0 <= j < spec_subdirectories(s).len() ==> leaf_ok(
                #[trigger] spec_subdirectories(s)[j],
            ),
{
    let filtered = s.filter(visible_dir_pred());
    assert forall|j: int| 0 <= j < spec_subdirectories(s).len() implies leaf_ok(
        #[trigger] spec_subdirectories(s)[j],
    ) by {
        assert(visible_dir_pred()(filtered[j]));
        assert(is_visible_dir(filtered[j]));
        assert(spec_subdirectories(s)[j] == dir_of_entry_fn()(filtered[j]));
        lemma_markdown_files_names(filtered[j].entries);
    }
}

/// Every root node the builder yields is well shaped.
proof fn lemma_build_forest_root_ok(roots: Seq<CheatsheetData>, listings: Seq<Seq<EntryModel>>)
    ensures
        forall|i: int|
            0 <= i < spec_build_forest(roots, listings).len() ==> root_ok(
                #[trigger] spec_build_forest(roots, listings)[i],
            ),
{
    assert forall|i: int| 0 <= i < spec_build_forest(roots, listings).len() implies root_ok(
        #[trigger] spec_build_forest(roots, listings)[i],
    ) by {
        assert(spec_build_forest(roots, listings)[i] == spec_root_dir(roots[i], listings[i]));
        lemma_subdirectories_leaf_ok(listings[i]);
    }
}

/// Sorting a node throughout keeps a well-shaped leaf well shaped.
proof fn lemma_sort_keeps_leaf_ok(d: DirModel)
    requires
        leaf_ok(d),
    ensures
        leaf_ok(sort_dir_deep(d)),
{
    lemma_sort_by_name_all(
        d.files,
        file_name_key(),
        |f: crate::model::FileModel| is_md_name(f.name),
    );
    assert(sort_each_deep(d.subs) =~= d.subs);
    lemma_sort_by_name_all(d.subs, dir_name_key(), |x: DirModel| true);
}

/// Sorting a node throughout keeps a well-shaped root well shaped.
proof fn lemma_sort_keeps_root_ok(d: DirModel)
    requires
        root_ok(d),
    ensures
        root_ok(sort_dir_deep(d)),
{
    assert(d.files =~= Seq::<crate::model::FileModel>::empty());
    lemma_sort_by_name_all(d.files, file_name_key(), |f: crate::model::FileModel| true);
    lemma_sort_each_deep_index(d.subs);
    assert forall|j: int| 0 <= j < sort_each_deep(d.subs).len() implies leaf_ok(
        #[trigger] sort_each_deep(d.subs)[j],
    ) by {
        lemma_sort_keeps_leaf_ok(d.subs[j]);
    }
    lemma_sort_by_name_all(sort_each_deep(d.subs), dir_name_key(), |x: DirModel| leaf_ok(x));
}

/// Annotating a node keeps a well-shaped leaf well shaped.
proof fn lemma_enrich_keeps_leaf_ok(d: DirModel)
    requires
        leaf_ok(d),
    ensures
        leaf_ok(enrich_dir(d)),
{
    assert(enrich_forest(d.subs) =~= d.subs);
    assert forall|k: int| 0 <= k < enrich_dir(d).files.len() implies is_md_name(
        #[trigger] enrich_dir(d).files[k].name,
    ) by {
        assert(enrich_dir(d).files[k] == enrich_file_fn()(d.files[k]));
    }
}

/// Annotating a node keeps a well-shaped root well shaped.
proof fn lemma_enrich_keeps_root_ok(d: DirModel)
    requires
        root_ok(d),
    ensures
        root_ok(enrich_dir(d)),
{
    lemma_enrich_forest_index(d.subs);
    assert forall|j: int| 0 <= j < enrich_dir(d).subs.len() implies leaf_ok(
        #[trigger] enrich_dir(d).subs[j],
    ) by {
        assert(enrich_dir(d).subs[j] == enrich_dir(d.subs[j]));
        lemma_enrich_keeps_leaf_ok(d.subs[j]);
    }
}

/// The built index never shows what the builder filters out: no root holds
/// files of its own, no child's name starts with a dot, every file of a
/// child carries a markdown name, and no child reaches deeper.
pub proof fn lemma_list_tree_well_filtered(
    roots: Seq<CheatsheetData>,
    listings: Seq<Seq<EntryModel>>,
)
    ensures
        forall|i: int|
            0 <= i < spec_list_tree(roots, listings).len() ==> root_ok(
                #[trigger] spec_list_tree(roots, listings)[i],
            ),
{
    let built = spec_build_forest(roots, listings);
    lemma_build_forest_root_ok(roots, listings);
    lemma_sort_each_deep_index(built);
    lemma_enrich_forest_index(sort_each_deep(built));
    assert forall|i: int| 0 <= i < spec_list_tree(roots, listings).len() implies root_ok(
        #[trigger] spec_list_tree(roots, listings)[i],
    ) by {
        assert(spec_list_tree(roots, listings)[i] == enrich_dir(sort_dir_deep(built[i])));
        lemma_sort_keeps_root_ok(built[i]);
        lemma_enrich_keeps_root_ok(sort_dir_deep(built[i]));
    }
}

/// A node ordered throughout: its files by name, its children by name,
/// and each child ordered throughout in turn.
pub open spec fn node_sorted(d: DirModel) -> bool
    decreases d,
{
    &&& sorted_by_name(d.files, file_name_key())
    &&& sorted_by_name(d.subs, dir_name_key())
    &&& nodes_sorted(d.subs)
}

/// Every node of a forest ordered throughout.
pub open spec fn nodes_sorted(s: Seq<DirModel>) -> bool
    decreases s,
{
    if s.len() == 0 {
        true
    } else {
        nodes_sorted(s.drop_last()) && node_sorted(s.last())
    }
}

/// A forest is ordered throughout exactly when each of its nodes is.
pub proof fn lemma_nodes_sorted_index(s: Seq<DirModel>)
    ensures
        nodes_sorted(s) <==> (forall|i: int| 0 <= i < s.len() ==> node_sorted(#[trigger] s[i])),
    decreases s.len(),
{
    if s.len() > 0 {
        lemma_nodes_sorted_index(s.drop_last());
        assert(forall|i: int| 0 <= i < s.len() - 1 ==> #[trigger] s.drop_last()[i] == s[i]);
        if nodes_sorted(s) {
            assert forall|i: int| 0 <= i < s.len() implies node_sorted(#[trigger] s[i]) by {
                if i < s.len() - 1 {
                    assert(node_sorted(s.drop_last()[i]));
                } else {
                    assert(node_sorted(s.last()));
                }
            }
        }
        if forall|i: int| 0 <= i < s.len() ==> node_sorted(#[trigger] s[i]) {
            assert(node_sorted(s.last()));
            assert(forall|i: int|
                0 <= i < s.drop_last().len() ==> node_sorted(#[trigger] s.drop_last()[i]));
            assert(nodes_sorted(s.drop_last()));
        }
    }
}

/// Sorting a node throughout orders it throughout.
proof fn lemma_sort_dir_deep_sorted(d: DirModel)
    ensures
        node_sorted(sort_dir_deep(d)),
    decreases d,
{
    lemma_sort_by_name_sorted(d.files, file_name_key());
    lemma_sort_by_name_sorted(sort_each_deep(d.subs), dir_name_key());
    lemma_sort_each_deep_index(d.subs);
    assert forall|k: int| 0 <= k < sort_each_deep(d.subs).len() implies node_sorted(
        #[trigger] sort_each_deep(d.subs)[k],
    ) by {
        assert(decreases_to!(d => d.subs));
        assert(decreases_to!(d.subs => d.subs[k]));
        lemma_sort_dir_deep_sorted(d.subs[k]);
    }
    lemma_sort_by_name_all(sort_each_deep(d.subs), dir_name_key(), |x: DirModel| node_sorted(x));
    lemma_nodes_sorted_index(sort_dir_deep(d).subs);
}

/// Annotating keeps every name, so it keeps every ordering.
proof fn lemma_enrich_keeps_node_sorted(d: DirModel)
    requires
        node_sorted(d),
    ensures
        node_sorted(enrich_dir(d)),
    decreases d,
{
    let e = enrich_dir(d);
    assert forall|i: int, j: int| 0 <= i < j < e.files.len() implies crate::text::lex_le(
        file_name_key()(#[trigger] e.files[i]),
        file_name_key()(#[trigger] e.files[j]),
    ) by {
        assert(e.files[i] == enrich_file_fn()(d.files[i]));
        assert(e.files[j] == enrich_file_fn()(d.files[j]));
    }
    lemma_enrich_forest_index(d.subs);
    assert forall|i: int, j: int| 0 <= i < j < e.subs.len() implies crate::text::lex_le(
        dir_name_key()(#[trigger] e.subs[i]),
        dir_name_key()(#[trigger] e.subs[j]),
    ) by {
        assert(e.subs[i] == enrich_dir(d.subs[i]));
        assert(e.subs[j] == enrich_dir(d.subs[j]));
    }
    lemma_nodes_sorted_index(d.subs);
    assert forall|k: int| 0 <= k < e.subs.len() implies node_sorted(#[trigger] e.subs[k]) by {
        assert(e.subs[k] == enrich_dir(d.subs[k]));
        assert(decreases_to!(d => d.subs));
        assert(decreases_to!(d.subs => d.subs[k]));
        lemma_enrich_keeps_node_sorted(d.subs[k]);
    }
    lemma_nodes_sorted_index(e.subs);
}

/// Every node of the built index is ordered: its children by name, its
/// files by name, at every level.
pub proof fn lemma_list_tree_sorted(roots: Seq<CheatsheetData>, listings: Seq<Seq<EntryModel>>)
    ensures
        nodes_sorted(spec_list_tree(roots, listings)),
{
    let built = spec_build_forest(roots, listings);
    lemma_sort_each_deep_index(built);
    lemma_enrich_forest_index(sort_each_deep(built));
    assert forall|i: int| 0 <= i < spec_list_tree(roots, listings).len() implies node_sorted(
        #[trigger] spec_list_tree(roots, listings)[i],
    ) by {
        assert(spec_list_tree(roots, listings)[i] == enrich_dir(sort_dir_deep(built[i])));
        lemma_sort_dir_deep_sorted(built[i]);
        lemma_enrich_keeps_node_sorted(sort_dir_deep(built[i]));
    }
    lemma_nodes_sorted_index(spec_list_tree(roots, listings));
}

/// Building the index is a function of the configured roots and the
/// listings alone: two builds over the same values yield structurally
/// identical forests. The executable builder's contract pins its result to
/// this function, so repeated calls on an unchanged snapshot agree.
pub proof fn lemma_list_tree_deterministic(
    roots1: Seq<CheatsheetData>,
    listings1: Seq<Seq<EntryModel>>,
    roots2: Seq<CheatsheetData>,
    listings2: Seq<Seq<EntryModel>>,
)
    requires
        roots1 == roots2,
        listings1 == listings2,
    ensures
        spec_list_tree(roots1, listings1) == spec_list_tree(roots2, listings2),
{
}

/// A root whose listing is empty — a configured path that does not exist
/// or cannot be read — yields a node with its title and path but no
/// children, and every other root's node is untouched by it.
pub proof fn lemma_missing_root(
    roots: Seq<CheatsheetData>,
    listings: Seq<Seq<EntryModel>>,
    i: int,
)
    requires
        0 <= i < roots.len(),
        listings.len() == roots.len(),
        listings[i].len() == 0,
    ensures
        spec_list_tree(roots, listings).len() == roots.len(),
        spec_list_tree(roots, listings)[i].name == root_title(roots[i]),
        spec_list_tree(roots, listings)[i].path == root_path(roots[i]),
        spec_list_tree(roots, listings)[i].subs.len() == 0,
        spec_list_tree(roots, listings)[i].files.len() == 0,
        forall|j: int|
            0 <= j < roots.len() && j != i ==> #[trigger] spec_list_tree(roots, listings)[j]
                == enrich_dir(sort_dir_deep(spec_root_dir(roots[j], listings[j]))),
{
    let built = spec_build_forest(roots, listings);
    lemma_sort_each_deep_index(built);
    lemma_enrich_forest_index(sort_each_deep(built));
    reveal(Seq::filter);
    assert(listings[i] =~= Seq::<EntryModel>::empty());
    assert(spec_subdirectories(listings[i]).len() == 0);
    assert(built[i] == spec_root_dir(roots[i], listings[i]));
    assert(sort_each_deep(built[i].subs) =~= built[i].subs);
    assert(sort_by_name(sort_dir_deep(built[i]).files, file_name_key()).len() == 0) by {
        lemma_sort_by_name_all(
            built[i].files,
            file_name_key(),
            |f: crate::model::FileModel| true,
        );
    }
    assert(spec_list_tree(roots, listings)[i] == enrich_dir(sort_dir_deep(built[i])));
    lemma_sort_by_name_all(built[i].subs, dir_name_key(), |x: DirModel| true);
    lemma_enrich_forest_index(sort_dir_deep(built[i]).subs);
}

/// Sorting a node that is already ordered throughout changes nothing.
proof fn lemma_sort_dir_deep_of_sorted(d: DirModel)
    requires
        node_sorted(d),
    ensures
        sort_dir_deep(d) == d,
    decreases d,
{
    lemma_sort_by_name_of_sorted(d.files, file_name_key());
    lemma_nodes_sorted_index(d.subs);
    lemma_sort_each_deep_index(d.subs);
    assert forall|k: int| 0 <= k < d.subs.len() implies #[trigger] sort_each_deep(d.subs)[k]
        == d.subs[k] by {
        assert(decreases_to!(d => d.subs));
        assert(decreases_to!(d.subs => d.subs[k]));
        lemma_sort_dir_deep_of_sorted(d.subs[k]);
    }
    assert(sort_each_deep(d.subs) =~= d.subs);
    lemma_sort_by_name_of_sorted(d.subs, dir_name_key());
    assert(sort_dir_deep(d) =~~= d);
}

/// A sorted forest is ordered by name at the top level, and every node of
/// it is ordered throughout.
pub proof fn lemma_sort_forest_sorted(s: Seq<DirModel>)
    ensures
        sorted_by_name(spec_sort_forest(s), dir_name_key()),
        nodes_sorted(spec_sort_forest(s)),
{
    lemma_sort_by_name_sorted(sort_each_deep(s), dir_name_key());
    lemma_sort_each_deep_index(s);
    assert forall|k: int| 0 <= k < sort_each_deep(s).len() implies node_sorted(
        #[trigger] sort_each_deep(s)[k],
    ) by {
        lemma_sort_dir_deep_sorted(s[k]);
    }
    lemma_sort_by_name_all(sort_each_deep(s), dir_name_key(), |x: DirModel| node_sorted(x));
    lemma_nodes_sorted_index(spec_sort_forest(s));
}

/// Sorting is idempotent: sorting a forest a second time changes nothing,
/// so rebuilding from an unchanged snapshot reproduces the same ordering.
pub proof fn lemma_sort_forest_idempotent(s: Seq<DirModel>)
    ensures
        spec_sort_forest(spec_sort_forest(s)) == spec_sort_forest(s),
{
    let once = spec_sort_forest(s);
    lemma_sort_forest_sorted(s);
    lemma_nodes_sorted_index(once);
    lemma_sort_each_deep_index(once);
    assert forall|k: int| 0 <= k < once.len() implies #[trigger] sort_each_deep(once)[k]
        == once[k] by {
        lemma_sort_dir_deep_of_sorted(once[k]);
    }
    assert(sort_each_deep(once) =~= once);
    lemma_sort_by_name_of_sorted(once, dir_name_key());
}

} // verus!
