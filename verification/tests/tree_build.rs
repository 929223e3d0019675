use cognitio::model::CheatsheetData;
use cognitio::model::CheatsheetInfo;
use cognitio::model::CognitioConfig;
use cognitio::model::Directory;
use cognitio::model::DirectoryFile;
use cognitio::model::EntryKind;
use cognitio::model::FsEntry;
use cognitio::tree::enrich_directories_with_shorthand_ids;
use cognitio::tree::list_cheatsheet_directories;
use cognitio::tree::list_files_in_directory;
use cognitio::tree::list_subdirectories;
use cognitio::tree::list_tree_down_to_snippet_names;
use cognitio::tree::sort_directories_and_files;

fn file_entry(name: &str, path: &str) -> FsEntry {
    FsEntry {
        name: name.to_string(),
        path: path.to_string(),
        kind: EntryKind::File,
        entries: Vec::new(),
    }
}

fn dir_entry(name: &str, path: &str, entries: Vec<FsEntry>) -> FsEntry {
    FsEntry {
        name: name.to_string(),
        path: path.to_string(),
        kind: EntryKind::Dir,
        entries,
    }
}

fn sample_config() -> CognitioConfig {
    CognitioConfig {
        editor: None,
        cheatsheets: vec![CheatsheetData::Simple("/cs".to_string())],
        styling: None,
    }
}

fn sample_listing() -> Vec<FsEntry> {
    vec![
        dir_entry(
            "Zsh",
            "/cs/Zsh",
            vec![
                file_entry("b.md", "/cs/Zsh/b.md"),
                file_entry("a.md", "/cs/Zsh/a.md"),
                file_entry("skip.txt", "/cs/Zsh/skip.txt"),
            ],
        ),
        dir_entry(".git", "/cs/.git", vec![file_entry("c.md", "/cs/.git/c.md")]),
        dir_entry("Bash", "/cs/Bash", vec![file_entry("vars.md", "/cs/Bash/vars.md")]),
        file_entry("loose.md", "/cs/loose.md"),
    ]
}

#[test]
fn files_keep_only_markdown() {
    let entries = vec![
        file_entry("b.md", "/cs/X/b.md"),
        file_entry("n.txt", "/cs/X/n.txt"),
        dir_entry("sub", "/cs/X/sub", Vec::new()),
        file_entry("a.md", "/cs/X/a.md"),
    ];
    let files = list_files_in_directory(&entries);
    let names: Vec<&str> = files.iter().map(|f| f.name.as_str()).collect();
    assert_eq!(names, vec!["b.md", "a.md"]);
}

#[test]
fn subdirectories_skip_hidden_names() {
    let dirs = list_subdirectories(&sample_listing());
    let names: Vec<&str> = dirs.iter().map(|d| d.name.as_str()).collect();
    assert_eq!(names, vec!["Zsh", "Bash"]);
    for d in &dirs {
        assert!(!d.name.starts_with('.'));
        assert!(d.sub_directories.is_empty());
        for f in &d.files {
            assert!(f.name.ends_with(".md"));
        }
    }
}

#[test]
fn built_tree_never_shows_hidden_or_non_markdown() {
    let tree = list_tree_down_to_snippet_names(&sample_config(), &vec![sample_listing()]);
    assert_eq!(tree.len(), 1);
    let root = &tree[0];
    assert!(root.files.is_empty());
    for child in &root.sub_directories {
        assert!(!child.name.starts_with('.'));
        assert!(child.sub_directories.is_empty());
        for f in &child.files {
            assert!(f.name.ends_with(".md"));
        }
    }
    assert_eq!(root.sub_directories.len(), 2);
}

#[test]
fn built_tree_is_sorted_by_name() {
    let tree = list_tree_down_to_snippet_names(&sample_config(), &vec![sample_listing()]);
    let root = &tree[0];
    let child_names: Vec<&str> = root.sub_directories.iter().map(|d| d.name.as_str()).collect();
    assert_eq!(child_names, vec!["Bash", "Zsh"]);
    let zsh = &root.sub_directories[1];
    let file_names: Vec<&str> = zsh.files.iter().map(|f| f.name.as_str()).collect();
    assert_eq!(file_names, vec!["a.md", "b.md"]);
}

#[test]
fn building_twice_yields_identical_forests() {
    let once = list_tree_down_to_snippet_names(&sample_config(), &vec![sample_listing()]);
    let again = list_tree_down_to_snippet_names(&sample_config(), &vec![sample_listing()]);
    assert_eq!(once, again);
}

#[test]
fn root_title_defaults_to_base_name() {
    let tree = list_tree_down_to_snippet_names(&sample_config(), &vec![sample_listing()]);
    assert_eq!(tree[0].name, "cs");
    assert_eq!(tree[0].path, "/cs");
}

#[test]
fn titled_root_keeps_its_title() {
    let config = CognitioConfig {
        editor: None,
        cheatsheets: vec![CheatsheetData::Info(CheatsheetInfo {
            title: "My Sheets".to_string(),
            path: "/cs".to_string(),
        })],
        styling: None,
    };
    let tree = list_tree_down_to_snippet_names(&config, &vec![sample_listing()]);
    assert_eq!(tree[0].name, "My Sheets");
    assert_eq!(tree[0].path, "/cs");
}

#[test]
fn missing_root_yields_empty_node_and_spares_the_rest() {
    let config = CognitioConfig {
        editor: None,
        cheatsheets: vec![
            CheatsheetData::Simple("/absent".to_string()),
            CheatsheetData::Simple("/cs".to_string()),
        ],
        styling: None,
    };
    let tree = list_tree_down_to_snippet_names(&config, &vec![Vec::new(), sample_listing()]);
    assert_eq!(tree.len(), 2);
    assert_eq!(tree[0].name, "absent");
    assert!(tree[0].sub_directories.is_empty());
    assert!(tree[0].files.is_empty());
    assert_eq!(tree[1].name, "cs");
    assert_eq!(tree[1].sub_directories.len(), 2);
}

#[test]
fn root_order_follows_configuration() {
    let config = CognitioConfig {
        editor: None,
        cheatsheets: vec![
            CheatsheetData::Simple("/zeta".to_string()),
            CheatsheetData::Simple("/alpha".to_string()),
        ],
        styling: None,
    };
    let tree = list_tree_down_to_snippet_names(&config, &vec![Vec::new(), Vec::new()]);
    let names: Vec<&str> = tree.iter().map(|d| d.name.as_str()).collect();
    assert_eq!(names, vec!["zeta", "alpha"]);
}

#[test]
fn shorthand_ids_are_annotated_throughout() {
    let tree = list_tree_down_to_snippet_names(&sample_config(), &vec![sample_listing()]);
    let root = &tree[0];
    // Depth two for a directory: the last two path components.
    assert_eq!(root.shorthand_id, "/cs");
    let bash = &root.sub_directories[0];
    assert_eq!(bash.shorthand_id, "csba");
    // Depth three for a file: its directory, its parent, and itself.
    assert_eq!(bash.files[0].shorthand_id, "csbava");
}

#[test]
fn sort_orders_every_level_and_the_top() {
    let mk_file = |name: &str| DirectoryFile {
        name: name.to_string(),
        path: format!("/r/{}", name),
        shorthand_id: String::new(),
    };
    let forest = vec![
        Directory {
            name: "zeta".to_string(),
            path: "/r/zeta".to_string(),
            files: vec![mk_file("b.md"), mk_file("a.md")],
            sub_directories: Vec::new(),
            shorthand_id: String::new(),
        },
        Directory {
            name: "alpha".to_string(),
            path: "/r/alpha".to_string(),
            files: Vec::new(),
            sub_directories: Vec::new(),
            shorthand_id: String::new(),
        },
    ];
    let sorted = sort_directories_and_files(&forest);
    let names: Vec<&str> = sorted.iter().map(|d| d.name.as_str()).collect();
    assert_eq!(names, vec!["alpha", "zeta"]);
    let file_names: Vec<&str> = sorted[1].files.iter().map(|f| f.name.as_str()).collect();
    assert_eq!(file_names, vec!["a.md", "b.md"]);
}

#[test]
fn sorting_is_idempotent_on_sorted_input() {
    let dirs = list_cheatsheet_directories(&sample_config(), &vec![sample_listing()]);
    let sorted = sort_directories_and_files(&dirs);
    let twice = sort_directories_and_files(&sorted);
    assert_eq!(sorted, twice);
}

#[test]
fn enrich_sets_ids_in_place() {
    let mut dirs = list_cheatsheet_directories(&sample_config(), &vec![sample_listing()]);
    enrich_directories_with_shorthand_ids(&mut dirs);
    assert_eq!(dirs[0].sub_directories[0].shorthand_id, "cszs");
    assert_eq!(dirs[0].sub_directories[0].files[0].shorthand_id, "cszsb.");
}

#[test]
fn ordering_is_case_sensitive_ordinal() {
    let listing = vec![
        dir_entry("bash", "/cs/bash", Vec::new()),
        dir_entry("Zsh", "/cs/Zsh", Vec::new()),
    ];
    let tree = list_tree_down_to_snippet_names(&sample_config(), &vec![listing]);
    let names: Vec<&str> = tree[0].sub_directories.iter().map(|d| d.name.as_str()).collect();
    // Upper-case letters order before lower-case ones, by code point.
    assert_eq!(names, vec!["Zsh", "bash"]);
}
