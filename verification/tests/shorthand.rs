use cognitio::paths::base_name;
use cognitio::paths::make_short_id_from_two_first_letters_of_path_parts;
use cognitio::paths::path_components_of;
use cognitio::text::strip_markdown_extension;

#[test]
fn shorthand_is_deterministic() {
    let a = make_short_id_from_two_first_letters_of_path_parts("/home/user/cheats/Bash", 2);
    let b = make_short_id_from_two_first_letters_of_path_parts("/home/user/cheats/Bash", 2);
    assert_eq!(a, b);
}

#[test]
fn shorthand_uses_at_most_depth_components() {
    let a = make_short_id_from_two_first_letters_of_path_parts("/a/bb/ccc", 2);
    let b = make_short_id_from_two_first_letters_of_path_parts("/zz/bb/ccc", 2);
    assert_eq!(a, b);
}

#[test]
fn shorthand_of_directory_path() {
    assert_eq!(
        make_short_id_from_two_first_letters_of_path_parts("/a/bb/ccc", 2),
        "bbcc"
    );
}

#[test]
fn shorthand_of_file_path() {
    assert_eq!(
        make_short_id_from_two_first_letters_of_path_parts("/Users/Docs/Bash/Variables.md", 3),
        "dobava"
    );
}

#[test]
fn shorthand_of_depth_zero_is_empty() {
    assert_eq!(
        make_short_id_from_two_first_letters_of_path_parts("/a/bb/ccc", 0),
        ""
    );
}

#[test]
fn shorthand_with_fewer_components_than_depth() {
    // Components from the end: "bb", "a", and the root "/".
    assert_eq!(
        make_short_id_from_two_first_letters_of_path_parts("/a/bb", 5),
        "/abb"
    );
}

#[test]
fn shorthand_of_short_components() {
    assert_eq!(make_short_id_from_two_first_letters_of_path_parts("/a/b", 2), "ab");
}

#[test]
fn shorthand_lower_cases() {
    assert_eq!(
        make_short_id_from_two_first_letters_of_path_parts("/AB/CD", 2),
        "abcd"
    );
}

#[test]
fn shorthand_skips_empty_and_current_dir_segments() {
    assert_eq!(
        make_short_id_from_two_first_letters_of_path_parts("a//./ccc", 2),
        "acc"
    );
}

#[test]
fn components_are_listed_deepest_first() {
    let comps = path_components_of("/a/bb/ccc");
    assert_eq!(comps, vec!["ccc", "bb", "a", "/"]);
}

#[test]
fn base_name_of_plain_path() {
    assert_eq!(base_name("/home/user/cheats"), "cheats");
    assert_eq!(base_name("cheats"), "cheats");
    assert_eq!(base_name("/a/bb/"), "bb");
}

#[test]
fn base_name_of_root_is_empty() {
    assert_eq!(base_name("/"), "");
    assert_eq!(base_name(""), "");
}

#[test]
fn base_name_of_parent_reference_is_empty() {
    assert_eq!(base_name("/a/.."), "");
}

#[test]
fn strip_markdown_extension_removes_suffix() {
    assert_eq!(strip_markdown_extension("notes.md"), "notes");
    assert_eq!(strip_markdown_extension("notes"), "notes");
}

#[test]
fn strip_markdown_extension_removes_every_occurrence() {
    assert_eq!(strip_markdown_extension("a.md.md"), "a");
    assert_eq!(strip_markdown_extension("x.mdy"), "xy");
}

#[test]
fn shorthand_handles_non_ascii_lower_casing() {
    assert_eq!(
        make_short_id_from_two_first_letters_of_path_parts("/Über/Straße", 2),
        "übst"
    );
}
