use rustpeek::discovery::discover_crate;
use rustpeek::discovery::file_to_module_path;
use rustpeek::discovery::resolve_mod_file;
use rustpeek::paths::ModulePath;

fn strings(items: &[&str]) -> Vec<String> {
    items.iter().map(|s| s.to_string()).collect()
}

#[test]
fn sibling_files_map_to_child_modules() {
    let p = file_to_module_path("src", "src/parser.rs").unwrap();
    assert_eq!(p.display(), "crate::parser");
}

#[test]
fn directory_style_files_map_to_the_directory_module() {
    let p = file_to_module_path("src", "src/parser/mod.rs").unwrap();
    assert_eq!(p.display(), "crate::parser");
}

#[test]
fn nested_files_map_to_nested_modules() {
    let p = file_to_module_path("src", "src/parser/utils.rs").unwrap();
    assert_eq!(p.display(), "crate::parser::utils");
}

#[test]
fn files_outside_the_source_directory_do_not_map() {
    assert!(file_to_module_path("src", "examples/demo.rs").is_none());
}

#[test]
fn files_without_the_source_ending_do_not_map() {
    assert!(file_to_module_path("src", "src/notes.txt").is_none());
}

#[test]
fn resolve_prefers_the_sibling_layout() {
    let existing = strings(&["src/util.rs", "src/util/mod.rs"]);
    let found = resolve_mod_file("src", &ModulePath::root(), "util", &existing);
    assert_eq!(found.as_deref(), Some("src/util.rs"));
}

#[test]
fn resolve_falls_back_to_the_directory_layout() {
    let existing = strings(&["src/util/mod.rs"]);
    let found = resolve_mod_file("src", &ModulePath::root(), "util", &existing);
    assert_eq!(found.as_deref(), Some("src/util/mod.rs"));
}

#[test]
fn resolve_is_none_when_neither_layout_exists() {
    let existing = strings(&["src/lib.rs"]);
    assert!(resolve_mod_file("src", &ModulePath::root(), "util", &existing).is_none());
}

#[test]
fn resolve_looks_inside_the_parent_modules_directory() {
    let existing = strings(&["src/parser/utils.rs"]);
    let parent = ModulePath::root().child("parser");
    let found = resolve_mod_file("src", &parent, "utils", &existing);
    assert_eq!(found.as_deref(), Some("src/parser/utils.rs"));
}

#[test]
fn discover_maps_every_file_under_its_module_path() {
    let walked = strings(&["pkg/src/lib.rs", "pkg/src/parser.rs", "pkg/src/parser/utils.rs"]);
    let found = discover_crate("pkg", &walked);
    assert_eq!(found.root, "pkg");
    let shown: Vec<(String, String)> = found
        .files
        .iter()
        .map(|(m, f)| (m.display(), f.clone()))
        .collect();
    assert_eq!(shown[0], ("crate".to_string(), "pkg/src/lib.rs".to_string()));
    assert!(shown.contains(&("crate::parser".to_string(), "pkg/src/parser.rs".to_string())));
    assert!(
        shown.contains(
            &("crate::parser::utils".to_string(), "pkg/src/parser/utils.rs".to_string()),
        ),
    );
    assert_eq!(shown.len(), 3);
}

#[test]
fn discover_uses_the_program_root_when_no_library_root_exists() {
    let walked = strings(&["pkg/src/main.rs", "pkg/src/cli.rs"]);
    let found = discover_crate("pkg", &walked);
    assert_eq!(found.files[0].0.display(), "crate");
    assert_eq!(found.files[0].1, "pkg/src/main.rs");
    assert_eq!(found.files.len(), 2);
}

#[test]
fn discover_finds_nothing_without_a_root_file() {
    let walked = strings(&["pkg/src/helper.rs"]);
    let found = discover_crate("pkg", &walked);
    assert!(found.files.is_empty());
}
