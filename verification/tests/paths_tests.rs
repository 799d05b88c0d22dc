use rustpeek::paths::ModulePath;
use rustpeek::paths::Vis;

fn path_of(segments: &[&str]) -> ModulePath {
    ModulePath { segments: segments.iter().map(|s| s.to_string()).collect() }
}

#[test]
fn root_is_the_sentinel() {
    let root = ModulePath::root();
    assert_eq!(root.segments, vec!["crate".to_string()]);
    assert_eq!(root.display(), "crate");
    assert_eq!(root.last(), "crate");
}

#[test]
fn child_appends_a_segment() {
    let p = ModulePath::root().child("parser").child("utils");
    assert_eq!(p.display(), "crate::parser::utils");
    assert_eq!(p.last(), "utils");
}

#[test]
fn parent_drops_the_last_segment() {
    let p = path_of(&["crate", "parser", "utils"]);
    let up = p.parent().unwrap();
    assert_eq!(up.display(), "crate::parser");
    assert!(ModulePath::root().parent().is_none());
}

#[test]
fn path_equality_is_structural() {
    let a = path_of(&["crate", "a"]);
    let b = ModulePath::root().child("a");
    let c = path_of(&["crate", "b"]);
    assert!(a.path_eq(&b));
    assert!(!a.path_eq(&c));
    assert!(!a.path_eq(&ModulePath::root()));
}

#[test]
fn public_and_package_wide_reach_everywhere() {
    let def = path_of(&["crate", "inner"]);
    let other = path_of(&["crate", "elsewhere", "deep"]);
    assert!(Vis::Public.accessible_from(&def, &other));
    assert!(Vis::PubCrate.accessible_from(&def, &other));
}

#[test]
fn visibility_is_reflexive() {
    let m = path_of(&["crate", "inner"]);
    assert!(Vis::Public.accessible_from(&m, &m));
    assert!(Vis::PubCrate.accessible_from(&m, &m));
    assert!(Vis::PubSuper.accessible_from(&m, &m));
    assert!(Vis::Private.accessible_from(&m, &m));
}

#[test]
fn restricted_to_ancestor_reaches_the_parents_subtree() {
    let def = path_of(&["crate", "a", "b"]);
    let sibling = path_of(&["crate", "a", "c"]);
    let outside = path_of(&["crate", "d"]);
    assert!(Vis::PubSuper.accessible_from(&def, &sibling));
    assert!(Vis::PubSuper.accessible_from(&def, &path_of(&["crate", "a"])));
    assert!(!Vis::PubSuper.accessible_from(&def, &outside));
}

#[test]
fn private_reaches_own_subtree_and_enclosing_scopes() {
    let def = path_of(&["crate", "a"]);
    let descendant = path_of(&["crate", "a", "b", "c"]);
    let root = ModulePath::root();
    let sibling = path_of(&["crate", "x"]);
    assert!(Vis::Private.accessible_from(&def, &descendant));
    assert!(Vis::Private.accessible_from(&def, &root));
    assert!(!Vis::Private.accessible_from(&def, &sibling));
}

#[test]
fn private_accessibility_descends_inside_the_subtree() {
    let def = path_of(&["crate", "a"]);
    let m = path_of(&["crate", "a", "b"]);
    let deeper = path_of(&["crate", "a", "b", "c"]);
    assert!(Vis::Private.accessible_from(&def, &m));
    assert!(Vis::Private.accessible_from(&def, &deeper));
}
