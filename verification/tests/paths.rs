use racrc::path::Path;
use racrc::resolve::{is_root_anchor, resolve_fully_qualified_name};

fn path(segments: &[&str]) -> Path {
    Path { segments: segments.iter().map(|s| s.to_string()).collect() }
}

#[test]
fn root_is_the_anchor_alone() {
    assert_eq!(Path::root(), path(&["crate"]));
}

#[test]
fn child_appends_one_segment() {
    let base = path(&["crate", "uart"]);
    assert_eq!(base.child(&"Ctrl".to_string()), path(&["crate", "uart", "Ctrl"]));
    assert_eq!(base, path(&["crate", "uart"]));
}

#[test]
fn child_of_the_empty_path() {
    assert_eq!(path(&[]).child(&"a".to_string()), path(&["a"]));
}

#[test]
fn same_as_compares_segment_by_segment() {
    assert!(path(&["crate", "a"]).same_as(&path(&["crate", "a"])));
    assert!(!path(&["crate", "a"]).same_as(&path(&["crate", "b"])));
    assert!(!path(&["crate", "a"]).same_as(&path(&["crate"])));
    assert!(!path(&["crate"]).same_as(&path(&["crate", "a"])));
    assert!(!path(&["a", "crate"]).same_as(&path(&["crate", "a"])));
    assert!(path(&[]).same_as(&path(&[])));
}

#[test]
fn clone_keeps_the_segments() {
    let p = path(&["crate", "a", "b"]);
    assert_eq!(p.clone(), p);
}

#[test]
fn only_the_anchor_is_the_anchor() {
    assert!(is_root_anchor(&"crate".to_string()));
    assert!(!is_root_anchor(&"Crate".to_string()));
    assert!(!is_root_anchor(&"crates".to_string()));
    assert!(!is_root_anchor(&"".to_string()));
    assert!(!is_root_anchor(&"self".to_string()));
}

#[test]
fn absolute_reference_is_left_alone() {
    let mut name = path(&["crate", "uart", "Ctrl"]);
    resolve_fully_qualified_name(&path(&["crate", "other"]), &mut name);
    assert_eq!(name, path(&["crate", "uart", "Ctrl"]));
}

#[test]
fn absolute_reference_is_left_alone_in_every_container() {
    let containers = [
        path(&[]),
        path(&["crate"]),
        path(&["crate", "a"]),
        path(&["crate", "a", "b", "c"]),
        path(&["elsewhere"]),
    ];
    for container in containers.iter() {
        let mut name = path(&["crate", "Reg"]);
        resolve_fully_qualified_name(container, &mut name);
        assert_eq!(name, path(&["crate", "Reg"]));
    }
}

#[test]
fn the_anchor_alone_is_absolute() {
    let mut name = path(&["crate"]);
    resolve_fully_qualified_name(&path(&["crate", "m"]), &mut name);
    assert_eq!(name, path(&["crate"]));
}

#[test]
fn relative_reference_is_prefixed_with_the_container() {
    let mut name = path(&["Reg1"]);
    resolve_fully_qualified_name(&path(&["crate"]), &mut name);
    assert_eq!(name, path(&["crate", "Reg1"]));
}

#[test]
fn relative_reference_of_several_segments() {
    let mut name = path(&["regs", "Ctrl"]);
    resolve_fully_qualified_name(&path(&["crate", "uart"]), &mut name);
    assert_eq!(name, path(&["crate", "uart", "regs", "Ctrl"]));
}

#[test]
fn anchor_in_a_later_segment_does_not_make_it_absolute() {
    let mut name = path(&["a", "crate"]);
    resolve_fully_qualified_name(&path(&["crate"]), &mut name);
    assert_eq!(name, path(&["crate", "a", "crate"]));
}

#[test]
fn resolving_leaves_the_container_as_it_was() {
    let container = path(&["crate", "m"]);
    let mut name = path(&["R"]);
    resolve_fully_qualified_name(&container, &mut name);
    assert_eq!(container, path(&["crate", "m"]));
}

#[test]
fn resolving_twice_inside_an_absolute_container_changes_nothing_more() {
    let container = path(&["crate", "m"]);
    let mut name = path(&["R"]);
    resolve_fully_qualified_name(&container, &mut name);
    let once = name.clone();
    resolve_fully_qualified_name(&container, &mut name);
    assert_eq!(name, once);
}

#[test]
fn relative_reference_inside_the_empty_container() {
    let mut name = path(&["R"]);
    resolve_fully_qualified_name(&path(&[]), &mut name);
    assert_eq!(name, path(&["R"]));
}
