use sch_hierarchy::paths::{
    child_path, is_valid_sheet_file, join_path, parent_dir, path_names, path_origin, path_parent,
    same_path, to_native_form, to_slash_form, Origin,
};
use std::path::{Component, Path, PathBuf};

const PATHS: [&str; 34] = [
    "", ".", "..", "/", "//", "a", "a/", "a/b", "a//b", "./a", "a/.", "a/./b", "/a", "/a/",
    "/a/b/../c", "../a", "././a", ".//a", "a/..", "/.", "/..", "..a", ".a", "a.b", "./", "a/b/.",
    "a/b//", "//a", "/./a", "/../", "a b/c", "é/ü", ".a/", "a/./",
];

const FILES: [&str; 22] = [
    "a.kicad_sch", "a.kicad_sch/", "sub/a.kicad_sch", "sub//a.kicad_sch", "sub/./a.kicad_sch",
    "./a.kicad_sch", "../a.kicad_sch", "sub/../a.kicad_sch", "/a.kicad_sch", ".kicad_sch",
    "sub/.kicad_sch", "a.b.kicad_sch", "a.kicad_sch.bak", "a.KICAD_SCH", "kicad_sch", "akicad_sch",
    "", ".", "a.kicad_sch/.", "..kicad_sch", "...kicad_sch", "a/..kicad_sch",
];

fn std_names(path: &str) -> Vec<String> {
    Path::new(path)
        .components()
        .filter_map(|c| match c {
            Component::Normal(name) => Some(name.to_string_lossy().into_owned()),
            Component::ParentDir => Some("..".to_owned()),
            _ => None,
        })
        .collect()
}

#[test]
fn names_are_those_of_the_components() {
    for path in PATHS {
        assert_eq!(path_names(path), std_names(path), "{path:?}");
        let origin = match Path::new(path).components().next() {
            Some(Component::RootDir) => Origin::Root,
            Some(Component::CurDir) => Origin::Here,
            _ => Origin::Bare,
        };
        assert_eq!(path_origin(path), origin, "{path:?}");
    }
}

#[test]
fn parents_are_those_of_the_path() {
    for path in PATHS {
        let expected = Path::new(path).parent().map(|p| p.to_string_lossy().into_owned());
        assert_eq!(path_parent(path), expected, "{path:?}");
        let dir = Path::new(path)
            .parent()
            .map(|p| p.to_path_buf())
            .unwrap_or_else(|| PathBuf::from("."));
        assert_eq!(parent_dir(path), dir.to_string_lossy(), "{path:?}");
    }
}

#[test]
fn joining_is_that_of_the_path() {
    for dir in PATHS {
        for file in PATHS {
            let expected = Path::new(dir).join(file);
            assert_eq!(join_path(dir, file), expected.to_string_lossy(), "{dir:?} {file:?}");
        }
    }
}

#[test]
fn equality_is_that_of_the_path() {
    for a in PATHS {
        for b in PATHS {
            assert_eq!(same_path(a, b), Path::new(a) == Path::new(b), "{a:?} {b:?}");
        }
    }
}

#[test]
fn sheet_files_are_relative_and_end_as_they_should() {
    for file in FILES {
        let relative = Path::new(file);
        let expected = !relative.is_absolute()
            && relative.components().all(|c| matches!(c, Component::Normal(_)))
            && relative.extension().is_some_and(|e| e == "kicad_sch");
        assert_eq!(is_valid_sheet_file(file), expected, "{file:?}");
    }
    assert!(is_valid_sheet_file("sub/power.kicad_sch"));
}

#[test]
fn a_child_is_found_beside_its_schematic() {
    assert_eq!(child_path("/p/root.kicad_sch", "a.kicad_sch"), "/p/a.kicad_sch");
    assert_eq!(child_path("root.kicad_sch", "a.kicad_sch"), "a.kicad_sch");
    assert_eq!(child_path("/p/root.kicad_sch", "/q/a.kicad_sch"), "/q/a.kicad_sch");
    assert_eq!(child_path("/", "a"), "./a");
}

#[test]
fn paths_with_drives_take_slash_form() {
    let root = to_slash_form("C:\\p\\root.kicad_sch", '\\');
    assert_eq!(root, "/C:/p/root.kicad_sch");
    assert_eq!(to_native_form(&parent_dir(&root), '\\'), "C:/p");
    assert_eq!(to_native_form(&child_path(&root, "a.kicad_sch"), '\\'), "C:/p/a.kicad_sch");
    let other = to_slash_form("D:\\q\\a.kicad_sch", '\\');
    assert_eq!(to_native_form(&child_path(&root, &other), '\\'), "D:/q/a.kicad_sch");

    let valid = |file: &str| is_valid_sheet_file(&to_slash_form(file, '\\'));
    assert!(valid("sub\\a.kicad_sch"));
    assert!(!valid("..\\a.kicad_sch"));
    assert!(!valid("D:\\a.kicad_sch"));
    assert!(!valid("D:a.kicad_sch"));
    assert!(!valid("\\a.kicad_sch"));
}

#[test]
fn paths_with_slashes_stay_as_they_are() {
    for path in PATHS {
        assert_eq!(to_slash_form(path, '/'), path);
        assert_eq!(to_native_form(path, '/'), path);
    }
    assert_eq!(to_slash_form("a\\b", '/'), "a\\b");
    assert_eq!(to_native_form("/C:/p", '/'), "/C:/p");
    assert_eq!(to_slash_form("\\\\host\\share\\f", '\\'), "//host/share/f");
    assert_eq!(to_native_form("//host/share/f", '\\'), "//host/share/f");
}
