use sch_hierarchy::uuids::{
    declared_uuids, distinct_names, pair_with_draws, regenerate_item_uuids, regenerate_with_draws,
    remap_uuid_string, rename_in_document, UuidMapping,
};
use std::collections::HashSet;

fn declared(source: &str) -> HashSet<String> {
    declared_uuids(source).into_iter().collect()
}

#[test]
fn regenerating_uuids_replaces_declarations_and_the_paths_that_name_them() {
    let source = r#"(kicad_sch
  (symbol (lib_id "Device:R") (uuid "sym-a")
    (instances (project "demo" (path "/root-a/sym-a" (reference "R1"))))
  )
  (text "see sym-a in the notes" (uuid "text-a"))
  (sheet_instances (path "/root-a" (page "2")))
)
"#;

    let out = regenerate_item_uuids(source);

    let before = declared(source);
    let after = declared(&out);
    assert_eq!(before.len(), 2, "fixture declares two UUIDs");
    assert_eq!(after.len(), 2, "the copy declares two UUIDs");
    assert!(
        before.is_disjoint(&after),
        "every declaration must change: {before:?} vs {after:?}"
    );

    // The instance path naming the renamed symbol follows it.
    let new_symbol = out
        .split_once("(uuid \"")
        .and_then(|(_, rest)| rest.split_once('"'))
        .map(|(id, _)| id.to_owned())
        .expect("symbol uuid present");
    assert!(
        out.contains(&format!("(path \"/root-a/{new_symbol}\"")),
        "the path must follow the renamed item:\n{out}"
    );

    // Strings that are not declared UUIDs are left alone, a sentence that merely
    // contains one and a path segment that was never declared among them.
    assert!(out.contains("(project \"demo\""), "{out}");
    assert!(out.contains("(reference \"R1\")"), "{out}");
    assert!(out.contains("(lib_id \"Device:R\")"), "{out}");
    assert!(
        out.contains("\"see sym-a in the notes\""),
        "text content must survive verbatim:\n{out}"
    );
    assert!(out.contains("(path \"/root-a\" (page \"2\"))"), "{out}");
}

#[test]
fn regenerating_uuids_leaves_a_document_without_any_alone() {
    let source = "(kicad_sch\n  (lib_symbols)\n)\n";
    assert_eq!(regenerate_item_uuids(source), source);
}

#[test]
fn regenerating_uuids_survives_escaped_quotes_in_text() {
    let source = r#"(kicad_sch
  (text "a \"b\" c" (uuid "text-a"))
  (generator "konnect")
)
"#;

    let out = regenerate_item_uuids(source);

    assert!(
        out.contains("(generator \"konnect\")"),
        "a later string was corrupted by the escape:\n{out}"
    );
    assert!(out.contains(r#""a \"b\" c""#), "{out}");
    assert!(!out.contains("text-a"), "{out}");
}

#[test]
fn duplicate_sheet_gives_the_copy_its_own_item_uuids() {
    const SOURCE_TEXT_UUID: &str = "aaaaaaaa-bbbb-cccc-dddd-eeeeeeeeeeee";
    let source = format!(
        "(kicad_sch\n  (uuid \"11111111-2222-4333-8444-555555555555\")\n  (text \"NOTE\"\n    (at 10 10 0)\n    (effects (font (size 1.27 1.27)) (justify left bottom))\n    (uuid \"{SOURCE_TEXT_UUID}\")\n  )\n)\n"
    );

    let copy = regenerate_item_uuids(&source);

    let source_ids = declared(&source);
    let copy_ids = declared(&copy);
    assert!(source_ids.contains(SOURCE_TEXT_UUID));
    assert!(!copy_ids.contains(SOURCE_TEXT_UUID));
    assert!(source_ids.is_disjoint(&copy_ids));
    assert_eq!(source_ids.len(), copy_ids.len(), "same items, new identities");
}

#[test]
fn new_names_are_version_four_uuids() {
    let out = regenerate_item_uuids("(x (uuid \"a\"))");
    let name = &declared_uuids(&out)[0];
    let parsed = uuid::Uuid::parse_str(name).expect("a UUID");
    assert_eq!(parsed.get_version_num(), 4);
    assert_eq!(&parsed.to_string(), name);
    assert_eq!(out, format!("(x (uuid \"{name}\"))"));
}

#[test]
fn one_name_declared_twice_gets_one_new_name() {
    let out = regenerate_item_uuids("(a (uuid \"n\")) (b (uuid \"n\")) (c \"n\")");
    let names = declared_uuids(&out);
    assert_eq!(names.len(), 2);
    assert_eq!(names[0], names[1]);
    assert!(out.ends_with(&format!("(c \"{}\")", names[0])));
}

#[test]
fn empty_and_unclosed_declarations_name_nothing() {
    assert_eq!(regenerate_item_uuids("(uuid \"\")"), "(uuid \"\")");
    assert_eq!(regenerate_item_uuids("(uuid \"abc"), "(uuid \"abc");
    assert!(declared_uuids("(uuid \"\") (uuid \"abc").is_empty());
}

#[test]
fn whole_values_come_before_segments() {
    let mut mapping = UuidMapping::new();
    mapping.insert("a".to_owned(), "X".to_owned());
    mapping.insert("/a/b".to_owned(), "Y".to_owned());
    assert_eq!(remap_uuid_string("/a/b", &mapping), "Y");
    assert_eq!(remap_uuid_string("/a/c/a", &mapping), "/X/c/X");
    assert_eq!(remap_uuid_string("a", &mapping), "X");
    assert_eq!(remap_uuid_string("aa", &mapping), "aa");
    assert_eq!(remap_uuid_string("/aa/", &mapping), "/aa/");
    assert_eq!(remap_uuid_string("", &mapping), "");
    assert_eq!(mapping.get("a").map(String::as_str), Some("X"));
    assert!(mapping.get("zz").is_none());
}

fn list(names: &[&str]) -> Vec<String> {
    names.iter().map(|n| n.to_string()).collect()
}

#[test]
fn each_new_name_gets_the_next_draw() {
    let names = list(&["a", "b", "a", "c"]);
    assert_eq!(distinct_names(&names), list(&["a", "b", "c"]));
    let mapping = pair_with_draws(&names, &list(&["X", "Y", "Z"]));
    let new = |name: &str| mapping.get(name).map(String::as_str);
    assert_eq!((new("a"), new("b"), new("c"), new("d")), (Some("X"), Some("Y"), Some("Z"), None));
    let short = pair_with_draws(&names, &list(&["X"]));
    assert!(short.get("b").is_none());
}

#[test]
fn a_document_takes_the_draws_in_order() {
    let source = "(uuid \"a\") (uuid \"b\") (path \"/a/b/c\") (uuid \"a\")";
    assert_eq!(
        regenerate_with_draws(source, &list(&["X", "Y"])),
        "(uuid \"X\") (uuid \"Y\") (path \"/X/Y/c\") (uuid \"X\")"
    );
    assert_eq!(regenerate_with_draws(source, &list(&[])), source);
}

#[test]
fn different_names_get_different_uuids() {
    let out = regenerate_item_uuids("(uuid \"a\") (uuid \"b\") (uuid \"c\")");
    let new: HashSet<String> = declared(&out);
    assert_eq!(new.len(), 3);
}

#[test]
fn text_outside_quotes_is_kept() {
    let mut mapping = UuidMapping::new();
    mapping.insert("a".to_owned(), "X".to_owned());
    assert_eq!(
        rename_in_document("a (\"a\") \"b/a\" é \"a", &mapping),
        "a (\"X\") \"b/X\" é \"a"
    );
}
