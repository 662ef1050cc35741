use sch_hierarchy::root_uuid::{
    ensure_source_root_uuid, fresh_uuid, insert_root_uuid, is_blank_char,
    replace_source_root_uuid, Block, BlockHead,
};

fn block(source: &str, text: &str, head: &str) -> Block {
    let at = source.find(text).expect("block is there");
    let start = source[..at].chars().count();
    Block {
        start,
        end: start + text.chars().count(),
        head: BlockHead::Named(head.to_owned()),
    }
}

const SOURCE: &str = "(kicad_sch\n\t(version 20)\n\t(generator \"é\")\n\t(paper \"A4\")\n)\n";

fn blocks() -> Vec<Block> {
    vec![
        block(SOURCE, "(version 20)", "version"),
        block(SOURCE, "(generator \"é\")", "generator"),
        block(SOURCE, "(paper \"A4\")", "paper"),
    ]
}

#[test]
fn a_document_without_a_uuid_gets_one_on_a_line_of_its_own() {
    let (text, uuid) = ensure_source_root_uuid(SOURCE, None, &blocks()).unwrap();
    assert_eq!(
        text,
        format!("(kicad_sch\n\t(version 20)\n\t(generator \"é\")\n\t(uuid \"{uuid}\")\n\t(paper \"A4\")\n)\n")
    );
    assert_eq!(uuid::Uuid::parse_str(&uuid).unwrap().get_version_num(), 4);
}

#[test]
fn a_declared_uuid_is_kept() {
    let (text, uuid) = ensure_source_root_uuid(SOURCE, Some("known"), &blocks()).unwrap();
    assert_eq!((text.as_str(), uuid.as_str()), (SOURCE, "known"));
}

#[test]
fn a_document_without_an_anchor_is_refused() {
    let mut only_metadata = blocks();
    only_metadata.pop();
    only_metadata.push(Block { start: 0, end: 0, head: BlockHead::Unreadable });
    only_metadata.push(block(SOURCE, "(version 20)", "generator_version"));
    assert_eq!(
        ensure_source_root_uuid(SOURCE, None, &only_metadata).unwrap_err(),
        "parent schematic has no UUID insertion anchor"
    );
}

#[test]
fn a_document_on_one_line_is_refused() {
    let source = "\n(kicad_sch (paper \"A4\"))";
    let found = vec![block(source, "(paper \"A4\")", "paper")];
    assert_eq!(
        insert_root_uuid(source, &found, "u").unwrap_err(),
        "parent schematic metadata is not line-oriented"
    );
}

#[test]
fn on_the_first_line_nothing_counts_as_indentation() {
    let source = "(kicad_sch (paper))";
    let found = vec![Block { start: 11, end: 18, head: BlockHead::Unnamed }];
    assert_eq!(
        insert_root_uuid(source, &found, "u").unwrap(),
        "(kicad_sch (uuid \"u\")\n(paper))"
    );
}

#[test]
fn replacing_changes_only_the_uuid() {
    let source = "(kicad_sch\n  (uuid \"old\")\n  (text \"é\" (uuid \"t\"))\n)\n";
    let found = vec![block(source, "(uuid \"old\")", "uuid")];
    assert_eq!(
        replace_source_root_uuid(source, &found, "new").unwrap(),
        "(kicad_sch\n  (uuid \"new\")\n  (text \"é\" (uuid \"t\"))\n)\n"
    );
}

#[test]
fn a_document_that_declares_no_uuid_gets_the_wanted_one() {
    assert_eq!(
        replace_source_root_uuid(SOURCE, &blocks(), "new").unwrap(),
        "(kicad_sch\n\t(version 20)\n\t(generator \"é\")\n\t(uuid \"new\")\n\t(paper \"A4\")\n)\n"
    );
    assert_eq!(
        replace_source_root_uuid(SOURCE, &vec![], "new").unwrap_err(),
        "parent schematic has no UUID insertion anchor"
    );
}

#[test]
fn white_space_is_that_of_unicode() {
    for n in 0..=0x10ffffu32 {
        if let Some(c) = char::from_u32(n) {
            assert_eq!(is_blank_char(c), c.is_whitespace(), "{n:#x}");
        }
    }
}

#[test]
fn two_new_uuids_differ() {
    assert_ne!(fresh_uuid(), fresh_uuid());
    assert_eq!(fresh_uuid().len(), 36);
}
