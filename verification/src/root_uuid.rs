//! The UUID of a schematic as a whole, in the text of its file.

use crate::text::{occurs_at, same_text, slice_text, to_chars};
use crate::uuids::{is_v4_text, new_uuid};
use vstd::prelude::*;

verus! {

/// What a block of a document begins with.
#[derive(Debug)]
pub enum BlockHead {
    /// The block cannot be read.
    Unreadable,
    /// The block begins with no word.
    Unnamed,
    /// The block begins with that word.
    Named(String),
}

/// A block that stands directly in a schematic: where its text begins and ends,
/// counted in characters, and its head.
#[derive(Debug)]
pub struct Block {
    pub start: usize,
    pub end: usize,
    pub head: BlockHead,
}

/// The blocks lie within a text of that length.
pub open spec fn blocks_within(blocks: Seq<Block>, len: nat) -> bool {
    forall|i: int| 0 <= i < blocks.len() ==> (#[trigger] blocks[i]).start <= blocks[i].end <= len
}

/// A block before which the UUID may be put: one that can be read and is not
/// about the version or the generator of the file.
pub open spec fn is_anchor(block: Block) -> bool {
    match block.head {
        BlockHead::Unreadable => false,
        BlockHead::Unnamed => true,
        BlockHead::Named(head) => head@ != "version"@ && head@ != "generator"@ && head@
            != "generator_version"@,
    }
}

/// The block holds the UUID of the schematic.
pub open spec fn is_uuid_block(block: Block) -> bool {
    block.head matches BlockHead::Named(head) && head@ == "uuid"@
}

/// The first block that is an anchor, from position `from` on.
pub open spec fn first_anchor(blocks: Seq<Block>, from: int) -> Option<int>
    decreases blocks.len() - from,
{
    if from >= blocks.len() {
        None
    } else if is_anchor(blocks[from]) {
        Some(from)
    } else {
        first_anchor(blocks, from + 1)
    }
}

/// The first block that holds a UUID, from position `from` on.
pub open spec fn first_uuid_block(blocks: Seq<Block>, from: int) -> Option<int>
    decreases blocks.len() - from,
{
    if from >= blocks.len() {
        None
    } else if is_uuid_block(blocks[from]) {
        Some(from)
    } else {
        first_uuid_block(blocks, from + 1)
    }
}

/// A character of white space, as Unicode has it.
pub open spec fn is_blank(c: char) -> bool {
    let n = c as u32;
    ||| 0x9 <= n <= 0xd
    ||| n == 0x20
    ||| n == 0x85
    ||| n == 0xa0
    ||| n == 0x1680
    ||| 0x2000 <= n <= 0x200a
    ||| n == 0x2028
    ||| n == 0x2029
    ||| n == 0x202f
    ||| n == 0x205f
    ||| n == 0x3000
}

/// Where the line that `at` stands on begins. The first line of a text counts as
/// having nothing before `at`.
pub open spec fn line_start(s: Seq<char>, at: int) -> int {
    line_start_before(s, at, at)
}

pub open spec fn line_start_before(s: Seq<char>, at: int, from: int) -> int
    decreases from,
{
    if from <= 0 {
        at
    } else if s[from - 1] == '\n' {
        from
    } else {
        line_start_before(s, at, from - 1)
    }
}

proof fn lemma_line_start(s: Seq<char>, at: int, from: int)
    requires
        0 <= from <= at <= s.len(),
    ensures
        0 <= line_start_before(s, at, from) <= at,
    decreases from,
{
    if from > 0 && s[from - 1] != '\n' {
        lemma_line_start(s, at, from - 1);
    }
}

/// What stands on the line before `at`.
pub open spec fn indent(s: Seq<char>, at: int) -> Seq<char> {
    s.subrange(line_start(s, at), at)
}

pub open spec fn all_blank(s: Seq<char>) -> bool {
    forall|i: int| 0 <= i < s.len() ==> is_blank(#[trigger] s[i])
}

/// The block that declares a UUID.
pub open spec fn uuid_block(uuid: Seq<char>) -> Seq<char> {
    "(uuid \""@ + uuid + "\")"@
}

/// The text with a line that declares the UUID put before the line of `at`, as
/// far indented as that line is.
pub open spec fn with_uuid_line(s: Seq<char>, at: int, uuid: Seq<char>) -> Seq<char> {
    s.take(line_start(s, at)) + (indent(s, at) + "(uuid \""@ + uuid + "\")\n"@) + s.skip(
        line_start(s, at),
    )
}

/// Why the UUID cannot be put into the text, if it cannot.
pub open spec fn insertion_fault(s: Seq<char>, blocks: Seq<Block>) -> Option<Seq<char>> {
    match first_anchor(blocks, 0) {
        None => Some("parent schematic has no UUID insertion anchor"@),
        Some(i) => if !all_blank(indent(s, blocks[i].start as int)) {
            Some("parent schematic metadata is not line-oriented"@)
        } else {
            None
        },
    }
}

/// The text with the UUID put before its first anchor.
pub open spec fn with_root_uuid(s: Seq<char>, blocks: Seq<Block>, uuid: Seq<char>) -> Seq<char> {
    with_uuid_line(s, blocks[first_anchor(blocks, 0)->0].start as int, uuid)
}

/// The text with its first UUID block replaced.
pub open spec fn with_replaced_uuid(
    s: Seq<char>,
    blocks: Seq<Block>,
    uuid: Seq<char>,
) -> Seq<char> {
    let block = blocks[first_uuid_block(blocks, 0)->0];
    s.take(block.start as int) + uuid_block(uuid) + s.skip(block.end as int)
}

/// Whether a character is white space.
pub fn is_blank_char(c: char) -> (blank: bool)
    ensures
        blank == is_blank(c),
{
    let n: u32 = c as u32;
    (0x9 <= n && n <= 0xd) || n == 0x20 || n == 0x85 || n == 0xa0 || n == 0x1680 || (0x2000 <= n
        && n <= 0x200a) || n == 0x2028 || n == 0x2029 || n == 0x202f || n == 0x205f || n == 0x3000
}

fn find_anchor(blocks: &Vec<Block>) -> (at: Option<usize>)
    ensures
        match at {
            Some(i) => i < blocks@.len() && first_anchor(blocks@, 0) == Some(i as int),
            None => first_anchor(blocks@, 0) is None,
        },
{
    let mut i: usize = 0;
    while i < blocks.len()
        invariant
            i <= blocks@.len(),
            first_anchor(blocks@, 0) == first_anchor(blocks@, i as int),
        decreases blocks@.len() - i,
    {
        let found = match &blocks[i].head {
            BlockHead::Unreadable => false,
            BlockHead::Unnamed => true,
            BlockHead::Named(head) => !same_text(head.as_str(), "version") && !same_text(
                head.as_str(),
                "generator",
            ) && !same_text(head.as_str(), "generator_version"),
        };
        if found {
            return Some(i);
        }
        i += 1;
    }
    None
}

fn find_uuid_block(blocks: &Vec<Block>) -> (at: Option<usize>)
    ensures
        match at {
            Some(i) => i < blocks@.len() && first_uuid_block(blocks@, 0) == Some(i as int),
            None => first_uuid_block(blocks@, 0) is None,
        },
{
    let mut i: usize = 0;
    while i < blocks.len()
        invariant
            i <= blocks@.len(),
            first_uuid_block(blocks@, 0) == first_uuid_block(blocks@, i as int),
        decreases blocks@.len() - i,
    {
        let found = match &blocks[i].head {
            BlockHead::Named(head) => same_text(head.as_str(), "uuid"),
            _ => false,
        };
        if found {
            return Some(i);
        }
        i += 1;
    }
    None
}

fn find_line_start(chars: &Vec<char>, at: usize) -> (start: usize)
    requires
        at <= chars@.len(),
    ensures
        start == line_start(chars@, at as int),
        start <= at,
{
    let mut i: usize = at;
    while i > 0
        invariant
            i <= at <= chars@.len(),
            line_start(chars@, at as int) == line_start_before(chars@, at as int, i as int),
        decreases i,
    {
        if chars[i - 1] == '\n' {
            return i;
        }
        i -= 1;
    }
    at
}

/// Put the UUID into the text of a schematic that declares none: on a line of its
/// own before the first block that is not about the version or the generator.
pub fn insert_root_uuid(source: &str, blocks: &Vec<Block>, uuid: &str) -> (text: Result<
    String,
    String,
>)
    requires
        blocks_within(blocks@, source@.len()),
    ensures
        match text {
            Ok(out) => insertion_fault(source@, blocks@) is None && out@ == with_root_uuid(
                source@,
                blocks@,
                uuid@,
            ),
            Err(e) => insertion_fault(source@, blocks@) == Some(e@),
        },
{
    let anchor = match find_anchor(blocks) {
        Some(i) => blocks[i].start,
        None => {
            return Err("parent schematic has no UUID insertion anchor".to_owned());
        },
    };
    let chars = to_chars(source);
    let start = find_line_start(&chars, anchor);
    let ghost before = indent(source@, anchor as int);
    let mut i: usize = start;
    while i < anchor
        invariant
            start <= i <= anchor <= chars@.len(),
            chars@ == source@,
            before == chars@.subrange(start as int, anchor as int),
            before == indent(source@, anchor as int),
            first_anchor(blocks@, 0) is Some,
            anchor == blocks@[first_anchor(blocks@, 0)->0].start,
            forall|j: int| start <= j < i ==> is_blank(#[trigger] chars@[j]),
        decreases anchor - i,
    {
        if !is_blank_char(chars[i]) {
            assert(before[i - start] == chars@[i as int]);
            return Err("parent schematic metadata is not line-oriented".to_owned());
        }
        i += 1;
    }
    assert(all_blank(before)) by {
        assert forall|j: int| 0 <= j < before.len() implies is_blank(#[trigger] before[j]) by {
            assert(before[j] == chars@[start + j]);
        }
    }
    let mut line = slice_text(&chars, start, anchor);
    line.append("(uuid \"");
    line.append(uuid);
    line.append("\")\n");
    let mut out = slice_text(&chars, 0, start);
    out.append(line.as_str());
    out.append(slice_text(&chars, start, chars.len()).as_str());
    assert(source@.subrange(0, start as int) =~= source@.take(start as int));
    assert(source@.subrange(start as int, source@.len() as int) =~= source@.skip(start as int));
    Ok(out)
}

/// The text of a schematic that declares a UUID, and that UUID: the text as it is
/// where it declares one already, and else with a new one put in.
pub fn ensure_source_root_uuid(
    source: &str,
    declared: Option<&str>,
    blocks: &Vec<Block>,
) -> (text: Result<(String, String), String>)
    requires
        blocks_within(blocks@, source@.len()),
    ensures
        match declared {
            Some(uuid) => text matches Ok(found) && found.0@ == source@ && found.1@ == uuid@,
            None => match text {
                Ok(found) => {
                    &&& insertion_fault(source@, blocks@) is None
                    &&& is_v4_text(found.1@)
                    &&& found.0@ == with_root_uuid(source@, blocks@, found.1@)
                },
                Err(e) => insertion_fault(source@, blocks@) == Some(e@),
            },
        },
{
    if let Some(uuid) = declared {
        return Ok((source.to_owned(), uuid.to_owned()));
    }
    let uuid = new_uuid();
    match insert_root_uuid(source, blocks, uuid.as_str()) {
        Ok(out) => Ok((out, uuid)),
        Err(e) => Err(e),
    }
}

/// Why the text cannot be given the UUID, if it cannot: it has no UUID block to
/// replace, and none can be put in.
pub open spec fn replacement_fault(s: Seq<char>, blocks: Seq<Block>) -> Option<Seq<char>> {
    if first_uuid_block(blocks, 0) is Some {
        None
    } else {
        insertion_fault(s, blocks)
    }
}

/// The text with the UUID as its own: its UUID block replaced where it has one,
/// and else put in.
pub open spec fn with_own_uuid(s: Seq<char>, blocks: Seq<Block>, uuid: Seq<char>) -> Seq<char> {
    if first_uuid_block(blocks, 0) is Some {
        with_replaced_uuid(s, blocks, uuid)
    } else {
        with_root_uuid(s, blocks, uuid)
    }
}

/// Give the text of a schematic the UUID as its own, in place of the one that it
/// declares, or on a line of its own where it declares none.
pub fn replace_source_root_uuid(source: &str, blocks: &Vec<Block>, uuid: &str) -> (text: Result<
    String,
    String,
>)
    requires
        blocks_within(blocks@, source@.len()),
    ensures
        match text {
            Ok(out) => replacement_fault(source@, blocks@) is None && out@ == with_own_uuid(
                source@,
                blocks@,
                uuid@,
            ),
            Err(e) => replacement_fault(source@, blocks@) == Some(e@),
        },
{
    let i = match find_uuid_block(blocks) {
        Some(i) => i,
        None => {
            return insert_root_uuid(source, blocks, uuid);
        },
    };
    let start = blocks[i].start;
    let end = blocks[i].end;
    let chars = to_chars(source);
    let mut block = "(uuid \"".to_owned();
    block.append(uuid);
    block.append("\")");
    let mut out = slice_text(&chars, 0, start);
    out.append(block.as_str());
    out.append(slice_text(&chars, end, chars.len()).as_str());
    assert(source@.subrange(0, start as int) =~= source@.take(start as int));
    assert(source@.subrange(end as int, source@.len() as int) =~= source@.skip(end as int));
    Ok(out)
}

/// A new UUID, for a document that is to have one of its own.
pub fn fresh_uuid() -> (uuid: String)
    ensures
        is_v4_text(uuid@),
{
    new_uuid()
}

/// Putting a UUID in adds one line, which declares it, and leaves the rest of the
/// text as it was.
pub proof fn law_insertion_adds_one_line(s: Seq<char>, blocks: Seq<Block>, uuid: Seq<char>)
    requires
        blocks_within(blocks, s.len()),
        insertion_fault(s, blocks) is None,
    ensures
        ({
            let at = blocks[first_anchor(blocks, 0)->0].start as int;
            let start = line_start(s, at);
            let line = indent(s, at) + uuid_block(uuid) + "\n"@;
            let out = with_root_uuid(s, blocks, uuid);
            &&& 0 <= start <= s.len()
            &&& out == s.take(start) + line + s.skip(start)
            &&& out.take(start) + out.skip(start + line.len() as int) == s
            &&& occurs_at(out, uuid_block(uuid), start + indent(s, at).len())
            &&& all_blank(indent(s, at))
        }),
{
    lemma_first_anchor(blocks, 0);
    let at = blocks[first_anchor(blocks, 0)->0].start as int;
    lemma_line_start(s, at, at);
    let start = line_start(s, at);
    let line = indent(s, at) + uuid_block(uuid) + "\n"@;
    let out = with_root_uuid(s, blocks, uuid);
    reveal_strlit("\")");
    reveal_strlit("\n");
    reveal_strlit("\")\n");
    assert("\")\n"@ =~= "\")"@ + "\n"@);
    assert(indent(s, at) + "(uuid \""@ + uuid + "\")\n"@ =~= line);
    assert(out.take(start) + out.skip(start + line.len() as int) =~= s);
    let from = start + indent(s, at).len();
    assert(out.subrange(from, from + uuid_block(uuid).len()) =~= uuid_block(uuid));
}

proof fn lemma_first_anchor(blocks: Seq<Block>, from: int)
    requires
        0 <= from,
    ensures
        first_anchor(blocks, from) matches Some(i) ==> from <= i < blocks.len(),
    decreases blocks.len() - from,
{
    if from < blocks.len() && !is_anchor(blocks[from]) {
        lemma_first_anchor(blocks, from + 1);
    }
}

proof fn lemma_first_uuid_block(blocks: Seq<Block>, from: int)
    requires
        0 <= from,
    ensures
        first_uuid_block(blocks, from) matches Some(i) ==> from <= i < blocks.len(),
    decreases blocks.len() - from,
{
    if from < blocks.len() && !is_uuid_block(blocks[from]) {
        lemma_first_uuid_block(blocks, from + 1);
    }
}

/// Replacing the UUID changes only the text of its block.
pub proof fn law_replacement_changes_only_the_block(
    s: Seq<char>,
    blocks: Seq<Block>,
    uuid: Seq<char>,
)
    requires
        blocks_within(blocks, s.len()),
        first_uuid_block(blocks, 0) is Some,
    ensures
        ({
            let block = blocks[first_uuid_block(blocks, 0)->0];
            let out = with_replaced_uuid(s, blocks, uuid);
            let end = block.start + uuid_block(uuid).len();
            &&& out.take(block.start as int) == s.take(block.start as int)
            &&& out.subrange(block.start as int, end) == uuid_block(uuid)
            &&& out.skip(end) == s.skip(block.end as int)
        }),
{
    lemma_first_uuid_block(blocks, 0);
    let block = blocks[first_uuid_block(blocks, 0)->0];
    let out = with_replaced_uuid(s, blocks, uuid);
    let end = block.start + uuid_block(uuid).len();
    assert(out.take(block.start as int) =~= s.take(block.start as int));
    assert(out.subrange(block.start as int, end) =~= uuid_block(uuid));
    assert(out.skip(end) =~= s.skip(block.end as int));
}

} // verus!
