//! What is done to the text of a document and how an edit of it is checked, stated
//! over the text and the sheets themselves.

use crate::commit::{
    count_uuid, differs_text, document_fault, fault_applies, image_with, mutation_fault,
    next_action, still_there_text, with_fault, wrong_count_text, ActionView,
    CommitPhase, HierarchyProspectiveFault, ImageView, IntentView, ReadView,
};
use crate::refusal::RefusalView;
use crate::root_uuid::{
    all_blank, first_anchor, first_uuid_block, insertion_fault, line_start, line_start_before,
    replacement_fault, with_own_uuid, with_root_uuid, Block, BlockHead,
};
use crate::text::{
    first_char, first_match, last_match, lemma_first_char, lemma_first_char_is, lemma_first_match,
    lemma_first_match_is, lemma_last_match, occurs_at,
};
use crate::uuids::{
    closing_quote, declaration_mark, declared_names, distinct, lemma_renamed_segments, paired,
    pairing, renamed_document, renamed_segments, renamed_value,
};
use vstd::prelude::*;

verus! {

/// The sheet at `i` is the first of that UUID.
pub open spec fn is_first_image(images: Seq<ImageView>, uuid: Seq<char>, i: int) -> bool {
    &&& 0 <= i < images.len()
    &&& images[i].uuid == uuid
    &&& forall|j: int| 0 <= j < i ==> (#[trigger] images[j]).uuid != uuid
}

proof fn lemma_image_from(images: Seq<ImageView>, uuid: Seq<char>, from: int)
    requires
        0 <= from,
    ensures
        match image_with(images, uuid, from) {
            Some(i) => from <= i < images.len() && images[i].uuid == uuid && forall|j: int|
                from <= j < i ==> (#[trigger] images[j]).uuid != uuid,
            None => forall|j: int| from <= j < images.len() ==> (#[trigger] images[j]).uuid != uuid,
        },
    decreases images.len() - from,
{
    if from < images.len() && images[from].uuid != uuid {
        lemma_image_from(images, uuid, from + 1);
    }
}

/// The sheet that is found under a UUID is the first that has it.
pub proof fn law_first_image_is_found(images: Seq<ImageView>, uuid: Seq<char>, i: int)
    ensures
        image_with(images, uuid, 0) == Some(i) <==> is_first_image(images, uuid, i),
        image_with(images, uuid, 0) is None <==> forall|j: int|
            0 <= j < images.len() ==> (#[trigger] images[j]).uuid != uuid,
{
    lemma_image_from(images, uuid, 0);
    if is_first_image(images, uuid, i) {
        match image_with(images, uuid, 0) {
            Some(j) => {
                if j < i {
                    assert(images[j].uuid != uuid);
                }
                if i < j {
                    assert(images[i].uuid != uuid);
                }
            },
            None => {
                assert(images[i].uuid != uuid);
            },
        }
    }
}

/// One more sheet adds one to the count of a UUID where it has that UUID, and
/// nothing otherwise; without sheets the count is nothing.
pub proof fn law_each_sheet_is_counted(
    images: Seq<ImageView>,
    image: ImageView,
    uuid: Seq<char>,
)
    ensures
        count_uuid(seq![], uuid) == 0,
        count_uuid(images.push(image), uuid) == count_uuid(images, uuid) + if image.uuid == uuid {
            1int
        } else {
            0int
        },
{
    assert(images.push(image).drop_last() =~= images);
}

/// One sheet alone has the UUID: the one at `i`.
pub open spec fn is_only_image(images: Seq<ImageView>, uuid: Seq<char>, i: int) -> bool {
    &&& 0 <= i < images.len()
    &&& images[i].uuid == uuid
    &&& forall|j: int| 0 <= j < images.len() && j != i ==> (#[trigger] images[j]).uuid != uuid
}

proof fn lemma_count_none(images: Seq<ImageView>, uuid: Seq<char>)
    ensures
        count_uuid(images, uuid) == 0 <==> forall|j: int|
            0 <= j < images.len() ==> (#[trigger] images[j]).uuid != uuid,
    decreases images.len(),
{
    if images.len() > 0 {
        let shorter = images.drop_last();
        let last = images.len() - 1;
        lemma_count_none(shorter, uuid);
        if count_uuid(images, uuid) == 0 {
            assert forall|j: int| 0 <= j < images.len() implies (#[trigger] images[j]).uuid
                != uuid by {
                if j < last {
                    assert(shorter[j] == images[j]);
                }
            }
        } else if images[last].uuid != uuid {
            let k = choose|k: int| 0 <= k < shorter.len() && (#[trigger] shorter[k]).uuid == uuid;
            assert(images[k].uuid == uuid);
        }
    }
}

proof fn lemma_only_image_counts_one(images: Seq<ImageView>, uuid: Seq<char>, i: int)
    requires
        is_only_image(images, uuid, i),
    ensures
        count_uuid(images, uuid) == 1,
    decreases images.len(),
{
    let shorter = images.drop_last();
    let last = images.len() - 1;
    if i == last {
        assert forall|j: int| 0 <= j < shorter.len() implies (#[trigger] shorter[j]).uuid
            != uuid by {
            assert(images[j] == shorter[j]);
        }
        lemma_count_none(shorter, uuid);
    } else {
        assert(shorter[i] == images[i]);
        assert forall|j: int| 0 <= j < shorter.len() && j != i implies (#[trigger] shorter[j]).uuid
            != uuid by {
            assert(images[j] == shorter[j]);
        }
        lemma_only_image_counts_one(shorter, uuid, i);
        assert(images[last].uuid != uuid);
    }
}

proof fn lemma_one_counted_is_only(images: Seq<ImageView>, uuid: Seq<char>) -> (i: int)
    requires
        count_uuid(images, uuid) == 1,
    ensures
        is_only_image(images, uuid, i),
    decreases images.len(),
{
    let shorter = images.drop_last();
    let last = images.len() - 1;
    if images[last].uuid == uuid {
        lemma_count_none(shorter, uuid);
        assert forall|j: int| 0 <= j < images.len() && j != last implies (#[trigger] images[j]).uuid
            != uuid by {
            assert(shorter[j] == images[j]);
        }
        last
    } else {
        let i = lemma_one_counted_is_only(shorter, uuid);
        assert(images[i] == shorter[i]);
        assert forall|j: int| 0 <= j < images.len() && j != i implies (#[trigger] images[j]).uuid
            != uuid by {
            if j < last {
                assert(shorter[j] == images[j]);
            }
        }
        i
    }
}

/// An edit is found as intended exactly where one sheet alone has the UUID and
/// holds what is expected. Where one sheet alone has it and holds something else,
/// that is said; where none or several have it, how many do.
pub proof fn law_edit_is_checked_by_the_one_sheet(
    images: Seq<ImageView>,
    uuid: Seq<char>,
    expected: Seq<char>,
    phase: Seq<char>,
)
    ensures
        ({
            let fault = mutation_fault(images, IntentView::Present { uuid, expected }, phase);
            &&& fault is None <==> exists|i: int|
                #[trigger] is_only_image(images, uuid, i) && images[i].content == expected
            &&& fault is Some && (exists|i: int| is_only_image(images, uuid, i)) ==> fault == Some(
                differs_text(phase, uuid),
            )
            &&& (forall|i: int| !is_only_image(images, uuid, i)) ==> fault == Some(
                wrong_count_text(phase, count_uuid(images, uuid), uuid),
            )
        }),
{
    if count_uuid(images, uuid) == 1 {
        let i = lemma_one_counted_is_only(images, uuid);
        law_first_image_is_found(images, uuid, i);
        assert(image_with(images, uuid, 0) == Some(i));
        assert forall|k: int| #[trigger] is_only_image(images, uuid, k) implies k == i by {
            if k != i {
                assert(images[k].uuid != uuid);
            }
        }
    } else {
        assert forall|k: int| !#[trigger] is_only_image(images, uuid, k) by {
            if is_only_image(images, uuid, k) {
                lemma_only_image_counts_one(images, uuid, k);
            }
        }
    }
}

/// A deletion is found as intended exactly where no sheet has the UUID; else it is
/// said how many still have it.
pub proof fn law_deletion_is_checked_by_every_sheet(
    images: Seq<ImageView>,
    uuid: Seq<char>,
    phase: Seq<char>,
)
    ensures
        ({
            let fault = mutation_fault(images, IntentView::Absent { uuid }, phase);
            &&& fault is None <==> forall|i: int|
                0 <= i < images.len() ==> (#[trigger] images[i]).uuid != uuid
            &&& fault is Some ==> fault == Some(
                still_there_text(phase, count_uuid(images, uuid), uuid),
            )
        }),
{
    lemma_count_none(images, uuid);
}

/// A commit writes where the edited document was read and is as intended, and
/// finishes where the document read back is. Otherwise it is refused for the file
/// at hand and for the fault that was found: before writing, with a message that
/// ends in the fault; after writing, with the operation that was carried out. A
/// document that could not be read is never as intended.
pub proof fn law_commit_goes_on_only_as_intended(
    path: Seq<char>,
    operation: Seq<char>,
    intent: IntentView,
    document: ReadView,
)
    ensures
        ({
            let first = next_action(CommitPhase::Prospective, path, operation, intent, document);
            let fault = document_fault(CommitPhase::Prospective, intent, document);
            &&& first is Write <==> fault is None
            &&& fault is Some ==> (first matches ActionView::Refuse(refusal) && (refusal matches
                RefusalView::StaleTarget { target, reason, message } && target == path && reason
                == fault->0 && message
                == "Prospective hierarchy validation failed; nothing was written. "@ + fault->0))
        }),
        ({
            let last = next_action(CommitPhase::PostCommit, path, operation, intent, document);
            let fault = document_fault(CommitPhase::PostCommit, intent, document);
            &&& last is Finish <==> fault is None
            &&& fault is Some ==> (last matches ActionView::Refuse(refusal) && (refusal matches
                RefusalView::OutcomeUncertain { target, operation: done, reason } && target
                == path && done == operation && reason == fault->0))
        }),
        document matches ReadView::Unreadable(error) ==> document_fault(
            CommitPhase::Prospective,
            intent,
            document,
        ) == Some("prospective schematic is not readable: "@ + error) && document_fault(
            CommitPhase::PostCommit,
            intent,
            document,
        ) == Some("The committed schematic could not be loaded: "@ + error),
        document matches ReadView::Sheets(images) ==> (document_fault(
            CommitPhase::Prospective,
            intent,
            document,
        ) == mutation_fault(images, intent, "prospective"@) && document_fault(
            CommitPhase::PostCommit,
            intent,
            document,
        ) == mutation_fault(images, intent, "post-commit"@)),
{
}

/// A text stands in another at a place where it is found there letter by letter;
/// the first place and the last are those that no other comes before or after.
pub proof fn law_text_is_found_letter_by_letter(s: Seq<char>, pat: Seq<char>, i: int)
    ensures
        occurs_at(s, pat, i) <==> 0 <= i && i + pat.len() <= s.len() && forall|j: int|
            0 <= j < pat.len() ==> s[i + j] == #[trigger] pat[j],
        first_match(s, pat, 0) == Some(i) ==> occurs_at(s, pat, i) && forall|j: int|
            0 <= j < i ==> !occurs_at(s, pat, j),
        first_match(s, pat, 0) is None ==> !occurs_at(s, pat, i),
        last_match(s, pat, s.len() as int) == Some(i) ==> occurs_at(s, pat, i) && forall|j: int|
            i < j <= s.len() ==> !occurs_at(s, pat, j),
        last_match(s, pat, s.len() as int) is None ==> !occurs_at(s, pat, i),
{
    lemma_first_match(s, pat, 0);
    lemma_last_match(s, pat, s.len() as int);
    if 0 <= i && i + pat.len() <= s.len() {
        let part = s.subrange(i, i + pat.len());
        if forall|j: int| 0 <= j < pat.len() ==> s[i + j] == #[trigger] pat[j] {
            assert(part =~= pat);
        }
        if part == pat {
            assert forall|j: int| 0 <= j < pat.len() implies s[i + j] == #[trigger] pat[j] by {
                assert(part[j] == pat[j]);
            }
        }
    }
}

/// A fault that replaces puts its text in place of the first occurrence of the
/// other; one that restores a sheet puts it, after a line break, before the last
/// line that closes the document; without a fault the text stays.
pub proof fn law_fault_is_put_in_its_place(
    source: Seq<char>,
    fault: HierarchyProspectiveFault,
    at: int,
)
    ensures
        with_fault(source, None) == source,
        fault matches HierarchyProspectiveFault::Replace { from, to } ==> {
            &&& fault_applies(source, Some(fault)) <==> exists|j: int|
                0 <= j && occurs_at(source, from@, j)
            &&& occurs_at(source, from@, at) && (forall|j: int|
                0 <= j < at ==> !occurs_at(source, from@, j)) ==> with_fault(source, Some(fault))
                == source.take(at) + to@ + source.skip(at + from@.len())
        },
        fault matches HierarchyProspectiveFault::RestoreDeletedSheet(sheet) ==> {
            &&& fault_applies(source, Some(fault)) <==> exists|j: int|
                j <= source.len() && occurs_at(source, "\n)"@, j)
            &&& occurs_at(source, "\n)"@, at) && (forall|j: int|
                at < j <= source.len() ==> !occurs_at(source, "\n)"@, j)) ==> with_fault(
                source,
                Some(fault),
            ) == source.take(at) + "\n"@ + sheet@ + source.skip(at)
        },
{
    match fault {
        HierarchyProspectiveFault::Replace { from, to } => {
            lemma_first_match(source, from@, 0);
            if occurs_at(source, from@, at) && (forall|j: int|
                0 <= j < at ==> !occurs_at(source, from@, j)) {
                lemma_first_match_is(source, from@, 0, at);
            }
        },
        HierarchyProspectiveFault::RestoreDeletedSheet(sheet) => {
            let end = source.len() as int;
            lemma_last_match(source, "\n)"@, end);
            if occurs_at(source, "\n)"@, at) && (forall|j: int|
                at < j <= source.len() ==> !occurs_at(source, "\n)"@, j)) {
                let found = last_match(source, "\n)"@, end);
                assert(at <= end);
                if let Some(k) = found {
                    if k < at {
                        assert(!occurs_at(source, "\n)"@, at));
                    }
                }
            }
        },
    }
}

/// A UUID may be put before the block: it can be read, and is not about the
/// version or the generator of the file.
pub open spec fn may_follow_uuid(block: Block) -> bool {
    match block.head {
        BlockHead::Unreadable => false,
        BlockHead::Unnamed => true,
        BlockHead::Named(word) => !seq!["version"@, "generator"@, "generator_version"@].contains(
            word@,
        ),
    }
}

/// The block at `i` is the first before which a UUID may be put.
pub open spec fn is_first_place(blocks: Seq<Block>, i: int) -> bool {
    &&& 0 <= i < blocks.len()
    &&& may_follow_uuid(blocks[i])
    &&& forall|j: int| 0 <= j < i ==> !may_follow_uuid(#[trigger] blocks[j])
}

/// The block at `i` is the first that declares a UUID.
pub open spec fn is_first_declaration(blocks: Seq<Block>, i: int) -> bool {
    let declares = |block: Block| block.head matches BlockHead::Named(word) && word@ == "uuid"@;
    &&& 0 <= i < blocks.len()
    &&& declares(blocks[i])
    &&& forall|j: int| 0 <= j < i ==> !declares(#[trigger] blocks[j])
}

proof fn lemma_place(blocks: Seq<Block>, from: int)
    requires
        0 <= from,
    ensures
        match first_anchor(blocks, from) {
            Some(i) => from <= i < blocks.len() && may_follow_uuid(blocks[i]) && forall|j: int|
                from <= j < i ==> !may_follow_uuid(#[trigger] blocks[j]),
            None => forall|j: int|
                from <= j < blocks.len() ==> !may_follow_uuid(#[trigger] blocks[j]),
        },
    decreases blocks.len() - from,
{
    let others = seq!["version"@, "generator"@, "generator_version"@];
    assert(others[0] == "version"@ && others[1] == "generator"@ && others[2]
        == "generator_version"@);
    if from < blocks.len() && !may_follow_uuid(blocks[from]) {
        lemma_place(blocks, from + 1);
    }
}

proof fn lemma_declaration(blocks: Seq<Block>, from: int)
    requires
        0 <= from,
    ensures
        ({
            let declares = |block: Block|
                block.head matches BlockHead::Named(word) && word@ == "uuid"@;
            match first_uuid_block(blocks, from) {
                Some(i) => from <= i < blocks.len() && declares(blocks[i]) && forall|j: int|
                    from <= j < i ==> !declares(#[trigger] blocks[j]),
                None => forall|j: int|
                    from <= j < blocks.len() ==> !declares(#[trigger] blocks[j]),
            }
        }),
    decreases blocks.len() - from,
{
    let declares = |block: Block| block.head matches BlockHead::Named(word) && word@ == "uuid"@;
    if from < blocks.len() && !declares(blocks[from]) {
        lemma_declaration(blocks, from + 1);
    }
}

/// The line on which `at` stands begins at `start`: right after the last line
/// break before `at`, or, where there is none, at `at` itself.
pub open spec fn line_begins(s: Seq<char>, at: int, start: int) -> bool {
    &&& 0 <= start <= at <= s.len()
    &&& forall|j: int| start <= j < at ==> s[j] != '\n'
    &&& (start > 0 && s[start - 1] == '\n') || (start == at && forall|j: int|
        0 <= j < at ==> s[j] != '\n')
}

proof fn lemma_line_begins(s: Seq<char>, at: int, from: int, start: int)
    requires
        0 <= from <= at <= s.len(),
        line_begins(s, at, start),
        forall|j: int| from <= j < at ==> s[j] != '\n',
    ensures
        line_start_before(s, at, from) == start,
    decreases from,
{
    if from > 0 {
        if s[from - 1] == '\n' {
            if start < from {
                assert(s[from - 1] != '\n');
            } else if start > from {
                if start == at {
                    assert(s[start - 1] == '\n');
                }
                assert(s[start - 1] != '\n');
            }
        } else {
            lemma_line_begins(s, at, from - 1, start);
        }
    } else if start > 0 && s[start - 1] == '\n' {
        assert(s[start - 1] != '\n');
    }
}

/// A UUID is put in before the first block that it may go before, on a line of its
/// own that is indented as the line of that block is. That is refused where there
/// is no such block, or where something else stands before it on its line.
pub proof fn law_uuid_goes_before_the_first_block(
    s: Seq<char>,
    blocks: Seq<Block>,
    uuid: Seq<char>,
    i: int,
    start: int,
)
    ensures
        insertion_fault(s, blocks) == Some("parent schematic has no UUID insertion anchor"@) || (
        exists|k: int| #[trigger] is_first_place(blocks, k)),
        is_first_place(blocks, i) && line_begins(s, blocks[i].start as int, start) ==> {
            let lead = s.subrange(start, blocks[i].start as int);
            &&& insertion_fault(s, blocks) is None <==> all_blank(lead)
            &&& insertion_fault(s, blocks) is Some ==> insertion_fault(s, blocks) == Some(
                "parent schematic metadata is not line-oriented"@,
            )
            &&& with_root_uuid(s, blocks, uuid) == s.take(start) + (lead + "(uuid \""@ + uuid
                + "\")\n"@) + s.skip(start)
        },
{
    lemma_place(blocks, 0);
    if let Some(k) = first_anchor(blocks, 0) {
        assert(is_first_place(blocks, k));
        if is_first_place(blocks, i) && line_begins(s, blocks[i].start as int, start) {
            if k < i {
                assert(!may_follow_uuid(blocks[k]));
            }
            if i < k {
                assert(!may_follow_uuid(blocks[i]));
            }
            lemma_line_begins(s, blocks[i].start as int, blocks[i].start as int, start);
            assert(line_start(s, blocks[i].start as int) == start);
        }
    } else if is_first_place(blocks, i) {
        assert(!may_follow_uuid(blocks[i]));
    }
}

/// A document that declares a UUID gets another in the place of its first
/// declaration, from its beginning to its end; one that declares none has it put
/// in.
pub proof fn law_uuid_replaces_the_first_declaration(
    s: Seq<char>,
    blocks: Seq<Block>,
    uuid: Seq<char>,
    i: int,
)
    ensures
        is_first_declaration(blocks, i) ==> replacement_fault(s, blocks) is None && with_own_uuid(
            s,
            blocks,
            uuid,
        ) == s.take(blocks[i].start as int) + ("(uuid \""@ + uuid + "\")"@) + s.skip(
            blocks[i].end as int,
        ),
        (forall|k: int| !is_first_declaration(blocks, k)) ==> replacement_fault(s, blocks)
            == insertion_fault(s, blocks) && with_own_uuid(s, blocks, uuid) == with_root_uuid(
            s,
            blocks,
            uuid,
        ),
{
    lemma_declaration(blocks, 0);
    let declares = |block: Block| block.head matches BlockHead::Named(word) && word@ == "uuid"@;
    if let Some(k) = first_uuid_block(blocks, 0) {
        assert(is_first_declaration(blocks, k));
        if is_first_declaration(blocks, i) {
            if k < i {
                assert(!declares(blocks[k]));
            }
            if i < k {
                assert(!declares(blocks[i]));
            }
        }
    } else if is_first_declaration(blocks, i) {
        assert(!declares(blocks[i]));
    }
}

/// Where the text before it opens no bracket, the first declaration of a document
/// declares the text up to the next quote, unless that is empty; what the rest
/// declares comes after it. A text that opens no bracket declares nothing.
pub proof fn law_declaration_declares_its_name(
    before: Seq<char>,
    name: Seq<char>,
    rest: Seq<char>,
)
    requires
        !before.contains('('),
        !name.contains('"'),
    ensures
        declared_names(before).len() == 0,
        ({
            let mark = seq!['(', 'u', 'u', 'i', 'd', ' ', '"'];
            let after = seq!['"'] + rest;
            declared_names(before + mark + name + after) == (if name.len() == 0 {
                declared_names(after)
            } else {
                seq![name] + declared_names(after)
            })
        }),
{
    let mark = declaration_mark();
    let after = seq!['"'] + rest;
    let s = before + mark + name + after;
    let at = before.len() as int;
    lemma_no_mark(before);
    lemma_first_match(before, mark, 0);
    assert(s.subrange(at, at + 7) =~= mark);
    assert forall|j: int| 0 <= j < at implies !occurs_at(s, mark, j) by {
        if occurs_at(s, mark, j) {
            assert(s.subrange(j, j + 7)[0] == '(');
            assert(before[j] == '(');
            assert(before.contains('('));
        }
    }
    lemma_first_match_is(s, mark, 0, at);
    let body = s.skip(at + 7);
    assert(body =~= name + after);
    let end = name.len() as int;
    assert forall|j: int| 0 <= j < end implies body[j] != '"' by {
        if body[j] == '"' {
            assert(name[j] == '"');
            assert(name.contains('"'));
        }
    }
    lemma_first_char_is(body, '"', 0, end);
    assert(body.take(end) =~= name);
    assert(body.skip(end) =~= after);
}

proof fn lemma_no_mark(s: Seq<char>)
    requires
        !s.contains('('),
    ensures
        first_match(s, declaration_mark(), 0) is None,
{
    lemma_first_match(s, declaration_mark(), 0);
    if let Some(j) = first_match(s, declaration_mark(), 0) {
        assert(s.subrange(j, j + 7)[0] == '(');
        assert(s[j] == '(');
    }
}

/// A string ends at the first quote that no backslash stands before: a quote ends
/// it, a backslash takes the next character along, and any other character is
/// passed over.
pub proof fn law_string_ends_at_its_quote(c: char, s: Seq<char>)
    ensures
        closing_quote(seq![]) is None,
        closing_quote(seq!['"'] + s) == Some(0int),
        closing_quote(seq!['\\', c] + s) == (match closing_quote(s) {
            Some(k) => Some(k + 2),
            None => None,
        }),
        c != '"' && c != '\\' ==> closing_quote(seq![c] + s) == (match closing_quote(s) {
            Some(k) => Some(k + 1),
            None => None,
        }),
{
    assert((seq!['\\', c] + s).skip(2) =~= s);
    assert((seq![c] + s).skip(1) =~= s);
}

/// A document is renamed string by string: the text before its first string stays,
/// the string is renamed, and so is what follows. A document without quotes stays
/// as it is.
pub proof fn law_document_is_renamed_string_by_string(
    before: Seq<char>,
    content: Seq<char>,
    rest: Seq<char>,
    renaming: Map<Seq<char>, Seq<char>>,
)
    requires
        !before.contains('"'),
        closing_quote(content + seq!['"'] + rest) == Some(content.len() as int),
    ensures
        renamed_document(before, renaming) == before,
        renamed_document(before + seq!['"'] + content + seq!['"'] + rest, renaming) == before
            + seq!['"'] + renamed_value(content, renaming) + seq!['"'] + renamed_document(
            rest,
            renaming,
        ),
{
    let s = before + seq!['"'] + content + seq!['"'] + rest;
    let at = before.len() as int;
    lemma_first_char(before, '"', 0);
    assert forall|j: int| 0 <= j < at implies s[j] != '"' by {
        if s[j] == '"' {
            assert(before[j] == '"');
            assert(before.contains('"'));
        }
    }
    lemma_first_char_is(s, '"', 0, at);
    let body = s.skip(at + 1);
    let end = content.len() as int;
    assert(body =~= content + seq!['"'] + rest);
    assert(body.take(end) =~= content);
    assert(body.skip(end + 1) =~= rest);
    assert(s.take(at + 1) =~= before + seq!['"']);
}

/// A string that is a renamed name takes the new name. Of any other string each
/// segment between slashes that is a renamed name does, and the others stay.
pub proof fn law_string_takes_the_new_names(
    value: Seq<char>,
    head: Seq<char>,
    rest: Seq<char>,
    renaming: Map<Seq<char>, Seq<char>>,
)
    requires
        !head.contains('/'),
    ensures
        renaming.contains_key(value) ==> renamed_value(value, renaming) == renaming[value],
        !renaming.contains_key(value) ==> renamed_value(value, renaming) == renamed_segments(
            value,
            renaming,
        ),
        ({
            let named = if renaming.contains_key(head) {
                renaming[head]
            } else {
                head
            };
            &&& renamed_segments(head, renaming) == named
            &&& renamed_segments(head + seq!['/'] + rest, renaming) == named + seq!['/']
                + renamed_segments(rest, renaming)
        }),
{
    let s = head + seq!['/'] + rest;
    let at = head.len() as int;
    lemma_first_char(head, '/', 0);
    assert forall|j: int| 0 <= j < at implies s[j] != '/' by {
        if s[j] == '/' {
            assert(head[j] == '/');
            assert(head.contains('/'));
        }
    }
    lemma_first_char_is(s, '/', 0, at);
    lemma_renamed_segments(head, renaming);
    lemma_renamed_segments(s, renaming);
    if let Some(j) = first_char(head, '/', 0) {
        assert(head[j] == '/');
    }
    assert(s.take(at) =~= head);
    assert(s.skip(at + 1) =~= rest);
}

/// One more name comes last among the different names where it is new, and changes
/// nothing where it is not.
pub proof fn law_new_names_come_last(names: Seq<Seq<char>>, name: Seq<char>)
    ensures
        distinct(seq![]).len() == 0,
        distinct(names.push(name)) == (if names.contains(name) {
            distinct(names)
        } else {
            distinct(names).push(name)
        }),
{
    assert(names.push(name).drop_last() =~= names);
    lemma_distinct_members(names, name);
}

proof fn lemma_distinct_members(names: Seq<Seq<char>>, name: Seq<char>)
    ensures
        distinct(names).contains(name) <==> names.contains(name),
    decreases names.len(),
{
    if names.len() > 0 {
        let shorter = names.drop_last();
        let last = names.last();
        let before = distinct(shorter);
        let all = distinct(names);
        lemma_distinct_members(shorter, name);
        lemma_distinct_members(shorter, last);
        assert(names[names.len() - 1] == last);
        if names.contains(name) && name != last {
            let i = choose|i: int| 0 <= i < names.len() && names[i] == name;
            assert(shorter[i] == name);
        }
        if shorter.contains(name) {
            let i = choose|i: int| 0 <= i < shorter.len() && shorter[i] == name;
            assert(names[i] == name);
        }
        if !before.contains(last) {
            assert(all == before.push(last));
            assert(all[before.len() as int] == last);
            if before.contains(name) {
                let i = choose|i: int| 0 <= i < before.len() && before[i] == name;
                assert(all[i] == name);
            }
            if all.contains(name) && name != last {
                let i = choose|i: int| 0 <= i < all.len() && all[i] == name;
                assert(before[i] == name);
            }
        }
    }
}

/// One more draw goes to the next name that has none yet, and to nothing where
/// every name has one; without draws nothing is renamed.
pub proof fn law_next_draw_goes_to_the_next_name(
    names: Seq<Seq<char>>,
    draws: Seq<Seq<char>>,
    draw: Seq<char>,
)
    ensures
        pairing(names, seq![]) == Map::<Seq<char>, Seq<char>>::empty(),
        pairing(names, draws.push(draw)) == (if draws.len() < distinct(names).len() {
            pairing(names, draws).insert(distinct(names)[draws.len() as int], draw)
        } else {
            pairing(names, draws)
        }),
{
    let keys = distinct(names);
    let count = if keys.len() <= draws.len() {
        keys.len()
    } else {
        draws.len()
    };
    lemma_paired_prefix(keys, draws, draws.push(draw), count);
}

proof fn lemma_paired_prefix(
    keys: Seq<Seq<char>>,
    a: Seq<Seq<char>>,
    b: Seq<Seq<char>>,
    n: nat,
)
    requires
        n <= a.len() <= b.len(),
        forall|i: int| 0 <= i < n ==> a[i] == b[i],
    ensures
        paired(keys, a, n) == paired(keys, b, n),
    decreases n,
{
    if n > 0 {
        lemma_paired_prefix(keys, a, b, (n - 1) as nat);
    }
}

} // verus!
