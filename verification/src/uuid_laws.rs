//! What giving a document new identities does to the document as a whole.

use crate::text::{
    first_char, first_match, lemma_first_char, lemma_first_char_is, lemma_first_match,
    lemma_first_match_is, lemma_first_match_skip, occurs_at, split,
};
use crate::uuids::{
    are_v4_texts, closing_quote, declaration_mark, declared_names, distinct, is_hex_digit,
    is_v4_text, lemma_closing_quote, lemma_renamed_segments, lemma_segments_unchanged, paired,
    pairing, renamed, renamed_document, renamed_segments, renamed_value, renames_afresh,
};
use vstd::prelude::*;

verus! {

/// The contents of the quoted strings of `s`, in order.
pub open spec fn strings(s: Seq<char>) -> Seq<Seq<char>>
    decreases s.len(),
{
    match first_char(s, '"', 0) {
        Some(at) => {
            proof {
                lemma_first_char(s, '"', 0);
            }
            let body = s.skip(at + 1);
            match closing_quote(body) {
                Some(end) => {
                    proof {
                        lemma_closing_quote(body);
                    }
                    seq![body.take(end)] + strings(body.skip(end + 1))
                },
                None => seq![],
            }
        },
        None => seq![],
    }
}

/// The texts of `s` between its quoted strings, in order, with the text after
/// the last one at the end.
pub open spec fn outside(s: Seq<char>) -> Seq<Seq<char>>
    decreases s.len(),
{
    match first_char(s, '"', 0) {
        Some(at) => {
            proof {
                lemma_first_char(s, '"', 0);
            }
            let body = s.skip(at + 1);
            match closing_quote(body) {
                Some(end) => {
                    proof {
                        lemma_closing_quote(body);
                    }
                    seq![s.take(at)] + outside(body.skip(end + 1))
                },
                None => seq![s],
            }
        },
        None => seq![s],
    }
}

/// Text that stands for itself inside a quoted string and inside a path: it is
/// not empty and holds no quote, backslash, slash or bracket.
pub open spec fn is_plain(name: Seq<char>) -> bool {
    &&& name.len() > 0
    &&& forall|i: int|
        0 <= i < name.len() ==> {
            &&& #[trigger] name[i] != '"'
            &&& name[i] != '\\'
            &&& name[i] != '/'
            &&& name[i] != '('
        }
}

/// Every new name is plain text.
pub open spec fn renames_to_plain(renaming: Map<Seq<char>, Seq<char>>) -> bool {
    forall|name: Seq<char>| renaming.contains_key(name) ==> is_plain(#[trigger] renaming[name])
}

/// The text of a version 4 UUID is plain.
pub proof fn lemma_v4_text_is_plain(name: Seq<char>)
    requires
        is_v4_text(name),
    ensures
        is_plain(name),
{
    assert forall|i: int| 0 <= i < name.len() implies {
        &&& #[trigger] name[i] != '"'
        &&& name[i] != '\\'
        &&& name[i] != '/'
        &&& name[i] != '('
    } by {
        if i != 8 && i != 13 && i != 18 && i != 23 {
            assert(is_hex_digit(name[i]));
        }
    }
}

/// Each quote in `v` is escaped, and no escape is left open at its end.
spec fn well_escaped(v: Seq<char>) -> bool
    decreases v.len(),
{
    if v.len() == 0 {
        true
    } else if v[0] == '"' {
        false
    } else if v[0] == '\\' {
        v.len() >= 2 && well_escaped(v.skip(2))
    } else {
        well_escaped(v.skip(1))
    }
}

proof fn lemma_content_well_escaped(s: Seq<char>)
    ensures
        closing_quote(s) matches Some(k) ==> 0 <= k < s.len() && well_escaped(s.take(k)),
    decreases s.len(),
{
    lemma_closing_quote(s);
    if let Some(k) = closing_quote(s) {
        if s[0] == '"' {
        } else if s[0] == '\\' {
            lemma_content_well_escaped(s.skip(2));
            assert(s.take(k).skip(2) =~= s.skip(2).take(k - 2));
        } else {
            lemma_content_well_escaped(s.skip(1));
            assert(s.take(k).skip(1) =~= s.skip(1).take(k - 1));
        }
    }
}

proof fn lemma_closes_after(v: Seq<char>, rest: Seq<char>)
    requires
        well_escaped(v),
    ensures
        closing_quote(v + seq!['"'] + rest) == Some(v.len() as int),
    decreases v.len(),
{
    let s = v + seq!['"'] + rest;
    if v.len() == 0 {
        assert(s[0] == '"');
    } else if v[0] == '\\' {
        lemma_closes_after(v.skip(2), rest);
        assert(s.skip(2) =~= v.skip(2) + seq!['"'] + rest);
    } else {
        lemma_closes_after(v.skip(1), rest);
        assert(s.skip(1) =~= v.skip(1) + seq!['"'] + rest);
    }
}

/// After a slash the scan of a string is never inside an escape, so what follows
/// may be exchanged.
proof fn lemma_exchange_after_slash(head: Seq<char>, old_rest: Seq<char>, new_rest: Seq<char>)
    requires
        well_escaped(head + seq!['/'] + old_rest),
        well_escaped(new_rest),
    ensures
        well_escaped(old_rest),
        well_escaped(head + seq!['/'] + new_rest),
    decreases head.len(),
{
    let a = head + seq!['/'] + old_rest;
    let b = head + seq!['/'] + new_rest;
    if head.len() == 0 {
        assert(a.skip(1) =~= old_rest);
        assert(b.skip(1) =~= new_rest);
    } else if head[0] == '\\' {
        if head.len() == 1 {
            assert(a.skip(2) =~= old_rest);
            assert(b.skip(2) =~= new_rest);
        } else {
            assert(a.skip(2) =~= head.skip(2) + seq!['/'] + old_rest);
            assert(b.skip(2) =~= head.skip(2) + seq!['/'] + new_rest);
            lemma_exchange_after_slash(head.skip(2), old_rest, new_rest);
        }
    } else {
        assert(a.skip(1) =~= head.skip(1) + seq!['/'] + old_rest);
        assert(b.skip(1) =~= head.skip(1) + seq!['/'] + new_rest);
        lemma_exchange_after_slash(head.skip(1), old_rest, new_rest);
    }
}

proof fn lemma_plain_prefix(name: Seq<char>, rest: Seq<char>)
    requires
        forall|i: int| 0 <= i < name.len() ==> #[trigger] name[i] != '"' && name[i] != '\\',
        well_escaped(rest),
    ensures
        well_escaped(name + rest),
    decreases name.len(),
{
    if name.len() == 0 {
        assert(name + rest =~= rest);
    } else {
        assert((name + rest)[0] == name[0]);
        assert forall|i: int| 0 <= i < name.skip(1).len() implies #[trigger] name.skip(1)[i] != '"'
            && name.skip(1)[i] != '\\' by {
            assert(name[i + 1] != '"');
        }
        lemma_plain_prefix(name.skip(1), rest);
        assert((name + rest).skip(1) =~= name.skip(1) + rest);
    }
}

proof fn lemma_renamed_segments_well_escaped(
    v: Seq<char>,
    renaming: Map<Seq<char>, Seq<char>>,
)
    requires
        well_escaped(v),
        renames_to_plain(renaming),
    ensures
        well_escaped(renamed_segments(v, renaming)),
    decreases v.len(),
{
    lemma_renamed_segments(v, renaming);
    lemma_first_char(v, '/', 0);
    match first_char(v, '/', 0) {
        Some(k) => {
            let head = v.take(k);
            let rest = v.skip(k + 1);
            assert(v =~= head + seq!['/'] + rest);
            lemma_exchange_after_slash(head, rest, Seq::<char>::empty());
            lemma_renamed_segments_well_escaped(rest, renaming);
            let new_rest = renamed_segments(rest, renaming);
            lemma_exchange_after_slash(head, rest, new_rest);
            if renaming.contains_key(head) {
                let name = renaming[head];
                assert(is_plain(name));
                assert((seq!['/'] + new_rest).skip(1) =~= new_rest);
                assert(well_escaped(seq!['/'] + new_rest));
                lemma_plain_prefix(name, seq!['/'] + new_rest);
                assert(name + seq!['/'] + new_rest =~= name + (seq!['/'] + new_rest));
            }
        },
        None => {
            if renaming.contains_key(v) {
                lemma_plain_well_escaped(renaming[v]);
            }
        },
    }
}

proof fn lemma_plain_well_escaped(name: Seq<char>)
    requires
        is_plain(name),
    ensures
        well_escaped(name),
{
    lemma_plain_prefix(name, Seq::<char>::empty());
    assert(name + Seq::<char>::empty() =~= name);
}

proof fn lemma_renamed_value_well_escaped(v: Seq<char>, renaming: Map<Seq<char>, Seq<char>>)
    requires
        well_escaped(v),
        renames_to_plain(renaming),
    ensures
        well_escaped(renamed_value(v, renaming)),
{
    if renaming.contains_key(v) {
        assert(is_plain(renaming[v]));
        lemma_plain_well_escaped(renaming[v]);
    } else {
        lemma_renamed_segments_well_escaped(v, renaming);
    }
}

/// The first string of a renamed document: it opens where the first string of
/// the document opens, its content is the renamed content, and what follows it
/// is the rest of the document, renamed.
proof fn lemma_renamed_walk(
    s: Seq<char>,
    renaming: Map<Seq<char>, Seq<char>>,
    at: int,
    end: int,
)
    requires
        renames_to_plain(renaming),
        first_char(s, '"', 0) == Some(at),
        closing_quote(s.skip(at + 1)) == Some(end),
    ensures
        ({
            let out = renamed_document(s, renaming);
            let body = s.skip(at + 1);
            let w = renamed_value(body.take(end), renaming);
            let out_body = out.skip(at + 1);
            &&& 0 <= at < s.len()
            &&& 0 <= end < body.len()
            &&& well_escaped(body.take(end))
            &&& well_escaped(w)
            &&& first_char(out, '"', 0) == Some(at)
            &&& at < out.len()
            &&& out.take(at) == s.take(at)
            &&& closing_quote(out_body) == Some(w.len() as int)
            &&& w.len() < out_body.len()
            &&& out_body.take(w.len() as int) == w
            &&& out_body.skip(w.len() as int + 1) == renamed_document(body.skip(end + 1), renaming)
        }),
{
    let out = renamed_document(s, renaming);
    let body = s.skip(at + 1);
    lemma_first_char(s, '"', 0);
    lemma_closing_quote(body);
    lemma_content_well_escaped(body);
    let w = renamed_value(body.take(end), renaming);
    lemma_renamed_value_well_escaped(body.take(end), renaming);
    let tail = renamed_document(body.skip(end + 1), renaming);
    assert(out == s.take(at + 1) + w + seq!['"'] + tail);
    assert(out.take(at) =~= s.take(at));
    assert forall|j: int| 0 <= j < at implies out[j] != '"' by {
        assert(out[j] == s[j]);
    }
    lemma_first_char_is(out, '"', 0, at);
    let out_body = out.skip(at + 1);
    assert(out_body =~= w + seq!['"'] + tail);
    lemma_closes_after(w, tail);
    assert(out_body.take(w.len() as int) =~= w);
    assert(out_body.skip(w.len() as int + 1) =~= tail);
}

/// Renaming touches the contents of quoted strings and nothing else: the texts
/// between the strings stay as they are, and the strings of the result are the
/// strings of the document, each renamed.
pub proof fn law_only_quoted_strings_change(
    s: Seq<char>,
    renaming: Map<Seq<char>, Seq<char>>,
)
    requires
        renames_to_plain(renaming),
    ensures
        outside(renamed_document(s, renaming)) == outside(s),
        strings(renamed_document(s, renaming)) == strings(s).map_values(
            |content: Seq<char>| renamed_value(content, renaming),
        ),
    decreases s.len(),
{
    let f = |content: Seq<char>| renamed_value(content, renaming);
    lemma_first_char(s, '"', 0);
    if let Some(at) = first_char(s, '"', 0) {
        let body = s.skip(at + 1);
        lemma_closing_quote(body);
        if let Some(end) = closing_quote(body) {
            lemma_renamed_walk(s, renaming, at, end);
            law_only_quoted_strings_change(body.skip(end + 1), renaming);
            let rest = strings(body.skip(end + 1));
            assert((seq![body.take(end)] + rest).map_values(f) =~= seq![f(body.take(end))]
                + rest.map_values(f));
        } else {
            assert(strings(s).map_values(f) =~= strings(s));
        }
    } else {
        assert(strings(s).map_values(f) =~= strings(s));
    }
}

/// A string is left verbatim where neither it nor any of its path segments is a
/// renamed name, even if it holds one as part of a longer word.
pub proof fn law_other_strings_stay_verbatim(
    value: Seq<char>,
    renaming: Map<Seq<char>, Seq<char>>,
)
    requires
        !renaming.contains_key(value),
        forall|k: int|
            #![trigger split(value, '/')[k]]
            0 <= k < split(value, '/').len() ==> !renaming.contains_key(split(value, '/')[k]),
    ensures
        renamed_value(value, renaming) == value,
{
    lemma_segments_unchanged(value, renaming);
}

/// The segments of a renamed path are the segments of the path, each renamed, so
/// a path that names a renamed item follows it.
pub proof fn law_path_segments_follow(value: Seq<char>, renaming: Map<Seq<char>, Seq<char>>)
    requires
        renames_to_plain(renaming),
        !renaming.contains_key(value),
    ensures
        split(renamed_value(value, renaming), '/') == split(value, '/').map_values(
            |segment: Seq<char>| renamed(segment, renaming),
        ),
{
    lemma_split_renamed_segments(value, renaming);
}

proof fn lemma_split_renamed_segments(value: Seq<char>, renaming: Map<Seq<char>, Seq<char>>)
    requires
        renames_to_plain(renaming),
    ensures
        split(renamed_segments(value, renaming), '/') == split(value, '/').map_values(
            |segment: Seq<char>| renamed(segment, renaming),
        ),
    decreases value.len(),
{
    let f = |segment: Seq<char>| renamed(segment, renaming);
    lemma_renamed_segments(value, renaming);
    lemma_first_char(value, '/', 0);
    match first_char(value, '/', 0) {
        Some(k) => {
            let head = value.take(k);
            let rest = value.skip(k + 1);
            lemma_split_renamed_segments(rest, renaming);
            let new_head = renamed(head, renaming);
            let new_rest = renamed_segments(rest, renaming);
            let out = new_head + seq!['/'] + new_rest;
            if renaming.contains_key(head) {
                assert(is_plain(renaming[head]));
            }
            assert forall|j: int| 0 <= j < new_head.len() implies out[j] != '/' by {
                assert(out[j] == new_head[j]);
            }
            lemma_first_char_is(out, '/', 0, new_head.len() as int);
            assert(out.take(new_head.len() as int) =~= new_head);
            assert(out.skip(new_head.len() as int + 1) =~= new_rest);
            assert((seq![head] + split(rest, '/')).map_values(f) =~= seq![f(head)] + split(
                rest,
                '/',
            ).map_values(f));
        },
        None => {
            let new_value = renamed(value, renaming);
            lemma_first_char(new_value, '/', 0);
            if renaming.contains_key(value) {
                assert(is_plain(renaming[value]));
            }
            assert(split(new_value, '/') =~= seq![new_value]);
            assert(split(value, '/').map_values(f) =~= seq![new_value]);
        },
    }
}

/// The text before the quote of a declaration: `(uuid `.
pub open spec fn declaration_lead() -> Seq<char> {
    seq!['(', 'u', 'u', 'i', 'd', ' ']
}

/// `s` ends with the text before the quote of a declaration.
pub open spec fn ends_with_lead(s: Seq<char>) -> bool {
    s.len() >= 6 && s.skip(s.len() - 6) == declaration_lead()
}

/// Declarations and quoted strings agree: a declaration mark always opens a
/// string, and the string holds no escaped quote. Where a quote is left open,
/// nothing is declared after it.
pub open spec fn in_step(s: Seq<char>) -> bool
    decreases s.len(),
{
    match first_char(s, '"', 0) {
        Some(at) => {
            proof {
                lemma_first_char(s, '"', 0);
            }
            let body = s.skip(at + 1);
            match closing_quote(body) {
                Some(end) => {
                    proof {
                        lemma_closing_quote(body);
                    }
                    &&& if ends_with_lead(s.take(at)) {
                        !body.take(end).contains('"')
                    } else {
                        !ends_with_lead(body.take(end))
                    }
                    &&& in_step(body.skip(end + 1))
                },
                None => declared_names(s).len() == 0,
            }
        },
        None => true,
    }
}

/// The contents of the strings that stand in a declaration, empty ones left out.
spec fn declared_strings(s: Seq<char>) -> Seq<Seq<char>>
    decreases s.len(),
{
    match first_char(s, '"', 0) {
        Some(at) => {
            proof {
                lemma_first_char(s, '"', 0);
            }
            let body = s.skip(at + 1);
            match closing_quote(body) {
                Some(end) => {
                    proof {
                        lemma_closing_quote(body);
                    }
                    if ends_with_lead(s.take(at)) && end > 0 {
                        seq![body.take(end)] + declared_strings(body.skip(end + 1))
                    } else {
                        declared_strings(body.skip(end + 1))
                    }
                },
                None => seq![],
            }
        },
        None => seq![],
    }
}

/// A head in which no declaration starts may be dropped.
proof fn lemma_declared_after(s: Seq<char>, k: int)
    requires
        0 <= k <= s.len(),
        forall|j: int| 0 <= j < k ==> !occurs_at(s, declaration_mark(), j),
    ensures
        declared_names(s) == declared_names(s.skip(k)),
{
    let mark = declaration_mark();
    lemma_first_match_skip(s, mark, k);
    lemma_first_match(s, mark, k);
    lemma_first_match(s, mark, 0);
    match first_match(s, mark, k) {
        Some(at) => {
            lemma_first_match_is(s, mark, 0, at);
            assert(s.skip(k).skip(at - k + 7) =~= s.skip(at + 7));
        },
        None => {
            if let Some(j) = first_match(s, mark, 0) {
                assert(occurs_at(s, mark, j));
            }
        },
    }
}

/// A declaration mark holds its quote at its end and nowhere else.
proof fn lemma_mark_chars(s: Seq<char>, j: int)
    requires
        occurs_at(s, declaration_mark(), j),
    ensures
        s[j + 6] == '"',
        s[j + 5] == ' ',
        forall|i: int| j <= i < j + 6 ==> s[i] != '"',
        s.subrange(j, j + 6) == declaration_lead(),
{
    let m = s.subrange(j, j + 7);
    assert(m == declaration_mark());
    assert(m[6] == '"' && m[5] == ' ');
    assert forall|i: int| j <= i < j + 6 implies s[i] != '"' by {
        assert(m[i - j] == s[i]);
    }
    assert(s.subrange(j, j + 6) =~= m.subrange(0, 6));
    assert(m.subrange(0, 6) =~= declaration_lead());
}

proof fn lemma_mark_at_lead(s: Seq<char>, at: int)
    requires
        0 <= at < s.len(),
        s[at] == '"',
        ends_with_lead(s.take(at)),
    ensures
        occurs_at(s, declaration_mark(), at - 6),
{
    let lead = s.take(at).skip(at - 6);
    assert(lead == declaration_lead());
    let m = s.subrange(at - 6, at + 1);
    assert forall|i: int| 0 <= i < 7 implies m[i] == declaration_mark()[i] by {
        if i < 6 {
            assert(m[i] == lead[i]);
        }
    }
    assert(m =~= declaration_mark());
}

/// Inside a well-escaped content a quote follows a backslash.
proof fn lemma_escaped_quote(v: Seq<char>, k: int)
    requires
        well_escaped(v),
        0 <= k < v.len(),
        v[k] == '"',
    ensures
        k > 0,
        v[k - 1] == '\\',
    decreases v.len(),
{
    if v[0] == '\\' {
        if k > 1 {
            assert(v.skip(2)[k - 2] == '"');
            lemma_escaped_quote(v.skip(2), k - 2);
            assert(v.skip(2)[k - 3] == v[k - 1]);
        }
    } else {
        assert(v.skip(1)[k - 1] == '"');
        lemma_escaped_quote(v.skip(1), k - 1);
        assert(v.skip(1)[k - 2] == v[k - 1]);
    }
}

/// Where declarations and strings agree, the declared names are the contents of
/// the strings that stand in a declaration.
proof fn lemma_declared_in_step(s: Seq<char>)
    requires
        in_step(s),
    ensures
        declared_names(s) == declared_strings(s),
    decreases s.len(),
{
    let mark = declaration_mark();
    lemma_first_char(s, '"', 0);
    lemma_first_match(s, mark, 0);
    match first_char(s, '"', 0) {
        Some(at) => {
            let body = s.skip(at + 1);
            lemma_closing_quote(body);
            lemma_content_well_escaped(body);
            match closing_quote(body) {
                Some(end) => {
                    let content = body.take(end);
                    let rest = body.skip(end + 1);
                    lemma_declared_in_step(rest);
                    if ends_with_lead(s.take(at)) {
                        lemma_mark_at_lead(s, at);
                        assert forall|j: int| 0 <= j < at - 6 implies !occurs_at(s, mark, j) by {
                            if occurs_at(s, mark, j) {
                                lemma_mark_chars(s, j);
                            }
                        }
                        lemma_first_match_is(s, mark, 0, at - 6);
                        assert forall|j: int| 0 <= j < end implies body[j] != '"' by {
                            assert(content[j] == body[j]);
                            if body[j] == '"' {
                                assert(content.contains('"'));
                            }
                        }
                        lemma_first_char_is(body, '"', 0, end);
                        let tail = body.skip(end);
                        assert(!occurs_at(tail, mark, 0)) by {
                            if occurs_at(tail, mark, 0) {
                                lemma_mark_chars(tail, 0);
                                assert(tail[0] == '"');
                            }
                        }
                        lemma_declared_after(tail, 1);
                        assert(tail.skip(1) =~= rest);
                    } else {
                        let k = at + end + 2;
                        assert forall|j: int| 0 <= j < k implies !occurs_at(s, mark, j) by {
                            lemma_no_mark_before_rest(s, at, end, j);
                        }
                        lemma_declared_after(s, k);
                        assert(s.skip(k) =~= rest);
                    }
                },
                None => {
                    assert(declared_names(s) =~= seq![]);
                },
            }
        },
        None => {
            if let Some(j) = first_match(s, mark, 0) {
                lemma_mark_chars(s, j);
            }
        },
    }
}

/// No declaration mark stands in or across a string that is no declaration and
/// whose content does not end like one.
proof fn lemma_no_mark_before_rest(s: Seq<char>, at: int, end: int, j: int)
    requires
        first_char(s, '"', 0) == Some(at),
        closing_quote(s.skip(at + 1)) == Some(end),
        !ends_with_lead(s.take(at)),
        !ends_with_lead(s.skip(at + 1).take(end)),
        0 <= j < at + end + 2,
    ensures
        !occurs_at(s, declaration_mark(), j),
{
    let body = s.skip(at + 1);
    let content = body.take(end);
    lemma_first_char(s, '"', 0);
    lemma_closing_quote(body);
    lemma_content_well_escaped(body);
    let q = j + 6;
    let close = at + 1 + end;
    assert(s[close] == body[end]);
    if occurs_at(s, declaration_mark(), j) {
        lemma_mark_chars(s, j);
        if q == at {
            assert(s.take(at).skip(at - 6) =~= s.subrange(j, j + 6));
        } else if at < q < close {
            let k = q - at - 1;
            assert(content[k] == s[q]);
            lemma_escaped_quote(content, k);
            assert(content[k - 1] == s[q - 1]);
        } else if q == close {
            if j <= at {
                assert(s[at] == '"');
            } else {
                assert(content.skip(end - 6) =~= s.subrange(j, j + 6));
            }
        } else if q > close {
            assert(j <= close < j + 6);
        }
    }
}

/// Renaming segments makes no text end like a declaration that did not before.
proof fn lemma_renamed_end(v: Seq<char>, renaming: Map<Seq<char>, Seq<char>>)
    requires
        renames_to_plain(renaming),
        ends_with_lead(renamed_segments(v, renaming)),
    ensures
        ends_with_lead(v),
    decreases v.len(),
{
    lemma_renamed_segments(v, renaming);
    lemma_first_char(v, '/', 0);
    let out = renamed_segments(v, renaming);
    let lead = out.skip(out.len() - 6);
    assert(lead == declaration_lead());
    assert(lead[0] == '(');
    match first_char(v, '/', 0) {
        Some(k) => {
            let rest = v.skip(k + 1);
            let new_head = renamed(v.take(k), renaming);
            let new_rest = renamed_segments(rest, renaming);
            if new_rest.len() >= 6 {
                assert(new_rest.skip(new_rest.len() - 6) =~= lead);
                lemma_renamed_end(rest, renaming);
                assert(v.skip(v.len() - 6) =~= rest.skip(rest.len() - 6));
            } else {
                let slash = new_head.len() as int;
                assert(out[slash] == '/');
                assert(lead[slash - (out.len() - 6)] == '/');
                assert forall|i: int| 0 <= i < 6 implies lead[i] != '/' by {}
            }
        },
        None => {
            if renaming.contains_key(v) {
                assert(is_plain(renaming[v]));
                assert(out[out.len() - 6] == '(');
            }
        },
    }
}

/// Declarations and strings still agree after a renaming, and the declared
/// strings are renamed.
proof fn lemma_renamed_in_step(s: Seq<char>, renaming: Map<Seq<char>, Seq<char>>)
    requires
        in_step(s),
        renames_to_plain(renaming),
        !renaming.contains_key(Seq::<char>::empty()),
        forall|name: Seq<char>| declared_strings(s).contains(name) ==> #[trigger]
            renaming.contains_key(name),
    ensures
        in_step(renamed_document(s, renaming)),
        declared_strings(renamed_document(s, renaming)) == declared_strings(s).map_values(
            |name: Seq<char>| renaming[name],
        ),
    decreases s.len(),
{
    let f = |name: Seq<char>| renaming[name];
    lemma_first_char(s, '"', 0);
    match first_char(s, '"', 0) {
        Some(at) => {
            let body = s.skip(at + 1);
            lemma_closing_quote(body);
            match closing_quote(body) {
                Some(end) => {
                    lemma_renamed_walk(s, renaming, at, end);
                    let content = body.take(end);
                    let rest = body.skip(end + 1);
                    let w = renamed_value(content, renaming);
                    let more = declared_strings(rest);
                    assert forall|name: Seq<char>| more.contains(name) implies #[trigger]
                        renaming.contains_key(name) by {
                        let i = choose|i: int| 0 <= i < more.len() && more[i] == name;
                        if ends_with_lead(s.take(at)) && end > 0 {
                            assert(declared_strings(s)[i + 1] == name);
                        }
                        assert(declared_strings(s).contains(name));
                    }
                    lemma_renamed_in_step(rest, renaming);
                    if ends_with_lead(s.take(at)) {
                        if end > 0 {
                            assert(declared_strings(s)[0] == content);
                            assert(declared_strings(s).contains(content));
                            assert(is_plain(renaming[content]));
                            assert(w == renaming[content]);
                            assert((seq![content] + more).map_values(f) =~= seq![f(content)]
                                + more.map_values(f));
                        } else {
                            assert(content =~= Seq::<char>::empty());
                            lemma_renamed_segments(content, renaming);
                            lemma_first_char(content, '/', 0);
                            assert(w =~= Seq::<char>::empty());
                        }
                        assert(!w.contains('"'));
                    } else {
                        if ends_with_lead(w) {
                            if renaming.contains_key(content) {
                                assert(is_plain(renaming[content]));
                                assert(w.skip(w.len() - 6)[0] == '(');
                                assert(w[w.len() - 6] == '(');
                            } else {
                                lemma_renamed_end(content, renaming);
                            }
                        }
                    }
                },
                None => {
                    assert(declared_strings(s).map_values(f) =~= declared_strings(s));
                },
            }
        },
        None => {
            assert(declared_strings(s).map_values(f) =~= declared_strings(s));
        },
    }
}

/// The renaming gives each declared name of `s`, and nothing else, a new plain
/// name.
pub open spec fn renames_declared(
    s: Seq<char>,
    renaming: Map<Seq<char>, Seq<char>>,
) -> bool {
    &&& forall|name: Seq<char>| #[trigger]
        renaming.contains_key(name) <==> declared_names(s).contains(name)
    &&& renames_to_plain(renaming)
}

/// A renaming that gives each declared name a fresh UUID gives it a plain name, so
/// what holds of copies holds of a document with its items' UUIDs regenerated.
pub proof fn law_fresh_uuids_are_plain_names(
    s: Seq<char>,
    renaming: Map<Seq<char>, Seq<char>>,
)
    requires
        renames_afresh(renaming, declared_names(s)),
    ensures
        renames_declared(s, renaming),
{
    assert forall|name: Seq<char>| renaming.contains_key(name) implies is_plain(
        #[trigger] renaming[name],
    ) by {
        lemma_v4_text_is_plain(renaming[name]);
    }
}

proof fn lemma_distinct(names: Seq<Seq<char>>)
    ensures
        distinct(names).no_duplicates(),
        forall|name: Seq<char>| #[trigger]
            distinct(names).contains(name) <==> names.contains(name),
    decreases names.len(),
{
    if names.len() > 0 {
        let shorter = names.drop_last();
        let last = names.last();
        let before = distinct(shorter);
        let all = distinct(names);
        lemma_distinct(shorter);
        assert forall|i: int, j: int|
            0 <= i < all.len() && 0 <= j < all.len() && i != j implies all[i] != all[j] by {
            if i < before.len() {
                assert(before[i] == all[i]);
            }
            if j < before.len() {
                assert(before[j] == all[j]);
            }
        }
        assert forall|name: Seq<char>| #[trigger] all.contains(name) <==> names.contains(
            name,
        ) by {
            assert(before.contains(name) <==> shorter.contains(name));
            assert(names[names.len() - 1] == last);
            if names.contains(name) && name != last {
                let i = choose|i: int| 0 <= i < names.len() && names[i] == name;
                assert(shorter[i] == name);
            }
            if shorter.contains(name) {
                let i = choose|i: int| 0 <= i < shorter.len() && shorter[i] == name;
                assert(names[i] == name);
            }
            if !before.contains(last) {
                assert(all[before.len() as int] == last);
                if before.contains(name) {
                    let i = choose|i: int| 0 <= i < before.len() && before[i] == name;
                    assert(all[i] == name);
                }
                if all.contains(name) && name != last {
                    let i = choose|i: int| 0 <= i < all.len() && all[i] == name;
                    assert(before[i] == name);
                }
            }
        }
    }
}

proof fn lemma_paired(names: Seq<Seq<char>>, draws: Seq<Seq<char>>, n: nat)
    requires
        n <= names.len(),
        names.no_duplicates(),
    ensures
        forall|i: int|
            0 <= i < n ==> paired(names, draws, n).contains_key(#[trigger] names[i]) && paired(
                names,
                draws,
                n,
            )[names[i]] == draws[i],
        forall|name: Seq<char>| #[trigger]
            paired(names, draws, n).contains_key(name) ==> exists|i: int|
                0 <= i < n && #[trigger] names[i] == name,
    decreases n,
{
    if n > 0 {
        lemma_paired(names, draws, (n - 1) as nat);
        let before = paired(names, draws, (n - 1) as nat);
        let all = paired(names, draws, n);
        assert forall|name: Seq<char>| #[trigger] all.contains_key(name) implies exists|i: int|
            0 <= i < n && #[trigger] names[i] == name by {
            if name == names[n - 1] {
            } else {
                assert(before.contains_key(name));
            }
        }
    }
}

/// Each name that is new gets the draw at its place, and nothing else is renamed.
pub proof fn law_each_name_gets_its_draw(names: Seq<Seq<char>>, draws: Seq<Seq<char>>)
    requires
        draws.len() == distinct(names).len(),
    ensures
        forall|i: int|
            0 <= i < draws.len() ==> pairing(names, draws).contains_key(
                #[trigger] distinct(names)[i],
            ) && pairing(names, draws)[distinct(names)[i]] == draws[i],
        forall|name: Seq<char>| #[trigger]
            pairing(names, draws).contains_key(name) <==> names.contains(name),
{
    let keys = distinct(names);
    lemma_distinct(names);
    lemma_paired(keys, draws, keys.len());
    assert forall|name: Seq<char>| #[trigger] pairing(names, draws).contains_key(name)
        <==> names.contains(name) by {
        if names.contains(name) {
            assert(keys.contains(name));
            let i = choose|i: int| 0 <= i < keys.len() && keys[i] == name;
            assert(pairing(names, draws).contains_key(keys[i]));
        }
        if pairing(names, draws).contains_key(name) {
            let i = choose|i: int| 0 <= i < keys.len() && #[trigger] keys[i] == name;
            assert(keys.contains(name));
        }
    }
}

/// Draws that are UUIDs give a renaming afresh.
pub proof fn law_drawn_uuids_rename_afresh(names: Seq<Seq<char>>, draws: Seq<Seq<char>>)
    requires
        draws.len() == distinct(names).len(),
        are_v4_texts(draws),
    ensures
        renames_afresh(pairing(names, draws), names),
{
    law_each_name_gets_its_draw(names, draws);
    lemma_distinct(names);
    let keys = distinct(names);
    let renaming = pairing(names, draws);
    assert forall|name: Seq<char>| renaming.contains_key(name) implies is_v4_text(
        #[trigger] renaming[name],
    ) by {
        assert(keys.contains(name));
        let i = choose|i: int| 0 <= i < keys.len() && keys[i] == name;
        assert(renaming[keys[i]] == draws[i]);
    }
}

/// Where no two draws are the same, no two names are given the same new name.
pub proof fn law_distinct_draws_keep_names_apart(
    names: Seq<Seq<char>>,
    draws: Seq<Seq<char>>,
    a: Seq<char>,
    b: Seq<char>,
)
    requires
        draws.len() == distinct(names).len(),
        draws.no_duplicates(),
        names.contains(a),
        names.contains(b),
        pairing(names, draws)[a] == pairing(names, draws)[b],
    ensures
        a == b,
{
    law_each_name_gets_its_draw(names, draws);
    lemma_distinct(names);
    let keys = distinct(names);
    assert(keys.contains(a) && keys.contains(b));
    let i = choose|i: int| 0 <= i < keys.len() && keys[i] == a;
    let j = choose|j: int| 0 <= j < keys.len() && keys[j] == b;
    assert(pairing(names, draws)[keys[i]] == draws[i]);
    assert(pairing(names, draws)[keys[j]] == draws[j]);
}

proof fn lemma_declared_names_not_empty(s: Seq<char>)
    ensures
        !declared_names(s).contains(Seq::<char>::empty()),
    decreases s.len(),
{
    let names = declared_names(s);
    lemma_first_match(s, declaration_mark(), 0);
    if let Some(at) = first_match(s, declaration_mark(), 0) {
        let body = s.skip(at + 7);
        lemma_first_char(body, '"', 0);
        if let Some(end) = first_char(body, '"', 0) {
            lemma_declared_names_not_empty(body.skip(end));
            let more = declared_names(body.skip(end));
            if names.contains(Seq::<char>::empty()) {
                let i = choose|i: int| 0 <= i < names.len() && names[i] == Seq::<char>::empty();
                if end > 0 {
                    assert(names[0].len() == end);
                    assert(names[i] == more[i - 1]);
                } else {
                    assert(more.contains(Seq::<char>::empty()));
                }
            }
        }
    }
}

/// A copy declares, in the same order, the new names of what the document
/// declares.
pub proof fn law_copy_declares_the_new_names(
    s: Seq<char>,
    renaming: Map<Seq<char>, Seq<char>>,
)
    requires
        in_step(s),
        renames_declared(s, renaming),
    ensures
        declared_names(renamed_document(s, renaming)) == declared_names(s).map_values(
            |name: Seq<char>| renaming[name],
        ),
{
    lemma_declared_in_step(s);
    lemma_declared_names_not_empty(s);
    lemma_renamed_in_step(s, renaming);
    lemma_declared_in_step(renamed_document(s, renaming));
}

/// No declared name is shared between a document and its copy, provided that no
/// new name is one that the document declares.
pub proof fn law_copy_shares_no_name(s: Seq<char>, renaming: Map<Seq<char>, Seq<char>>)
    requires
        in_step(s),
        renames_declared(s, renaming),
        forall|name: Seq<char>| #[trigger]
            renaming.contains_key(name) ==> !declared_names(s).contains(renaming[name]),
    ensures
        forall|name: Seq<char>|
            !(declared_names(s).contains(name) && #[trigger] declared_names(
                renamed_document(s, renaming),
            ).contains(name)),
{
    law_copy_declares_the_new_names(s, renaming);
    let before = declared_names(s);
    let after = declared_names(renamed_document(s, renaming));
    assert forall|name: Seq<char>| !(before.contains(name) && #[trigger] after.contains(name)) by {
        if after.contains(name) {
            let i = choose|i: int| 0 <= i < after.len() && after[i] == name;
            assert(before.contains(before[i]));
            assert(renaming.contains_key(before[i]));
        }
    }
}

/// Two declarations of the copy carry the same name exactly where the two of the
/// document do, provided that no two names are given the same new name.
pub proof fn law_copy_keeps_identities_apart(
    s: Seq<char>,
    renaming: Map<Seq<char>, Seq<char>>,
    i: int,
    j: int,
)
    requires
        in_step(s),
        renames_declared(s, renaming),
        forall|a: Seq<char>, b: Seq<char>| #[trigger]
            renaming.contains_key(a) && #[trigger] renaming.contains_key(b) && renaming[a]
                == renaming[b] ==> a == b,
        0 <= i < declared_names(s).len(),
        0 <= j < declared_names(s).len(),
    ensures
        declared_names(renamed_document(s, renaming)).len() == declared_names(s).len(),
        declared_names(renamed_document(s, renaming))[i] == declared_names(
            renamed_document(s, renaming),
        )[j] <==> declared_names(s)[i] == declared_names(s)[j],
{
    law_copy_declares_the_new_names(s, renaming);
    let before = declared_names(s);
    assert(before.contains(before[i]) && before.contains(before[j]));
    assert(renaming.contains_key(before[i]) && renaming.contains_key(before[j]));
}

/// Where the draws are UUIDs, no two the same and none declared by the document,
/// the copy is a document of its own: it declares as many names, shares none with
/// the document, and gives two declarations one name exactly where the document
/// does.
pub proof fn law_drawn_copy_is_its_own(
    s: Seq<char>,
    draws: Seq<Seq<char>>,
    i: int,
    j: int,
)
    requires
        in_step(s),
        draws.len() == distinct(declared_names(s)).len(),
        are_v4_texts(draws),
        draws.no_duplicates(),
        forall|k: int| 0 <= k < draws.len() ==> !declared_names(s).contains(#[trigger] draws[k]),
        0 <= i < declared_names(s).len(),
        0 <= j < declared_names(s).len(),
    ensures
        ({
            let names = declared_names(s);
            let copied = declared_names(renamed_document(s, pairing(names, draws)));
            &&& copied.len() == names.len()
            &&& draws.contains(copied[i])
            &&& !names.contains(copied[i])
            &&& copied[i] == copied[j] <==> names[i] == names[j]
        }),
{
    let names = declared_names(s);
    let keys = distinct(names);
    let renaming = pairing(names, draws);
    law_each_name_gets_its_draw(names, draws);
    law_drawn_uuids_rename_afresh(names, draws);
    law_fresh_uuids_are_plain_names(s, renaming);
    law_copy_declares_the_new_names(s, renaming);
    lemma_distinct(names);
    assert(names.contains(names[i]) && names.contains(names[j]));
    assert(keys.contains(names[i]));
    let k = choose|k: int| 0 <= k < keys.len() && keys[k] == names[i];
    assert(renaming[keys[k]] == draws[k]);
    if renaming[names[i]] == renaming[names[j]] {
        law_distinct_draws_keep_names_apart(names, draws, names[i], names[j]);
    }
}

} // verus!
