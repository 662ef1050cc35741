//! Item identities inside a schematic document: which UUIDs a document
//! declares, and how a copy of it is given identities of its own.

use crate::text::{
    contains_text, find, find_char, first_char, first_match, join, lemma_first_char,
    lemma_first_char_skip, lemma_first_match, lemma_first_match_skip, lemma_split_nonempty,
    slice_text, split, texts, to_chars,
};
use vstd::hash_map::StringHashMap;
use vstd::prelude::*;

verus! {

/// The text that opens a declaration: `(uuid "`.
pub open spec fn declaration_mark() -> Seq<char> {
    seq!['(', 'u', 'u', 'i', 'd', ' ', '"']
}

/// The names that `s` declares, in order: after each declaration mark, the text
/// up to the next quote. Empty names are left out.
pub open spec fn declared_names(s: Seq<char>) -> Seq<Seq<char>>
    decreases s.len(),
{
    match first_match(s, declaration_mark(), 0) {
        Some(at) => {
            proof {
                lemma_first_match(s, declaration_mark(), 0);
            }
            let body = s.skip(at + 7);
            match first_char(body, '"', 0) {
                Some(end) => {
                    proof {
                        lemma_first_char(body, '"', 0);
                    }
                    if end == 0 {
                        declared_names(body.skip(end))
                    } else {
                        seq![body.take(end)] + declared_names(body.skip(end))
                    }
                },
                None => seq![],
            }
        },
        None => seq![],
    }
}

/// The position of the first quote in `s` that no backslash escapes.
pub open spec fn closing_quote(s: Seq<char>) -> Option<int>
    decreases s.len(),
{
    if s.len() == 0 {
        None
    } else if s[0] == '"' {
        Some(0)
    } else if s[0] == '\\' {
        if s.len() == 1 {
            None
        } else {
            match closing_quote(s.skip(2)) {
                Some(k) => Some(k + 2),
                None => None,
            }
        }
    } else {
        match closing_quote(s.skip(1)) {
            Some(k) => Some(k + 1),
            None => None,
        }
    }
}

pub proof fn lemma_closing_quote(s: Seq<char>)
    ensures
        closing_quote(s) matches Some(k) ==> 0 <= k < s.len() && s[k] == '"',
    decreases s.len(),
{
    if s.len() > 0 && s[0] != '"' {
        if s[0] == '\\' {
            if s.len() > 1 {
                lemma_closing_quote(s.skip(2));
            }
        } else {
            lemma_closing_quote(s.skip(1));
        }
    }
}

/// One path segment or whole name under a renaming.
pub open spec fn renamed(name: Seq<char>, renaming: Map<Seq<char>, Seq<char>>) -> Seq<char> {
    if renaming.contains_key(name) {
        renaming[name]
    } else {
        name
    }
}

/// The `/`-separated segments of `value` under a renaming, joined again.
pub open spec fn renamed_segments(
    value: Seq<char>,
    renaming: Map<Seq<char>, Seq<char>>,
) -> Seq<char> {
    join(split(value, '/').map_values(|segment: Seq<char>| renamed(segment, renaming)), '/')
}

/// The content of a quoted string under a renaming: the whole content where it
/// is a renamed name, else each of its `/`-separated segments.
pub open spec fn renamed_value(
    value: Seq<char>,
    renaming: Map<Seq<char>, Seq<char>>,
) -> Seq<char> {
    if renaming.contains_key(value) {
        renaming[value]
    } else {
        renamed_segments(value, renaming)
    }
}

/// A document under a renaming: each quoted string renamed, all other text as
/// it is. A quote that is never closed starts no string.
pub open spec fn renamed_document(
    s: Seq<char>,
    renaming: Map<Seq<char>, Seq<char>>,
) -> Seq<char>
    decreases s.len(),
{
    match first_char(s, '"', 0) {
        Some(at) => {
            proof {
                lemma_first_char(s, '"', 0);
            }
            let body = s.skip(at + 1);
            match closing_quote(body) {
                Some(end) => {
                    proof {
                        lemma_closing_quote(body);
                    }
                    s.take(at + 1) + renamed_value(body.take(end), renaming) + seq!['"']
                        + renamed_document(body.skip(end + 1), renaming)
                },
                None => s,
            }
        },
        None => s,
    }
}

/// A lower-case hexadecimal digit.
pub open spec fn is_hex_digit(c: char) -> bool {
    ('0' <= c && c <= '9') || ('a' <= c && c <= 'f')
}

/// The hyphenated lower-case text of a version 4 UUID.
pub open spec fn is_v4_text(s: Seq<char>) -> bool {
    &&& s.len() == 36
    &&& s[8] == '-' && s[13] == '-' && s[18] == '-' && s[23] == '-'
    &&& s[14] == '4'
    &&& s[19] == '8' || s[19] == '9' || s[19] == 'a' || s[19] == 'b'
    &&& forall|i: int|
        0 <= i < 36 && i != 8 && i != 13 && i != 18 && i != 23 ==> is_hex_digit(#[trigger] s[i])
}

/// `uuid::Uuid::new_v4` and the `Display` text of its result: a random version 4
/// UUID, as 36 characters in lower case with hyphens. Which one it is rests on
/// chance, so the contract states the form alone.
#[verifier::external_body]
pub(crate) fn new_uuid() -> (text: String)
    ensures
        is_v4_text(text@),
{
    uuid::Uuid::new_v4().to_string()
}

/// New names for declared names.
pub struct UuidMapping {
    names: StringHashMap<String>,
}

impl View for UuidMapping {
    type V = Map<Seq<char>, Seq<char>>;

    closed spec fn view(&self) -> Map<Seq<char>, Seq<char>> {
        self.names@.map_values(|t: String| t@)
    }
}

impl UuidMapping {
    pub fn new() -> (mapping: Self)
        ensures
            mapping@ == Map::<Seq<char>, Seq<char>>::empty(),
    {
        let mapping = UuidMapping { names: StringHashMap::new() };
        assert(mapping@ =~= Map::<Seq<char>, Seq<char>>::empty());
        mapping
    }

    /// Give `name` the new name `replacement`.
    pub fn insert(&mut self, name: String, replacement: String)
        ensures
            final(self)@ == old(self)@.insert(name@, replacement@),
    {
        self.names.insert(name, replacement);
        assert(self@ =~= old(self)@.insert(name@, replacement@));
    }

    /// The new name of `name`, if it has one.
    pub fn get(&self, name: &str) -> (replacement: Option<&String>)
        ensures
            match replacement {
                Some(text) => self@.contains_key(name@) && text@ == self@[name@],
                None => !self@.contains_key(name@),
            },
    {
        self.names.get(name)
    }
}

/// The names that a document declares, in order, empty ones left out.
pub fn declared_uuids(source: &str) -> (names: Vec<String>)
    ensures
        texts(names@) == declared_names(source@),
{
    let chars = to_chars(source);
    let mark: Vec<char> = vec!['(', 'u', 'u', 'i', 'd', ' ', '"'];
    assert(mark@ =~= declaration_mark());
    let mut names: Vec<String> = Vec::new();
    let mut i: usize = 0;
    assert(chars@.skip(0) =~= chars@);
    assert(texts(names@) + declared_names(chars@.skip(0)) =~= declared_names(chars@));
    let len = chars.len();
    loop
        invariant
            mark@ == declaration_mark(),
            len == chars@.len(),
            i <= len,
            chars@ == source@,
            texts(names@) + declared_names(chars@.skip(i as int)) == declared_names(chars@),
        decreases chars@.len() - i,
    {
        let ghost tail = chars@.skip(i as int);
        proof {
            lemma_first_match_skip(chars@, mark@, i as int);
            lemma_first_match(chars@, mark@, i as int);
        }
        let at = match find(&chars, &mark, i) {
            Some(at) => at,
            None => {
                assert(texts(names@) + Seq::<Seq<char>>::empty() =~= texts(names@));
                return names;
            },
        };
        let start: usize = at + 7;
        let ghost body = tail.skip(at - i + 7);
        assert(body =~= chars@.skip(start as int));
        proof {
            lemma_first_char_skip(chars@, '"', start as int);
            lemma_first_char(chars@, '"', start as int);
        }
        let end = match find_char(&chars, '"', start) {
            Some(end) => end,
            None => {
                assert(texts(names@) + Seq::<Seq<char>>::empty() =~= texts(names@));
                return names;
            },
        };
        assert(body.skip(end - start) =~= chars@.skip(end as int));
        if end > start {
            let name = slice_text(&chars, start, end);
            assert(name@ =~= body.take(end - start));
            let ghost before = names@;
            names.push(name);
            assert(texts(names@) =~= texts(before).push(name@));
            assert(texts(before) + (seq![name@] + declared_names(chars@.skip(end as int)))
                =~= texts(names@) + declared_names(chars@.skip(end as int)));
        }
        i = end;
    }
}

pub proof fn lemma_renamed_segments(value: Seq<char>, renaming: Map<Seq<char>, Seq<char>>)
    ensures
        match first_char(value, '/', 0) {
            Some(k) => renamed_segments(value, renaming) == renamed(value.take(k), renaming)
                + seq!['/'] + renamed_segments(value.skip(k + 1), renaming),
            None => renamed_segments(value, renaming) == renamed(value, renaming),
        },
{
    let f = |segment: Seq<char>| renamed(segment, renaming);
    lemma_first_char(value, '/', 0);
    match first_char(value, '/', 0) {
        Some(k) => {
            let rest = split(value.skip(k + 1), '/');
            lemma_split_nonempty(value.skip(k + 1), '/');
            let parts = split(value, '/');
            assert(parts == seq![value.take(k)] + rest);
            assert(parts.map_values(f).skip(1) =~= rest.map_values(f));
        },
        None => {},
    }
}

/// The content of a quoted string under a renaming: either the whole value, or
/// each `/`-separated segment of an instance path.
pub fn remap_uuid_string(value: &str, mapping: &UuidMapping) -> (text: String)
    ensures
        text@ == renamed_value(value@, mapping@),
{
    if let Some(replacement) = mapping.get(value) {
        return replacement.clone();
    }
    let chars = to_chars(value);
    let mut out = String::new();
    let mut i: usize = 0;
    assert(chars@.skip(0) =~= chars@);
    assert(out@ + renamed_segments(chars@, mapping@) =~= renamed_segments(chars@, mapping@));
    let len = chars.len();
    loop
        invariant
            len == chars@.len(),
            i <= len,
            chars@ == value@,
            !mapping@.contains_key(value@),
            out@ + renamed_segments(chars@.skip(i as int), mapping@) == renamed_segments(
                chars@,
                mapping@,
            ),
        decreases chars@.len() - i,
    {
        let ghost tail = chars@.skip(i as int);
        proof {
            lemma_first_char_skip(chars@, '/', i as int);
            lemma_first_char(chars@, '/', i as int);
            lemma_renamed_segments(tail, mapping@);
        }
        let found = find_char(&chars, '/', i);
        let end = match found {
            Some(k) => k,
            None => chars.len(),
        };
        let segment = slice_text(&chars, i, end);
        assert(segment@ =~= tail.take(end - i));
        assert(tail.take(tail.len() as int) =~= tail);
        let ghost before = out@;
        match mapping.get(segment.as_str()) {
            Some(replacement) => out.append(replacement.as_str()),
            None => out.append(segment.as_str()),
        }
        assert(out@ == before + renamed(segment@, mapping@));
        if found.is_none() {
            return out;
        }
        out.push('/');
        assert(tail.skip(end - i + 1) =~= chars@.skip(end + 1));
        i = end + 1;
        assert(out@ + renamed_segments(chars@.skip(i as int), mapping@) =~= before + (renamed(
            segment@,
            mapping@,
        ) + seq!['/'] + renamed_segments(chars@.skip(i as int), mapping@)));
    }
}

/// Find the quote that closes a string whose content starts at `from`.
fn find_closing_quote(chars: &Vec<char>, from: usize) -> (end: Option<usize>)
    requires
        from <= chars@.len(),
    ensures
        match end {
            Some(k) => from <= k && closing_quote(chars@.skip(from as int)) == Some(k - from),
            None => closing_quote(chars@.skip(from as int)) is None,
        },
{
    let mut i: usize = from;
    while i < chars.len()
        invariant
            from <= i <= chars@.len(),
            match closing_quote(chars@.skip(i as int)) {
                Some(k) => closing_quote(chars@.skip(from as int)) == Some(k + i - from),
                None => closing_quote(chars@.skip(from as int)) is None,
            },
        decreases chars@.len() - i,
    {
        let ghost tail = chars@.skip(i as int);
        if chars[i] == '"' {
            return Some(i);
        }
        if chars[i] == '\\' {
            if chars.len() - i == 1 {
                return None;
            }
            assert(tail.skip(2) =~= chars@.skip(i + 2));
            i += 2;
        } else {
            assert(tail.skip(1) =~= chars@.skip(i + 1));
            i += 1;
        }
    }
    None
}

/// One step of the walk over quoted strings: the string that opens at `at` and
/// closes at `end`.
proof fn lemma_renamed_step(
    s: Seq<char>,
    i: int,
    at: int,
    end: int,
    renaming: Map<Seq<char>, Seq<char>>,
)
    requires
        0 <= i <= at < end < s.len(),
        first_char(s, '"', i) == Some(at),
        closing_quote(s.skip(at + 1)) == Some(end - at - 1),
    ensures
        renamed_document(s.skip(i), renaming) == s.subrange(i, at + 1) + renamed_value(
            s.subrange(at + 1, end),
            renaming,
        ) + seq!['"'] + renamed_document(s.skip(end + 1), renaming),
{
    let tail = s.skip(i);
    lemma_first_char_skip(s, '"', i);
    let body = tail.skip(at - i + 1);
    assert(body =~= s.skip(at + 1));
    assert(tail.take(at - i + 1) =~= s.subrange(i, at + 1));
    assert(body.take(end - at - 1) =~= s.subrange(at + 1, end));
    assert(body.skip(end - at) =~= s.skip(end + 1));
}

/// The end of the walk: no further string opens, or the one that does never
/// closes.
proof fn lemma_renamed_rest(s: Seq<char>, i: int, renaming: Map<Seq<char>, Seq<char>>)
    requires
        0 <= i <= s.len(),
        match first_char(s, '"', i) {
            Some(at) => closing_quote(s.skip(at + 1)) is None,
            None => true,
        },
    ensures
        renamed_document(s.skip(i), renaming) == s.subrange(i, s.len() as int),
{
    let tail = s.skip(i);
    lemma_first_char_skip(s, '"', i);
    lemma_first_char(s, '"', i);
    assert(tail =~= s.subrange(i, s.len() as int));
    if let Some(at) = first_char(s, '"', i) {
        assert(tail.skip(at - i + 1) =~= s.skip(at + 1));
    }
}

/// A document with its quoted strings renamed.
pub fn rename_in_document(source: &str, mapping: &UuidMapping) -> (out: String)
    ensures
        out@ == renamed_document(source@, mapping@),
{
    let chars = to_chars(source);
    let mut out = String::new();
    let mut i: usize = 0;
    assert(chars@.skip(0) =~= chars@);
    assert(out@ + renamed_document(chars@, mapping@) =~= renamed_document(chars@, mapping@));
    let len = chars.len();
    loop
        invariant
            len == chars@.len(),
            i <= len,
            chars@ == source@,
            out@ + renamed_document(chars@.skip(i as int), mapping@) == renamed_document(
                chars@,
                mapping@,
            ),
        decreases len - i,
    {
        proof {
            lemma_first_char(chars@, '"', i as int);
        }
        let at = match find_char(&chars, '"', i) {
            Some(at) => at,
            None => {
                let rest = slice_text(&chars, i, len);
                proof {
                    lemma_renamed_rest(chars@, i as int, mapping@);
                }
                out.append(rest.as_str());
                return out;
            },
        };
        proof {
            lemma_closing_quote(chars@.skip(at + 1));
        }
        let end = match find_closing_quote(&chars, at + 1) {
            Some(end) => end,
            None => {
                let rest = slice_text(&chars, i, len);
                proof {
                    lemma_renamed_rest(chars@, i as int, mapping@);
                }
                out.append(rest.as_str());
                return out;
            },
        };
        let lead = slice_text(&chars, i, at + 1);
        let content = slice_text(&chars, at + 1, end);
        let replaced = remap_uuid_string(content.as_str(), mapping);
        proof {
            lemma_renamed_step(chars@, i as int, at as int, end as int, mapping@);
        }
        let ghost before = out@;
        let ghost rest = renamed_document(chars@.skip(end + 1), mapping@);
        out.append(lead.as_str());
        out.append(replaced.as_str());
        out.push('"');
        assert(out@ + rest =~= before + (lead@ + replaced@ + seq!['"'] + rest));
        i = end + 1;
    }
}

/// A renaming that gives each of `names`, and nothing else, a fresh UUID.
pub open spec fn renames_afresh(
    renaming: Map<Seq<char>, Seq<char>>,
    names: Seq<Seq<char>>,
) -> bool {
    &&& forall|name: Seq<char>| #[trigger] renaming.contains_key(name) <==> names.contains(name)
    &&& forall|name: Seq<char>| renaming.contains_key(name) ==> is_v4_text(#[trigger] renaming[name])
}

/// The names, each once, in the order in which they first come.
pub open spec fn distinct(names: Seq<Seq<char>>) -> Seq<Seq<char>>
    decreases names.len(),
{
    if names.len() == 0 {
        seq![]
    } else {
        let before = distinct(names.drop_last());
        if before.contains(names.last()) {
            before
        } else {
            before.push(names.last())
        }
    }
}

/// The renaming that gives each of the first `n` names the draw at its place.
pub open spec fn paired(
    names: Seq<Seq<char>>,
    draws: Seq<Seq<char>>,
    n: nat,
) -> Map<Seq<char>, Seq<char>>
    decreases n,
{
    if n == 0 {
        Map::empty()
    } else {
        paired(names, draws, (n - 1) as nat).insert(names[n - 1], draws[n - 1])
    }
}

/// The renaming that gives the names that were drawn for: the first name that
/// comes gets the first draw, the next name that is new the second, and so on, as
/// far as the draws go.
pub open spec fn pairing(
    names: Seq<Seq<char>>,
    draws: Seq<Seq<char>>,
) -> Map<Seq<char>, Seq<char>> {
    let keys = distinct(names);
    paired(
        keys,
        draws,
        if keys.len() <= draws.len() {
            keys.len()
        } else {
            draws.len()
        },
    )
}

/// The names, each once, in the order in which they first come.
pub fn distinct_names(names: &Vec<String>) -> (found: Vec<String>)
    ensures
        texts(found@) == distinct(texts(names@)),
{
    let ghost all = texts(names@);
    let mut found: Vec<String> = Vec::new();
    let mut i: usize = 0;
    assert(texts(found@) =~= distinct(all.take(0)));
    while i < names.len()
        invariant
            i <= names@.len(),
            all == texts(names@),
            texts(found@) == distinct(all.take(i as int)),
        decreases names@.len() - i,
    {
        assert(all.take(i + 1).drop_last() =~= all.take(i as int));
        assert(all.take(i + 1).last() == names@[i as int]@);
        if !contains_text(&found, names[i].as_str()) {
            let ghost before = found@;
            found.push(names[i].clone());
            assert(texts(found@) =~= texts(before).push(names@[i as int]@));
        }
        i += 1;
    }
    assert(all.take(i as int) =~= all);
    found
}

/// Give the names the draws, one for each name that is new.
pub fn pair_with_draws(names: &Vec<String>, draws: &Vec<String>) -> (mapping: UuidMapping)
    ensures
        mapping@ == pairing(texts(names@), texts(draws@)),
{
    let keys = distinct_names(names);
    let ghost all = texts(keys@);
    let ghost drawn = texts(draws@);
    let mut mapping = UuidMapping::new();
    let mut n: usize = 0;
    while n < keys.len() && n < draws.len()
        invariant
            n <= keys@.len(),
            n <= draws@.len(),
            all == texts(keys@),
            drawn == texts(draws@),
            mapping@ == paired(all, drawn, n as nat),
        decreases keys@.len() - n,
    {
        assert(all[n as int] == keys@[n as int]@);
        assert(drawn[n as int] == draws@[n as int]@);
        mapping.insert(keys[n].clone(), draws[n].clone());
        n += 1;
    }
    mapping
}

/// Each of the draws is the text of a UUID.
pub open spec fn are_v4_texts(draws: Seq<Seq<char>>) -> bool {
    forall|i: int| 0 <= i < draws.len() ==> is_v4_text(#[trigger] draws[i])
}

/// Give the items of a document the drawn names: each declared name that is new
/// gets the next draw, wherever a quoted string is that name, or names it as a
/// segment of an instance path.
pub fn regenerate_with_draws(source: &str, draws: &Vec<String>) -> (out: String)
    ensures
        out@ == renamed_document(source@, pairing(declared_names(source@), texts(draws@))),
{
    let names = declared_uuids(source);
    let mapping = pair_with_draws(&names, draws);
    rename_in_document(source, &mapping)
}

/// Give every item in a duplicated document its own UUID: one is drawn for each
/// declared name, and takes its place wherever a quoted string is that name, or
/// names it as a segment of an instance path.
pub fn regenerate_item_uuids(source: &str) -> (out: String)
    ensures
        exists|draws: Seq<Seq<char>>|
            #![trigger pairing(declared_names(source@), draws)]
            draws.len() == distinct(declared_names(source@)).len() && are_v4_texts(draws) && out@
                == renamed_document(source@, pairing(declared_names(source@), draws)),
        declared_names(source@).len() == 0 ==> out@ == source@,
{
    let names = declared_uuids(source);
    let keys = distinct_names(&names);
    let mut draws: Vec<String> = Vec::new();
    while draws.len() < keys.len()
        invariant
            draws@.len() <= keys@.len(),
            are_v4_texts(texts(draws@)),
        decreases keys@.len() - draws@.len(),
    {
        let ghost before = draws@;
        let fresh = new_uuid();
        draws.push(fresh);
        assert(texts(draws@) =~= texts(before).push(fresh@));
    }
    let out = regenerate_with_draws(source, &draws);
    proof {
        let declared = declared_names(source@);
        let drawn = texts(draws@);
        assert(drawn.len() == distinct(declared).len());
        assert(out@ == renamed_document(source@, pairing(declared, drawn)));
        if declared.len() == 0 {
            assert(pairing(declared, drawn) =~= Map::<Seq<char>, Seq<char>>::empty());
            law_renaming_nothing_changes_nothing(source@);
        }
    }
    out
}

/// A document in which nothing is renamed stays as it is.
pub proof fn law_renaming_nothing_changes_nothing(s: Seq<char>)
    ensures
        renamed_document(s, Map::empty()) == s,
    decreases s.len(),
{
    let nothing = Map::<Seq<char>, Seq<char>>::empty();
    lemma_first_char(s, '"', 0);
    if let Some(at) = first_char(s, '"', 0) {
        let body = s.skip(at + 1);
        lemma_closing_quote(body);
        if let Some(end) = closing_quote(body) {
            law_renaming_nothing_changes_nothing(body.skip(end + 1));
            lemma_segments_unchanged(body.take(end), nothing);
            assert(s =~= s.take(at + 1) + body.take(end) + seq!['"'] + body.skip(end + 1));
        }
    }
}

/// Where no segment is renamed, the joined segments are the value itself.
pub proof fn lemma_segments_unchanged(value: Seq<char>, renaming: Map<Seq<char>, Seq<char>>)
    requires
        forall|k: int| #![trigger split(value, '/')[k]]
            0 <= k < split(value, '/').len() ==> !renaming.contains_key(split(value, '/')[k]),
    ensures
        renamed_segments(value, renaming) == value,
    decreases value.len(),
{
    lemma_renamed_segments(value, renaming);
    lemma_first_char(value, '/', 0);
    let parts = split(value, '/');
    assert(!renaming.contains_key(parts[0]));
    if let Some(k) = first_char(value, '/', 0) {
        let rest = split(value.skip(k + 1), '/');
        assert(parts == seq![value.take(k)] + rest);
        assert forall|j: int| #![trigger rest[j]] 0 <= j < rest.len() implies
            !renaming.contains_key(rest[j]) by {
            assert(parts[j + 1] == rest[j]);
        }
        lemma_segments_unchanged(value.skip(k + 1), renaming);
        assert(value =~= value.take(k) + seq!['/'] + value.skip(k + 1));
    }
}

} // verus!
