//! Text as sequences of characters: comparison, search and splitting, each stated
//! over `Seq<char>`.

use vstd::prelude::*;

verus! {

/// `String::push` of std: appends one character to the end of the string.
pub assume_specification[ String::push ](s: &mut String, ch: char)
    ensures
        final(s)@ == old(s)@.push(ch),
;

/// The characters of `s`, in order.
pub fn to_chars(s: &str) -> (chars: Vec<char>)
    ensures
        chars@ == s@,
{
    let mut chars: Vec<char> = Vec::new();
    for c in it: s.chars()
        invariant
            it.seq() == s@,
            chars@ == it.seq().take(it.index() as int),
    {
        chars.push(c);
    }
    chars
}

/// The text of `chars` from position `from` up to but not including `to`.
pub fn slice_text(chars: &Vec<char>, from: usize, to: usize) -> (s: String)
    requires
        from <= to <= chars@.len(),
    ensures
        s@ == chars@.subrange(from as int, to as int),
{
    let mut s = String::new();
    let mut i: usize = from;
    while i < to
        invariant
            from <= i <= to <= chars@.len(),
            s@ == chars@.subrange(from as int, i as int),
        decreases to - i,
    {
        s.push(chars[i]);
        i += 1;
        assert(chars@.subrange(from as int, i as int) == chars@.subrange(
            from as int,
            i - 1,
        ).push(chars@[i - 1]));
    }
    s
}

/// Whether two strings hold the same characters.
pub fn same_text(a: &str, b: &str) -> (same: bool)
    ensures
        same == (a@ == b@),
{
    a.to_owned() == b.to_owned()
}

/// `pat` stands in `s` at position `i`.
pub open spec fn occurs_at(s: Seq<char>, pat: Seq<char>, i: int) -> bool {
    &&& 0 <= i
    &&& i + pat.len() <= s.len()
    &&& s.subrange(i, i + pat.len()) == pat
}

/// The first position at or after `from` where `pat` stands in `s`.
pub open spec fn first_match(s: Seq<char>, pat: Seq<char>, from: int) -> Option<int>
    decreases s.len() + 1 - from,
{
    if from + pat.len() > s.len() {
        None
    } else if occurs_at(s, pat, from) {
        Some(from)
    } else {
        first_match(s, pat, from + 1)
    }
}

/// The last position where `pat` stands in `s`, looking back from `from`.
pub open spec fn last_match(s: Seq<char>, pat: Seq<char>, from: int) -> Option<int>
    decreases from + 1,
{
    if from < 0 {
        None
    } else if occurs_at(s, pat, from) {
        Some(from)
    } else {
        last_match(s, pat, from - 1)
    }
}

/// The first position at or after `from` that holds `c`.
pub open spec fn first_char(s: Seq<char>, c: char, from: int) -> Option<int>
    decreases s.len() - from,
{
    if from >= s.len() {
        None
    } else if s[from] == c {
        Some(from)
    } else {
        first_char(s, c, from + 1)
    }
}

/// What `last_match` says of the position it gives.
pub proof fn lemma_last_match(s: Seq<char>, pat: Seq<char>, from: int)
    ensures
        match last_match(s, pat, from) {
            Some(i) => i <= from && occurs_at(s, pat, i) && forall|j: int|
                i < j <= from ==> !occurs_at(s, pat, j),
            None => forall|j: int| j <= from ==> !occurs_at(s, pat, j),
        },
    decreases from + 1,
{
    if from >= 0 && !occurs_at(s, pat, from) {
        lemma_last_match(s, pat, from - 1);
    }
}

/// What `first_match` says of the position it gives.
pub proof fn lemma_first_match(s: Seq<char>, pat: Seq<char>, from: int)
    requires
        0 <= from,
    ensures
        match first_match(s, pat, from) {
            Some(i) => from <= i && occurs_at(s, pat, i) && forall|j: int|
                from <= j < i ==> !occurs_at(s, pat, j),
            None => forall|j: int| from <= j ==> !occurs_at(s, pat, j),
        },
    decreases s.len() + 1 - from,
{
    if from + pat.len() <= s.len() && !occurs_at(s, pat, from) {
        lemma_first_match(s, pat, from + 1);
    }
}

/// A position with the properties of a first match is the first match.
pub proof fn lemma_first_match_is(s: Seq<char>, pat: Seq<char>, from: int, i: int)
    requires
        0 <= from <= i,
        occurs_at(s, pat, i),
        forall|j: int| from <= j < i ==> !occurs_at(s, pat, j),
    ensures
        first_match(s, pat, from) == Some(i),
    decreases i - from,
{
    if from < i {
        lemma_first_match_is(s, pat, from + 1, i);
    }
}

/// What `first_char` says of the position it gives.
pub proof fn lemma_first_char(s: Seq<char>, c: char, from: int)
    requires
        0 <= from,
    ensures
        match first_char(s, c, from) {
            Some(i) => from <= i < s.len() && s[i] == c && forall|j: int|
                from <= j < i ==> s[j] != c,
            None => forall|j: int| from <= j < s.len() ==> s[j] != c,
        },
    decreases s.len() - from,
{
    if from < s.len() && s[from] != c {
        lemma_first_char(s, c, from + 1);
    }
}

/// A position with the properties of a first occurrence is the first occurrence.
pub proof fn lemma_first_char_is(s: Seq<char>, c: char, from: int, i: int)
    requires
        0 <= from <= i < s.len(),
        s[i] == c,
        forall|j: int| from <= j < i ==> s[j] != c,
    ensures
        first_char(s, c, from) == Some(i),
    decreases i - from,
{
    if from < i {
        lemma_first_char_is(s, c, from + 1, i);
    }
}

/// Whether `pat` stands in `chars` at position `i`.
pub fn matches_at(chars: &Vec<char>, pat: &Vec<char>, i: usize) -> (yes: bool)
    ensures
        yes == occurs_at(chars@, pat@, i as int),
{
    if i > chars.len() || pat.len() > chars.len() - i {
        return false;
    }
    let len = chars.len();
    let mut k: usize = 0;
    while k < pat.len()
        invariant
            k <= pat@.len(),
            len == chars@.len(),
            i + pat@.len() <= len,
            forall|j: int| 0 <= j < k ==> chars@[i + j] == pat@[j],
        decreases pat@.len() - k,
    {
        if chars[i + k] != pat[k] {
            assert(chars@.subrange(i as int, i + pat@.len())[k as int] != pat@[k as int]);
            return false;
        }
        k += 1;
    }
    assert(chars@.subrange(i as int, i + pat@.len()) =~= pat@);
    true
}

/// Find `pat` in `chars`, looking from `from` on.
pub fn find(chars: &Vec<char>, pat: &Vec<char>, from: usize) -> (at: Option<usize>)
    ensures
        match at {
            Some(i) => first_match(chars@, pat@, from as int) == Some(i as int),
            None => first_match(chars@, pat@, from as int) is None,
        },
{
    let mut i: usize = from;
    while i <= chars.len()
        invariant
            from <= i,
            first_match(chars@, pat@, from as int) == first_match(chars@, pat@, i as int),
        decreases chars@.len() + 1 - i,
    {
        if matches_at(chars, pat, i) {
            return Some(i);
        }
        if pat.len() > chars.len() - i {
            return None;
        }
        assert(pat@.len() > 0) by {
            if pat@.len() == 0 {
                assert(chars@.subrange(i as int, i + pat@.len()) =~= pat@);
            }
        }
        i += 1;
    }
    None
}

/// Find the last place where `pat` stands in `chars`.
pub fn find_last(chars: &Vec<char>, pat: &Vec<char>) -> (at: Option<usize>)
    ensures
        match at {
            Some(i) => last_match(chars@, pat@, chars@.len() as int) == Some(i as int),
            None => last_match(chars@, pat@, chars@.len() as int) is None,
        },
{
    let mut i: usize = chars.len();
    loop
        invariant
            i <= chars@.len(),
            last_match(chars@, pat@, chars@.len() as int) == last_match(chars@, pat@, i as int),
        decreases i,
    {
        if matches_at(chars, pat, i) {
            return Some(i);
        }
        if i == 0 {
            assert(last_match(chars@, pat@, -1) is None);
            return None;
        }
        i -= 1;
    }
}

/// Find `c` in `chars`, looking from `from` on.
pub fn find_char(chars: &Vec<char>, c: char, from: usize) -> (at: Option<usize>)
    ensures
        match at {
            Some(i) => first_char(chars@, c, from as int) == Some(i as int),
            None => first_char(chars@, c, from as int) is None,
        },
{
    let mut i: usize = from;
    while i < chars.len()
        invariant
            from <= i,
            first_char(chars@, c, from as int) == first_char(chars@, c, i as int),
        decreases chars@.len() - i,
    {
        if chars[i] == c {
            return Some(i);
        }
        i += 1;
    }
    None
}

/// Looking for `c` in the tail of `s` finds it at the same place.
pub proof fn lemma_first_char_skip(s: Seq<char>, c: char, k: int)
    requires
        0 <= k <= s.len(),
    ensures
        match first_char(s, c, k) {
            Some(i) => first_char(s.skip(k), c, 0) == Some(i - k),
            None => first_char(s.skip(k), c, 0) is None,
        },
{
    lemma_first_char(s, c, k);
    lemma_first_char(s.skip(k), c, 0);
    match first_char(s, c, k) {
        Some(i) => {
            lemma_first_char_is(s.skip(k), c, 0, i - k);
        },
        None => {
            if let Some(j) = first_char(s.skip(k), c, 0) {
                assert(s[k + j] == c);
            }
        },
    }
}

/// A pattern stands in the tail of `s` where it stands in `s`.
pub proof fn lemma_occurs_skip(s: Seq<char>, pat: Seq<char>, k: int, i: int)
    requires
        0 <= k <= s.len(),
        0 <= i,
    ensures
        occurs_at(s.skip(k), pat, i) == occurs_at(s, pat, k + i),
{
    if k + i + pat.len() <= s.len() {
        assert(s.skip(k).subrange(i, i + pat.len()) =~= s.subrange(k + i, k + i + pat.len()));
    }
}

/// Looking for a pattern in the tail of `s` finds it at the same place.
pub proof fn lemma_first_match_skip(s: Seq<char>, pat: Seq<char>, k: int)
    requires
        0 <= k <= s.len(),
    ensures
        match first_match(s, pat, k) {
            Some(i) => first_match(s.skip(k), pat, 0) == Some(i - k),
            None => first_match(s.skip(k), pat, 0) is None,
        },
{
    lemma_first_match(s, pat, k);
    lemma_first_match(s.skip(k), pat, 0);
    assert forall|j: int| 0 <= j implies occurs_at(s.skip(k), pat, j) == occurs_at(
        s,
        pat,
        k + j,
    ) by {
        lemma_occurs_skip(s, pat, k, j);
    }
    match first_match(s, pat, k) {
        Some(i) => {
            assert(occurs_at(s.skip(k), pat, i - k));
            lemma_first_match_is(s.skip(k), pat, 0, i - k);
        },
        None => {
            if let Some(j) = first_match(s.skip(k), pat, 0) {
                assert(occurs_at(s, pat, k + j));
            }
        },
    }
}

/// The parts of `s` between the occurrences of `c`; one more part than
/// occurrences.
pub open spec fn split(s: Seq<char>, c: char) -> Seq<Seq<char>>
    decreases s.len(),
{
    match first_char(s, c, 0) {
        Some(i) => {
            proof {
                lemma_first_char(s, c, 0);
            }
            seq![s.take(i)] + split(s.skip(i + 1), c)
        },
        None => seq![s],
    }
}

/// The parts written one after another with `c` between them.
pub open spec fn join(parts: Seq<Seq<char>>, c: char) -> Seq<char>
    decreases parts.len(),
{
    if parts.len() == 0 {
        seq![]
    } else if parts.len() == 1 {
        parts[0]
    } else {
        parts[0] + seq![c] + join(parts.skip(1), c)
    }
}

/// A text always has at least one part.
pub proof fn lemma_split_nonempty(s: Seq<char>, c: char)
    ensures
        split(s, c).len() >= 1,
{
}

/// The texts of a list of strings.
pub open spec fn texts(strings: Seq<String>) -> Seq<Seq<char>> {
    strings.map_values(|t: String| t@)
}

/// Whether a text is in the list.
pub fn contains_text(list: &Vec<String>, text: &str) -> (found: bool)
    ensures
        found == texts(list@).contains(text@),
{
    let ghost all = texts(list@);
    let mut i: usize = 0;
    while i < list.len()
        invariant
            i <= list@.len(),
            all == texts(list@),
            forall|j: int| 0 <= j < i ==> all[j] != text@,
        decreases list@.len() - i,
    {
        assert(all[i as int] == list@[i as int]@);
        if same_text(list[i].as_str(), text) {
            return true;
        }
        i += 1;
    }
    false
}

} // verus!
