//! Paths as text, with `/` between the components. Paths are taken as they are
//! written: nothing here looks at a disk. Where a platform writes paths with
//! another separator and with drive letters, [`to_slash_form`] gives the form that
//! is worked on here, and [`to_native_form`] the form that the platform reads.

use crate::text::{matches_at, same_text, slice_text, texts, to_chars};
use vstd::prelude::*;

verus! {

/// How much of a path comes before its names: the root, or a leading `.`.
pub open spec fn lead(p: Seq<char>) -> int {
    if p.len() > 0 && p[0] == '/' {
        1
    } else if p.len() > 0 && p[0] == '.' && (p.len() == 1 || p[1] == '/') {
        1
    } else {
        0
    }
}

/// Whether a path starts at the root.
pub open spec fn is_absolute(p: Seq<char>) -> bool {
    p.len() > 0 && p[0] == '/'
}

/// The last separator at or after `start` and before `end`.
pub open spec fn last_separator(p: Seq<char>, start: int, end: int) -> Option<int>
    decreases end - start,
{
    if end <= start {
        None
    } else if p[end - 1] == '/' {
        Some(end - 1)
    } else {
        last_separator(p, start, end - 1)
    }
}

/// Where the last name before `end` begins.
pub open spec fn name_start(p: Seq<char>, start: int, end: int) -> int {
    match last_separator(p, start, end) {
        Some(k) => k + 1,
        None => start,
    }
}

/// Where the path without the last name before `end` ends.
pub open spec fn rest_end(p: Seq<char>, start: int, end: int) -> int {
    match last_separator(p, start, end) {
        Some(k) => k,
        None => start,
    }
}

/// The last name before `end`.
pub open spec fn last_name(p: Seq<char>, start: int, end: int) -> Seq<char> {
    p.subrange(name_start(p, start, end), end)
}

/// A name that leads nowhere: nothing between two separators, or `.`.
pub open spec fn is_idle(name: Seq<char>) -> bool {
    name.len() == 0 || name == seq!['.']
}

pub proof fn lemma_last_separator(p: Seq<char>, start: int, end: int)
    requires
        0 <= start <= end <= p.len(),
    ensures
        match last_separator(p, start, end) {
            Some(k) => start <= k < end && p[k] == '/' && forall|j: int|
                k < j < end ==> p[j] != '/',
            None => forall|j: int| start <= j < end ==> p[j] != '/',
        },
        start <= name_start(p, start, end) <= end,
        start <= rest_end(p, start, end) <= end,
        start < end ==> rest_end(p, start, end) < end,
    decreases end - start,
{
    if start < end && p[end - 1] != '/' {
        lemma_last_separator(p, start, end - 1);
    }
}

/// The names between `start` and `end` that lead somewhere, in order.
pub open spec fn names_before(p: Seq<char>, start: int, end: int) -> Seq<Seq<char>>
    decreases end,
{
    if start < 0 || end <= start || end > p.len() {
        seq![]
    } else {
        proof {
            lemma_last_separator(p, start, end);
        }
        let before = names_before(p, start, rest_end(p, start, end));
        if is_idle(last_name(p, start, end)) {
            before
        } else {
            before.push(last_name(p, start, end))
        }
    }
}

/// Where a path begins.
#[derive(Clone, Copy, Debug, PartialEq, Eq, Structural)]
pub enum Origin {
    /// At the root.
    Root,
    /// At a leading `.`.
    Here,
    /// At its first name.
    Bare,
}

/// Where a path begins.
pub open spec fn origin(p: Seq<char>) -> Origin {
    if is_absolute(p) {
        Origin::Root
    } else if lead(p) == 1 {
        Origin::Here
    } else {
        Origin::Bare
    }
}

/// The names of a path, in order.
pub open spec fn names(p: Seq<char>) -> Seq<Seq<char>> {
    names_before(p, lead(p), p.len() as int)
}

/// Where the text before `end` ends once idle names are dropped from its end.
pub open spec fn trimmed_end(p: Seq<char>, start: int, end: int) -> int
    decreases end,
{
    if start < 0 || end <= start || end > p.len() {
        end
    } else {
        proof {
            lemma_last_separator(p, start, end);
        }
        if is_idle(last_name(p, start, end)) {
            trimmed_end(p, start, rest_end(p, start, end))
        } else {
            end
        }
    }
}

/// The path without its last name; of a lone `.`, the empty path. The root and
/// the empty path have none.
pub open spec fn parent_of(p: Seq<char>) -> Option<Seq<char>> {
    let start = lead(p);
    let end = trimmed_end(p, start, p.len() as int);
    if end > start {
        Some(p.take(trimmed_end(p, start, rest_end(p, start, end))))
    } else if origin(p) == Origin::Here {
        Some(seq![])
    } else {
        None
    }
}

/// The directory of a file: the path without its last name, or `.` where there
/// is none.
pub open spec fn directory_of(p: Seq<char>) -> Seq<char> {
    match parent_of(p) {
        Some(dir) => dir,
        None => "."@,
    }
}

/// A file named from a directory. An absolute name stands for itself.
pub open spec fn joined(dir: Seq<char>, file: Seq<char>) -> Seq<char> {
    if is_absolute(file) {
        file
    } else if dir.len() > 0 && dir.last() != '/' {
        dir + seq!['/'] + file
    } else {
        dir + file
    }
}

/// Two paths are the same where they begin in the same way and have the same
/// names.
pub open spec fn is_same_path(a: Seq<char>, b: Seq<char>) -> bool {
    origin(a) == origin(b) && names(a) == names(b)
}

/// A sheet file is named by a relative path that never leads upward, and ends in
/// `.kicad_sch` after at least one character.
pub open spec fn is_sheet_file(file: Seq<char>) -> bool {
    &&& origin(file) == Origin::Bare
    &&& names(file).len() > 0
    &&& !names(file).contains(seq!['.', '.'])
    &&& ".kicad_sch"@.len() < names(file).last().len()
    &&& names(file).last().skip(names(file).last().len() - ".kicad_sch"@.len())
        == ".kicad_sch"@
}

fn lead_of(chars: &Vec<char>) -> (start: usize)
    ensures
        start == lead(chars@),
        start <= chars@.len(),
{
    if chars.len() > 0 && chars[0] == '/' {
        1
    } else if chars.len() > 0 && chars[0] == '.' && (chars.len() == 1 || chars[1] == '/') {
        1
    } else {
        0
    }
}

fn find_last_separator(chars: &Vec<char>, start: usize, end: usize) -> (at: Option<usize>)
    requires
        start <= end <= chars@.len(),
    ensures
        match at {
            Some(k) => last_separator(chars@, start as int, end as int) == Some(k as int),
            None => last_separator(chars@, start as int, end as int) is None,
        },
{
    let mut i: usize = end;
    while i > start
        invariant
            start <= i <= end <= chars@.len(),
            last_separator(chars@, start as int, end as int) == last_separator(
                chars@,
                start as int,
                i as int,
            ),
        decreases i,
    {
        if chars[i - 1] == '/' {
            return Some(i - 1);
        }
        i -= 1;
    }
    None
}

fn is_idle_name(chars: &Vec<char>, from: usize, to: usize) -> (idle: bool)
    requires
        from <= to <= chars@.len(),
    ensures
        idle == is_idle(chars@.subrange(from as int, to as int)),
{
    let ghost name = chars@.subrange(from as int, to as int);
    if from == to {
        return true;
    }
    let idle = to - from == 1 && chars[from] == '.';
    assert(name[0] == chars@[from as int]);
    assert(idle ==> name =~= seq!['.']);
    idle
}

fn trim_end(chars: &Vec<char>, start: usize, end: usize) -> (trimmed: usize)
    requires
        start <= end <= chars@.len(),
    ensures
        trimmed == trimmed_end(chars@, start as int, end as int),
        start <= trimmed <= end,
{
    let mut e: usize = end;
    while e > start
        invariant
            start <= e <= end <= chars@.len(),
            trimmed_end(chars@, start as int, end as int) == trimmed_end(
                chars@,
                start as int,
                e as int,
            ),
        decreases e,
    {
        proof {
            lemma_last_separator(chars@, start as int, e as int);
        }
        let (from, rest) = match find_last_separator(chars, start, e) {
            Some(k) => (k + 1, k),
            None => (start, start),
        };
        if !is_idle_name(chars, from, e) {
            return e;
        }
        e = rest;
    }
    e
}

fn names_until(chars: &Vec<char>, start: usize, end: usize) -> (found: Vec<String>)
    requires
        start <= end <= chars@.len(),
    ensures
        texts(found@) == names_before(chars@, start as int, end as int),
    decreases end,
{
    if end <= start {
        let found: Vec<String> = Vec::new();
        assert(texts(found@) =~= names_before(chars@, start as int, end as int));
        return found;
    }
    proof {
        lemma_last_separator(chars@, start as int, end as int);
    }
    let (from, rest) = match find_last_separator(chars, start, end) {
        Some(k) => (k + 1, k),
        None => (start, start),
    };
    let mut found = names_until(chars, start, rest);
    if !is_idle_name(chars, from, end) {
        let ghost before = found@;
        found.push(slice_text(chars, from, end));
        assert(texts(found@) =~= texts(before).push(
            last_name(chars@, start as int, end as int),
        ));
    }
    found
}

/// The path begins with a drive: a letter and a colon.
pub open spec fn has_drive(p: Seq<char>) -> bool {
    p.len() >= 2 && (('a' <= p[0] && p[0] <= 'z') || ('A' <= p[0] && p[0] <= 'Z')) && p[1] == ':'
}

/// A path of a platform with that separator, with `/` between its names. A drive
/// becomes the first name below the root.
pub open spec fn slash_form(p: Seq<char>, separator: char) -> Seq<char> {
    if separator == '/' {
        p
    } else {
        let slashed = p.map_values(
            |c: char|
                if c == separator {
                    '/'
                } else {
                    c
                },
        );
        if has_drive(p) {
            seq!['/'] + slashed
        } else {
            slashed
        }
    }
}

/// A path in slash form as a platform with that separator reads it: a drive comes
/// first. Such a platform takes `/` for a separator as well.
pub open spec fn native_form(p: Seq<char>, separator: char) -> Seq<char> {
    if separator != '/' && p.len() > 0 && p[0] == '/' && has_drive(p.skip(1)) {
        p.skip(1)
    } else {
        p
    }
}

fn drive_at(chars: &Vec<char>, start: usize) -> (yes: bool)
    requires
        start <= chars@.len(),
    ensures
        yes == has_drive(chars@.skip(start as int)),
{
    let ghost rest = chars@.skip(start as int);
    if chars.len() - start < 2 {
        return false;
    }
    assert(rest[0] == chars@[start as int] && rest[1] == chars@[start + 1]);
    let c = chars[start];
    (('a' <= c && c <= 'z') || ('A' <= c && c <= 'Z')) && chars[start + 1] == ':'
}

/// A path of a platform with that separator, with `/` between its names.
pub fn to_slash_form(path: &str, separator: char) -> (slashed: String)
    ensures
        slashed@ == slash_form(path@, separator),
{
    if separator == '/' {
        return path.to_owned();
    }
    let chars = to_chars(path);
    let ghost whole = slash_form(path@, separator);
    let ghost mapped = path@.map_values(
        |c: char|
            if c == separator {
                '/'
            } else {
                c
            },
    );
    assert(chars@.skip(0) =~= path@);
    let mut slashed = String::new();
    if drive_at(&chars, 0) {
        slashed.push('/');
    }
    let ghost lead_text = slashed@;
    assert(whole =~= lead_text + mapped);
    let mut i: usize = 0;
    assert(lead_text + mapped.take(0) =~= lead_text);
    while i < chars.len()
        invariant
            i <= chars@.len(),
            chars@ == path@,
            mapped == path@.map_values(
                |c: char|
                    if c == separator {
                        '/'
                    } else {
                        c
                    },
            ),
            slashed@ == lead_text + mapped.take(i as int),
        decreases chars@.len() - i,
    {
        let c = if chars[i] == separator {
            '/'
        } else {
            chars[i]
        };
        slashed.push(c);
        assert(mapped[i as int] == c);
        assert(lead_text + mapped.take(i + 1) =~= (lead_text + mapped.take(i as int)).push(c));
        i += 1;
    }
    assert(mapped.take(i as int) =~= mapped);
    slashed
}

/// A path in slash form as a platform with that separator reads it.
pub fn to_native_form(path: &str, separator: char) -> (native: String)
    ensures
        native@ == native_form(path@, separator),
{
    let chars = to_chars(path);
    if separator != '/' && chars.len() > 0 && chars[0] == '/' && drive_at(&chars, 1) {
        let native = slice_text(&chars, 1, chars.len());
        assert(native@ =~= path@.skip(1));
        native
    } else {
        path.to_owned()
    }
}

/// The names of a path, in order.
pub fn path_names(path: &str) -> (found: Vec<String>)
    ensures
        texts(found@) == names(path@),
{
    let chars = to_chars(path);
    let start = lead_of(&chars);
    names_until(&chars, start, chars.len())
}

/// Where a path begins.
pub fn path_origin(path: &str) -> (found: Origin)
    ensures
        found == origin(path@),
{
    let chars = to_chars(path);
    if chars.len() > 0 && chars[0] == '/' {
        Origin::Root
    } else if lead_of(&chars) == 1 {
        Origin::Here
    } else {
        Origin::Bare
    }
}

/// The path without its last name.
pub fn path_parent(path: &str) -> (parent: Option<String>)
    ensures
        match parent {
            Some(dir) => parent_of(path@) == Some(dir@),
            None => parent_of(path@) is None,
        },
{
    let chars = to_chars(path);
    let start = lead_of(&chars);
    let end = trim_end(&chars, start, chars.len());
    if end > start {
        proof {
            lemma_last_separator(chars@, start as int, end as int);
        }
        let rest = match find_last_separator(&chars, start, end) {
            Some(k) => k,
            None => start,
        };
        let cut = trim_end(&chars, start, rest);
        assert(chars@.subrange(0, cut as int) =~= path@.take(cut as int));
        Some(slice_text(&chars, 0, cut))
    } else if start == 1 && chars[0] != '/' {
        let empty = String::new();
        assert(empty@ =~= seq![]);
        Some(empty)
    } else {
        None
    }
}

/// The directory of a file.
pub fn parent_dir(path: &str) -> (dir: String)
    ensures
        dir@ == directory_of(path@),
{
    match path_parent(path) {
        Some(dir) => dir,
        None => ".".to_owned(),
    }
}

/// A file named from a directory.
pub fn join_path(dir: &str, file: &str) -> (path: String)
    ensures
        path@ == joined(dir@, file@),
{
    let file_chars = to_chars(file);
    if file_chars.len() > 0 && file_chars[0] == '/' {
        return file.to_owned();
    }
    let dir_chars = to_chars(dir);
    let mut path = dir.to_owned();
    if dir_chars.len() > 0 && dir_chars[dir_chars.len() - 1] != '/' {
        path.push('/');
        assert(path@ =~= dir@ + seq!['/']);
    }
    path.append(file);
    path
}

/// The path of the child file of a sheet, named from the directory of the
/// schematic that the sheet is in.
pub fn child_path(schematic: &str, file: &str) -> (path: String)
    ensures
        path@ == joined(directory_of(schematic@), file@),
{
    let dir = parent_dir(schematic);
    join_path(dir.as_str(), file)
}

/// Whether two paths are the same.
pub fn same_path(a: &str, b: &str) -> (same: bool)
    ensures
        same == is_same_path(a@, b@),
{
    if path_origin(a) != path_origin(b) {
        return false;
    }
    let left = path_names(a);
    let right = path_names(b);
    let ghost l = texts(left@);
    let ghost r = texts(right@);
    if left.len() != right.len() {
        assert(l.len() != r.len());
        return false;
    }
    let mut i: usize = 0;
    while i < left.len()
        invariant
            i <= left@.len() == right@.len(),
            l == texts(left@),
            r == texts(right@),
            l == names(a@),
            r == names(b@),
            forall|j: int| 0 <= j < i ==> l[j] == r[j],
        decreases left@.len() - i,
    {
        if !same_text(left[i].as_str(), right[i].as_str()) {
            assert(l[i as int] != r[i as int]);
            return false;
        }
        assert(l[i as int] == left@[i as int]@);
        assert(r[i as int] == right@[i as int]@);
        i += 1;
    }
    assert(l =~= r);
    true
}

/// Whether a name may be given to a sheet file.
pub fn is_valid_sheet_file(file: &str) -> (valid: bool)
    ensures
        valid == is_sheet_file(file@),
{
    proof {
        reveal_strlit("..");
        reveal_strlit(".kicad_sch");
        assert(".."@ =~= seq!['.', '.']);
    }
    if path_origin(file) != Origin::Bare {
        return false;
    }
    let found = path_names(file);
    let ghost all = texts(found@);
    if found.len() == 0 {
        return false;
    }
    let mut i: usize = 0;
    while i < found.len()
        invariant
            i <= found@.len(),
            all == texts(found@),
            all == names(file@),
            ".."@ == seq!['.', '.'],
            forall|j: int| 0 <= j < i ==> all[j] != seq!['.', '.'],
        decreases found@.len() - i,
    {
        assert(all[i as int] == found@[i as int]@);
        if same_text(found[i].as_str(), "..") {
            assert(all.contains(seq!['.', '.']));
            return false;
        }
        i += 1;
    }
    assert(!all.contains(seq!['.', '.']));
    let last = to_chars(found[found.len() - 1].as_str());
    assert(last@ == all.last());
    let suffix = to_chars(".kicad_sch");
    if last.len() <= suffix.len() {
        return false;
    }
    let from = last.len() - suffix.len();
    assert(last@.subrange(from as int, last@.len() as int) =~= last@.skip(from as int));
    matches_at(&last, &suffix, from)
}

/// Names are found by what stands before `end`, whatever comes after.
proof fn lemma_names_of_a_prefix(p: Seq<char>, q: Seq<char>, start: int, end: int)
    requires
        0 <= start,
        end <= p.len(),
        end <= q.len(),
        forall|i: int| 0 <= i < end ==> p[i] == q[i],
    ensures
        names_before(p, start, end) == names_before(q, start, end),
    decreases end,
{
    if start < end {
        lemma_last_separator(p, start, end);
        lemma_last_separator(q, start, end);
        assert(last_separator(p, start, end) == last_separator(q, start, end)) by {
            match last_separator(p, start, end) {
                Some(k) => {
                    assert(q[k] == '/');
                    match last_separator(q, start, end) {
                        Some(m) => {
                            assert(p[m] == '/');
                        },
                        None => {},
                    }
                },
                None => {
                    if let Some(m) = last_separator(q, start, end) {
                        assert(p[m] == '/');
                    }
                },
            }
        }
        assert(last_name(p, start, end) =~= last_name(q, start, end));
        lemma_names_of_a_prefix(p, q, start, rest_end(p, start, end));
    }
}

/// Dropping idle names from the end drops none of the names.
proof fn lemma_trimming_keeps_names(p: Seq<char>, start: int, end: int)
    requires
        0 <= start <= end <= p.len(),
    ensures
        names_before(p, start, trimmed_end(p, start, end)) == names_before(p, start, end),
        start <= trimmed_end(p, start, end) <= end,
        ({
            let e = trimmed_end(p, start, end);
            e > start ==> !is_idle(last_name(p, start, e))
        }),
    decreases end,
{
    if start < end {
        lemma_last_separator(p, start, end);
        if is_idle(last_name(p, start, end)) {
            lemma_trimming_keeps_names(p, start, rest_end(p, start, end));
        }
    }
}

/// The parent of a path has the names of the path but the last, and begins where
/// the path begins.
pub proof fn law_parent_drops_the_last_name(p: Seq<char>)
    requires
        names(p).len() > 0,
    ensures
        parent_of(p) is Some,
        names(parent_of(p)->0) == names(p).drop_last(),
        parent_of(p)->0.len() > 0 ==> origin(parent_of(p)->0) == origin(p),
{
    let start = lead(p);
    let len = p.len() as int;
    let end = trimmed_end(p, start, len);
    lemma_trimming_keeps_names(p, start, len);
    if end <= start {
        assert(names_before(p, start, end).len() == 0);
    }
    lemma_last_separator(p, start, end);
    let rest = rest_end(p, start, end);
    let cut = trimmed_end(p, start, rest);
    lemma_trimming_keeps_names(p, start, rest);
    let parent = p.take(cut);
    assert(names_before(p, start, end) == names_before(p, start, rest).push(
        last_name(p, start, end),
    ));
    assert(names_before(p, start, rest) =~= names(p).drop_last());
    lemma_names_of_a_prefix(p, parent, start, cut);
    if cut > 0 {
        assert(parent[0] == p[0]);
        if cut > 1 {
            assert(parent[1] == p[1]);
        }
        if start == 0 && p[0] == '.' && cut == 1 {
            lemma_cut_is_at_a_separator(p, rest);
            assert(rest_end(p, start, end) == rest);
            if rest == 1 {
                assert(p[1] == '/');
            }
        }
        assert(lead(parent) == start);
    } else {
        assert(start == 0);
        assert(names_before(parent, 0, 0) =~= names(parent));
    }
}

/// Trimming stops at the end or at a separator.
proof fn lemma_cut_is_at_a_separator(p: Seq<char>, end: int)
    requires
        0 <= end <= p.len(),
    ensures
        ({
            let e = trimmed_end(p, 0, end);
            e == end || e == 0 || (0 <= e < end && p[e] == '/')
        }),
    decreases end,
{
    if 0 < end {
        lemma_last_separator(p, 0, end);
        if is_idle(last_name(p, 0, end)) {
            lemma_cut_is_at_a_separator(p, rest_end(p, 0, end));
        }
    }
}

proof fn lemma_joined_names(dir: Seq<char>, file: Seq<char>, start: int, k: int)
    requires
        origin(file) == Origin::Bare,
        dir.len() > 0,
        start == lead(dir),
        0 <= k <= file.len(),
    ensures
        ({
            let p = joined(dir, file);
            names_before(p, start, p.len() - file.len() + k) == names_before(
                dir,
                start,
                dir.len() as int,
            ) + names_before(file, 0, k)
        }),
    decreases k,
{
    let p = joined(dir, file);
    let d = dir.len() as int;
    let base = p.len() - file.len();
    let end = base + k;
    lemma_names_of_a_prefix(p, dir, start, d);
    if k == 0 {
        if base > d {
            lemma_last_separator(p, start, end);
            assert(p[d] == '/');
            assert(last_separator(p, start, end) == Some(d));
            assert(last_name(p, start, end).len() == 0);
        }
        assert(names_before(p, start, base) == names_before(dir, start, d));
    } else {
        lemma_joined_names(dir, file, start, 0);
        lemma_last_separator(file, 0, k);
        lemma_last_separator(p, start, end);
        assert(forall|i: int| 0 <= i < file.len() ==> p[base + i] == file[i]);
        match last_separator(file, 0, k) {
            Some(j) => {
                assert(p[base + j] == '/');
                let m = last_separator(p, start, end)->0;
                if m != base + j {
                    assert(m > base + j);
                    assert(file[m - base] == '/');
                }
                lemma_joined_names(dir, file, start, j);
                assert(last_name(p, start, end) =~= last_name(file, 0, k));
            },
            None => {
                match last_separator(p, start, end) {
                    Some(m) => {
                        if m >= base {
                            assert(file[m - base] == '/');
                        }
                        assert(m == base - 1) by {
                            if p[base - 1] == '/' && start <= base - 1 {
                            } else {
                                assert(base == d);
                                assert(dir.last() == '/');
                            }
                        }
                        lemma_last_separator(p, start, base);
                        assert(last_separator(p, start, base) == Some(base - 1));
                        assert(last_name(p, start, base).len() == 0);
                        assert(names_before(p, start, base) == names_before(p, start, base - 1));
                    },
                    None => {
                        assert(p[base - 1] == '/');
                        assert(start >= base);
                        assert(names_before(p, start, start).len() == 0);
                    },
                }
                assert(last_name(p, start, end) =~= last_name(file, 0, k));
                assert(names_before(file, 0, 0).len() == 0);
            },
        }
    }
}

/// The names of a file named from a directory are those of the directory followed
/// by those of the file.
pub proof fn law_join_appends_the_names(dir: Seq<char>, file: Seq<char>)
    requires
        dir.len() > 0,
        origin(file) == Origin::Bare,
    ensures
        origin(joined(dir, file)) == origin(dir),
        names(joined(dir, file)) == names(dir) + names(file),
{
    let p = joined(dir, file);
    lemma_joined_names(dir, file, lead(dir), file.len() as int);
    assert(p[0] == dir[0]);
    if dir.len() > 1 {
        assert(p[1] == dir[1]);
    } else if dir[0] != '/' {
        assert(p[1] == '/');
    }
    assert(lead(p) == lead(dir));
}

/// A sheet file is found below the directory it is named from: its path has the
/// names of the directory first, and then only names that do not lead upward.
pub proof fn law_sheet_file_stays_below_its_directory(dir: Seq<char>, file: Seq<char>)
    requires
        dir.len() > 0,
        is_sheet_file(file),
    ensures
        ({
            let found = names(joined(dir, file));
            &&& origin(joined(dir, file)) == origin(dir)
            &&& found.len() > names(dir).len()
            &&& found.take(names(dir).len() as int) == names(dir)
            &&& forall|i: int|
                names(dir).len() <= i < found.len() ==> #[trigger] found[i] != seq!['.', '.']
        }),
{
    law_join_appends_the_names(dir, file);
    let found = names(joined(dir, file));
    let n = names(dir).len() as int;
    assert(found.take(n) =~= names(dir));
    assert forall|i: int| n <= i < found.len() implies #[trigger] found[i] != seq!['.', '.'] by {
        assert(found[i] == names(file)[i - n]);
    }
}

/// A path with a drive starts at the root in slash form, so a file that names a
/// drive stands for itself, and is no sheet file.
pub proof fn law_drives_are_absolute(p: Seq<char>, dir: Seq<char>)
    requires
        has_drive(p),
    ensures
        is_absolute(slash_form(p, '\\')),
        joined(dir, slash_form(p, '\\')) == slash_form(p, '\\'),
        !is_sheet_file(slash_form(p, '\\')),
{
}

/// Going to slash form and back gives the path with `/` for the separator, which
/// the platform takes for the same path. Left out are paths with a drive below
/// their root, which no platform has.
pub proof fn law_slash_form_reads_back(p: Seq<char>)
    requires
        !(p.len() > 0 && (p[0] == '\\' || p[0] == '/') && has_drive(p.skip(1))),
    ensures
        native_form(slash_form(p, '\\'), '\\') == p.map_values(
            |c: char|
                if c == '\\' {
                    '/'
                } else {
                    c
                },
        ),
        native_form(slash_form(p, '/'), '/') == p,
{
    let mapped = p.map_values(
        |c: char|
            if c == '\\' {
                '/'
            } else {
                c
            },
    );
    let slashed = slash_form(p, '\\');
    if has_drive(p) {
        assert(slashed.skip(1) =~= mapped);
        assert(mapped[0] == p[0] && mapped[1] == p[1]);
    } else if mapped.len() >= 3 && mapped[0] == '/' {
        let rest = mapped.skip(1);
        assert(rest[0] == mapped[1] && rest[1] == mapped[2]);
        assert(p.skip(1)[0] == p[1] && p.skip(1)[1] == p[2]);
    }
}

/// A path that begins with a slash begins at the root, one that is a dot or begins
/// with a dot and a slash begins here, and any other with its first name.
pub proof fn law_beginning_tells_the_origin(p: Seq<char>)
    ensures
        origin(p) == Origin::Root <==> p.len() > 0 && p[0] == '/',
        origin(p) == Origin::Here <==> p == seq!['.'] || p.len() >= 2 && p[0] == '.' && p[1]
            == '/',
{
    if p.len() == 1 && p[0] == '.' {
        assert(p =~= seq!['.']);
    }
}

/// Text without a slash is one name, unless it is empty or a dot, which are none;
/// nor is there a name in the root.
pub proof fn law_one_name_is_itself(name: Seq<char>)
    requires
        !name.contains('/'),
    ensures
        name.len() > 0 && name != seq!['.'] ==> names(name) == seq![name],
        names(seq![]).len() == 0,
        names(seq!['.']).len() == 0,
        names(seq!['/']).len() == 0,
{
    let len = name.len() as int;
    if len > 0 && name != seq!['.'] {
        if name[0] == '.' && len == 1 {
            assert(name =~= seq!['.']);
        }
        if len >= 2 && name[1] == '/' {
            assert(name.contains('/'));
        }
        if name[0] == '/' {
            assert(name.contains('/'));
        }
        assert(lead(name) == 0);
        lemma_last_separator(name, 0, len);
        if let Some(k) = last_separator(name, 0, len) {
            assert(name.contains('/'));
        }
        assert(last_name(name, 0, len) =~= name);
        assert(names_before(name, 0, 0).len() == 0);
        assert(names(name) =~= seq![name]);
    }
}

/// A slash at the end of a path, with or without a dot behind it, adds no name.
pub proof fn law_closing_slash_adds_no_name(p: Seq<char>)
    requires
        p.len() > 0,
    ensures
        names(p.push('/')) == names(p),
        names(p.push('/').push('.')) == names(p),
        origin(p.push('/')) == origin(p),
{
    let len = p.len() as int;
    let q = p.push('/');
    let r = q.push('.');
    assert(q[0] == p[0] && r[0] == p[0]);
    if len > 1 {
        assert(q[1] == p[1] && r[1] == p[1]);
    } else {
        assert(q[1] == '/' && r[1] == '/');
    }
    let start = lead(p);
    assert(lead(q) == start && lead(r) == start);
    lemma_names_of_a_prefix(p, q, start, len);
    lemma_names_of_a_prefix(p, r, start, len);
    lemma_last_separator(q, start, len + 1);
    assert(last_separator(q, start, len + 1) == Some(len));
    assert(last_name(q, start, len + 1).len() == 0);
    lemma_last_separator(r, start, len + 2);
    assert(last_separator(r, start, len + 1) == Some(len));
    assert(last_separator(r, start, len + 2) == Some(len));
    assert(last_name(r, start, len + 2) =~= seq!['.']);
}

/// A file that begins at the root is found as it is named. Any other is found at
/// the text of the directory followed by that of the file, with one slash between
/// them where the directory is not empty and does not end in one.
pub proof fn law_joined_text_is_both(dir: Seq<char>, file: Seq<char>)
    ensures
        file.len() > 0 && file[0] == '/' ==> joined(dir, file) == file,
        !(file.len() > 0 && file[0] == '/') ==> {
            let p = joined(dir, file);
            let between = if dir.len() > 0 && dir[dir.len() - 1] != '/' {
                1int
            } else {
                0int
            };
            &&& p.len() == dir.len() + between + file.len()
            &&& p.take(dir.len() as int) == dir
            &&& p.skip(dir.len() + between) == file
            &&& between == 1 ==> p[dir.len() as int] == '/'
        },
{
    if !(file.len() > 0 && file[0] == '/') {
        let p = joined(dir, file);
        assert(p.take(dir.len() as int) =~= dir);
        if dir.len() > 0 && dir[dir.len() - 1] != '/' {
            assert(p.skip(dir.len() as int + 1) =~= file);
        } else {
            assert(p.skip(dir.len() as int) =~= file);
        }
    }
}

/// The directory of a path is the beginning of its text. A path without names has
/// the empty one where it begins here, and else a dot stands for it.
pub proof fn law_directory_begins_the_path(p: Seq<char>)
    ensures
        parent_of(p) is Some ==> parent_of(p)->0.len() <= p.len() && p.take(
            parent_of(p)->0.len() as int,
        ) == parent_of(p)->0 && directory_of(p) == parent_of(p)->0,
        parent_of(p) is None <==> names(p).len() == 0 && origin(p) != Origin::Here,
        parent_of(p) is None ==> directory_of(p) == "."@,
        names(p).len() == 0 && origin(p) == Origin::Here ==> directory_of(p).len() == 0,
{
    let start = lead(p);
    let len = p.len() as int;
    let end = trimmed_end(p, start, len);
    lemma_trimming_keeps_names(p, start, len);
    if end > start {
        lemma_last_separator(p, start, end);
        let rest = rest_end(p, start, end);
        lemma_trimming_keeps_names(p, start, rest);
        let cut = trimmed_end(p, start, rest);
        assert(p.take(cut).len() == cut);
        assert(names_before(p, start, end).len() > 0);
    } else {
        assert(names_before(p, start, end).len() == 0);
        assert(p.take(0) =~= Seq::<char>::empty());
    }
}

/// A single name is that of a sheet file exactly where it ends in `.kicad_sch` and
/// something stands before that. Behind a directory it is exactly where it is one
/// by itself and the directory neither begins at the root or here nor leads upward.
pub proof fn law_sheet_file_ends_as_it_should(dir: Seq<char>, name: Seq<char>)
    requires
        !name.contains('/'),
        name.len() > 0,
        name != seq!['.'],
        dir.len() > 0,
        dir[dir.len() - 1] != '/',
    ensures
        is_sheet_file(name) <==> name.len() > 10 && name.skip(name.len() - 10) == ".kicad_sch"@,
        is_sheet_file(dir + seq!['/'] + name) <==> is_sheet_file(name) && origin(dir)
            == Origin::Bare && !names(dir).contains(seq!['.', '.']),
{
    reveal_strlit(".kicad_sch");
    assert(".kicad_sch"@.len() == 10);
    law_one_name_is_itself(name);
    law_beginning_tells_the_origin(name);
    if name.len() >= 2 && name[1] == '/' {
        assert(name.contains('/'));
    }
    if name[0] == '/' {
        assert(name.contains('/'));
    }
    assert(origin(name) == Origin::Bare);
    assert(names(name).last() == name);
    assert(names(name).contains(seq!['.', '.']) <==> name == seq!['.', '.']) by {
        assert(names(name)[0] == name);
    }
    law_join_appends_the_names(dir, name);
    let path = dir + seq!['/'] + name;
    assert(joined(dir, name) == path);
    let all = names(path);
    let before = names(dir);
    assert(all =~= before.push(name));
    assert(all.contains(seq!['.', '.']) <==> before.contains(seq!['.', '.']) || name == seq![
        '.',
        '.',
    ]) by {
        if before.contains(seq!['.', '.']) {
            let i = choose|i: int| 0 <= i < before.len() && before[i] == seq!['.', '.'];
            assert(all[i] == seq!['.', '.']);
        }
        if all.contains(seq!['.', '.']) && name != seq!['.', '.'] {
            let i = choose|i: int| 0 <= i < all.len() && all[i] == seq!['.', '.'];
            assert(before[i] == seq!['.', '.']);
        }
        assert(all[before.len() as int] == name);
    }
}

} // verus!
