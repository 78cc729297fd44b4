//! Paths as text, their parts set apart by slashes. A Windows path is first written so.
use crate::text::{alike_chars, begins_with, chars_of, join, same_chars, text_between};
use vstd::prelude::*;
use vstd::slice::*;

verus! {

/// Where the last `c` before `end` is, or -1.
pub open spec fn last_at(s: Seq<char>, c: char, end: int) -> int
    decreases end,
{
    if end <= 0 {
        -1
    } else if s[end - 1] == c {
        end - 1
    } else {
        last_at(s, c, end - 1)
    }
}

proof fn lemma_last_at(s: Seq<char>, c: char, end: int)
    requires
        0 <= end <= s.len(),
    ensures
        -1 <= last_at(s, c, end) < end || (end == 0 && last_at(s, c, end) == -1),
    decreases end,
{
    if end > 0 && s[end - 1] != c {
        lemma_last_at(s, c, end - 1);
    }
}

fn find_last(chars: &[char], c: char, end: usize) -> (r: Option<usize>)
    requires
        end <= chars@.len(),
    ensures
        match r {
            Some(at) => at == last_at(chars@, c, end as int) && at < end,
            None => last_at(chars@, c, end as int) == -1,
        },
{
    let mut i: usize = end;
    while i > 0
        invariant
            i <= end <= chars@.len(),
            last_at(chars@, c, end as int) == last_at(chars@, c, i as int),
        decreases i,
    {
        if chars[i - 1] == c {
            return Some(i - 1);
        }
        i = i - 1;
    }
    None
}

/// Where the last part of a path that is not empty or `.` starts and ends. None in a path with
/// no such part, or whose last is `..`.
pub open spec fn name_span(s: Seq<char>, end: int) -> Option<(int, int)>
    decreases end,
    via name_span_decreases
{
    if end < 0 || end > s.len() {
        None
    } else {
        let start = last_at(s, '/', end) + 1;
        let part = s.subrange(start, end);
        if part.len() == 0 || part == seq!['.'] {
            if start == 0 {
                None
            } else {
                name_span(s, start - 1)
            }
        } else if part == seq!['.', '.'] {
            None
        } else {
            Some((start, end))
        }
    }
}

#[via_fn]
proof fn name_span_decreases(s: Seq<char>, end: int) {
    if 0 <= end <= s.len() {
        lemma_last_at(s, '/', end);
    }
}

/// The last part of a path.
pub open spec fn file_name_of(s: Seq<char>) -> Option<Seq<char>> {
    match name_span(s, s.len() as int) {
        Some((start, end)) => Some(s.subrange(start, end)),
        None => None,
    }
}

/// Where the stem of a name that starts and ends there ends: at its last dot, unless the name
/// has none or starts with it.
pub open spec fn stem_end(s: Seq<char>, start: int, end: int) -> int {
    let dot = last_at(s, '.', end);
    if dot > start {
        dot
    } else {
        end
    }
}

/// A path's last part without its extension.
pub open spec fn file_stem_of(s: Seq<char>) -> Option<Seq<char>> {
    match name_span(s, s.len() as int) {
        Some((start, end)) => Some(s.subrange(start, stem_end(s, start, end))),
        None => None,
    }
}

/// What follows the last dot of a path's last part.
pub open spec fn extension_of(s: Seq<char>) -> Option<Seq<char>> {
    match name_span(s, s.len() as int) {
        Some((start, end)) => if stem_end(s, start, end) == end {
            None
        } else {
            Some(s.subrange(stem_end(s, start, end) + 1, end))
        },
        None => None,
    }
}

proof fn lemma_name_span(s: Seq<char>, end: int)
    ensures
        name_span(s, end) matches Some((a, b)) ==> 0 <= a < b <= end && b <= s.len(),
    decreases end,
{
    if 0 <= end <= s.len() {
        lemma_last_at(s, '/', end);
        let start = last_at(s, '/', end) + 1;
        if start > 0 {
            lemma_name_span(s, start - 1);
        }
    }
}

fn find_name(chars: &[char]) -> (r: Option<(usize, usize)>)
    ensures
        match r {
            Some((a, b)) => name_span(chars@, chars@.len() as int) == Some((a as int, b as int)) && a
                < b <= chars@.len(),
            None => name_span(chars@, chars@.len() as int) is None,
        },
{
    let mut end: usize = chars.len();
    loop
        invariant
            end <= chars@.len(),
            name_span(chars@, chars@.len() as int) == name_span(chars@, end as int),
        decreases end,
    {
        proof {
            lemma_last_at(chars@, '/', end as int);
        }
        let start: usize = match find_last(chars, '/', end) {
            Some(at) => at + 1,
            None => 0,
        };
        let ghost part = chars@.subrange(start as int, end as int);
        let dot: bool = end - start == 1 && chars[start] == '.';
        let dots: bool = end - start == 2 && chars[start] == '.' && chars[start + 1] == '.';
        proof {
            assert(dot == (part =~= seq!['.'])) by {
                if part =~= seq!['.'] {
                    assert(part[0] == '.');
                }
            }
            assert(dots == (part =~= seq!['.', '.'])) by {
                if part =~= seq!['.', '.'] {
                    assert(part[0] == '.' && part[1] == '.');
                }
            }
        }
        if start == end || dot {
            if start == 0 {
                return None;
            }
            end = start - 1;
        } else if dots {
            return None;
        } else {
            return Some((start, end));
        }
    }
}

fn find_stem(chars: &[char], start: usize, end: usize) -> (r: usize)
    requires
        start < end <= chars@.len(),
    ensures
        r == stem_end(chars@, start as int, end as int),
        start < r <= end,
{
    match find_last(chars, '.', end) {
        Some(dot) => if dot > start {
            dot
        } else {
            end
        },
        None => end,
    }
}

/// Whether an outcome is the text expected, if any.
pub open spec fn is_some_text(r: Option<String>, expected: Option<Seq<char>>) -> bool {
    match r {
        Some(text) => expected == Some(text@),
        None => expected is None,
    }
}

/// The last part of a path, if it names one.
pub fn file_name(path: &str) -> (r: Option<String>)
    ensures
        is_some_text(r, file_name_of(path@)),
{
    let chars: Vec<char> = chars_of(path);
    match find_name(chars.as_slice()) {
        Some((start, end)) => Some(text_between(chars.as_slice(), start, end)),
        None => None,
    }
}

/// A path's last part without its extension.
pub fn file_stem(path: &str) -> (r: Option<String>)
    ensures
        is_some_text(r, file_stem_of(path@)),
{
    let chars: Vec<char> = chars_of(path);
    match find_name(chars.as_slice()) {
        Some((start, end)) => {
            let stem: usize = find_stem(chars.as_slice(), start, end);
            Some(text_between(chars.as_slice(), start, stem))
        },
        None => None,
    }
}

/// What follows the last dot of a path's last part.
pub fn extension(path: &str) -> (r: Option<String>)
    ensures
        is_some_text(r, extension_of(path@)),
{
    let chars: Vec<char> = chars_of(path);
    match find_name(chars.as_slice()) {
        Some((start, end)) => {
            let stem: usize = find_stem(chars.as_slice(), start, end);
            if stem == end {
                None
            } else {
                Some(text_between(chars.as_slice(), stem + 1, end))
            }
        },
        None => None,
    }
}

/// Whether a path's extension is `text`, whatever the case of its ASCII letters.
pub open spec fn extends_with(path: Seq<char>, text: Seq<char>) -> bool {
    extension_of(path) matches Some(extension) && crate::text::alike(extension, text)
}

pub fn has_extension(path: &str, text: &str) -> (r: bool)
    ensures
        r == extends_with(path@, text@),
{
    match extension(path) {
        Some(extension) => {
            let a: Vec<char> = chars_of(extension.as_str());
            let b: Vec<char> = chars_of(text);
            alike_chars(a.as_slice(), b.as_slice())
        },
        None => false,
    }
}

/// A path with its extension replaced, or given one where it has none. A path that names no
/// file stays as it is.
pub open spec fn extended(s: Seq<char>, extension: Seq<char>) -> Seq<char> {
    match name_span(s, s.len() as int) {
        Some((start, end)) => {
            let stem = s.take(stem_end(s, start, end));
            if extension.len() == 0 {
                stem
            } else {
                stem.push('.') + extension
            }
        },
        None => s,
    }
}

pub fn with_extension(path: &str, extension: &str) -> (r: String)
    ensures
        r@ == extended(path@, extension@),
{
    let chars: Vec<char> = chars_of(path);
    match find_name(chars.as_slice()) {
        Some((start, end)) => {
            let stem: usize = find_stem(chars.as_slice(), start, end);
            let mut r: String = text_between(chars.as_slice(), 0, stem);
            proof {
                assert(chars@.subrange(0, stem as int) == chars@.take(stem as int));
            }
            let added: Vec<char> = chars_of(extension);
            if added.len() > 0 {
                r.push('.');
                r.append(extension);
            }
            r
        },
        None => crate::text::owned(path),
    }
}

/// Whether a path starts at the root.
pub open spec fn absolute(s: Seq<char>) -> bool {
    s.len() > 0 && s[0] == '/'
}

pub fn is_absolute(path: &str) -> (r: bool)
    ensures
        r == absolute(path@),
{
    let chars: Vec<char> = chars_of(path);
    chars.len() > 0 && chars[0] == '/'
}

/// A path inside a folder. One that starts at the root stays as it is.
pub open spec fn joined(folder: Seq<char>, path: Seq<char>) -> Seq<char> {
    if absolute(path) || folder.len() == 0 {
        path
    } else if folder.last() == '/' {
        folder + path
    } else {
        folder.push('/') + path
    }
}

pub fn join_paths(folder: &str, path: &str) -> (r: String)
    ensures
        r@ == joined(folder@, path@),
{
    let chars: Vec<char> = chars_of(folder);
    if is_absolute(path) || chars.len() == 0 {
        return crate::text::owned(path);
    }
    let mut r: String = crate::text::owned(folder);
    if chars[chars.len() - 1] != '/' {
        r.push('/');
    }
    r.append(path);
    r
}

/// Whether a path starts at the root, or where there are drives at a drive's.
pub open spec fn rooted(s: Seq<char>, drives: bool) -> bool {
    ||| absolute(s)
    ||| drives && s.len() >= 3 && is_letter(s[0]) && s[1] == ':' && s[2] == '/'
}

pub open spec fn is_letter(c: char) -> bool {
    'a' <= c <= 'z' || 'A' <= c <= 'Z'
}

pub fn is_rooted(path: &str, drives: bool) -> (r: bool)
    ensures
        r == rooted(path@, drives),
{
    let chars: Vec<char> = chars_of(path);
    if chars.len() > 0 && chars[0] == '/' {
        return true;
    }
    drives && chars.len() >= 3 && ('a' <= chars[0] && chars[0] <= 'z' || 'A' <= chars[0]
        && chars[0] <= 'Z') && chars[1] == ':' && chars[2] == '/'
}

/// A path as it is read back in a folder: relative to it, unless it starts at a root.
pub open spec fn joined_or(folder: Seq<char>, path: Seq<char>, drives: bool) -> Seq<char> {
    if rooted(path, drives) {
        path
    } else {
        joined(folder, path)
    }
}

/// A path as it is read back in a folder: relative to it, unless it starts at a root.
pub fn join_unless_rooted(folder: &str, path: &str, drives: bool) -> (r: String)
    ensures
        r@ == joined_or(folder@, path@, drives),
{
    if is_rooted(path, drives) {
        crate::text::owned(path)
    } else {
        join_paths(folder, path)
    }
}

/// Text with slashes in place of backslashes.
pub open spec fn slashed(s: Seq<char>) -> Seq<char> {
    Seq::new(
        s.len(),
        |i: int|
            if s[i] == '\\' {
                '/'
            } else {
                s[i]
            },
    )
}

/// What follows the mark of a path that Windows is to take word for word, where there is one; of
/// a path on the network, with the two slashes that such a path starts with.
pub open spec fn unmarked(s: Seq<char>) -> Seq<char> {
    if crate::text::begins(s, "//?/UNC/"@) {
        "//"@ + s.skip(8)
    } else if crate::text::begins(s, "//?/"@) {
        s.skip(4)
    } else {
        s
    }
}

/// A Windows path written with slashes.
pub fn from_windows(path: &str) -> (r: String)
    ensures
        r@ == unmarked(slashed(path@)),
{
    let chars: Vec<char> = chars_of(path);
    let mut plain: Vec<char> = Vec::new();
    let mut i: usize = 0;
    while i < chars.len()
        invariant
            i <= chars@.len(),
            chars@ == path@,
            plain@ == slashed(path@).take(i as int),
        decreases chars@.len() - i,
    {
        plain.push(
            if chars[i] == '\\' {
                '/'
            } else {
                chars[i]
            },
        );
        proof {
            assert(slashed(path@).take(i + 1) == slashed(path@).take(i as int).push(
                slashed(path@)[i as int],
            ));
        }
        i = i + 1;
    }
    assert(slashed(path@).take(i as int) == slashed(path@));
    proof {
        reveal_strlit("//?/UNC/");
        reveal_strlit("//?/");
    }
    if begins_with(plain.as_slice(), "//?/UNC/") {
        let rest: String = text_between(plain.as_slice(), 8, plain.len());
        assert(rest@ == slashed(path@).skip(8));
        join("//", rest.as_str())
    } else if begins_with(plain.as_slice(), "//?/") {
        let rest: String = text_between(plain.as_slice(), 4, plain.len());
        assert(rest@ == slashed(path@).skip(4));
        rest
    } else {
        let rest: String = text_between(plain.as_slice(), 0, plain.len());
        assert(rest@ == slashed(path@));
        rest
    }
}

/// A path's last part, or nothing.
pub open spec fn shown_name(path: Seq<char>) -> Seq<char> {
    match file_name_of(path) {
        Some(name) => name,
        None => Seq::empty(),
    }
}

/// A path's last part without its extension, or nothing.
pub open spec fn shown_stem(path: Seq<char>) -> Seq<char> {
    match file_stem_of(path) {
        Some(stem) => stem,
        None => Seq::empty(),
    }
}

/// A path's file name for showing a person.
pub fn name_or_empty(path: &str) -> (r: String)
    ensures
        r@ == shown_name(path@),
{
    match file_name(path) {
        Some(name) => name,
        None => String::new(),
    }
}

pub fn stem_or_empty(path: &str) -> (r: String)
    ensures
        r@ == shown_stem(path@),
{
    match file_stem(path) {
        Some(stem) => stem,
        None => String::new(),
    }
}

// -------------------------------------------------------------------------------------------
// Parts
// -------------------------------------------------------------------------------------------

/// The parts of a path: what slashes set apart, without empty ones, and without a `.` unless the
/// path starts with it.
pub open spec fn parts(s: Seq<char>) -> Seq<Seq<char>>
    decreases s.len(),
{
    let cut = last_at(s, '/', s.len() as int);
    let piece = s.skip(cut + 1);
    let before = if 0 <= cut < s.len() {
        parts(s.take(cut))
    } else {
        Seq::empty()
    };
    if piece.len() == 0 || (cut >= 0 && piece == seq!['.']) {
        before
    } else {
        before.push(piece)
    }
}

/// Whether two paths are one: both start at the root or neither does, and their parts are the
/// same.
pub open spec fn same(a: Seq<char>, b: Seq<char>) -> bool {
    absolute(a) == absolute(b) && parts(a) == parts(b)
}

/// Without a `c` behind `from`, the last one is before it.
proof fn lemma_last_before(s: Seq<char>, c: char, from: int, end: int)
    requires
        0 <= from <= end <= s.len(),
        forall|i: int| from <= i < end ==> s[i] != c,
    ensures
        last_at(s, c, end) == last_at(s, c, from),
    decreases end,
{
    if from < end {
        lemma_last_before(s, c, from, end - 1);
    }
}

/// No `c` is between the last one and the end.
proof fn lemma_none_after_last(s: Seq<char>, c: char, end: int)
    requires
        0 <= end <= s.len(),
    ensures
        forall|i: int| last_at(s, c, end) < i < end ==> s[i] != c,
    decreases end,
{
    if end > 0 && s[end - 1] != c {
        lemma_none_after_last(s, c, end - 1);
    }
}

/// What comes behind the end does not matter.
proof fn lemma_last_in_front(s: Seq<char>, c: char, end: int, to: int)
    requires
        0 <= to <= end <= s.len(),
    ensures
        last_at(s.take(end), c, to) == last_at(s, c, to),
    decreases to,
{
    if to > 0 && s[to - 1] != c {
        lemma_last_in_front(s, c, end, to - 1);
    }
}

/// A path's last part without its extension is one part: it holds no slash.
pub proof fn names_are_one_part(s: Seq<char>)
    ensures
        !shown_stem(s).contains('/'),
{
    lemma_span_is_one_part(s, s.len() as int);
}

proof fn lemma_span_is_one_part(s: Seq<char>, end: int)
    requires
        end <= s.len(),
    ensures
        name_span(s, end) matches Some((start, to)) ==> {
            &&& 0 <= start <= to <= s.len()
            &&& forall|i: int| start <= i < to ==> s[i] != '/'
            &&& !s.subrange(start, stem_end(s, start, to)).contains('/')
        },
    decreases end,
{
    if 0 <= end <= s.len() {
        lemma_last_at(s, '/', end);
        lemma_none_after_last(s, '/', end);
        let start = last_at(s, '/', end) + 1;
        let part = s.subrange(start, end);
        if part.len() == 0 || part == seq!['.'] {
            if start > 0 {
                lemma_span_is_one_part(s, start - 1);
            }
        } else if part != seq!['.', '.'] {
            lemma_last_at(s, '.', end);
            let to = stem_end(s, start, end);
            assert forall|i: int| 0 <= i < to - start implies s.subrange(start, to)[i] != '/' by {
                assert(s[start + i] != '/');
            }
        }
    }
}

/// The parts of a folder, and of what is in it.
pub open spec fn parts_of_folder(folder: Seq<char>) -> Seq<Seq<char>> {
    if folder.len() == 0 {
        Seq::empty()
    } else if folder.last() == '/' {
        parts(folder.drop_last())
    } else {
        parts(folder)
    }
}

/// A file in a folder has the folder's parts and its name, however the folder is written.
pub proof fn files_are_in_their_folder(folder: Seq<char>, name: Seq<char>)
    requires
        name.len() > 0,
        name != seq!['.'],
        !name.contains('/'),
    ensures
        parts(joined(folder, name)) == parts_of_folder(folder).push(name),
        absolute(joined(folder, name)) == absolute(folder),
{
    assert(name[0] != '/') by {
        assert(name.contains(name[0]));
    }
    let s = joined(folder, name);
    let from = s.len() - name.len();
    assert forall|i: int| from <= i < s.len() implies s[i] != '/' by {
        assert(s[i] == name[i - from]);
        assert(name.contains(name[i - from]));
    }
    lemma_last_before(s, '/', from, s.len() as int);
    assert(s.skip(from) =~= name);
    if folder.len() == 0 {
        assert(from == 0);
        assert(parts(s) =~= seq![name]);
        assert(parts_of_folder(folder).push(name) =~= seq![name]);
    } else {
        assert(s[from - 1] == '/');
        assert(last_at(s, '/', s.len() as int) == from - 1);
        if folder.last() == '/' {
            assert(s.take(from - 1) =~= folder.drop_last());
        } else {
            assert(s.take(from - 1) =~= folder);
        }
    }
}

/// The parts of a path up to `end`.
fn parts_up_to(chars: &[char], end: usize) -> (r: Vec<Vec<char>>)
    requires
        end <= chars@.len(),
    ensures
        r@.map_values(|p: Vec<char>| p@) == parts(chars@.take(end as int)),
    decreases end,
{
    let ghost s = chars@.take(end as int);
    proof {
        lemma_last_in_front(chars@, '/', end as int, end as int);
    }
    let cut: Option<usize> = find_last(chars, '/', end);
    let start: usize = match cut {
        Some(at) => at + 1,
        None => 0,
    };
    let mut r: Vec<Vec<char>> = match cut {
        Some(at) => parts_up_to(chars, at),
        None => Vec::new(),
    };
    let ghost before = r@.map_values(|p: Vec<char>| p@);
    proof {
        if let Some(at) = cut {
            assert(s.take(at as int) =~= chars@.take(at as int));
        } else {
            assert(before =~= Seq::empty());
        }
    }
    let piece: Vec<char> = slice_to_vec(slice_subrange(chars, start, end));
    assert(piece@ =~= s.skip(start as int));
    if piece.len() == 0 {
        return r;
    }
    if start > 0 && piece.len() == 1 && piece[0] == '.' {
        assert(piece@ =~= seq!['.']);
        return r;
    }
    r.push(piece);
    assert(r@.map_values(|p: Vec<char>| p@) =~= before.push(piece@));
    r
}

/// Whether two paths are one.
pub fn same_path(a: &str, b: &str) -> (r: bool)
    ensures
        r == same(a@, b@),
{
    let x: Vec<char> = chars_of(a);
    let y: Vec<char> = chars_of(b);
    let p: Vec<Vec<char>> = parts_up_to(x.as_slice(), x.len());
    let q: Vec<Vec<char>> = parts_up_to(y.as_slice(), y.len());
    let ghost u = p@.map_values(|p: Vec<char>| p@);
    let ghost v = q@.map_values(|p: Vec<char>| p@);
    assert(x@.take(x@.len() as int) =~= x@ && y@.take(y@.len() as int) =~= y@);
    assert(u == parts(a@) && v == parts(b@));
    assert(u.len() == p@.len() && v.len() == q@.len());
    if is_absolute(a) != is_absolute(b) || p.len() != q.len() {
        return false;
    }
    let mut i: usize = 0;
    while i < p.len()
        invariant
            i <= p@.len() == q@.len(),
            u == parts(a@),
            v == parts(b@),
            u == p@.map_values(|p: Vec<char>| p@),
            v == q@.map_values(|p: Vec<char>| p@),
            forall|k: int| 0 <= k < i ==> u[k] == v[k],
        decreases p@.len() - i,
    {
        if !same_chars(p[i].as_slice(), q[i].as_slice()) {
            assert(u[i as int] != v[i as int]);
            return false;
        }
        i = i + 1;
    }
    assert(u =~= v);
    true
}

} // verus!
