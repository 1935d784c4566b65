//! The identity of a file name: its final path segment without a `.pdf`
//! extension, and the base that duplicate-suffix variants such as
//! `name (1)` share.
//!
//! Everything here is case-sensitive except the test for a PDF extension.

use vstd::prelude::*;
use crate::text::{chars_of, find_text, first_occurrence, trim, trim_bounds};

verus! {

/// The separator between the segments of a path.
pub open spec fn is_separator(c: char) -> bool {
    c == '/'
}

/// The length of `s` without the separators and `.` segments at its end.
pub open spec fn body_len(s: Seq<char>) -> nat
    decreases s.len(),
{
    if s.len() == 0 {
        0
    } else if is_separator(s.last()) {
        body_len(s.drop_last())
    } else if s.last() == '.' && (s.len() == 1 || is_separator(s[s.len() - 2])) {
        body_len(s.drop_last())
    } else {
        s.len()
    }
}

/// The index just behind the last separator of `s`; 0 where it has none.
pub open spec fn segment_start(s: Seq<char>) -> nat
    decreases s.len(),
{
    if s.len() == 0 || is_separator(s.last()) {
        s.len()
    } else {
        segment_start(s.drop_last())
    }
}

/// The segment `..`, which names the directory above and no file.
pub open spec fn parent_segment() -> Seq<char> {
    seq!['.', '.']
}

/// The last segment of the path `s` that names something: separators and `.`
/// segments at the end are passed over. A path that ends in `..`, or that
/// holds nothing but separators and `.` segments, has no file name.
pub open spec fn file_name(s: Seq<char>) -> Option<Seq<char>> {
    let body = s.take(body_len(s) as int);
    let segment = body.skip(segment_start(body) as int);
    if segment.len() == 0 || segment == parent_segment() {
        None
    } else {
        Some(segment)
    }
}

/// The final path segment of `s`: its file name, or `s` itself where it has
/// none.
pub open spec fn final_segment(s: Seq<char>) -> Seq<char> {
    match file_name(s) {
        Some(segment) => segment,
        None => s,
    }
}

/// The suffix `.pdf`.
pub open spec fn lower_pdf_suffix() -> Seq<char> {
    seq!['.', 'p', 'd', 'f']
}

/// The suffix `.PDF`.
pub open spec fn upper_pdf_suffix() -> Seq<char> {
    seq!['.', 'P', 'D', 'F']
}

/// Whether `s` ends with `suffix`.
pub open spec fn ends_with(s: Seq<char>, suffix: Seq<char>) -> bool {
    s.len() >= suffix.len() && s.skip(s.len() - suffix.len()) == suffix
}

/// `s` without a trailing `.pdf` or `.PDF`; no other casing is recognised.
pub open spec fn strip_pdf_suffix(s: Seq<char>) -> Seq<char> {
    if ends_with(s, lower_pdf_suffix()) || ends_with(s, upper_pdf_suffix()) {
        s.take(s.len() - 4)
    } else {
        s
    }
}

/// The identity of a file name: its final path segment without a trailing
/// `.pdf` or `.PDF`.
pub open spec fn normalize(name: Seq<char>) -> Seq<char> {
    strip_pdf_suffix(final_segment(name))
}

/// Where the duplicate suffix of an identity starts: at the first ` (`, or,
/// where there is none, at the first `(`.
pub open spec fn suffix_start(identity: Seq<char>) -> Option<int> {
    match first_occurrence(identity, seq![' ', '(']) {
        Some(i) => Some(i),
        None => first_occurrence(identity, seq!['(']),
    }
}

/// The base identity of a file name: its identity up to the duplicate suffix,
/// trimmed; the identity as it is where it has no such suffix.
pub open spec fn base_identity(name: Seq<char>) -> Seq<char> {
    let identity = normalize(name);
    match suffix_start(identity) {
        Some(i) => trim(identity.take(i)),
        None => identity,
    }
}

/// Behind the start of its last segment, `s` holds no separator.
proof fn lemma_last_segment_has_no_separator(s: Seq<char>)
    ensures
        segment_start(s) <= s.len(),
        forall|i: int| segment_start(s) <= i < s.len() ==> !is_separator(#[trigger] s[i]),
    decreases s.len(),
{
    if s.len() > 0 && !is_separator(s.last()) {
        lemma_last_segment_has_no_separator(s.drop_last());
        assert forall|i: int| segment_start(s) <= i < s.len() implies !is_separator(
            #[trigger] s[i],
        ) by {
            if i < s.len() - 1 {
                assert(s.drop_last()[i] == s[i]);
            }
        }
    }
}

/// A file name is one segment: it is not empty and holds no separator, so
/// that nothing of a directory is left in it.
pub proof fn lemma_file_name_is_one_segment(s: Seq<char>)
    ensures
        file_name(s) matches Some(segment) ==> segment.len() > 0 && forall|i: int|
            0 <= i < segment.len() ==> !is_separator(#[trigger] segment[i]),
{
    let body = s.take(body_len(s) as int);
    lemma_last_segment_has_no_separator(body);
    let segment = body.skip(segment_start(body) as int);
    assert forall|i: int| 0 <= i < segment.len() implies !is_separator(#[trigger] segment[i]) by {
        assert(segment[i] == body[segment_start(body) + i]);
    }
}

/// The bounds of the file name of `chars`, if it has one.
fn file_name_bounds(chars: &Vec<char>) -> (r: Option<(usize, usize)>)
    ensures
        match r {
            Some((start, end)) => start <= end <= chars.len() && file_name(chars@) == Some(
                chars@.subrange(start as int, end as int),
            ),
            None => file_name(chars@) is None,
        },
{
    let ghost s = chars@;
    let mut end: usize = chars.len();
    assert(s.take(end as int) == s);
    while end > 0 && (chars[end - 1] == '/' || (chars[end - 1] == '.' && (end == 1 || chars[end
        - 2] == '/')))
        invariant
            end <= chars.len(),
            s == chars@,
            body_len(s) == body_len(s.take(end as int)),
        decreases end,
    {
        assert(s.take(end as int).drop_last() == s.take(end - 1));
        end -= 1;
    }
    assert(body_len(s) == end);
    let ghost body = s.take(end as int);
    let mut start: usize = end;
    assert(body.take(start as int) == body);
    while start > 0 && chars[start - 1] != '/'
        invariant
            start <= end <= chars.len(),
            s == chars@,
            body == s.take(end as int),
            segment_start(body) == segment_start(body.take(start as int)),
        decreases start,
    {
        assert(body.take(start as int).drop_last() == body.take(start - 1));
        start -= 1;
    }
    assert(segment_start(body) == start);
    assert(body.skip(start as int) == s.subrange(start as int, end as int));
    if end - start == 0 {
        None
    } else if end - start == 2 && chars[start] == '.' && chars[start + 1] == '.' {
        assert(s.subrange(start as int, end as int) == parent_segment());
        None
    } else {
        proof {
            let segment = s.subrange(start as int, end as int);
            if segment == parent_segment() {
                assert(segment[0] == '.' && segment[1] == '.');
            }
        }
        Some((start, end))
    }
}

/// Whether `chars[from..to]` ends with the three letters of `.pdf`, each in
/// the given casing, after a dot.
fn has_suffix(chars: &Vec<char>, from: usize, to: usize, p: char, d: char, f: char) -> (b: bool)
    requires
        from <= to <= chars.len(),
    ensures
        b == ends_with(chars@.subrange(from as int, to as int), seq!['.', p, d, f]),
{
    let ghost s = chars@.subrange(from as int, to as int);
    let ghost suffix = seq!['.', p, d, f];
    if to - from < 4 {
        return false;
    }
    let b = chars[to - 4] == '.' && chars[to - 3] == p && chars[to - 2] == d && chars[to - 1] == f;
    proof {
        let tail = s.skip(s.len() - 4);
        assert(tail.len() == 4);
        assert(tail[0] == chars@[to - 4]);
        assert(tail[1] == chars@[to - 3]);
        assert(tail[2] == chars@[to - 2]);
        assert(tail[3] == chars@[to - 1]);
        if b {
            assert(tail =~= suffix);
        }
    }
    b
}

/// The bounds of `normalize(chars)` within `chars`.
fn identity_bounds(chars: &Vec<char>) -> (r: (usize, usize))
    ensures
        r.0 <= r.1 <= chars.len(),
        chars@.subrange(r.0 as int, r.1 as int) == normalize(chars@),
{
    let (start, end) = match file_name_bounds(chars) {
        Some(bounds) => bounds,
        None => (0, chars.len()),
    };
    assert(chars@.subrange(start as int, end as int) == final_segment(chars@)) by {
        assert(chars@.subrange(0, chars.len() as int) == chars@);
    }
    if has_suffix(chars, start, end, 'p', 'd', 'f') || has_suffix(chars, start, end, 'P', 'D', 'F') {
        assert(chars@.subrange(start as int, end as int).take(end - start - 4) == chars@.subrange(
            start as int,
            end - 4,
        ));
        (start, end - 4)
    } else {
        (start, end)
    }
}

/// The identity of the file name `filename`: its final path segment without
/// a trailing `.pdf` or `.PDF`.
pub fn normalize_filename(filename: &str) -> (identity: String)
    ensures
        identity@ == normalize(filename@),
{
    let chars = chars_of(filename);
    let (start, end) = identity_bounds(&chars);
    filename.substring_char(start, end).to_owned()
}

/// The final path segment of `name`: its file name, or `name` itself where
/// it has none.
pub fn final_segment_of(name: &str) -> (segment: String)
    ensures
        segment@ == final_segment(name@),
{
    let chars = chars_of(name);
    match file_name_bounds(&chars) {
        Some((start, end)) => name.substring_char(start, end).to_owned(),
        None => name.to_owned(),
    }
}

/// The text ` (`, which opens a duplicate suffix set off by a space.
fn spaced_parenthesis() -> (v: Vec<char>)
    ensures
        v@ == seq![' ', '('],
{
    let mut v: Vec<char> = Vec::new();
    v.push(' ');
    v.push('(');
    v
}

/// The text `(`, which opens a duplicate suffix.
fn bare_parenthesis() -> (v: Vec<char>)
    ensures
        v@ == seq!['('],
{
    let mut v: Vec<char> = Vec::new();
    v.push('(');
    v
}

/// Where the duplicate suffix of `chars[from..to]` starts, counted from the
/// start of `chars`.
fn find_suffix_start(chars: &Vec<char>, from: usize, to: usize) -> (r: Option<usize>)
    requires
        from <= to <= chars.len(),
    ensures
        r matches Some(i) ==> from <= i <= to,
        match r {
            Some(i) => Some(i - from),
            None => None,
        } == suffix_start(chars@.subrange(from as int, to as int)),
{
    let spaced = spaced_parenthesis();
    match find_text(chars, from, to, &spaced) {
        Some(i) => Some(i),
        None => {
            let bare = bare_parenthesis();
            find_text(chars, from, to, &bare)
        },
    }
}

/// The bounds of `base_identity(chars)` within `chars`.
fn base_bounds(chars: &Vec<char>) -> (r: (usize, usize))
    ensures
        r.0 <= r.1 <= chars.len(),
        chars@.subrange(r.0 as int, r.1 as int) == base_identity(chars@),
{
    let (start, end) = identity_bounds(chars);
    let ghost identity = chars@.subrange(start as int, end as int);
    match find_suffix_start(chars, start, end) {
        Some(i) => {
            assert(identity.take(i - start) == chars@.subrange(start as int, i as int));
            trim_bounds(chars, start, i)
        },
        None => (start, end),
    }
}

/// The base identity of the file name `filename`, which it shares with its
/// duplicate-suffix variants: `report (1).pdf`, `report(2).pdf` and
/// `report.pdf` all have the base `report`.
pub fn extract_base_name(filename: &str) -> (base: String)
    ensures
        base@ == base_identity(filename@),
{
    let chars = chars_of(filename);
    let (start, end) = base_bounds(&chars);
    filename.substring_char(start, end).to_owned()
}

/// The index of the last `.` of `s`.
pub open spec fn last_dot(s: Seq<char>) -> Option<int>
    decreases s.len(),
{
    if s.len() == 0 {
        None
    } else if s.last() == '.' {
        Some(s.len() - 1)
    } else {
        last_dot(s.drop_last())
    }
}

/// The extension of the path `s`: what follows the last `.` of its file
/// name. A file name without a `.`, or with its only `.` in front, has none.
pub open spec fn extension(s: Seq<char>) -> Option<Seq<char>> {
    match file_name(s) {
        Some(segment) => match last_dot(segment) {
            Some(dot) => if dot > 0 {
                Some(segment.skip(dot + 1))
            } else {
                None
            },
            None => None,
        },
        None => None,
    }
}

/// Whether `e` is `pdf` in any casing.
pub open spec fn is_pdf_extension(e: Seq<char>) -> bool {
    &&& e.len() == 3
    &&& e[0] == 'p' || e[0] == 'P'
    &&& e[1] == 'd' || e[1] == 'D'
    &&& e[2] == 'f' || e[2] == 'F'
}

/// Whether the path `s` names a PDF file: whether its extension is `pdf` in
/// any casing.
pub open spec fn is_pdf_path(s: Seq<char>) -> bool {
    match extension(s) {
        Some(e) => is_pdf_extension(e),
        None => false,
    }
}

/// Whether the path `path` names a PDF file, by its extension alone. Only
/// such files are targets.
pub fn has_pdf_extension(path: &str) -> (b: bool)
    ensures
        b == is_pdf_path(path@),
{
    let chars = chars_of(path);
    let (start, end) = match file_name_bounds(&chars) {
        Some(bounds) => bounds,
        None => {
            return false;
        },
    };
    let ghost segment = chars@.subrange(start as int, end as int);
    let mut dot: usize = end;
    assert(segment.take(dot - start) == segment);
    while dot > start && chars[dot - 1] != '.'
        invariant
            start <= dot <= end <= chars.len(),
            segment == chars@.subrange(start as int, end as int),
            last_dot(segment) == last_dot(segment.take(dot - start)),
        decreases dot,
    {
        assert(segment.take(dot - start).drop_last() == segment.take(dot - start - 1));
        dot -= 1;
    }
    if dot == start {
        assert(segment.take(0).len() == 0);
        return false;
    }
    assert(segment.take(dot - start).last() == '.');
    assert(last_dot(segment) == Some(dot - start - 1));
    if dot - 1 == start {
        return false;
    }
    let ghost e = segment.skip(dot - start);
    assert(e.len() == end - dot);
    if end - dot != 3 {
        return false;
    }
    assert(e[0] == chars@[dot as int]);
    assert(e[1] == chars@[dot + 1]);
    assert(e[2] == chars@[dot + 2]);
    (chars[dot] == 'p' || chars[dot] == 'P') && (chars[dot + 1] == 'd' || chars[dot + 1] == 'D')
        && (chars[dot + 2] == 'f' || chars[dot + 2] == 'F')
}

} // verus!
