//! Character-level helpers shared by the rest of the crate: whitespace,
//! trimming and substring search over sequences of characters.
//!
//! Names are handled as sequences of `char`, never as bytes, so that every
//! index in a contract is an index into the view of a string.

use vstd::prelude::*;

verus! {

/// The characters of `s`, in order.
pub fn chars_of(s: &str) -> (v: Vec<char>)
    ensures
        v@ == s@,
{
    let mut v: Vec<char> = Vec::new();
    for c in it: s.chars()
        invariant
            v@ == it.seq().take(it.index() as int),
            it.seq() == s@,
    {
        v.push(c);
    }
    v
}

/// Whether `c` is white space in the sense of Unicode's `White_Space`
/// property.
pub open spec fn is_whitespace(c: char) -> bool {
    let n = c as u32;
    ||| 0x09 <= n <= 0x0D
    ||| n == 0x20
    ||| n == 0x85
    ||| n == 0xA0
    ||| n == 0x1680
    ||| 0x2000 <= n <= 0x200A
    ||| n == 0x2028
    ||| n == 0x2029
    ||| n == 0x202F
    ||| n == 0x205F
    ||| n == 0x3000
}

/// Decides [`is_whitespace`].
pub fn is_whitespace_char(c: char) -> (b: bool)
    ensures
        b == is_whitespace(c),
{
    let n: u32 = c as u32;
    (0x09 <= n && n <= 0x0D) || n == 0x20 || n == 0x85 || n == 0xA0 || n == 0x1680 || (0x2000 <= n
        && n <= 0x200A) || n == 0x2028 || n == 0x2029 || n == 0x202F || n == 0x205F || n == 0x3000
}

/// `s` without the white space at its end.
pub open spec fn trim_end(s: Seq<char>) -> Seq<char>
    decreases s.len(),
{
    if s.len() > 0 && is_whitespace(s.last()) {
        trim_end(s.drop_last())
    } else {
        s
    }
}

/// `s` without the white space at its start.
pub open spec fn trim_start(s: Seq<char>) -> Seq<char>
    decreases s.len(),
{
    if s.len() > 0 && is_whitespace(s.first()) {
        trim_start(s.drop_first())
    } else {
        s
    }
}

/// `s` without the white space around it.
pub open spec fn trim(s: Seq<char>) -> Seq<char> {
    trim_start(trim_end(s))
}

/// What is trimmed has no white space at either end.
pub proof fn lemma_trim_leaves_no_space_around(s: Seq<char>)
    ensures
        trim(s).len() > 0 ==> !is_whitespace(trim(s).first()) && !is_whitespace(trim(s).last()),
{
    lemma_trim_end_ends_in_text(s);
    lemma_trim_start_keeps_end(trim_end(s));
}

/// What is trimmed at its end does not end in white space.
proof fn lemma_trim_end_ends_in_text(s: Seq<char>)
    ensures
        trim_end(s).len() > 0 ==> !is_whitespace(trim_end(s).last()),
    decreases s.len(),
{
    if s.len() > 0 && is_whitespace(s.last()) {
        lemma_trim_end_ends_in_text(s.drop_last());
    }
}

/// What is trimmed at its start does not start with white space, and ends as
/// it did before.
proof fn lemma_trim_start_keeps_end(s: Seq<char>)
    ensures
        trim_start(s).len() > 0 ==> !is_whitespace(trim_start(s).first()) && trim_start(s).last()
            == s.last(),
    decreases s.len(),
{
    if s.len() > 0 && is_whitespace(s.first()) {
        lemma_trim_start_keeps_end(s.drop_first());
        if trim_start(s).len() > 0 {
            assert(s.drop_first().len() > 0);
            assert(s.drop_first().last() == s.last());
        }
    }
}

/// The bounds of `trim(chars[from..to])` within `chars`.
pub fn trim_bounds(chars: &Vec<char>, from: usize, to: usize) -> (r: (usize, usize))
    requires
        from <= to <= chars.len(),
    ensures
        from <= r.0 <= r.1 <= to,
        chars@.subrange(r.0 as int, r.1 as int) == trim(chars@.subrange(from as int, to as int)),
{
    let mut hi: usize = to;
    while hi > from && is_whitespace_char(chars[hi - 1])
        invariant
            from <= hi <= to <= chars.len(),
            trim_end(chars@.subrange(from as int, to as int)) == trim_end(
                chars@.subrange(from as int, hi as int),
            ),
        decreases hi,
    {
        assert(chars@.subrange(from as int, hi as int).drop_last() == chars@.subrange(
            from as int,
            hi - 1,
        ));
        hi -= 1;
    }
    let mut lo: usize = from;
    while lo < hi && is_whitespace_char(chars[lo])
        invariant
            from <= lo <= hi <= to <= chars.len(),
            trim(chars@.subrange(from as int, to as int)) == trim_start(
                chars@.subrange(lo as int, hi as int),
            ),
        decreases hi - lo,
    {
        assert(chars@.subrange(lo as int, hi as int).drop_first() == chars@.subrange(
            lo + 1,
            hi as int,
        ));
        lo += 1;
    }
    (lo, hi)
}

/// Whether `pat` stands in `s` at index `i`.
pub open spec fn occurs_at(s: Seq<char>, pat: Seq<char>, i: int) -> bool {
    0 <= i && i + pat.len() <= s.len() && s.subrange(i, i + pat.len()) == pat
}

/// Whether `pat` stands somewhere in `s`.
pub open spec fn contains_text(s: Seq<char>, pat: Seq<char>) -> bool {
    exists|i: int| occurs_at(s, pat, i)
}

/// Whether `i` is the least index at which `pat` stands in `s`.
pub open spec fn is_first_occurrence(s: Seq<char>, pat: Seq<char>, i: int) -> bool {
    occurs_at(s, pat, i) && forall|j: int| 0 <= j < i ==> !occurs_at(s, pat, j)
}

/// The least index at which `pat` stands in `s`, if it stands anywhere.
pub open spec fn first_occurrence(s: Seq<char>, pat: Seq<char>) -> Option<int> {
    if contains_text(s, pat) {
        Some(choose|i: int| is_first_occurrence(s, pat, i))
    } else {
        None
    }
}

/// Below an index at which `pat` stands, there is a least one.
proof fn lemma_least_occurrence(s: Seq<char>, pat: Seq<char>, at: int) -> (least: int)
    requires
        occurs_at(s, pat, at),
    ensures
        is_first_occurrence(s, pat, least),
    decreases at,
{
    if exists|j: int| 0 <= j < at && occurs_at(s, pat, j) {
        let j = choose|j: int| 0 <= j < at && occurs_at(s, pat, j);
        lemma_least_occurrence(s, pat, j)
    } else {
        at
    }
}

/// Where `pat` stands in `s`, its first occurrence is the least index at
/// which it stands.
pub proof fn lemma_first_occurrence_is_least(s: Seq<char>, pat: Seq<char>)
    ensures
        first_occurrence(s, pat) matches Some(i) ==> is_first_occurrence(s, pat, i),
        first_occurrence(s, pat) is Some <==> contains_text(s, pat),
{
    if contains_text(s, pat) {
        let at = choose|i: int| occurs_at(s, pat, i);
        let least = lemma_least_occurrence(s, pat, at);
    }
}

/// An index that is a first occurrence is the first occurrence.
pub proof fn lemma_first_occurrence_unique(s: Seq<char>, pat: Seq<char>, i: int)
    requires
        is_first_occurrence(s, pat, i),
    ensures
        first_occurrence(s, pat) == Some(i),
{
    let k = choose|k: int| is_first_occurrence(s, pat, k);
    if k < i {
        assert(!occurs_at(s, pat, k));
    } else if i < k {
        assert(!occurs_at(s, pat, i));
    }
}

/// Whether `pat` stands in `chars` at index `i`.
pub fn matches_at(chars: &Vec<char>, pat: &Vec<char>, i: usize) -> (b: bool)
    requires
        i <= chars.len(),
    ensures
        b == occurs_at(chars@, pat@, i as int),
{
    if pat.len() > chars.len() - i {
        return false;
    }
    let mut k: usize = 0;
    while k < pat.len()
        invariant
            k <= pat.len(),
            i + pat.len() <= chars.len(),
            forall|j: int| 0 <= j < k ==> chars@[i + j] == pat@[j],
        decreases pat.len() - k,
    {
        if chars[i + k] != pat[k] {
            assert(chars@.subrange(i as int, i + pat.len())[k as int] != pat@[k as int]);
            return false;
        }
        k += 1;
    }
    assert(chars@.subrange(i as int, i + pat.len()) =~= pat@);
    true
}

/// The first index at which `pat` stands in `chars[from..to]`, counted from
/// the start of `chars`.
pub fn find_text(chars: &Vec<char>, from: usize, to: usize, pat: &Vec<char>) -> (r: Option<usize>)
    requires
        from <= to <= chars.len(),
    ensures
        match r {
            Some(i) => from <= i <= to && is_first_occurrence(
                chars@.subrange(from as int, to as int),
                pat@,
                i - from,
            ),
            None => !contains_text(chars@.subrange(from as int, to as int), pat@),
        },
        match r {
            Some(i) => Some(i - from),
            None => None,
        } == first_occurrence(chars@.subrange(from as int, to as int), pat@),
{
    let ghost s = chars@.subrange(from as int, to as int);
    let mut i: usize = from;
    loop
        invariant
            from <= i <= to <= chars.len(),
            s == chars@.subrange(from as int, to as int),
            forall|j: int| 0 <= j < i - from ==> !occurs_at(s, pat@, j),
        decreases to - i,
    {
        proof {
            if pat.len() <= to - i {
                assert(s.subrange(i - from, i - from + pat.len()) =~= chars@.subrange(
                    i as int,
                    i + pat.len(),
                ));
            }
        }
        if pat.len() <= to - i && matches_at(chars, pat, i) {
            proof {
                lemma_first_occurrence_unique(s, pat@, i - from);
            }
            return Some(i);
        }
        if i == to {
            assert(!contains_text(s, pat@)) by {
                if contains_text(s, pat@) {
                    let j = choose|j: int| occurs_at(s, pat@, j);
                    assert(j <= to - from);
                }
            }
            return None;
        }
        i += 1;
    }
}

} // verus!
