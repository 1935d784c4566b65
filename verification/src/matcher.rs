//! The matcher: which page, if any, belongs to a target file.
//!
//! A target is resolved against the mapping table by three rules, tried in
//! order; the first that finds a page decides.
//!
//! 1. The identity of the target is a key of the table.
//! 2. The identity of the target, followed by `.pdf`, is a key of the table.
//! 3. The target's name holds `(1)`, and either its base identity is a key of
//!    the table, or it is the base identity of a key; of several such keys the
//!    first in the table's order decides.
//!
//! Targets that carry `(2)`, `(3)` and so on are copies of no interest and
//! are left without a page unless one of the first two rules finds them.

use vstd::prelude::*;
use crate::names::{base_identity, extract_base_name, lower_pdf_suffix, normalize, normalize_filename};
use crate::table::MappingTable;
use crate::text::{chars_of, contains_text, find_text};

verus! {

/// The text `(1)`, which marks the first duplicate of a file.
pub open spec fn first_duplicate_marker() -> Seq<char> {
    seq!['(', '1', ')']
}

/// The first of `keys` whose base identity is `base`.
pub open spec fn first_key_with_base(keys: Seq<Seq<char>>, base: Seq<char>) -> Option<Seq<char>>
    decreases keys.len(),
{
    if keys.len() == 0 {
        None
    } else if base_identity(keys.first()) == base {
        Some(keys.first())
    } else {
        first_key_with_base(keys.drop_first(), base)
    }
}

/// The page index that the table `table`, with its keys in the order `keys`,
/// gives the target named `target`.
pub open spec fn resolve(target: Seq<char>, table: Map<Seq<char>, u32>, keys: Seq<Seq<char>>)
    -> Option<u32> {
    let identity = normalize(target);
    let with_extension = identity + lower_pdf_suffix();
    let base = base_identity(target);
    if table.contains_key(identity) {
        Some(table[identity])
    } else if table.contains_key(with_extension) {
        Some(table[with_extension])
    } else if !contains_text(target, first_duplicate_marker()) {
        None
    } else if table.contains_key(base) {
        Some(table[base])
    } else {
        match first_key_with_base(keys, base) {
            Some(key) => Some(table[key]),
            None => None,
        }
    }
}

/// The first key with a base is one of the keys.
proof fn lemma_first_key_is_a_key(keys: Seq<Seq<char>>, base: Seq<char>)
    ensures
        first_key_with_base(keys, base) matches Some(key) ==> keys.contains(key) && base_identity(
            key,
        ) == base,
    decreases keys.len(),
{
    if keys.len() > 0 && base_identity(keys.first()) != base {
        lemma_first_key_is_a_key(keys.drop_first(), base);
        if first_key_with_base(keys, base) is Some {
            let key = first_key_with_base(keys, base)->0;
            let i = choose|i: int| 0 <= i < keys.drop_first().len() && keys.drop_first()[i] == key;
            assert(keys[i + 1] == key);
        }
    } else if keys.len() > 0 {
        assert(keys[0] == keys.first());
    }
}

/// Whether a page recorded under `key` can be the page of `target`: the key
/// is the target's identity, with or without `.pdf`, or the target's base
/// identity, or has the target's base identity for its own.
pub open spec fn answers(key: Seq<char>, target: Seq<char>) -> bool {
    ||| key == normalize(target)
    ||| key == normalize(target) + lower_pdf_suffix()
    ||| key == base_identity(target)
    ||| base_identity(key) == base_identity(target)
}

/// The matcher invents no page: the page that a target resolves to stands in
/// the table, under a key that answers the target.
pub proof fn lemma_resolved_page_is_in_table(
    target: Seq<char>,
    table: Map<Seq<char>, u32>,
    keys: Seq<Seq<char>>,
)
    requires
        forall|i: int| 0 <= i < keys.len() ==> table.contains_key(#[trigger] keys[i]),
    ensures
        resolve(target, table, keys) matches Some(page_index) ==> exists|key: Seq<char>|
            #[trigger] table.contains_key(key) && table[key] == page_index && answers(key, target),
{
    lemma_first_key_is_a_key(keys, base_identity(target));
    if resolve(target, table, keys) is Some {
        let page_index = resolve(target, table, keys)->0;
        let identity = normalize(target);
        let with_extension = identity + lower_pdf_suffix();
        let base = base_identity(target);
        let key = if table.contains_key(identity) {
            identity
        } else if table.contains_key(with_extension) {
            with_extension
        } else if table.contains_key(base) {
            base
        } else {
            first_key_with_base(keys, base)->0
        };
        assert(table.contains_key(key) && table[key] == page_index && answers(key, target));
    }
}

/// A target whose name does not hold `(1)` resolves by its identity alone:
/// it gets a page only where its identity, with or without `.pdf`, is a key.
pub proof fn lemma_only_the_first_duplicate_resolves_by_base(
    target: Seq<char>,
    table: Map<Seq<char>, u32>,
    keys: Seq<Seq<char>>,
)
    requires
        !contains_text(target, first_duplicate_marker()),
    ensures
        resolve(target, table, keys) is Some <==> table.contains_key(normalize(target))
            || table.contains_key(normalize(target) + lower_pdf_suffix()),
{
}

/// Whether `name` holds `(1)`.
fn has_first_duplicate_marker(name: &str) -> (b: bool)
    ensures
        b == contains_text(name@, first_duplicate_marker()),
{
    let chars = chars_of(name);
    let mut marker: Vec<char> = Vec::new();
    marker.push('(');
    marker.push('1');
    marker.push(')');
    assert(marker@ == first_duplicate_marker());
    assert(chars@.subrange(0, chars.len() as int) == chars@);
    find_text(&chars, 0, chars.len(), &marker).is_some()
}

/// The page of the first key of `mappings` whose base identity is `base`.
fn scan_for_base(mappings: &MappingTable, base: &String) -> (r: Option<u32>)
    ensures
        r == match first_key_with_base(mappings.keys(), base@) {
            Some(key) => Some(mappings@[key]),
            None => None,
        },
{
    let ghost keys = mappings.keys();
    let n = mappings.len();
    let mut i: usize = 0;
    assert(keys.skip(0) == keys);
    while i < n
        invariant
            i <= n == keys.len(),
            keys == mappings.keys(),
            first_key_with_base(keys, base@) == first_key_with_base(keys.skip(i as int), base@),
        decreases n - i,
    {
        let key = mappings.key_at(i);
        let key_base = extract_base_name(key.as_str());
        assert(keys.skip(i as int).first() == keys[i as int]);
        if key_base == *base {
            return Some(mappings.page_at(i));
        }
        assert(keys.skip(i as int).drop_first() == keys.skip(i + 1));
        i += 1;
    }
    None
}

/// Resolves the target file named `pdf_filename` against `mappings`: the
/// 0-based index of its page in the reference document, or `None` where no
/// rule finds one.
pub fn match_pdf_name(pdf_filename: &str, mappings: &MappingTable) -> (r: Option<u32>)
    ensures
        r == resolve(pdf_filename@, mappings@, mappings.keys()),
{
    let identity = normalize_filename(pdf_filename);
    if let Some(page_index) = mappings.get(identity.as_str()) {
        return Some(page_index);
    }
    proof {
        reveal_strlit(".pdf");
        assert(".pdf"@ == lower_pdf_suffix());
    }
    let with_extension = identity.concat(".pdf");
    if let Some(page_index) = mappings.get(with_extension.as_str()) {
        return Some(page_index);
    }
    if !has_first_duplicate_marker(pdf_filename) {
        return None;
    }
    let base = extract_base_name(pdf_filename);
    if let Some(page_index) = mappings.get(base.as_str()) {
        return Some(page_index);
    }
    scan_for_base(mappings, &base)
}

} // verus!
