//! The mapping table builder: from the rows of a spreadsheet to the mapping
//! table.
//!
//! A row gives a file name in its first cell and a page number, counted from
//! 1, in its second. A row that does not is passed over in silence, and of
//! two rows with the same key the later one decides.

use vstd::prelude::*;
use crate::decimal::{decimal, parse_whole_part, signed_text, whole_part};
use crate::names::{final_segment, final_segment_of};
use crate::table::{MappingEntry, MappingTable};
use crate::text::{chars_of, trim, trim_bounds};

verus! {

/// One cell of a spreadsheet, by the kind of value it holds.
#[derive(Debug, PartialEq, Eq)]
pub enum Cell {
    /// A text.
    Text(String),
    /// An integer.
    Int(i64),
    /// A floating-point number, in decimal notation: an optional minus sign,
    /// digits, and optionally a point and more digits. A value that has no
    /// such notation (an infinity, not a number) is held as it is printed.
    Float(String),
    /// An empty cell, or a value of any other kind.
    Other,
}

/// The greatest page number that a table can hold.
pub open spec fn max_page_number() -> int {
    u32::MAX as int
}

/// The file name that a cell gives: a text without the white space around
/// it, a number as it is written.
pub open spec fn cell_name(cell: Cell) -> Option<Seq<char>> {
    match cell {
        Cell::Text(text) => Some(trim(text@)),
        Cell::Int(i) => Some(decimal(i as int)),
        Cell::Float(notation) => Some(notation@),
        Cell::Other => None,
    }
}

/// The page number that a cell gives: an integer, or a floating-point number
/// cut off toward zero.
pub open spec fn cell_page_number(cell: Cell) -> Option<int> {
    match cell {
        Cell::Int(i) => Some(i as int),
        Cell::Float(notation) => whole_part(notation@),
        _ => None,
    }
}

/// The entry that a row gives: the final path segment of the name in its
/// first cell, and the page number in its second cell, less one. A row gives
/// no entry where it has fewer than two cells, where either cell is of
/// another kind, where the name is empty, or where the page number is not in
/// the range from 1 to [`max_page_number`].
pub open spec fn row_entry(row: Seq<Cell>) -> Option<(Seq<char>, u32)> {
    if row.len() < 2 {
        None
    } else {
        match (cell_name(row[0]), cell_page_number(row[1])) {
            (Some(name), Some(page_number)) => if name.len() > 0 && 1 <= page_number
                <= max_page_number() {
                Some((final_segment(name), (page_number - 1) as u32))
            } else {
                None
            },
            _ => None,
        }
    }
}

/// The mapping that `rows` give: each row's entry, a later one overwriting an
/// earlier one with the same key.
pub open spec fn mapping_of(rows: Seq<Vec<Cell>>) -> Map<Seq<char>, u32>
    decreases rows.len(),
{
    if rows.len() == 0 {
        Map::empty()
    } else {
        let earlier = mapping_of(rows.drop_last());
        match row_entry(rows.last()@) {
            Some((key, page_index)) => earlier.insert(key, page_index),
            None => earlier,
        }
    }
}

/// The keys that `rows` give, each once, in the order in which they first
/// come.
pub open spec fn key_order(rows: Seq<Vec<Cell>>) -> Seq<Seq<char>>
    decreases rows.len(),
{
    if rows.len() == 0 {
        Seq::empty()
    } else {
        let earlier = key_order(rows.drop_last());
        match row_entry(rows.last()@) {
            Some((key, _)) => if mapping_of(rows.drop_last()).contains_key(key) {
                earlier
            } else {
                earlier.push(key)
            },
            None => earlier,
        }
    }
}

/// The file name that `cell` gives.
fn name_of_cell(cell: &Cell) -> (r: Option<String>)
    ensures
        match r {
            Some(name) => cell_name(*cell) == Some(name@),
            None => cell_name(*cell) is None,
        },
{
    match cell {
        Cell::Text(text) => {
            let chars = chars_of(text.as_str());
            let (start, end) = trim_bounds(&chars, 0, chars.len());
            assert(chars@.subrange(0, chars.len() as int) == chars@);
            Some(text.as_str().substring_char(start, end).to_owned())
        },
        Cell::Int(i) => Some(signed_text(*i)),
        Cell::Float(notation) => Some(notation.clone()),
        Cell::Other => None,
    }
}

/// The page index that `cell` gives: its page number, where that is in
/// range, less one.
fn page_index_of_cell(cell: &Cell) -> (r: Option<u32>)
    ensures
        r == match cell_page_number(*cell) {
            Some(page_number) => if 1 <= page_number <= max_page_number() {
                Some((page_number - 1) as u32)
            } else {
                None
            },
            None => None,
        },
{
    match cell {
        Cell::Int(i) => if 1 <= *i && *i <= 0xFFFF_FFFF {
            Some((*i - 1) as u32)
        } else {
            None
        },
        Cell::Float(notation) => {
            let chars = chars_of(notation.as_str());
            match parse_whole_part(&chars, 0xFFFF_FFFF) {
                Some(page_number) => Some((page_number - 1) as u32),
                None => None,
            }
        },
        _ => None,
    }
}

/// The entry that `row` gives, if it gives one.
pub fn entry_of_row(row: &Vec<Cell>) -> (r: Option<MappingEntry>)
    ensures
        match r {
            Some(entry) => row_entry(row@) == Some((entry.key@, entry.page_index)),
            None => row_entry(row@) is None,
        },
{
    if row.len() < 2 {
        return None;
    }
    let name = match name_of_cell(&row[0]) {
        Some(name) => name,
        None => {
            return None;
        },
    };
    if name.as_str().is_empty() {
        return None;
    }
    let page_index = match page_index_of_cell(&row[1]) {
        Some(page_index) => page_index,
        None => {
            return None;
        },
    };
    Some(MappingEntry { key: final_segment_of(name.as_str()), page_index })
}

/// Builds the mapping table from `rows`. No row makes the build fail: a row
/// that gives no entry is passed over.
pub fn build_mappings(rows: &Vec<Vec<Cell>>) -> (table: MappingTable)
    ensures
        table@ == mapping_of(rows@),
        table.keys() == key_order(rows@),
{
    let mut table = MappingTable::new();
    let mut i: usize = 0;
    assert(rows@.take(0) == Seq::<Vec<Cell>>::empty());
    while i < rows.len()
        invariant
            i <= rows.len(),
            table@ == mapping_of(rows@.take(i as int)),
            table.keys() == key_order(rows@.take(i as int)),
        decreases rows.len() - i,
    {
        assert(rows@.take(i + 1).drop_last() == rows@.take(i as int));
        assert(rows@.take(i + 1).last() == rows@[i as int]);
        match entry_of_row(&rows[i]) {
            Some(entry) => {
                table.insert(entry.key, entry.page_index);
            },
            None => {},
        }
        i += 1;
    }
    assert(rows@.take(rows.len() as int) == rows@);
    table
}

/// Whether a row leaves its page unset or its file name empty: its second
/// cell gives the page number 0, or its first cell gives an empty name.
pub open spec fn is_unset(row: Seq<Cell>) -> bool {
    row.len() >= 2 && (cell_page_number(row[1]) == Some(0int) || cell_name(row[0]) == Some(
        Seq::<char>::empty(),
    ))
}

/// A row with a file name and a page number from 1 on is in the table: the
/// final path segment of its name is a key. The page index under that key
/// is the row's page number less one, unless a later row gives the same key
/// another page.
pub proof fn lemma_valid_row_is_mapped(
    rows: Seq<Vec<Cell>>,
    i: int,
    name: Seq<char>,
    page_number: int,
)
    requires
        0 <= i < rows.len(),
        rows[i]@.len() >= 2,
        cell_name(rows[i]@[0]) == Some(name),
        name.len() > 0,
        cell_page_number(rows[i]@[1]) == Some(page_number),
        1 <= page_number <= max_page_number(),
    ensures
        mapping_of(rows).contains_key(final_segment(name)),
        (forall|j: int|
            i < j < rows.len() ==> match #[trigger] row_entry(rows[j]@) {
                Some((key, page_index)) => key == final_segment(name) ==> page_index
                    == page_number - 1,
                None => true,
            }) ==> mapping_of(rows)[final_segment(name)] == page_number - 1,
    decreases rows.len(),
{
    if i < rows.len() - 1 {
        let earlier = rows.drop_last();
        assert(earlier[i] == rows[i]);
        lemma_valid_row_is_mapped(earlier, i, name, page_number);
        if forall|j: int|
            i < j < rows.len() ==> match #[trigger] row_entry(rows[j]@) {
                Some((key, page_index)) => key == final_segment(name) ==> page_index
                    == page_number - 1,
                None => true,
            } {
            assert forall|j: int| i < j < earlier.len() implies match #[trigger] row_entry(
                earlier[j]@,
            ) {
                Some((key, page_index)) => key == final_segment(name) ==> page_index
                    == page_number - 1,
                None => true,
            } by {
                assert(earlier[j] == rows[j]);
            }
            assert(rows.last() == rows[rows.len() - 1]);
        }
    }
}

/// A row with the page number 0 or with an empty file name creates no entry:
/// the table is the one that the other rows give.
pub proof fn lemma_unset_row_creates_no_entry(rows: Seq<Vec<Cell>>, i: int)
    requires
        0 <= i < rows.len(),
        is_unset(rows[i]@),
    ensures
        row_entry(rows[i]@) is None,
        mapping_of(rows) == mapping_of(rows.remove(i)),
        key_order(rows) == key_order(rows.remove(i)),
{
    lemma_row_without_entry_is_idle(rows, i);
}

/// A row that gives no entry can be left out: the table is the one that the
/// other rows give.
pub proof fn lemma_row_without_entry_is_idle(rows: Seq<Vec<Cell>>, i: int)
    requires
        0 <= i < rows.len(),
        row_entry(rows[i]@) is None,
    ensures
        mapping_of(rows) == mapping_of(rows.remove(i)),
        key_order(rows) == key_order(rows.remove(i)),
    decreases rows.len(),
{
    if i == rows.len() - 1 {
        assert(rows.remove(i) == rows.drop_last());
    } else {
        let earlier = rows.drop_last();
        assert(earlier[i] == rows[i]);
        lemma_row_without_entry_is_idle(earlier, i);
        assert(rows.remove(i).drop_last() == earlier.remove(i));
        assert(rows.remove(i).last() == rows.last());
    }
}

/// The table holds nothing but what the rows give: under each of its keys
/// stands the entry of some row.
pub proof fn lemma_entries_come_from_rows(rows: Seq<Vec<Cell>>, key: Seq<char>)
    requires
        mapping_of(rows).contains_key(key),
    ensures
        exists|i: int|
            0 <= i < rows.len() && #[trigger] row_entry(rows[i]@) == Some(
                (key, mapping_of(rows)[key]),
            ),
    decreases rows.len(),
{
    if rows.len() > 0 {
        let earlier = rows.drop_last();
        let n = rows.len() - 1;
        if row_entry(rows[n]@) matches Some((k, v)) && k == key {
            assert(row_entry(rows[n]@) == Some((key, mapping_of(rows)[key])));
        } else {
            lemma_entries_come_from_rows(earlier, key);
            let i = choose|i: int|
                0 <= i < earlier.len() && #[trigger] row_entry(earlier[i]@) == Some(
                    (key, mapping_of(earlier)[key]),
                );
            assert(earlier[i] == rows[i]);
            assert(row_entry(rows[i]@) == Some((key, mapping_of(rows)[key])));
        }
    }
}

} // verus!
