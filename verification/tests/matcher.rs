use insert_bia::matcher::match_pdf_name;
use insert_bia::table::MappingTable;

fn table_of(entries: &[(&str, u32)]) -> MappingTable {
    let mut table = MappingTable::new();
    for (key, page_index) in entries {
        table.insert(key.to_string(), *page_index);
    }
    table
}

#[test]
fn exact_identity_resolves() {
    let table = table_of(&[("report", 2)]);
    assert_eq!(match_pdf_name("report.pdf", &table), Some(2));
}

#[test]
fn first_duplicate_resolves_by_its_base() {
    let table = table_of(&[("report", 2)]);
    assert_eq!(match_pdf_name("report (1).pdf", &table), Some(2));
}

#[test]
fn second_duplicate_does_not_resolve() {
    let table = table_of(&[("report", 2)]);
    assert_eq!(match_pdf_name("report (2).pdf", &table), None);
}

#[test]
fn later_duplicates_do_not_resolve() {
    let table = table_of(&[("report", 2)]);
    assert_eq!(match_pdf_name("report (3).pdf", &table), None);
    assert_eq!(match_pdf_name("report(10).pdf", &table), None);
    assert_eq!(match_pdf_name("report (11).pdf", &table), None);
}

#[test]
fn key_with_extension_resolves() {
    let table = table_of(&[("report.pdf", 4)]);
    assert_eq!(match_pdf_name("report.pdf", &table), Some(4));
    assert_eq!(match_pdf_name("report.PDF", &table), Some(4));
    assert_eq!(match_pdf_name("dir/report.pdf", &table), Some(4));
}

#[test]
fn key_with_upper_case_extension_is_no_exact_match() {
    let table = table_of(&[("report.PDF", 4)]);
    assert_eq!(match_pdf_name("report.pdf", &table), None);
    assert_eq!(match_pdf_name("report.PDF", &table), None);
}

#[test]
fn exact_identity_comes_before_the_key_with_extension() {
    let table = table_of(&[("report.pdf", 4), ("report", 2)]);
    assert_eq!(match_pdf_name("report.pdf", &table), Some(2));
}

#[test]
fn exact_duplicate_key_comes_before_the_base() {
    let table = table_of(&[("report", 2), ("report (1)", 7)]);
    assert_eq!(match_pdf_name("report (1).pdf", &table), Some(7));
}

#[test]
fn duplicate_key_with_extension_comes_before_the_base() {
    let table = table_of(&[("report", 2), ("report (1).pdf", 8)]);
    assert_eq!(match_pdf_name("report (1).pdf", &table), Some(8));
}

#[test]
fn first_duplicate_resolves_by_the_base_of_a_key() {
    let table = table_of(&[("other.pdf", 1), ("report.pdf", 5)]);
    assert_eq!(match_pdf_name("report (1).pdf", &table), Some(5));
}

#[test]
fn first_duplicate_resolves_by_a_key_that_is_a_duplicate_itself() {
    let table = table_of(&[("report (2).pdf", 6)]);
    assert_eq!(match_pdf_name("report (1).pdf", &table), Some(6));
    assert_eq!(match_pdf_name("report(1).pdf", &table), Some(6));
}

#[test]
fn of_several_keys_with_the_base_the_first_in_order_decides() {
    let table = table_of(&[("report (2).pdf", 6), ("report (3).pdf", 9)]);
    assert_eq!(match_pdf_name("report (1).pdf", &table), Some(6));
    let table = table_of(&[("report (3).pdf", 9), ("report (2).pdf", 6)]);
    assert_eq!(match_pdf_name("report (1).pdf", &table), Some(9));
}

#[test]
fn an_overwritten_key_keeps_its_place_in_the_order() {
    let table = table_of(&[("report (2).pdf", 6), ("report (3).pdf", 9), ("report (2).pdf", 7)]);
    assert_eq!(match_pdf_name("report (1).pdf", &table), Some(7));
}

#[test]
fn the_marker_is_looked_for_in_the_whole_name() {
    let table = table_of(&[("report.pdf", 5)]);
    assert_eq!(match_pdf_name("dir (1)/report (2).pdf", &table), Some(5));
    assert_eq!(match_pdf_name("report (2) (1).pdf", &table), Some(5));
    assert_eq!(match_pdf_name("report (2).pdf(1)", &table), Some(5));
    assert_eq!(match_pdf_name("(1)/report (2).pdf", &table), Some(5));
}

#[test]
fn the_marker_needs_its_parentheses() {
    let table = table_of(&[("report", 2)]);
    assert_eq!(match_pdf_name("report 1.pdf", &table), None);
    assert_eq!(match_pdf_name("report (1.pdf", &table), None);
    assert_eq!(match_pdf_name("report ( 1).pdf", &table), None);
}

#[test]
fn matching_is_case_sensitive() {
    let table = table_of(&[("report", 2)]);
    assert_eq!(match_pdf_name("Report.pdf", &table), None);
    assert_eq!(match_pdf_name("REPORT (1).pdf", &table), None);
}

#[test]
fn nothing_resolves_against_an_empty_table() {
    let table = MappingTable::new();
    assert_eq!(match_pdf_name("report.pdf", &table), None);
    assert_eq!(match_pdf_name("report (1).pdf", &table), None);
    assert_eq!(match_pdf_name("", &table), None);
}

#[test]
fn unknown_names_do_not_resolve() {
    let table = table_of(&[("report", 2), ("summary.pdf", 3)]);
    assert_eq!(match_pdf_name("minutes.pdf", &table), None);
    assert_eq!(match_pdf_name("minutes (1).pdf", &table), None);
    assert_eq!(match_pdf_name("repor.pdf", &table), None);
    assert_eq!(match_pdf_name("reports.pdf", &table), None);
}

#[test]
fn names_beyond_ascii_resolve() {
    let table = table_of(&[("bìa sách", 0), ("報告.pdf", 1)]);
    assert_eq!(match_pdf_name("bìa sách.pdf", &table), Some(0));
    assert_eq!(match_pdf_name("bìa sách (1).pdf", &table), Some(0));
    assert_eq!(match_pdf_name("報告 (1).PDF", &table), Some(1));
    assert_eq!(match_pdf_name("報告 (2).PDF", &table), None);
}
