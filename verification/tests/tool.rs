use insert_bia::tool::{
    merge_arguments, page_count_arguments, page_count_from, parse_page_count,
    temporary_output_name, PageCountError,
};

#[test]
fn the_page_count_is_asked_for_by_one_flag_and_the_document() {
    assert_eq!(page_count_arguments("bia.pdf"), vec!["--show-npages", "bia.pdf"]);
}

#[test]
fn the_merge_names_the_page_before_the_target() {
    assert_eq!(
        merge_arguments("bia.pdf", 7, "dir/report.pdf", "/tmp/out.pdf"),
        vec![
            "--warning-exit-0",
            "--empty",
            "--pages",
            "bia.pdf",
            "7",
            "dir/report.pdf",
            "--",
            "/tmp/out.pdf"
        ]
    );
}

#[test]
fn the_merge_writes_the_page_number_in_full() {
    assert_eq!(merge_arguments("r", 1, "t", "o")[4], "1");
    assert_eq!(merge_arguments("r", 10, "t", "o")[4], "10");
    assert_eq!(merge_arguments("r", 4294967296, "t", "o")[4], "4294967296");
    assert_eq!(merge_arguments("r", u64::MAX, "t", "o")[4], "18446744073709551615");
}

#[test]
fn the_temporary_output_is_named_after_the_process() {
    assert_eq!(temporary_output_name(42), "merged_output_42.pdf");
    assert_eq!(temporary_output_name(0), "merged_output_0.pdf");
    assert_eq!(temporary_output_name(u32::MAX), "merged_output_4294967295.pdf");
}

#[test]
fn a_page_count_is_read_without_the_space_around_it() {
    assert_eq!(parse_page_count("5"), Some(5));
    assert_eq!(parse_page_count("5\n"), Some(5));
    assert_eq!(parse_page_count("  12\r\n"), Some(12));
    assert_eq!(parse_page_count("0"), Some(0));
    assert_eq!(parse_page_count("007"), Some(7));
    assert_eq!(parse_page_count("+5"), Some(5));
}

#[test]
fn what_is_no_number_is_no_page_count() {
    assert_eq!(parse_page_count(""), None);
    assert_eq!(parse_page_count("  \n"), None);
    assert_eq!(parse_page_count("five"), None);
    assert_eq!(parse_page_count("5 pages"), None);
    assert_eq!(parse_page_count("5.0"), None);
    assert_eq!(parse_page_count("-5"), None);
    assert_eq!(parse_page_count("-0"), None);
    assert_eq!(parse_page_count("+"), None);
    assert_eq!(parse_page_count("++5"), None);
    assert_eq!(parse_page_count("+ 5"), None);
    assert_eq!(parse_page_count("1 2"), None);
    assert_eq!(parse_page_count("٥"), None);
}

#[test]
fn a_page_count_is_read_up_to_the_largest() {
    assert_eq!(parse_page_count(&usize::MAX.to_string()), Some(usize::MAX));
    assert_eq!(parse_page_count(&format!("{}0", usize::MAX)), None);
    assert_eq!(parse_page_count("18446744073709551616"), None);
    assert_eq!(parse_page_count("99999999999999999999999999"), None);
}

#[test]
fn a_page_count_is_read_as_the_platform_reads_it() {
    let answers = [
        "", " ", "0", "1", "+1", "-1", "+", "-", "++1", "+-1", "1+", " 7 ", "\t8\n", "08", "1_000",
        "1e3", "0x10", "12a", "٣", "\u{a0}9\u{3000}", "9\u{200b}", "4294967295", "4294967296",
        "18446744073709551615", "18446744073709551616", "000000000000000000000000001",
    ];
    for answer in answers {
        assert_eq!(parse_page_count(answer), answer.trim().parse::<usize>().ok(), "for {:?}", answer);
    }
}

#[test]
fn a_failed_count_hands_on_what_the_tool_said() {
    assert_eq!(
        page_count_from(false, "5\n", "no such file".to_string()),
        Err(PageCountError::ToolFailed { diagnostic: "no such file".to_string() })
    );
}

#[test]
fn a_count_that_succeeded_is_read_from_the_answer() {
    assert_eq!(page_count_from(true, "5\n", String::new()), Ok(5));
    assert_eq!(page_count_from(true, "5\n", "warning".to_string()), Ok(5));
    assert_eq!(page_count_from(true, "", String::new()), Err(PageCountError::NotANumber));
    assert_eq!(page_count_from(true, "many", String::new()), Err(PageCountError::NotANumber));
}
