use insert_bia::names::{extract_base_name, final_segment_of, has_pdf_extension, normalize_filename};
use std::path::Path;

#[test]
fn normalize_strips_directories_and_extension() {
    assert_eq!(normalize_filename("a/b/report.pdf"), "report");
}

#[test]
fn normalize_strips_upper_case_extension() {
    assert_eq!(normalize_filename("report.PDF"), "report");
}

#[test]
fn normalize_keeps_other_extensions() {
    assert_eq!(normalize_filename("report.txt"), "report.txt");
}

#[test]
fn normalize_recognises_no_mixed_casing() {
    assert_eq!(normalize_filename("report.Pdf"), "report.Pdf");
    assert_eq!(normalize_filename("report.pDF"), "report.pDF");
}

#[test]
fn normalize_strips_one_extension_only() {
    assert_eq!(normalize_filename("report.pdf.pdf"), "report.pdf");
    assert_eq!(normalize_filename("report.PDF.pdf"), "report.PDF");
}

#[test]
fn normalize_of_a_bare_extension_is_empty() {
    assert_eq!(normalize_filename(".pdf"), "");
    assert_eq!(normalize_filename("dir/.PDF"), "");
}

#[test]
fn normalize_of_short_and_empty_names() {
    assert_eq!(normalize_filename(""), "");
    assert_eq!(normalize_filename("pdf"), "pdf");
    assert_eq!(normalize_filename("a"), "a");
}

#[test]
fn normalize_is_case_sensitive_in_the_name() {
    assert_eq!(normalize_filename("Report.pdf"), "Report");
}

#[test]
fn normalize_counts_characters_not_bytes() {
    assert_eq!(normalize_filename("thư mục/bìa sách.pdf"), "bìa sách");
    assert_eq!(normalize_filename("報告.PDF"), "報告");
}

#[test]
fn final_segment_passes_over_trailing_separators() {
    assert_eq!(final_segment_of("a/b/"), "b");
    assert_eq!(final_segment_of("a/b//"), "b");
    assert_eq!(final_segment_of("a/b/."), "b");
    assert_eq!(final_segment_of("a/b/./"), "b");
}

#[test]
fn final_segment_of_a_name_without_file_name_is_the_name() {
    assert_eq!(final_segment_of(""), "");
    assert_eq!(final_segment_of("/"), "/");
    assert_eq!(final_segment_of("."), ".");
    assert_eq!(final_segment_of(".."), "..");
    assert_eq!(final_segment_of("a/.."), "a/..");
    assert_eq!(final_segment_of("a/../"), "a/../");
}

#[test]
fn final_segment_keeps_dots_inside_a_segment() {
    assert_eq!(final_segment_of("a/.b"), ".b");
    assert_eq!(final_segment_of("a/b."), "b.");
    assert_eq!(final_segment_of("a/..."), "...");
    assert_eq!(final_segment_of("./a"), "a");
}

#[test]
fn final_segment_agrees_with_the_path_rules_of_the_platform() {
    let names = [
        "", "/", "//", ".", "./", "..", "../", "a", "a/", "a//", "a/.", "a/./", "a/..", "a/../",
        "a/b", "/a", "/a/b/", "./a", "../a", "a/.b", "a/b.", "a/...", ".a", "..a", "a..", "a/./b",
        "a/b/./.", "/.", "/..", "report.pdf", "x/y/report (1).pdf", " a / b ", "a\\b", "a/b\\c",
    ];
    for name in names {
        let expected = Path::new(name).file_name().and_then(|n| n.to_str()).unwrap_or(name);
        assert_eq!(final_segment_of(name), expected, "for {:?}", name);
    }
}

#[test]
fn base_of_a_spaced_duplicate() {
    assert_eq!(extract_base_name("report (1).pdf"), "report");
}

#[test]
fn base_of_an_unspaced_duplicate() {
    assert_eq!(extract_base_name("report(2).pdf"), "report");
}

#[test]
fn base_of_a_plain_name() {
    assert_eq!(extract_base_name("report.pdf"), "report");
}

#[test]
fn base_cuts_at_the_first_spaced_parenthesis() {
    assert_eq!(extract_base_name("a(b (c).pdf"), "a(b");
    assert_eq!(extract_base_name("a (b) (c).pdf"), "a");
    assert_eq!(extract_base_name("a(b)(c).pdf"), "a");
}

#[test]
fn base_is_trimmed_where_it_is_cut() {
    assert_eq!(extract_base_name("  report   (1).pdf"), "report");
    assert_eq!(extract_base_name("\u{3000}report\u{a0}(1).pdf"), "report");
    assert_eq!(extract_base_name(" (1).pdf"), "");
    assert_eq!(extract_base_name("(1).pdf"), "");
}

#[test]
fn base_without_a_parenthesis_is_the_identity_as_it_is() {
    assert_eq!(extract_base_name(" report .pdf"), " report ");
    assert_eq!(extract_base_name("dir (1)/report.pdf"), "report");
}

#[test]
fn base_looks_at_the_identity_only() {
    assert_eq!(extract_base_name("report.pdf (1)"), "report.pdf");
    assert_eq!(extract_base_name("a/b/report (1).PDF"), "report");
}

#[test]
fn pdf_extension_in_any_casing() {
    assert!(has_pdf_extension("a.pdf"));
    assert!(has_pdf_extension("a.PDF"));
    assert!(has_pdf_extension("a.Pdf"));
    assert!(has_pdf_extension("dir/sub/a.b.pDf"));
    assert!(has_pdf_extension("a.pdf/"));
}

#[test]
fn no_pdf_extension() {
    assert!(!has_pdf_extension(""));
    assert!(!has_pdf_extension("pdf"));
    assert!(!has_pdf_extension(".pdf"));
    assert!(!has_pdf_extension("a.pdfx"));
    assert!(!has_pdf_extension("a.pd"));
    assert!(!has_pdf_extension("a.txt"));
    assert!(!has_pdf_extension("a.pdf/.."));
    assert!(!has_pdf_extension("a.pdf."));
    assert!(!has_pdf_extension("a.pdf/b"));
    assert!(!has_pdf_extension("a.ＰＤＦ"));
}

#[test]
fn pdf_extension_agrees_with_the_path_rules_of_the_platform() {
    let names = [
        "", ".", "..", ".pdf", "a.pdf", "a.PDF", "a.pDf", "a.pdf.", "a..pdf", ".a.pdf", "a.b.pdf",
        "a.pdf/", "a.pdf/.", "a.pdf/..", "x.pdf/y", "x/y.pdf", "pdf", "a.pdff", "a.p", "..pdf",
    ];
    for name in names {
        let expected = Path::new(name)
            .extension()
            .map(|e| e.eq_ignore_ascii_case("pdf"))
            .unwrap_or(false);
        assert_eq!(has_pdf_extension(name), expected, "for {:?}", name);
    }
}
