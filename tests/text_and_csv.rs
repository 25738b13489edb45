use perf_report::extract::PerfResult;
use perf_report::report::{clean_scales, csv_header, csv_row, to_csv};
use perf_report::text::{clean_scale, is_whitespace, trim};

fn rec(scale: &str) -> PerfResult {
    PerfResult {
        scale: scale.to_string(),
        branch: "master".to_string(),
        commit_date: "2024-01-01".to_string(),
        commit: "abc123".to_string(),
        metric_text: "95.5".to_string(),
    }
}

#[test]
fn clean_scale_takes_first_word() {
    assert_eq!(clean_scale("100"), "100");
    assert_eq!(clean_scale("100 Warehouses"), "100");
    assert_eq!(clean_scale("  42\tWarehouses extra"), "42");
    assert_eq!(clean_scale(""), "");
    assert_eq!(clean_scale("   "), "   ");
}

#[test]
fn clean_scale_twice_is_clean_once() {
    for s in ["100", "100 Warehouses", " a b ", "", "  "] {
        let once = clean_scale(s);
        assert_eq!(clean_scale(&once), once);
    }
}

#[test]
fn trim_strips_unicode_whitespace() {
    assert_eq!(trim("  a b \n"), "a b");
    assert_eq!(trim("\u{a0}x\u{3000}"), "x");
    assert_eq!(trim(" \t "), "");
    assert_eq!(trim(""), "");
    assert_eq!(trim("abc"), "abc");
}

#[test]
fn clean_scales_changes_only_scale() {
    let out = clean_scales(&vec![rec("10 Warehouses"), rec("100")]);
    assert_eq!(out[0].scale, "10");
    assert_eq!(out[1].scale, "100");
    assert_eq!(out[0].branch, "master");
    assert_eq!(out[0].commit_date, "2024-01-01");
    assert_eq!(out[0].commit, "abc123");
    assert_eq!(out[0].metric_text, "95.5");
}

#[test]
fn csv_header_is_fixed() {
    assert_eq!(csv_header(), "branch,revision,scale,ctime,metric");
}

#[test]
fn csv_row_follows_header_order() {
    assert_eq!(csv_row(&rec("10"), "95.5"), "master,abc123,10,2024-01-01,95.5");
}

#[test]
fn csv_document() {
    let recs = vec![rec("10"), rec("100")];
    let metrics = vec!["95.5".to_string(), "0".to_string()];
    assert_eq!(
        to_csv(&recs, &metrics),
        "branch,revision,scale,ctime,metric\nmaster,abc123,10,2024-01-01,95.5\nmaster,abc123,100,2024-01-01,0\n"
    );
    assert_eq!(to_csv(&vec![], &vec![]), "branch,revision,scale,ctime,metric\n");
}

#[test]
fn csv_row_quotes_special_fields() {
    let mut r = rec("10");
    r.branch = "a,b".to_string();
    r.commit = "say \"hi\"".to_string();
    r.commit_date = "line\nbreak".to_string();
    assert_eq!(
        csv_row(&r, "1\r"),
        "\"a,b\",\"say \"\"hi\"\"\",10,\"line\nbreak\",\"1\r\""
    );
}

#[test]
fn csv_row_with_comma_keeps_five_fields() {
    let mut r = rec("10 Warehouses");
    r.branch = "a,b".to_string();
    assert_eq!(csv_row(&r, "95.5"), "\"a,b\",abc123,10 Warehouses,2024-01-01,95.5");
}

#[test]
fn is_whitespace_matches_std() {
    for u in 0u32..=0x10FFFF {
        if let Some(c) = char::from_u32(u) {
            assert_eq!(is_whitespace(c), c.is_whitespace(), "U+{:04X}", u);
        }
    }
}
