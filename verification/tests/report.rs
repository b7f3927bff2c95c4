//! Tests of segmentation, section processing and full report rendering.

use rtt_tester::RunError;
use rtt_tester::report::render_report;
use rtt_tester::section::{Verdict, process_section};
use rtt_tester::segment::segment;

fn bytes(s: &str) -> Vec<u8> {
    s.as_bytes().to_vec()
}

#[test]
fn section_with_passing_item_succeeds() {
    let body = bytes("* Header\n* `cmd` => ok\n");
    let r = process_section(&body);
    assert_eq!(r.header, bytes("* Header"));
    assert_eq!(r.item_lines.len(), 1);
    assert_eq!(r.item_lines[0], bytes("* `cmd`  :heavy_check_mark:\n"));
    assert_eq!(r.verdict, Verdict::Success);
    assert_eq!(
        r.rendered,
        bytes("* [success]  Header\n* `cmd`  :heavy_check_mark:\n")
    );
}

#[test]
fn section_without_separator_fails() {
    let body = bytes("* Header\n* `cmd` no separator\n");
    let r = process_section(&body);
    assert_eq!(r.item_lines.len(), 1);
    assert_eq!(r.item_lines[0], bytes("* `cmd` no separator :red_circle:\n"));
    assert_eq!(r.verdict, Verdict::Failure);
    assert_eq!(
        r.rendered,
        bytes("* [fail]  Header\n* `cmd` no separator :red_circle:\n")
    );
}

#[test]
fn section_without_items_fails() {
    let body = bytes("* Header\nsome prose, no item lines\n");
    let r = process_section(&body);
    assert_eq!(r.item_lines.len(), 0);
    assert_eq!(r.verdict, Verdict::Failure);
    assert_eq!(r.rendered, bytes("* [fail]  Header\n"));
}

#[test]
fn section_with_mixed_items_fails() {
    let body = bytes("* H\n  * `a` => x\n  * `b` nope\n");
    let r = process_section(&body);
    assert_eq!(r.item_lines.len(), 2);
    assert_eq!(r.item_lines[0], bytes("  * `a`  :heavy_check_mark:\n"));
    assert_eq!(r.item_lines[1], bytes("  * `b` nope :red_circle:\n"));
    assert_eq!(r.verdict, Verdict::Failure);
}

#[test]
fn header_line_is_not_an_item() {
    let body = bytes("* `x` => 1");
    let r = process_section(&body);
    assert_eq!(r.item_lines.len(), 0);
    assert_eq!(r.verdict, Verdict::Failure);
}

#[test]
fn empty_section_body_fails() {
    let body: Vec<u8> = Vec::new();
    let r = process_section(&body);
    assert_eq!(r.header, bytes(""));
    assert_eq!(r.verdict, Verdict::Failure);
    assert_eq!(r.rendered, bytes("* [fail] \n"));
}

#[test]
fn verdict_counts_outcomes_not_marker_text() {
    // marker-like text inside an item line does not sway the verdict
    let body = bytes("* H\n  * `a` :red_circle: => ok\n");
    let r = process_section(&body);
    assert_eq!(r.verdict, Verdict::Success);
    assert_eq!(
        r.item_lines[0],
        bytes("  * `a` :red_circle:  :heavy_check_mark:\n")
    );
}

#[test]
fn classification_is_deterministic_on_a_line() {
    let line = bytes("  * `cmd` => ok");
    let (ann1, oc1) = rtt_tester::classify::classify_line(&line);
    let (ann2, oc2) = rtt_tester::classify::classify_line(&line);
    assert_eq!(oc1, oc2);
    assert_eq!(ann1, ann2);
}

#[test]
fn segmenter_splits_at_boundaries() {
    let doc = bytes("Intro\n* Sec A\n  * `a` => 1\n* Sec B\nprose\n");
    let seg = segment(&doc).unwrap();
    assert_eq!(seg.preamble, bytes("Intro\n"));
    assert_eq!(seg.sections.len(), 2);
    assert_eq!(seg.sections[0], bytes("* Sec A\n  * `a` => 1"));
    assert_eq!(seg.sections[1], bytes("* Sec B\nprose\n"));
}

#[test]
fn segmenter_loses_no_byte() {
    let doc = bytes("Intro\n* Sec A\n  * `a` => 1\n* Sec B\nprose\n");
    let seg = segment(&doc).unwrap();
    let mut rebuilt = seg.preamble.clone();
    for (k, body) in seg.sections.iter().enumerate() {
        if k > 0 {
            rebuilt.push(b'\n');
        }
        rebuilt.extend_from_slice(body);
    }
    assert_eq!(rebuilt, doc);
    let span_total: usize = seg.sections.iter().map(|b| b.len() + 1).sum::<usize>() - 1;
    assert_eq!(seg.preamble.len() + span_total, doc.len());
}

#[test]
fn full_report_keeps_order_and_preamble() {
    let doc = bytes("Intro\n* Sec A\n  * `a` => 1\n* Sec B\nprose\n");
    let out = render_report(&doc).unwrap();
    assert_eq!(
        out,
        bytes("Intro\n* [success]  Sec A\n  * `a`  :heavy_check_mark:\n* [fail]  Sec B\n")
    );
}

#[test]
fn report_section_count_matches_segmenter() {
    let doc = bytes("head\n* one\n* two\n* three\n");
    let seg = segment(&doc).unwrap();
    let out = render_report(&doc).unwrap();
    let verdict_lines = out
        .split(|&b| b == b'\n')
        .filter(|l| l.starts_with(b"* ["))
        .count();
    assert_eq!(seg.sections.len(), 3);
    assert_eq!(verdict_lines, 3);
}

#[test]
fn document_without_boundary_is_an_error() {
    let doc = bytes("# Title\nno markers here\n");
    assert_eq!(render_report(&doc), Err(RunError::NoSections));
    assert!(segment(&doc).is_err());
}

#[test]
fn marker_on_first_line_is_no_boundary() {
    // a marker at the very start of the document is not preceded by a
    // newline, so it opens no section
    let doc = bytes("* Top\nrest\n");
    assert_eq!(render_report(&doc), Err(RunError::NoSections));
}

#[test]
fn boundary_at_document_end() {
    let doc = bytes("x\n*");
    let out = render_report(&doc).unwrap();
    assert_eq!(out, bytes("x\n* [fail] \n"));
}
