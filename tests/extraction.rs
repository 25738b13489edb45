use perf_report::dom::{body_blocks, Edge, Node};
use perf_report::extract::{extract_records, Block, PerfResult};
use perf_report::report::{clean_scales, parse_report, records_from_edges, ReportError};

fn open_el(name: &str) -> Edge {
    Edge::Open(Node::Element(name.to_string()))
}

fn text(t: &str) -> Vec<Edge> {
    vec![Edge::Open(Node::Text(t.to_string())), Edge::Close]
}

fn row_html(date: &str, commit: &str, metric: &str) -> String {
    format!("<tr><td>{}</td><td>{}</td><td>{}</td></tr>", date, commit, metric)
}

fn fields(r: &PerfResult) -> (&str, &str, &str, &str, &str) {
    (&r.scale, &r.branch, &r.commit_date, &r.commit, &r.metric_text)
}

#[test]
fn end_to_end_single_record() {
    let html = "<h2>10 Warehouses</h2><h3>master</h3><table><tr><td>2024-01-01</td><td>abc123</td><td>95.5</td></tr></table>";
    let raw = parse_report(html).unwrap();
    assert_eq!(raw.len(), 1);
    assert_eq!(fields(&raw[0]), ("10 Warehouses", "master", "2024-01-01", "abc123", "95.5"));
    assert_eq!(raw[0].metric_text.parse::<f64>().unwrap_or(0.0), 95.5);
    let cleaned = clean_scales(&raw);
    assert_eq!(fields(&cleaned[0]), ("10", "master", "2024-01-01", "abc123", "95.5"));
}

#[test]
fn records_keep_document_order() {
    let html = format!(
        "<html><body><h2>10</h2><h3>master</h3><table>{}{}</table><h2>100</h2><h3>dev</h3><table>{}</table></body></html>",
        row_html("d1", "r1", "1.0"),
        row_html("d2", "r2", "2.0"),
        row_html("d3", "r3", "3.0"),
    );
    let recs = parse_report(&html).unwrap();
    let got: Vec<_> = recs.iter().map(fields).collect();
    assert_eq!(
        got,
        vec![
            ("10", "master", "d1", "r1", "1.0"),
            ("10", "master", "d2", "r2", "2.0"),
            ("100", "dev", "d3", "r3", "3.0"),
        ]
    );
}

#[test]
fn table_before_headings_yields_nothing() {
    let html = format!(
        "<table>{}</table><h2>10</h2><table>{}</table><h3>master</h3><table>{}</table>",
        row_html("a", "b", "1"),
        row_html("c", "d", "2"),
        row_html("e", "f", "3"),
    );
    let recs = parse_report(&html).unwrap();
    assert_eq!(recs.len(), 1);
    assert_eq!(fields(&recs[0]), ("10", "master", "e", "f", "3"));
}

#[test]
fn branch_without_scale_yields_nothing() {
    let html = format!("<h3>master</h3><table>{}</table>", row_html("a", "b", "1"));
    assert_eq!(parse_report(&html).unwrap().len(), 0);
}

#[test]
fn rows_without_three_cells_are_skipped() {
    let html = format!(
        "<h2>10</h2><h3>master</h3><table><tr><th>date</th><th>commit</th><th>tps</th></tr>{}<tr><td>x</td><td>y</td></tr>{}<tr><td>1</td><td>2</td><td>3</td><td>4</td></tr></table>",
        row_html("d1", "r1", "5"),
        row_html("d2", "r2", "6"),
    );
    let recs = parse_report(&html).unwrap();
    let got: Vec<_> = recs.iter().map(fields).collect();
    assert_eq!(got, vec![("10", "master", "d1", "r1", "5"), ("10", "master", "d2", "r2", "6")]);
}

#[test]
fn cells_and_headings_are_trimmed() {
    let html = "<h2>\n  100 Warehouses \n</h2><h3> dev\t</h3><table><tr><td> 2024-02-02 </td><td>\nfff\n</td><td>  12.25 </td></tr></table>";
    let recs = parse_report(html).unwrap();
    assert_eq!(fields(&recs[0]), ("100 Warehouses", "dev", "2024-02-02", "fff", "12.25"));
}

#[test]
fn unparsable_metric_keeps_its_text() {
    let html = format!("<h2>10</h2><h3>master</h3><table>{}</table>", row_html("d", "c", "n/a"));
    let recs = parse_report(&html).unwrap();
    assert_eq!(recs[0].metric_text, "n/a");
    assert_eq!(recs[0].metric_text.parse::<f64>().unwrap_or(0.0), 0.0);
}

#[test]
fn heading_text_gathers_nested_elements() {
    let html = format!(
        "<h2><b>10</b> Warehouses</h2><h3>feat<i>ure</i></h3><table>{}</table>",
        row_html("d", "c", "1")
    );
    let recs = parse_report(&html).unwrap();
    assert_eq!(recs[0].scale, "10 Warehouses");
    assert_eq!(recs[0].branch, "feature");
}

#[test]
fn later_headings_do_not_change_earlier_records() {
    let html = format!(
        "<h2>10</h2><h3>master</h3><table>{}</table><h2>20</h2><h3>dev</h3>",
        row_html("d", "c", "1")
    );
    let recs = parse_report(&html).unwrap();
    assert_eq!(recs.len(), 1);
    assert_eq!(recs[0].scale, "10");
    assert_eq!(recs[0].branch, "master");
}

#[test]
fn rows_nested_deeper_are_found() {
    let html = format!(
        "<h2>10</h2><h3>master</h3><table><thead><tr><th>a</th></tr></thead><tbody>{}</tbody></table>",
        row_html("d", "c", "7")
    );
    let recs = parse_report(&html).unwrap();
    assert_eq!(recs.len(), 1);
    assert_eq!(recs[0].metric_text, "7");
}

#[test]
fn headings_inside_other_elements_are_ignored() {
    let html = format!(
        "<h2>10</h2><h3>master</h3><div><h2>99</h2><table>{}</table></div><table>{}</table>",
        row_html("x", "y", "1"),
        row_html("d", "c", "2")
    );
    let recs = parse_report(&html).unwrap();
    assert_eq!(recs.len(), 1);
    assert_eq!(fields(&recs[0]), ("10", "master", "d", "c", "2"));
}

#[test]
fn empty_document_has_no_records() {
    assert_eq!(parse_report("").unwrap().len(), 0);
}

#[test]
fn frameset_document_has_no_body() {
    let r = parse_report("<html><head></head><frameset><frame></frameset></html>");
    assert!(matches!(r, Err(ReportError::NoBody)));
}

#[test]
fn edges_without_body_are_an_error() {
    let mut edges = vec![Edge::Open(Node::Other), open_el("html"), open_el("div")];
    edges.extend(text("hi"));
    edges.extend(vec![Edge::Close, Edge::Close, Edge::Close]);
    assert!(matches!(records_from_edges(&edges), Err(ReportError::NoBody)));
}

#[test]
fn body_blocks_from_edges() {
    let mut e = vec![Edge::Open(Node::Other), open_el("body"), open_el("h2")];
    e.extend(text(" 10 "));
    e.push(Edge::Close);
    e.extend(text("loose text"));
    e.push(open_el("table"));
    e.push(open_el("tr"));
    for t in ["a", "b", "c"] {
        e.push(open_el("td"));
        e.extend(text(t));
        e.push(Edge::Close);
    }
    e.extend(vec![Edge::Close, Edge::Close, Edge::Close, Edge::Close]);
    let blocks = body_blocks(&e).unwrap();
    assert_eq!(blocks.len(), 2);
    assert_eq!(blocks[0].tag, "h2");
    assert_eq!(blocks[0].text, " 10 ");
    assert!(blocks[0].rows.is_empty());
    assert_eq!(blocks[1].tag, "table");
    assert_eq!(blocks[1].text, "abc");
    assert_eq!(blocks[1].rows, vec![vec!["a".to_string(), "b".to_string(), "c".to_string()]]);
}

fn block(tag: &str, text: &str, rows: Vec<Vec<&str>>) -> Block {
    Block {
        tag: tag.to_string(),
        text: text.to_string(),
        rows: rows.into_iter().map(|r| r.into_iter().map(|c| c.to_string()).collect()).collect(),
    }
}

#[test]
fn extract_from_blocks() {
    let blocks = vec![
        block("table", "", vec![vec!["a", "b", "c"]]),
        block("h2", " 10 Warehouses ", vec![]),
        block("p", "noise", vec![]),
        block("h3", "master", vec![]),
        block("table", "", vec![vec!["d1", "r1", "1"], vec!["only"], vec![" d2 ", "r2", " 2 "]]),
        block("h3", "   ", vec![]),
        block("table", "", vec![vec!["d3", "r3", "3"]]),
    ];
    let recs = extract_records(&blocks);
    let got: Vec<_> = recs.iter().map(fields).collect();
    assert_eq!(
        got,
        vec![("10 Warehouses", "master", "d1", "r1", "1"), ("10 Warehouses", "master", "d2", "r2", "2")]
    );
}
