//! From the text of a report page to its records, and the records as CSV.
use vstd::prelude::*;
use vstd::string::*;
use crate::dom::{body_blocks, body_blocks_of, edges_view, Edge, EdgeView, Node};
use crate::extract::{extract_records, records_of, results_view, PerfResult, PerfResultView};
use crate::text::{clean_label, clean_scale};

verus! {

/// The pre-order edges of the tree that the HTML document parser builds from
/// the text of a page.
pub uninterp spec fn document_edges(html: Seq<char>) -> Seq<EdgeView>;

/// Relies on scraper's `Html::parse_document` (the html5ever document parser)
/// and on ego_tree's `NodeRef::traverse` from the tree's root: the parsed
/// tree as its open and close edges in pre-order, each node reduced to its
/// element name or its text. The parse depends on the text alone.
#[verifier::external_body]
fn parse_edges(html: &str) -> (r: Vec<Edge>)
    ensures
        edges_view(r@) == document_edges(html@),
{
    let doc = scraper::Html::parse_document(html);
    doc.tree.root().traverse().map(|edge| match edge {
        ego_tree::iter::Edge::Open(n) => Edge::Open(match n.value() {
            scraper::Node::Element(el) => Node::Element(el.name().to_owned()),
            scraper::Node::Text(t) => Node::Text((**t).to_owned()),
            _ => Node::Other,
        }),
        ego_tree::iter::Edge::Close(_) => Edge::Close,
    }).collect()
}

/// Why a page yields no records.
#[derive(Debug, Clone, Copy, PartialEq, Eq)]
pub enum ReportError {
    /// The parsed document has no `body` element.
    NoBody,
}

/// The records of a parsed document, or the error when it has no `body`.
pub open spec fn report_of(e: Seq<EdgeView>) -> Result<Seq<PerfResultView>, ReportError> {
    match body_blocks_of(e) {
        Some(blocks) => Ok(records_of(blocks)),
        None => Err(ReportError::NoBody),
    }
}

/// The records of a document given as its pre-order edges.
pub fn records_from_edges(edges: &Vec<Edge>) -> (r: Result<Vec<PerfResult>, ReportError>)
    ensures
        match r {
            Ok(v) => report_of(edges_view(edges@)) == Ok::<_, ReportError>(results_view(v@)),
            Err(err) => report_of(edges_view(edges@)) == Err::<Seq<PerfResultView>, _>(err),
        },
{
    match body_blocks(edges) {
        Some(blocks) => Ok(extract_records(&blocks)),
        None => Err(ReportError::NoBody),
    }
}

/// The records of a report page given as HTML text.
pub fn parse_report(html: &str) -> (r: Result<Vec<PerfResult>, ReportError>)
    ensures
        match r {
            Ok(v) => report_of(document_edges(html@)) == Ok::<_, ReportError>(results_view(v@)),
            Err(err) => report_of(document_edges(html@)) == Err::<Seq<PerfResultView>, _>(err),
        },
{
    let edges = parse_edges(html);
    records_from_edges(&edges)
}

/// A record with its scale cut to its first word.
pub open spec fn with_clean_scale(r: PerfResultView) -> PerfResultView {
    PerfResultView {
        scale: clean_label(r.scale),
        branch: r.branch,
        commit_date: r.commit_date,
        commit: r.commit,
        metric_text: r.metric_text,
    }
}

/// The records with each scale cut to its first word ("100 Warehouses"
/// becomes "100"); every other field is kept.
pub fn clean_scales(records: &Vec<PerfResult>) -> (r: Vec<PerfResult>)
    ensures
        results_view(r@) == results_view(records@).map_values(|x: PerfResultView| with_clean_scale(x)),
{
    let mut out: Vec<PerfResult> = Vec::new();
    for i in 0..records.len()
        invariant
            results_view(out@) == results_view(records@.take(i as int)).map_values(
                |x: PerfResultView| with_clean_scale(x),
            ),
    {
        let x = &records[i];
        let y = PerfResult {
            scale: clean_scale(x.scale.as_str()),
            branch: x.branch.clone(),
            commit_date: x.commit_date.clone(),
            commit: x.commit.clone(),
            metric_text: x.metric_text.clone(),
        };
        let ghost before = out@;
        out.push(y);
        proof {
            assert(records@.take(i + 1) =~= records@.take(i as int).push(*x));
            assert(results_view(out@) =~= results_view(before).push(y@));
            assert(results_view(records@.take(i + 1)) =~= results_view(records@.take(i as int)).push(x@));
        }
    }
    assert(records@.take(records@.len() as int) =~= records@);
    out
}

/// The header line of the CSV form of the records.
pub open spec fn csv_header_line() -> Seq<char> {
    "branch,revision,scale,ctime,metric"@
}

/// Whether a CSV field must be quoted: it holds a comma, a double quote, a
/// line feed or a carriage return.
pub open spec fn needs_quotes(s: Seq<char>) -> bool {
    exists|i: int| 0 <= i < s.len() && is_special(#[trigger] s[i])
}

/// A character that forces quotes on a CSV field.
pub open spec fn is_special(c: char) -> bool {
    c == ',' || c == '"' || c == '\n' || c == '\r'
}

/// `s` with each double quote doubled.
pub open spec fn double_quotes(s: Seq<char>) -> Seq<char>
    decreases s.len(),
{
    if s.len() == 0 {
        Seq::empty()
    } else if s.last() == '"' {
        double_quotes(s.drop_last()) + seq!['"', '"']
    } else {
        double_quotes(s.drop_last()).push(s.last())
    }
}

/// A text as one CSV field: as it is, or, where it needs quotes, between
/// double quotes with its own double quotes doubled.
pub open spec fn csv_field(s: Seq<char>) -> Seq<char> {
    if needs_quotes(s) {
        seq!['"'] + double_quotes(s) + seq!['"']
    } else {
        s
    }
}

/// The CSV line of a record whose metric reads as `metric`: branch, commit
/// as revision, scale, commit date as ctime, then the metric, each as a
/// CSV field.
pub open spec fn csv_line(r: PerfResultView, metric: Seq<char>) -> Seq<char> {
    csv_field(r.branch) + ","@ + csv_field(r.commit) + ","@ + csv_field(r.scale) + ","@
        + csv_field(r.commit_date) + ","@ + csv_field(metric)
}

/// Appends `s` to `out` as one CSV field.
fn push_field(out: &mut String, s: &str)
    ensures
        final(out)@ == old(out)@ + csv_field(s@),
{
    let n = s.unicode_len();
    let mut quote = false;
    let mut k: usize = 0;
    while k < n
        invariant
            n == s@.len(),
            k <= n,
            quote == exists|i: int| 0 <= i < k && is_special(#[trigger] s@[i]),
        decreases n - k,
    {
        let c = s.get_char(k);
        if c == ',' || c == '"' || c == '\n' || c == '\r' {
            quote = true;
        }
        k = k + 1;
    }
    if !quote {
        out.append(s);
        return;
    }
    proof {
        reveal_strlit("\"");
        reveal_strlit("\"\"");
    }
    let ghost start = out@;
    out.append("\"");
    let mut k: usize = 0;
    while k < n
        invariant
            n == s@.len(),
            k <= n,
            out@ == start + seq!['"'] + double_quotes(s@.subrange(0, k as int)),
        decreases n - k,
    {
        let c = s.get_char(k);
        let ghost pre = s@.subrange(0, k as int);
        assert(s@.subrange(0, k + 1).drop_last() =~= pre);
        if c == '"' {
            out.append("\"\"");
            assert("\"\""@ =~= seq!['"', '"']) by {
                reveal_strlit("\"\"");
                assert("\"\""@.len() == 2);
                assert("\"\""@[0] == '"' && "\"\""@[1] == '"');
            }
        } else {
            let one = s.substring_char(k, k + 1);
            out.append(one);
            assert(one@ =~= seq![c]);
        }
        assert(out@ =~= start + seq!['"'] + double_quotes(s@.subrange(0, k + 1)));
        k = k + 1;
    }
    out.append("\"");
    assert(s@.subrange(0, n as int) =~= s@);
}

/// The CSV header: `branch,revision,scale,ctime,metric`.
pub fn csv_header() -> (r: String)
    ensures
        r@ == csv_header_line(),
{
    "branch,revision,scale,ctime,metric".to_owned()
}

/// The CSV line of a record, with `metric` as the text of its metric value;
/// the fields stand in the order of [`csv_header`], each quoted where it
/// holds a comma, a double quote or a line break.
pub fn csv_row(record: &PerfResult, metric: &str) -> (r: String)
    ensures
        r@ == csv_line(record@, metric@),
{
    let mut s = String::new();
    push_field(&mut s, record.branch.as_str());
    s.append(",");
    push_field(&mut s, record.commit.as_str());
    s.append(",");
    push_field(&mut s, record.scale.as_str());
    s.append(",");
    push_field(&mut s, record.commit_date.as_str());
    s.append(",");
    push_field(&mut s, metric);
    s
}

/// The CSV text of the first `n` records: the header line, then one line per
/// record, each ended by a newline.
pub open spec fn csv_text(rs: Seq<PerfResultView>, metrics: Seq<Seq<char>>, n: int) -> Seq<char>
    decreases n,
{
    if n <= 0 {
        csv_header_line() + "\n"@
    } else {
        csv_text(rs, metrics, n - 1) + csv_line(rs[n - 1], metrics[n - 1]) + "\n"@
    }
}

/// The CSV form of the records, where `metrics[i]` is the text of the metric
/// value of `records[i]`.
pub fn to_csv(records: &Vec<PerfResult>, metrics: &Vec<String>) -> (r: String)
    requires
        metrics@.len() == records@.len(),
    ensures
        r@ == csv_text(
            results_view(records@),
            metrics@.map_values(|m: String| m@),
            records@.len() as int,
        ),
{
    let ghost rv = results_view(records@);
    let ghost mv = metrics@.map_values(|m: String| m@);
    let mut out = csv_header();
    out.append("\n");
    for i in 0..records.len()
        invariant
            metrics@.len() == records@.len(),
            rv == results_view(records@),
            mv == metrics@.map_values(|m: String| m@),
            out@ == csv_text(rv, mv, i as int),
    {
        let line = csv_row(&records[i], metrics[i].as_str());
        assert(rv[i as int] == records@[i as int]@ && mv[i as int] == metrics@[i as int]@);
        out.append(line.as_str());
        out.append("\n");
    }
    out
}

} // verus!
