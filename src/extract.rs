//! The heading-tracking extractor: a single pass over the element children of
//! the document body that attaches the current scale and branch to each
//! well-formed table row.
use vstd::prelude::*;
use crate::text::{trim, trimmed};

verus! {

/// One element child of the document body, as the extractor reads it.
pub struct Block {
    /// The element's tag name (`h2`, `h3`, `table`, ...).
    pub tag: String,
    /// The element's text content: all of its descendant text, in order.
    pub text: String,
    /// For each row element nested in it, in document order, the text
    /// content of each cell element of that row.
    pub rows: Vec<Vec<String>>,
}

/// The mathematical content of a [`Block`].
pub struct BlockView {
    pub tag: Seq<char>,
    pub text: Seq<char>,
    pub rows: Seq<Seq<Seq<char>>>,
}

pub open spec fn row_view(r: Vec<String>) -> Seq<Seq<char>> {
    r@.map_values(|c: String| c@)
}

impl View for Block {
    type V = BlockView;

    open spec fn view(&self) -> BlockView {
        BlockView {
            tag: self.tag@,
            text: self.text@,
            rows: self.rows@.map_values(|r: Vec<String>| row_view(r)),
        }
    }
}

pub open spec fn blocks_view(v: Seq<Block>) -> Seq<BlockView> {
    v.map_values(|b: Block| b@)
}

/// One measurement taken from a table row.
pub struct PerfResult {
    /// The scale heading in force where the row stands.
    pub scale: String,
    /// The branch heading in force where the row stands.
    pub branch: String,
    /// The first cell's trimmed text.
    pub commit_date: String,
    /// The second cell's trimmed text.
    pub commit: String,
    /// The third cell's trimmed text: the metric, still to be read as a
    /// floating-point number (a text that is no number stands for zero).
    pub metric_text: String,
}

/// The mathematical content of a [`PerfResult`].
pub struct PerfResultView {
    pub scale: Seq<char>,
    pub branch: Seq<char>,
    pub commit_date: Seq<char>,
    pub commit: Seq<char>,
    pub metric_text: Seq<char>,
}

impl View for PerfResult {
    type V = PerfResultView;

    open spec fn view(&self) -> PerfResultView {
        PerfResultView {
            scale: self.scale@,
            branch: self.branch@,
            commit_date: self.commit_date@,
            commit: self.commit@,
            metric_text: self.metric_text@,
        }
    }
}

pub open spec fn results_view(v: Seq<PerfResult>) -> Seq<PerfResultView> {
    v.map_values(|p: PerfResult| p@)
}

/// The trimmed text of the last block tagged `tag` among the first `n`
/// blocks, or the empty text when there is none.
pub open spec fn heading_before(blocks: Seq<BlockView>, tag: Seq<char>, n: int) -> Seq<char>
    decreases n,
{
    if n <= 0 {
        Seq::empty()
    } else if blocks[n - 1].tag == tag {
        trimmed(blocks[n - 1].text)
    } else {
        heading_before(blocks, tag, n - 1)
    }
}

/// The scale in force after the first `n` blocks.
pub open spec fn scale_before(blocks: Seq<BlockView>, n: int) -> Seq<char> {
    heading_before(blocks, "h2"@, n)
}

/// The branch in force after the first `n` blocks.
pub open spec fn branch_before(blocks: Seq<BlockView>, n: int) -> Seq<char> {
    heading_before(blocks, "h3"@, n)
}

/// The record of a row of three cells.
pub open spec fn row_record(scale: Seq<char>, branch: Seq<char>, row: Seq<Seq<char>>) -> PerfResultView {
    PerfResultView {
        scale,
        branch,
        commit_date: trimmed(row[0]),
        commit: trimmed(row[1]),
        metric_text: trimmed(row[2]),
    }
}

/// The records of the first `n` rows: one for each row of exactly three cells.
pub open spec fn rows_records(
    rows: Seq<Seq<Seq<char>>>,
    scale: Seq<char>,
    branch: Seq<char>,
    n: int,
) -> Seq<PerfResultView>
    decreases n,
{
    if n <= 0 {
        Seq::empty()
    } else if rows[n - 1].len() == 3 {
        rows_records(rows, scale, branch, n - 1).push(row_record(scale, branch, rows[n - 1]))
    } else {
        rows_records(rows, scale, branch, n - 1)
    }
}

/// The records of a table: none while the scale or the branch is empty.
pub open spec fn table_records(rows: Seq<Seq<Seq<char>>>, scale: Seq<char>, branch: Seq<char>) -> Seq<PerfResultView> {
    if scale.len() == 0 || branch.len() == 0 {
        Seq::empty()
    } else {
        rows_records(rows, scale, branch, rows.len() as int)
    }
}

/// What the block at index `i` contributes.
pub open spec fn block_records_at(blocks: Seq<BlockView>, i: int) -> Seq<PerfResultView> {
    if blocks[i].tag == "table"@ {
        table_records(blocks[i].rows, scale_before(blocks, i), branch_before(blocks, i))
    } else {
        Seq::empty()
    }
}

/// The records of the first `n` blocks, in order.
pub open spec fn records_upto(blocks: Seq<BlockView>, n: int) -> Seq<PerfResultView>
    decreases n,
{
    if n <= 0 {
        Seq::empty()
    } else {
        records_upto(blocks, n - 1) + block_records_at(blocks, n - 1)
    }
}

/// The records of a run of blocks.
pub open spec fn records_of(blocks: Seq<BlockView>) -> Seq<PerfResultView> {
    records_upto(blocks, blocks.len() as int)
}

proof fn lemma_tags_differ()
    ensures
        "h2"@ != "h3"@,
        "h2"@ != "table"@,
        "h3"@ != "table"@,
{
    reveal_strlit("h2");
    reveal_strlit("h3");
    reveal_strlit("table");
    assert("h2"@[1] != "h3"@[1]);
    assert("h2"@.len() != "table"@.len());
    assert("h3"@.len() != "table"@.len());
}

fn is_tag(tag: &String, name: &str) -> (r: bool)
    ensures
        r == (tag@ == name@),
{
    let n = name.to_owned();
    *tag == n
}

/// Appends to `out` the records of the rows of one table.
fn push_rows(out: &mut Vec<PerfResult>, rows: &Vec<Vec<String>>, scale: &String, branch: &String)
    ensures
        results_view(final(out)@) == results_view(old(out)@) + rows_records(
            rows@.map_values(|r: Vec<String>| row_view(r)),
            scale@,
            branch@,
            rows@.len() as int,
        ),
{
    let ghost rv = rows@.map_values(|r: Vec<String>| row_view(r));
    let ghost start = results_view(out@);
    for i in 0..rows.len()
        invariant
            rv == rows@.map_values(|r: Vec<String>| row_view(r)),
            results_view(out@) == start + rows_records(rv, scale@, branch@, i as int),
    {
        let row = &rows[i];
        assert(rv[i as int] == row_view(*row));
        if row.len() == 3 {
            let rec = PerfResult {
                scale: scale.clone(),
                branch: branch.clone(),
                commit_date: trim(row[0].as_str()),
                commit: trim(row[1].as_str()),
                metric_text: trim(row[2].as_str()),
            };
            let ghost before = out@;
            out.push(rec);
            proof {
                assert(rec@ == row_record(scale@, branch@, rv[i as int]));
                assert(results_view(out@) =~= results_view(before).push(rec@));
            }
        }
        assert(rows_records(rv, scale@, branch@, i + 1) == rows_records(rv, scale@, branch@, i as int)
            + (if rv[i as int].len() == 3 { seq![row_record(scale@, branch@, rv[i as int])] } else { Seq::empty() }));
    }
    assert(rows@.len() == rv.len());
}

/// The records of a run of body children: each table that follows both a
/// scale heading and a branch heading yields one record for each of its rows
/// of exactly three cells, with the trimmed text of the last `h2` and the last
/// `h3` before it as scale and branch.
pub fn extract_records(blocks: &Vec<Block>) -> (r: Vec<PerfResult>)
    ensures
        results_view(r@) == records_of(blocks_view(blocks@)),
{
    let ghost bv = blocks_view(blocks@);
    let mut out: Vec<PerfResult> = Vec::new();
    let mut scale = String::new();
    let mut branch = String::new();
    for i in 0..blocks.len()
        invariant
            bv == blocks_view(blocks@),
            scale@ == scale_before(bv, i as int),
            branch@ == branch_before(bv, i as int),
            results_view(out@) == records_upto(bv, i as int),
    {
        let b = &blocks[i];
        assert(bv[i as int] == b@);
        let ghost before = results_view(out@);
        if is_tag(&b.tag, "h2") {
            scale = trim(b.text.as_str());
        } else if is_tag(&b.tag, "h3") {
            branch = trim(b.text.as_str());
        } else if is_tag(&b.tag, "table") {
            if !scale.as_str().is_empty() && !branch.as_str().is_empty() {
                push_rows(&mut out, &b.rows, &scale, &branch);
            }
        }
        proof {
            lemma_tags_differ();
            assert(results_view(out@) =~= before + block_records_at(bv, i as int));
        }
    }
    out
}


/// A table that comes before every scale heading, or before every branch
/// heading, adds no record.
pub proof fn lemma_table_without_headings(blocks: Seq<BlockView>, i: int)
    requires
        0 <= i < blocks.len(),
        blocks[i].tag == "table"@,
        (forall|j: int| 0 <= j < i ==> blocks[j].tag != "h2"@) || (forall|j: int|
            0 <= j < i ==> blocks[j].tag != "h3"@),
    ensures
        records_upto(blocks, i + 1) == records_upto(blocks, i),
{
    lemma_no_heading_empty(blocks, "h2"@, i);
    lemma_no_heading_empty(blocks, "h3"@, i);
    assert(records_upto(blocks, i) + Seq::<PerfResultView>::empty() =~= records_upto(blocks, i));
}

proof fn lemma_no_heading_empty(blocks: Seq<BlockView>, tag: Seq<char>, n: int)
    requires
        0 <= n <= blocks.len(),
    ensures
        (forall|j: int| 0 <= j < n ==> blocks[j].tag != tag) ==> heading_before(blocks, tag, n).len()
            == 0,
    decreases n,
{
    if n > 0 {
        lemma_no_heading_empty(blocks, tag, n - 1);
    }
}

/// With a scale and a branch in force, the records of a table are its rows
/// of exactly three cells, each made a record, in row order: any other row
/// is passed over and the rows around it still count.
pub proof fn lemma_table_rows(rows: Seq<Seq<Seq<char>>>, scale: Seq<char>, branch: Seq<char>)
    requires
        scale.len() > 0,
        branch.len() > 0,
    ensures
        table_records(rows, scale, branch) == rows.filter(|r: Seq<Seq<char>>| r.len() == 3).map_values(
            |r: Seq<Seq<char>>| row_record(scale, branch, r),
        ),
{
    lemma_rows_prefix(rows, scale, branch, rows.len() as int);
    assert(rows.take(rows.len() as int) =~= rows);
}

proof fn lemma_rows_prefix(rows: Seq<Seq<Seq<char>>>, scale: Seq<char>, branch: Seq<char>, n: int)
    requires
        0 <= n <= rows.len(),
    ensures
        rows_records(rows, scale, branch, n) == rows.take(n).filter(|r: Seq<Seq<char>>| r.len() == 3).map_values(
            |r: Seq<Seq<char>>| row_record(scale, branch, r),
        ),
    decreases n,
{
    let pred = |r: Seq<Seq<char>>| r.len() == 3;
    let f = |r: Seq<Seq<char>>| row_record(scale, branch, r);
    reveal(Seq::filter);
    if n == 0 {
        assert(rows.take(0).filter(pred) =~= Seq::<Seq<Seq<char>>>::empty());
        assert(rows.take(0).filter(pred).map_values(f) =~= Seq::<PerfResultView>::empty());
    } else {
        lemma_rows_prefix(rows, scale, branch, n - 1);
        let t = rows.take(n);
        assert(t.drop_last() =~= rows.take(n - 1));
        assert(t.last() == rows[n - 1]);
        let fl = rows.take(n - 1).filter(pred);
        if pred(rows[n - 1]) {
            assert(t.filter(pred) == fl.push(rows[n - 1]));
            assert(fl.push(rows[n - 1]).map_values(f) =~= fl.map_values(f).push(f(rows[n - 1])));
        } else {
            assert(t.filter(pred) == fl);
        }
    }
}

/// Records keep document order: the records of the first `n` body children
/// come first, unchanged, among the records of all of them.
pub proof fn lemma_records_in_order(blocks: Seq<BlockView>, n: int)
    requires
        0 <= n <= blocks.len(),
    ensures
        records_of(blocks).subrange(0, records_upto(blocks, n).len() as int) == records_upto(blocks, n),
{
    lemma_prefix_of(blocks, n, blocks.len() as int);
}

proof fn lemma_prefix_of(blocks: Seq<BlockView>, n: int, m: int)
    requires
        0 <= n <= m <= blocks.len(),
    ensures
        records_upto(blocks, n).len() <= records_upto(blocks, m).len(),
        records_upto(blocks, m).subrange(0, records_upto(blocks, n).len() as int) == records_upto(blocks, n),
    decreases m - n,
{
    if n == m {
        assert(records_upto(blocks, m).subrange(0, records_upto(blocks, m).len() as int) =~= records_upto(blocks, m));
    } else {
        lemma_prefix_of(blocks, n, m - 1);
        let a = records_upto(blocks, m - 1);
        let whole = records_upto(blocks, m);
        assert(whole == a + block_records_at(blocks, m - 1));
        assert(whole.subrange(0, records_upto(blocks, n).len() as int) =~= a.subrange(0, records_upto(blocks, n).len() as int));
    }
}

} // verus!
