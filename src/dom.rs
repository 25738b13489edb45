//! A parsed HTML document as the sequence of open and close edges of a
//! pre-order walk, and what the extractor reads from it: the element children
//! of `body`, each with its text content and the cells of its rows.
use vstd::prelude::*;
use vstd::string::*;
use crate::extract::{Block, BlockView, blocks_view, row_view};

verus! {

/// A node of the document tree, reduced to what the extractor reads.
pub enum Node {
    /// An element, with its local tag name.
    Element(String),
    /// A text node.
    Text(String),
    /// Any other node: the document root, a doctype, a comment, ...
    Other,
}

/// One step of a pre-order walk: a node is opened, or the node opened last
/// and not yet closed is closed.
pub enum Edge {
    Open(Node),
    Close,
}

pub enum NodeView {
    Element(Seq<char>),
    Text(Seq<char>),
    Other,
}

pub enum EdgeView {
    Open(NodeView),
    Close,
}

impl View for Node {
    type V = NodeView;

    open spec fn view(&self) -> NodeView {
        match self {
            Node::Element(n) => NodeView::Element(n@),
            Node::Text(t) => NodeView::Text(t@),
            Node::Other => NodeView::Other,
        }
    }
}

impl View for Edge {
    type V = EdgeView;

    open spec fn view(&self) -> EdgeView {
        match self {
            Edge::Open(n) => EdgeView::Open(n@),
            Edge::Close => EdgeView::Close,
        }
    }
}

pub open spec fn edges_view(v: Seq<Edge>) -> Seq<EdgeView> {
    v.map_values(|x: Edge| x@)
}

/// The edge that opens an element named `name`.
pub open spec fn opens(name: Seq<char>) -> EdgeView {
    EdgeView::Open(NodeView::Element(name))
}

/// Scanning from `k` with `level` nodes open, the index of the edge that
/// closes the outermost of them (the length of `e` if none does).
pub open spec fn match_close(e: Seq<EdgeView>, k: int, level: nat) -> int
    decreases e.len() - k,
{
    if k < 0 || k >= e.len() {
        e.len() as int
    } else if e[k] is Close {
        if level <= 1 {
            k
        } else {
            match_close(e, k + 1, (level - 1) as nat)
        }
    } else {
        match_close(e, k + 1, level + 1)
    }
}

/// The index of the edge that closes the node opened at `i`; the node's
/// descendants are the edges strictly between the two.
pub open spec fn span_end(e: Seq<EdgeView>, i: int) -> int {
    match_close(e, i + 1, 1)
}

proof fn lemma_match_close_bounds(e: Seq<EdgeView>, k: int, level: nat)
    requires
        0 <= k <= e.len(),
    ensures
        k <= match_close(e, k, level) <= e.len(),
    decreases e.len() - k,
{
    if k < e.len() {
        if e[k] is Close {
            if level > 1 {
                lemma_match_close_bounds(e, k + 1, (level - 1) as nat);
            }
        } else {
            lemma_match_close_bounds(e, k + 1, level + 1);
        }
    }
}

pub proof fn lemma_span_end_bounds(e: Seq<EdgeView>, i: int)
    requires
        0 <= i < e.len(),
    ensures
        i < span_end(e, i) <= e.len(),
{
    lemma_match_close_bounds(e, i + 1, 1);
}

/// The text of the text nodes opened in `[lo, hi)`, in order.
pub open spec fn text_in(e: Seq<EdgeView>, lo: int, hi: int) -> Seq<char>
    decreases hi - lo,
{
    if hi <= lo {
        Seq::empty()
    } else {
        text_in(e, lo, hi - 1) + match e[hi - 1] {
            EdgeView::Open(NodeView::Text(t)) => t,
            _ => Seq::empty(),
        }
    }
}

/// The text content of the node opened at `k`.
pub open spec fn text_of(e: Seq<EdgeView>, k: int) -> Seq<char> {
    text_in(e, k + 1, span_end(e, k))
}

/// The text contents of the elements named `name` opened in `[lo, hi)`.
pub open spec fn texts_of_named(e: Seq<EdgeView>, name: Seq<char>, lo: int, hi: int) -> Seq<Seq<char>>
    decreases hi - lo,
{
    if hi <= lo {
        Seq::empty()
    } else if e[hi - 1] == opens(name) {
        texts_of_named(e, name, lo, hi - 1).push(text_of(e, hi - 1))
    } else {
        texts_of_named(e, name, lo, hi - 1)
    }
}

/// The rows opened in `[lo, hi)`: for each `tr` element, the text contents
/// of the `td` elements inside it.
pub open spec fn rows_in(e: Seq<EdgeView>, lo: int, hi: int) -> Seq<Seq<Seq<char>>>
    decreases hi - lo,
{
    if hi <= lo {
        Seq::empty()
    } else if e[hi - 1] == opens("tr"@) {
        rows_in(e, lo, hi - 1).push(texts_of_named(e, "td"@, hi, span_end(e, hi - 1)))
    } else {
        rows_in(e, lo, hi - 1)
    }
}

/// The block of the element opened at `k`.
pub open spec fn block_at(e: Seq<EdgeView>, k: int, name: Seq<char>) -> BlockView {
    BlockView { tag: name, text: text_of(e, k), rows: rows_in(e, k + 1, span_end(e, k)) }
}

/// The blocks of the element nodes among the siblings that start at `k`,
/// up to `stop` or to the first close edge.
pub open spec fn blocks_from(e: Seq<EdgeView>, k: int, stop: int) -> Seq<BlockView>
    decreases stop - k,
{
    if k < 0 || k >= stop || k >= e.len() {
        Seq::empty()
    } else {
        match e[k] {
            EdgeView::Close => Seq::empty(),
            EdgeView::Open(node) => {
                let next = span_end(e, k) + 1;
                let rest = if k < next <= stop {
                    blocks_from(e, next, stop)
                } else {
                    Seq::empty()
                };
                match node {
                    NodeView::Element(name) => seq![block_at(e, k, name)] + rest,
                    _ => rest,
                }
            },
        }
    }
}

/// The index of the first `body` element opened at or after `k`.
pub open spec fn first_body(e: Seq<EdgeView>, k: int) -> Option<int>
    decreases e.len() - k,
{
    if k < 0 || k >= e.len() {
        None
    } else if e[k] == opens("body"@) {
        Some(k)
    } else {
        first_body(e, k + 1)
    }
}

/// The blocks of the element children of the document's first `body`
/// element, or none when the document has no `body`.
pub open spec fn body_blocks_of(e: Seq<EdgeView>) -> Option<Seq<BlockView>> {
    match first_body(e, 0) {
        Some(b) => Some(blocks_from(e, b + 1, span_end(e, b))),
        None => None,
    }
}

fn opens_element(x: &Edge, name: &str) -> (r: bool)
    ensures
        r == (x@ == opens(name@)),
{
    match x {
        Edge::Open(Node::Element(n)) => {
            let m = name.to_owned();
            *n == m
        },
        _ => false,
    }
}

fn find_span_end(e: &Vec<Edge>, i: usize) -> (r: usize)
    requires
        i < e@.len(),
    ensures
        r == span_end(edges_view(e@), i as int),
        i < r <= e@.len(),
{
    let ghost ev = edges_view(e@);
    proof {
        lemma_span_end_bounds(ev, i as int);
    }
    let n = e.len();
    let mut k = i + 1;
    let mut level: usize = 1;
    while k < e.len()
        invariant
            ev == edges_view(e@),
            i < k <= e@.len(),
            1 <= level <= k - i,
            match_close(ev, k as int, level as nat) == span_end(ev, i as int),
        decreases e@.len() - k,
    {
        assert(ev[k as int] == e@[k as int]@);
        match &e[k] {
            Edge::Close => {
                if level == 1 {
                    return k;
                }
                level = level - 1;
            },
            Edge::Open(_) => {
                level = level + 1;
            },
        }
        k = k + 1;
    }
    k
}

fn text_between(e: &Vec<Edge>, lo: usize, hi: usize) -> (r: String)
    requires
        lo <= hi <= e@.len(),
    ensures
        r@ == text_in(edges_view(e@), lo as int, hi as int),
{
    let ghost ev = edges_view(e@);
    let mut out = String::new();
    let mut k = lo;
    while k < hi
        invariant
            ev == edges_view(e@),
            lo <= k <= hi <= e@.len(),
            out@ == text_in(ev, lo as int, k as int),
        decreases hi - k,
    {
        assert(ev[k as int] == e@[k as int]@);
        if let Edge::Open(Node::Text(t)) = &e[k] {
            out.append(t.as_str());
        } else {
            assert(out@ + Seq::<char>::empty() =~= out@);
        }
        k = k + 1;
    }
    out
}

fn element_text(e: &Vec<Edge>, k: usize) -> (r: String)
    requires
        k < e@.len(),
    ensures
        r@ == text_of(edges_view(e@), k as int),
{
    let end = find_span_end(e, k);
    text_between(e, k + 1, end)
}

fn named_texts(e: &Vec<Edge>, name: &str, lo: usize, hi: usize) -> (r: Vec<String>)
    requires
        lo <= hi <= e@.len(),
    ensures
        row_view(r) == texts_of_named(edges_view(e@), name@, lo as int, hi as int),
{
    let ghost ev = edges_view(e@);
    let mut out: Vec<String> = Vec::new();
    let mut k = lo;
    while k < hi
        invariant
            ev == edges_view(e@),
            lo <= k <= hi <= e@.len(),
            row_view(out) == texts_of_named(ev, name@, lo as int, k as int),
        decreases hi - k,
    {
        assert(ev[k as int] == e@[k as int]@);
        if opens_element(&e[k], name) {
            let t = element_text(e, k);
            let ghost before = out@;
            out.push(t);
            assert(row_view(out) =~= before.map_values(|c: String| c@).push(t@));
        }
        k = k + 1;
    }
    out
}

fn rows_between(e: &Vec<Edge>, lo: usize, hi: usize) -> (r: Vec<Vec<String>>)
    requires
        lo <= hi <= e@.len(),
    ensures
        r@.map_values(|x: Vec<String>| row_view(x)) == rows_in(edges_view(e@), lo as int, hi as int),
{
    let ghost ev = edges_view(e@);
    let mut out: Vec<Vec<String>> = Vec::new();
    let mut k = lo;
    while k < hi
        invariant
            ev == edges_view(e@),
            lo <= k <= hi <= e@.len(),
            out@.map_values(|x: Vec<String>| row_view(x)) == rows_in(ev, lo as int, k as int),
        decreases hi - k,
    {
        assert(ev[k as int] == e@[k as int]@);
        if opens_element(&e[k], "tr") {
            let end = find_span_end(e, k);
            let cells = named_texts(e, "td", k + 1, end);
            let ghost before = out@;
            out.push(cells);
            assert(out@.map_values(|x: Vec<String>| row_view(x)) =~= before.map_values(
                |x: Vec<String>| row_view(x),
            ).push(row_view(cells)));
        }
        k = k + 1;
    }
    out
}

fn find_body(e: &Vec<Edge>) -> (r: Option<usize>)
    ensures
        match r {
            Some(b) => first_body(edges_view(e@), 0) == Some(b as int) && b < e@.len(),
            None => first_body(edges_view(e@), 0) is None,
        },
{
    let ghost ev = edges_view(e@);
    let mut b: usize = 0;
    while b < e.len()
        invariant
            ev == edges_view(e@),
            b <= e@.len(),
            first_body(ev, 0) == first_body(ev, b as int),
        decreases e@.len() - b,
    {
        assert(ev[b as int] == e@[b as int]@);
        if opens_element(&e[b], "body") {
            return Some(b);
        }
        b = b + 1;
    }
    None
}

/// The element children of the document's first `body` element, each as a
/// [`Block`], in document order; `None` when the document has no `body`.
pub fn body_blocks(e: &Vec<Edge>) -> (r: Option<Vec<Block>>)
    ensures
        match r {
            Some(v) => body_blocks_of(edges_view(e@)) == Some(blocks_view(v@)),
            None => body_blocks_of(edges_view(e@)) is None,
        },
{
    let ghost ev = edges_view(e@);
    let b = match find_body(e) {
        Some(b) => b,
        None => {
            return None;
        },
    };
    let stop = find_span_end(e, b);
    let mut out: Vec<Block> = Vec::new();
    let mut k = b + 1;
    while k < stop
        invariant
            ev == edges_view(e@),
            b < k <= stop + 1,
            stop <= e@.len(),
            blocks_view(out@) + blocks_from(ev, k as int, stop as int) == blocks_from(ev, b + 1, stop as int),
        decreases stop - k,
    {
        assert(ev[k as int] == e@[k as int]@);
        match &e[k] {
            Edge::Close => {
                k = stop;
            },
            Edge::Open(node) => {
                let end = find_span_end(e, k);
                if let Node::Element(name) = node {
                    let blk = Block {
                        tag: name.clone(),
                        text: element_text(e, k),
                        rows: rows_between(e, k + 1, end),
                    };
                    let ghost before = out@;
                    out.push(blk);
                    assert(blocks_view(out@) =~= blocks_view(before).push(blk@));
                }
                if end >= stop {
                    k = stop;
                } else {
                    k = end + 1;
                }
            },
        }
    }
    Some(out)
}

} // verus!
