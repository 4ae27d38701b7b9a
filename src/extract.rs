//! Locating tables by caption, reading a labelled value, and cutting a
//! buyers table into rows.
use vstd::prelude::*;
use crate::document::{below, chain_above, parent_ok, texts_of, Document, Node, same_chars};
use crate::model::{opt_view, RawRow};
use crate::text::{
    collapse, fields_of_token, is_blank, lemma_kept_not_blank, normalize, normalize_text,
    split_fields, string_of, token_fields, views,
};

verus! {

pub open spec fn tag_body() -> Seq<char> {
    seq!['b', 'o', 'd', 'y']
}

pub open spec fn tag_table() -> Seq<char> {
    seq!['t', 'a', 'b', 'l', 'e']
}

pub open spec fn tag_tbody() -> Seq<char> {
    seq!['t', 'b', 'o', 'd', 'y']
}

pub open spec fn tag_tr() -> Seq<char> {
    seq!['t', 'r']
}

pub open spec fn tag_td() -> Seq<char> {
    seq!['t', 'd']
}

/// The ancestors a data table needs: `body table tbody tr td`, outermost first.
pub open spec fn table_path() -> Seq<Seq<char>> {
    seq![tag_body(), tag_table(), tag_tbody(), tag_tr(), tag_td()]
}

/// The ancestors a cell needs: `tbody tr`, outermost first.
pub open spec fn cell_path() -> Seq<Seq<char>> {
    seq![tag_tbody(), tag_tr()]
}

/// Node `i` is a `table` element nested in `body table tbody tr td`.
pub open spec fn is_data_table(nodes: Seq<Node>, i: int) -> bool {
    &&& !nodes[i].is_text
    &&& nodes[i].tag@ == tag_table()
    &&& chain_above(nodes, nodes[i].parent, table_path())
}

/// The first non-blank text under node `i`, normalized, is `caption`.
pub open spec fn has_caption(nodes: Seq<Node>, i: int, caption: Seq<char>) -> bool {
    texts_of(nodes, i).len() > 0 && normalize(texts_of(nodes, i)[0]) == caption
}

pub open spec fn captioned(nodes: Seq<Node>, i: int, caption: Seq<char>) -> bool {
    is_data_table(nodes, i) && has_caption(nodes, i, caption)
}

/// The first data table, in document order, that `caption` heads.
pub open spec fn table_with_caption(nodes: Seq<Node>, caption: Seq<char>) -> Option<usize> {
    if exists|i: int| 0 <= i < nodes.len() && #[trigger] captioned(nodes, i, caption) {
        let i = choose|i: int|
            0 <= i < nodes.len() && #[trigger] captioned(nodes, i, caption) && forall|j: int|
                0 <= j < i ==> !#[trigger] captioned(nodes, j, caption);
        Some(i as usize)
    } else {
        None
    }
}

/// The text after the first occurrence of `label` in `ts`; `None` when
/// `label` does not occur or occurs only last.
pub open spec fn value_after(ts: Seq<Seq<char>>, label: Seq<char>) -> Option<Seq<char>>
    decreases ts.len(),
{
    if ts.len() < 2 {
        None
    } else if ts[0] == label {
        Some(ts[1])
    } else {
        value_after(ts.subrange(1, ts.len() as int), label)
    }
}

/// Node `j` is a `td` element under table `t`, nested in `tbody tr`.
pub open spec fn is_cell(nodes: Seq<Node>, t: int, j: int) -> bool {
    &&& !nodes[j].is_text
    &&& nodes[j].tag@ == tag_td()
    &&& chain_above(nodes, nodes[j].parent, cell_path())
    &&& below(nodes, j, t)
}

/// The non-blank texts of the cells of table `t` among the first `n` nodes,
/// cell after cell.
pub open spec fn cell_texts(nodes: Seq<Node>, t: int, n: int) -> Seq<Seq<char>>
    decreases n,
{
    if n <= 0 {
        Seq::empty()
    } else if is_cell(nodes, t, n - 1) {
        cell_texts(nodes, t, n - 1) + texts_of(nodes, n - 1)
    } else {
        cell_texts(nodes, t, n - 1)
    }
}

/// The normalized texts of the cells of table `t`, in document order.
pub open spec fn cell_tokens(nodes: Seq<Node>, t: int) -> Seq<Seq<char>> {
    cell_texts(nodes, t, nodes.len() as int).map_values(|s: Seq<char>| normalize(s))
}

/// The fields that a cell's texts yield, in order.
pub open spec fn row_fields(texts: Seq<Seq<char>>) -> Seq<Seq<char>>
    decreases texts.len(),
{
    if texts.len() == 0 {
        Seq::empty()
    } else {
        row_fields(texts.drop_last()) + token_fields(texts.last())
    }
}

/// The first five fields, with empty fields added after the last when there
/// are fewer.
pub open spec fn pad_five(f: Seq<Seq<char>>) -> Seq<Seq<char>> {
    Seq::new(5, |k: int| if k < f.len() { f[k] } else { Seq::empty() })
}

/// The rows of table `t` among the first `n` nodes: one for each cell that
/// yields a field.
pub open spec fn rows_upto(nodes: Seq<Node>, t: int, n: int) -> Seq<Seq<Seq<char>>>
    decreases n,
{
    if n <= 0 {
        Seq::empty()
    } else {
        let rest = rows_upto(nodes, t, n - 1);
        let f = row_fields(texts_of(nodes, n - 1));
        if is_cell(nodes, t, n - 1) && f.len() > 0 {
            rest.push(pad_five(f))
        } else {
            rest
        }
    }
}

/// The rows of table `t`, in document order.
pub open spec fn table_rows(nodes: Seq<Node>, t: int) -> Seq<Seq<Seq<char>>> {
    rows_upto(nodes, t, nodes.len() as int)
}

proof fn lemma_row_fields_not_blank(texts: Seq<Seq<char>>)
    ensures
        forall|k: int| 0 <= k < row_fields(texts).len() ==> !is_blank(#[trigger] row_fields(texts)[k]),
    decreases texts.len(),
{
    if texts.len() > 0 {
        let prev = row_fields(texts.drop_last());
        let tf = token_fields(texts.last());
        lemma_row_fields_not_blank(texts.drop_last());
        lemma_kept_not_blank(split_fields(collapse(texts.last())));
        assert forall|k: int| 0 <= k < row_fields(texts).len() implies !is_blank(#[trigger] row_fields(texts)[k]) by {
            if k < prev.len() {
                assert(row_fields(texts)[k] == prev[k]);
            } else {
                assert(row_fields(texts)[k] == tf[k - prev.len()]);
            }
        }
    }
}

/// Every row of a table has five fields, and its first field is not blank:
/// cells that yield no field make no row.
pub proof fn lemma_rows_not_blank(nodes: Seq<Node>, t: int, n: int)
    ensures
        forall|k: int| 0 <= k < rows_upto(nodes, t, n).len() ==> (#[trigger] rows_upto(nodes, t, n)[k]).len() == 5
            && !is_blank(rows_upto(nodes, t, n)[k][0]),
    decreases n,
{
    if n > 0 {
        let prev = rows_upto(nodes, t, n - 1);
        let f = row_fields(texts_of(nodes, n - 1));
        lemma_rows_not_blank(nodes, t, n - 1);
        lemma_row_fields_not_blank(texts_of(nodes, n - 1));
        assert forall|k: int| 0 <= k < rows_upto(nodes, t, n).len() implies (
        #[trigger] rows_upto(nodes, t, n)[k]).len() == 5 && !is_blank(rows_upto(nodes, t, n)[k][0]) by {
            if k < prev.len() {
                assert(rows_upto(nodes, t, n)[k] == prev[k]);
            } else {
                assert(rows_upto(nodes, t, n)[k] == pad_five(f));
                assert(pad_five(f)[0] == f[0]);
            }
        }
    }
}

fn table_path_exec() -> (r: Vec<Vec<char>>)
    ensures
        views(r@) == table_path(),
{
    let r = vec![
        vec!['b', 'o', 'd', 'y'],
        vec!['t', 'a', 'b', 'l', 'e'],
        vec!['t', 'b', 'o', 'd', 'y'],
        vec!['t', 'r'],
        vec!['t', 'd'],
    ];
    assert(views(r@) == table_path());
    r
}

fn cell_path_exec() -> (r: Vec<Vec<char>>)
    ensures
        views(r@) == cell_path(),
{
    let r = vec![vec!['t', 'b', 'o', 'd', 'y'], vec!['t', 'r']];
    assert(views(r@) == cell_path());
    r
}

/// Whether node `i` is a data table.
fn data_table_at(doc: &Document, i: usize, path: &Vec<Vec<char>>) -> (r: bool)
    requires
        doc.wf(),
        i < doc.nodes@.len(),
        views(path@) == table_path(),
    ensures
        r == is_data_table(doc.nodes@, i as int),
{
    let table = vec!['t', 'a', 'b', 'l', 'e'];
    assert(table@ == tag_table());
    assert(parent_ok(doc.nodes@, i as int));
    let node = &doc.nodes[i];
    !node.is_text && same_chars(&node.tag, &table) && doc.chain_matches(node.parent, path)
}

/// Whether node `j` is a cell of table `t`.
fn cell_at(doc: &Document, t: usize, j: usize, path: &Vec<Vec<char>>) -> (r: bool)
    requires
        doc.wf(),
        j < doc.nodes@.len(),
        views(path@) == cell_path(),
    ensures
        r == is_cell(doc.nodes@, t as int, j as int),
{
    let td = vec!['t', 'd'];
    assert(td@ == tag_td());
    assert(parent_ok(doc.nodes@, j as int));
    let node = &doc.nodes[j];
    !node.is_text && same_chars(&node.tag, &td) && doc.chain_matches(node.parent, path)
        && doc.is_below(j, t)
}

/// The first data table, in document order, whose first non-blank text reads
/// `caption` once its whitespace is normalized; `None` when no table does.
pub fn find_table(doc: &Document, caption: &str) -> (r: Option<usize>)
    requires
        doc.wf(),
    ensures
        r == table_with_caption(doc.nodes@, caption@),
        r matches Some(i) ==> i < doc.nodes@.len() && captioned(doc.nodes@, i as int, caption@),
        r matches Some(i) ==> texts_of(doc.nodes@, i as int).len() > 0 && normalize(
            texts_of(doc.nodes@, i as int)[0],
        ) == caption@,
        r is None ==> forall|i: int|
            0 <= i < doc.nodes@.len() ==> !#[trigger] captioned(doc.nodes@, i, caption@),
{
    let ghost nodes = doc.nodes@;
    let cap = crate::document::chars_of(caption);
    let path = table_path_exec();
    let mut i: usize = 0;
    while i < doc.nodes.len()
        invariant
            doc.wf(),
            nodes == doc.nodes@,
            i <= nodes.len(),
            cap@ == caption@,
            views(path@) == table_path(),
            forall|j: int| 0 <= j < i ==> !#[trigger] captioned(nodes, j, caption@),
        decreases nodes.len() - i,
    {
        if data_table_at(doc, i, &path) {
            let texts = doc.texts_under(i);
            if texts.len() > 0 {
                let first = normalize_text(&texts[0]);
                assert(texts@[0]@ == views(texts@)[0]);
                if same_chars(&first, &cap) {
                    assert(captioned(nodes, i as int, caption@));
                    proof {
                        let w = choose|w: int|
                            0 <= w < nodes.len() && #[trigger] captioned(nodes, w, caption@)
                                && forall|j: int| 0 <= j < w ==> !#[trigger] captioned(nodes, j, caption@);
                        assert(w == i as int) by {
                            if w < i {
                            } else if w > i {
                                assert(!captioned(nodes, i as int, caption@));
                            }
                        }
                    }
                    return Some(i);
                }
            }
        }
        i = i + 1;
    }
    None
}

/// The normalized texts of the cells of table `t`, in document order.
pub fn table_cell_tokens(doc: &Document, t: usize) -> (r: Vec<Vec<char>>)
    requires
        doc.wf(),
    ensures
        views(r@) == cell_tokens(doc.nodes@, t as int),
{
    let ghost nodes = doc.nodes@;
    let path = cell_path_exec();
    let mut out: Vec<Vec<char>> = Vec::new();
    let mut j: usize = 0;
    while j < doc.nodes.len()
        invariant
            doc.wf(),
            nodes == doc.nodes@,
            j <= nodes.len(),
            views(path@) == cell_path(),
            views(out@) == cell_texts(nodes, t as int, j as int).map_values(
                |s: Seq<char>| normalize(s),
            ),
        decreases nodes.len() - j,
    {
        if cell_at(doc, t, j, &path) {
            let texts = doc.texts_under(j);
            let ghost before = views(out@);
            let mut k: usize = 0;
            while k < texts.len()
                invariant
                    k <= texts.len(),
                    views(out@) == before + views(texts@).subrange(0, k as int).map_values(
                        |s: Seq<char>| normalize(s),
                    ),
                decreases texts.len() - k,
            {
                let w = normalize_text(&texts[k]);
                assert(views(out@.push(w)) == views(out@).push(w@));
                out.push(w);
                k = k + 1;
                assert(views(texts@).subrange(0, k as int).map_values(|s: Seq<char>| normalize(s))
                    == views(texts@).subrange(0, k - 1).map_values(|s: Seq<char>| normalize(s)).push(
                    normalize(texts@[k - 1]@),
                ));
            }
            assert(views(texts@).subrange(0, texts@.len() as int) == views(texts@));
            assert(cell_texts(nodes, t as int, j + 1) == cell_texts(nodes, t as int, j as int)
                + texts_of(nodes, j as int));
            assert(views(out@) == cell_texts(nodes, t as int, j + 1).map_values(
                |s: Seq<char>| normalize(s),
            ));
        }
        j = j + 1;
    }
    out
}

/// The text that follows the first occurrence of `label` among the cells of
/// table `t`, compared after whitespace normalization and read across cell
/// boundaries; `None` when `label` does not occur or occurs only last.
pub fn find_value_after_label(doc: &Document, t: usize, label: &str) -> (r: Option<String>)
    requires
        doc.wf(),
    ensures
        ({
            let ts = cell_tokens(doc.nodes@, t as int);
            &&& r matches Some(v) ==> exists|k: int|
                #![trigger ts[k]]
                0 <= k && k + 1 < ts.len() && ts[k] == label@ && (forall|m: int|
                    0 <= m < k ==> ts[m] != label@) && v@ == ts[k + 1]
            &&& r is None ==> forall|k: int| 0 <= k < ts.len() - 1 ==> ts[k] != label@
        }),
        opt_view(r) == value_after(cell_tokens(doc.nodes@, t as int), label@),
{
    let ghost ts = cell_tokens(doc.nodes@, t as int);
    let tokens = table_cell_tokens(doc, t);
    let lab = crate::document::chars_of(label);
    assert(ts.subrange(0, ts.len() as int) == ts);
    let mut k: usize = 0;
    while k < tokens.len()
        invariant
            views(tokens@) == ts,
            ts == cell_tokens(doc.nodes@, t as int),
            value_after(ts, label@) == value_after(ts.subrange(k as int, ts.len() as int), label@),
            lab@ == label@,
            k <= tokens.len(),
            forall|m: int| 0 <= m < k ==> ts[m] != label@,
        decreases tokens.len() - k,
    {
        assert(ts[k as int] == tokens@[k as int]@);
        if same_chars(&tokens[k], &lab) {
            assert(ts.len() == tokens@.len());
            assert(ts[k as int] == label@);
            if k + 1 < tokens.len() {
                assert(ts[k + 1] == tokens@[k + 1]@);
                let v = string_of(&tokens[k + 1]);
                assert(0 <= k && k + 1 < ts.len() && ts[k as int] == label@ && (forall|m: int|
                    0 <= m < k ==> ts[m] != label@) && v@ == ts[k + 1]);
                return Some(v);
            }
            return None;
        }
        assert(ts.subrange(k as int, ts.len() as int).subrange(1, ts.len() - k) == ts.subrange(
            k + 1,
            ts.len() as int,
        ));
        k = k + 1;
    }
    None
}

/// The fields that the texts of one cell yield, in order.
pub fn cell_fields(texts: &Vec<Vec<char>>) -> (r: Vec<Vec<char>>)
    ensures
        views(r@) == row_fields(views(texts@)),
{
    let mut out: Vec<Vec<char>> = Vec::new();
    let mut k: usize = 0;
    while k < texts.len()
        invariant
            k <= texts.len(),
            views(out@) == row_fields(views(texts@).subrange(0, k as int)),
        decreases texts.len() - k,
    {
        let f = fields_of_token(&texts[k]);
        let ghost before = views(out@);
        let mut m: usize = 0;
        while m < f.len()
            invariant
                m <= f.len(),
                views(out@) == before + views(f@).subrange(0, m as int),
            decreases f.len() - m,
        {
            let piece = crate::text::copy_range(&f[m], 0, f[m].len());
            assert(f@[m as int]@.subrange(0, f@[m as int]@.len() as int) == f@[m as int]@);
            assert(views(out@.push(piece)) == views(out@).push(piece@));
            out.push(piece);
            m = m + 1;
            assert(views(f@).subrange(0, m as int) == views(f@).subrange(0, m - 1).push(f@[m - 1]@));
        }
        assert(views(f@).subrange(0, f@.len() as int) == views(f@));
        let ghost pre = views(texts@).subrange(0, k + 1);
        assert(pre.drop_last() == views(texts@).subrange(0, k as int));
        assert(pre.last() == texts@[k as int]@);
        k = k + 1;
    }
    assert(views(texts@).subrange(0, texts@.len() as int) == views(texts@));
    out
}

fn field_or_empty(f: &Vec<Vec<char>>, k: usize) -> (r: String)
    ensures
        r@ == (if k < f@.len() { f@[k as int]@ } else { Seq::empty() }),
{
    if k < f.len() {
        string_of(&f[k])
    } else {
        String::new()
    }
}

/// A row from its fields: the first five, padded with empty fields.
pub fn row_of_fields(f: &Vec<Vec<char>>) -> (r: RawRow)
    ensures
        r.fields() == pad_five(views(f@)),
{
    let r = RawRow {
        seller: field_or_empty(f, 0),
        buyer_name: field_or_empty(f, 1),
        buyer: field_or_empty(f, 2),
        population: field_or_empty(f, 3),
        availability: field_or_empty(f, 4),
    };
    assert(r.fields() == pad_five(views(f@)));
    r
}

/// The rows of table `t`: for each cell in document order whose texts yield a
/// field, those fields cut at the delimiters, padded or cut to five.
pub fn tokenize_rows(doc: &Document, t: usize) -> (r: Vec<RawRow>)
    requires
        doc.wf(),
    ensures
        r@.len() == table_rows(doc.nodes@, t as int).len(),
        forall|k: int| 0 <= k < r@.len() ==> (#[trigger] r@[k]).fields() == table_rows(doc.nodes@, t as int)[k],
        forall|k: int| 0 <= k < r@.len() ==> (#[trigger] r@[k]).fields().len() == 5,
        forall|k: int| 0 <= k < r@.len() ==> !is_blank((#[trigger] r@[k]).seller@),
{
    let ghost nodes = doc.nodes@;
    let path = cell_path_exec();
    let mut out: Vec<RawRow> = Vec::new();
    let mut j: usize = 0;
    while j < doc.nodes.len()
        invariant
            doc.wf(),
            nodes == doc.nodes@,
            j <= nodes.len(),
            views(path@) == cell_path(),
            out@.len() == rows_upto(nodes, t as int, j as int).len(),
            forall|k: int| 0 <= k < out@.len() ==> (#[trigger] out@[k]).fields() == rows_upto(nodes, t as int, j as int)[k],
        decreases nodes.len() - j,
    {
        if cell_at(doc, t, j, &path) {
            let texts = doc.texts_under(j);
            let f = cell_fields(&texts);
            if f.len() > 0 {
                let row = row_of_fields(&f);
                out.push(row);
            }
        }
        j = j + 1;
    }
    proof {
        lemma_rows_not_blank(nodes, t as int, nodes.len() as int);
        assert forall|k: int| 0 <= k < out@.len() implies !is_blank((#[trigger] out@[k]).seller@) by {
            assert(out@[k].fields()[0] == out@[k].seller@);
        }
    }
    out
}

} // verus!
