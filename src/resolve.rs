//! Turning the rows of one page into systems and relationships, deduplicated
//! within the page.
use vstd::prelude::*;
use vstd::string::{StrSliceExecFns, StringExecFns};
use crate::document::Document;
use crate::extract::{
    cell_tokens, find_table, find_value_after_label, table_rows, table_with_caption, tokenize_rows,
    value_after,
};
use crate::model::{copy_opt, opt_view, BuyerSellerRelationship, RawRow, WaterDetail};

verus! {

/// What one page yields: the systems to record (the page's own system first)
/// and its relationships.
pub struct Resolution {
    pub systems: Vec<WaterDetail>,
    pub relationships: Vec<BuyerSellerRelationship>,
}

/// The captions and the label that locate a page's sections.
pub struct PageLayout {
    pub detail_caption: String,
    pub name_label: String,
    pub buyers_caption: String,
}

pub open spec fn row_views(rows: Seq<RawRow>) -> Seq<Seq<Seq<char>>> {
    rows.map_values(|r: RawRow| r.fields())
}

pub open spec fn str_views(v: Seq<String>) -> Seq<Seq<char>> {
    v.map_values(|s: String| s@)
}

/// The key under which the page's own system is known within the page: its
/// name, or its number when the name is unknown.
pub open spec fn seed_key(seed: WaterDetail) -> Seq<char> {
    match seed.name {
        Some(n) => n@,
        None => seed.ws_number@,
    }
}

/// The keys known after `rows`: `key`, then each buyer not known before it.
pub open spec fn known_keys(key: Seq<char>, rows: Seq<Seq<Seq<char>>>) -> Seq<Seq<char>>
    decreases rows.len(),
{
    if rows.len() == 0 {
        seq![key]
    } else {
        let prev = known_keys(key, rows.drop_last());
        if prev.contains(rows.last()[2]) {
            prev
        } else {
            prev.push(rows.last()[2])
        }
    }
}

/// The rows whose buyer is not known before them, in order.
pub open spec fn discovered(key: Seq<char>, rows: Seq<Seq<Seq<char>>>) -> Seq<Seq<Seq<char>>>
    decreases rows.len(),
{
    if rows.len() == 0 {
        Seq::empty()
    } else {
        let prev = discovered(key, rows.drop_last());
        if known_keys(key, rows.drop_last()).contains(rows.last()[2]) {
            prev
        } else {
            prev.push(rows.last())
        }
    }
}

/// The first two characters of `s`, or all of it when shorter.
pub open spec fn state_prefix(s: Seq<char>) -> Seq<char> {
    if s.len() < 2 {
        s
    } else {
        s.subrange(0, 2)
    }
}

/// `w` is the system that a row's buyer stands for.
pub open spec fn is_buyer_system(w: WaterDetail, row: Seq<Seq<char>>) -> bool {
    &&& w.ws_number@ == row[2]
    &&& w.st_code@ == state_prefix(row[2])
    &&& opt_view(w.name) == Some(row[1])
    &&& w.is_number is None
}

/// `r` is the relationship that a row of `seller`'s page states.
pub open spec fn is_row_relationship(
    r: BuyerSellerRelationship,
    seller: Seq<char>,
    row: Seq<Seq<char>>,
) -> bool {
    &&& r.seller@ == seller
    &&& r.buyer@ == row[2]
    &&& r.buyer_name@ == row[1]
    &&& r.population@ == row[3]
    &&& r.availability@ == row[4]
}

/// `res` is what `rows` of `seed`'s page resolve to.
pub open spec fn resolved(seed: WaterDetail, rows: Seq<Seq<Seq<char>>>, res: Resolution) -> bool {
    let d = discovered(seed_key(seed), rows);
    &&& res.systems@.len() == d.len() + 1
    &&& res.systems@[0] == seed
    &&& forall|k: int| 0 <= k < d.len() ==> is_buyer_system(#[trigger] res.systems@[k + 1], d[k])
    &&& res.relationships@.len() == rows.len()
    &&& forall|k: int|
        0 <= k < rows.len() ==> is_row_relationship(
            #[trigger] res.relationships@[k],
            seed.ws_number@,
            rows[k],
        )
}

fn contains_text(v: &Vec<String>, s: &String) -> (r: bool)
    ensures
        r == str_views(v@).contains(s@),
{
    let mut i: usize = 0;
    while i < v.len()
        invariant
            i <= v.len(),
            forall|k: int| 0 <= k < i ==> v@[k]@ != s@,
        decreases v.len() - i,
    {
        if v[i] == *s {
            assert(str_views(v@)[i as int] == s@);
            return true;
        }
        i = i + 1;
    }
    assert forall|k: int| 0 <= k < str_views(v@).len() implies str_views(v@)[k] != s@ by {
        assert(str_views(v@)[k] == v@[k]@);
    }
    false
}

/// The first two characters of `s`, or all of it when shorter.
pub fn state_code_of(s: &String) -> (r: String)
    ensures
        r@ == state_prefix(s@),
{
    let n = s.as_str().unicode_len();
    let end: usize = if n < 2 {
        n
    } else {
        2
    };
    let r = String::from_str(s.as_str().substring_char(0, end));
    assert(n < 2 ==> s@.subrange(0, n as int) == s@);
    r
}

fn relationship_of(seller: &String, row: &RawRow) -> (r: BuyerSellerRelationship)
    ensures
        is_row_relationship(r, seller@, row.fields()),
{
    BuyerSellerRelationship {
        buyer: row.buyer.clone(),
        buyer_name: row.buyer_name.clone(),
        seller: seller.clone(),
        population: row.population.clone(),
        availability: row.availability.clone(),
    }
}

/// The systems and relationships that `rows` of `seed`'s page yield: `seed`
/// first, then one system for each buyer not yet known in the page, and one
/// relationship from `seed` for each row.
pub fn resolve(seed: &WaterDetail, rows: &Vec<RawRow>) -> (r: Resolution)
    ensures
        resolved(*seed, row_views(rows@), r),
{
    let ghost rv = row_views(rows@);
    let ghost key = seed_key(*seed);
    let mut seen: Vec<String> = Vec::new();
    match &seed.name {
        Some(n) => seen.push(n.clone()),
        None => seen.push(seed.ws_number.clone()),
    }
    let mut systems: Vec<WaterDetail> = Vec::new();
    systems.push(seed.duplicate());
    let mut relationships: Vec<BuyerSellerRelationship> = Vec::new();
    assert(str_views(seen@) == known_keys(key, rv.subrange(0, 0)));
    let mut k: usize = 0;
    while k < rows.len()
        invariant
            k <= rows.len(),
            rv == row_views(rows@),
            key == seed_key(*seed),
            str_views(seen@) == known_keys(key, rv.subrange(0, k as int)),
            systems@.len() == discovered(key, rv.subrange(0, k as int)).len() + 1,
            systems@[0] == *seed,
            forall|m: int|
                0 <= m < discovered(key, rv.subrange(0, k as int)).len() ==> is_buyer_system(
                    #[trigger] systems@[m + 1],
                    discovered(key, rv.subrange(0, k as int))[m],
                ),
            relationships@.len() == k,
            forall|m: int|
                0 <= m < k ==> is_row_relationship(
                    #[trigger] relationships@[m],
                    seed.ws_number@,
                    rv[m],
                ),
        decreases rows.len() - k,
    {
        let row = &rows[k];
        let ghost pre = rv.subrange(0, k + 1);
        assert(pre.drop_last() == rv.subrange(0, k as int));
        assert(pre.last() == row.fields());
        if !contains_text(&seen, &row.buyer) {
            let w = WaterDetail {
                is_number: None,
                st_code: state_code_of(&row.buyer),
                ws_number: row.buyer.clone(),
                name: Some(row.buyer_name.clone()),
            };
            let b = row.buyer.clone();
            assert(str_views(seen@.push(b)) == str_views(seen@).push(row.buyer@));
            seen.push(b);
            systems.push(w);
        }
        relationships.push(relationship_of(&seed.ws_number, row));
        k = k + 1;
    }
    assert(rv.subrange(0, rows@.len() as int) == rv);
    Resolution { systems, relationships }
}

impl PageLayout {
    /// The layout of the published detail pages.
    pub fn standard() -> (r: PageLayout)
        ensures
            r.detail_caption@ == "Water System Detail Information"@,
            r.name_label@ == "Water System Name:"@,
            r.buyers_caption@ == "Buyers of Water"@,
    {
        PageLayout {
            detail_caption: String::from_str("Water System Detail Information"),
            name_label: String::from_str("Water System Name:"),
            buyers_caption: String::from_str("Buyers of Water"),
        }
    }
}

/// The name that the page's detail table gives, if any.
pub open spec fn page_name(doc: Document, layout: PageLayout) -> Option<Seq<char>> {
    match table_with_caption(doc.nodes@, layout.detail_caption@) {
        Some(i) => value_after(cell_tokens(doc.nodes@, i as int), layout.name_label@),
        None => None,
    }
}

/// The rows of the page's buyers table; none when the page has no such table.
pub open spec fn page_rows(doc: Document, layout: PageLayout) -> Seq<Seq<Seq<char>>> {
    match table_with_caption(doc.nodes@, layout.buyers_caption@) {
        Some(i) => table_rows(doc.nodes@, i as int),
        None => Seq::empty(),
    }
}

/// `named` is `seed` with its name taken from the page when it had none.
pub open spec fn named_from_page(seed: WaterDetail, named: WaterDetail, doc: Document, layout: PageLayout) -> bool {
    &&& named.ws_number == seed.ws_number
    &&& named.st_code == seed.st_code
    &&& named.is_number == seed.is_number
    &&& opt_view(named.name) == match seed.name {
        Some(n) => Some(n@),
        None => page_name(doc, layout),
    }
}

/// Everything that `seed`'s page yields: the seed, named from the page when it
/// had no name, and what the rows of the buyers table resolve to. A page with
/// no buyers table yields the seed alone.
pub fn extract_page(layout: &PageLayout, seed: &WaterDetail, doc: &Document) -> (r: Resolution)
    requires
        doc.wf(),
    ensures
        r.systems@.len() >= 1,
        named_from_page(*seed, r.systems@[0], *doc, *layout),
        resolved(r.systems@[0], page_rows(*doc, *layout), r),
{
    let name = match &seed.name {
        Some(n) => Some(n.clone()),
        None => match find_table(doc, layout.detail_caption.as_str()) {
            Some(t) => find_value_after_label(doc, t, layout.name_label.as_str()),
            None => None,
        },
    };
    let named = WaterDetail {
        is_number: copy_opt(&seed.is_number),
        st_code: seed.st_code.clone(),
        ws_number: seed.ws_number.clone(),
        name,
    };
    let rows = match find_table(doc, layout.buyers_caption.as_str()) {
        Some(t) => tokenize_rows(doc, t),
        None => Vec::new(),
    };
    assert(row_views(rows@) == page_rows(*doc, *layout));
    resolve(&named, &rows)
}

} // verus!
