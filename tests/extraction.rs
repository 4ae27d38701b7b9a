use tceq_scraper::config::{map_headers, HeaderColumns};
use tceq_scraper::document::Document;
use tceq_scraper::extract::{find_table, find_value_after_label, tokenize_rows};
use tceq_scraper::resolve::{extract_page, resolve, state_code_of, PageLayout};
use tceq_scraper::store::{Store, Upsert};
use tceq_scraper::text::{fields_of_token, normalize_text, split_on_delimiters};
use tceq_scraper::{BuyerSellerRelationship, RawRow, WaterDetail};

fn chars(s: &str) -> Vec<char> {
    s.chars().collect()
}

fn text(v: &Vec<char>) -> String {
    v.iter().collect()
}

fn el(doc: &mut Document, tag: &str, parent: Option<usize>) -> usize {
    doc.add_element(tag, parent).unwrap()
}

fn txt(doc: &mut Document, s: &str, parent: usize) {
    doc.add_text(s, Some(parent)).unwrap();
}

/// `html body table tbody tr td`, returning the `td`.
fn outer_cell(doc: &mut Document) -> usize {
    let html = el(doc, "html", None);
    let body = el(doc, "body", Some(html));
    let table = el(doc, "table", Some(body));
    let tbody = el(doc, "tbody", Some(table));
    let tr = el(doc, "tr", Some(tbody));
    el(doc, "td", Some(tr))
}

/// A nested table under `cell` headed by `caption` in a `th`; returns its `tbody`.
fn captioned_table(doc: &mut Document, cell: usize, caption: &str) -> usize {
    let table = el(doc, "table", Some(cell));
    let tbody = el(doc, "tbody", Some(table));
    let tr = el(doc, "tr", Some(tbody));
    let th = el(doc, "th", Some(tr));
    txt(doc, caption, th);
    tbody
}

/// A row of `td` cells with the given texts.
fn row(doc: &mut Document, tbody: usize, cells: &[&str]) {
    let tr = el(doc, "tr", Some(tbody));
    for c in cells {
        let td = el(doc, "td", Some(tr));
        txt(doc, c, td);
    }
}

fn detail_page(buyer_rows: &[&str], with_buyers: bool) -> Document {
    let mut doc = Document::new();
    let cell = outer_cell(&mut doc);
    let info = captioned_table(&mut doc, cell, "Water System Detail Information");
    row(&mut doc, info, &["Water System Name:", "  Example City\n Water "]);
    row(&mut doc, info, &["Population:", "1200"]);
    if with_buyers {
        let buyers = captioned_table(&mut doc, cell, "Buyers of Water");
        for r in buyer_rows {
            row(&mut doc, buyers, &[r]);
        }
    }
    doc
}

fn seed() -> WaterDetail {
    WaterDetail::seed("TX0001".to_string(), "TX".to_string(), "100".to_string())
}

#[test]
fn end_to_end_page() {
    let doc = detail_page(&["TX0001 sells to Example Buyer Co/TX0099/500/Yes"], true);
    let layout = PageLayout::standard();
    let res = extract_page(&layout, &seed(), &doc);
    assert_eq!(res.systems.len(), 2);
    let own = &res.systems[0];
    assert_eq!(own.ws_number, "TX0001");
    assert_eq!(own.st_code, "TX");
    assert_eq!(own.is_number, Some("100".to_string()));
    assert_eq!(own.name, Some("Example City Water".to_string()));
    let buyer = &res.systems[1];
    assert_eq!(buyer.ws_number, "TX0099");
    assert_eq!(buyer.st_code, "TX");
    assert_eq!(buyer.name, Some("Example Buyer Co".to_string()));
    assert_eq!(buyer.is_number, None);
    assert_eq!(res.relationships.len(), 1);
    let r = &res.relationships[0];
    assert_eq!(r.seller, "TX0001");
    assert_eq!(r.buyer, "TX0099");
    assert_eq!(r.buyer_name, "Example Buyer Co");
    assert_eq!(r.population, "500");
    assert_eq!(r.availability, "Yes");
}

#[test]
fn missing_buyers_table() {
    let doc = detail_page(&[], false);
    let res = extract_page(&PageLayout::standard(), &seed(), &doc);
    assert_eq!(res.relationships.len(), 0);
    assert_eq!(res.systems.len(), 1);
    assert_eq!(res.systems[0].name, Some("Example City Water".to_string()));
}

#[test]
fn short_row_is_padded() {
    let doc = detail_page(&["TX0001 - Acme Co"], true);
    let t = find_table(&doc, "Buyers of Water").unwrap();
    let rows = tokenize_rows(&doc, t);
    assert_eq!(rows.len(), 1);
    assert_eq!(rows[0].seller, "TX0001");
    assert_eq!(rows[0].buyer_name, "Acme Co");
    assert_eq!(rows[0].buyer, "");
    assert_eq!(rows[0].population, "");
    assert_eq!(rows[0].availability, "");
}

#[test]
fn delimiters_split_fields() {
    let f = fields_of_token(&chars("TX0123 - Acme Co / 200 - yes"));
    let got: Vec<String> = f.iter().map(text).collect();
    assert_eq!(got, vec!["TX0123", "Acme Co", "200", "yes"]);
}

#[test]
fn split_keeps_empty_pieces() {
    let p = split_on_delimiters(&chars("a//b sells to c"));
    let got: Vec<String> = p.iter().map(text).collect();
    assert_eq!(got, vec!["a", "", "b ", " c"]);
}

#[test]
fn hyphen_without_spaces_is_no_delimiter() {
    let f = fields_of_token(&chars("Smith-Jones WSC"));
    let got: Vec<String> = f.iter().map(text).collect();
    assert_eq!(got, vec!["Smith-Jones WSC"]);
}

#[test]
fn blank_rows_dropped_and_long_rows_cut() {
    let doc = detail_page(&["   \n ", "a/b/c/d/e/f/g", "- / -"], true);
    let t = find_table(&doc, "Buyers of Water").unwrap();
    let rows = tokenize_rows(&doc, t);
    assert_eq!(rows.len(), 2);
    assert_eq!(rows[0].seller, "a");
    assert_eq!(rows[0].availability, "e");
    assert_eq!(rows[1].seller, "-");
    assert_eq!(rows[1].buyer_name, "-");
    assert_eq!(rows[1].buyer, "");
}

#[test]
fn whitespace_is_normalized() {
    assert_eq!(text(&normalize_text(&chars("  a \n\t b\u{a0} "))), "a b");
    assert_eq!(text(&normalize_text(&chars(" \n "))), "");
}

#[test]
fn table_found_by_first_text() {
    let doc = detail_page(&["x/y/z"], true);
    let t = find_table(&doc, "Buyers of Water").unwrap();
    assert!(doc.nodes[t].tag.iter().collect::<String>() == "table");
    assert_eq!(find_table(&doc, "Sellers of Water"), None);
    // the outer table is not nested in a cell, so its caption does not count
    assert_eq!(find_table(&doc, "Water System Name:"), None);
}

#[test]
fn caption_is_whitespace_normalized() {
    let mut doc = Document::new();
    let cell = outer_cell(&mut doc);
    let first = captioned_table(&mut doc, cell, "Other");
    row(&mut doc, first, &["Buyers of Water"]);
    let second = captioned_table(&mut doc, cell, "\n  Buyers   of\tWater ");
    row(&mut doc, second, &["a/b/c"]);
    let t = find_table(&doc, "Buyers of Water").unwrap();
    let rows = tokenize_rows(&doc, t);
    assert_eq!(rows.len(), 1);
    assert_eq!(rows[0].buyer, "c");
}

#[test]
fn value_read_across_cells() {
    let doc = detail_page(&[], false);
    let t = find_table(&doc, "Water System Detail Information").unwrap();
    assert_eq!(find_value_after_label(&doc, t, "Population:"), Some("1200".to_string()));
    assert_eq!(
        find_value_after_label(&doc, t, "Water System Name:"),
        Some("Example City Water".to_string())
    );
    assert_eq!(find_value_after_label(&doc, t, "Water System Name"), None);
    assert_eq!(find_value_after_label(&doc, t, "1200"), None);
}

#[test]
fn value_first_label_wins() {
    let mut doc = Document::new();
    let cell = outer_cell(&mut doc);
    let tb = captioned_table(&mut doc, cell, "Info");
    row(&mut doc, tb, &["Name:", "Name:", "second"]);
    let t = find_table(&doc, "Info").unwrap();
    assert_eq!(find_value_after_label(&doc, t, "Name:"), Some("Name:".to_string()));
}

#[test]
fn add_rejects_text_parent() {
    let mut doc = Document::new();
    let a = el(&mut doc, "p", None);
    let t = doc.add_text("hi", Some(a)).unwrap();
    assert_eq!(doc.add_element("b", Some(t)), None);
    assert_eq!(doc.add_text("x", Some(99)), None);
    assert_eq!(doc.nodes.len(), 2);
}

fn raw(seller: &str, name: &str, buyer: &str) -> RawRow {
    RawRow {
        seller: seller.to_string(),
        buyer_name: name.to_string(),
        buyer: buyer.to_string(),
        population: "10".to_string(),
        availability: String::new(),
    }
}

#[test]
fn resolve_dedups_buyers() {
    let mut s = seed();
    s.name = Some("Home".to_string());
    let rows = vec![raw("x", "B One", "TX0002"), raw("x", "B Again", "TX0002"), raw("x", "Home", "Home"), raw("x", "C", "OK0003")];
    let res = resolve(&s, &rows);
    assert_eq!(res.relationships.len(), 4);
    assert!(res.relationships.iter().all(|r| r.seller == "TX0001"));
    let nums: Vec<&str> = res.systems.iter().map(|w| w.ws_number.as_str()).collect();
    assert_eq!(nums, vec!["TX0001", "TX0002", "OK0003"]);
    assert_eq!(res.systems[1].name, Some("B One".to_string()));
    assert_eq!(res.systems[2].st_code, "OK");
}

#[test]
fn state_code_of_short_numbers() {
    assert_eq!(state_code_of(&"T".to_string()), "T");
    assert_eq!(state_code_of(&"".to_string()), "");
    assert_eq!(state_code_of(&"ÉX12".to_string()), "ÉX");
}

#[test]
fn recording_twice_changes_nothing() {
    let doc = detail_page(&["TX0001 sells to Example Buyer Co/TX0099/500/Yes", "TX0001 sells to Other/TX0100/7/"], true);
    let res = extract_page(&PageLayout::standard(), &seed(), &doc);
    let mut store = Store::new();
    let (a, b) = store.record_page(&res);
    assert!(a.iter().all(|o| *o == Upsert::Inserted));
    assert!(b.iter().all(|o| *o == Upsert::Inserted));
    let n_sys = store.systems.len();
    let n_rel = store.relationships.len();
    let (a2, b2) = store.record_page(&res);
    assert!(a2.iter().all(|o| *o == Upsert::AlreadyExists));
    assert!(b2.iter().all(|o| *o == Upsert::AlreadyExists));
    assert_eq!(store.systems.len(), n_sys);
    assert_eq!(store.relationships.len(), n_rel);
    assert_eq!(n_sys, 3);
    assert_eq!(n_rel, 2);
}

#[test]
fn upsert_keys() {
    let mut store = Store::new();
    assert_eq!(store.upsert_system(&seed()), Upsert::Inserted);
    let mut other = seed();
    other.name = Some("renamed".to_string());
    assert_eq!(store.upsert_system(&other), Upsert::AlreadyExists);
    assert_eq!(store.systems[0].name, None);
    let r = BuyerSellerRelationship {
        buyer: "B".to_string(),
        buyer_name: "n".to_string(),
        seller: "S".to_string(),
        population: String::new(),
        availability: String::new(),
    };
    assert_eq!(store.upsert_relationship(&r), Upsert::Inserted);
    let mut reversed = r.duplicate();
    reversed.buyer = "S".to_string();
    reversed.seller = "B".to_string();
    assert_eq!(store.upsert_relationship(&reversed), Upsert::Inserted);
    assert_eq!(store.upsert_relationship(&r), Upsert::AlreadyExists);
}

#[test]
fn url_is_built() {
    let u = WaterDetail::seed("TX2270001".to_string(), "TX".to_string(), "5969".to_string()).url();
    assert_eq!(
        u,
        "https://dww2.tceq.texas.gov/DWW/JSP/WaterSystemDetail.jsp?tinwsys_is_number=5969&tinwsys_st_code=TX&wsnumber=TX2270001%20%20%20&DWWState=TX"
    );
}

#[test]
fn headers_mapped() {
    let hs: Vec<String> = vec!["st_code".into(), "x".into(), "ws_number".into(), "is_number".into(), "st_code".into()];
    let c: HeaderColumns = map_headers(&hs, &"ws_number".into(), &"st_code".into(), &"is_number".into()).ok().unwrap();
    assert_eq!((c.ws_number, c.st_code, c.is_number), (2, 4, 3));
}

#[test]
fn missing_headers_all_named() {
    let hs: Vec<String> = vec!["st_code".into(), "other".into()];
    let m = map_headers(&hs, &"ws_number".into(), &"st_code".into(), &"is_number".into()).err().unwrap();
    assert_eq!(m, vec!["is_number".to_string(), "ws_number".to_string()]);
}
