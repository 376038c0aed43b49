use cuke_runner::cuke::{DataTable, FromDataTableRow, FromStepArgumentError, FromStepArgumentResult};
use cuke_runner::scenario::{Scenario, State, StateStore};

#[derive(Debug, PartialEq)]
struct NamePrice {
    name: String,
    price: String,
}

impl FromDataTableRow for NamePrice {
    fn from_data_table_row(row: &[String]) -> FromStepArgumentResult<NamePrice> {
        if row.len() == 2 {
            Ok(NamePrice { name: row[0].clone(), price: row[1].clone() })
        } else {
            Err(FromStepArgumentError { message: format!("expected 2 cells, got {}", row.len()) })
        }
    }
}

fn table(rows: &[&[&str]]) -> DataTable {
    DataTable {
        rows: rows.iter().map(|r| r.iter().map(|c| c.to_string()).collect()).collect(),
    }
}

#[test]
fn to_vec_skips_the_header_row() {
    let t = table(&[&["name", "price"], &["apple", "1"], &["pear", "2"]]);
    let items: Vec<NamePrice> = t.to_vec().expect("rows convert");
    assert_eq!(items.len(), 2);
    assert_eq!(items[0], NamePrice { name: "apple".to_string(), price: "1".to_string() });
    assert_eq!(items[1], NamePrice { name: "pear".to_string(), price: "2".to_string() });
}

#[test]
fn to_vec_of_header_only_table_is_empty() {
    let t = table(&[&["name", "price"]]);
    let items: Vec<NamePrice> = t.to_vec().expect("no rows to convert");
    assert!(items.is_empty());
}

#[test]
fn to_vec_reports_the_first_bad_row() {
    let t = table(&[&["name", "price"], &["apple", "1"], &["pear"]]);
    let err = t.to_vec::<NamePrice>().expect_err("one row is short");
    assert_eq!(err.message, "expected 2 cells, got 1");
}

#[test]
fn headers_converts_the_first_row() {
    let t = table(&[&["name", "price"], &["apple", "1"]]);
    let h: NamePrice = t.headers().expect("header converts");
    assert_eq!(h, NamePrice { name: "name".to_string(), price: "price".to_string() });
}

#[test]
fn headers_of_an_empty_table_fails() {
    let t = table(&[]);
    let err = t.headers::<NamePrice>().expect_err("no rows");
    assert_eq!(err.message, "No rows");
}

#[test]
fn all_to_vec_keeps_the_header_row() {
    let t = table(&[&["name", "price"], &["apple", "1"]]);
    let items: Vec<NamePrice> = t.all_to_vec().expect("rows convert");
    assert_eq!(items.len(), 2);
    assert_eq!(items[0].name, "name");
    assert_eq!(items[1].name, "apple");
}

#[test]
fn state_store_keeps_the_first_value_per_key() {
    let mut store: StateStore<String> = StateStore::new();
    assert!(store.get(7).is_none());
    store.init(7, "first".to_string());
    store.init(7, "second".to_string());
    store.init(9, "other".to_string());
    assert_eq!(store.get(7), Some(&"first".to_string()));
    assert_eq!(store.get(9), Some(&"other".to_string()));
    assert!(store.get(8).is_none());
}

#[test]
fn state_handle_exposes_the_inner_value() {
    let value = 42u32;
    let handle = State::new(&value);
    assert_eq!(*handle.inner(), 42);
}

#[test]
fn scenario_starts_with_no_results() {
    let scenario: Scenario<u8> = Scenario::new(0);
    assert!(scenario.results.is_empty());
    assert_eq!(scenario.state, 0);
}
