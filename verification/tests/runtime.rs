use temuera_headless::assoc::AssocMap;
use temuera_headless::csv::{CsvCatalog, CsvFile, CsvRow, NameTable};
use temuera_headless::runtime::{Value, VarAddress, VarResolver, VarStore};

fn catalog_with_talent() -> CsvCatalog {
    let file = CsvFile {
        path: "Talent.csv".to_owned(),
        relative_path: "CSV/Talent.csv".to_owned(),
        rows: vec![CsvRow {
            line_no: 1,
            cells: vec!["2".to_owned(), "性別".to_owned()],
        }],
    };
    let mut catalog = CsvCatalog {
        files: vec![file],
        rows: 1,
        name_tables: AssocMap::new(),
    };
    let mut by_id = AssocMap::new();
    by_id.insert(2, "性別".to_owned());
    let mut by_name = AssocMap::new();
    by_name.insert("性別".to_owned(), 2);
    catalog.name_tables.insert(
        "TALENT".to_owned(),
        NameTable {
            source_file: "CSV/Talent.csv".to_owned(),
            by_id,
            by_name,
        },
    );
    catalog
}

#[test]
fn resolves_csv_named_indexes() {
    let catalog = catalog_with_talent();
    let resolver = VarResolver::new(&catalog);
    let address = resolver.parse_address("TALENT:ARG:性別").unwrap();
    assert_eq!(
        address,
        VarAddress {
            name: "TALENT".to_owned(),
            indexes: vec![0, 2],
        }
    );
}

#[test]
fn stores_values_by_address() {
    let address = VarAddress {
        name: "FLAG".to_owned(),
        indexes: vec![1],
    };
    let mut store = VarStore::default();
    assert_eq!(store.get(&address), Value::Int(0));
    store.set(address.clone(), Value::Int(42));
    assert_eq!(store.get(&address), Value::Int(42));
    assert_eq!(store.len(), 1);
}

#[test]
fn defaults_string_variables_to_empty_string() {
    let store = VarStore::default();
    let address = VarAddress {
        name: "NAME".to_owned(),
        indexes: vec![0],
    };
    assert_eq!(store.get(&address), Value::Str(String::new()));
}

#[test]
fn parse_address_rejects_empty_name_and_unknown_index() {
    let catalog = catalog_with_talent();
    let resolver = VarResolver::new(&catalog);
    assert!(resolver.parse_address(" :1").is_none());
    assert!(resolver.parse_address("FLAG:nope").is_none());
    assert!(resolver.parse_address("FLAG:").is_none());
    assert_eq!(
        resolver.parse_address(" flag : -3 : target "),
        Some(VarAddress {
            name: "FLAG".to_owned(),
            indexes: vec![-3, 0],
        })
    );
    assert_eq!(resolver.csv().rows, 1);
}

#[test]
fn set_replaces_and_keeps_other_addresses() {
    let a = VarAddress { name: "A".to_owned(), indexes: vec![] };
    let b = VarAddress { name: "A".to_owned(), indexes: vec![1] };
    let mut store = VarStore::new();
    store.set(a.clone(), Value::Int(1));
    store.set(b.clone(), Value::Str("x".to_owned()));
    store.set(a.clone(), Value::Int(2));
    assert_eq!(store.get(&a), Value::Int(2));
    assert_eq!(store.get(&b), Value::Str("x".to_owned()));
    assert_eq!(store.len(), 2);
}
