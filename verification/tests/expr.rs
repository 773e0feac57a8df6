use temuera_headless::assoc::AssocMap;
use temuera_headless::csv::{CsvCatalog, NameTable};
use temuera_headless::expr::{eval, eval_binary, parse, tokenize, BinaryOp, ExprError};
use temuera_headless::runtime::{Value, VarAddress, VarResolver, VarStore};

fn empty_resolver() -> (CsvCatalog, VarStore) {
    (CsvCatalog::default(), VarStore::default())
}

fn value_of(text: &str) -> Result<Value, ExprError> {
    let (csv, store) = empty_resolver();
    let resolver = VarResolver::new(&csv);
    let expr = parse(text)?;
    eval(&expr, &resolver, &store)
}

#[test]
fn evaluates_arithmetic_and_comparison() {
    let (csv, store) = empty_resolver();
    let resolver = VarResolver::new(&csv);
    let expr = parse("1 + 2 * 3 == 7").unwrap();
    assert_eq!(eval(&expr, &resolver, &store), Ok(Value::Int(1)));
}

#[test]
fn evaluates_emuera_conditional() {
    let (csv, store) = empty_resolver();
    let resolver = VarResolver::new(&csv);
    let expr = parse("0 ? 10 # 20").unwrap();
    assert_eq!(eval(&expr, &resolver, &store), Ok(Value::Int(20)));
}

#[test]
fn evaluates_variables_with_csv_name_indexes() {
    let mut csv = CsvCatalog::default();
    let mut by_id = AssocMap::new();
    by_id.insert(2, "性別".to_owned());
    let mut by_name = AssocMap::new();
    by_name.insert("性別".to_owned(), 2);
    csv.name_tables.insert(
        "TALENT".to_owned(),
        NameTable {
            source_file: "CSV/Talent.csv".to_owned(),
            by_id,
            by_name,
        },
    );
    let resolver = VarResolver::new(&csv);
    let mut store = VarStore::default();
    store.set(
        VarAddress {
            name: "TALENT".to_owned(),
            indexes: vec![0, 2],
        },
        Value::Int(3),
    );
    let expr = parse("TALENT:ARG:性別 & 1").unwrap();
    assert_eq!(eval(&expr, &resolver, &store), Ok(Value::Int(1)));
    let expr = parse("TALENT:ARG:性別 == 3").unwrap();
    assert_eq!(eval(&expr, &resolver, &store), Ok(Value::Int(1)));
}

#[test]
fn division_by_zero_is_an_error() {
    assert_eq!(value_of("1 / 0"), Err(ExprError::DivisionByZero));
    assert_eq!(value_of("1 % 0"), Err(ExprError::DivisionByZero));
}

#[test]
fn division_truncates_toward_zero() {
    assert_eq!(value_of("-7 / 2"), Ok(Value::Int(-3)));
    assert_eq!(value_of("-7 % 2"), Ok(Value::Int(-1)));
}

#[test]
fn strings_concatenate_and_compare() {
    assert_eq!(value_of("\"ab\" + \"cd\" == \"abcd\""), Ok(Value::Int(1)));
    assert_eq!(value_of("STRLENS(\"abc\")"), Ok(Value::Int(3)));
}

#[test]
fn getbit_reads_one_bit() {
    assert_eq!(value_of("GETBIT(5, 2)"), Ok(Value::Int(1)));
    assert_eq!(value_of("GETBIT(5, 1)"), Ok(Value::Int(0)));
}

#[test]
fn logical_operators_short_circuit() {
    assert_eq!(value_of("0 && 1 / 0"), Ok(Value::Int(0)));
    assert_eq!(value_of("1 || 1 / 0"), Ok(Value::Int(1)));
    assert_eq!(value_of("!0"), Ok(Value::Int(1)));
}

#[test]
fn parse_errors_are_reported() {
    assert_eq!(parse("1 +").err(), Some(ExprError::UnexpectedEnd));
    assert!(matches!(parse("1 2"), Err(ExprError::UnexpectedToken(_))));
    assert!(tokenize("1 + 2").unwrap().len() >= 3);
}

#[test]
fn unknown_function_is_invalid_variable() {
    assert_eq!(value_of("FOO(1)"), Err(ExprError::InvalidVariable("FOO".to_owned())));
}

#[test]
fn binary_operators_on_values() {
    assert_eq!(eval_binary(Value::Int(6), BinaryOp::Sub, Value::Int(8)), Ok(Value::Int(-2)));
    assert_eq!(eval_binary(Value::Int(6), BinaryOp::BitAnd, Value::Int(3)), Ok(Value::Int(2)));
    assert_eq!(eval_binary(Value::Int(i64::MAX), BinaryOp::Add, Value::Int(1)), Ok(Value::Int(i64::MIN)));
}
