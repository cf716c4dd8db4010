use molecular_weight_calculator::formula::FormulaError;
use molecular_weight_calculator::table::{
    load_formula_table, load_weight_table, parse_weight, FormulaTable, TableLoadError, WeightTable,
};

fn rows(text: &[&[&str]]) -> Vec<Vec<String>> {
    text.iter()
        .map(|r| r.iter().map(|f| f.to_string()).collect())
        .collect()
}

#[test]
fn weights_read_as_nanodaltons() {
    assert_eq!(parse_weight("1.00794"), Some(1_007_940_000));
    assert_eq!(parse_weight("12"), Some(12_000_000_000));
    assert_eq!(parse_weight("0.5"), Some(500_000_000));
    assert_eq!(parse_weight("15.99491461956"), Some(15_994_914_619));
    assert_eq!(parse_weight("18446744073.709551615"), Some(u64::MAX));
}

#[test]
fn malformed_weights_are_rejected() {
    assert_eq!(parse_weight(""), None);
    assert_eq!(parse_weight("1."), None);
    assert_eq!(parse_weight(".5"), None);
    assert_eq!(parse_weight("1.0.0"), None);
    assert_eq!(parse_weight(" 1.0"), None);
    assert_eq!(parse_weight("1.00794(7)"), None);
    assert_eq!(parse_weight("18446744073.709551616"), None);
    assert_eq!(parse_weight("99999999999999999999999"), None);
}

#[test]
fn weight_table_loads_from_csv() {
    let data = "name,element,weight\nhydrogen,H,1.00794\noxygen,O,15.9994\n";
    let table = load_weight_table(data.as_bytes(), "element", "weight").unwrap();
    assert_eq!(table.weight(&"H".to_string()), Some(1_007_940_000));
    assert_eq!(table.weight(&"O".to_string()), Some(15_999_400_000));
    assert_eq!(table.weight(&"hydrogen".to_string()), None);
    assert_eq!(table.weight(&"N".to_string()), None);
}

#[test]
fn quoted_csv_fields_are_unquoted() {
    let data = "element,weight\n\"H\",\"1.5\"\n";
    let table = load_weight_table(data.as_bytes(), "element", "weight").unwrap();
    assert_eq!(table.weight(&"H".to_string()), Some(1_500_000_000));
}

#[test]
fn weight_table_errors() {
    let missing = "element,mass\nH,1.0\n";
    assert_eq!(
        load_weight_table(missing.as_bytes(), "element", "weight").unwrap_err(),
        TableLoadError::MissingColumn
    );
    assert_eq!(
        load_weight_table(b"", "element", "weight").unwrap_err(),
        TableLoadError::MissingColumn
    );
    let duplicate = "element,weight\nH,1.0\nO,16\nH,1.1\n";
    assert_eq!(
        load_weight_table(duplicate.as_bytes(), "element", "weight").unwrap_err(),
        TableLoadError::DuplicateKey { row: 3 }
    );
    let bad = "element,weight\nH,1.0\nO,heavy\n";
    assert_eq!(
        load_weight_table(bad.as_bytes(), "element", "weight").unwrap_err(),
        TableLoadError::BadWeight { row: 2 }
    );
    let ragged = "element,weight\nH,1.0,extra\n";
    assert_eq!(
        load_weight_table(ragged.as_bytes(), "element", "weight").unwrap_err(),
        TableLoadError::Unreadable
    );
    let not_utf8: &[u8] = b"element,weight\nH,\xff\xfe\n";
    assert_eq!(
        load_weight_table(not_utf8, "element", "weight").unwrap_err(),
        TableLoadError::Unreadable
    );
}

#[test]
fn short_rows_are_rejected() {
    let r = rows(&[&["element", "weight"], &["H", "1.0"], &["O"]]);
    assert_eq!(
        WeightTable::from_rows(&r, "element", "weight").unwrap_err(),
        TableLoadError::ShortRow { row: 2 }
    );
}

#[test]
fn first_column_of_a_name_is_read() {
    let r = rows(&[&["weight", "element", "weight"], &["1.0", "H", "2.0"]]);
    let table = WeightTable::from_rows(&r, "element", "weight").unwrap();
    assert_eq!(table.weight(&"H".to_string()), Some(1_000_000_000));
}

#[test]
fn formula_table_loads_from_csv() {
    let data = "abbreviation,formula\nMe,CH3\nEt,C2H5\n";
    let table = load_formula_table(data.as_bytes(), "abbreviation", "formula").unwrap();
    let me: Vec<(String, u32)> = table
        .formula(&"Me".to_string())
        .unwrap()
        .iter()
        .map(|t| (t.symbol.clone(), t.count))
        .collect();
    assert_eq!(me, vec![("C".to_string(), 1), ("H".to_string(), 3)]);
    assert!(table.formula(&"Pr".to_string()).is_none());
    assert!(FormulaTable::empty().formula(&"Me".to_string()).is_none());
}

#[test]
fn formula_table_errors() {
    let bad = "letter,formula\nA,C3H7NO2\nC,C3H7NO2S(\n";
    assert_eq!(
        load_formula_table(bad.as_bytes(), "letter", "formula").unwrap_err(),
        TableLoadError::BadFormula {
            row: 2,
            error: FormulaError::Syntax { position: 8 }
        }
    );
    let duplicate = "letter,formula\nA,C3H7NO2\nA,C3H7NO2\n";
    assert_eq!(
        load_formula_table(duplicate.as_bytes(), "letter", "formula").unwrap_err(),
        TableLoadError::DuplicateKey { row: 2 }
    );
}
