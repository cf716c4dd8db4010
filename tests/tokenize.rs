use molecular_weight_calculator::formula::{parse_molecular_formula, FormulaError, Token, MAX_COUNT};

fn pairs(tokens: &[Token]) -> Vec<(String, u32)> {
    tokens.iter().map(|t| (t.symbol.clone(), t.count)).collect()
}

fn tokenize_ok(formula: &str) -> Vec<(String, u32)> {
    pairs(&parse_molecular_formula(formula).unwrap())
}

fn p(symbol: &str, count: u32) -> (String, u32) {
    (symbol.to_string(), count)
}

#[test]
fn splits_symbols_and_counts() {
    assert_eq!(tokenize_ok("CH3"), vec![p("C", 1), p("H", 3)]);
    assert_eq!(tokenize_ok("C6H12O6"), vec![p("C", 6), p("H", 12), p("O", 6)]);
}

#[test]
fn symbols_take_up_to_two_lowercase_letters() {
    assert_eq!(tokenize_ok("NaCl"), vec![p("Na", 1), p("Cl", 1)]);
    assert_eq!(tokenize_ok("Uuo2"), vec![p("Uuo", 2)]);
    assert_eq!(
        parse_molecular_formula("Uuuo").unwrap_err(),
        FormulaError::Syntax { position: 3 }
    );
}

#[test]
fn group_counts_multiply() {
    assert_eq!(tokenize_ok("(CH3)2"), vec![p("C", 2), p("H", 6)]);
    assert_eq!(
        tokenize_ok("Ca(OH)2"),
        vec![p("Ca", 1), p("O", 2), p("H", 2)]
    );
    assert_eq!(
        tokenize_ok("((CH2)2O)3"),
        vec![p("C", 6), p("H", 12), p("O", 3)]
    );
    assert_eq!(tokenize_ok("(OH)"), vec![p("O", 1), p("H", 1)]);
}

#[test]
fn whitespace_between_units_is_ignored() {
    assert_eq!(tokenize_ok("  H2 O \n"), vec![p("H", 2), p("O", 1)]);
    assert_eq!(tokenize_ok("( C H3 )2"), vec![p("C", 2), p("H", 6)]);
    assert_eq!(
        parse_molecular_formula("(CH3) 2").unwrap_err(),
        FormulaError::Syntax { position: 6 }
    );
}

#[test]
fn empty_formula_is_a_syntax_error() {
    assert_eq!(
        parse_molecular_formula("").unwrap_err(),
        FormulaError::Syntax { position: 0 }
    );
    assert_eq!(
        parse_molecular_formula("   ").unwrap_err(),
        FormulaError::Syntax { position: 3 }
    );
}

#[test]
fn malformed_formulas_name_their_position() {
    assert_eq!(
        parse_molecular_formula("2H").unwrap_err(),
        FormulaError::Syntax { position: 0 }
    );
    assert_eq!(
        parse_molecular_formula("H2)").unwrap_err(),
        FormulaError::Syntax { position: 2 }
    );
    assert_eq!(
        parse_molecular_formula("O(H2").unwrap_err(),
        FormulaError::Syntax { position: 1 }
    );
    assert_eq!(
        parse_molecular_formula("()2").unwrap_err(),
        FormulaError::Syntax { position: 1 }
    );
    assert_eq!(
        parse_molecular_formula("h2o").unwrap_err(),
        FormulaError::Syntax { position: 0 }
    );
    assert_eq!(
        parse_molecular_formula("H0").unwrap_err(),
        FormulaError::Syntax { position: 1 }
    );
    assert_eq!(
        parse_molecular_formula("H-O").unwrap_err(),
        FormulaError::Syntax { position: 1 }
    );
}

#[test]
fn counts_past_the_bound_overflow() {
    assert_eq!(tokenize_ok("H1000000"), vec![p("H", MAX_COUNT)]);
    assert_eq!(
        parse_molecular_formula("H1000001").unwrap_err(),
        FormulaError::CountOverflow { position: 1 }
    );
    assert_eq!(
        parse_molecular_formula("H99999999999999999999999").unwrap_err(),
        FormulaError::CountOverflow { position: 1 }
    );
    assert_eq!(
        parse_molecular_formula("(H1000)1001").unwrap_err(),
        FormulaError::CountOverflow { position: 7 }
    );
}

#[test]
fn group_nesting_is_bounded() {
    let deep = format!("{}H{}", "(".repeat(64), ")".repeat(64));
    assert_eq!(tokenize_ok(&deep), vec![p("H", 1)]);
    let deeper = format!("{}H{}", "(".repeat(65), ")".repeat(65));
    assert_eq!(
        parse_molecular_formula(&deeper).unwrap_err(),
        FormulaError::Syntax { position: 64 }
    );
    let unbalanced = "(".repeat(100_000);
    assert_eq!(
        parse_molecular_formula(&unbalanced).unwrap_err(),
        FormulaError::Syntax { position: 64 }
    );
}

#[test]
fn non_ascii_text_is_read_by_characters() {
    assert_eq!(
        parse_molecular_formula("H2é").unwrap_err(),
        FormulaError::Syntax { position: 2 }
    );
    assert_eq!(
        parse_molecular_formula("Ca Zé").unwrap_err(),
        FormulaError::Syntax { position: 4 }
    );
}
