use molecular_weight_calculator::formula::{parse_molecular_formula, Token};
use molecular_weight_calculator::mass::{
    mass, mass_from_formula, Chain, MassError, Tables, WeightMode, MASS_LIMIT,
};
use molecular_weight_calculator::table::{load_formula_table, load_weight_table, FormulaTable};

// Exact weights in nanodaltons, as the exact table below reads them.
const H: u128 = 1_007_825_032;
const C: u128 = 12_000_000_000;
const N: u128 = 14_003_074_004;
const O: u128 = 15_994_914_619;
const P: u128 = 30_973_761_630;
const S: u128 = 31_972_071_000;
const WATER: u128 = 2 * H + O;

const EXACT: &str = "element,weight\n\
H,1.00782503207\n\
C,12.0000000\n\
N,14.0030740048\n\
O,15.99491461956\n\
P,30.97376163\n\
S,31.97207100\n";

const AVERAGE: &str = "element,weight\n\
H,1.00794\n\
C,12.0107\n\
N,14.0067\n\
O,15.9994\n\
P,30.973762\n\
S,32.065\n";

const ABBREVIATIONS: &str = "abbreviation,formula\n\
Me,CH3\n\
Et,C2H5\n\
Xa,Yb\n\
Yb,Xa\n";

const AMINO: &str = "letter,formula\n\
A,C3H7NO2\n\
C,C3H7NO2S\n\
G,C2H5NO2\n";

const DNA: &str = "letter,formula\n\
A,C10H14N5O6P\n\
T,C10H15N2O8P\n\
G,C10H14N5O7P\n\
C,C9H14N3O7P\n";

const RNA: &str = "letter,formula\n\
A,C10H14N5O7P\n\
U,C9H13N2O9P\n\
G,C10H14N5O8P\n\
C,C9H14N3O8P\n";

fn formulas(data: &str) -> FormulaTable {
    let key = if data.starts_with("letter") { "letter" } else { "abbreviation" };
    load_formula_table(data.as_bytes(), key, "formula").unwrap()
}

fn tables() -> Tables {
    Tables {
        exact: load_weight_table(EXACT.as_bytes(), "element", "weight").unwrap(),
        average: load_weight_table(AVERAGE.as_bytes(), "element", "weight").unwrap(),
        abbreviations: formulas(ABBREVIATIONS),
        protein: formulas(AMINO),
        dna: formulas(DNA),
        rna: formulas(RNA),
    }
}

fn exact(formula: &str) -> u128 {
    mass(&tables(), formula, WeightMode::Exact, Chain::Plain).unwrap()
}

#[test]
fn water_exact_mass() {
    let m = exact("H2O");
    assert_eq!(m, 18_010_564_683);
    assert_eq!(m, WATER);
    assert!((m as f64 / 1e9 - 18.0106).abs() < 1e-4);
}

#[test]
fn glucose_average_mass() {
    let m = mass(&tables(), "C6H12O6", WeightMode::Average, Chain::Plain).unwrap();
    assert_eq!(m, 180_155_880_000);
    assert!((m as f64 / 1e9 - 180.16).abs() < 0.01);
}

#[test]
fn mass_is_sum_of_count_times_weight() {
    assert_eq!(exact("C6H12O6"), 6 * C + 12 * H + 6 * O);
    assert_eq!(exact("CNOS"), C + N + O + S);
}

#[test]
fn order_does_not_change_mass() {
    assert_eq!(exact("H2O"), exact("OH2"));
    assert_eq!(exact("C6H12O6"), exact("O6H12C6"));
}

#[test]
fn evaluating_twice_gives_the_same_mass() {
    let t = tables();
    for mode in [WeightMode::Exact, WeightMode::Average] {
        let first = mass(&t, "C2H5OH", mode, Chain::Plain).unwrap();
        let second = mass(&t, "C2H5OH", mode, Chain::Plain).unwrap();
        assert_eq!(first, second);
    }
    assert_ne!(
        mass(&t, "H2O", WeightMode::Exact, Chain::Plain).unwrap(),
        mass(&t, "H2O", WeightMode::Average, Chain::Plain).unwrap()
    );
}

#[test]
fn groups_multiply_out() {
    assert_eq!(exact("(CH3)2"), exact("C2H6"));
    assert_eq!(exact("(CH3)2"), 2 * C + 6 * H);
}

#[test]
fn abbreviation_weighs_its_expansion() {
    assert_eq!(exact("Me"), exact("CH3"));
    assert_eq!(exact("Me2"), exact("C2H6"));
    assert_eq!(exact("EtOH"), exact("C2H5OH"));
    assert_eq!(exact("(Me)3C"), 4 * C + 9 * H);
}

#[test]
fn cyclic_abbreviations_fail() {
    match mass(&tables(), "Xa", WeightMode::Exact, Chain::Plain) {
        Err(MassError::CyclicExpansion { symbol }) => {
            assert!(symbol == "Xa" || symbol == "Yb");
        }
        other => panic!("expected a cyclic expansion, got {:?}", other),
    }
}

#[test]
fn unknown_symbol_is_named() {
    match mass(&tables(), "Zz9", WeightMode::Exact, Chain::Plain) {
        Err(MassError::UnknownSymbol { symbol }) => assert_eq!(symbol, "Zz"),
        other => panic!("expected an unknown symbol, got {:?}", other),
    }
    match mass(&tables(), "H2Qq", WeightMode::Exact, Chain::Plain) {
        Err(MassError::UnknownSymbol { symbol }) => assert_eq!(symbol, "Qq"),
        other => panic!("expected an unknown symbol, got {:?}", other),
    }
}

#[test]
fn empty_formula_fails_with_syntax_error() {
    assert!(matches!(
        mass(&tables(), "", WeightMode::Exact, Chain::Plain),
        Err(MassError::Syntax { position: 0 })
    ));
    assert!(matches!(
        mass(&tables(), "(H2O", WeightMode::Average, Chain::Plain),
        Err(MassError::Syntax { position: 0 })
    ));
    assert!(matches!(
        mass(&tables(), "H2000000", WeightMode::Exact, Chain::Plain),
        Err(MassError::CountOverflow { position: 1 })
    ));
}

#[test]
fn peptide_loses_water_per_bond() {
    let t = tables();
    let ala = 3 * C + 7 * H + N + 2 * O;
    let cys = ala + S;
    assert_eq!(mass(&t, "A", WeightMode::Exact, Chain::Protein).unwrap(), ala);
    assert_eq!(
        mass(&t, "AA", WeightMode::Exact, Chain::Protein).unwrap(),
        2 * ala - WATER
    );
    assert_eq!(
        mass(&t, "AC", WeightMode::Exact, Chain::Protein).unwrap(),
        ala + cys - WATER
    );
    assert_eq!(
        mass(&t, "A3", WeightMode::Exact, Chain::Protein).unwrap(),
        3 * ala - 2 * WATER
    );
}

#[test]
fn dna_loses_three_waters_over_four_residues() {
    let t = tables();
    let da = 10 * C + 14 * H + 5 * N + 6 * O + P;
    let dt = 10 * C + 15 * H + 2 * N + 8 * O + P;
    let dg = 10 * C + 14 * H + 5 * N + 7 * O + P;
    let dc = 9 * C + 14 * H + 3 * N + 7 * O + P;
    assert_eq!(
        mass(&t, "ATGC", WeightMode::Exact, Chain::Dna).unwrap(),
        da + dt + dg + dc - 3 * WATER
    );
}

#[test]
fn rna_reads_uracil() {
    let t = tables();
    let u = 9 * C + 13 * H + 2 * N + 9 * O + P;
    let a = 10 * C + 14 * H + 5 * N + 7 * O + P;
    assert_eq!(
        mass(&t, "AU", WeightMode::Exact, Chain::Rna).unwrap(),
        a + u - WATER
    );
    assert!(matches!(
        mass(&t, "AT", WeightMode::Exact, Chain::Rna),
        Err(MassError::UnknownSymbol { .. })
    ));
}

#[test]
fn chain_mode_resolves_residues_before_elements() {
    let t = tables();
    // In a peptide, C is cysteine; in a plain formula it is carbon.
    let cys = 3 * C + 7 * H + N + 2 * O + S;
    assert_eq!(mass(&t, "C", WeightMode::Exact, Chain::Protein).unwrap(), cys);
    assert_eq!(mass(&t, "C", WeightMode::Exact, Chain::Plain).unwrap(), C);
}

#[test]
fn chain_without_water_weights_fails() {
    let mut t = tables();
    t.exact = load_weight_table(b"element,weight\nC,12\nN,14\nO,16\n", "element", "weight").unwrap();
    t.protein = formulas("letter,formula\nA,CNO\n");
    assert_eq!(
        mass(&t, "A", WeightMode::Exact, Chain::Protein).unwrap(),
        42_000_000_000
    );
    match mass(&t, "AA", WeightMode::Exact, Chain::Protein) {
        Err(MassError::UnknownSymbol { symbol }) => assert_eq!(symbol, "H"),
        other => panic!("expected an unknown symbol, got {:?}", other),
    }
}

#[test]
fn chain_lighter_than_its_water_fails() {
    let mut t = tables();
    t.protein = formulas("letter,formula\nA,H\n");
    assert!(matches!(
        mass(&t, "AA", WeightMode::Exact, Chain::Protein),
        Err(MassError::NegativeMass)
    ));
}

#[test]
fn huge_masses_overflow() {
    let mut t = tables();
    t.exact = load_weight_table(b"element,weight\nXx,18446744073.709551615\n", "element", "weight")
        .unwrap();
    t.abbreviations = formulas(
        "abbreviation,formula\nAa,Xx1000000\nBb,Aa1000000\nCc,Bb1000000\nDd,Cc1000000\n",
    );
    let bb = mass(&t, "Bb", WeightMode::Exact, Chain::Plain).unwrap();
    assert_eq!(bb, u64::MAX as u128 * 1_000_000_000_000);
    assert!(bb <= MASS_LIMIT);
    assert!(matches!(
        mass(&t, "Cc", WeightMode::Exact, Chain::Plain),
        Err(MassError::MassOverflow)
    ));
    assert!(matches!(
        mass(&t, "Dd1000000", WeightMode::Exact, Chain::Plain),
        Err(MassError::MassOverflow)
    ));
}

#[test]
fn mass_of_tokens_matches_mass_of_text() {
    let t = tables();
    let tokens: Vec<Token> = parse_molecular_formula("C2H5OH").unwrap();
    assert_eq!(
        mass_from_formula(&t, &tokens, WeightMode::Exact, Chain::Plain).unwrap(),
        exact("C2H5OH")
    );
    let built = vec![
        Token { symbol: "O".to_string(), count: 1 },
        Token { symbol: "H".to_string(), count: 2 },
    ];
    assert_eq!(
        mass_from_formula(&t, &built, WeightMode::Exact, Chain::Plain).unwrap(),
        WATER
    );
}

#[test]
fn long_peptide_is_evaluated() {
    let t = tables();
    let ala = 3 * C + 7 * H + N + 2 * O;
    let chain = "A".repeat(20_000);
    assert_eq!(
        mass(&t, &chain, WeightMode::Exact, Chain::Protein).unwrap(),
        20_000 * ala - 19_999 * WATER
    );
}
