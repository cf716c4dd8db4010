//! Mass evaluation: symbols resolve through abbreviations (and, for chains,
//! residue letters) down to element weights, and counts multiply.

use vstd::prelude::*;
use crate::formula::{Atom, Token, FormulaError, atoms_of, tokenize, parse_molecular_formula};
use crate::table::{WeightTable, FormulaTable, lookup};

verus! {

/// Nesting of abbreviation expansions past which evaluation stops and
/// reports a cyclic expansion.
pub const MAX_DEPTH: u32 = 64;

/// Largest mass, in nanodaltons, that an evaluation reports.
pub const MASS_LIMIT: u128 = 1000000000000000000000000000000000000;

/// Element weights in nanodaltons, keyed by symbol.
pub type Weights = Seq<(Seq<char>, nat)>;

/// Formulas keyed by an abbreviation or a residue letter.
pub type Formulas = Seq<(Seq<char>, Seq<Atom>)>;

/// Which weight of each element an evaluation uses.
#[derive(Clone, Copy, Debug, PartialEq, Eq, Structural)]
pub enum WeightMode {
    /// Monoisotopic weights.
    Exact,
    /// Natural-abundance average weights.
    Average,
}

/// How the letters of a formula are read.
#[derive(Clone, Copy, Debug, PartialEq, Eq, Structural)]
pub enum Chain {
    /// An elemental formula with abbreviations.
    Plain,
    /// A peptide: letters are amino-acid residues.
    Protein,
    /// A DNA strand: letters are deoxyribonucleotide residues.
    Dna,
    /// An RNA strand: letters are ribonucleotide residues.
    Rna,
}

/// The mathematical form of an evaluation failure.
pub enum Fault {
    Syntax(usize),
    CountOverflow(usize),
    UnknownSymbol(Seq<char>),
    CyclicExpansion(Seq<char>),
    MassOverflow,
    NegativeMass,
}

/// Why a formula has no mass.
#[derive(Debug)]
pub enum MassError {
    /// The formula is malformed at this character position.
    Syntax { position: usize },
    /// A count at this character position exceeds `MAX_COUNT`.
    CountOverflow { position: usize },
    /// The symbol is in none of the tables that apply.
    UnknownSymbol { symbol: String },
    /// Expanding the symbol went deeper than `MAX_DEPTH` abbreviations.
    CyclicExpansion { symbol: String },
    /// The mass exceeds `MASS_LIMIT`.
    MassOverflow,
    /// The water lost by a chain outweighs its residues.
    NegativeMass,
}

impl View for MassError {
    type V = Fault;

    open spec fn view(&self) -> Fault {
        match self {
            MassError::Syntax { position } => Fault::Syntax(*position),
            MassError::CountOverflow { position } => Fault::CountOverflow(*position),
            MassError::UnknownSymbol { symbol } => Fault::UnknownSymbol(symbol@),
            MassError::CyclicExpansion { symbol } => Fault::CyclicExpansion(symbol@),
            MassError::MassOverflow => Fault::MassOverflow,
            MassError::NegativeMass => Fault::NegativeMass,
        }
    }
}

/// The mass of one symbol: an abbreviation is the mass of its expansion,
/// otherwise the symbol is an element. `fuel` is the number of expansions
/// still allowed.
pub open spec fn symbol_mass(w: Weights, abbr: Formulas, sym: Seq<char>, fuel: nat) -> Result<int, Fault>
    decreases fuel, 0nat,
{
    match lookup(abbr, sym) {
        Some(expansion) => {
            if fuel == 0 {
                Err(Fault::CyclicExpansion(sym))
            } else {
                atoms_mass(w, abbr, expansion, (fuel - 1) as nat)
            }
        },
        None => match lookup(w, sym) {
            Some(x) => Ok(x as int),
            None => Err(Fault::UnknownSymbol(sym)),
        },
    }
}

/// The sum of `count × mass(symbol)` over the atoms; the first failure, from
/// the left, wins.
pub open spec fn atoms_mass(w: Weights, abbr: Formulas, atoms: Seq<Atom>, fuel: nat) -> Result<int, Fault>
    decreases fuel, atoms.len() + 1,
{
    if atoms.len() == 0 {
        Ok(0)
    } else {
        match atoms_mass(w, abbr, atoms.drop_last(), fuel) {
            Err(e) => Err(e),
            Ok(a) => match symbol_mass(w, abbr, atoms.last().0, fuel) {
                Err(e) => Err(e),
                Ok(m) => Ok(a + m * atoms.last().1),
            },
        }
    }
}

/// `x`, saturated at `u128::MAX`.
pub open spec fn sat(x: int) -> int {
    if x > u128::MAX {
        u128::MAX as int
    } else {
        x
    }
}

/// An executable result that carries a spec result: a mass saturated at
/// `u128::MAX`, or the same failure.
pub open spec fn agrees(r: Result<u128, MassError>, s: Result<int, Fault>) -> bool {
    match r {
        Ok(u) => s is Ok && s->Ok_0 >= 0 && u == sat(s->Ok_0),
        Err(e) => s == Err::<int, Fault>(e@),
    }
}

proof fn lemma_sat_add(a: int, b: int)
    requires
        a >= 0,
        b >= 0,
    ensures
        sat(sat(a) + sat(b)) == sat(a + b),
{
}

proof fn lemma_sat_mul(a: int, c: int)
    requires
        a >= 0,
        c >= 0,
    ensures
        sat(sat(a) * c) == sat(a * c),
        a * c >= 0,
{
    assert(a * c >= 0) by (nonlinear_arith)
        requires a >= 0, c >= 0;
    if c >= 1 {
        assert(a * c >= a) by (nonlinear_arith)
            requires a >= 0, c >= 1;
        assert(sat(a) * c >= sat(a)) by (nonlinear_arith)
            requires sat(a) >= 0, c >= 1;
    }
}

fn sat_mul(x: u128, c: u128) -> (r: u128)
    ensures
        r == sat(x * c),
{
    match x.checked_mul(c) {
        Some(p) => p,
        None => u128::MAX,
    }
}

proof fn lemma_atoms_mass_err(w: Weights, abbr: Formulas, atoms: Seq<Atom>, fuel: nat, n: int)
    requires
        0 <= n <= atoms.len(),
        atoms_mass(w, abbr, atoms.take(n), fuel) is Err,
    ensures
        atoms_mass(w, abbr, atoms, fuel) == atoms_mass(w, abbr, atoms.take(n), fuel),
    decreases atoms.len() - n,
{
    if n < atoms.len() {
        assert(atoms.take(n + 1).drop_last() =~= atoms.take(n));
        lemma_atoms_mass_err(w, abbr, atoms, fuel, n + 1);
    } else {
        assert(atoms.take(n) =~= atoms);
    }
}

/// The mass of a symbol, as `symbol_mass` states it.
fn eval_symbol(w: &WeightTable, abbr: &FormulaTable, sym: &String, fuel: u32) -> (r: Result<u128, MassError>)
    ensures
        agrees(r, symbol_mass(w@, abbr@, sym@, fuel as nat)),
    decreases fuel, 0nat,
{
    match abbr.formula(sym) {
        Some(toks) => {
            if fuel == 0 {
                Err(MassError::CyclicExpansion { symbol: sym.clone() })
            } else {
                eval_atoms(w, abbr, toks, fuel - 1)
            }
        },
        None => match w.weight(sym) {
            Some(x) => Ok(x as u128),
            None => Err(MassError::UnknownSymbol { symbol: sym.clone() }),
        },
    }
}

/// The mass of a token sequence, as `atoms_mass` states it.
fn eval_atoms(w: &WeightTable, abbr: &FormulaTable, toks: &Vec<Token>, fuel: u32) -> (r: Result<u128, MassError>)
    ensures
        agrees(r, atoms_mass(w@, abbr@, atoms_of(toks@), fuel as nat)),
    decreases fuel, 1nat,
{
    let ghost atoms = atoms_of(toks@);
    let mut acc: u128 = 0;
    let mut i: usize = 0;
    proof {
        assert(atoms.take(0) =~= seq![]);
    }
    while i < toks.len()
        invariant
            i <= toks.len(),
            atoms == atoms_of(toks@),
            atoms_mass(w@, abbr@, atoms.take(i as int), fuel as nat) is Ok,
            atoms_mass(w@, abbr@, atoms.take(i as int), fuel as nat)->Ok_0 >= 0,
            acc == sat(atoms_mass(w@, abbr@, atoms.take(i as int), fuel as nat)->Ok_0),
        decreases toks.len() - i,
    {
        proof {
            assert(atoms.take(i + 1).drop_last() =~= atoms.take(i as int));
            assert(atoms.take(i + 1).last() == atoms[i as int]);
            assert(atoms[i as int] == toks@[i as int]@);
        }
        let m = match eval_symbol(w, abbr, &toks[i].symbol, fuel) {
            Ok(m) => m,
            Err(e) => {
                proof {
                    lemma_atoms_mass_err(w@, abbr@, atoms, fuel as nat, i + 1);
                }
                return Err(e);
            },
        };
        let ghost a = atoms_mass(w@, abbr@, atoms.take(i as int), fuel as nat)->Ok_0;
        let ghost ms = symbol_mass(w@, abbr@, atoms[i as int].0, fuel as nat)->Ok_0;
        let c = toks[i].count;
        proof {
            lemma_sat_mul(ms, c as int);
            lemma_sat_add(a, ms * c);
        }
        acc = acc.saturating_add(sat_mul(m, c as u128));
        i = i + 1;
    }
    proof {
        assert(atoms.take(toks.len() as int) =~= atoms);
    }
    Ok(acc)
}

/// The raw sum of a chain and the number of residues in it: a residue
/// letter contributes the mass of its free monomer, any other symbol its
/// ordinary mass.
pub open spec fn chain_parts(w: Weights, abbr: Formulas, res: Formulas, atoms: Seq<Atom>) -> Result<
    (int, int),
    Fault,
>
    decreases atoms.len(),
{
    if atoms.len() == 0 {
        Ok((0, 0))
    } else {
        match chain_parts(w, abbr, res, atoms.drop_last()) {
            Err(e) => Err(e),
            Ok((a, n)) => {
                let (sym, c) = atoms.last();
                match lookup(res, sym) {
                    Some(monomer) => match atoms_mass(w, abbr, monomer, MAX_DEPTH as nat) {
                        Err(e) => Err(e),
                        Ok(m) => Ok((a + m * c, n + c)),
                    },
                    None => match symbol_mass(w, abbr, sym, MAX_DEPTH as nat) {
                        Err(e) => Err(e),
                        Ok(m) => Ok((a + m * c, n)),
                    },
                }
            },
        }
    }
}

/// The mass of one water molecule, `H2O`.
pub open spec fn water_mass(w: Weights) -> Result<int, Fault> {
    match lookup(w, seq!['H']) {
        None => Err(Fault::UnknownSymbol(seq!['H'])),
        Some(h) => match lookup(w, seq!['O']) {
            None => Err(Fault::UnknownSymbol(seq!['O'])),
            Some(o) => Ok((2 * h + o) as int),
        },
    }
}

/// The mass of a chain: its raw sum, which must not exceed `MASS_LIMIT`,
/// less one water per bond between consecutive residues.
pub open spec fn chain_mass(w: Weights, abbr: Formulas, res: Formulas, atoms: Seq<Atom>) -> Result<int, Fault> {
    match chain_parts(w, abbr, res, atoms) {
        Err(e) => Err(e),
        Ok((raw, n)) => {
            if raw > MASS_LIMIT {
                Err(Fault::MassOverflow)
            } else if n < 2 {
                Ok(raw)
            } else {
                match water_mass(w) {
                    Err(e) => Err(e),
                    Ok(h2o) => {
                        if raw < (n - 1) * h2o {
                            Err(Fault::NegativeMass)
                        } else {
                            Ok(raw - (n - 1) * h2o)
                        }
                    },
                }
            }
        },
    }
}

/// The mass of an elemental formula, with abbreviations expanded.
pub open spec fn plain_mass(w: Weights, abbr: Formulas, atoms: Seq<Atom>) -> Result<int, Fault> {
    match atoms_mass(w, abbr, atoms, MAX_DEPTH as nat) {
        Err(e) => Err(e),
        Ok(m) => {
            if m > MASS_LIMIT {
                Err(Fault::MassOverflow)
            } else {
                Ok(m)
            }
        },
    }
}

/// Every table an evaluation may read.
pub struct Tables {
    pub exact: WeightTable,
    pub average: WeightTable,
    pub abbreviations: FormulaTable,
    pub protein: FormulaTable,
    pub dna: FormulaTable,
    pub rna: FormulaTable,
}

impl Tables {
    pub open spec fn weights(&self, mode: WeightMode) -> Weights {
        match mode {
            WeightMode::Exact => self.exact@,
            WeightMode::Average => self.average@,
        }
    }

    pub open spec fn residues(&self, chain: Chain) -> Option<Formulas> {
        match chain {
            Chain::Plain => None,
            Chain::Protein => Some(self.protein@),
            Chain::Dna => Some(self.dna@),
            Chain::Rna => Some(self.rna@),
        }
    }

    fn weight_table(&self, mode: WeightMode) -> (r: &WeightTable)
        ensures
            r@ == self.weights(mode),
    {
        match mode {
            WeightMode::Exact => &self.exact,
            WeightMode::Average => &self.average,
        }
    }

    fn residue_table(&self, chain: Chain) -> (r: Option<&FormulaTable>)
        ensures
            match r {
                Some(t) => self.residues(chain) == Some(t@),
                None => self.residues(chain) is None,
            },
    {
        match chain {
            Chain::Plain => None,
            Chain::Protein => Some(&self.protein),
            Chain::Dna => Some(&self.dna),
            Chain::Rna => Some(&self.rna),
        }
    }
}

/// The mass of the atoms under a weight mode and a way of reading letters.
pub open spec fn tokens_mass(tables: Tables, atoms: Seq<Atom>, mode: WeightMode, chain: Chain) -> Result<int, Fault> {
    match tables.residues(chain) {
        None => plain_mass(tables.weights(mode), tables.abbreviations@, atoms),
        Some(res) => chain_mass(tables.weights(mode), tables.abbreviations@, res, atoms),
    }
}

/// The mass of a formula string: a tokenizer failure, or the mass of its
/// tokens.
pub open spec fn formula_mass(tables: Tables, formula: Seq<char>, mode: WeightMode, chain: Chain) -> Result<int, Fault> {
    match tokenize(formula) {
        Err(FormulaError::Syntax { position }) => Err(Fault::Syntax(position)),
        Err(FormulaError::CountOverflow { position }) => Err(Fault::CountOverflow(position)),
        Ok(atoms) => tokens_mass(tables, atoms, mode, chain),
    }
}

/// The mathematical form of an executable result.
pub open spec fn outcome(r: Result<u128, MassError>) -> Result<int, Fault> {
    match r {
        Ok(u) => Ok(u as int),
        Err(e) => Err(e@),
    }
}

proof fn lemma_chain_parts_err(w: Weights, abbr: Formulas, res: Formulas, atoms: Seq<Atom>, n: int)
    requires
        0 <= n <= atoms.len(),
        chain_parts(w, abbr, res, atoms.take(n)) is Err,
    ensures
        chain_parts(w, abbr, res, atoms) == chain_parts(w, abbr, res, atoms.take(n)),
    decreases atoms.len() - n,
{
    if n < atoms.len() {
        assert(atoms.take(n + 1).drop_last() =~= atoms.take(n));
        lemma_chain_parts_err(w, abbr, res, atoms, n + 1);
    } else {
        assert(atoms.take(n) =~= atoms);
    }
}

/// The raw sum and the residue count of a chain, both saturated, as
/// `chain_parts` states them.
fn eval_chain_parts(w: &WeightTable, abbr: &FormulaTable, res: &FormulaTable, toks: &Vec<Token>) -> (r: Result<
    (u128, u128),
    MassError,
>)
    ensures
        match r {
            Ok((raw, n)) => {
                let parts = chain_parts(w@, abbr@, res@, atoms_of(toks@));
                &&& parts is Ok
                &&& parts->Ok_0.0 >= 0
                &&& parts->Ok_0.1 >= 0
                &&& raw == sat(parts->Ok_0.0)
                &&& n == sat(parts->Ok_0.1)
            },
            Err(e) => chain_parts(w@, abbr@, res@, atoms_of(toks@)) == Err::<(int, int), Fault>(e@),
        },
{
    let ghost atoms = atoms_of(toks@);
    let mut raw: u128 = 0;
    let mut n: u128 = 0;
    let mut i: usize = 0;
    proof {
        assert(atoms.take(0) =~= seq![]);
    }
    while i < toks.len()
        invariant
            i <= toks.len(),
            atoms == atoms_of(toks@),
            chain_parts(w@, abbr@, res@, atoms.take(i as int)) is Ok,
            chain_parts(w@, abbr@, res@, atoms.take(i as int))->Ok_0.0 >= 0,
            chain_parts(w@, abbr@, res@, atoms.take(i as int))->Ok_0.1 >= 0,
            raw == sat(chain_parts(w@, abbr@, res@, atoms.take(i as int))->Ok_0.0),
            n == sat(chain_parts(w@, abbr@, res@, atoms.take(i as int))->Ok_0.1),
        decreases toks.len() - i,
    {
        proof {
            assert(atoms.take(i + 1).drop_last() =~= atoms.take(i as int));
            assert(atoms.take(i + 1).last() == atoms[i as int]);
            assert(atoms[i as int] == toks@[i as int]@);
        }
        let ghost a = chain_parts(w@, abbr@, res@, atoms.take(i as int))->Ok_0.0;
        let ghost k = chain_parts(w@, abbr@, res@, atoms.take(i as int))->Ok_0.1;
        let c = toks[i].count;
        let (m, is_residue) = match res.formula(&toks[i].symbol) {
            Some(monomer) => match eval_atoms(w, abbr, monomer, MAX_DEPTH) {
                Ok(m) => (m, true),
                Err(e) => {
                    proof {
                        lemma_chain_parts_err(w@, abbr@, res@, atoms, i + 1);
                    }
                    return Err(e);
                },
            },
            None => match eval_symbol(w, abbr, &toks[i].symbol, MAX_DEPTH) {
                Ok(m) => (m, false),
                Err(e) => {
                    proof {
                        lemma_chain_parts_err(w@, abbr@, res@, atoms, i + 1);
                    }
                    return Err(e);
                },
            },
        };
        let ghost ms: int = if is_residue {
            atoms_mass(w@, abbr@, lookup(res@, atoms[i as int].0)->Some_0, MAX_DEPTH as nat)->Ok_0
        } else {
            symbol_mass(w@, abbr@, atoms[i as int].0, MAX_DEPTH as nat)->Ok_0
        };
        proof {
            lemma_sat_mul(ms, c as int);
            lemma_sat_add(a, ms * c);
            lemma_sat_add(k, c as int);
        }
        raw = raw.saturating_add(sat_mul(m, c as u128));
        if is_residue {
            n = n.saturating_add(c as u128);
        }
        i = i + 1;
    }
    proof {
        assert(atoms.take(toks.len() as int) =~= atoms);
    }
    Ok((raw, n))
}

/// The mass of a chain, as `chain_mass` states it.
fn eval_chain(w: &WeightTable, abbr: &FormulaTable, res: &FormulaTable, toks: &Vec<Token>) -> (r: Result<
    u128,
    MassError,
>)
    ensures
        outcome(r) == chain_mass(w@, abbr@, res@, atoms_of(toks@)),
{
    let (raw, n) = match eval_chain_parts(w, abbr, res, toks) {
        Ok(p) => p,
        Err(e) => {
            return Err(e);
        },
    };
    let ghost parts = chain_parts(w@, abbr@, res@, atoms_of(toks@))->Ok_0;
    if raw > MASS_LIMIT {
        return Err(MassError::MassOverflow);
    }
    if n < 2 {
        return Ok(raw);
    }
    let hydrogen = String::from_str("H");
    let oxygen = String::from_str("O");
    proof {
        reveal_strlit("H");
        reveal_strlit("O");
        assert(hydrogen@ =~= seq!['H']);
        assert(oxygen@ =~= seq!['O']);
    }
    let h = match w.weight(&hydrogen) {
        Some(h) => h,
        None => {
            return Err(MassError::UnknownSymbol { symbol: hydrogen });
        },
    };
    let o = match w.weight(&oxygen) {
        Some(o) => o,
        None => {
            return Err(MassError::UnknownSymbol { symbol: oxygen });
        },
    };
    let h2o: u128 = 2 * (h as u128) + o as u128;
    let bonds = sat_mul(n, h2o);
    proof {
        lemma_sat_mul(parts.1, h2o as int);
        assert((parts.1 - 1) * h2o == parts.1 * h2o - h2o) by (nonlinear_arith);
    }
    if bonds > raw + h2o {
        Err(MassError::NegativeMass)
    } else {
        Ok(raw + h2o - bonds)
    }
}

/// The mass, in nanodaltons, of a token sequence under a weight mode and a
/// way of reading letters, as `tokens_mass` states it.
pub fn mass_from_formula(tables: &Tables, tokens: &Vec<Token>, mode: WeightMode, chain: Chain) -> (r: Result<
    u128,
    MassError,
>)
    ensures
        outcome(r) == tokens_mass(*tables, atoms_of(tokens@), mode, chain),
{
    let w = tables.weight_table(mode);
    match tables.residue_table(chain) {
        Some(res) => eval_chain(w, &tables.abbreviations, res, tokens),
        None => match eval_atoms(w, &tables.abbreviations, tokens, MAX_DEPTH) {
            Err(e) => Err(e),
            Ok(m) => {
                if m > MASS_LIMIT {
                    Err(MassError::MassOverflow)
                } else {
                    Ok(m)
                }
            },
        },
    }
}

/// The mass, in nanodaltons, of a formula string under a weight mode and a
/// way of reading letters, as `formula_mass` states it: `H2O` with exact
/// weights gives two hydrogens and one oxygen.
pub fn mass(tables: &Tables, formula: &str, mode: WeightMode, chain: Chain) -> (r: Result<
    u128,
    MassError,
>)
    ensures
        outcome(r) == formula_mass(*tables, formula@, mode, chain),
{
    match parse_molecular_formula(formula) {
        Err(FormulaError::Syntax { position }) => Err(MassError::Syntax { position }),
        Err(FormulaError::CountOverflow { position }) => Err(MassError::CountOverflow { position }),
        Ok(tokens) => mass_from_formula(tables, &tokens, mode, chain),
    }
}

} // verus!
