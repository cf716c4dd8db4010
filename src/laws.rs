//! Properties that hold of every evaluation, stated over the spec functions
//! that the executable functions' contracts use.

use vstd::prelude::*;
use crate::formula::{
    MAX_NESTING, Atom, FormulaError, tokenize, parse_units, digit_run, digits_value, digit_value,
    count_at, lower_run,
};
use crate::table::lookup;
use crate::mass::{
    Weights, Formulas, Fault, Tables, WeightMode, Chain, MassError, MAX_DEPTH, MASS_LIMIT,
    symbol_mass, atoms_mass, chain_parts, chain_mass, tokens_mass, formula_mass, water_mass, outcome,
};

verus! {

/// Every symbol of `atoms` is an element: no abbreviation, and a weight.
pub open spec fn is_elemental(w: Weights, abbr: Formulas, atoms: Seq<Atom>) -> bool {
    forall|i: int|
        0 <= i < atoms.len() ==> lookup(abbr, #[trigger] atoms[i].0) is None && lookup(
            w,
            atoms[i].0,
        ) is Some
}

/// The sum of `count × weight` over the atoms.
pub open spec fn leaf_sum(w: Weights, atoms: Seq<Atom>) -> int
    decreases atoms.len(),
{
    if atoms.len() == 0 {
        0
    } else {
        leaf_sum(w, atoms.drop_last()) + atoms.last().1 * lookup(w, atoms.last().0)->Some_0
    }
}

/// The mass of an elemental formula is the sum of `count × weight` over its
/// atoms.
pub proof fn lemma_elemental_mass(w: Weights, abbr: Formulas, atoms: Seq<Atom>, fuel: nat)
    requires
        is_elemental(w, abbr, atoms),
    ensures
        atoms_mass(w, abbr, atoms, fuel) == Ok::<int, Fault>(leaf_sum(w, atoms)),
    decreases atoms.len(),
{
    if atoms.len() > 0 {
        let init = atoms.drop_last();
        assert(is_elemental(w, abbr, init)) by {
            assert forall|i: int| 0 <= i < init.len() implies lookup(abbr, #[trigger] init[i].0) is None
                && lookup(w, init[i].0) is Some by {
                assert(init[i] == atoms[i]);
            }
        }
        lemma_elemental_mass(w, abbr, init, fuel);
        let (sym, c) = atoms.last();
        assert(atoms.last() == atoms[atoms.len() - 1]);
        assert(lookup(abbr, sym) is None);
        let m = lookup(w, sym)->Some_0;
        assert(symbol_mass(w, abbr, sym, fuel) == Ok::<int, Fault>(m as int));
        assert(m * c == c * m) by (nonlinear_arith);
    }
}

/// The mass of two atom sequences, one after the other: the first failure
/// from the left, or the sum.
pub open spec fn joined(x: Result<int, Fault>, y: Result<int, Fault>) -> Result<int, Fault> {
    match x {
        Err(e) => Err(e),
        Ok(a) => match y {
            Err(e) => Err(e),
            Ok(b) => Ok(a + b),
        },
    }
}

/// The mass of a concatenation joins the masses of its parts.
pub proof fn lemma_mass_concat(w: Weights, abbr: Formulas, a: Seq<Atom>, b: Seq<Atom>, fuel: nat)
    ensures
        atoms_mass(w, abbr, a + b, fuel) == joined(
            atoms_mass(w, abbr, a, fuel),
            atoms_mass(w, abbr, b, fuel),
        ),
    decreases b.len(),
{
    if b.len() == 0 {
        assert(a + b =~= a);
    } else {
        assert((a + b).drop_last() =~= a + b.drop_last());
        assert((a + b).last() == b.last());
        lemma_mass_concat(w, abbr, a, b.drop_last(), fuel);
    }
}

/// Order does not change a mass: where `a` then `b` has a mass, `b` then
/// `a` has the same one.
pub proof fn lemma_order_independent(tables: Tables, a: Seq<Atom>, b: Seq<Atom>, mode: WeightMode)
    requires
        tokens_mass(tables, a + b, mode, Chain::Plain) is Ok,
    ensures
        tokens_mass(tables, b + a, mode, Chain::Plain) == tokens_mass(tables, a + b, mode, Chain::Plain),
{
    let w = tables.weights(mode);
    let abbr = tables.abbreviations@;
    lemma_mass_concat(w, abbr, a, b, MAX_DEPTH as nat);
    lemma_mass_concat(w, abbr, b, a, MAX_DEPTH as nat);
}

/// Two evaluations of one formula, in one mode, against the same tables give
/// the same result.
pub proof fn lemma_deterministic(
    tables: Tables,
    formula: Seq<char>,
    mode: WeightMode,
    chain: Chain,
    r1: Result<u128, MassError>,
    r2: Result<u128, MassError>,
)
    requires
        outcome(r1) == formula_mass(tables, formula, mode, chain),
        outcome(r2) == formula_mass(tables, formula, mode, chain),
    ensures
        r1 is Ok <==> r2 is Ok,
        r1 is Ok ==> r1->Ok_0 == r2->Ok_0,
        r1 is Err ==> r1->Err_0@ == r2->Err_0@,
{
}

proof fn lemma_symbol_fuel(w: Weights, abbr: Formulas, sym: Seq<char>, fuel: nat)
    requires
        symbol_mass(w, abbr, sym, fuel) is Ok,
    ensures
        symbol_mass(w, abbr, sym, fuel + 1) == symbol_mass(w, abbr, sym, fuel),
    decreases fuel, 0nat,
{
    if lookup(abbr, sym) is Some && fuel > 0 {
        lemma_atoms_fuel(w, abbr, lookup(abbr, sym)->Some_0, (fuel - 1) as nat);
    }
}

proof fn lemma_atoms_fuel(w: Weights, abbr: Formulas, atoms: Seq<Atom>, fuel: nat)
    requires
        atoms_mass(w, abbr, atoms, fuel) is Ok,
    ensures
        atoms_mass(w, abbr, atoms, fuel + 1) == atoms_mass(w, abbr, atoms, fuel),
    decreases fuel, atoms.len() + 1,
{
    if atoms.len() > 0 {
        lemma_atoms_fuel(w, abbr, atoms.drop_last(), fuel);
        lemma_symbol_fuel(w, abbr, atoms.last().0, fuel);
    }
}

/// An abbreviation weighs what its expansion weighs.
pub proof fn lemma_expansion_equivalence(
    tables: Tables,
    abbreviation: Seq<char>,
    expansion: Seq<Atom>,
    mode: WeightMode,
)
    requires
        lookup(tables.abbreviations@, abbreviation) == Some(expansion),
        tokens_mass(tables, seq![(abbreviation, 1nat)], mode, Chain::Plain) is Ok,
    ensures
        tokens_mass(tables, expansion, mode, Chain::Plain) == tokens_mass(
            tables,
            seq![(abbreviation, 1nat)],
            mode,
            Chain::Plain,
        ),
{
    let w = tables.weights(mode);
    let abbr = tables.abbreviations@;
    let single = seq![(abbreviation, 1nat)];
    let fuel = MAX_DEPTH as nat;
    assert(single.drop_last() =~= Seq::<Atom>::empty());
    assert(single.last() == (abbreviation, 1nat));
    assert(atoms_mass(w, abbr, Seq::<Atom>::empty(), fuel) == Ok::<int, Fault>(0));
    assert(symbol_mass(w, abbr, abbreviation, fuel) == atoms_mass(w, abbr, expansion, (fuel - 1) as nat));
    assert(atoms_mass(w, abbr, single, fuel) is Ok);
    let m = symbol_mass(w, abbr, abbreviation, fuel)->Ok_0;
    assert(atoms_mass(w, abbr, single, fuel) == Ok::<int, Fault>(0 + m * 1));
    lemma_atoms_fuel(w, abbr, expansion, (fuel - 1) as nat);
}

/// Two abbreviations that expand into each other fail with a cyclic
/// expansion, whatever the fuel.
pub proof fn lemma_cycle_fails(w: Weights, abbr: Formulas, x: Seq<char>, y: Seq<char>, fuel: nat)
    requires
        lookup(abbr, x) == Some(seq![(y, 1nat)]),
        lookup(abbr, y) == Some(seq![(x, 1nat)]),
    ensures
        symbol_mass(w, abbr, x, fuel) == Err::<int, Fault>(Fault::CyclicExpansion(x))
            || symbol_mass(w, abbr, x, fuel) == Err::<int, Fault>(Fault::CyclicExpansion(y)),
    decreases fuel,
{
    if fuel > 0 {
        lemma_cycle_fails(w, abbr, y, x, (fuel - 1) as nat);
        let single = seq![(y, 1nat)];
        assert(single.drop_last() =~= Seq::<Atom>::empty());
        assert(single.last() == (y, 1nat));
        assert(atoms_mass(w, abbr, Seq::<Atom>::empty(), (fuel - 1) as nat) == Ok::<int, Fault>(0));
        assert(symbol_mass(w, abbr, x, fuel) == atoms_mass(w, abbr, single, (fuel - 1) as nat));
    }
}

/// A formula made of two mutually expanding abbreviations fails with a
/// cyclic expansion.
pub proof fn lemma_cyclic_abbreviations(tables: Tables, x: Seq<char>, y: Seq<char>, mode: WeightMode)
    requires
        lookup(tables.abbreviations@, x) == Some(seq![(y, 1nat)]),
        lookup(tables.abbreviations@, y) == Some(seq![(x, 1nat)]),
    ensures
        tokens_mass(tables, seq![(x, 1nat)], mode, Chain::Plain) == Err::<int, Fault>(
            Fault::CyclicExpansion(x),
        ) || tokens_mass(tables, seq![(x, 1nat)], mode, Chain::Plain) == Err::<int, Fault>(
            Fault::CyclicExpansion(y),
        ),
{
    let w = tables.weights(mode);
    let abbr = tables.abbreviations@;
    lemma_cycle_fails(w, abbr, x, y, MAX_DEPTH as nat);
    let single = seq![(x, 1nat)];
    assert(single.drop_last() =~= Seq::<Atom>::empty());
    assert(single.last() == (x, 1nat));
    assert(atoms_mass(w, abbr, Seq::<Atom>::empty(), MAX_DEPTH as nat) == Ok::<int, Fault>(0));
}

/// A symbol in no table fails with an unknown symbol that names it.
pub proof fn lemma_unknown_symbol(tables: Tables, sym: Seq<char>, count: nat, mode: WeightMode)
    requires
        lookup(tables.abbreviations@, sym) is None,
        lookup(tables.weights(mode), sym) is None,
    ensures
        tokens_mass(tables, seq![(sym, count)], mode, Chain::Plain) == Err::<int, Fault>(
            Fault::UnknownSymbol(sym),
        ),
{
    let w = tables.weights(mode);
    let abbr = tables.abbreviations@;
    let single = seq![(sym, count)];
    assert(single.drop_last() =~= Seq::<Atom>::empty());
    assert(single.last() == (sym, count));
    assert(atoms_mass(w, abbr, Seq::<Atom>::empty(), MAX_DEPTH as nat) == Ok::<int, Fault>(0));
}

/// The mass of the free monomer that a residue letter stands for.
pub open spec fn residue_mass(tables: Tables, letter: Seq<char>, mode: WeightMode, chain: Chain) -> Result<
    int,
    Fault,
> {
    atoms_mass(
        tables.weights(mode),
        tables.abbreviations@,
        lookup(tables.residues(chain)->Some_0, letter)->Some_0,
        MAX_DEPTH as nat,
    )
}

/// A chain of one residue weighs its free monomer; a chain of two such
/// residues weighs twice that, less one water for the bond between them.
pub proof fn lemma_chain_correction(
    tables: Tables,
    letter: Seq<char>,
    mode: WeightMode,
    chain: Chain,
    m: int,
    h2o: int,
)
    requires
        tables.residues(chain) is Some,
        lookup(tables.residues(chain)->Some_0, letter) is Some,
        residue_mass(tables, letter, mode, chain) == Ok::<int, Fault>(m),
        water_mass(tables.weights(mode)) == Ok::<int, Fault>(h2o),
        0 <= m,
        2 * m <= MASS_LIMIT,
        h2o <= 2 * m,
    ensures
        tokens_mass(tables, seq![(letter, 1nat)], mode, chain) == Ok::<int, Fault>(m),
        tokens_mass(tables, seq![(letter, 1nat), (letter, 1nat)], mode, chain) == Ok::<int, Fault>(
            2 * m - h2o,
        ),
{
    let w = tables.weights(mode);
    let abbr = tables.abbreviations@;
    let res = tables.residues(chain)->Some_0;
    let one = seq![(letter, 1nat)];
    let two = seq![(letter, 1nat), (letter, 1nat)];
    assert(one.drop_last() =~= Seq::<Atom>::empty());
    assert(two.drop_last() =~= one);
    assert(one.last() == (letter, 1nat));
    assert(two.last() == (letter, 1nat));
    assert(chain_parts(w, abbr, res, Seq::<Atom>::empty()) == Ok::<(int, int), Fault>((0, 0)));
    let monomer = lookup(res, letter)->Some_0;
    assert(lookup(res, letter) == Some(monomer));
    assert(atoms_mass(w, abbr, monomer, MAX_DEPTH as nat) == Ok::<int, Fault>(m));
    assert(m * 1nat == m);
    assert(chain_parts(w, abbr, res, one) == Ok::<(int, int), Fault>((m, 1)));
    assert(chain_parts(w, abbr, res, two) == Ok::<(int, int), Fault>((2 * m, 2)));
    assert(chain_mass(w, abbr, res, two) == Ok::<int, Fault>(2 * m - h2o));
}

/// Two equal uppercase letters tokenize to that letter twice.
pub proof fn lemma_tokenize_letter_pair(s: Seq<char>)
    requires
        s.len() == 2,
        'A' <= s[0] <= 'Z',
        s[1] == s[0],
    ensures
        tokenize(s) == Ok::<Seq<Atom>, FormulaError>(
            seq![(seq![s[0]], 1nat), (seq![s[0]], 1nat)],
        ),
{
    assert(digit_run(s, 1) == 0);
    assert(digit_run(s, 2) == 0);
    assert(count_at(s, 1) == Ok::<nat, FormulaError>(1));
    assert(count_at(s, 2) == Ok::<nat, FormulaError>(1));
    assert(parse_units(s, 2, MAX_NESTING as nat) == Ok::<(Seq<Atom>, nat), FormulaError>((seq![], 0)));
    assert(s.subrange(1, 2) =~= seq![s[0]]);
    assert(s.subrange(0, 1) =~= seq![s[0]]);
    assert(seq![(seq![s[0]], 1nat)] + seq![] =~= seq![(seq![s[0]], 1nat)]);
    assert(parse_units(s, 1, MAX_NESTING as nat) == Ok::<(Seq<Atom>, nat), FormulaError>(
        (seq![(seq![s[0]], 1nat)], 1),
    ));
    assert(seq![(seq![s[0]], 1nat)] + seq![(seq![s[0]], 1nat)] =~= seq![(seq![s[0]], 1nat), (seq![s[0]], 1nat)]);
    assert(parse_units(s, 0, MAX_NESTING as nat) == Ok::<(Seq<Atom>, nat), FormulaError>(
        (seq![(seq![s[0]], 1nat), (seq![s[0]], 1nat)], 2),
    ));
}

/// One uppercase letter tokenizes to that letter once.
pub proof fn lemma_tokenize_letter(s: Seq<char>)
    requires
        s.len() == 1,
        'A' <= s[0] <= 'Z',
    ensures
        tokenize(s) == Ok::<Seq<Atom>, FormulaError>(seq![(seq![s[0]], 1nat)]),
{
    assert(digit_run(s, 1) == 0);
    assert(count_at(s, 1) == Ok::<nat, FormulaError>(1));
    assert(parse_units(s, 1, MAX_NESTING as nat) == Ok::<(Seq<Atom>, nat), FormulaError>((seq![], 0)));
    assert(s.subrange(0, 1) =~= seq![s[0]]);
    assert(seq![(seq![s[0]], 1nat)] + seq![] =~= seq![(seq![s[0]], 1nat)]);
}

/// Read as a chain, a residue letter weighs its free monomer, and the same
/// letter twice weighs twice that less one water: for a peptide,
/// `mass("A") == residue mass of A` and `mass("AA") == 2 × residue mass of A − water`.
pub proof fn lemma_chain_formula_correction(
    tables: Tables,
    letter: char,
    mode: WeightMode,
    chain: Chain,
    m: int,
    h2o: int,
)
    requires
        'A' <= letter <= 'Z',
        tables.residues(chain) is Some,
        lookup(tables.residues(chain)->Some_0, seq![letter]) is Some,
        residue_mass(tables, seq![letter], mode, chain) == Ok::<int, Fault>(m),
        water_mass(tables.weights(mode)) == Ok::<int, Fault>(h2o),
        0 <= m,
        2 * m <= MASS_LIMIT,
        h2o <= 2 * m,
    ensures
        formula_mass(tables, seq![letter], mode, chain) == Ok::<int, Fault>(m),
        formula_mass(tables, seq![letter, letter], mode, chain) == Ok::<int, Fault>(2 * m - h2o),
{
    let one = seq![letter];
    let two = seq![letter, letter];
    lemma_tokenize_letter(one);
    lemma_tokenize_letter_pair(two);
    assert(seq![one[0]] =~= one);
    assert(seq![two[0]] =~= one);
    lemma_chain_correction(tables, one, mode, chain, m, h2o);
}

/// A formula of one two-letter symbol and a one-digit count, such as `Zz9`,
/// fails with an unknown symbol naming those two letters where no table
/// holds them.
pub proof fn lemma_unknown_symbol_formula(tables: Tables, s: Seq<char>, mode: WeightMode)
    requires
        s.len() == 3,
        'A' <= s[0] <= 'Z',
        'a' <= s[1] <= 'z',
        '1' <= s[2] <= '9',
        lookup(tables.abbreviations@, s.subrange(0, 2)) is None,
        lookup(tables.weights(mode), s.subrange(0, 2)) is None,
    ensures
        formula_mass(tables, s, mode, Chain::Plain) == Err::<int, Fault>(
            Fault::UnknownSymbol(s.subrange(0, 2)),
        ),
{
    let d = digit_value(s[2]);
    assert(lower_run(s, 1) == 1);
    assert(digit_run(s, 3) == 0);
    assert(digit_run(s, 2) == 1);
    assert(digits_value(s, 2, 0) == 0);
    assert(digits_value(s, 2, 1) == d);
    assert(count_at(s, 2) == Ok::<nat, FormulaError>(d));
    assert(parse_units(s, 3, MAX_NESTING as nat) == Ok::<(Seq<Atom>, nat), FormulaError>((seq![], 0)));
    assert(seq![(s.subrange(0, 2), d)] + seq![] =~= seq![(s.subrange(0, 2), d)]);
    assert(tokenize(s) == Ok::<Seq<Atom>, FormulaError>(seq![(s.subrange(0, 2), d)]));
    lemma_unknown_symbol(tables, s.subrange(0, 2), d, mode);
}

} // verus!
