//! Lookup tables: element weights, and formulas keyed by an abbreviation or
//! a residue letter. Tables are read from CSV data with named columns.

use vstd::prelude::*;
use crate::formula::{
    Atom, Token, FormulaError, MAX_COUNT, atoms_of, digit_run, digits_value, tokenize,
    parse_molecular_formula, chars_of, digit_run_at, lemma_digit_run_digits,
    lemma_digits_value_mono,
};

verus! {

/// Nanodaltons in one dalton: the fixed-point scale of every weight and mass.
pub const NANO_PER_DALTON: u64 = 1000000000;

/// Why a table could not be built from its rows; rows are numbered from the
/// header row, which is row 0.
#[derive(Clone, Copy, Debug, PartialEq, Eq, Structural)]
pub enum TableLoadError {
    /// The data is not well-formed CSV.
    Unreadable,
    /// The header row lacks a column the table needs, or there is no header.
    MissingColumn,
    /// The row has no field under one of the table's columns.
    ShortRow { row: usize },
    /// The row repeats the key of an earlier row.
    DuplicateKey { row: usize },
    /// The row's weight is not a decimal number of at most `u64::MAX` nanodaltons.
    BadWeight { row: usize },
    /// The row's formula does not tokenize.
    BadFormula { row: usize, error: FormulaError },
}

pub open spec fn pow10(k: nat) -> nat
    decreases k,
{
    if k == 0 {
        1
    } else {
        10 * pow10((k - 1) as nat)
    }
}

/// The nanodaltons written by a decimal number `digits[.digits]`; fraction
/// digits past the ninth are dropped.
pub open spec fn decimal_nano(s: Seq<char>) -> Option<nat> {
    let a: int = digit_run(s, 0) as int;
    let f: int = digit_run(s, a + 1) as int;
    let k: int = if f < 9 {
        f
    } else {
        9
    };
    let whole: int = digits_value(s, 0, a as nat) * NANO_PER_DALTON;
    let value: int = if a == s.len() {
        whole
    } else {
        whole + digits_value(s, a + 1, k as nat) * pow10((9 - k) as nat)
    };
    if a == 0 {
        None
    } else if a < s.len() && !(s[a] == '.' && f > 0 && a + 1 + f == s.len()) {
        None
    } else if value > u64::MAX {
        None
    } else {
        Some(value as nat)
    }
}

/// The value of `n` digits from `i`, where it is at most `bound`.
fn digits_bounded(cs: &Vec<char>, i: usize, n: usize, bound: u128) -> (r: Option<u128>)
    requires
        i + n <= cs.len(),
        n <= digit_run(cs@, i as int),
        bound <= u64::MAX,
    ensures
        match r {
            Some(v) => v == digits_value(cs@, i as int, n as nat) && v <= bound,
            None => digits_value(cs@, i as int, n as nat) > bound,
        },
{
    let mut v: u128 = 0;
    let mut k: usize = 0;
    while k < n
        invariant
            k <= n,
            i + n <= cs.len(),
            n <= digit_run(cs@, i as int),
            bound <= u64::MAX,
            v == digits_value(cs@, i as int, k as nat),
            v <= bound,
        decreases n - k,
    {
        proof {
            lemma_digit_run_digits(cs@, i as int, (i + k) as int);
        }
        let d = cs[i + k] as u32 - '0' as u32;
        v = v * 10 + d as u128;
        k = k + 1;
        if v > bound {
            proof {
                lemma_digits_value_mono(cs@, i as int, k as nat, n as nat);
            }
            return None;
        }
    }
    Some(v)
}

fn pow10_of(k: usize) -> (r: u128)
    requires
        k <= 9,
    ensures
        r == pow10(k as nat),
        1 <= r <= 1000000000,
{
    let mut r: u128 = 1;
    let mut j: usize = 0;
    while j < k
        invariant
            j <= k <= 9,
            r == pow10(j as nat),
        decreases k - j,
    {
        proof {
            lemma_pow10_bounds((j + 1) as nat);
        }
        r = r * 10;
        j = j + 1;
    }
    proof {
        lemma_pow10_bounds(j as nat);
    }
    r
}

proof fn lemma_pow10_bounds(j: nat)
    requires
        j <= 9,
    ensures
        1 <= pow10(j) <= 1000000000nat,
    decreases j,
{
    reveal_with_fuel(pow10, 10);
    if j > 0 {
        lemma_pow10_bounds((j - 1) as nat);
    }
}

/// Reads a weight written in daltons as a decimal number, giving
/// nanodaltons: `1.00794` gives `1007940000`.
pub fn parse_weight(text: &str) -> (r: Option<u64>)
    ensures
        match r {
            Some(w) => decimal_nano(text@) == Some(w as nat),
            None => decimal_nano(text@) is None,
        },
{
    let cs = chars_of(text);
    let len = cs.len();
    let a = digit_run_at(&cs, 0);
    if a == 0 {
        return None;
    }
    let mut f: usize = 0;
    if a < len {
        if cs[a] != '.' {
            return None;
        }
        f = digit_run_at(&cs, a + 1);
        if f == 0 || a + 1 + f != len {
            return None;
        }
    }
    let whole = match digits_bounded(&cs, 0, a, u64::MAX as u128) {
        Some(v) => v,
        None => {
            return None;
        },
    };
    let mut value: u128 = whole * NANO_PER_DALTON as u128;
    if a < len {
        let k: usize = if f < 9 {
            f
        } else {
            9
        };
        let frac = match digits_bounded(&cs, a + 1, k, u64::MAX as u128) {
            Some(v) => v,
            None => {
                proof {
                    lemma_pow10_bounds((9 - k) as nat);
                    assert(digits_value(cs@, a + 1, k as nat) * pow10((9 - k) as nat) >= digits_value(cs@, a + 1, k as nat)) by (nonlinear_arith)
                        requires pow10((9 - k) as nat) >= 1;
                }
                return None;
            },
        };
        let p = pow10_of(9 - k);
        assert(frac * p <= 18446744073709551615 * 1000000000) by (nonlinear_arith)
            requires frac <= 18446744073709551615u128, p <= 1000000000;
        value = value + frac * p;
    }
    if value > u64::MAX as u128 {
        return None;
    }
    Some(value as u64)
}

/// The value stored under the first entry whose key is `key`.
pub open spec fn lookup<V>(entries: Seq<(Seq<char>, V)>, key: Seq<char>) -> Option<V>
    decreases entries.len(),
{
    if entries.len() == 0 {
        None
    } else if entries[0].0 == key {
        Some(entries[0].1)
    } else {
        lookup(entries.drop_first(), key)
    }
}

pub open spec fn keys_distinct<V>(entries: Seq<(Seq<char>, V)>) -> bool {
    forall|i: int, j: int| 0 <= i < j < entries.len() ==> entries[i].0 != entries[j].0
}

proof fn lemma_lookup_step<V>(entries: Seq<(Seq<char>, V)>, key: Seq<char>, i: int)
    requires
        0 <= i < entries.len(),
    ensures
        lookup(entries.subrange(i, entries.len() as int), key) == if entries[i].0 == key {
            Some(entries[i].1)
        } else {
            lookup(entries.subrange(i + 1, entries.len() as int), key)
        },
{
    let tail = entries.subrange(i, entries.len() as int);
    assert(tail.drop_first() =~= entries.subrange(i + 1, entries.len() as int));
}

/// An element symbol and its weight in nanodaltons.
#[derive(Debug)]
pub struct WeightEntry {
    pub symbol: String,
    pub weight: u64,
}

/// Element weights of one kind (exact or average), keyed by symbol.
#[derive(Debug)]
pub struct WeightTable {
    entries: Vec<WeightEntry>,
}

impl View for WeightTable {
    type V = Seq<(Seq<char>, nat)>;

    closed spec fn view(&self) -> Seq<(Seq<char>, nat)> {
        self.entries@.map_values(|e: WeightEntry| (e.symbol@, e.weight as nat))
    }
}

impl WeightTable {
    pub open spec fn wf(&self) -> bool {
        keys_distinct(self@)
    }

    /// The weight of `symbol`, in nanodaltons.
    pub fn weight(&self, symbol: &String) -> (r: Option<u64>)
        ensures
            match r {
                Some(w) => lookup(self@, symbol@) == Some(w as nat),
                None => lookup(self@, symbol@) is None,
            },
    {
        let mut i: usize = 0;
        proof {
            assert(self@.subrange(0, self@.len() as int) =~= self@);
        }
        while i < self.entries.len()
            invariant
                i <= self.entries.len(),
                self@.len() == self.entries.len(),
                lookup(self@, symbol@) == lookup(self@.subrange(i as int, self@.len() as int), symbol@),
            decreases self.entries.len() - i,
        {
            proof {
                lemma_lookup_step(self@, symbol@, i as int);
            }
            if self.entries[i].symbol == *symbol {
                return Some(self.entries[i].weight);
            }
            i = i + 1;
        }
        None
    }
}

/// A key and the tokens of the formula it stands for.
#[derive(Debug)]
pub struct FormulaEntry {
    pub key: String,
    pub tokens: Vec<Token>,
}

/// Formulas keyed by an abbreviation or a residue letter.
#[derive(Debug)]
pub struct FormulaTable {
    entries: Vec<FormulaEntry>,
}

impl View for FormulaTable {
    type V = Seq<(Seq<char>, Seq<Atom>)>;

    closed spec fn view(&self) -> Seq<(Seq<char>, Seq<Atom>)> {
        self.entries@.map_values(|e: FormulaEntry| (e.key@, atoms_of(e.tokens@)))
    }
}

/// Every count lies between 1 and `MAX_COUNT`.
pub open spec fn counts_bounded(atoms: Seq<Atom>) -> bool {
    forall|j: int| 0 <= j < atoms.len() ==> 1 <= #[trigger] atoms[j].1 <= MAX_COUNT
}

impl FormulaTable {
    pub open spec fn wf(&self) -> bool {
        &&& keys_distinct(self@)
        &&& forall|i: int| 0 <= i < self@.len() ==> counts_bounded(#[trigger] self@[i].1)
    }

    /// A table without entries.
    pub fn empty() -> (r: FormulaTable)
        ensures
            r@ == Seq::<(Seq<char>, Seq<Atom>)>::empty(),
            r.wf(),
    {
        let r = FormulaTable { entries: Vec::new() };
        proof {
            assert(r@ =~= Seq::<(Seq<char>, Seq<Atom>)>::empty());
        }
        r
    }

    /// The tokens of the formula stored under `key`.
    pub fn formula(&self, key: &String) -> (r: Option<&Vec<Token>>)
        ensures
            match r {
                Some(t) => lookup(self@, key@) == Some(atoms_of(t@)),
                None => lookup(self@, key@) is None,
            },
    {
        let mut i: usize = 0;
        proof {
            assert(self@.subrange(0, self@.len() as int) =~= self@);
        }
        while i < self.entries.len()
            invariant
                i <= self.entries.len(),
                self@.len() == self.entries.len(),
                lookup(self@, key@) == lookup(self@.subrange(i as int, self@.len() as int), key@),
            decreases self.entries.len() - i,
        {
            proof {
                lemma_lookup_step(self@, key@, i as int);
            }
            if self.entries[i].key == *key {
                return Some(&self.entries[i].tokens);
            }
            i = i + 1;
        }
        None
    }
}

pub open spec fn is_first(header: Seq<Seq<char>>, name: Seq<char>, k: int) -> bool {
    &&& 0 <= k < header.len()
    &&& header[k] == name
    &&& forall|j: int| 0 <= j < k ==> header[j] != name
}

/// The position of the first column named `name`.
pub open spec fn column_of(header: Seq<Seq<char>>, name: Seq<char>) -> Option<int> {
    if exists|k: int| is_first(header, name, k) {
        Some(choose|k: int| is_first(header, name, k))
    } else {
        None
    }
}

/// The `(key, value)` pairs of rows `1..n`, reading columns `k` and `v`.
pub open spec fn row_pairs(rows: Seq<Seq<Seq<char>>>, k: int, v: int, n: nat) -> Result<
    Seq<(Seq<char>, Seq<char>)>,
    TableLoadError,
>
    decreases n,
{
    if n <= 1 {
        Ok(seq![])
    } else {
        match row_pairs(rows, k, v, (n - 1) as nat) {
            Err(e) => Err(e),
            Ok(p) => {
                let row = rows[n - 1];
                if k >= row.len() || v >= row.len() {
                    Err(TableLoadError::ShortRow { row: (n - 1) as usize })
                } else if exists|j: int| 0 <= j < p.len() && #[trigger] p[j].0 == row[k] {
                    Err(TableLoadError::DuplicateKey { row: (n - 1) as usize })
                } else {
                    Ok(p.push((row[k], row[v])))
                }
            },
        }
    }
}

/// The `(key, value)` pairs under the columns named `key` and `value`,
/// taking the first row as the header.
pub open spec fn table_pairs(rows: Seq<Seq<Seq<char>>>, key: Seq<char>, value: Seq<char>) -> Result<
    Seq<(Seq<char>, Seq<char>)>,
    TableLoadError,
> {
    if rows.len() == 0 {
        Err(TableLoadError::MissingColumn)
    } else {
        match (column_of(rows[0], key), column_of(rows[0], value)) {
            (Some(k), Some(v)) => row_pairs(rows, k, v, rows.len()),
            _ => Err(TableLoadError::MissingColumn),
        }
    }
}

/// The weights of the pairs, in order; the pair at `j` comes from row `j + 1`.
pub open spec fn weight_entries(p: Seq<(Seq<char>, Seq<char>)>) -> Result<
    Seq<(Seq<char>, nat)>,
    TableLoadError,
>
    decreases p.len(),
{
    if p.len() == 0 {
        Ok(seq![])
    } else {
        match weight_entries(p.drop_last()) {
            Err(e) => Err(e),
            Ok(w) => match decimal_nano(p.last().1) {
                None => Err(TableLoadError::BadWeight { row: p.len() as usize }),
                Some(x) => Ok(w.push((p.last().0, x))),
            },
        }
    }
}

/// The tokenized formulas of the pairs, in order.
pub open spec fn formula_entries(p: Seq<(Seq<char>, Seq<char>)>) -> Result<
    Seq<(Seq<char>, Seq<Atom>)>,
    TableLoadError,
>
    decreases p.len(),
{
    if p.len() == 0 {
        Ok(seq![])
    } else {
        match formula_entries(p.drop_last()) {
            Err(e) => Err(e),
            Ok(f) => match tokenize(p.last().1) {
                Err(e) => Err(TableLoadError::BadFormula { row: p.len() as usize, error: e }),
                Ok(t) => Ok(f.push((p.last().0, t))),
            },
        }
    }
}

/// The weight table that rows give, with its symbols and weights under the
/// columns named `symbol` and `weight`.
pub open spec fn weight_table_of(rows: Seq<Seq<Seq<char>>>, symbol: Seq<char>, weight: Seq<char>) -> Result<
    Seq<(Seq<char>, nat)>,
    TableLoadError,
> {
    match table_pairs(rows, symbol, weight) {
        Err(e) => Err(e),
        Ok(p) => weight_entries(p),
    }
}

/// The formula table that rows give, with its keys and formulas under the
/// columns named `key` and `formula`.
pub open spec fn formula_table_of(rows: Seq<Seq<Seq<char>>>, key: Seq<char>, formula: Seq<char>) -> Result<
    Seq<(Seq<char>, Seq<Atom>)>,
    TableLoadError,
> {
    match table_pairs(rows, key, formula) {
        Err(e) => Err(e),
        Ok(p) => formula_entries(p),
    }
}

pub open spec fn pairs_view(p: Seq<(String, String)>) -> Seq<(Seq<char>, Seq<char>)> {
    p.map_values(|x: (String, String)| (x.0@, x.1@))
}

proof fn lemma_row_pairs_err(rows: Seq<Seq<Seq<char>>>, k: int, v: int, n: nat, m: nat)
    requires
        n <= m,
        row_pairs(rows, k, v, n) is Err,
    ensures
        row_pairs(rows, k, v, m) == row_pairs(rows, k, v, n),
    decreases m,
{
    if n < m {
        lemma_row_pairs_err(rows, k, v, n, (m - 1) as nat);
    }
}

fn column_index(header: &Vec<String>, name: &str) -> (r: Option<usize>)
    ensures
        match r {
            Some(k) => column_of(header.deep_view(), name@) == Some(k as int),
            None => column_of(header.deep_view(), name@) is None,
        },
{
    let wanted = String::from_str(name);
    let ghost h = header.deep_view();
    let mut k: usize = 0;
    while k < header.len()
        invariant
            k <= header.len(),
            h == header.deep_view(),
            h.len() == header.len(),
            wanted@ == name@,
            forall|j: int| 0 <= j < k ==> h[j] != name@,
        decreases header.len() - k,
    {
        assert(h[k as int] == header@[k as int]@);
        if header[k] == wanted {
            proof {
                assert(is_first(h, name@, k as int));
                assert(exists|c: int| is_first(h, name@, c));
                let c = choose|c: int| is_first(h, name@, c);
                assert(is_first(h, name@, c));
                assert(c == k) by {
                    if c < k {
                        assert(h[c] != name@);
                    } else if c > k {
                        assert(h[k as int] != name@);
                    }
                }
                assert(column_of(h, name@) == Some(k as int));
            }
            return Some(k);
        }
        k = k + 1;
    }
    proof {
        assert forall|c: int| !is_first(h, name@, c) by {
            if 0 <= c < h.len() {
                assert(h[c] != name@);
            }
        }
    }
    None
}

fn has_key(p: &Vec<(String, String)>, key: &String) -> (r: bool)
    ensures
        r == exists|j: int| 0 <= j < p.len() && #[trigger] pairs_view(p@)[j].0 == key@,
{
    let mut j: usize = 0;
    while j < p.len()
        invariant
            j <= p.len(),
            forall|i: int| 0 <= i < j ==> #[trigger] pairs_view(p@)[i].0 != key@,
        decreases p.len() - j,
    {
        if p[j].0 == *key {
            assert(pairs_view(p@)[j as int].0 == key@);
            return true;
        }
        j = j + 1;
    }
    false
}

/// Pairs the fields under the columns named `key` and `value`, row by row.
fn pairs_from_rows(rows: &Vec<Vec<String>>, key: &str, value: &str) -> (r: Result<
    Vec<(String, String)>,
    TableLoadError,
>)
    ensures
        match r {
            Ok(p) => table_pairs(rows.deep_view(), key@, value@) == Ok::<
                Seq<(Seq<char>, Seq<char>)>,
                TableLoadError,
            >(pairs_view(p@)) && keys_distinct(pairs_view(p@)),
            Err(e) => table_pairs(rows.deep_view(), key@, value@) == Err::<
                Seq<(Seq<char>, Seq<char>)>,
                TableLoadError,
            >(e),
        },
{
    let ghost rv = rows.deep_view();
    if rows.len() == 0 {
        return Err(TableLoadError::MissingColumn);
    }
    assert(rv[0] == rows@[0].deep_view());
    let k = match column_index(&rows[0], key) {
        Some(k) => k,
        None => {
            return Err(TableLoadError::MissingColumn);
        },
    };
    let v = match column_index(&rows[0], value) {
        Some(v) => v,
        None => {
            return Err(TableLoadError::MissingColumn);
        },
    };
    let mut out: Vec<(String, String)> = Vec::new();
    let mut i: usize = 1;
    proof {
        assert(pairs_view(out@) =~= seq![]);
    }
    while i < rows.len()
        invariant
            1 <= i <= rows.len(),
            rv == rows.deep_view(),
            table_pairs(rv, key@, value@) == row_pairs(rv, k as int, v as int, rv.len()),
            row_pairs(rv, k as int, v as int, i as nat) == Ok::<
                Seq<(Seq<char>, Seq<char>)>,
                TableLoadError,
            >(pairs_view(out@)),
            keys_distinct(pairs_view(out@)),
        decreases rows.len() - i,
    {
        let row = &rows[i];
        assert(rv[i as int] == row.deep_view());
        if k >= row.len() || v >= row.len() {
            proof {
                lemma_row_pairs_err(rv, k as int, v as int, (i + 1) as nat, rv.len());
            }
            return Err(TableLoadError::ShortRow { row: i });
        }
        if has_key(&out, &row[k]) {
            proof {
                lemma_row_pairs_err(rv, k as int, v as int, (i + 1) as nat, rv.len());
            }
            return Err(TableLoadError::DuplicateKey { row: i });
        }
        let ghost prev = out@;
        out.push((row[k].clone(), row[v].clone()));
        proof {
            assert(pairs_view(out@) =~= pairs_view(prev).push((rv[i as int][k as int], rv[i as int][v as int])));
        }
        i = i + 1;
    }
    Ok(out)
}

proof fn lemma_weight_entries_err(p: Seq<(Seq<char>, Seq<char>)>, n: int)
    requires
        0 <= n <= p.len(),
        weight_entries(p.take(n)) is Err,
    ensures
        weight_entries(p) == weight_entries(p.take(n)),
    decreases p.len() - n,
{
    if n < p.len() {
        assert(p.take(n + 1).drop_last() =~= p.take(n));
        lemma_weight_entries_err(p, n + 1);
    } else {
        assert(p.take(n) =~= p);
    }
}

proof fn lemma_formula_entries_err(p: Seq<(Seq<char>, Seq<char>)>, n: int)
    requires
        0 <= n <= p.len(),
        formula_entries(p.take(n)) is Err,
    ensures
        formula_entries(p) == formula_entries(p.take(n)),
    decreases p.len() - n,
{
    if n < p.len() {
        assert(p.take(n + 1).drop_last() =~= p.take(n));
        lemma_formula_entries_err(p, n + 1);
    } else {
        assert(p.take(n) =~= p);
    }
}

impl WeightTable {
    /// Builds the table from CSV rows whose first row is the header, reading
    /// symbols under the column named `symbol` and weights, in daltons, under
    /// the column named `weight`.
    pub fn from_rows(rows: &Vec<Vec<String>>, symbol: &str, weight: &str) -> (r: Result<
        WeightTable,
        TableLoadError,
    >)
        ensures
            match r {
                Ok(t) => weight_table_of(rows.deep_view(), symbol@, weight@) == Ok::<
                    Seq<(Seq<char>, nat)>,
                    TableLoadError,
                >(t@) && t.wf(),
                Err(e) => weight_table_of(rows.deep_view(), symbol@, weight@) == Err::<
                    Seq<(Seq<char>, nat)>,
                    TableLoadError,
                >(e),
            },
    {
        let pairs = match pairs_from_rows(rows, symbol, weight) {
            Ok(p) => p,
            Err(e) => {
                return Err(e);
            },
        };
        let ghost pv = pairs_view(pairs@);
        let mut entries: Vec<WeightEntry> = Vec::new();
        let mut j: usize = 0;
        proof {
            assert(pv.take(0) =~= seq![]);
            assert(entries@.map_values(|e: WeightEntry| (e.symbol@, e.weight as nat)) =~= seq![]);
        }
        while j < pairs.len()
            invariant
                j <= pairs.len(),
                pv == pairs_view(pairs@),
                table_pairs(rows.deep_view(), symbol@, weight@) == Ok::<
                    Seq<(Seq<char>, Seq<char>)>,
                    TableLoadError,
                >(pv),
                keys_distinct(pv),
                entries.len() == j,
                weight_entries(pv.take(j as int)) == Ok::<Seq<(Seq<char>, nat)>, TableLoadError>(
                    entries@.map_values(|e: WeightEntry| (e.symbol@, e.weight as nat)),
                ),
                forall|i: int| 0 <= i < j ==> #[trigger] entries@[i].symbol@ == pv[i].0,
            decreases pairs.len() - j,
        {
            proof {
                assert(pv.take(j + 1).drop_last() =~= pv.take(j as int));
                assert(pv.take(j + 1).last() == pv[j as int]);
                assert(pv[j as int].1 == pairs@[j as int].1@);
                assert(pv[j as int].0 == pairs@[j as int].0@);
            }
            let w = match parse_weight(pairs[j].1.as_str()) {
                Some(w) => w,
                None => {
                    proof {
                        lemma_weight_entries_err(pv, j + 1);
                        assert(pv.take(pv.len() as int) =~= pv);
                    }
                    return Err(TableLoadError::BadWeight { row: j + 1 });
                },
            };
            let ghost prev = entries@;
            entries.push(WeightEntry { symbol: pairs[j].0.clone(), weight: w });
            proof {
                assert(entries@.map_values(|e: WeightEntry| (e.symbol@, e.weight as nat)) =~= prev.map_values(
                    |e: WeightEntry| (e.symbol@, e.weight as nat),
                ).push((pv[j as int].0, w as nat)));
            }
            j = j + 1;
        }
        proof {
            assert(pv.take(pv.len() as int) =~= pv);
        }
        let t = WeightTable { entries };
        proof {
            assert forall|a: int, b: int| 0 <= a < b < t@.len() implies t@[a].0 != t@[b].0 by {
                assert(t@[a].0 == pv[a].0);
                assert(t@[b].0 == pv[b].0);
            }
        }
        Ok(t)
    }
}

impl FormulaTable {
    /// Builds the table from CSV rows whose first row is the header, reading
    /// keys under the column named `key` and formulas under the column named
    /// `formula`.
    pub fn from_rows(rows: &Vec<Vec<String>>, key: &str, formula: &str) -> (r: Result<
        FormulaTable,
        TableLoadError,
    >)
        ensures
            match r {
                Ok(t) => formula_table_of(rows.deep_view(), key@, formula@) == Ok::<
                    Seq<(Seq<char>, Seq<Atom>)>,
                    TableLoadError,
                >(t@) && t.wf(),
                Err(e) => formula_table_of(rows.deep_view(), key@, formula@) == Err::<
                    Seq<(Seq<char>, Seq<Atom>)>,
                    TableLoadError,
                >(e),
            },
    {
        let pairs = match pairs_from_rows(rows, key, formula) {
            Ok(p) => p,
            Err(e) => {
                return Err(e);
            },
        };
        let ghost pv = pairs_view(pairs@);
        let mut entries: Vec<FormulaEntry> = Vec::new();
        let mut j: usize = 0;
        proof {
            assert(pv.take(0) =~= seq![]);
            assert(entries@.map_values(|e: FormulaEntry| (e.key@, atoms_of(e.tokens@))) =~= seq![]);
        }
        while j < pairs.len()
            invariant
                j <= pairs.len(),
                pv == pairs_view(pairs@),
                table_pairs(rows.deep_view(), key@, formula@) == Ok::<
                    Seq<(Seq<char>, Seq<char>)>,
                    TableLoadError,
                >(pv),
                keys_distinct(pv),
                entries.len() == j,
                formula_entries(pv.take(j as int)) == Ok::<
                    Seq<(Seq<char>, Seq<Atom>)>,
                    TableLoadError,
                >(entries@.map_values(|e: FormulaEntry| (e.key@, atoms_of(e.tokens@)))),
                forall|i: int| 0 <= i < j ==> #[trigger] entries@[i].key@ == pv[i].0,
                forall|i: int|
                    0 <= i < j ==> counts_bounded(atoms_of(#[trigger] entries@[i].tokens@)),
            decreases pairs.len() - j,
        {
            proof {
                assert(pv.take(j + 1).drop_last() =~= pv.take(j as int));
                assert(pv.take(j + 1).last() == pv[j as int]);
                assert(pv[j as int].1 == pairs@[j as int].1@);
                assert(pv[j as int].0 == pairs@[j as int].0@);
            }
            let tokens = match parse_molecular_formula(pairs[j].1.as_str()) {
                Ok(t) => t,
                Err(e) => {
                    proof {
                        lemma_formula_entries_err(pv, j + 1);
                        assert(pv.take(pv.len() as int) =~= pv);
                    }
                    return Err(TableLoadError::BadFormula { row: j + 1, error: e });
                },
            };
            let ghost prev = entries@;
            let ghost ta = atoms_of(tokens@);
            proof {
                assert forall|i: int| 0 <= i < ta.len() implies 1 <= #[trigger] ta[i].1 <= MAX_COUNT by {
                    assert(ta[i].1 == tokens@[i].count);
                }
            }
            entries.push(FormulaEntry { key: pairs[j].0.clone(), tokens });
            proof {
                assert(entries@.map_values(|e: FormulaEntry| (e.key@, atoms_of(e.tokens@))) =~= prev.map_values(
                    |e: FormulaEntry| (e.key@, atoms_of(e.tokens@)),
                ).push((pv[j as int].0, ta)));
            }
            j = j + 1;
        }
        proof {
            assert(pv.take(pv.len() as int) =~= pv);
        }
        let t = FormulaTable { entries };
        proof {
            assert forall|a: int, b: int| 0 <= a < b < t@.len() implies t@[a].0 != t@[b].0 by {
                assert(t@[a].0 == pv[a].0);
                assert(t@[b].0 == pv[b].0);
            }
            assert forall|i: int| 0 <= i < t@.len() implies counts_bounded(#[trigger] t@[i].1) by {
                assert(t@[i].1 == atoms_of(t.entries@[i].tokens@));
            }
        }
        Ok(t)
    }
}

/// The csv crate's `csv::Error`, which `read_csv_rows` hands back on data it
/// rejects.
#[verifier::external_type_specification]
#[verifier::external_body]
pub struct ExCsvError(csv::Error);

/// The records that the csv crate reads from `data`, each as its fields, or
/// `None` where it rejects the data.
pub uninterp spec fn csv_rows_of(data: Seq<u8>) -> Option<Seq<Seq<Seq<char>>>>;

/// Relies on `csv::ReaderBuilder::from_reader` (headers off) and
/// `csv::Reader::records`: every record of `data` with its fields, or the
/// first error; the outcome depends on the bytes alone.
#[verifier::external_body]
fn read_csv_rows(data: &[u8]) -> (r: Result<Vec<Vec<String>>, csv::Error>)
    ensures
        match r {
            Ok(rows) => csv_rows_of(data@) == Some(rows.deep_view()),
            Err(_) => csv_rows_of(data@) is None,
        },
{
    let mut reader = csv::ReaderBuilder::new().has_headers(false).from_reader(data);
    reader.records().map(|rec| rec.map(|fields| fields.iter().map(String::from).collect())).collect()
}

/// Reads a weight table from CSV data, as `WeightTable::from_rows` builds
/// it from the records.
pub fn load_weight_table(data: &[u8], symbol: &str, weight: &str) -> (r: Result<
    WeightTable,
    TableLoadError,
>)
    ensures
        match csv_rows_of(data@) {
            None => r == Err::<WeightTable, TableLoadError>(TableLoadError::Unreadable),
            Some(rows) => match r {
                Ok(t) => weight_table_of(rows, symbol@, weight@) == Ok::<
                    Seq<(Seq<char>, nat)>,
                    TableLoadError,
                >(t@) && t.wf(),
                Err(e) => weight_table_of(rows, symbol@, weight@) == Err::<
                    Seq<(Seq<char>, nat)>,
                    TableLoadError,
                >(e),
            },
        },
{
    match read_csv_rows(data) {
        Ok(rows) => WeightTable::from_rows(&rows, symbol, weight),
        Err(_) => Err(TableLoadError::Unreadable),
    }
}

/// Reads a formula table from CSV data, as `FormulaTable::from_rows` builds
/// it from the records.
pub fn load_formula_table(data: &[u8], key: &str, formula: &str) -> (r: Result<
    FormulaTable,
    TableLoadError,
>)
    ensures
        match csv_rows_of(data@) {
            None => r == Err::<FormulaTable, TableLoadError>(TableLoadError::Unreadable),
            Some(rows) => match r {
                Ok(t) => formula_table_of(rows, key@, formula@) == Ok::<
                    Seq<(Seq<char>, Seq<Atom>)>,
                    TableLoadError,
                >(t@) && t.wf(),
                Err(e) => formula_table_of(rows, key@, formula@) == Err::<
                    Seq<(Seq<char>, Seq<Atom>)>,
                    TableLoadError,
                >(e),
            },
        },
{
    match read_csv_rows(data) {
        Ok(rows) => FormulaTable::from_rows(&rows, key, formula),
        Err(_) => Err(TableLoadError::Unreadable),
    }
}

} // verus!
