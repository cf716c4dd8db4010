//! Tokenizer: a formula string becomes a flat sequence of `(symbol, count)`
//! atoms, with parenthesized groups multiplied out.

use vstd::prelude::*;

verus! {

/// Largest count a token may carry, after the multipliers of enclosing
/// groups are applied.
pub const MAX_COUNT: u32 = 1000000;

/// Deepest nesting of parenthesized groups that a formula may use.
pub const MAX_NESTING: u32 = 64;

/// The mathematical form of a token: a symbol and its count.
pub type Atom = (Seq<char>, nat);

/// Why a formula string could not be tokenized; positions count characters.
#[derive(Clone, Copy, Debug, PartialEq, Eq, Structural)]
pub enum FormulaError {
    /// The formula is empty, or malformed at this position: a character that
    /// starts no unit, an unmatched parenthesis, an empty group, a zero
    /// count, or groups nested past `MAX_NESTING`.
    Syntax { position: usize },
    /// The count written at this position, or a count multiplied by it,
    /// exceeds `MAX_COUNT`.
    CountOverflow { position: usize },
}

/// One symbol of a formula with the number of times it occurs.
#[derive(Debug)]
pub struct Token {
    pub symbol: String,
    pub count: u32,
}

impl View for Token {
    type V = Atom;

    open spec fn view(&self) -> Atom {
        (self.symbol@, self.count as nat)
    }
}

/// The atoms of a token vector.
pub open spec fn atoms_of(v: Seq<Token>) -> Seq<Atom> {
    v.map_values(|t: Token| t@)
}

pub open spec fn is_space(c: char) -> bool {
    c == ' ' || c == '\t' || c == '\n' || c == '\r'
}

pub open spec fn is_upper(c: char) -> bool {
    'A' <= c && c <= 'Z'
}

pub open spec fn is_lower(c: char) -> bool {
    'a' <= c && c <= 'z'
}

pub open spec fn is_digit(c: char) -> bool {
    '0' <= c && c <= '9'
}

pub open spec fn digit_value(c: char) -> nat {
    (c as int - '0' as int) as nat
}

/// Number of consecutive decimal digits starting at `i`.
pub open spec fn digit_run(s: Seq<char>, i: int) -> nat
    decreases s.len() - i,
{
    if 0 <= i < s.len() && is_digit(s[i]) {
        1 + digit_run(s, i + 1)
    } else {
        0
    }
}

/// Number of lowercase letters, at most two, starting at `i`.
pub open spec fn lower_run(s: Seq<char>, i: int) -> nat {
    if 0 <= i < s.len() && is_lower(s[i]) {
        if i + 1 < s.len() && is_lower(s[i + 1]) {
            2
        } else {
            1
        }
    } else {
        0
    }
}

/// Decimal value of the `n` digits starting at `i`.
pub open spec fn digits_value(s: Seq<char>, i: int, n: nat) -> nat
    decreases n,
{
    if n == 0 {
        0
    } else {
        digits_value(s, i, (n - 1) as nat) * 10 + digit_value(s[i + n - 1])
    }
}

/// The count written at `i`: 1 where no digit stands there.
pub open spec fn count_at(s: Seq<char>, i: int) -> Result<nat, FormulaError> {
    let n = digit_run(s, i);
    if n == 0 {
        Ok(1)
    } else {
        let v = digits_value(s, i, n);
        if v == 0 {
            Err(FormulaError::Syntax { position: i as usize })
        } else if v > MAX_COUNT {
            Err(FormulaError::CountOverflow { position: i as usize })
        } else {
            Ok(v)
        }
    }
}

/// Every count of `atoms`, multiplied by `m`.
pub open spec fn scale(atoms: Seq<Atom>, m: nat) -> Seq<Atom> {
    atoms.map_values(|a: Atom| (a.0, a.1 * m))
}

pub open spec fn scale_overflows(atoms: Seq<Atom>, m: nat) -> bool {
    exists|k: int| 0 <= k < atoms.len() && #[trigger] atoms[k].1 * m > MAX_COUNT
}

/// Characters left from `i` on.
pub open spec fn rest(s: Seq<char>, i: int) -> nat {
    if 0 <= i < s.len() {
        (s.len() - i) as nat
    } else {
        0
    }
}

/// Prepends `atoms`, consumed over `k` characters, to a parse result.
pub open spec fn prepend(
    atoms: Seq<Atom>,
    k: nat,
    r: Result<(Seq<Atom>, nat), FormulaError>,
) -> Result<(Seq<Atom>, nat), FormulaError> {
    match r {
        Ok((t, n)) => Ok((atoms + t, k + n)),
        Err(e) => Err(e),
    }
}

/// Parses units from `i` up to the end of `s` or to a closing parenthesis,
/// giving the atoms and the number of characters consumed.
///
/// A unit is a symbol (an uppercase letter and up to two lowercase letters)
/// with an optional count, or a non-empty parenthesized group with an
/// optional multiplier. Whitespace is skipped between units. Groups may nest
/// `depth` levels deeper.
pub open spec fn parse_units(s: Seq<char>, i: int, depth: nat) -> Result<(Seq<Atom>, nat), FormulaError>
    decreases rest(s, i),
{
    if i < 0 || i >= s.len() {
        Ok((seq![], 0))
    } else if is_space(s[i]) {
        prepend(seq![], 1, parse_units(s, i + 1, depth))
    } else if s[i] == ')' {
        Ok((seq![], 0))
    } else if is_upper(s[i]) {
        let lw = lower_run(s, i + 1);
        match count_at(s, i + 1 + lw) {
            Err(e) => Err(e),
            Ok(c) => {
                let u = 1 + lw + digit_run(s, i + 1 + lw);
                prepend(seq![(s.subrange(i, i + 1 + lw), c)], u, parse_units(s, i + u, depth))
            },
        }
    } else if s[i] == '(' && depth == 0 {
        Err(FormulaError::Syntax { position: i as usize })
    } else if s[i] == '(' {
        match parse_units(s, i + 1, (depth - 1) as nat) {
            Err(e) => Err(e),
            Ok((inner, n)) => {
                let close = i + 1 + n;
                if close >= s.len() {
                    Err(FormulaError::Syntax { position: i as usize })
                } else if inner.len() == 0 {
                    Err(FormulaError::Syntax { position: close as usize })
                } else {
                    match count_at(s, close + 1) {
                        Err(e) => Err(e),
                        Ok(m) => {
                            if scale_overflows(inner, m) {
                                Err(FormulaError::CountOverflow { position: (close + 1) as usize })
                            } else {
                                let u = n + 2 + digit_run(s, close + 1);
                                prepend(scale(inner, m), u, parse_units(s, i + u, depth))
                            }
                        },
                    }
                }
            },
        }
    } else {
        Err(FormulaError::Syntax { position: i as usize })
    }
}

/// The atoms of a whole formula: at least one unit, and no unmatched
/// parenthesis.
pub open spec fn tokenize(s: Seq<char>) -> Result<Seq<Atom>, FormulaError> {
    match parse_units(s, 0, MAX_NESTING as nat) {
        Err(e) => Err(e),
        Ok((t, n)) => {
            if n < s.len() || t.len() == 0 {
                Err(FormulaError::Syntax { position: n as usize })
            } else {
                Ok(t)
            }
        },
    }
}

fn is_space_char(c: char) -> (r: bool)
    ensures
        r == is_space(c),
{
    c == ' ' || c == '\t' || c == '\n' || c == '\r'
}

fn is_upper_char(c: char) -> (r: bool)
    ensures
        r == is_upper(c),
{
    'A' <= c && c <= 'Z'
}

fn is_lower_char(c: char) -> (r: bool)
    ensures
        r == is_lower(c),
{
    'a' <= c && c <= 'z'
}

fn is_digit_char(c: char) -> (r: bool)
    ensures
        r == is_digit(c),
{
    '0' <= c && c <= '9'
}

pub(crate) fn digit_run_at(cs: &Vec<char>, i: usize) -> (n: usize)
    requires
        i <= cs.len(),
    ensures
        n == digit_run(cs@, i as int),
        i + n <= cs.len(),
{
    let mut j: usize = i;
    while j < cs.len() && is_digit_char(cs[j])
        invariant
            i <= j <= cs.len(),
            digit_run(cs@, i as int) == (j - i) + digit_run(cs@, j as int),
        decreases cs.len() - j,
    {
        j = j + 1;
    }
    j - i
}

pub(crate) proof fn lemma_digit_run_digits(s: Seq<char>, i: int, j: int)
    requires
        0 <= i <= j < i + digit_run(s, i),
    ensures
        is_digit(s[j]),
    decreases j - i,
{
    if j > i {
        lemma_digit_run_digits(s, i + 1, j);
    }
}

pub(crate) proof fn lemma_digits_value_mono(s: Seq<char>, i: int, k: nat, n: nat)
    requires
        k <= n,
    ensures
        digits_value(s, i, k) <= digits_value(s, i, n),
    decreases n,
{
    if k < n {
        lemma_digits_value_mono(s, i, k, (n - 1) as nat);
    }
}

proof fn lemma_prepend_assoc(
    a: Seq<Atom>,
    k: nat,
    b: Seq<Atom>,
    u: nat,
    r: Result<(Seq<Atom>, nat), FormulaError>,
)
    ensures
        prepend(a, k, prepend(b, u, r)) == prepend(a + b, k + u, r),
{
    match r {
        Ok((t, n)) => {
            assert(a + (b + t) =~= (a + b) + t);
        },
        Err(_) => {},
    }
}

proof fn lemma_atoms_of_concat(a: Seq<Token>, b: Seq<Token>)
    ensures
        atoms_of(a + b) == atoms_of(a) + atoms_of(b),
{
    assert(atoms_of(a + b) =~= atoms_of(a) + atoms_of(b));
}

/// Reads the count written at `i`, as `count_at` states it.
fn count_at_index(cs: &Vec<char>, i: usize) -> (r: Result<u32, FormulaError>)
    requires
        i <= cs.len(),
    ensures
        match r {
            Ok(c) => count_at(cs@, i as int) == Ok::<nat, FormulaError>(c as nat) && 1 <= c
                <= MAX_COUNT,
            Err(e) => count_at(cs@, i as int) == Err::<nat, FormulaError>(e),
        },
{
    let n = digit_run_at(cs, i);
    if n == 0 {
        return Ok(1);
    }
    let mut v: u64 = 0;
    let mut k: usize = 0;
    while k < n
        invariant
            k <= n,
            i + n <= cs.len(),
            n == digit_run(cs@, i as int),
            v == digits_value(cs@, i as int, k as nat),
            v <= MAX_COUNT,
        decreases n - k,
    {
        proof {
            lemma_digit_run_digits(cs@, i as int, (i + k) as int);
        }
        let d = cs[i + k] as u32 - '0' as u32;
        v = v * 10 + d as u64;
        k = k + 1;
        if v > MAX_COUNT as u64 {
            proof {
                lemma_digits_value_mono(cs@, i as int, k as nat, n as nat);
            }
            return Err(FormulaError::CountOverflow { position: i });
        }
    }
    if v == 0 {
        return Err(FormulaError::Syntax { position: i });
    }
    Ok(v as u32)
}

/// Multiplies each count of `inner` by `m`, or reports that one would exceed
/// the largest count.
fn scale_tokens(inner: &Vec<Token>, m: u32) -> (r: Option<Vec<Token>>)
    requires
        forall|j: int| 0 <= j < inner.len() ==> 1 <= #[trigger] inner@[j].count <= MAX_COUNT,
        1 <= m <= MAX_COUNT,
    ensures
        match r {
            Some(v) => !scale_overflows(atoms_of(inner@), m as nat) && atoms_of(v@) == scale(
                atoms_of(inner@),
                m as nat,
            ) && forall|j: int| 0 <= j < v.len() ==> 1 <= #[trigger] v@[j].count <= MAX_COUNT,
            None => scale_overflows(atoms_of(inner@), m as nat),
        },
{
    let mut out: Vec<Token> = Vec::new();
    let mut k: usize = 0;
    while k < inner.len()
        invariant
            k <= inner.len(),
            1 <= m <= MAX_COUNT,
            forall|j: int| 0 <= j < inner.len() ==> 1 <= #[trigger] inner@[j].count <= MAX_COUNT,
            out.len() == k,
            forall|j: int| 0 <= j < k ==> #[trigger] out@[j]@ == (inner@[j]@.0, inner@[j]@.1 * (m as nat)),
            forall|j: int| 0 <= j < k ==> 1 <= #[trigger] out@[j].count <= MAX_COUNT,
            forall|j: int| 0 <= j < k ==> #[trigger] atoms_of(inner@)[j].1 * m <= MAX_COUNT,
        decreases inner.len() - k,
    {
        let a = inner[k].count as u64;
        assert(1 <= a * (m as u64) <= 1000000000000) by (nonlinear_arith)
            requires
                1 <= a <= 1000000,
                1 <= m <= 1000000,
        ;
        let c = a * m as u64;
        if c > MAX_COUNT as u64 {
            proof {
                assert(atoms_of(inner@)[k as int].1 * m > MAX_COUNT);
            }
            return None;
        }
        out.push(Token { symbol: inner[k].symbol.clone(), count: c as u32 });
        k = k + 1;
    }
    proof {
        assert(atoms_of(out@) =~= scale(atoms_of(inner@), m as nat));
    }
    Some(out)
}

/// Parses units from `i0` up to the end of the formula or a closing
/// parenthesis, as `parse_units` states it.
#[verifier::rlimit(40)]
fn parse_units_from(s: &str, ascii: bool, cs: &Vec<char>, i0: usize, depth: u32) -> (r: Result<
    (Vec<Token>, usize),
    FormulaError,
>)
    requires
        cs@ == s@,
        ascii ==> s.is_ascii(),
        i0 <= cs.len(),
    ensures
        match r {
            Ok((t, n)) => parse_units(cs@, i0 as int, depth as nat) == Ok::<(Seq<Atom>, nat), FormulaError>(
                (atoms_of(t@), n as nat),
            ) && i0 + n <= cs.len() && forall|j: int|
                0 <= j < t.len() ==> 1 <= #[trigger] t@[j].count <= MAX_COUNT,
            Err(e) => parse_units(cs@, i0 as int, depth as nat) == Err::<(Seq<Atom>, nat), FormulaError>(e),
        },
    decreases rest(cs@, i0 as int),
{
    let mut acc: Vec<Token> = Vec::new();
    let mut i: usize = i0;
    while i < cs.len()
        invariant
            cs@ == s@,
            ascii ==> s.is_ascii(),
            i0 <= i <= cs.len(),
            parse_units(cs@, i0 as int, depth as nat) == prepend(
                atoms_of(acc@),
                (i - i0) as nat,
                parse_units(cs@, i as int, depth as nat),
            ),
            forall|j: int| 0 <= j < acc.len() ==> 1 <= #[trigger] acc@[j].count <= MAX_COUNT,
        decreases cs.len() - i,
    {
        let c = cs[i];
        if is_space_char(c) {
            proof {
                lemma_prepend_assoc(atoms_of(acc@), (i - i0) as nat, seq![], 1, parse_units(cs@, i + 1, depth as nat));
                assert(atoms_of(acc@) + seq![] =~= atoms_of(acc@));
            }
            i = i + 1;
        } else if c == ')' {
            proof {
                assert(atoms_of(acc@) + seq![] =~= atoms_of(acc@));
            }
            return Ok((acc, i - i0));
        } else if is_upper_char(c) {
            let lw: usize = if i + 1 < cs.len() && is_lower_char(cs[i + 1]) {
                if i + 2 < cs.len() && is_lower_char(cs[i + 2]) {
                    2
                } else {
                    1
                }
            } else {
                0
            };
            assert(lw == lower_run(cs@, i + 1));
            let count = match count_at_index(cs, i + 1 + lw) {
                Ok(count) => count,
                Err(e) => {
                    return Err(e);
                },
            };
            let d = digit_run_at(cs, i + 1 + lw);
            let text = if ascii {
                s.substring_ascii(i, i + 1 + lw)
            } else {
                s.substring_char(i, i + 1 + lw)
            };
            let symbol = text.to_owned();
            let ghost prev = acc@;
            let tok = Token { symbol, count };
            proof {
                let u = (1 + lw + d) as nat;
                lemma_prepend_assoc(atoms_of(prev), (i - i0) as nat, seq![tok@], u, parse_units(cs@, i + u, depth as nat));
                lemma_atoms_of_concat(prev, seq![tok]);
                assert(atoms_of(seq![tok]) =~= seq![tok@]);
            }
            acc.push(tok);
            proof {
                assert(acc@ =~= prev + seq![tok]);
            }
            i = i + 1 + lw + d;
        } else if c == '(' {
            if depth == 0 {
                return Err(FormulaError::Syntax { position: i });
            }
            let (inner, n) = match parse_units_from(s, ascii, cs, i + 1, depth - 1) {
                Ok(p) => p,
                Err(e) => {
                    return Err(e);
                },
            };
            let close = i + 1 + n;
            if close >= cs.len() {
                return Err(FormulaError::Syntax { position: i });
            }
            if inner.len() == 0 {
                return Err(FormulaError::Syntax { position: close });
            }
            let m = match count_at_index(cs, close + 1) {
                Ok(m) => m,
                Err(e) => {
                    return Err(e);
                },
            };
            let mut scaled = match scale_tokens(&inner, m) {
                Some(v) => v,
                None => {
                    return Err(FormulaError::CountOverflow { position: close + 1 });
                },
            };
            let d = digit_run_at(cs, close + 1);
            let ghost prev = acc@;
            let ghost sc = scaled@;
            proof {
                let u = (n + 2 + d) as nat;
                lemma_prepend_assoc(atoms_of(prev), (i - i0) as nat, atoms_of(sc), u, parse_units(cs@, i + u, depth as nat));
                lemma_atoms_of_concat(prev, sc);
            }
            acc.append(&mut scaled);
            proof {
                assert(acc@ =~= prev + sc);
            }
            i = close + 1 + d;
        } else {
            return Err(FormulaError::Syntax { position: i });
        }
    }
    proof {
        assert(atoms_of(acc@) + seq![] =~= atoms_of(acc@));
    }
    Ok((acc, i - i0))
}

/// The characters of `s`, one by one.
pub(crate) fn chars_of(s: &str) -> (cs: Vec<char>)
    ensures
        cs@ == s@,
{
    broadcast use vstd::string::group_string_axioms;
    let mut cs: Vec<char> = Vec::new();
    for c in it: s.chars()
        invariant
            it.seq() == s@,
            cs@ == it.seq().take(it.index()),
    {
        cs.push(c);
    }
    proof {
        assert(cs@ =~= s@);
    }
    cs
}

/// Splits a formula into tokens, as `tokenize` states it: `CH3` gives
/// `C` once and `H` three times, `(CH3)2` gives `C` twice and `H` six times.
pub fn parse_molecular_formula(formula: &str) -> (r: Result<Vec<Token>, FormulaError>)
    ensures
        match r {
            Ok(t) => tokenize(formula@) == Ok::<Seq<Atom>, FormulaError>(atoms_of(t@)),
            Err(e) => tokenize(formula@) == Err::<Seq<Atom>, FormulaError>(e),
        },
        r is Ok ==> forall|j: int|
            0 <= j < r->Ok_0.len() ==> 1 <= #[trigger] r->Ok_0@[j].count <= MAX_COUNT,
{
    let cs = chars_of(formula);
    match parse_units_from(formula, formula.is_ascii(), &cs, 0, MAX_NESTING) {
        Err(e) => Err(e),
        Ok((t, n)) => {
            if n < cs.len() || t.len() == 0 {
                Err(FormulaError::Syntax { position: n })
            } else {
                Ok(t)
            }
        },
    }
}

} // verus!
