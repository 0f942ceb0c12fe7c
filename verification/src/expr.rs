//! The expression engine.
//!
//! Expression texts follow a small grammar: fixed-point numeric literals
//! (digits with an optional fraction, of which the first three digits are
//! kept), variable names, and the four operators `+ - * /` with the usual
//! precedence and left associativity. Parentheses are not part of the
//! grammar. A text is tokenized, parsed into a tree, and evaluated
//! against a context of named scalars; every step is mirrored by a spec
//! function, so the value of an expression is pinned down exactly.

use vstd::prelude::*;

use crate::scalar::{fits_i64, fx_add, fx_div, fx_mul, fx_sub, opt_milli, Scalar};
use crate::vars::VarMap;

verus! {

// ------------------------------------------------------------------
// Character classes
// ------------------------------------------------------------------
/// Blank characters between tokens.
pub open spec fn is_space_char(c: char) -> bool {
    c == ' ' || c == '\t'
}

/// Decimal digits.
pub open spec fn is_digit_char(c: char) -> bool {
    48 <= c as u32 <= 57
}

/// The numeric value of a digit.
pub open spec fn digit_of(c: char) -> int {
    c as u32 - 48
}

/// Characters that may open a variable name: letters and the underscore.
pub open spec fn is_ident_start_char(c: char) -> bool {
    (65 <= c as u32 <= 90) || (97 <= c as u32 <= 122) || c as u32 == 95
}

/// Characters that may continue a variable name.
pub open spec fn is_ident_char(c: char) -> bool {
    is_ident_start_char(c) || is_digit_char(c)
}

// ------------------------------------------------------------------
// Scanning helpers: runs of digits and of name characters
// ------------------------------------------------------------------
/// Length of the run of digits starting at `i`.
pub open spec fn digits_len(s: Seq<char>, i: int) -> nat
    decreases s.len() - i,
{
    if 0 <= i < s.len() && is_digit_char(s[i]) {
        1 + digits_len(s, i + 1)
    } else {
        0
    }
}

/// Length of the run of name characters starting at `i`.
pub open spec fn ident_len(s: Seq<char>, i: int) -> nat
    decreases s.len() - i,
{
    if 0 <= i < s.len() && is_ident_char(s[i]) {
        1 + ident_len(s, i + 1)
    } else {
        0
    }
}

/// The number denoted by the digits `s[i..j)`, most significant first.
pub open spec fn digits_val(s: Seq<char>, i: int, j: int) -> int
    decreases j - i,
{
    if i < j {
        digits_val(s, i, j - 1) * 10 + digit_of(s[j - 1])
    } else {
        0
    }
}

/// Powers of ten.
pub open spec fn pow10(n: nat) -> int
    decreases n,
{
    if n == 0 {
        1
    } else {
        10 * pow10((n - 1) as nat)
    }
}

proof fn lemma_pow10_pos(n: nat)
    ensures
        pow10(n) >= 1,
    decreases n,
{
    if n > 0 {
        lemma_pow10_pos((n - 1) as nat);
    }
}

proof fn lemma_pow10_mono(a: nat, b: nat)
    requires
        a <= b,
    ensures
        pow10(a) <= pow10(b),
    decreases b,
{
    if a < b {
        lemma_pow10_mono(a, (b - 1) as nat);
        lemma_pow10_pos((b - 1) as nat);
    }
}

proof fn lemma_digits_len_le(s: Seq<char>, i: int)
    requires
        0 <= i <= s.len(),
    ensures
        digits_len(s, i) <= s.len() - i,
    decreases s.len() - i,
{
    if i < s.len() {
        lemma_digits_len_le(s, i + 1);
    }
}

proof fn lemma_ident_len_le(s: Seq<char>, i: int)
    requires
        0 <= i <= s.len(),
    ensures
        ident_len(s, i) <= s.len() - i,
    decreases s.len() - i,
{
    if i < s.len() {
        lemma_ident_len_le(s, i + 1);
    }
}

/// A maximal run of digits has exactly the length `digits_len` counts.
proof fn lemma_digits_run(s: Seq<char>, i: int, j: int)
    requires
        0 <= i <= j <= s.len(),
        forall|k: int| i <= k < j ==> is_digit_char(s[k]),
        j == s.len() || !is_digit_char(s[j]),
    ensures
        digits_len(s, i) == j - i,
    decreases j - i,
{
    if i < j {
        lemma_digits_run(s, i + 1, j);
    }
}

/// A maximal run of name characters has exactly the length `ident_len`
/// counts.
proof fn lemma_ident_run(s: Seq<char>, i: int, j: int)
    requires
        0 <= i <= j <= s.len(),
        forall|k: int| i <= k < j ==> is_ident_char(s[k]),
        j == s.len() || !is_ident_char(s[j]),
    ensures
        ident_len(s, i) == j - i,
    decreases j - i,
{
    if i < j {
        lemma_ident_run(s, i + 1, j);
    }
}

// ------------------------------------------------------------------
// Tokens
// ------------------------------------------------------------------
/// A token, as the specification sees it.
pub enum SpecTok {
    /// A numeric literal, already in fixed-point units.
    Num(int),
    /// A variable name.
    Ident(Seq<char>),
    Plus,
    Minus,
    Star,
    Slash,
}

/// A token of an expression text.
pub enum Tok {
    /// A numeric literal, already in fixed-point units.
    Num(i64),
    /// A variable name.
    Ident(Vec<char>),
    Plus,
    Minus,
    Star,
    Slash,
}

/// The specification-level value of a token.
pub open spec fn tok_view(t: Tok) -> SpecTok {
    match t {
        Tok::Num(v) => SpecTok::Num(v as int),
        Tok::Ident(cs) => SpecTok::Ident(cs@),
        Tok::Plus => SpecTok::Plus,
        Tok::Minus => SpecTok::Minus,
        Tok::Star => SpecTok::Star,
        Tok::Slash => SpecTok::Slash,
    }
}

/// The specification-level value of a token sequence.
pub open spec fn toks_view(ts: Seq<Tok>) -> Seq<SpecTok> {
    ts.map_values(|t: Tok| tok_view(t))
}

/// Scale factor that pads a fraction of `m` digits to three places.
pub open spec fn frac_scale(m: int) -> int {
    if m == 1 {
        100
    } else if m == 2 {
        10
    } else {
        1
    }
}

/// Integer parts of literals are limited to this many digits, which keeps
/// every literal inside the fixed-point range.
pub const MAX_LIT_DIGITS: usize = 15;

/// Tokenization, one token per step. `acc` carries the tokens already
/// produced; the result is `None` exactly when the text has a malformed
/// literal, an over-long literal, or a character outside the grammar.
pub open spec fn spec_lex(s: Seq<char>, i: int, acc: Seq<SpecTok>) -> Option<Seq<SpecTok>>
    decreases s.len() - i,
    via spec_lex_decreases
{
    if !(0 <= i <= s.len()) {
        None
    } else if i == s.len() {
        Some(acc)
    } else {
        let c = s[i];
        if is_space_char(c) {
            spec_lex(s, i + 1, acc)
        } else if c == '+' {
            spec_lex(s, i + 1, acc.push(SpecTok::Plus))
        } else if c == '-' {
            spec_lex(s, i + 1, acc.push(SpecTok::Minus))
        } else if c == '*' {
            spec_lex(s, i + 1, acc.push(SpecTok::Star))
        } else if c == '/' {
            spec_lex(s, i + 1, acc.push(SpecTok::Slash))
        } else if is_digit_char(c) {
            let dl = digits_len(s, i) as int;
            if dl > 15 {
                None
            } else {
                let ip = digits_val(s, i, i + dl);
                let j = i + dl;
                if j < s.len() && s[j] == '.' {
                    let fl = digits_len(s, j + 1) as int;
                    if fl == 0 {
                        None
                    } else {
                        let m = if fl < 3 {
                            fl
                        } else {
                            3
                        };
                        let fv = digits_val(s, j + 1, j + 1 + m) * frac_scale(m);
                        spec_lex(s, j + 1 + fl, acc.push(SpecTok::Num(ip * 1000 + fv)))
                    }
                } else {
                    spec_lex(s, j, acc.push(SpecTok::Num(ip * 1000)))
                }
            }
        } else if is_ident_start_char(c) {
            let il = ident_len(s, i) as int;
            spec_lex(s, i + il, acc.push(SpecTok::Ident(s.subrange(i, i + il))))
        } else {
            None
        }
    }
}

#[via_fn]
proof fn spec_lex_decreases(s: Seq<char>, i: int, acc: Seq<SpecTok>) {
    if 0 <= i < s.len() {
        lemma_digits_len_le(s, i);
        lemma_ident_len_le(s, i);
        let j = i + digits_len(s, i);
        if j + 1 <= s.len() {
            lemma_digits_len_le(s, j + 1);
        }
    }
}

/// The tokens of a whole text.
pub open spec fn spec_tokenize(s: Seq<char>) -> Option<Seq<SpecTok>> {
    spec_lex(s, 0, Seq::empty())
}

// ------------------------------------------------------------------
// Exec scanning
// ------------------------------------------------------------------
fn is_space_e(c: char) -> (r: bool)
    ensures
        r == is_space_char(c),
{
    c == ' ' || c == '\t'
}

fn is_digit_e(c: char) -> (r: bool)
    ensures
        r == is_digit_char(c),
{
    let u = c as u32;
    48 <= u && u <= 57
}

fn is_ident_start_e(c: char) -> (r: bool)
    ensures
        r == is_ident_start_char(c),
{
    let u = c as u32;
    (65 <= u && u <= 90) || (97 <= u && u <= 122) || u == 95
}

fn is_ident_e(c: char) -> (r: bool)
    ensures
        r == is_ident_char(c),
{
    is_ident_start_e(c) || is_digit_e(c)
}

/// Finds the end of the digit run starting at `i`.
fn digits_run(s: &Vec<char>, i: usize) -> (l: usize)
    requires
        i <= s@.len(),
    ensures
        l == digits_len(s@, i as int),
        i + l <= s@.len(),
        forall|k: int| i <= k < i + l ==> is_digit_char(s@[k]),
{
    let mut j: usize = i;
    while j < s.len() && is_digit_e(s[j])
        invariant
            i <= j <= s@.len(),
            forall|k: int| i <= k < j ==> is_digit_char(s@[k]),
        decreases s@.len() - j,
    {
        j = j + 1;
    }
    proof {
        lemma_digits_run(s@, i as int, j as int);
    }
    j - i
}

/// Finds the end of the name-character run starting at `i`.
fn ident_run(s: &Vec<char>, i: usize) -> (l: usize)
    requires
        i <= s@.len(),
    ensures
        l == ident_len(s@, i as int),
        i + l <= s@.len(),
        forall|k: int| i <= k < i + l ==> is_ident_char(s@[k]),
{
    let mut j: usize = i;
    while j < s.len() && is_ident_e(s[j])
        invariant
            i <= j <= s@.len(),
            forall|k: int| i <= k < j ==> is_ident_char(s@[k]),
        decreases s@.len() - j,
    {
        j = j + 1;
    }
    proof {
        lemma_ident_run(s@, i as int, j as int);
    }
    j - i
}

/// Reads the number denoted by the digits `s[i..j)`.
fn digits_value(s: &Vec<char>, i: usize, j: usize) -> (v: i64)
    requires
        i <= j <= s@.len(),
        j - i <= 15,
        forall|k: int| i <= k < j ==> is_digit_char(s@[k]),
    ensures
        v == digits_val(s@, i as int, j as int),
        0 <= v < pow10((j - i) as nat),
{
    let mut k: usize = i;
    let mut acc: i64 = 0;
    while k < j
        invariant
            i <= k <= j <= s@.len(),
            j - i <= 15,
            forall|m: int| i <= m < j ==> is_digit_char(s@[m]),
            acc == digits_val(s@, i as int, k as int),
            0 <= acc < pow10((k - i) as nat),
        decreases j - k,
    {
        let d = s[k] as u32 - 48;
        proof {
            lemma_pow10_mono((k - i) as nat, 14);
            reveal_with_fuel(pow10, 16);
            assert(pow10(14) == 100000000000000);
        }
        acc = acc * 10 + (d as i64);
        k = k + 1;
    }
    acc
}

/// Copies the characters `s[i..j)`.
fn subvec(s: &Vec<char>, i: usize, j: usize) -> (v: Vec<char>)
    requires
        i <= j <= s@.len(),
    ensures
        v@ == s@.subrange(i as int, j as int),
{
    let mut v: Vec<char> = Vec::new();
    let mut k: usize = i;
    while k < j
        invariant
            i <= k <= j <= s@.len(),
            v@ =~= s@.subrange(i as int, k as int),
        decreases j - k,
    {
        v.push(s[k]);
        k = k + 1;
        proof {
            assert(v@ =~= s@.subrange(i as int, k as int));
        }
    }
    proof {
        assert(v@ =~= s@.subrange(i as int, j as int));
    }
    v
}

/// Tokenizes a text, or reports that it leaves the grammar.
pub fn lex_chars(s: &Vec<char>) -> (r: Option<Vec<Tok>>)
    ensures
        match r {
            Some(ts) => spec_tokenize(s@) == Some(toks_view(ts@)),
            None => spec_tokenize(s@) is None,
        },
{
    let mut toks: Vec<Tok> = Vec::new();
    let mut i: usize = 0;
    proof {
        assert(toks_view(toks@) =~= Seq::<SpecTok>::empty());
    }
    while i < s.len()
        invariant
            i <= s@.len(),
            spec_lex(s@, 0, Seq::empty()) == spec_lex(s@, i as int, toks_view(toks@)),
        decreases s@.len() - i,
    {
        let ghost prev = toks_view(toks@);
        let c = s[i];
        if is_space_e(c) {
            i = i + 1;
        } else if c == '+' {
            toks.push(Tok::Plus);
            i = i + 1;
            proof {
                assert(toks_view(toks@) =~= prev.push(SpecTok::Plus));
            }
        } else if c == '-' {
            toks.push(Tok::Minus);
            i = i + 1;
            proof {
                assert(toks_view(toks@) =~= prev.push(SpecTok::Minus));
            }
        } else if c == '*' {
            toks.push(Tok::Star);
            i = i + 1;
            proof {
                assert(toks_view(toks@) =~= prev.push(SpecTok::Star));
            }
        } else if c == '/' {
            toks.push(Tok::Slash);
            i = i + 1;
            proof {
                assert(toks_view(toks@) =~= prev.push(SpecTok::Slash));
            }
        } else if is_digit_e(c) {
            let dl = digits_run(s, i);
            if dl > MAX_LIT_DIGITS {
                return None;
            }
            let ip = digits_value(s, i, i + dl);
            proof {
                lemma_pow10_mono(dl as nat, 15);
                reveal_with_fuel(pow10, 17);
                assert(pow10(15) == 1000000000000000);
            }
            let j = i + dl;
            let has_frac = j < s.len() && s[j] == '.';
            if has_frac {
                let fl = digits_run(s, j + 1);
                if fl == 0 {
                    return None;
                }
                let m = if fl < 3 {
                    fl
                } else {
                    3
                };
                let fv0 = digits_value(s, j + 1, j + 1 + m);
                proof {
                    lemma_pow10_mono(m as nat, 3);
                    reveal_with_fuel(pow10, 5);
                    assert(pow10(3) == 1000);
                }
                let scale: i64 = if m == 1 {
                    100
                } else if m == 2 {
                    10
                } else {
                    1
                };
                let val = ip * 1000 + fv0 * scale;
                toks.push(Tok::Num(val));
                i = j + 1 + fl;
                proof {
                    assert(toks_view(toks@) =~= prev.push(SpecTok::Num(val as int)));
                }
            } else {
                let val = ip * 1000;
                toks.push(Tok::Num(val));
                i = j;
                proof {
                    assert(toks_view(toks@) =~= prev.push(SpecTok::Num(val as int)));
                }
            }
        } else if is_ident_start_e(c) {
            let il = ident_run(s, i);
            let name = subvec(s, i, i + il);
            toks.push(Tok::Ident(name));
            i = i + il;
            proof {
                assert(toks_view(toks@) =~= prev.push(
                    SpecTok::Ident(s@.subrange(i - il, i as int)),
                ));
            }
        } else {
            return None;
        }
    }
    Some(toks)
}

// ------------------------------------------------------------------
// Syntax trees and parsing
// ------------------------------------------------------------------
/// One of the four arithmetic operators.
#[derive(Clone, Copy, PartialEq, Eq, Structural, Debug)]
pub enum BinOp {
    Add,
    Sub,
    Mul,
    Div,
}

/// An expression tree, as the specification sees it.
pub enum SpecExpr {
    Lit(int),
    Var(Seq<char>),
    Bin(BinOp, Box<SpecExpr>, Box<SpecExpr>),
}

/// An expression tree: a literal in fixed-point units, a variable, or an
/// operator applied to two subtrees.
pub enum Expr {
    Lit(i64),
    Var(Vec<char>),
    Bin(BinOp, Box<Expr>, Box<Expr>),
}

/// The specification-level value of an expression tree.
pub open spec fn expr_view(e: Expr) -> SpecExpr
    decreases e,
{
    match e {
        Expr::Lit(v) => SpecExpr::Lit(v as int),
        Expr::Var(cs) => SpecExpr::Var(cs@),
        Expr::Bin(op, a, b) => SpecExpr::Bin(
            op,
            Box::new(expr_view(*a)),
            Box::new(expr_view(*b)),
        ),
    }
}

/// The operator a token stands for, if any.
pub open spec fn op_of(t: SpecTok) -> Option<BinOp> {
    match t {
        SpecTok::Plus => Some(BinOp::Add),
        SpecTok::Minus => Some(BinOp::Sub),
        SpecTok::Star => Some(BinOp::Mul),
        SpecTok::Slash => Some(BinOp::Div),
        _ => None,
    }
}

/// The leaf a token stands for, if any.
pub open spec fn atom_of(t: SpecTok) -> Option<SpecExpr> {
    match t {
        SpecTok::Num(v) => Some(SpecExpr::Lit(v)),
        SpecTok::Ident(n) => Some(SpecExpr::Var(n)),
        _ => None,
    }
}

/// Closes the additive expression gathered so far: `pending` holds a left
/// operand and its `+` or `-`, waiting for the current term to finish.
pub open spec fn finish_term(pending: Option<(SpecExpr, BinOp)>, term: SpecExpr) -> SpecExpr {
    match pending {
        None => term,
        Some((lhs, op)) => SpecExpr::Bin(op, Box::new(lhs), Box::new(term)),
    }
}

/// One pass over the tokens after the leading leaf: each step consumes an
/// operator and the following leaf. `*` and `/` bind into the current
/// term; `+` and `-` close it. The result is `None` exactly when the
/// token list does not alternate between leaves and operators.
pub open spec fn spec_parse_loop(
    toks: Seq<SpecTok>,
    i: int,
    pending: Option<(SpecExpr, BinOp)>,
    term: SpecExpr,
) -> Option<SpecExpr>
    decreases toks.len() - i,
{
    if !(0 <= i <= toks.len()) {
        None
    } else if i == toks.len() {
        Some(finish_term(pending, term))
    } else {
        match op_of(toks[i]) {
            None => None,
            Some(op) => if i + 1 < toks.len() {
                match atom_of(toks[i + 1]) {
                    None => None,
                    Some(a) => if op == BinOp::Mul || op == BinOp::Div {
                        spec_parse_loop(
                            toks,
                            i + 2,
                            pending,
                            SpecExpr::Bin(op, Box::new(term), Box::new(a)),
                        )
                    } else {
                        spec_parse_loop(toks, i + 2, Some((finish_term(pending, term), op)), a)
                    },
                }
            } else {
                None
            },
        }
    }
}

/// The tree of a token list: a leaf followed by operator-leaf pairs.
pub open spec fn spec_parse(toks: Seq<SpecTok>) -> Option<SpecExpr> {
    if toks.len() == 0 {
        None
    } else {
        match atom_of(toks[0]) {
            None => None,
            Some(a) => spec_parse_loop(toks, 1, None, a),
        }
    }
}

/// The tree of a whole text.
pub open spec fn spec_parse_text(s: Seq<char>) -> Option<SpecExpr> {
    match spec_tokenize(s) {
        None => None,
        Some(ts) => spec_parse(ts),
    }
}

/// The specification-level value of the parser's in-progress pair.
pub open spec fn pending_view(p: Option<(Expr, BinOp)>) -> Option<(SpecExpr, BinOp)> {
    match p {
        None => None,
        Some((e, op)) => Some((expr_view(e), op)),
    }
}

fn op_exec(t: &Tok) -> (r: Option<BinOp>)
    ensures
        r == op_of(tok_view(*t)),
{
    match t {
        Tok::Plus => Some(BinOp::Add),
        Tok::Minus => Some(BinOp::Sub),
        Tok::Star => Some(BinOp::Mul),
        Tok::Slash => Some(BinOp::Div),
        _ => None,
    }
}

fn atom_exec(t: &Tok) -> (r: Option<Expr>)
    ensures
        match r {
            Some(e) => atom_of(tok_view(*t)) == Some(expr_view(e)),
            None => atom_of(tok_view(*t)) is None,
        },
{
    match t {
        Tok::Num(v) => Some(Expr::Lit(*v)),
        Tok::Ident(cs) => Some(Expr::Var(cs.clone())),
        _ => None,
    }
}

fn finish_exec(pending: Option<(Expr, BinOp)>, term: Expr) -> (r: Expr)
    ensures
        expr_view(r) == finish_term(pending_view(pending), expr_view(term)),
{
    match pending {
        None => term,
        Some((lhs, op)) => Expr::Bin(op, Box::new(lhs), Box::new(term)),
    }
}

/// Parses a token list, or reports that it is not a well-formed
/// expression.
pub fn parse(toks: &Vec<Tok>) -> (r: Option<Expr>)
    ensures
        match r {
            Some(e) => spec_parse(toks_view(toks@)) == Some(expr_view(e)),
            None => spec_parse(toks_view(toks@)) is None,
        },
{
    if toks.len() == 0 {
        return None;
    }
    let first = match atom_exec(&toks[0]) {
        Some(a) => a,
        None => {
            return None;
        },
    };
    let mut term = first;
    let mut pending: Option<(Expr, BinOp)> = None;
    let mut i: usize = 1;
    while i < toks.len()
        invariant
            1 <= i <= toks@.len(),
            spec_parse(toks_view(toks@)) == spec_parse_loop(
                toks_view(toks@),
                i as int,
                pending_view(pending),
                expr_view(term),
            ),
        decreases toks@.len() - i,
    {
        let op = match op_exec(&toks[i]) {
            Some(op) => op,
            None => {
                return None;
            },
        };
        if i + 1 >= toks.len() {
            return None;
        }
        let a = match atom_exec(&toks[i + 1]) {
            Some(a) => a,
            None => {
                return None;
            },
        };
        if op == BinOp::Mul || op == BinOp::Div {
            term = Expr::Bin(op, Box::new(term), Box::new(a));
        } else {
            pending = Some((finish_exec(pending, term), op));
            term = a;
        }
        i = i + 2;
    }
    Some(finish_exec(pending, term))
}

// ------------------------------------------------------------------
// Evaluation
// ------------------------------------------------------------------
/// The value of an expression tree under a context: `None` on an unbound
/// variable, division by zero, or a result outside the fixed-point range.
pub open spec fn spec_eval(e: SpecExpr, ctx: Map<Seq<char>, int>) -> Option<int>
    decreases e,
{
    match e {
        SpecExpr::Lit(v) => if fits_i64(v) {
            Some(v)
        } else {
            None
        },
        SpecExpr::Var(n) => if ctx.contains_key(n) {
            Some(ctx[n])
        } else {
            None
        },
        SpecExpr::Bin(op, a, b) => match (spec_eval(*a, ctx), spec_eval(*b, ctx)) {
            (Some(x), Some(y)) => match op {
                BinOp::Add => fx_add(x, y),
                BinOp::Sub => fx_sub(x, y),
                BinOp::Mul => fx_mul(x, y),
                BinOp::Div => fx_div(x, y),
            },
            _ => None,
        },
    }
}

/// Evaluates an expression tree against a context.
pub fn eval(e: &Expr, ctx: &VarMap) -> (r: Option<Scalar>)
    ensures
        opt_milli(r) == spec_eval(expr_view(*e), ctx@),
    decreases *e,
{
    match e {
        Expr::Lit(v) => Some(Scalar { milli: *v }),
        Expr::Var(n) => ctx.get_chars(n),
        Expr::Bin(op, a, b) => {
            let x = match eval(a, ctx) {
                Some(x) => x,
                None => {
                    return None;
                },
            };
            let y = match eval(b, ctx) {
                Some(y) => y,
                None => {
                    return None;
                },
            };
            match op {
                BinOp::Add => x.add(y),
                BinOp::Sub => x.sub(y),
                BinOp::Mul => x.mul(y),
                BinOp::Div => x.div(y),
            }
        },
    }
}

// ------------------------------------------------------------------
// Whole texts
// ------------------------------------------------------------------
/// The value of a whole text under a context.
pub open spec fn spec_eval_text(s: Seq<char>, ctx: Map<Seq<char>, int>) -> Option<int> {
    match spec_parse_text(s) {
        None => None,
        Some(e) => spec_eval(e, ctx),
    }
}

/// Why a row's text produced no value.
#[derive(Clone, Copy, PartialEq, Eq, Structural, Debug)]
pub enum EvalError {
    /// The text cannot be tokenized or parsed.
    Parse,
    /// The text parses, but references an unbound variable, divides by
    /// zero, or leaves the fixed-point range.
    Evaluation,
}

/// Collects the characters of a text.
pub fn chars_vec(s: &str) -> (v: Vec<char>)
    ensures
        v@ == s@,
{
    let n = s.unicode_len();
    let mut v: Vec<char> = Vec::new();
    let mut i: usize = 0;
    while i < n
        invariant
            i <= n,
            n == s@.len(),
            v@ =~= s@.take(i as int),
        decreases n - i,
    {
        v.push(s.get_char(i));
        i = i + 1;
        proof {
            assert(v@ =~= s@.take(i as int));
        }
    }
    proof {
        assert(v@ =~= s@);
    }
    v
}

/// Parses and evaluates an expression text against a context,
/// distinguishing a text outside the grammar from one that fails to
/// evaluate.
pub fn eval_text(s: &str, ctx: &VarMap) -> (r: Result<Scalar, EvalError>)
    ensures
        match r {
            Ok(v) => spec_eval_text(s@, ctx@) == Some(v.milli as int),
            Err(e) => spec_eval_text(s@, ctx@) is None && ((e == EvalError::Parse) <==> (
            spec_parse_text(s@) is None)),
        },
{
    let cs = chars_vec(s);
    let toks = match lex_chars(&cs) {
        Some(ts) => ts,
        None => {
            return Err(EvalError::Parse);
        },
    };
    let ast = match parse(&toks) {
        Some(e) => e,
        None => {
            return Err(EvalError::Parse);
        },
    };
    match eval(&ast, ctx) {
        Some(v) => Ok(v),
        None => Err(EvalError::Evaluation),
    }
}

} // verus!
