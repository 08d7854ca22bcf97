//! The parser: one syntax node from a character buffer, plus the position
//! of the unconsumed remainder, to be invoked repeatedly by the driver.
//!
//! The grammar: an expression is a quoted atom (`#name`), a bracketed
//! list, a parenthesized call, or an atom (a quoted string, a number, or a
//! symbol, tried in that order), with surrounding whitespace consumed.
//! The whitespace consumed between tokens is the four characters space,
//! tab, carriage return and line feed; a symbol may not contain any
//! Unicode whitespace character. A maximal run of sign/digit characters
//! that does not form an integer in range (a bare `-`, a misplaced sign, a
//! value beyond 64 bits) is a parse failure, reported as `None` rather
//! than a crash.

use vstd::prelude::*;

use vstd::string::StrSliceExecFns;

use crate::ast::Atom;
use crate::ast::Elem;
use crate::ast::ElemModel;
use crate::ast::view_items;

verus! {

/// A whitespace character.
pub open spec fn is_space_char(c: char) -> bool {
    c == ' ' || c == '\t' || c == '\n' || c == '\r'
}

/// A Unicode whitespace character (the White_Space property).
pub open spec fn is_unicode_space_char(c: char) -> bool {
    let u = c as u32;
    ||| (9 <= u && u <= 13)
    ||| u == 32
    ||| u == 0x85
    ||| u == 0xA0
    ||| u == 0x1680
    ||| (0x2000 <= u && u <= 0x200A)
    ||| u == 0x2028
    ||| u == 0x2029
    ||| u == 0x202F
    ||| u == 0x205F
    ||| u == 0x3000
}

/// A character that may stand in a symbol: no whitespace of any kind, no
/// bracket.
pub open spec fn is_atom_char(c: char) -> bool {
    !is_unicode_space_char(c) && c != '(' && c != ')' && c != '[' && c != ']'
}

/// A character that may stand in a string literal.
pub open spec fn is_string_char(c: char) -> bool {
    c != '"'
}

/// A decimal digit.
pub open spec fn is_digit_char(c: char) -> bool {
    48 <= c as u32 && c as u32 <= 57
}

/// A character that may stand in a number token.
pub open spec fn is_number_char(c: char) -> bool {
    is_digit_char(c) || c == '-'
}

/// Whether `c` may stand in a symbol.
pub fn is_atom(c: char) -> (r: bool)
    ensures
        r == is_atom_char(c),
{
    if c == '(' || c == ')' || c == '[' || c == ']' {
        return false;
    }
    let u = c as u32;
    !((9 <= u && u <= 13) || u == 32 || u == 0x85 || u == 0xA0 || u == 0x1680 || (0x2000 <= u && u
        <= 0x200A) || u == 0x2028 || u == 0x2029 || u == 0x202F || u == 0x205F || u == 0x3000)
}

/// Whether `c` may stand in a string literal.
pub fn is_string(c: char) -> (r: bool)
    ensures
        r == is_string_char(c),
{
    c != '"'
}

/// Whether `c` may stand in a number token.
pub fn is_number(c: char) -> (r: bool)
    ensures
        r == is_number_char(c),
{
    let u = c as u32;
    (48 <= u && u <= 57) || c == '-'
}

/// The first position at or after `i` whose character fails `pred`.
pub open spec fn scan_while(s: Seq<char>, i: int, pred: spec_fn(char) -> bool) -> int
    decreases s.len() - i,
{
    if i < 0 || i >= s.len() || !pred(s[i]) {
        i
    } else {
        scan_while(s, i + 1, pred)
    }
}

/// The first non-whitespace position at or after `i`.
pub open spec fn spec_skip_ws(s: Seq<char>, i: int) -> int {
    scan_while(s, i, |c: char| is_space_char(c))
}

/// The end of the run of symbol characters from `i`.
pub open spec fn spec_scan_atom(s: Seq<char>, i: int) -> int {
    scan_while(s, i, |c: char| is_atom_char(c))
}

/// The end of the run of string characters from `i`.
pub open spec fn spec_scan_string(s: Seq<char>, i: int) -> int {
    scan_while(s, i, |c: char| is_string_char(c))
}

/// The end of the run of number characters from `i`.
pub open spec fn spec_scan_number(s: Seq<char>, i: int) -> int {
    scan_while(s, i, |c: char| is_number_char(c))
}

/// The numeric value of a digit character.
pub open spec fn digit_val(c: char) -> nat {
    if is_digit_char(c) {
        ((c as u32) - 48) as nat
    } else {
        0
    }
}

/// Whether every character is a decimal digit.
pub open spec fn all_digits(ds: Seq<char>) -> bool {
    forall|i: int| 0 <= i < ds.len() ==> is_digit_char(#[trigger] ds[i])
}

/// The value of a digit string, most significant first.
pub open spec fn digits_val(ds: Seq<char>) -> nat
    decreases ds.len(),
{
    if ds.len() == 0 {
        0
    } else {
        digits_val(ds.drop_last()) * 10 + digit_val(ds.last())
    }
}

/// The signed 64-bit integer denoted by a number token, if the token is an
/// optional `-` followed by at least one digit and the value is in range.
pub open spec fn parse_i64(t: Seq<char>) -> Option<i64> {
    if t.len() == 0 {
        None
    } else if t[0] == '-' {
        let ds = t.subrange(1, t.len() as int);
        if ds.len() == 0 || !all_digits(ds) {
            None
        } else if digits_val(ds) > 0x8000_0000_0000_0000 {
            None
        } else {
            Some((0 - digits_val(ds) as int) as i64)
        }
    } else {
        if !all_digits(t) {
            None
        } else if digits_val(t) > i64::MAX {
            None
        } else {
            Some(digits_val(t) as i64)
        }
    }
}

/// An atom starting at the non-whitespace position `a`: a quoted string, a
/// number token, or a symbol, tried in that order, with trailing
/// whitespace consumed.
pub open spec fn spec_atom(s: Seq<char>, a: int) -> Option<(ElemModel, int)>
    recommends
        0 <= a < s.len(),
{
    let jq = spec_scan_string(s, a + 1);
    if s[a] == '"' && jq > a + 1 && jq < s.len() && s[jq] == '"' {
        Some(
            (
                ElemModel::Atom(crate::ast::AtomModel::Text(s.subrange(a + 1, jq))),
                spec_skip_ws(s, jq + 1),
            ),
        )
    } else if is_number_char(s[a]) {
        let j = spec_scan_number(s, a);
        match parse_i64(s.subrange(a, j)) {
            Some(n) => Some(
                (ElemModel::Atom(crate::ast::AtomModel::Number(n)), spec_skip_ws(s, j)),
            ),
            None => None,
        }
    } else {
        let j = spec_scan_atom(s, a);
        if j > a {
            Some(
                (
                    ElemModel::Atom(crate::ast::AtomModel::Symbol(s.subrange(a, j))),
                    spec_skip_ws(s, j),
                ),
            )
        } else {
            None
        }
    }
}

/// One expression starting at `i`: leading whitespace, then a quoted atom,
/// a bracketed list, a parenthesized call, or an atom, then trailing
/// whitespace; `None` on no match.
pub open spec fn spec_expr(s: Seq<char>, i: int) -> Option<(ElemModel, int)>
    decreases s.len() - i, 1int,
{
    let a = spec_skip_ws(s, i);
    if a < i || a >= s.len() {
        None
    } else if s[a] == '#' && spec_scan_atom(s, a + 1) > a + 1 {
        let j = spec_scan_atom(s, a + 1);
        Some(
            (
                ElemModel::Single(crate::ast::AtomModel::Symbol(s.subrange(a + 1, j))),
                spec_skip_ws(s, j),
            ),
        )
    } else if s[a] == '[' {
        let inner = spec_items(s, a + 1);
        if inner.1 < s.len() && s[inner.1] == ']' {
            Some((ElemModel::List(inner.0), spec_skip_ws(s, inner.1 + 1)))
        } else {
            None
        }
    } else if s[a] == '(' {
        let inner = spec_items(s, a + 1);
        if inner.1 < s.len() && s[inner.1] == ')' {
            Some((ElemModel::Call(inner.0), spec_skip_ws(s, inner.1 + 1)))
        } else {
            None
        }
    } else {
        spec_atom(s, a)
    }
}

/// Zero or more expressions from `i` on: the parsed nodes and the position
/// where the first non-expression begins.
pub open spec fn spec_items(s: Seq<char>, i: int) -> (Seq<ElemModel>, int)
    decreases s.len() - i, 2int,
{
    if i < 0 || i > s.len() {
        (Seq::empty(), i)
    } else {
        match spec_expr(s, i) {
            Some((e, j)) => if i < j <= s.len() {
                let rest = spec_items(s, j);
                (seq![e] + rest.0, rest.1)
            } else {
                (Seq::empty(), i)
            },
            None => (Seq::empty(), i),
        }
    }
}

/// The first non-whitespace position at or after `i`.
fn skip_ws(s: &Vec<char>, i: usize) -> (j: usize)
    requires
        i <= s@.len(),
    ensures
        j == spec_skip_ws(s@, i as int),
        i <= j <= s@.len(),
{
    let mut j = i;
    while j < s.len() && (s[j] == ' ' || s[j] == '\t' || s[j] == '\n' || s[j] == '\r')
        invariant
            i <= j <= s@.len(),
            spec_skip_ws(s@, i as int) == spec_skip_ws(s@, j as int),
        decreases s@.len() - j,
    {
        j = j + 1;
    }
    j
}

/// The end of the run of symbol characters from `i`.
fn scan_atom_chars(s: &Vec<char>, i: usize) -> (j: usize)
    requires
        i <= s@.len(),
    ensures
        j == spec_scan_atom(s@, i as int),
        i <= j <= s@.len(),
{
    let mut j = i;
    while j < s.len() && is_atom(s[j])
        invariant
            i <= j <= s@.len(),
            spec_scan_atom(s@, i as int) == spec_scan_atom(s@, j as int),
        decreases s@.len() - j,
    {
        j = j + 1;
    }
    j
}

/// The end of the run of string characters from `i`.
fn scan_string_chars(s: &Vec<char>, i: usize) -> (j: usize)
    requires
        i <= s@.len(),
    ensures
        j == spec_scan_string(s@, i as int),
        i <= j <= s@.len(),
        j < s@.len() ==> s@[j as int] == '"',
{
    let mut j = i;
    while j < s.len() && is_string(s[j])
        invariant
            i <= j <= s@.len(),
            spec_scan_string(s@, i as int) == spec_scan_string(s@, j as int),
        decreases s@.len() - j,
    {
        j = j + 1;
    }
    j
}

/// The end of the run of number characters from `i`.
fn scan_number_chars(s: &Vec<char>, i: usize) -> (j: usize)
    requires
        i <= s@.len(),
    ensures
        j == spec_scan_number(s@, i as int),
        i <= j <= s@.len(),
{
    let mut j = i;
    while j < s.len() && is_number(s[j])
        invariant
            i <= j <= s@.len(),
            spec_scan_number(s@, i as int) == spec_scan_number(s@, j as int),
        decreases s@.len() - j,
    {
        j = j + 1;
    }
    j
}

/// The characters of `s` between `from` and `to`, as an owned string.
fn substring(s: &Vec<char>, from: usize, to: usize) -> (r: String)
    requires
        from <= to <= s@.len(),
    ensures
        r@ == s@.subrange(from as int, to as int),
{
    let mut r = String::new();
    let mut k = from;
    while k < to
        invariant
            from <= k <= to <= s@.len(),
            r@ == s@.subrange(from as int, k as int),
        decreases to - k,
    {
        crate::print::push_char(&mut r, s[k]);
        proof {
            assert(s@.subrange(from as int, k + 1) =~= s@.subrange(from as int, k as int).push(
                s@[k as int],
            ));
        }
        k = k + 1;
    }
    r
}

/// Values of prefixes of a digit string never shrink.
proof fn lemma_digits_val_grows(ds: Seq<char>, k: int)
    requires
        0 <= k <= ds.len(),
    ensures
        digits_val(ds.subrange(0, k)) <= digits_val(ds),
    decreases ds.len() - k,
{
    if k < ds.len() {
        assert(ds.subrange(0, k + 1).drop_last() =~= ds.subrange(0, k));
        assert(digits_val(ds.subrange(0, k + 1)) == digits_val(ds.subrange(0, k)) * 10 + digit_val(
            ds[k],
        ));
        lemma_digits_val_grows(ds, k + 1);
        assert(ds.subrange(0, ds.len() as int) =~= ds);
    } else {
        assert(ds.subrange(0, ds.len() as int) =~= ds);
    }
}

/// The value of the digit string `s[from..to]`, when every character in
/// that range is a digit and the value is at most `2^63`; `None` when a
/// character is not a digit or the value is larger.
fn digits_value(s: &Vec<char>, from: usize, to: usize) -> (r: Option<u64>)
    requires
        from <= to <= s@.len(),
    ensures
        ({
            let ds = s@.subrange(from as int, to as int);
            match r {
                Some(v) => all_digits(ds) && v == digits_val(ds) && v <= 0x8000_0000_0000_0000u64,
                None => !all_digits(ds) || digits_val(ds) > 0x8000_0000_0000_0000,
            }
        }),
{
    let ghost ds = s@.subrange(from as int, to as int);
    let mut acc: u128 = 0;
    let mut k = from;
    while k < to
        invariant
            from <= k <= to <= s@.len(),
            ds == s@.subrange(from as int, to as int),
            all_digits(ds.subrange(0, k - from)),
            acc == digits_val(ds.subrange(0, k - from)),
            acc <= 0x8000_0000_0000_0000u128,
        decreases to - k,
    {
        let c = s[k];
        let u = c as u32;
        if !(48 <= u && u <= 57) {
            proof {
                assert(ds[k - from] == s@[k as int]);
                assert(!is_digit_char(ds[k - from]));
            }
            return None;
        }
        let d: u128 = (u - 48) as u128;
        proof {
            assert(ds.subrange(0, k - from + 1).drop_last() =~= ds.subrange(0, k - from));
            assert(ds.subrange(0, k - from + 1).last() == s@[k as int]);
            assert(is_digit_char(s@[k as int]));
            assert(digit_val(s@[k as int]) == d);
        }
        acc = acc * 10 + d;
        if acc > 0x8000_0000_0000_0000u128 {
            proof {
                lemma_digits_val_grows(ds, k - from + 1);
            }
            return None;
        }
        k = k + 1;
    }
    proof {
        assert(ds.subrange(0, to - from) =~= ds);
    }
    Some(acc as u64)
}

/// The number token `s[from..to]` as a signed 64-bit integer.
fn number_token(s: &Vec<char>, from: usize, to: usize) -> (r: Option<i64>)
    requires
        from <= to <= s@.len(),
    ensures
        r == parse_i64(s@.subrange(from as int, to as int)),
{
    let ghost t = s@.subrange(from as int, to as int);
    if from == to {
        return None;
    }
    if s[from] == '-' {
        proof {
            assert(t.subrange(1, t.len() as int) =~= s@.subrange(from + 1, to as int));
        }
        if from + 1 == to {
            return None;
        }
        match digits_value(s, from + 1, to) {
            Some(v) => {
                let wide: i128 = 0i128 - (v as i128);
                Some(wide as i64)
            },
            None => None,
        }
    } else {
        match digits_value(s, from, to) {
            Some(v) => {
                if v > 0x7FFF_FFFF_FFFF_FFFFu64 {
                    None
                } else {
                    Some(v as i64)
                }
            },
            None => None,
        }
    }
}

/// An atom starting at the non-whitespace position `a`.
fn parse_atom(s: &Vec<char>, a: usize) -> (r: Option<(Elem, usize)>)
    requires
        a < s@.len(),
    ensures
        match (r, spec_atom(s@, a as int)) {
            (Some((e, j)), Some(p)) => e.view() == p.0 && j as int == p.1 && a < j <= s@.len(),
            (None, None) => true,
            _ => false,
        },
{
    let n = s.len();
    let c = s[a];
    if c == '"' {
        let jq = scan_string_chars(s, a + 1);
        if jq > a + 1 && jq < s.len() {
            let text = substring(s, a + 1, jq);
            let j = skip_ws(s, jq + 1);
            return Some((Elem::Atom(Atom::String(text)), j));
        }
    }
    if is_number(c) {
        let j = scan_number_chars(s, a);
        match number_token(s, a, j) {
            Some(n) => {
                let j2 = skip_ws(s, j);
                Some((Elem::Atom(Atom::Number(n)), j2))
            },
            None => None,
        }
    } else {
        let j = scan_atom_chars(s, a);
        if j > a {
            let name = substring(s, a, j);
            let j2 = skip_ws(s, j);
            Some((Elem::Atom(Atom::Symbol(name)), j2))
        } else {
            None
        }
    }
}

/// One expression starting at `i`, and the position of the unconsumed
/// remainder; `None` if the leading content does not match the grammar.
pub fn expr(s: &Vec<char>, i: usize) -> (r: Option<(Elem, usize)>)
    requires
        i <= s@.len(),
    ensures
        match (r, spec_expr(s@, i as int)) {
            (Some((e, j)), Some(p)) => e.view() == p.0 && j as int == p.1 && i < j <= s@.len(),
            (None, None) => true,
            _ => false,
        },
    decreases s@.len() - i, 3int,
{
    let a = skip_ws(s, i);
    if a >= s.len() {
        return None;
    }
    let c = s[a];
    if c == '#' {
        let j = scan_atom_chars(s, a + 1);
        if j > a + 1 {
            let name = substring(s, a + 1, j);
            let j2 = skip_ws(s, j);
            return Some((Elem::Single(Atom::Symbol(name)), j2));
        }
    }
    if c == '[' {
        let (elems, j) = parse_items(s, a + 1);
        if j < s.len() && s[j] == ']' {
            let j2 = skip_ws(s, j + 1);
            Some((Elem::List(elems), j2))
        } else {
            None
        }
    } else if c == '(' {
        let (elems, j) = parse_items(s, a + 1);
        if j < s.len() && s[j] == ')' {
            let j2 = skip_ws(s, j + 1);
            Some((Elem::Call(elems), j2))
        } else {
            None
        }
    } else {
        parse_atom(s, a)
    }
}

/// Zero or more expressions from `i` on.
fn parse_items(s: &Vec<char>, i: usize) -> (r: (Vec<Elem>, usize))
    requires
        i <= s@.len(),
    ensures
        ({
            let p = spec_items(s@, i as int);
            view_items(r.0@) == p.0 && r.1 as int == p.1 && i <= r.1 <= s@.len()
        }),
    decreases s@.len() - i, 4int,
{
    match expr(s, i) {
        Some((e, j)) => {
            let (rest, end) = parse_items(s, j);
            let mut out = rest;
            let ghost tail_views = view_items(out@);
            let ghost before = out@;
            out.insert(0, e);
            proof {
                assert(out@.subrange(1, out@.len() as int) =~= before);
                assert(view_items(out@) =~= seq![e.view()] + tail_views);
            }
            (out, end)
        },
        None => {
            let out: Vec<Elem> = Vec::new();
            (out, i)
        },
    }
}

/// The characters of a text buffer, ready for parsing.
pub fn chars_of(input: &str) -> (r: Vec<char>)
    ensures
        r@ == input@,
{
    let n = input.unicode_len();
    let mut r: Vec<char> = Vec::new();
    let mut k: usize = 0;
    while k < n
        invariant
            k <= n,
            n == input@.len(),
            r@ == input@.subrange(0, k as int),
        decreases n - k,
    {
        r.push(input.get_char(k));
        proof {
            assert(input@.subrange(0, k + 1) =~= input@.subrange(0, k as int).push(
                input@[k as int],
            ));
        }
        k = k + 1;
    }
    proof {
        assert(input@.subrange(0, n as int) =~= input@);
    }
    r
}

} // verus!
