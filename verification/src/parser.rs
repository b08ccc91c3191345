//! The streaming JSON-like value parser.
//!
//! Parsing one value from a buffer has three outcomes: the value together
//! with how many characters it consumed; "incomplete", meaning the buffer is
//! a prefix of some value and more input is needed; or "failure", meaning no
//! extension of the buffer parses. The grammar is given by the `p_*` spec
//! functions below, and the executable parser is proved to return exactly
//! what they describe.
use vstd::prelude::*;

use crate::json::{dedup_exec, dedup_fields, fields_model, items_model, JVal, JsonValue};
use crate::textutil::{char_of, chars_to_string, to_chars};

verus! {

broadcast use vstd::std_specs::vec::group_vec_axioms, vstd::utf8::char_u32_cast;

/// Outcome of a parse, in the ghost world: `n` characters consumed yielding
/// `v`, more input needed, or a failure no further input can mend.
pub enum PRes<T> {
    Done { v: T, n: nat },
    More,
    Bad,
}

/// Outcome of an executable parse: the parsed piece and the count of
/// characters consumed, more input needed, or failure.
pub enum Step<T> {
    Done(T, usize),
    More,
    Bad,
}

/// Whitespace accepted around structural characters.
pub open spec fn is_ws(c: char) -> bool {
    c == ' ' || c == '\t' || c == '\r' || c == '\n'
}

/// Decimal digit.
pub open spec fn is_digit(c: char) -> bool {
    '0' <= c && c <= '9'
}

/// Hexadecimal digit.
pub open spec fn is_hex(c: char) -> bool {
    is_digit(c) || ('a' <= c && c <= 'f') || ('A' <= c && c <= 'F')
}

/// Value of a hexadecimal digit.
pub open spec fn hex_val(c: char) -> u32 {
    if is_digit(c) {
        ((c as u32) - ('0' as u32)) as u32
    } else if 'a' <= c && c <= 'f' {
        ((c as u32) - ('a' as u32) + 10) as u32
    } else {
        ((c as u32) - ('A' as u32) + 10) as u32
    }
}

/// A code that is a Unicode scalar value (four hex digits never exceed
/// 0xFFFF, so only the surrogate range is excluded).
pub open spec fn is_scalar_code(n: u32) -> bool {
    n < 0xD800 || (0xE000 <= n && n <= 0x10FFFF)
}

/// Count of consecutive whitespace characters at `i`.
pub open spec fn ws_len(s: Seq<char>, i: nat) -> nat
    decreases s.len() - i,
{
    if i < s.len() && is_ws(s[i as int]) {
        1 + ws_len(s, i + 1)
    } else {
        0
    }
}

/// Count of consecutive decimal digits at `i`.
pub open spec fn digits_len(s: Seq<char>, i: nat) -> nat
    decreases s.len() - i,
{
    if i < s.len() && is_digit(s[i as int]) {
        1 + digits_len(s, i + 1)
    } else {
        0
    }
}

/// Match the fixed word `w` at `i`; `n` is the word's length on success.
pub open spec fn p_lit(s: Seq<char>, i: nat, w: Seq<char>, k: nat) -> PRes<()>
    decreases w.len() - k,
{
    if k >= w.len() {
        PRes::Done { v: (), n: w.len() }
    } else if i + k >= s.len() {
        PRes::More
    } else if s[(i + k) as int] == w[k as int] {
        p_lit(s, i, w, k + 1)
    } else {
        PRes::Bad
    }
}

/// Body of a quoted string, starting after the opening quote; the consumed
/// count includes the closing quote. Escapes `\n`, `\t`, `\\`, `\"` and
/// `\uXXXX` (four hex digits, no surrogates) are decoded.
pub open spec fn p_str(s: Seq<char>, i: nat) -> PRes<Seq<char>>
    decreases s.len() - i,
{
    if i >= s.len() {
        PRes::More
    } else {
        let c = s[i as int];
        if c == '"' {
            PRes::Done { v: Seq::empty(), n: 1 }
        } else if c == '\\' {
            if i + 1 >= s.len() {
                PRes::More
            } else {
                let e = s[(i + 1) as int];
                if e == 'n' || e == 't' || e == '\\' || e == '"' {
                    let d = if e == 'n' {
                        '\n'
                    } else if e == 't' {
                        '\t'
                    } else {
                        e
                    };
                    match p_str(s, i + 2) {
                        PRes::Done { v, n } => PRes::Done { v: seq![d] + v, n: n + 2 },
                        PRes::More => PRes::More,
                        PRes::Bad => PRes::Bad,
                    }
                } else if e == 'u' {
                    if i + 6 > s.len() {
                        PRes::More
                    } else if is_hex(s[(i + 2) as int]) && is_hex(s[(i + 3) as int]) && is_hex(s[(i + 4) as int]) && is_hex(s[(i + 5) as int]) {
                        let code = ((hex_val(s[(i + 2) as int]) * 4096 + hex_val(s[(i + 3) as int]) * 256 + hex_val(s[(i + 4) as int]) * 16 + hex_val(s[(i + 5) as int])) as u32);
                        if is_scalar_code(code) {
                            match p_str(s, i + 6) {
                                PRes::Done { v, n } => PRes::Done {
                                    v: seq![char_of(code)] + v,
                                    n: n + 6,
                                },
                                PRes::More => PRes::More,
                                PRes::Bad => PRes::Bad,
                            }
                        } else {
                            PRes::Bad
                        }
                    } else {
                        PRes::Bad
                    }
                } else {
                    PRes::Bad
                }
            }
        } else {
            match p_str(s, i + 1) {
                PRes::Done { v, n } => PRes::Done { v: seq![c] + v, n: n + 1 },
                PRes::More => PRes::More,
                PRes::Bad => PRes::Bad,
            }
        }
    }
}

/// The optional exponent and end of a number token that began at `start`
/// and whose mantissa ends at `p`. A number only completes once a character
/// that cannot extend it is in the buffer.
pub open spec fn p_exp(s: Seq<char>, start: nat, p: nat) -> PRes<Seq<char>> {
    if p >= s.len() {
        PRes::More
    } else if s[p as int] == 'e' || s[p as int] == 'E' {
        if p + 1 >= s.len() {
            PRes::More
        } else {
            let q = if s[(p + 1) as int] == '+' || s[(p + 1) as int] == '-' {
                p + 2
            } else {
                p + 1
            };
            if q >= s.len() {
                PRes::More
            } else if is_digit(s[q as int]) {
                let d = q + digits_len(s, q);
                if d >= s.len() {
                    PRes::More
                } else {
                    PRes::Done { v: s.subrange(start as int, d as int), n: (d - start) as nat }
                }
            } else {
                PRes::Bad
            }
        }
    } else {
        PRes::Done { v: s.subrange(start as int, p as int), n: (p - start) as nat }
    }
}

/// A number token at `i` (`s[i]` is a sign, digit or dot): optional sign,
/// digits with an optional fraction, or a bare `.digits`, then `p_exp`.
/// The raw token text is kept as the value.
pub open spec fn p_num(s: Seq<char>, i: nat) -> PRes<Seq<char>> {
    if i >= s.len() {
        PRes::More
    } else {
        let k = if s[i as int] == '-' || s[i as int] == '+' {
            i + 1
        } else {
            i
        };
        if k >= s.len() {
            PRes::More
        } else if is_digit(s[k as int]) {
            let m = k + digits_len(s, k);
            if m >= s.len() {
                PRes::More
            } else if s[m as int] == '.' {
                let f = m + 1 + digits_len(s, m + 1);
                if f >= s.len() {
                    PRes::More
                } else {
                    p_exp(s, i, f)
                }
            } else {
                p_exp(s, i, m)
            }
        } else if s[k as int] == '.' {
            if k + 1 >= s.len() {
                PRes::More
            } else if is_digit(s[(k + 1) as int]) {
                let f = k + 1 + digits_len(s, k + 1);
                if f >= s.len() {
                    PRes::More
                } else {
                    p_exp(s, i, f)
                }
            } else {
                PRes::Bad
            }
        } else {
            PRes::Bad
        }
    }
}

/// One value at `i`: leading whitespace, then a literal, number, string,
/// object or array by its first character.
pub open spec fn p_value(s: Seq<char>, i: nat) -> PRes<JVal>
    decreases s.len() - i, 0nat,
{
    let j = i + ws_len(s, i);
    if j >= s.len() {
        PRes::More
    } else {
        let c = s[j as int];
        if c == 'n' {
            match p_lit(s, j, seq!['n', 'u', 'l', 'l'], 0) {
                PRes::Done { v: _, n } => PRes::Done { v: JVal::Null, n: (j + n - i) as nat },
                PRes::More => PRes::More,
                PRes::Bad => PRes::Bad,
            }
        } else if c == 't' {
            match p_lit(s, j, seq!['t', 'r', 'u', 'e'], 0) {
                PRes::Done { v: _, n } => PRes::Done {
                    v: JVal::Bool(true),
                    n: (j + n - i) as nat,
                },
                PRes::More => PRes::More,
                PRes::Bad => PRes::Bad,
            }
        } else if c == 'f' {
            match p_lit(s, j, seq!['f', 'a', 'l', 's', 'e'], 0) {
                PRes::Done { v: _, n } => PRes::Done {
                    v: JVal::Bool(false),
                    n: (j + n - i) as nat,
                },
                PRes::More => PRes::More,
                PRes::Bad => PRes::Bad,
            }
        } else if c == '"' {
            match p_str(s, j + 1) {
                PRes::Done { v, n } => PRes::Done { v: JVal::Str(v), n: (j + 1 + n - i) as nat },
                PRes::More => PRes::More,
                PRes::Bad => PRes::Bad,
            }
        } else if c == '{' {
            match p_fields(s, j + 1, true) {
                PRes::Done { v, n } => PRes::Done {
                    v: JVal::Obj(dedup_fields(v)),
                    n: (j + 1 + n - i) as nat,
                },
                PRes::More => PRes::More,
                PRes::Bad => PRes::Bad,
            }
        } else if c == '[' {
            match p_items(s, j + 1) {
                PRes::Done { v, n } => PRes::Done { v: JVal::Arr(v), n: (j + 1 + n - i) as nat },
                PRes::More => PRes::More,
                PRes::Bad => PRes::Bad,
            }
        } else if c == '-' || c == '+' || c == '.' || is_digit(c) {
            match p_num(s, j) {
                PRes::Done { v, n } => PRes::Done { v: JVal::Num(v), n: (j + n - i) as nat },
                PRes::More => PRes::More,
                PRes::Bad => PRes::Bad,
            }
        } else {
            PRes::Bad
        }
    }
}

/// The field list of an object, from just after `{` or just after a
/// separating comma; `first` tells whether a closing `}` may come at once.
/// The consumed count includes the closing brace. Pairs are kept raw and in
/// order; duplicate keys are resolved by `dedup_fields` at the object node.
pub open spec fn p_fields(s: Seq<char>, i: nat, first: bool) -> PRes<Seq<(Seq<char>, JVal)>>
    decreases s.len() - i, 1nat,
{
    let j = i + ws_len(s, i);
    if j >= s.len() {
        PRes::More
    } else if s[j as int] == '}' && first {
        PRes::Done { v: Seq::empty(), n: (j + 1 - i) as nat }
    } else if s[j as int] == '"' {
        match p_str(s, j + 1) {
            PRes::Done { v: key, n: n1 } => {
                let e = j + 1 + n1;
                let m = e + ws_len(s, e);
                if m >= s.len() {
                    PRes::More
                } else if s[m as int] == ':' {
                    match p_value(s, m + 1) {
                        PRes::Done { v: val, n: n2 } => {
                            let ve = m + 1 + n2;
                            let t = ve + ws_len(s, ve);
                            if t >= s.len() {
                                PRes::More
                            } else if s[t as int] == ',' {
                                match p_fields(s, t + 1, false) {
                                    PRes::Done { v: fs, n: n3 } => PRes::Done {
                                        v: seq![(key, val)] + fs,
                                        n: (t + 1 + n3 - i) as nat,
                                    },
                                    PRes::More => PRes::More,
                                    PRes::Bad => PRes::Bad,
                                }
                            } else if s[t as int] == '}' {
                                PRes::Done { v: seq![(key, val)], n: (t + 1 - i) as nat }
                            } else {
                                PRes::Bad
                            }
                        },
                        PRes::More => PRes::More,
                        PRes::Bad => PRes::Bad,
                    }
                } else {
                    PRes::Bad
                }
            },
            PRes::More => PRes::More,
            PRes::Bad => PRes::Bad,
        }
    } else {
        PRes::Bad
    }
}

/// The item list of an array, from just after `[` or just after a comma;
/// an immediate `]` is only allowed for an empty array. The consumed count
/// includes the closing bracket.
pub open spec fn p_items(s: Seq<char>, i: nat) -> PRes<Seq<JVal>>
    decreases s.len() - i, 2nat,
{
    let j = i + ws_len(s, i);
    if j >= s.len() {
        PRes::More
    } else if s[j as int] == ']' {
        PRes::Done { v: Seq::empty(), n: (j + 1 - i) as nat }
    } else {
        p_items_more(s, i)
    }
}

/// One array item and whatever follows it; the item itself may not be `]`.
pub open spec fn p_items_more(s: Seq<char>, i: nat) -> PRes<Seq<JVal>>
    decreases s.len() - i, 1nat,
{
    match p_value(s, i) {
        PRes::Done { v, n } => {
            let ve = i + n;
            let t = ve + ws_len(s, ve);
            if t >= s.len() {
                PRes::More
            } else if s[t as int] == ',' {
                match p_items_more(s, t + 1) {
                    PRes::Done { v: vs, n: n2 } => PRes::Done {
                        v: seq![v] + vs,
                        n: (t + 1 + n2 - i) as nat,
                    },
                    PRes::More => PRes::More,
                    PRes::Bad => PRes::Bad,
                }
            } else if s[t as int] == ']' {
                PRes::Done { v: seq![v], n: (t + 1 - i) as nat }
            } else {
                PRes::Bad
            }
        },
        PRes::More => PRes::More,
        PRes::Bad => PRes::Bad,
    }
}

/// How a ghost string parse looks after `acc` was already read and `d`
/// characters consumed.
pub open spec fn str_prepend(acc: Seq<char>, d: nat, r: PRes<Seq<char>>) -> PRes<Seq<char>> {
    match r {
        PRes::Done { v, n } => PRes::Done { v: acc + v, n: n + d },
        PRes::More => PRes::More,
        PRes::Bad => PRes::Bad,
    }
}

fn is_ws_exec(c: char) -> (r: bool)
    ensures
        r == is_ws(c),
{
    c == ' ' || c == '\t' || c == '\r' || c == '\n'
}

fn is_digit_exec(c: char) -> (r: bool)
    ensures
        r == is_digit(c),
{
    c >= '0' && c <= '9'
}

fn is_hex_exec(c: char) -> (r: bool)
    ensures
        r == is_hex(c),
{
    (c >= '0' && c <= '9') || (c >= 'a' && c <= 'f') || (c >= 'A' && c <= 'F')
}

fn hex_val_exec(c: char) -> (r: u32)
    requires
        is_hex(c),
    ensures
        r == hex_val(c),
        r <= 15,
{
    let u = c as u32;
    if c >= '0' && c <= '9' {
        u - 48
    } else if c >= 'a' && c <= 'f' {
        u - 97 + 10
    } else {
        u - 65 + 10
    }
}

/// First position at or after `i` that holds no whitespace.
pub(crate) fn e_ws(s: &Vec<char>, i: usize) -> (j: usize)
    requires
        i <= s@.len(),
    ensures
        j as nat == i + ws_len(s@, i as nat),
        j <= s@.len(),
{
    let mut j = i;
    while j < s.len() && is_ws_exec(s[j])
        invariant
            i <= j <= s@.len(),
            i + ws_len(s@, i as nat) == j + ws_len(s@, j as nat),
        decreases s@.len() - j,
    {
        j += 1;
    }
    proof {
        assert(ws_len(s@, j as nat) == 0);
    }
    j
}

/// First position at or after `i` that holds no decimal digit.
pub(crate) fn e_digits(s: &Vec<char>, i: usize) -> (j: usize)
    requires
        i <= s@.len(),
    ensures
        j as nat == i + digits_len(s@, i as nat),
        j <= s@.len(),
{
    let mut j = i;
    while j < s.len() && is_digit_exec(s[j])
        invariant
            i <= j <= s@.len(),
            i + digits_len(s@, i as nat) == j + digits_len(s@, j as nat),
        decreases s@.len() - j,
    {
        j += 1;
    }
    proof {
        assert(digits_len(s@, j as nat) == 0);
    }
    j
}

/// The characters of `s` from `a` to `b`.
pub(crate) fn copy_range(s: &Vec<char>, a: usize, b: usize) -> (r: Vec<char>)
    requires
        a <= b <= s@.len(),
    ensures
        r@ == s@.subrange(a as int, b as int),
{
    let mut r: Vec<char> = Vec::new();
    let mut j = a;
    while j < b
        invariant
            a <= j <= b <= s@.len(),
            r@ == s@.subrange(a as int, j as int),
        decreases b - j,
    {
        r.push(s[j]);
        proof {
            assert(r@ =~= s@.subrange(a as int, j + 1));
        }
        j += 1;
    }
    r
}

/// Match the fixed word `w` at `i`.
fn e_lit(s: &Vec<char>, i: usize, w: &Vec<char>) -> (r: Step<()>)
    requires
        i <= s@.len(),
    ensures
        match r {
            Step::Done(_, n) => p_lit(s@, i as nat, w@, 0) == (PRes::<()>::Done { v: (), n: n as nat })
                && n == w@.len() && i + n <= s@.len(),
            Step::More => p_lit(s@, i as nat, w@, 0) is More,
            Step::Bad => p_lit(s@, i as nat, w@, 0) is Bad,
        },
{
    let mut k: usize = 0;
    while k < w.len()
        invariant
            k <= w@.len(),
            i <= s@.len(),
            p_lit(s@, i as nat, w@, 0) == p_lit(s@, i as nat, w@, k as nat),
            i + k <= s.len(),
        decreases w@.len() - k,
    {
        if i + k >= s.len() {
            return Step::More;
        }
        if s[i + k] != w[k] {
            return Step::Bad;
        }
        k += 1;
    }
    Step::Done((), w.len())
}

/// Body of a quoted string, from just after the opening quote.
fn e_str(s: &Vec<char>, i0: usize) -> (r: Step<Vec<char>>)
    requires
        i0 <= s@.len(),
    ensures
        match r {
            Step::Done(v, n) => p_str(s@, i0 as nat) == (PRes::Done { v: v@, n: n as nat }) && 1
                <= n && i0 + n <= s@.len(),
            Step::More => p_str(s@, i0 as nat) is More,
            Step::Bad => p_str(s@, i0 as nat) is Bad,
        },
{
    let mut acc: Vec<char> = Vec::new();
    let mut k = i0;
    proof {
        assert(acc@ + p_str(s@, i0 as nat)->v =~= p_str(s@, i0 as nat)->v);
    }
    loop
        invariant
            i0 <= k <= s@.len(),
            p_str(s@, i0 as nat) == str_prepend(acc@, (k - i0) as nat, p_str(s@, k as nat)),
        decreases s@.len() - k,
    {
        if k >= s.len() {
            return Step::More;
        }
        let c = s[k];
        if c == '"' {
            proof {
                assert(acc@ + Seq::<char>::empty() =~= acc@);
            }
            return Step::Done(acc, k + 1 - i0);
        } else if c == '\\' {
            if k + 1 >= s.len() {
                return Step::More;
            }
            let e = s[k + 1];
            if e == 'n' || e == 't' || e == '\\' || e == '"' {
                let d = if e == 'n' {
                    '\n'
                } else if e == 't' {
                    '\t'
                } else {
                    e
                };
                let ghost pre = acc@;
                acc.push(d);
                proof {
                    let r2 = p_str(s@, (k + 2) as nat);
                    if r2 is Done {
                        assert(pre + (seq![d] + r2->v) =~= acc@ + r2->v);
                    }
                }
                k += 2;
            } else if e == 'u' {
                if s.len() - k < 6 {
                    proof {
                        assert(k + 6 > s@.len());
                    }
                    return Step::More;
                }
                if !(is_hex_exec(s[k + 2]) && is_hex_exec(s[k + 3]) && is_hex_exec(s[k + 4])
                    && is_hex_exec(s[k + 5])) {
                    return Step::Bad;
                }
                let code = hex_val_exec(s[k + 2]) * 4096 + hex_val_exec(s[k + 3]) * 256
                    + hex_val_exec(s[k + 4]) * 16 + hex_val_exec(s[k + 5]);
                match char::from_u32(code) {
                    Some(d) => {
                        proof {
                            vstd::utf8::char_u32_cast(d, code);
                            assert(is_scalar_code(code));
                        }
                        let ghost pre = acc@;
                        acc.push(d);
                        proof {
                            let r2 = p_str(s@, (k + 6) as nat);
                            if r2 is Done {
                                assert(pre + (seq![char_of(code)] + r2->v) =~= acc@ + r2->v);
                            }
                        }
                        k += 6;
                    },
                    None => {
                        proof {
                            assert(!is_scalar_code(code));
                        }
                        return Step::Bad;
                    },
                }
            } else {
                return Step::Bad;
            }
        } else {
            let ghost pre = acc@;
            acc.push(c);
            proof {
                let r2 = p_str(s@, (k + 1) as nat);
                if r2 is Done {
                    assert(pre + (seq![c] + r2->v) =~= acc@ + r2->v);
                }
            }
            k += 1;
        }
    }
}

/// The optional exponent and end of a number token.
fn e_exp(s: &Vec<char>, start: usize, p: usize) -> (r: Step<Vec<char>>)
    requires
        start <= p <= s@.len(),
    ensures
        match r {
            Step::Done(v, n) => p_exp(s@, start as nat, p as nat) == (PRes::Done {
                v: v@,
                n: n as nat,
            }) && p - start <= n && start + n < s@.len(),
            Step::More => p_exp(s@, start as nat, p as nat) is More,
            Step::Bad => p_exp(s@, start as nat, p as nat) is Bad,
        },
{
    if p >= s.len() {
        return Step::More;
    }
    if s[p] == 'e' || s[p] == 'E' {
        if p + 1 >= s.len() {
            return Step::More;
        }
        let q = if s[p + 1] == '+' || s[p + 1] == '-' {
            p + 2
        } else {
            p + 1
        };
        if q >= s.len() {
            return Step::More;
        }
        if is_digit_exec(s[q]) {
            let d = e_digits(s, q);
            if d >= s.len() {
                return Step::More;
            }
            Step::Done(copy_range(s, start, d), d - start)
        } else {
            Step::Bad
        }
    } else {
        Step::Done(copy_range(s, start, p), p - start)
    }
}

/// A number token at `i`.
fn e_num(s: &Vec<char>, i: usize) -> (r: Step<Vec<char>>)
    requires
        i <= s@.len(),
    ensures
        match r {
            Step::Done(v, n) => p_num(s@, i as nat) == (PRes::Done { v: v@, n: n as nat }) && 1
                <= n && i + n <= s@.len(),
            Step::More => p_num(s@, i as nat) is More,
            Step::Bad => p_num(s@, i as nat) is Bad,
        },
{
    if i >= s.len() {
        return Step::More;
    }
    let c0 = s[i];
    let k = if c0 == '-' || c0 == '+' {
        i + 1
    } else {
        i
    };
    if k >= s.len() {
        return Step::More;
    }
    if is_digit_exec(s[k]) {
        let m = e_digits(s, k);
        if m >= s.len() {
            return Step::More;
        }
        if s[m] == '.' {
            let f = e_digits(s, m + 1);
            if f >= s.len() {
                return Step::More;
            }
            e_exp(s, i, f)
        } else {
            e_exp(s, i, m)
        }
    } else if s[k] == '.' {
        if k + 1 >= s.len() {
            return Step::More;
        }
        if is_digit_exec(s[k + 1]) {
            let f = e_digits(s, k + 1);
            if f >= s.len() {
                return Step::More;
            }
            e_exp(s, i, f)
        } else {
            Step::Bad
        }
    } else {
        Step::Bad
    }
}

/// One value at `i`, as `p_value` describes.
fn e_value(s: &Vec<char>, i: usize) -> (r: Step<JsonValue>)
    requires
        i <= s@.len(),
    ensures
        match r {
            Step::Done(v, n) => p_value(s@, i as nat) == (PRes::Done { v: v.model(), n: n as nat })
                && 1 <= n && i + n <= s@.len(),
            Step::More => p_value(s@, i as nat) is More,
            Step::Bad => p_value(s@, i as nat) is Bad,
        },
    decreases s@.len() - i, 0nat,
{
    let j = e_ws(s, i);
    if j >= s.len() {
        return Step::More;
    }
    let c = s[j];
    if c == 'n' {
        let w: Vec<char> = vec!['n', 'u', 'l', 'l'];
        proof {
            assert(w@ =~= seq!['n', 'u', 'l', 'l']);
        }
        match e_lit(s, j, &w) {
            Step::Done(_, n) => Step::Done(JsonValue::Null, j + n - i),
            Step::More => Step::More,
            Step::Bad => Step::Bad,
        }
    } else if c == 't' {
        let w: Vec<char> = vec!['t', 'r', 'u', 'e'];
        proof {
            assert(w@ =~= seq!['t', 'r', 'u', 'e']);
        }
        match e_lit(s, j, &w) {
            Step::Done(_, n) => Step::Done(JsonValue::Bool(true), j + n - i),
            Step::More => Step::More,
            Step::Bad => Step::Bad,
        }
    } else if c == 'f' {
        let w: Vec<char> = vec!['f', 'a', 'l', 's', 'e'];
        proof {
            assert(w@ =~= seq!['f', 'a', 'l', 's', 'e']);
        }
        match e_lit(s, j, &w) {
            Step::Done(_, n) => Step::Done(JsonValue::Bool(false), j + n - i),
            Step::More => Step::More,
            Step::Bad => Step::Bad,
        }
    } else if c == '"' {
        match e_str(s, j + 1) {
            Step::Done(v, n) => Step::Done(JsonValue::Str(v), j + 1 + n - i),
            Step::More => Step::More,
            Step::Bad => Step::Bad,
        }
    } else if c == '{' {
        match e_fields(s, j + 1, true) {
            Step::Done(raw, n) => {
                let obj = dedup_exec(raw);
                Step::Done(JsonValue::Object(obj), j + 1 + n - i)
            },
            Step::More => Step::More,
            Step::Bad => Step::Bad,
        }
    } else if c == '[' {
        match e_items(s, j + 1) {
            Step::Done(items, n) => Step::Done(JsonValue::Array(items), j + 1 + n - i),
            Step::More => Step::More,
            Step::Bad => Step::Bad,
        }
    } else if c == '-' || c == '+' || c == '.' || is_digit_exec(c) {
        match e_num(s, j) {
            Step::Done(v, n) => Step::Done(JsonValue::Num(v), j + n - i),
            Step::More => Step::More,
            Step::Bad => Step::Bad,
        }
    } else {
        Step::Bad
    }
}

/// The field list of an object, as `p_fields` describes; pairs come back
/// raw and in source order.
fn e_fields(s: &Vec<char>, i: usize, first: bool) -> (r: Step<Vec<(Vec<char>, JsonValue)>>)
    requires
        i <= s@.len(),
    ensures
        match r {
            Step::Done(fv, n) => p_fields(s@, i as nat, first) == (PRes::Done {
                v: fields_model(fv),
                n: n as nat,
            }) && 1 <= n && i + n <= s@.len(),
            Step::More => p_fields(s@, i as nat, first) is More,
            Step::Bad => p_fields(s@, i as nat, first) is Bad,
        },
    decreases s@.len() - i, 0nat,
{
    let j = e_ws(s, i);
    if j >= s.len() {
        return Step::More;
    }
    if s[j] == '}' && first {
        let out: Vec<(Vec<char>, JsonValue)> = Vec::new();
        proof {
            assert(fields_model(out) =~= Seq::<(Seq<char>, JVal)>::empty());
        }
        return Step::Done(out, j + 1 - i);
    }
    if s[j] != '"' {
        return Step::Bad;
    }
    match e_str(s, j + 1) {
        Step::Done(key, n1) => {
            let e = j + 1 + n1;
            let m = e_ws(s, e);
            if m >= s.len() {
                return Step::More;
            }
            if s[m] != ':' {
                return Step::Bad;
            }
            match e_value(s, m + 1) {
                Step::Done(val, n2) => {
                    let ve = m + 1 + n2;
                    let t = e_ws(s, ve);
                    if t >= s.len() {
                        return Step::More;
                    }
                    if s[t] == ',' {
                        match e_fields(s, t + 1, false) {
                            Step::Done(mut fs, n3) => {
                                let ghost rest = fields_model(fs);
                                fs.insert(0, (key, val));
                                proof {
                                    assert(fields_model(fs) =~= seq![(key@, val.model())] + rest);
                                }
                                Step::Done(fs, t + 1 + n3 - i)
                            },
                            Step::More => Step::More,
                            Step::Bad => Step::Bad,
                        }
                    } else if s[t] == '}' {
                        let mut fs: Vec<(Vec<char>, JsonValue)> = Vec::new();
                        fs.push((key, val));
                        proof {
                            assert(fields_model(fs) =~= seq![(fs[0].0@, fs[0].1.model())]);
                        }
                        Step::Done(fs, t + 1 - i)
                    } else {
                        Step::Bad
                    }
                },
                Step::More => Step::More,
                Step::Bad => Step::Bad,
            }
        },
        Step::More => Step::More,
        Step::Bad => Step::Bad,
    }
}

/// The item list of an array, as `p_items` describes.
fn e_items(s: &Vec<char>, i: usize) -> (r: Step<Vec<JsonValue>>)
    requires
        i <= s@.len(),
    ensures
        match r {
            Step::Done(items, n) => p_items(s@, i as nat) == (PRes::Done {
                v: items_model(items),
                n: n as nat,
            }) && 1 <= n && i + n <= s@.len(),
            Step::More => p_items(s@, i as nat) is More,
            Step::Bad => p_items(s@, i as nat) is Bad,
        },
    decreases s@.len() - i, 2nat,
{
    let j = e_ws(s, i);
    if j >= s.len() {
        return Step::More;
    }
    if s[j] == ']' {
        let out: Vec<JsonValue> = Vec::new();
        proof {
            assert(items_model(out) =~= Seq::<JVal>::empty());
        }
        return Step::Done(out, j + 1 - i);
    }
    e_items_more(s, i)
}

/// One array item and whatever follows it, as `p_items_more` describes.
fn e_items_more(s: &Vec<char>, i: usize) -> (r: Step<Vec<JsonValue>>)
    requires
        i <= s@.len(),
    ensures
        match r {
            Step::Done(items, n) => p_items_more(s@, i as nat) == (PRes::Done {
                v: items_model(items),
                n: n as nat,
            }) && 1 <= n && i + n <= s@.len(),
            Step::More => p_items_more(s@, i as nat) is More,
            Step::Bad => p_items_more(s@, i as nat) is Bad,
        },
    decreases s@.len() - i, 1nat,
{
    match e_value(s, i) {
        Step::Done(v, n) => {
            proof {
                assert(i + n <= s.len());
            }
            let ve = i + n;
            let t = e_ws(s, ve);
            if t >= s.len() {
                return Step::More;
            }
            if s[t] == ',' {
                match e_items_more(s, t + 1) {
                    Step::Done(mut vs, n2) => {
                        let ghost rest = items_model(vs);
                        vs.insert(0, v);
                        proof {
                            assert(items_model(vs) =~= seq![vs[0].model()] + rest);
                        }
                        Step::Done(vs, t + 1 + n2 - i)
                    },
                    Step::More => Step::More,
                    Step::Bad => Step::Bad,
                }
            } else if s[t] == ']' {
                let mut vs: Vec<JsonValue> = Vec::new();
                vs.push(v);
                proof {
                    assert(items_model(vs) =~= seq![vs[0].model()]);
                }
                Step::Done(vs, t + 1 - i)
            } else {
                Step::Bad
            }
        },
        Step::More => Step::More,
        Step::Bad => Step::Bad,
    }
}

/// One top-level object from the buffer, as `p_root` describes.
pub fn e_root(s: &Vec<char>) -> (r: Step<JsonValue>)
    ensures
        match r {
            Step::Done(v, n) => p_root(s@) == (PRes::Done { v: v.model(), n: n as nat }) && 1 <= n
                && n <= s@.len(),
            Step::More => p_root(s@) is More,
            Step::Bad => p_root(s@) is Bad,
        },
{
    let j = e_ws(s, 0);
    if j >= s.len() {
        return Step::More;
    }
    if s[j] != '{' {
        return Step::Bad;
    }
    match e_fields(s, j + 1, true) {
        Step::Done(raw, n) => {
            let obj = dedup_exec(raw);
            Step::Done(JsonValue::Object(obj), j + 1 + n)
        },
        Step::More => Step::More,
        Step::Bad => Step::Bad,
    }
}

/// One top-level value, which must be an object: leading whitespace, then
/// `{`...`}`. Nothing after the closing brace is consumed.
pub open spec fn p_root(s: Seq<char>) -> PRes<JVal> {
    let j = 0 + ws_len(s, 0);
    if j >= s.len() {
        PRes::More
    } else if s[j as int] == '{' {
        match p_fields(s, j + 1, true) {
            PRes::Done { v, n } => PRes::Done { v: JVal::Obj(dedup_fields(v)), n: j + 1 + n },
            PRes::More => PRes::More,
            PRes::Bad => PRes::Bad,
        }
    } else {
        PRes::Bad
    }
}


/// A standalone quoted string at the start of the input: `"`, the body,
/// `"`. The consumed count includes both quotes.
pub open spec fn p_string(s: Seq<char>) -> PRes<Seq<char>> {
    if s.len() == 0 {
        PRes::More
    } else if s[0] != '"' {
        PRes::Bad
    } else {
        match p_str(s, 1) {
            PRes::Done { v, n } => PRes::Done { v, n: n + 1 },
            PRes::More => PRes::More,
            PRes::Bad => PRes::Bad,
        }
    }
}

/// Parse one quoted string from the start of `i`; on success the decoded
/// content comes with the unconsumed remainder.
pub fn string(i: &str) -> (r: Step<(String, String)>)
    ensures
        match r {
            Step::Done(out, n) => p_string(i@) == (PRes::Done { v: out.0@, n: n as nat }) && out.1@
                == i@.skip(n as int) && n <= i@.len(),
            Step::More => p_string(i@) is More,
            Step::Bad => p_string(i@) is Bad,
        },
{
    let s = to_chars(i);
    if s.len() == 0 {
        return Step::More;
    }
    if s[0] != '"' {
        return Step::Bad;
    }
    match e_str(&s, 1) {
        Step::Done(v, n) => {
            let rest = copy_range(&s, 1 + n, s.len());
            proof {
                assert(s@.subrange(1 + n, s@.len() as int) =~= i@.skip(1 + n));
            }
            Step::Done((chars_to_string(&v), chars_to_string(&rest)), 1 + n)
        },
        Step::More => Step::More,
        Step::Bad => Step::Bad,
    }
}

/// Parse one top-level JSON object from the start of `i`; on success the
/// value comes with the unconsumed remainder.
pub fn root(i: &str) -> (r: Step<(JsonValue, String)>)
    ensures
        match r {
            Step::Done(out, n) => p_root(i@) == (PRes::Done { v: out.0.model(), n: n as nat })
                && out.1@ == i@.skip(n as int) && n <= i@.len(),
            Step::More => p_root(i@) is More,
            Step::Bad => p_root(i@) is Bad,
        },
{
    let s = to_chars(i);
    match e_root(&s) {
        Step::Done(v, n) => {
            let rest = copy_range(&s, n, s.len());
            proof {
                assert(s@.subrange(n as int, s@.len() as int) =~= i@.skip(n as int));
            }
            Step::Done((v, chars_to_string(&rest)), n)
        },
        Step::More => Step::More,
        Step::Bad => Step::Bad,
    }
}

} // verus!
