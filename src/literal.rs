//! Recognition of the textual floating-point literals in which vote balances
//! are transmitted.
//!
//! The accepted language is the one documented for `f64`'s `FromStr`: after
//! ASCII lowercasing a literal matches
//!
//! ```text
//! Float  ::= Sign? ( 'inf' | 'infinity' | 'nan' | Number )
//! Number ::= ( Digit+ | Digit+ '.' Digit* | Digit* '.' Digit+ ) Exp?
//! Exp    ::= 'e' Sign? Digit+
//! Sign   ::= [+-]
//! Digit  ::= [0-9]
//! ```
use vstd::prelude::*;

verus! {

pub open spec fn is_digit(c: char) -> bool {
    '0' <= c && c <= '9'
}

pub open spec fn is_sign(c: char) -> bool {
    c == '+' || c == '-'
}

pub open spec fn is_exp_marker(c: char) -> bool {
    c == 'e' || c == 'E'
}

/// `c` is the lowercase ASCII letter `l` or its uppercase form.
pub open spec fn same_letter(c: char, l: char) -> bool {
    c == l || c as u32 + 32 == l as u32
}

/// The text with one leading sign removed, if it has one.
pub open spec fn without_sign(s: Seq<char>) -> Seq<char> {
    if s.len() > 0 && is_sign(s[0]) {
        s.drop_first()
    } else {
        s
    }
}

/// `s` spells the lowercase word `w`, ignoring ASCII case.
pub open spec fn spells(s: Seq<char>, w: Seq<char>) -> bool {
    s.len() == w.len() && forall|i: int| 0 <= i < s.len() ==> same_letter(#[trigger] s[i], w[i])
}

pub open spec fn is_special(s: Seq<char>) -> bool {
    spells(s, seq!['i', 'n', 'f']) || spells(s, seq!['i', 'n', 'f', 'i', 'n', 'i', 't', 'y'])
        || spells(s, seq!['n', 'a', 'n'])
}

/// Digits with at most one decimal point among them, and at least one digit.
pub open spec fn is_mantissa(m: Seq<char>) -> bool {
    &&& forall|i: int| 0 <= i < m.len() ==> is_digit(#[trigger] m[i]) || m[i] == '.'
    &&& forall|i: int, j: int|
        0 <= i < m.len() && 0 <= j < m.len() && #[trigger] m[i] == '.' && #[trigger] m[j] == '.'
            ==> i == j
    &&& exists|i: int| 0 <= i < m.len() && is_digit(#[trigger] m[i])
}

/// An optional sign followed by one or more digits.
pub open spec fn is_exponent(x: Seq<char>) -> bool {
    let y = without_sign(x);
    y.len() > 0 && forall|i: int| 0 <= i < y.len() ==> is_digit(#[trigger] y[i])
}

/// A mantissa, optionally followed by an exponent marker and an exponent.
pub open spec fn is_number(t: Seq<char>) -> bool {
    ||| (forall|i: int| 0 <= i < t.len() ==> !is_exp_marker(#[trigger] t[i])) && is_mantissa(t)
    ||| exists|k: int|
        0 <= k < t.len() && is_exp_marker(#[trigger] t[k]) && is_mantissa(t.subrange(0, k))
            && is_exponent(t.subrange(k + 1, t.len() as int))
}

/// `s` is a floating-point literal.
pub open spec fn float_literal(s: Seq<char>) -> bool {
    is_special(without_sign(s)) || is_number(without_sign(s))
}

/// The characters of `s`, in order.
fn chars_of(s: &str) -> (r: Vec<char>)
    ensures
        r@ == s@,
{
    broadcast use vstd::string::group_string_axioms;

    let mut r: Vec<char> = Vec::new();
    for c in it: s.chars()
        invariant
            it.seq() == s@,
            r@ == it.seq().take(it.index() as int),
    {
        r.push(c);
    }
    r
}


fn is_digit_char(c: char) -> (r: bool)
    ensures
        r == is_digit(c),
{
    '0' <= c && c <= '9'
}

fn is_same_letter(c: char, l: char) -> (r: bool)
    ensures
        r == same_letter(c, l),
{
    c == l || (c as u32) + 32 == l as u32
}

/// Whether the characters of `v` from `lo` on spell the word `w`.
fn spells_from(v: &Vec<char>, lo: usize, w: &Vec<char>) -> (r: bool)
    requires
        lo <= v.len(),
    ensures
        r == spells(v@.subrange(lo as int, v.len() as int), w@),
{
    let ghost t = v@.subrange(lo as int, v.len() as int);
    if v.len() - lo != w.len() {
        return false;
    }
    let mut i: usize = 0;
    while i < w.len()
        invariant
            t == v@.subrange(lo as int, v.len() as int),
            t.len() == w.len(),
            lo <= v.len(),
            i <= w.len(),
            forall|k: int| 0 <= k < i ==> same_letter(#[trigger] t[k], w@[k]),
        decreases w.len() - i,
    {
        if !is_same_letter(v[lo + i], w[i]) {
            assert(!same_letter(t[i as int], w@[i as int]));
            return false;
        }
        i = i + 1;
    }
    true
}

/// Whether `v[lo..]` is one of the words `inf`, `infinity` or `nan`, in any case.
fn special_from(v: &Vec<char>, lo: usize) -> (r: bool)
    requires
        lo <= v.len(),
    ensures
        r == is_special(v@.subrange(lo as int, v.len() as int)),
{
    let inf = chars_of("inf");
    let infinity = chars_of("infinity");
    let nan = chars_of("nan");
    proof {
        reveal_strlit("inf");
        reveal_strlit("infinity");
        reveal_strlit("nan");
        assert(inf@ =~= seq!['i', 'n', 'f']);
        assert(infinity@ =~= seq!['i', 'n', 'f', 'i', 'n', 'i', 't', 'y']);
        assert(nan@ =~= seq!['n', 'a', 'n']);
    }
    spells_from(v, lo, &inf) || spells_from(v, lo, &infinity) || spells_from(v, lo, &nan)
}

/// Whether `v[lo..hi]` is a mantissa.
fn mantissa_in(v: &Vec<char>, lo: usize, hi: usize) -> (r: bool)
    requires
        lo <= hi <= v.len(),
    ensures
        r == is_mantissa(v@.subrange(lo as int, hi as int)),
{
    let ghost m = v@.subrange(lo as int, hi as int);
    let mut seen_dot = false;
    let mut seen_digit = false;
    let mut i: usize = lo;
    while i < hi
        invariant
            lo <= i <= hi <= v.len(),
            m == v@.subrange(lo as int, hi as int),
            forall|k: int| 0 <= k < i - lo ==> is_digit(#[trigger] m[k]) || m[k] == '.',
            forall|k: int, j: int|
                0 <= k < i - lo && 0 <= j < i - lo && #[trigger] m[k] == '.' && #[trigger] m[j]
                    == '.' ==> k == j,
            seen_dot <==> exists|k: int| 0 <= k < i - lo && #[trigger] m[k] == '.',
            seen_digit <==> exists|k: int| 0 <= k < i - lo && is_digit(#[trigger] m[k]),
        decreases hi - i,
    {
        let c = v[i];
        assert(m[i - lo] == c);
        if is_digit_char(c) {
            seen_digit = true;
        } else if c == '.' {
            if seen_dot {
                let ghost k = choose|k: int| 0 <= k < i - lo && #[trigger] m[k] == '.';
                assert(m[k] == '.' && m[i - lo] == '.' && k != i - lo);
                return false;
            }
            seen_dot = true;
        } else {
            assert(!(is_digit(m[i - lo]) || m[i - lo] == '.'));
            return false;
        }
        i = i + 1;
    }
    seen_digit
}

/// Whether `v[lo..hi]` is an exponent: an optional sign, then digits.
fn exponent_in(v: &Vec<char>, lo: usize, hi: usize) -> (r: bool)
    requires
        lo <= hi <= v.len(),
    ensures
        r == is_exponent(v@.subrange(lo as int, hi as int)),
{
    let ghost x = v@.subrange(lo as int, hi as int);
    let mut i: usize = lo;
    if i < hi && (v[i] == '+' || v[i] == '-') {
        i = i + 1;
    }
    let ghost y = v@.subrange(i as int, hi as int);
    assert(without_sign(x) =~= y);
    if i == hi {
        return false;
    }
    let ghost st = i as int;
    while i < hi
        invariant
            lo <= st <= i <= hi <= v.len(),
            y == v@.subrange(st, hi as int),
            without_sign(x) == y,
            x == v@.subrange(lo as int, hi as int),
            forall|k: int| 0 <= k < i - st ==> is_digit(#[trigger] y[k]),
        decreases hi - i,
    {
        assert(y[i - st] == v[i as int]);
        if !is_digit_char(v[i]) {
            assert(!is_digit(y[i - st]));
            return false;
        }
        i = i + 1;
    }
    true
}


/// Whether `v[lo..]` is a number: a mantissa with an optional exponent.
fn number_from(v: &Vec<char>, lo: usize) -> (r: bool)
    requires
        lo <= v.len(),
    ensures
        r == is_number(v@.subrange(lo as int, v.len() as int)),
{
    let n = v.len();
    let ghost t = v@.subrange(lo as int, n as int);
    let mut k: usize = lo;
    while k < n && !(v[k] == 'e' || v[k] == 'E')
        invariant
            lo <= k <= n,
            n == v.len(),
            t == v@.subrange(lo as int, n as int),
            forall|j: int| 0 <= j < k - lo ==> !is_exp_marker(#[trigger] t[j]),
        decreases n - k,
    {
        assert(t[k - lo] == v[k as int]);
        k = k + 1;
    }
    if k == n {
        let r = mantissa_in(v, lo, n);
        proof {
            if !r {
                assert forall|j: int|
                    0 <= j < t.len() && is_exp_marker(#[trigger] t[j]) implies !(is_mantissa(
                    t.subrange(0, j))
                    && is_exponent(t.subrange(j + 1, t.len() as int))) by {}
            }
        }
        r
    } else {
        let ghost kk = k - lo;
        assert(t[kk] == v[k as int]);
        let m = mantissa_in(v, lo, k);
        let e = exponent_in(v, k + 1, n);
        assert(t.subrange(0, kk) =~= v@.subrange(lo as int, k as int));
        assert(t.subrange(kk + 1, t.len() as int) =~= v@.subrange(k + 1, n as int));
        proof {
            if !(m && e) {
                assert forall|j: int|
                    0 <= j < t.len() && is_exp_marker(#[trigger] t[j]) implies !(is_mantissa(
                    t.subrange(0, j))
                    && is_exponent(t.subrange(j + 1, t.len() as int))) by {
                    if j > kk {
                        let p = t.subrange(0, j);
                        assert(p[kk] == t[kk]);
                        assert(!(is_digit(p[kk]) || p[kk] == '.'));
                    }
                }
            }
        }
        m && e
    }
}

/// Whether `text` is a floating-point literal, as `f64`'s `FromStr` accepts it.
pub fn is_float_literal(text: &str) -> (r: bool)
    ensures
        r == float_literal(text@),
{
    let v = chars_of(text);
    let lo: usize = if v.len() > 0 && (v[0] == '+' || v[0] == '-') {
        1
    } else {
        0
    };
    assert(without_sign(v@) =~= v@.subrange(lo as int, v.len() as int));
    special_from(&v, lo) || number_from(&v, lo)
}

} // verus!
