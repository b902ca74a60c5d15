//! Numeric validation.

use vstd::prelude::*;

use crate::text::{all_digits, is_ascii_digit};
use crate::validation::Validator;

verus! {

/// ASCII lower-casing of a character.
pub open spec fn ascii_lower(c: char) -> char {
    if 'A' <= c && c <= 'Z' {
        (c as int + 32) as char
    } else {
        c
    }
}

/// The mantissa of a decimal float: digits with at most one `.`, and at
/// least one digit.
pub open spec fn is_float_mantissa(m: Seq<char>) -> bool {
    &&& forall|i: int| 0 <= i < m.len() ==> is_ascii_digit(#[trigger] m[i]) || m[i] == '.'
    &&& forall|i: int, j: int|
        0 <= i < j < m.len() ==> !(#[trigger] m[i] == '.' && #[trigger] m[j] == '.')
    &&& exists|i: int| 0 <= i < m.len() && is_ascii_digit(#[trigger] m[i])
}

/// The exponent of a decimal float after the `e`: an optional sign, then digits.
pub open spec fn is_float_exponent(x: Seq<char>) -> bool {
    if x.len() > 0 && (x[0] == '+' || x[0] == '-') {
        x.len() > 1 && all_digits(x.drop_first())
    } else {
        x.len() > 0 && all_digits(x)
    }
}

/// `Number ::= ( Digit+ | Digit+ '.' Digit* | Digit* '.' Digit+ ) Exp?`
pub open spec fn is_float_number(t: Seq<char>) -> bool {
    ||| is_float_mantissa(t)
    ||| exists|k: int|
        0 < k < t.len() && ascii_lower(t[k]) == 'e' && is_float_mantissa(#[trigger] t.subrange(0, k))
            && is_float_exponent(t.subrange(k + 1, t.len() as int))
}

/// `t` spells `word` (lower case ASCII) with ASCII letters in any case.
pub open spec fn spells(t: Seq<char>, word: Seq<char>) -> bool {
    t.len() == word.len() && forall|i: int| 0 <= i < t.len() ==> ascii_lower(#[trigger] t[i]) == word[i]
}

/// A float without its sign: `inf`, `infinity`, `nan` in any case, or a number.
pub open spec fn is_float_body(t: Seq<char>) -> bool {
    ||| spells(t, seq!['i', 'n', 'f'])
    ||| spells(t, seq!['i', 'n', 'f', 'i', 'n', 'i', 't', 'y'])
    ||| spells(t, seq!['n', 'a', 'n'])
    ||| is_float_number(t)
}

/// The texts that the standard `f64` parser accepts, per its documented
/// grammar: `Float ::= Sign? ( 'inf' | 'infinity' | 'nan' | Number )`.
pub open spec fn is_float_text(s: Seq<char>) -> bool {
    if s.len() > 0 && (s[0] == '+' || s[0] == '-') {
        is_float_body(s.drop_first())
    } else {
        is_float_body(s)
    }
}

fn lower(c: char) -> (r: char)
    ensures
        r == ascii_lower(c),
{
    if 'A' <= c && c <= 'Z' {
        let b: u8 = (c as u32 + 32) as u8;
        let r = b as char;
        assert(r as int == c as int + 32);
        r
    } else {
        c
    }
}

/// Whether `s[start..end]` spells `word`.
fn spells_at(s: &str, start: usize, end: usize, word: &Vec<char>) -> (r: bool)
    requires
        start <= end <= s@.len(),
    ensures
        r == spells(s@.subrange(start as int, end as int), word@),
{
    let ghost t = s@.subrange(start as int, end as int);
    if end - start != word.len() {
        return false;
    }
    let mut i: usize = 0;
    while i < word.len()
        invariant
            start <= end <= s@.len(),
            t == s@.subrange(start as int, end as int),
            end - start == word@.len(),
            i <= word@.len(),
            forall|j: int| 0 <= j < i ==> ascii_lower(#[trigger] t[j]) == word@[j],
        decreases word@.len() - i,
    {
        let c = lower(s.get_char(start + i));
        assert(t[i as int] == s@[start + i]);
        if c != word[i] {
            return false;
        }
        i = i + 1;
    }
    true
}

/// Whether `s[start..end]` is a mantissa.
fn mantissa_at(s: &str, start: usize, end: usize) -> (r: bool)
    requires
        start <= end <= s@.len(),
    ensures
        r == is_float_mantissa(s@.subrange(start as int, end as int)),
{
    let ghost m = s@.subrange(start as int, end as int);
    let mut dot_at: usize = end;
    let mut digit_seen = false;
    let mut i: usize = start;
    while i < end
        invariant
            start <= i <= end <= s@.len(),
            dot_at <= end,
            m == s@.subrange(start as int, end as int),
            forall|j: int| 0 <= j < i - start ==> is_ascii_digit(#[trigger] m[j]) || m[j] == '.',
            dot_at == end ==> forall|j: int| 0 <= j < i - start ==> m[j] != '.',
            dot_at < end ==> start <= dot_at < i && m[dot_at - start] == '.'
                && forall|j: int| 0 <= j < i - start && j != dot_at - start ==> m[j] != '.',
            digit_seen <==> exists|j: int| 0 <= j < i - start && is_ascii_digit(#[trigger] m[j]),
        decreases end - i,
    {
        let c = s.get_char(i);
        assert(m[i - start] == c);
        if c == '.' {
            if dot_at < end {
                assert(m[dot_at - start] == '.' && m[i - start] == '.');
                return false;
            }
            dot_at = i;
        } else if '0' <= c && c <= '9' {
            digit_seen = true;
        } else {
            assert(!(is_ascii_digit(m[i - start]) || m[i - start] == '.'));
            return false;
        }
        i = i + 1;
    }
    proof {
        assert forall|a: int, b: int| 0 <= a < b < m.len() implies !(#[trigger] m[a] == '.' && #[trigger] m[b] == '.') by {
            if m[a] == '.' && m[b] == '.' {
                if dot_at < end {
                    assert(a == dot_at - start);
                    assert(b == dot_at - start);
                } else {
                    assert(m[a] != '.');
                }
            }
        }
    }
    digit_seen
}

/// Whether `s[start..]` is an exponent.
fn exponent_at(s: &str, start: usize) -> (r: bool)
    requires
        start <= s@.len(),
    ensures
        r == is_float_exponent(s@.subrange(start as int, s@.len() as int)),
{
    let n = s.unicode_len();
    let ghost x = s@.subrange(start as int, n as int);
    if start >= n {
        return false;
    }
    let c = s.get_char(start);
    assert(x[0] == c);
    let first_digit: usize = if c == '+' || c == '-' { start + 1 } else { start };
    if first_digit >= n {
        return false;
    }
    let mut i: usize = first_digit;
    while i < n
        invariant
            n == s@.len(),
            start <= first_digit <= i <= n,
            first_digit < n,
            x == s@.subrange(start as int, n as int),
            x[0] == c,
            first_digit == (if c == '+' || c == '-' { start + 1 } else { start as int }),
            forall|j: int| first_digit - start <= j < i - start ==> is_ascii_digit(#[trigger] x[j]),
        decreases n - i,
    {
        let d = s.get_char(i);
        assert(x[i - start] == d);
        if !('0' <= d && d <= '9') {
            proof {
                assert(!is_ascii_digit(x[i - start]));
                if first_digit == start + 1 {
                    assert(x.drop_first()[i - start - 1] == d);
                    assert(!is_ascii_digit(x.drop_first()[i - start - 1]));
                    assert(!all_digits(x.drop_first()));
                } else {
                    assert(!all_digits(x));
                }
                assert(!is_float_exponent(x));
            }
            return false;
        }
        i = i + 1;
    }
    proof {
        if first_digit == start + 1 {
            assert forall|j: int| 0 <= j < x.drop_first().len() implies is_ascii_digit(#[trigger] x.drop_first()[j]) by {
                assert(x.drop_first()[j] == x[j + 1]);
            }
        } else {
            assert(!is_ascii_digit('+') && !is_ascii_digit('-'));
        }
    }
    true
}

/// Whether `s[start..]` is a float body.
fn float_body_at(s: &str, start: usize) -> (r: bool)
    requires
        start <= s@.len(),
    ensures
        r == is_float_body(s@.subrange(start as int, s@.len() as int)),
{
    let n = s.unicode_len();
    let ghost t = s@.subrange(start as int, n as int);
    let inf: Vec<char> = vec!['i', 'n', 'f'];
    let infinity: Vec<char> = vec!['i', 'n', 'f', 'i', 'n', 'i', 't', 'y'];
    let nan: Vec<char> = vec!['n', 'a', 'n'];
    assert(inf@ =~= seq!['i', 'n', 'f']);
    assert(infinity@ =~= seq!['i', 'n', 'f', 'i', 'n', 'i', 't', 'y']);
    assert(nan@ =~= seq!['n', 'a', 'n']);
    if spells_at(s, start, n, &inf) || spells_at(s, start, n, &infinity) || spells_at(s, start, n, &nan) {
        return true;
    }
    // Split at the first `e`, if any.
    let mut k: usize = start;
    while k < n
        invariant
            n == s@.len(),
            start <= k <= n,
            t == s@.subrange(start as int, n as int),
            forall|j: int| 0 <= j < k - start ==> ascii_lower(#[trigger] t[j]) != 'e',
        ensures
            start <= k <= n,
            k < n ==> ascii_lower(s@[k as int]) == 'e',
            forall|j: int| 0 <= j < k - start ==> ascii_lower(#[trigger] t[j]) != 'e',
        decreases n - k,
    {
        if lower(s.get_char(k)) == 'e' {
            break;
        }
        k = k + 1;
    }
    if k == n {
        let r = mantissa_at(s, start, n);
        proof {
            if !r {
                if exists|e: int|
                    0 < e < t.len() && ascii_lower(t[e]) == 'e' && is_float_mantissa(#[trigger] t.subrange(0, e))
                        && is_float_exponent(t.subrange(e + 1, t.len() as int)) {
                    let e = choose|e: int|
                        0 < e < t.len() && ascii_lower(t[e]) == 'e' && is_float_mantissa(#[trigger] t.subrange(0, e))
                            && is_float_exponent(t.subrange(e + 1, t.len() as int));
                    assert(false);
                }
            }
        }
        return r;
    }
    assert(t[k - start] == s@[k as int]);
    assert(ascii_lower(t[k - start]) == 'e');
    let m = mantissa_at(s, start, k);
    let x = exponent_at(s, k + 1);
    proof {
        assert(s@.subrange(start as int, k as int) =~= t.subrange(0, k - start));
        assert(s@.subrange(k + 1, n as int) =~= t.subrange(k - start + 1, t.len() as int));
        // The whole body holds an `e`, so it is no bare mantissa.
        assert(!is_float_mantissa(t)) by {
            if is_float_mantissa(t) {
                assert(is_ascii_digit(t[k - start]) || t[k - start] == '.');
            }
        }
        if m && x {
            assert(k - start > 0) by {
                if k == start {
                    assert(t.subrange(0, 0).len() == 0);
                }
            }
        }
        // Any other split point would put an `e` in the mantissa or before it.
        if !(m && x) {
            if exists|e: int|
                0 < e < t.len() && ascii_lower(t[e]) == 'e' && is_float_mantissa(#[trigger] t.subrange(0, e))
                    && is_float_exponent(t.subrange(e + 1, t.len() as int)) {
                let e = choose|e: int|
                    0 < e < t.len() && ascii_lower(t[e]) == 'e' && is_float_mantissa(#[trigger] t.subrange(0, e))
                        && is_float_exponent(t.subrange(e + 1, t.len() as int));
                if e < k - start {
                    assert(false);
                } else if e > k - start {
                    let mm = t.subrange(0, e);
                    assert(mm[k - start] == t[k - start]);
                    assert(false);
                }
            }
        }
    }
    m && x
}

/// Validates that a value parses as a number.
pub struct Numeric;

impl Validator for Numeric {
    open spec fn accepts(&self, value: Seq<char>) -> bool {
        value.len() == 0 || is_float_text(value)
    }

    open spec fn refusal(&self, value: Seq<char>) -> Seq<char> {
        "Must be a number"@
    }

    fn validate(&self, value: &str) -> (r: Result<(), String>) {
        if value.is_empty() {
            return Ok(());  // Empty is OK, use Required for that
        }
        let first = value.get_char(0);
        let start: usize = if first == '+' || first == '-' { 1 } else { 0 };
        let ok = float_body_at(value, start);
        proof {
            if start == 1 {
                assert(value@.subrange(1, value@.len() as int) =~= value@.drop_first());
            } else {
                assert(value@.subrange(0, value@.len() as int) =~= value@);
            }
        }
        if ok {
            Ok(())
        } else {
            Err(String::from_str("Must be a number"))
        }
    }
}

} // verus!
