//! Character-level helpers: whitespace, decimal numbers and string building.

use vstd::prelude::*;

verus! {

/// Whether a character has the Unicode `White_Space` property, the notion of
/// whitespace that `char::is_whitespace` and `str::trim` use: tab, line feed,
/// vertical tab, form feed, carriage return, space, next line, no-break
/// space, ogham space mark, the spaces from en quad to hair space, line and
/// paragraph separators, narrow no-break space, medium mathematical space and
/// ideographic space.
pub open spec fn is_unicode_white_space(c: char) -> bool {
    let n = c as u32;
    ||| 0x09 <= n <= 0x0d
    ||| n == 0x20
    ||| n == 0x85
    ||| n == 0xa0
    ||| n == 0x1680
    ||| 0x2000 <= n <= 0x200a
    ||| n == 0x2028
    ||| n == 0x2029
    ||| n == 0x202f
    ||| n == 0x205f
    ||| n == 0x3000
}

/// Whether `c` is whitespace, as `char::is_whitespace` tells it.
pub(crate) fn char_is_whitespace(c: char) -> (r: bool)
    ensures
        r == is_unicode_white_space(c),
{
    let n = c as u32;
    (0x09 <= n && n <= 0x0d) || n == 0x20 || n == 0x85 || n == 0xa0 || n == 0x1680 || (0x2000 <= n && n
        <= 0x200a) || n == 0x2028 || n == 0x2029 || n == 0x202f || n == 0x205f || n == 0x3000
}

/// `String::push`: appends one character at the end.
#[verifier::external_body]
pub(crate) fn push_char(s: &mut String, c: char)
    ensures
        final(s)@ == old(s)@.push(c),
{
    s.push(c);
}

/// A text is blank when `trim` would leave nothing of it: every character is whitespace.
pub open spec fn is_blank(s: Seq<char>) -> bool {
    forall|i: int| 0 <= i < s.len() ==> is_unicode_white_space(#[trigger] s[i])
}

/// Whether `s` holds only whitespace (or nothing at all).
pub fn is_blank_str(s: &str) -> (r: bool)
    ensures
        r == is_blank(s@),
{
    let n = s.unicode_len();
    let mut i: usize = 0;
    while i < n
        invariant
            n == s@.len(),
            i <= n,
            forall|j: int| 0 <= j < i ==> is_unicode_white_space(#[trigger] s@[j]),
        decreases n - i,
    {
        if !char_is_whitespace(s.get_char(i)) {
            return false;
        }
        i = i + 1;
    }
    true
}

/// Whether `c` occurs in `s`.
pub fn contains_char(s: &str, c: char) -> (r: bool)
    ensures
        r == s@.contains(c),
{
    let n = s.unicode_len();
    let mut i: usize = 0;
    while i < n
        invariant
            n == s@.len(),
            i <= n,
            forall|j: int| 0 <= j < i ==> s@[j] != c,
        decreases n - i,
    {
        if s.get_char(i) == c {
            assert(s@[i as int] == c);
            return true;
        }
        i = i + 1;
    }
    false
}

/// A copy of `s` as an owned string.
pub fn to_owned_string(s: &str) -> (r: String)
    ensures
        r@ == s@,
{
    String::from_str(s)
}

/// The concatenation of two texts.
pub fn concat_str(a: &str, b: &str) -> (r: String)
    ensures
        r@ == a@ + b@,
{
    let mut r = String::from_str(a);
    r.append(b);
    r
}

// ---------------------------------------------------------------------------
// Decimal digits
// ---------------------------------------------------------------------------

pub open spec fn is_ascii_digit(c: char) -> bool {
    '0' <= c && c <= '9'
}

pub open spec fn digit_value(c: char) -> nat {
    (c as int - '0' as int) as nat
}

pub open spec fn digit_char(d: nat) -> char {
    (d + '0' as int) as char
}

pub open spec fn all_digits(s: Seq<char>) -> bool {
    forall|i: int| 0 <= i < s.len() ==> is_ascii_digit(#[trigger] s[i])
}

/// The number that a string of decimal digits denotes.
pub open spec fn digits_value(s: Seq<char>) -> nat
    decreases s.len(),
{
    if s.len() == 0 {
        0
    } else {
        digits_value(s.drop_last()) * 10 + digit_value(s.last())
    }
}

/// The decimal representation of `n`, without leading zeros.
pub open spec fn decimal(n: nat) -> Seq<char>
    decreases n,
{
    if n < 10 {
        seq![digit_char(n)]
    } else {
        decimal(n / 10).push(digit_char(n % 10))
    }
}

/// The decimal representation of `i`, with a `-` in front when it is negative.
pub open spec fn signed_decimal(i: int) -> Seq<char> {
    if i < 0 {
        seq!['-'] + decimal((-i) as nat)
    } else {
        decimal(i as nat)
    }
}

/// What the standard integer parser reads from a text: an optional sign
/// (`-` only where `signed`) followed by at least one ASCII digit and nothing else.
pub open spec fn integer_text(s: Seq<char>, signed: bool) -> Option<int> {
    if s.len() > 1 && s[0] == '+' && all_digits(s.drop_first()) {
        Some(digits_value(s.drop_first()) as int)
    } else if signed && s.len() > 1 && s[0] == '-' && all_digits(s.drop_first()) {
        Some(-(digits_value(s.drop_first()) as int))
    } else if s.len() > 0 && all_digits(s) {
        Some(digits_value(s) as int)
    } else {
        None
    }
}

/// The integer that `s` parses to within `min..=max`, if any.
pub open spec fn parse_integer_in(s: Seq<char>, signed: bool, min: int, max: int) -> Option<int> {
    match integer_text(s, signed) {
        Some(v) => if min <= v && v <= max { Some(v) } else { None },
        None => None,
    }
}

proof fn lemma_digits_value_prefix(s: Seq<char>, i: int)
    requires
        0 <= i <= s.len(),
    ensures
        digits_value(s.take(i)) <= digits_value(s),
    decreases s.len(),
{
    if i < s.len() {
        assert(s.drop_last().take(i) =~= s.take(i));
        lemma_digits_value_prefix(s.drop_last(), i);
    } else {
        assert(s.take(i) =~= s);
    }
}

pub proof fn lemma_decimal_digits(n: nat)
    ensures
        all_digits(decimal(n)),
        decimal(n).len() > 0,
        digits_value(decimal(n)) == n,
        decimal(n)[0] != '0' || n == 0,
    decreases n,
{
    if n >= 10 {
        lemma_decimal_digits(n / 10);
        let d = decimal(n / 10);
        assert(decimal(n).drop_last() =~= d);
        assert(digit_value(digit_char(n % 10)) == n % 10);
        assert(n == (n / 10) * 10 + n % 10);
        assert(decimal(n)[0] == d[0]);
        assert(decimal(n).last() == digit_char(n % 10));
        assert(digits_value(decimal(n)) == digits_value(decimal(n).drop_last()) * 10 + digit_value(decimal(n).last()));
    } else {
        assert(decimal(n).drop_last() =~= Seq::<char>::empty());
        assert(digit_value(digit_char(n)) == n);
        assert(digits_value(Seq::<char>::empty()) == 0);
        assert(decimal(n).last() == digit_char(n));
        assert(digits_value(decimal(n)) == digits_value(decimal(n).drop_last()) * 10 + digit_value(decimal(n).last()));
    }
}

/// Reading back the decimal text of a number gives the number.
pub proof fn lemma_integer_text_of_decimal(i: int, signed: bool)
    requires
        signed || i >= 0,
    ensures
        integer_text(signed_decimal(i), signed) == Some(i),
{
    if i < 0 {
        let d = decimal((-i) as nat);
        lemma_decimal_digits((-i) as nat);
        assert((seq!['-'] + d).drop_first() =~= d);
        assert((seq!['-'] + d)[0] == '-');
        assert(!is_ascii_digit('-'));
        assert(!all_digits(seq!['-'] + d)) by {
            assert(!is_ascii_digit((seq!['-'] + d)[0]));
        }
    } else {
        lemma_decimal_digits(i as nat);
        let d = decimal(i as nat);
        assert(is_ascii_digit(d[0]));
    }
}

fn digit_of(n: u128) -> (c: char)
    requires
        n < 10,
    ensures
        c == digit_char(n as nat),
{
    let b: u8 = 48u8 + (n as u8);
    let c = b as char;
    assert(c == digit_char(n as nat)) by {
        assert(c as int == b as int);
    }
    c
}

/// Appends the decimal text of `n`.
pub fn push_decimal(s: &mut String, n: u128)
    ensures
        final(s)@ == old(s)@ + decimal(n as nat),
    decreases n,
{
    if n >= 10 {
        push_decimal(s, n / 10);
    }
    let ghost before = s@;
    push_char(s, digit_of(n % 10));
    proof {
        if n >= 10 {
            assert(before == old(s)@ + decimal((n / 10) as nat));
            assert(s@ =~= old(s)@ + decimal(n as nat));
        } else {
            assert(s@ =~= old(s)@ + decimal(n as nat));
        }
    }
}

/// The decimal text of an unsigned number.
pub fn format_unsigned(n: u128) -> (r: String)
    ensures
        r@ == decimal(n as nat),
{
    let mut s = String::new();
    push_decimal(&mut s, n);
    assert(s@ =~= decimal(n as nat));
    s
}

/// The decimal text of a signed number.
pub fn format_signed(i: i128) -> (r: String)
    ensures
        r@ == signed_decimal(i as int),
{
    let mut s = String::new();
    if i < 0 {
        push_char(&mut s, '-');
        let m: u128 = if i == i128::MIN {
            170141183460469231731687303715884105728u128
        } else {
            (-i) as u128
        };
        push_decimal(&mut s, m);
    } else {
        push_decimal(&mut s, i as u128);
    }
    assert(s@ =~= signed_decimal(i as int));
    s
}

/// Reads the digits of `s` from `start` on as a number. `None` when they are
/// not all digits, when there is none, or when the number exceeds `u128::MAX`.
fn scan_digits(s: &str, start: usize) -> (r: Option<u128>)
    requires
        start <= s@.len(),
    ensures
        ({
            let t = s@.skip(start as int);
            match r {
                Some(v) => t.len() > 0 && all_digits(t) && digits_value(t) == v,
                None => !(t.len() > 0 && all_digits(t)) || digits_value(t) > u128::MAX,
            }
        }),
{
    let n = s.unicode_len();
    if start >= n {
        return None;
    }
    let ghost t = s@.skip(start as int);
    let mut acc: u128 = 0;
    let mut i: usize = start;
    while i < n
        invariant
            n == s@.len(),
            start < n,
            start <= i <= n,
            t == s@.skip(start as int),
            all_digits(t.take(i - start)),
            acc == digits_value(t.take(i - start)),
        decreases n - i,
    {
        let c = s.get_char(i);
        if !('0' <= c && c <= '9') {
            assert(t[i - start] == c);
            return None;
        }
        let d: u128 = (c as u32 - 48u32) as u128;
        proof {
            assert(t.take(i - start + 1).drop_last() =~= t.take(i - start));
            assert(t.take(i - start + 1).last() == c);
        }
        if acc > (u128::MAX - d) / 10 {
            proof {
                assert(digits_value(t.take(i - start + 1)) == acc * 10 + d);
                assert(acc * 10 + d > u128::MAX) by (nonlinear_arith)
                    requires
                        acc > (u128::MAX - d) / 10,
                        d < 10,
                ;
                lemma_digits_value_prefix(t, i - start + 1);
                assert(all_digits(t) ==> digits_value(t) > u128::MAX);
            }
            return None;
        }
        proof {
            assert(acc * 10 + d <= u128::MAX) by (nonlinear_arith)
                requires
                    acc <= (u128::MAX - d) / 10,
                    d < 10,
            ;
        }
        acc = acc * 10 + d;
        i = i + 1;
    }
    assert(t.take(n - start) =~= t);
    Some(acc)
}

/// Parses `s` as an unsigned integer no greater than `max`, as the standard
/// integer parser does: an optional `+`, then ASCII digits only.
pub fn parse_unsigned(s: &str, max: u128) -> (r: Option<u128>)
    ensures
        r matches Some(v) ==> parse_integer_in(s@, false, 0, max as int) == Some(v as int),
        r is None ==> parse_integer_in(s@, false, 0, max as int) is None,
{
    let n = s.unicode_len();
    if n == 0 {
        return None;
    }
    let first = s.get_char(0);
    let start: usize = if first == '+' { 1 } else { 0 };
    let scanned = scan_digits(s, start);
    proof {
        if first == '+' {
            assert(s@.skip(1) =~= s@.drop_first());
            assert(!is_ascii_digit(s@[0]));
        } else {
            assert(s@.skip(0) =~= s@);
        }
    }
    match scanned {
        Some(v) => if v <= max { Some(v) } else { None },
        None => None,
    }
}

/// Parses `s` as a signed integer within `min..=max`, as the standard integer
/// parser does: an optional `+` or `-`, then ASCII digits only.
pub fn parse_signed(s: &str, min: i128, max: i128) -> (r: Option<i128>)
    ensures
        r matches Some(v) ==> parse_integer_in(s@, true, min as int, max as int) == Some(v as int),
        r is None ==> parse_integer_in(s@, true, min as int, max as int) is None,
{
    let n = s.unicode_len();
    if n == 0 {
        return None;
    }
    let first = s.get_char(0);
    let neg = first == '-';
    let start: usize = if first == '+' || first == '-' { 1 } else { 0 };
    let scanned = scan_digits(s, start);
    proof {
        if start == 1 {
            assert(s@.skip(1) =~= s@.drop_first());
            assert(!is_ascii_digit(s@[0]));
        } else {
            assert(s@.skip(0) =~= s@);
        }
    }
    match scanned {
        Some(m) => {
            if neg {
                if m <= 170141183460469231731687303715884105727u128 {
                    let v: i128 = -(m as i128);
                    if min <= v && v <= max { Some(v) } else { None }
                } else if m == 170141183460469231731687303715884105728u128 && min == i128::MIN {
                    Some(i128::MIN)
                } else {
                    None
                }
            } else {
                if m <= 170141183460469231731687303715884105727u128 && min <= (m as i128) && (m as i128) <= max {
                    Some(m as i128)
                } else {
                    None
                }
            }
        },
        None => None,
    }
}

} // verus!

verus! {

/// The number of characters of `s`.
pub fn char_count(s: &str) -> (r: usize)
    ensures
        r == s@.len(),
{
    s.unicode_len()
}

/// `v` with the characters `start..end` replaced by `rep`.
pub fn splice(v: &str, start: usize, end: usize, rep: &str) -> (r: String)
    requires
        start <= end <= v@.len(),
    ensures
        r@ == v@.take(start as int) + rep@ + v@.skip(end as int),
{
    let n = v.unicode_len();
    let mut s = String::from_str(v.substring_char(0, start));
    s.append(rep);
    s.append(v.substring_char(end, n));
    assert(v@.subrange(0, start as int) =~= v@.take(start as int));
    assert(v@.subrange(end as int, n as int) =~= v@.skip(end as int));
    s
}

/// `v` with `c` inserted before the character at `at`.
pub fn insert_char_at(v: &str, at: usize, c: char) -> (r: String)
    requires
        at <= v@.len(),
    ensures
        r@ == v@.take(at as int).push(c) + v@.skip(at as int),
{
    let n = v.unicode_len();
    let mut s = String::from_str(v.substring_char(0, at));
    push_char(&mut s, c);
    s.append(v.substring_char(at, n));
    assert(v@.subrange(0, at as int) =~= v@.take(at as int));
    assert(v@.subrange(at as int, n as int) =~= v@.skip(at as int));
    s
}

} // verus!

verus! {

/// Whether two texts are equal, character by character.
pub fn str_eq(a: &str, b: &str) -> (r: bool)
    ensures
        r == (a@ == b@),
{
    let n = a.unicode_len();
    if n != b.unicode_len() {
        return false;
    }
    let mut i: usize = 0;
    while i < n
        invariant
            n == a@.len(),
            n == b@.len(),
            i <= n,
            forall|j: int| 0 <= j < i ==> a@[j] == b@[j],
        decreases n - i,
    {
        if a.get_char(i) != b.get_char(i) {
            return false;
        }
        i = i + 1;
    }
    assert(a@ =~= b@);
    true
}

} // verus!
