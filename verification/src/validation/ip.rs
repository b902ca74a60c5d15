//! IP address validation.

use vstd::prelude::*;

use crate::text::{all_digits, decimal, digits_value, is_ascii_digit};
use crate::validation::Validator;

verus! {

/// One octet of a dotted quad: one to three ASCII digits, no leading zero,
/// at most 255.
pub open spec fn is_octet_text(t: Seq<char>) -> bool {
    &&& 1 <= t.len() <= 3
    &&& all_digits(t)
    &&& (t.len() == 1 || t[0] != '0')
    &&& digits_value(t) <= 255
}

/// Dot-decimal notation of an IPv4 address: four octets separated by dots,
/// as the standard `Ipv4Addr` parser accepts it (no octal or hexadecimal forms).
pub open spec fn is_dotted_quad(s: Seq<char>) -> bool {
    exists|a: int, b: int, c: int|
        #![trigger s.subrange(0, a), s.subrange(a + 1, b), s.subrange(b + 1, c)]
        0 <= a < b < c < s.len() && s[a] == '.' && s[b] == '.' && s[c] == '.'
            && is_octet_text(s.subrange(0, a)) && is_octet_text(s.subrange(a + 1, b))
            && is_octet_text(s.subrange(b + 1, c)) && is_octet_text(s.subrange(c + 1, s.len() as int))
}

/// The dot-decimal text of four octets.
pub open spec fn quad_text(o: Seq<u8>) -> Seq<char> {
    decimal(o[0] as nat) + seq!['.'] + decimal(o[1] as nat) + seq!['.'] + decimal(o[2] as nat)
        + seq!['.'] + decimal(o[3] as nat)
}

/// The first index in `from..hi` where `c` occurs, or `hi`.
pub(crate) fn find_char_in(s: &str, c: char, from: usize, hi: usize) -> (r: usize)
    requires
        from <= hi <= s@.len(),
    ensures
        from <= r <= hi,
        forall|j: int| from <= j < r ==> s@[j] != c,
        r < hi ==> s@[r as int] == c,
{
    let mut i = from;
    while i < hi
        invariant
            hi <= s@.len(),
            from <= i <= hi,
            forall|j: int| from <= j < i ==> s@[j] != c,
        decreases hi - i,
    {
        if s.get_char(i) == c {
            return i;
        }
        i = i + 1;
    }
    i
}

/// Reads the octet `s[lo..hi]`.
fn octet_at(s: &str, lo: usize, hi: usize) -> (r: Option<u8>)
    requires
        lo <= hi <= s@.len(),
    ensures
        r is Some <==> is_octet_text(s@.subrange(lo as int, hi as int)),
        r matches Some(v) ==> v as nat == digits_value(s@.subrange(lo as int, hi as int)),
{
    let ghost t = s@.subrange(lo as int, hi as int);
    if hi - lo < 1 || hi - lo > 3 {
        return None;
    }
    if hi - lo > 1 && s.get_char(lo) == '0' {
        assert(t[0] == s@[lo as int]);
        return None;
    }
    let mut acc: u32 = 0;
    let mut i = lo;
    while i < hi
        invariant
            lo <= i <= hi <= s@.len(),
            hi - lo <= 3,
            t == s@.subrange(lo as int, hi as int),
            all_digits(t.take(i - lo)),
            acc == digits_value(t.take(i - lo)),
            acc < 1000,
            i - lo <= 3,
        decreases hi - i,
    {
        let c = s.get_char(i);
        assert(t[i - lo] == c);
        if !('0' <= c && c <= '9') {
            return None;
        }
        proof {
            assert(t.take(i - lo + 1).drop_last() =~= t.take(i - lo));
            assert(t.take(i - lo + 1).last() == c);
            if i - lo == 0 {
                assert(acc == 0) by {
                    assert(t.take(0).len() == 0);
                }
            } else if i - lo == 1 {
                assert(acc < 10) by {
                    assert(t.take(1).drop_last().len() == 0);
                    assert(digits_value(t.take(1).drop_last()) == 0);
                }
            } else {
                assert(acc < 100) by {
                    let u = t.take(2);
                    assert(u.drop_last().drop_last().len() == 0);
                    assert(digits_value(u.drop_last().drop_last()) == 0);
                    assert(digits_value(u.drop_last()) < 10);
                }
            }
        }
        acc = acc * 10 + (c as u32 - 48u32);
        i = i + 1;
    }
    assert(t.take(hi - lo) =~= t);
    if acc > 255 {
        return None;
    }
    Some(acc as u8)
}

/// Reads the dot-decimal text `s[lo..hi]` into four octets.
pub(crate) fn quad_at(s: &str, lo: usize, hi: usize) -> (r: Option<[u8; 4]>)
    requires
        lo <= hi <= s@.len(),
    ensures
        r is Some <==> is_dotted_quad(s@.subrange(lo as int, hi as int)),
        r matches Some(o) ==> s@.subrange(lo as int, hi as int) == quad_text(o@),
{
    let ghost t = s@.subrange(lo as int, hi as int);
    let ghost n = t.len() as int;
    let a = find_char_in(s, '.', lo, hi);
    if a >= hi {
        proof { lemma_no_quad_without_dots(t, n, n, n); }
        return None;
    }
    let b = find_char_in(s, '.', a + 1, hi);
    if b >= hi {
        proof { lemma_no_quad_without_dots(t, a - lo, n, n); }
        return None;
    }
    let c = find_char_in(s, '.', b + 1, hi);
    if c >= hi {
        proof { lemma_no_quad_without_dots(t, a - lo, b - lo, n); }
        return None;
    }
    let o0 = octet_at(s, lo, a);
    let o1 = octet_at(s, a + 1, b);
    let o2 = octet_at(s, b + 1, c);
    let o3 = octet_at(s, c + 1, hi);
    proof {
        let (x, y, z) = ((a - lo) as int, (b - lo) as int, (c - lo) as int);
        assert(t.subrange(0, x) =~= s@.subrange(lo as int, a as int));
        assert(t.subrange(x + 1, y) =~= s@.subrange(a + 1, b as int));
        assert(t.subrange(y + 1, z) =~= s@.subrange(b + 1, c as int));
        assert(t.subrange(z + 1, n) =~= s@.subrange(c + 1, hi as int));
        lemma_quad_split_unique(t, x, y, z);
    }
    match (o0, o1, o2, o3) {
        (Some(v0), Some(v1), Some(v2), Some(v3)) => {
            let o: [u8; 4] = [v0, v1, v2, v3];
            proof {
                assert(o@[0] == v0 && o@[1] == v1 && o@[2] == v2 && o@[3] == v3);
                lemma_quad_text_of_split(t, (a - lo) as int, (b - lo) as int, (c - lo) as int, o@);
            }
            Some(o)
        },
        _ => None,
    }
}

/// Parses dot-decimal text into the four octets of an IPv4 address.
pub fn parse_ipv4_octets(s: &str) -> (r: Option<[u8; 4]>)
    ensures
        r is Some <==> is_dotted_quad(s@),
        r matches Some(o) ==> s@ == quad_text(o@),
{
    let n = s.unicode_len();
    assert(s@.subrange(0, n as int) =~= s@);
    quad_at(s, 0, n)
}

/// Four octet texts between three dots spell the dot-decimal text of their values.
proof fn lemma_quad_text_of_split(s: Seq<char>, a: int, b: int, c: int, o: Seq<u8>)
    requires
        0 <= a < b < c < s.len(),
        o.len() == 4,
        s[a] == '.' && s[b] == '.' && s[c] == '.',
        is_octet_text(s.subrange(0, a)),
        is_octet_text(s.subrange(a + 1, b)),
        is_octet_text(s.subrange(b + 1, c)),
        is_octet_text(s.subrange(c + 1, s.len() as int)),
        o[0] as nat == digits_value(s.subrange(0, a)),
        o[1] as nat == digits_value(s.subrange(a + 1, b)),
        o[2] as nat == digits_value(s.subrange(b + 1, c)),
        o[3] as nat == digits_value(s.subrange(c + 1, s.len() as int)),
    ensures
        s == quad_text(o),
{
    lemma_octet_text_is_decimal(s.subrange(0, a));
    lemma_octet_text_is_decimal(s.subrange(a + 1, b));
    lemma_octet_text_is_decimal(s.subrange(b + 1, c));
    lemma_octet_text_is_decimal(s.subrange(c + 1, s.len() as int));
    assert(s =~= quad_text(o));
}

/// Without three dots where the scan found them, no split into four octets exists.
proof fn lemma_no_quad_without_dots(s: Seq<char>, a: int, b: int, c: int)
    requires
        a <= b <= c <= s.len(),
        a < s.len() ==> s[a] == '.' && a < b,
        b < s.len() ==> s[b] == '.' && b < c,
        c == s.len() || b == s.len() || a == s.len(),
        forall|j: int| 0 <= j < a ==> s[j] != '.',
        a < s.len() ==> forall|j: int| a + 1 <= j < b ==> s[j] != '.',
        b < s.len() ==> forall|j: int| b + 1 <= j < c ==> s[j] != '.',
    ensures
        !is_dotted_quad(s),
{
    if is_dotted_quad(s) {
        let (x, y, z) = choose|x: int, y: int, z: int|
            #![trigger s.subrange(0, x), s.subrange(x + 1, y), s.subrange(y + 1, z)]
            0 <= x < y < z < s.len() && s[x] == '.' && s[y] == '.' && s[z] == '.'
                && is_octet_text(s.subrange(0, x)) && is_octet_text(s.subrange(x + 1, y))
                && is_octet_text(s.subrange(y + 1, z)) && is_octet_text(s.subrange(z + 1, s.len() as int));
        assert(x >= a);
        assert(x == a) by {
            if x > a {
                assert(s.subrange(0, x)[a] == '.');
                assert(!is_ascii_digit('.'));
            }
        }
        assert(y >= b);
        assert(y == b) by {
            if y > b {
                assert(s.subrange(x + 1, y)[b - x - 1] == '.');
            }
        }
        assert(z >= c);
        assert(false);
    }
}

/// When the first three dots are at `a`, `b`, `c`, a split into four octets
/// exists exactly when the four pieces between them are octets.
proof fn lemma_quad_split_unique(s: Seq<char>, a: int, b: int, c: int)
    requires
        0 <= a < b < c < s.len(),
        s[a] == '.' && s[b] == '.' && s[c] == '.',
        forall|j: int| 0 <= j < a ==> s[j] != '.',
        forall|j: int| a + 1 <= j < b ==> s[j] != '.',
        forall|j: int| b + 1 <= j < c ==> s[j] != '.',
    ensures
        is_dotted_quad(s) <==> (is_octet_text(s.subrange(0, a)) && is_octet_text(s.subrange(a + 1, b))
            && is_octet_text(s.subrange(b + 1, c)) && is_octet_text(s.subrange(c + 1, s.len() as int))),
{
    if is_dotted_quad(s) {
        let (x, y, z) = choose|x: int, y: int, z: int|
            #![trigger s.subrange(0, x), s.subrange(x + 1, y), s.subrange(y + 1, z)]
            0 <= x < y < z < s.len() && s[x] == '.' && s[y] == '.' && s[z] == '.'
                && is_octet_text(s.subrange(0, x)) && is_octet_text(s.subrange(x + 1, y))
                && is_octet_text(s.subrange(y + 1, z)) && is_octet_text(s.subrange(z + 1, s.len() as int));
        assert(x == a) by {
            if x > a {
                assert(s.subrange(0, x)[a] == '.');
            }
        }
        assert(y == b) by {
            if y > b {
                assert(s.subrange(x + 1, y)[b - x - 1] == '.');
            }
        }
        assert(z == c) by {
            if z > c {
                assert(s.subrange(y + 1, z)[c - y - 1] == '.');
            } else if z < c {
                assert(s[z] != '.');
            }
        }
    }
    if is_octet_text(s.subrange(0, a)) && is_octet_text(s.subrange(a + 1, b))
        && is_octet_text(s.subrange(b + 1, c)) && is_octet_text(s.subrange(c + 1, s.len() as int)) {
        assert(is_dotted_quad(s));
    }
}

/// A canonical octet text is the decimal text of its value.
proof fn lemma_octet_text_is_decimal(t: Seq<char>)
    requires
        is_octet_text(t),
    ensures
        t == decimal(digits_value(t)),
{
    lemma_canonical_digits_are_decimal(t);
}

proof fn lemma_canonical_digits_are_decimal(t: Seq<char>)
    requires
        t.len() >= 1,
        all_digits(t),
        t.len() == 1 || t[0] != '0',
    ensures
        t == decimal(digits_value(t)),
    decreases t.len(),
{
    let v = digits_value(t);
    if t.len() == 1 {
        assert(t.drop_last().len() == 0);
        assert(digits_value(t.drop_last()) == 0);
        assert(v < 10);
        assert(t =~= decimal(v));
    } else {
        let p = t.drop_last();
        assert(p[0] == t[0]);
        lemma_canonical_digits_are_decimal(p);
        let pv = digits_value(p);
        assert(pv > 0) by {
            lemma_leading_digit_positive(p);
        }
        assert(v == pv * 10 + crate::text::digit_value(t.last()));
        assert(v >= 10);
        assert(v / 10 == pv);
        assert(v % 10 == crate::text::digit_value(t.last()));
        assert(decimal(v) == decimal(v / 10).push(crate::text::digit_char(v % 10)));
        assert(crate::text::digit_char(crate::text::digit_value(t.last())) == t.last());
        assert(t =~= p.push(t.last()));
    }
}

proof fn lemma_leading_digit_positive(p: Seq<char>)
    requires
        p.len() >= 1,
        all_digits(p),
        p[0] != '0',
    ensures
        digits_value(p) > 0,
    decreases p.len(),
{
    if p.len() > 1 {
        assert(p.drop_last()[0] == p[0]);
        lemma_leading_digit_positive(p.drop_last());
    } else {
        assert(p.drop_last().len() == 0);
        assert(digits_value(p.drop_last()) == 0);
    }
}

/// The dot-decimal text of four octets.
pub fn format_ipv4_octets(o: [u8; 4]) -> (r: String)
    ensures
        r@ == quad_text(o@),
{
    let mut s = String::new();
    crate::text::push_decimal(&mut s, o[0] as u128);
    crate::text::push_char(&mut s, '.');
    crate::text::push_decimal(&mut s, o[1] as u128);
    crate::text::push_char(&mut s, '.');
    crate::text::push_decimal(&mut s, o[2] as u128);
    crate::text::push_char(&mut s, '.');
    crate::text::push_decimal(&mut s, o[3] as u128);
    assert(s@ =~= quad_text(o@));
    s
}

/// Validates that a value is a valid IPv4 address.
pub struct Ipv4;

impl Validator for Ipv4 {
    open spec fn accepts(&self, value: Seq<char>) -> bool {
        value.len() == 0 || is_dotted_quad(value)
    }

    open spec fn refusal(&self, value: Seq<char>) -> Seq<char> {
        "Invalid IPv4 address"@
    }

    fn validate(&self, value: &str) -> (r: Result<(), String>) {
        if value.is_empty() {
            return Ok(());  // Empty is OK, use Required for that
        }
        if parse_ipv4_octets(value).is_some() {
            Ok(())
        } else {
            Err(String::from_str("Invalid IPv4 address"))
        }
    }
}

} // verus!

verus! {

/// An IPv4 address, as four octets.
#[derive(Clone, Copy, Debug, PartialEq, Eq)]
pub struct Ipv4Address {
    octets: [u8; 4],
}

impl View for Ipv4Address {
    type V = Seq<u8>;

    closed spec fn view(&self) -> Seq<u8> {
        self.octets@
    }
}

impl Ipv4Address {
    /// The address `a.b.c.d`.
    pub fn new(a: u8, b: u8, c: u8, d: u8) -> (r: Self)
        ensures
            r@ == seq![a, b, c, d],
    {
        let r = Ipv4Address { octets: [a, b, c, d] };
        assert(r@ =~= seq![a, b, c, d]);
        r
    }

    /// The four octets.
    pub fn octets(&self) -> (r: [u8; 4])
        ensures
            r@ == self@,
            r@.len() == 4,
    {
        self.octets
    }

    /// Reads an address in dot-decimal notation.
    pub fn parse(s: &str) -> (r: Option<Self>)
        ensures
            r is Some <==> is_dotted_quad(s@),
            r matches Some(a) ==> s@ == quad_text(a@) && a@.len() == 4,
    {
        match parse_ipv4_octets(s) {
            Some(o) => Some(Ipv4Address { octets: o }),
            None => None,
        }
    }

    /// The address in dot-decimal notation.
    pub fn to_text(&self) -> (r: String)
        ensures
            r@ == quad_text(self@),
    {
        format_ipv4_octets(self.octets)
    }
}

/// The text of four octets has no dot before the end of the first octet.
proof fn lemma_decimal_has_no_dot(n: nat)
    ensures
        !decimal(n).contains('.'),
{
    crate::text::lemma_decimal_digits(n);
    if decimal(n).contains('.') {
        let i = choose|i: int| 0 <= i < decimal(n).len() && decimal(n)[i] == '.';
        assert(is_ascii_digit(decimal(n)[i]));
    }
}

proof fn lemma_decimal_injective(m: nat, n: nat)
    requires
        decimal(m) == decimal(n),
    ensures
        m == n,
{
    crate::text::lemma_decimal_digits(m);
    crate::text::lemma_decimal_digits(n);
}

/// Splitting `x + "." + rest` at its first dot gives back `x` when `x` has none.
proof fn lemma_split_first_dot(x: Seq<char>, y: Seq<char>, rx: Seq<char>, ry: Seq<char>)
    requires
        !x.contains('.'),
        !y.contains('.'),
        x + seq!['.'] + rx == y + seq!['.'] + ry,
    ensures
        x == y,
        rx == ry,
{
    let s = x + seq!['.'] + rx;
    if x.len() < y.len() {
        assert(s[x.len() as int] == '.');
        assert(y[x.len() as int] == s[x.len() as int]);
        assert(y.contains('.'));
    } else if y.len() < x.len() {
        assert(s[y.len() as int] == (y + seq!['.'] + ry)[y.len() as int]);
        assert(x[y.len() as int] == '.');
        assert(x.contains('.'));
    }
    assert(x =~= s.subrange(0, x.len() as int));
    assert(y =~= (y + seq!['.'] + ry).subrange(0, y.len() as int));
    assert(rx =~= s.subrange(x.len() as int + 1, s.len() as int));
    assert(ry =~= (y + seq!['.'] + ry).subrange(y.len() as int + 1, s.len() as int));
}

/// Different octets have different dot-decimal texts.
#[verifier::spinoff_prover]
#[verifier::rlimit(30)]
pub proof fn lemma_quad_text_injective(o: Seq<u8>, p: Seq<u8>)
    requires
        o.len() == 4,
        p.len() == 4,
        quad_text(o) == quad_text(p),
    ensures
        o == p,
{
    lemma_decimal_has_no_dot(o[0] as nat);
    lemma_decimal_has_no_dot(o[1] as nat);
    lemma_decimal_has_no_dot(o[2] as nat);
    lemma_decimal_has_no_dot(p[0] as nat);
    lemma_decimal_has_no_dot(p[1] as nat);
    lemma_decimal_has_no_dot(p[2] as nat);
    let r1o = decimal(o[1] as nat) + seq!['.'] + decimal(o[2] as nat) + seq!['.'] + decimal(o[3] as nat);
    let r1p = decimal(p[1] as nat) + seq!['.'] + decimal(p[2] as nat) + seq!['.'] + decimal(p[3] as nat);
    assert(quad_text(o) =~= decimal(o[0] as nat) + seq!['.'] + r1o);
    assert(quad_text(p) =~= decimal(p[0] as nat) + seq!['.'] + r1p);
    lemma_split_first_dot(decimal(o[0] as nat), decimal(p[0] as nat), r1o, r1p);
    let r2o = decimal(o[2] as nat) + seq!['.'] + decimal(o[3] as nat);
    let r2p = decimal(p[2] as nat) + seq!['.'] + decimal(p[3] as nat);
    assert(r1o =~= decimal(o[1] as nat) + seq!['.'] + r2o);
    assert(r1p =~= decimal(p[1] as nat) + seq!['.'] + r2p);
    lemma_split_first_dot(decimal(o[1] as nat), decimal(p[1] as nat), r2o, r2p);
    lemma_split_first_dot(decimal(o[2] as nat), decimal(p[2] as nat), decimal(o[3] as nat), decimal(p[3] as nat));
    lemma_decimal_injective(o[0] as nat, p[0] as nat);
    lemma_decimal_injective(o[1] as nat, p[1] as nat);
    lemma_decimal_injective(o[2] as nat, p[2] as nat);
    lemma_decimal_injective(o[3] as nat, p[3] as nat);
    assert(o =~= p);
}

/// The dot-decimal text of any four octets is a dotted quad.
pub proof fn lemma_quad_text_is_dotted_quad(o: Seq<u8>)
    requires
        o.len() == 4,
    ensures
        is_dotted_quad(quad_text(o)),
{
    let s = quad_text(o);
    let d0 = decimal(o[0] as nat);
    let d1 = decimal(o[1] as nat);
    let d2 = decimal(o[2] as nat);
    let d3 = decimal(o[3] as nat);
    let a = d0.len() as int;
    let b = a + 1 + d1.len();
    let c = b + 1 + d2.len();
    assert(s.subrange(0, a) =~= d0);
    assert(s.subrange(a + 1, b) =~= d1);
    assert(s.subrange(b + 1, c) =~= d2);
    assert(s.subrange(c + 1, s.len() as int) =~= d3);
    lemma_decimal_is_octet(o[0]);
    lemma_decimal_is_octet(o[1]);
    lemma_decimal_is_octet(o[2]);
    lemma_decimal_is_octet(o[3]);
    assert(s[a] == '.' && s[b] == '.' && s[c] == '.');
}

proof fn lemma_decimal_is_octet(v: u8)
    ensures
        is_octet_text(decimal(v as nat)),
{
    crate::text::lemma_decimal_digits(v as nat);
    let n = v as nat;
    if n >= 10 {
        if n >= 100 {
            assert(decimal(n / 10).len() == 2) by {
                assert(n / 10 >= 10 && n / 10 < 100);
                assert(decimal(n / 10 / 10).len() == 1);
            }
        } else {
            assert(decimal(n / 10).len() == 1);
        }
    }
}

/// Reading back the text of an address gives the address: the text is a
/// dotted quad, and the only octets with that text are the address's own.
pub proof fn lemma_ipv4_text_round_trip(o: Seq<u8>)
    requires
        o.len() == 4,
    ensures
        is_dotted_quad(quad_text(o)),
        forall|p: Seq<u8>| p.len() == 4 && #[trigger] quad_text(p) == quad_text(o) ==> p == o,
{
    lemma_quad_text_is_dotted_quad(o);
    assert forall|p: Seq<u8>| p.len() == 4 && #[trigger] quad_text(p) == quad_text(o) implies p == o by {
        lemma_quad_text_injective(p, o);
    }
}

} // verus!
