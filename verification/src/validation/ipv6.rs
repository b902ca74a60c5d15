//! IPv6 addresses: the text notation, read into eight 16-bit segments.
//!
//! The notation is that of the standard `Ipv6Addr` parser: eight groups of
//! one to four hexadecimal digits separated by colons; one `::` may stand
//! for one or more groups of zeros; the last two groups may be written as
//! dot-decimal IPv4 text. No zone index, no brackets.

use vstd::prelude::*;

use crate::validation::Validator;
use crate::validation::ip::{is_dotted_quad, quad_at, quad_text};

verus! {

pub open spec fn is_hex_digit(c: char) -> bool {
    ('0' <= c && c <= '9') || ('a' <= c && c <= 'f') || ('A' <= c && c <= 'F')
}

pub open spec fn hex_digit_value(c: char) -> nat {
    if '0' <= c && c <= '9' {
        (c as int - '0' as int) as nat
    } else if 'a' <= c && c <= 'f' {
        (c as int - 'a' as int + 10) as nat
    } else {
        (c as int - 'A' as int + 10) as nat
    }
}

/// The number that a string of hexadecimal digits denotes.
pub open spec fn hex_value(t: Seq<char>) -> nat
    decreases t.len(),
{
    if t.len() == 0 {
        0
    } else {
        hex_value(t.drop_last()) * 16 + hex_digit_value(t.last())
    }
}

/// One group of an IPv6 address: one to four hexadecimal digits.
pub open spec fn is_hex_group(t: Seq<char>) -> bool {
    &&& 1 <= t.len() <= 4
    &&& forall|i: int| 0 <= i < t.len() ==> is_hex_digit(#[trigger] t[i])
}

/// The pieces of `s` between its colons, in order; a text without colon is
/// one piece.
pub open spec fn colon_pieces(s: Seq<char>) -> Seq<Seq<char>>
    decreases s.len(),
{
    if s.len() == 0 {
        seq![Seq::empty()]
    } else {
        let rest = colon_pieces(s.drop_last());
        if s.last() == ':' {
            rest.push(Seq::empty())
        } else {
            rest.update(rest.len() - 1, rest.last().push(s.last()))
        }
    }
}

/// The four octets of dot-decimal text.
pub open spec fn quad_octets(t: Seq<char>) -> Seq<u8> {
    choose|o: Seq<u8>| o.len() == 4 && quad_text(o) == t
}

/// The two 16-bit segments that dot-decimal text stands for.
pub open spec fn quad_segments(t: Seq<char>) -> Seq<nat> {
    let o = quad_octets(t);
    seq![(o[0] * 256 + o[1]) as nat, (o[2] * 256 + o[3]) as nat]
}

/// The values of a list of groups.
pub open spec fn group_values(ps: Seq<Seq<char>>) -> Seq<nat> {
    ps.map_values(|p: Seq<char>| hex_value(p))
}

/// The segments that a run of colon-separated groups stands for; with
/// `allow_quad` the last piece may be dot-decimal text standing for two
/// segments. `None` when `s` is no such run; the empty text is the empty run.
pub open spec fn run_values(s: Seq<char>, allow_quad: bool) -> Option<Seq<nat>> {
    let ps = colon_pieces(s);
    if s.len() == 0 {
        Some(Seq::empty())
    } else if forall|i: int| 0 <= i < ps.len() ==> is_hex_group(#[trigger] ps[i]) {
        Some(group_values(ps))
    } else if allow_quad && (forall|i: int| 0 <= i < ps.len() - 1 ==> is_hex_group(#[trigger] ps[i]))
        && is_dotted_quad(ps.last()) {
        Some(group_values(ps.drop_last()) + quad_segments(ps.last()))
    } else {
        None
    }
}

/// Whether a `::` starts at `k`.
pub open spec fn is_double_colon(s: Seq<char>, k: int) -> bool {
    0 <= k && k + 1 < s.len() && s[k] == ':' && s[k + 1] == ':'
}

/// Whether the first `::` of `s` starts at `k`.
pub open spec fn first_double_colon(s: Seq<char>, k: int) -> bool {
    is_double_colon(s, k) && forall|j: int| 0 <= j < k ==> !is_double_colon(s, j)
}

/// The eight segments that IPv6 text stands for, or `None` when `s` is not
/// IPv6 text. Without `::` the text is a run of eight segments; with it,
/// the runs before and after the first `::` (only the latter may end in
/// dot-decimal text) hold at most seven segments, and zeros fill the gap.
pub open spec fn ipv6_segments(s: Seq<char>) -> Option<Seq<nat>> {
    if exists|k: int| first_double_colon(s, k) {
        let k = choose|k: int| first_double_colon(s, k);
        match (run_values(s.take(k), false), run_values(s.skip(k + 2), true)) {
            (Some(h), Some(t)) => if h.len() + t.len() <= 7 {
                Some(h + Seq::new((8 - h.len() - t.len()) as nat, |i: int| 0nat) + t)
            } else {
                None
            },
            _ => None,
        }
    } else {
        match run_values(s, true) {
            Some(v) => if v.len() == 8 {
                Some(v)
            } else {
                None
            },
            None => None,
        }
    }
}

/// Whether `s` is IPv6 text.
pub open spec fn is_ipv6_text(s: Seq<char>) -> bool {
    ipv6_segments(s) is Some
}

/// The `(start, end)` ranges of the colon pieces of `s[lo..hi]`.
fn piece_ranges(s: &str, lo: usize, hi: usize) -> (r: Vec<(usize, usize)>)
    requires
        lo <= hi <= s@.len(),
    ensures
        r@.len() == colon_pieces(s@.subrange(lo as int, hi as int)).len(),
        forall|m: int|
            0 <= m < r@.len() ==> lo <= (#[trigger] r@[m]).0 <= r@[m].1 <= hi && s@.subrange(
                r@[m].0 as int,
                r@[m].1 as int,
            ) == colon_pieces(s@.subrange(lo as int, hi as int))[m],
{
    let mut done: Vec<(usize, usize)> = Vec::new();
    let mut cur = lo;
    let mut j = lo;
    assert(s@.subrange(lo as int, lo as int) =~= Seq::<char>::empty());
    while j < hi
        invariant
            lo <= cur <= j <= hi <= s@.len(),
            colon_pieces(s@.subrange(lo as int, j as int)).len() == done@.len() + 1,
            colon_pieces(s@.subrange(lo as int, j as int)).last() == s@.subrange(cur as int, j as int),
            forall|m: int|
                0 <= m < done@.len() ==> lo <= (#[trigger] done@[m]).0 <= done@[m].1 <= cur && s@.subrange(
                    done@[m].0 as int,
                    done@[m].1 as int,
                ) == colon_pieces(s@.subrange(lo as int, j as int))[m],
        decreases hi - j,
    {
        let ghost p = s@.subrange(lo as int, j as int);
        let ghost q = s@.subrange(lo as int, j + 1);
        let c = s.get_char(j);
        assert(q.drop_last() =~= p);
        assert(q.last() == c);
        if c == ':' {
            done.push((cur, j));
            cur = j + 1;
            assert(s@.subrange(cur as int, j + 1) =~= Seq::<char>::empty());
        } else {
            assert(s@.subrange(cur as int, j + 1) =~= s@.subrange(cur as int, j as int).push(c));
        }
        j = j + 1;
    }
    done.push((cur, hi));
    done
}

/// Reads the hexadecimal group `s[lo..hi]`.
fn hex_group_at(s: &str, lo: usize, hi: usize) -> (r: Option<u16>)
    requires
        lo <= hi <= s@.len(),
    ensures
        r is Some <==> is_hex_group(s@.subrange(lo as int, hi as int)),
        r matches Some(v) ==> v as nat == hex_value(s@.subrange(lo as int, hi as int)),
{
    let ghost t = s@.subrange(lo as int, hi as int);
    if hi - lo < 1 || hi - lo > 4 {
        return None;
    }
    let mut acc: u32 = 0;
    let mut i = lo;
    while i < hi
        invariant
            lo <= i <= hi <= s@.len(),
            1 <= hi - lo <= 4,
            t == s@.subrange(lo as int, hi as int),
            forall|k: int| 0 <= k < i - lo ==> is_hex_digit(#[trigger] t[k]),
            acc == hex_value(t.take(i - lo)),
            acc < pow16(i - lo),
        decreases hi - i,
    {
        let c = s.get_char(i);
        assert(t[i - lo] == c);
        let d: u32 = if '0' <= c && c <= '9' {
            c as u32 - 48
        } else if 'a' <= c && c <= 'f' {
            c as u32 - 87
        } else if 'A' <= c && c <= 'F' {
            c as u32 - 55
        } else {
            return None;
        };
        proof {
            assert(t.take(i - lo + 1).drop_last() =~= t.take(i - lo));
            assert(t.take(i - lo + 1).last() == c);
            assert(d == hex_digit_value(c));
            lemma_pow16_monotonic(i - lo, 3);
            assert(pow16(3) == 4096) by {
                assert(pow16(0) == 1);
                assert(pow16(1) == 16);
                assert(pow16(2) == 256);
            }
            let p = pow16(i - lo);
            assert(pow16(i - lo + 1) == p * 16);
            assert(acc * 16 + d < p * 16) by (nonlinear_arith)
                requires
                    acc < p,
                    d < 16,
            ;
        }
        acc = acc * 16 + d;
        i = i + 1;
    }
    assert(t.take(hi - lo) =~= t);
    proof {
        assert(pow16(0) == 1);
        assert(pow16(1) == 16);
        assert(pow16(2) == 256);
        assert(pow16(3) == 4096);
        assert(pow16(4) == 65536);
        lemma_pow16_monotonic((hi - lo) as int, 4);
    }
    Some(acc as u16)
}

/// Sixteen to the power `n`.
pub open spec fn pow16(n: int) -> nat
    decreases n,
{
    if n <= 0 {
        1
    } else {
        16 * pow16(n - 1)
    }
}

proof fn lemma_pow16_monotonic(m: int, n: int)
    requires
        0 <= m <= n,
    ensures
        pow16(m) <= pow16(n),
    decreases n - m,
{
    if m < n {
        lemma_pow16_monotonic(m, n - 1);
    }
}

/// The segments as numbers.
pub open spec fn segs_view(w: Seq<u16>) -> Seq<nat> {
    w.map_values(|x: u16| x as nat)
}

/// The segments that dot-decimal text of four octets stands for.
proof fn lemma_quad_segments_of(o: Seq<u8>)
    requires
        o.len() == 4,
    ensures
        quad_segments(quad_text(o)) == seq![(o[0] * 256 + o[1]) as nat, (o[2] * 256 + o[3]) as nat],
{
    let t = quad_text(o);
    assert(exists|p: Seq<u8>| p.len() == 4 && quad_text(p) == t);
    let c = quad_octets(t);
    crate::validation::ip::lemma_quad_text_injective(c, o);
}

/// Reads the run `s[lo..hi]` of colon-separated groups into its segments;
/// with `allow_quad` its last piece may be dot-decimal text.
#[verifier::spinoff_prover]
#[verifier::rlimit(40)]
fn run_at(s: &str, lo: usize, hi: usize, allow_quad: bool) -> (r: Option<Vec<u16>>)
    requires
        lo <= hi <= s@.len(),
    ensures
        match run_values(s@.subrange(lo as int, hi as int), allow_quad) {
            Some(v) => r matches Some(w) && segs_view(w@) == v,
            None => r is None,
        },
{
    let ghost sub = s@.subrange(lo as int, hi as int);
    if lo == hi {
        let w: Vec<u16> = Vec::new();
        assert(segs_view(w@) =~= Seq::<nat>::empty());
        return Some(w);
    }
    let ranges = piece_ranges(s, lo, hi);
    let ghost ps = colon_pieces(sub);
    let n = ranges.len();
    assert(n >= 1) by {
        lemma_colon_pieces_nonempty(sub);
    }
    let mut vals: Vec<u16> = Vec::new();
    let mut i: usize = 0;
    while i + 1 < n
        invariant
            1 <= n == ranges@.len() == ps.len(),
            i < n,
            ps == colon_pieces(sub),
            sub == s@.subrange(lo as int, hi as int),
            lo < hi,
            forall|m: int|
                0 <= m < ranges@.len() ==> lo <= (#[trigger] ranges@[m]).0 <= ranges@[m].1 <= hi && s@.subrange(
                    ranges@[m].0 as int,
                    ranges@[m].1 as int,
                ) == ps[m],
            hi <= s@.len(),
            vals@.len() == i,
            forall|m: int| 0 <= m < i ==> is_hex_group(#[trigger] ps[m]),
            segs_view(vals@) == group_values(ps.take(i as int)),
        decreases n - i,
    {
        let (a, b) = ranges[i];
        let ghost before = vals@;
        match hex_group_at(s, a, b) {
            Some(v) => {
                vals.push(v);
                proof {
                    assert(ps.take(i + 1) =~= ps.take(i as int).push(ps[i as int]));
                    assert(segs_view(vals@) =~= segs_view(before).push(v as nat));
                    assert(group_values(ps.take(i + 1)) =~= group_values(ps.take(i as int)).push(
                        hex_value(ps[i as int]),
                    ));
                }
            },
            None => {
                proof {
                    assert(!is_hex_group(ps[i as int]));
                }
                return None;
            },
        }
        i = i + 1;
    }
    let (a, b) = ranges[n - 1];
    assert(ps.drop_last() =~= ps.take(i as int));
    match hex_group_at(s, a, b) {
        Some(v) => {
            let ghost before = vals@;
            vals.push(v);
            proof {
                assert(ps =~= ps.take(i as int).push(ps[i as int]));
                assert(forall|m: int| 0 <= m < ps.len() ==> is_hex_group(#[trigger] ps[m]));
                assert(segs_view(vals@) =~= segs_view(before).push(v as nat));
                assert(group_values(ps) =~= group_values(ps.take(i as int)).push(hex_value(ps[i as int])));
            }
            Some(vals)
        },
        None => {
            if !allow_quad {
                return None;
            }
            match quad_at(s, a, b) {
                Some(o) => {
                    let ghost before = vals@;
                    let hi_seg: u16 = o[0] as u16 * 256 + o[1] as u16;
                    let lo_seg: u16 = o[2] as u16 * 256 + o[3] as u16;
                    vals.push(hi_seg);
                    vals.push(lo_seg);
                    proof {
                        lemma_quad_segments_of(o@);
                        assert(segs_view(vals@) =~= segs_view(before) + quad_segments(ps.last()));
                    }
                    Some(vals)
                },
                None => None,
            }
        },
    }
}

proof fn lemma_colon_pieces_nonempty(s: Seq<char>)
    ensures
        colon_pieces(s).len() >= 1,
    decreases s.len(),
{
    if s.len() > 0 {
        lemma_colon_pieces_nonempty(s.drop_last());
    }
}

/// Where the first `::` of `s` starts, if it has one.
fn find_double_colon(s: &str) -> (r: Option<usize>)
    ensures
        match r {
            Some(k) => first_double_colon(s@, k as int),
            None => forall|j: int| !is_double_colon(s@, j),
        },
{
    let n = s.unicode_len();
    let mut k: usize = 0;
    while k < n
        invariant
            n == s@.len(),
            k <= n,
            forall|j: int| 0 <= j < k ==> !is_double_colon(s@, j),
        decreases n - k,
    {
        if k + 1 < n && s.get_char(k) == ':' && s.get_char(k + 1) == ':' {
            return Some(k);
        }
        k = k + 1;
    }
    None
}

/// Reads IPv6 text into its eight segments.
pub fn parse_ipv6_segments(s: &str) -> (r: Option<[u16; 8]>)
    ensures
        match ipv6_segments(s@) {
            Some(v) => r matches Some(w) && segs_view(w@) == v,
            None => r is None,
        },
{
    let n = s.unicode_len();
    let mut segs: Vec<u16> = Vec::new();
    match find_double_colon(s) {
        Some(k) => {
            proof {
                let c = choose|j: int| first_double_colon(s@, j);
                assert(c == k) by {
                    if c < k {
                        assert(!is_double_colon(s@, c));
                    } else if c > k {
                        assert(!is_double_colon(s@, k as int));
                    }
                }
                assert(s@.take(k as int) =~= s@.subrange(0, k as int));
                assert(s@.skip(k + 2) =~= s@.subrange(k + 2, n as int));
            }
            let head = match run_at(s, 0, k, false) {
                Some(h) => h,
                None => {
                    return None;
                },
            };
            let tail = match run_at(s, k + 2, n, true) {
                Some(t) => t,
                None => {
                    return None;
                },
            };
            if head.len() > 7 || tail.len() > 7 - head.len() {
                return None;
            }
            let gap = 8 - head.len() - tail.len();
            let ghost hv = segs_view(head@);
            let ghost tv = segs_view(tail@);
            let ghost zeros = Seq::new(gap as nat, |i: int| 0nat);
            let mut i: usize = 0;
            while i < head.len()
                invariant
                    i <= head@.len(),
                    segs_view(segs@) == hv.take(i as int),
                    hv == segs_view(head@),
                decreases head@.len() - i,
            {
                let ghost before = segs@;
                segs.push(head[i]);
                assert(segs_view(segs@) =~= segs_view(before).push(head@[i as int] as nat));
                assert(hv.take(i + 1) =~= hv.take(i as int).push(hv[i as int]));
                i = i + 1;
            }
            assert(hv.take(i as int) =~= hv);
            let mut z: usize = 0;
            while z < gap
                invariant
                    z <= gap,
                    segs_view(segs@) == hv + zeros.take(z as int),
                    zeros == Seq::new(gap as nat, |i: int| 0nat),
                decreases gap - z,
            {
                let ghost before = segs@;
                segs.push(0);
                assert(segs_view(segs@) =~= segs_view(before).push(0nat));
                assert(zeros.take(z + 1) =~= zeros.take(z as int).push(0nat));
                z = z + 1;
            }
            assert(zeros.take(z as int) =~= zeros);
            let mut j: usize = 0;
            while j < tail.len()
                invariant
                    j <= tail@.len(),
                    segs_view(segs@) == hv + zeros + tv.take(j as int),
                    tv == segs_view(tail@),
                decreases tail@.len() - j,
            {
                let ghost before = segs@;
                segs.push(tail[j]);
                assert(segs_view(segs@) =~= segs_view(before).push(tail@[j as int] as nat));
                assert(tv.take(j + 1) =~= tv.take(j as int).push(tv[j as int]));
                j = j + 1;
            }
            assert(tv.take(j as int) =~= tv);
        },
        None => {
            proof {
                assert(!exists|k: int| first_double_colon(s@, k));
                assert(s@.subrange(0, n as int) =~= s@);
            }
            segs = match run_at(s, 0, n, true) {
                Some(v) => v,
                None => {
                    return None;
                },
            };
            if segs.len() != 8 {
                return None;
            }
        },
    }
    let w: [u16; 8] = [segs[0], segs[1], segs[2], segs[3], segs[4], segs[5], segs[6], segs[7]];
    assert(segs_view(w@) =~= segs_view(segs@));
    Some(w)
}

/// The lowercase hexadecimal digit of `d`.
pub open spec fn hex_char(d: nat) -> char {
    if d < 10 {
        (d + '0' as int) as char
    } else {
        (d - 10 + 'a' as int) as char
    }
}

/// The lowercase hexadecimal text of `n`, without leading zeros.
pub open spec fn hex_text(n: nat) -> Seq<char>
    decreases n,
{
    if n < 16 {
        seq![hex_char(n)]
    } else {
        hex_text(n / 16).push(hex_char(n % 16))
    }
}

/// The groups of `v` in hexadecimal, separated by colons.
pub open spec fn join_groups(v: Seq<nat>) -> Seq<char>
    decreases v.len(),
{
    if v.len() == 0 {
        Seq::empty()
    } else if v.len() == 1 {
        hex_text(v[0])
    } else {
        join_groups(v.drop_last()) + seq![':'] + hex_text(v.last())
    }
}

/// Whether `v[start..start + len]` are all zero.
pub open spec fn is_zero_run(v: Seq<nat>, start: int, len: int) -> bool {
    &&& 0 <= start
    &&& 0 <= len
    &&& start + len <= v.len()
    &&& forall|i: int| start <= i < start + len ==> v[i] == 0
}

/// The first longest run of zeros: no run of zeros is longer, and none as
/// long starts before it.
pub open spec fn is_longest_zero_run(v: Seq<nat>, start: int, len: int) -> bool {
    &&& is_zero_run(v, start, len)
    &&& forall|s2: int, l2: int| #[trigger] is_zero_run(v, s2, l2) ==> l2 <= len && (l2 == len ==> start <= s2)
}

/// Whether the segments hold an IPv4-mapped address (`::ffff:a.b.c.d`).
pub open spec fn is_ipv4_mapped(v: Seq<nat>) -> bool {
    &&& v[0] == 0 && v[1] == 0 && v[2] == 0 && v[3] == 0 && v[4] == 0
    &&& v[5] == 0xffff
}

/// The four octets of the last two segments.
pub open spec fn tail_octets(v: Seq<nat>) -> Seq<u8> {
    seq![(v[6] / 256) as u8, (v[6] % 256) as u8, (v[7] / 256) as u8, (v[7] % 256) as u8]
}

/// The text of eight segments: an IPv4-mapped address as `::ffff:` and
/// dot-decimal text; otherwise the groups in lowercase hexadecimal with the
/// first longest run of two or more zero groups written as `::`.
pub open spec fn ipv6_text(v: Seq<nat>) -> Seq<char> {
    if is_ipv4_mapped(v) {
        "::ffff:"@ + quad_text(tail_octets(v))
    } else {
        let (start, len) = choose|start: int, len: int| is_longest_zero_run(v, start, len);
        if len > 1 {
            join_groups(v.take(start)) + "::"@ + join_groups(v.skip(start + len))
        } else {
            join_groups(v)
        }
    }
}

fn hex_char_of(d: u16) -> (c: char)
    requires
        d < 16,
    ensures
        c == hex_char(d as nat),
{
    let b: u8 = if d < 10 {
        48u8 + (d as u8)
    } else {
        87u8 + (d as u8)
    };
    let c = b as char;
    assert(c as int == b as int);
    c
}

/// Appends the hexadecimal text of `n`.
fn push_hex(s: &mut String, n: u16)
    ensures
        final(s)@ == old(s)@ + hex_text(n as nat),
    decreases n,
{
    if n >= 16 {
        push_hex(s, n / 16);
    }
    let ghost before = s@;
    crate::text::push_char(s, hex_char_of(n % 16));
    proof {
        if n >= 16 {
            assert(s@ =~= old(s)@ + hex_text(n as nat));
        } else {
            assert(s@ =~= old(s)@ + hex_text(n as nat));
        }
    }
}

/// Appends the groups `v[lo..hi]` separated by colons.
fn push_groups(s: &mut String, v: &[u16; 8], lo: usize, hi: usize)
    requires
        lo <= hi <= 8,
    ensures
        final(s)@ == old(s)@ + join_groups(segs_view(v@).subrange(lo as int, hi as int)),
{
    let ghost w = segs_view(v@);
    let mut i = lo;
    assert(w.subrange(lo as int, lo as int) =~= Seq::<nat>::empty());
    while i < hi
        invariant
            lo <= i <= hi <= 8,
            w == segs_view(v@),
            v@.len() == 8,
            s@ == old(s)@ + join_groups(w.subrange(lo as int, i as int)),
        decreases hi - i,
    {
        let ghost before = s@;
        if i > lo {
            crate::text::push_char(s, ':');
        }
        push_hex(s, v[i]);
        proof {
            let u = w.subrange(lo as int, i + 1);
            assert(u.drop_last() =~= w.subrange(lo as int, i as int));
            assert(u.last() == v@[i as int] as nat);
            if i > lo {
                assert(s@ =~= old(s)@ + join_groups(u));
            } else {
                assert(u.len() == 1);
                assert(s@ =~= old(s)@ + join_groups(u));
            }
        }
        i = i + 1;
    }
}

/// Finds the first longest run of zeros.
fn longest_zero_run(v: &[u16; 8]) -> (r: (usize, usize))
    ensures
        is_longest_zero_run(segs_view(v@), r.0 as int, r.1 as int),
{
    let ghost w = segs_view(v@);
    let mut best_start: usize = 0;
    let mut best_len: usize = 0;
    let mut cur_len: usize = 0;
    let mut i: usize = 0;
    while i < 8
        invariant
            i <= 8,
            v@.len() == 8,
            w == segs_view(v@),
            w.len() == 8,
            cur_len <= i,
            is_zero_run(w, i - cur_len, cur_len as int),
            i - cur_len == 0 || w[i - cur_len - 1] != 0,
            is_zero_run(w, best_start as int, best_len as int),
            best_start + best_len <= i,
            cur_len <= best_len,
            forall|s2: int, l2: int|
                #[trigger] is_zero_run(w, s2, l2) && s2 + l2 <= i ==> l2 <= best_len && (l2 == best_len
                    ==> best_start <= s2),
        decreases 8 - i,
    {
        let ghost (ob_start, ob_len, oc) = (best_start as int, best_len as int, cur_len as int);
        if v[i] == 0 {
            cur_len = cur_len + 1;
            if cur_len > best_len {
                best_start = i + 1 - cur_len;
                best_len = cur_len;
            }
        } else {
            cur_len = 0;
        }
        proof {
            assert forall|s2: int, l2: int| #[trigger] is_zero_run(w, s2, l2) && s2 + l2 <= i + 1 implies l2
                <= best_len && (l2 == best_len ==> best_start <= s2) by {
                if s2 + l2 <= i {
                    assert(l2 <= ob_len && (l2 == ob_len ==> ob_start <= s2));
                } else if l2 > 0 {
                    assert(w[i as int] == 0);
                    assert(s2 >= i - oc) by {
                        if s2 < i - oc {
                            assert(w[i - oc - 1] == 0);
                        }
                    }
                }
            }
        }
        i = i + 1;
    }
    proof {
        assert forall|s2: int, l2: int| #[trigger] is_zero_run(w, s2, l2) implies l2 <= best_len && (l2
            == best_len ==> best_start <= s2) by {
            assert(s2 + l2 <= 8);
        }
    }
    (best_start, best_len)
}

/// There is one first longest run of zeros.
proof fn lemma_longest_zero_run_unique(v: Seq<nat>, s1: int, l1: int, s2: int, l2: int)
    requires
        is_longest_zero_run(v, s1, l1),
        is_longest_zero_run(v, s2, l2),
    ensures
        s1 == s2,
        l1 == l2,
{
    assert(is_zero_run(v, s2, l2));
    assert(is_zero_run(v, s1, l1));
}

/// The text of eight segments.
pub fn format_ipv6_segments(v: [u16; 8]) -> (r: String)
    ensures
        r@ == ipv6_text(segs_view(v@)),
{
    let ghost w = segs_view(v@);
    if v[0] == 0 && v[1] == 0 && v[2] == 0 && v[3] == 0 && v[4] == 0 && v[5] == 0xffff {
        let o: [u8; 4] = [(v[6] / 256) as u8, (v[6] % 256) as u8, (v[7] / 256) as u8, (v[7] % 256) as u8];
        let quad = crate::validation::ip::format_ipv4_octets(o);
        let r = crate::text::concat_str("::ffff:", quad.as_str());
        assert(o@ =~= tail_octets(w));
        return r;
    }
    let mut s = String::new();
    let (start, len) = longest_zero_run(&v);
    proof {
        let (cs, cl) = choose|cs: int, cl: int| is_longest_zero_run(w, cs, cl);
        lemma_longest_zero_run_unique(w, cs, cl, start as int, len as int);
        assert(w.subrange(0, start as int) =~= w.take(start as int));
        assert(w.subrange(start + len, 8) =~= w.skip(start + len));
        assert(w.subrange(0, 8) =~= w);
    }
    if len > 1 {
        push_groups(&mut s, &v, 0, start);
        s.append("::");
        push_groups(&mut s, &v, start + len, 8);
    } else {
        push_groups(&mut s, &v, 0, 8);
    }
    assert(s@ =~= ipv6_text(w));
    s
}

/// Validates that a value is a valid IPv6 address.
pub struct Ipv6;

impl Validator for Ipv6 {
    open spec fn accepts(&self, value: Seq<char>) -> bool {
        value.len() == 0 || is_ipv6_text(value)
    }

    open spec fn refusal(&self, value: Seq<char>) -> Seq<char> {
        "Invalid IPv6 address"@
    }

    fn validate(&self, value: &str) -> (r: Result<(), String>) {
        if value.is_empty() {
            return Ok(());  // Empty is OK, use Required for that
        }
        if parse_ipv6_segments(value).is_some() {
            Ok(())
        } else {
            Err(String::from_str("Invalid IPv6 address"))
        }
    }
}

/// An IPv6 address, as eight 16-bit segments.
#[derive(Clone, Copy, Debug, PartialEq, Eq)]
pub struct Ipv6Address {
    segments: [u16; 8],
}

impl View for Ipv6Address {
    type V = Seq<u16>;

    closed spec fn view(&self) -> Seq<u16> {
        self.segments@
    }
}

impl Ipv6Address {
    /// The address of eight segments.
    pub fn new(a: u16, b: u16, c: u16, d: u16, e: u16, f: u16, g: u16, h: u16) -> (r: Self)
        ensures
            r@ == seq![a, b, c, d, e, f, g, h],
    {
        let r = Ipv6Address { segments: [a, b, c, d, e, f, g, h] };
        assert(r@ =~= seq![a, b, c, d, e, f, g, h]);
        r
    }

    /// The eight segments.
    pub fn segments(&self) -> (r: [u16; 8])
        ensures
            r@ == self@,
            r@.len() == 8,
    {
        self.segments
    }

    /// Reads an address in IPv6 notation.
    pub fn parse(s: &str) -> (r: Option<Self>)
        ensures
            match ipv6_segments(s@) {
                Some(v) => r matches Some(a) && segs_view(a@) == v && a@.len() == 8,
                None => r is None,
            },
    {
        match parse_ipv6_segments(s) {
            Some(w) => Some(Ipv6Address { segments: w }),
            None => None,
        }
    }

    /// The address in IPv6 notation.
    pub fn to_text(&self) -> (r: String)
        ensures
            r@ == ipv6_text(segs_view(self@)),
    {
        format_ipv6_segments(self.segments)
    }
}

/// The hexadecimal text of a 16-bit number is one group that reads back as
/// the number.
proof fn lemma_hex_text_group(n: nat)
    requires
        n < 65536,
    ensures
        is_hex_group(hex_text(n)),
        hex_value(hex_text(n)) == n,
{
    lemma_hex_text_digits(n);
    lemma_hex_text_digits(n / 16);
    lemma_hex_text_digits(n / 16 / 16);
    lemma_hex_text_digits(n / 16 / 16 / 16);
}

proof fn lemma_hex_char(d: nat)
    requires
        d < 16,
    ensures
        is_hex_digit(hex_char(d)),
        hex_digit_value(hex_char(d)) == d,
{
    let c = hex_char(d);
    if d < 10 {
        assert(c as int == d + 48);
    } else {
        assert(c as int == d + 87);
    }
}

proof fn lemma_hex_text_digits(n: nat)
    ensures
        forall|i: int| 0 <= i < hex_text(n).len() ==> is_hex_digit(#[trigger] hex_text(n)[i]),
        hex_value(hex_text(n)) == n,
        hex_text(n).len() >= 1,
        n < 16 ==> hex_text(n).len() == 1,
        16 <= n ==> hex_text(n).len() == hex_text(n / 16).len() + 1,
    decreases n,
{
    let t = hex_text(n);
    if n >= 16 {
        lemma_hex_text_digits(n / 16);
        lemma_hex_char(n % 16);
        assert(t.drop_last() =~= hex_text(n / 16));
        assert(t.last() == hex_char(n % 16));
        assert(hex_value(t) == hex_value(t.drop_last()) * 16 + hex_digit_value(t.last()));
        assert((n / 16) * 16 + n % 16 == n);
        assert forall|i: int| 0 <= i < t.len() implies is_hex_digit(#[trigger] t[i]) by {
            if i < t.len() - 1 {
                assert(t[i] == hex_text(n / 16)[i]);
            }
        }
    } else {
        lemma_hex_char(n);
        assert(t.drop_last().len() == 0);
        assert(hex_value(t.drop_last()) == 0);
        assert(t.last() == hex_char(n));
        assert(hex_value(t) == hex_value(t.drop_last()) * 16 + hex_digit_value(t.last()));
    }
}

/// Text without colons is one piece.
proof fn lemma_colon_pieces_of_piece(b: Seq<char>)
    requires
        !b.contains(':'),
    ensures
        colon_pieces(b) == seq![b],
    decreases b.len(),
{
    if b.len() > 0 {
        assert(!b.drop_last().contains(':')) by {
            if b.drop_last().contains(':') {
                let i = choose|i: int| 0 <= i < b.drop_last().len() && b.drop_last()[i] == ':';
                assert(b[i] == ':');
            }
        }
        lemma_colon_pieces_of_piece(b.drop_last());
        assert(b.last() != ':') by {
            assert(b[b.len() - 1] == b.last());
        }
        assert(b.drop_last().push(b.last()) =~= b);
    } else {
        assert(b =~= Seq::<char>::empty());
    }
}

/// A colon and then text without colons adds that text as the last piece.
proof fn lemma_colon_pieces_append(a: Seq<char>, b: Seq<char>)
    requires
        !b.contains(':'),
    ensures
        colon_pieces(a + seq![':'] + b) == colon_pieces(a).push(b),
    decreases b.len(),
{
    let x = a + seq![':'] + b;
    if b.len() == 0 {
        assert(x.drop_last() =~= a);
        assert(b =~= Seq::<char>::empty());
    } else {
        let b0 = b.drop_last();
        assert(!b0.contains(':')) by {
            if b0.contains(':') {
                let i = choose|i: int| 0 <= i < b0.len() && b0[i] == ':';
                assert(b[i] == ':');
            }
        }
        lemma_colon_pieces_append(a, b0);
        assert(x.drop_last() =~= a + seq![':'] + b0);
        assert(x.last() == b.last());
        assert(b.last() != ':') by {
            assert(b[b.len() - 1] == b.last());
        }
        lemma_colon_pieces_nonempty(a);
        assert(b0.push(b.last()) =~= b);
        assert(colon_pieces(x) =~= colon_pieces(a).push(b));
    }
}

/// Whether every character of `t` is a hexadecimal digit.
pub open spec fn all_hex(t: Seq<char>) -> bool {
    forall|i: int| 0 <= i < t.len() ==> is_hex_digit(#[trigger] t[i])
}

/// The joined groups split back into the groups' texts; the text starts and
/// ends with a digit and has no `::`.
proof fn lemma_join_groups(v: Seq<nat>)
    requires
        v.len() >= 1,
        forall|i: int| 0 <= i < v.len() ==> #[trigger] v[i] < 65536,
    ensures
        colon_pieces(join_groups(v)) == v.map_values(|n: nat| hex_text(n)),
        join_groups(v).len() >= 1,
        is_hex_digit(join_groups(v)[0]),
        is_hex_digit(join_groups(v).last()),
        forall|k: int| !is_double_colon(join_groups(v), k),
        forall|k: int| 0 <= k < join_groups(v).len() ==> #[trigger] join_groups(v)[k] == ':' || is_hex_digit(
            join_groups(v)[k],
        ),
    decreases v.len(),
{
    let j = join_groups(v);
    lemma_hex_text_digits(v.last());
    let h = hex_text(v.last());
    assert(!h.contains(':')) by {
        if h.contains(':') {
            let i = choose|i: int| 0 <= i < h.len() && h[i] == ':';
            assert(is_hex_digit(h[i]));
        }
    }
    if v.len() == 1 {
        lemma_colon_pieces_of_piece(h);
        assert(v.map_values(|n: nat| hex_text(n)) =~= seq![h]);
        assert forall|k: int| 0 <= k < j.len() implies #[trigger] j[k] == ':' || is_hex_digit(j[k]) by {}
        assert forall|k: int| !is_double_colon(j, k) by {
            if is_double_colon(j, k) {
                assert(is_hex_digit(j[k]));
            }
        }
    } else {
        let init = v.drop_last();
        lemma_join_groups(init);
        let a = join_groups(init);
        lemma_colon_pieces_append(a, h);
        assert(j == a + seq![':'] + h);
        assert(v.map_values(|n: nat| hex_text(n)) =~= init.map_values(|n: nat| hex_text(n)).push(h));
        assert(j[0] == a[0]);
        assert(j.last() == h.last());
        assert(h.last() == h[h.len() - 1]);
        assert forall|k: int| 0 <= k < j.len() implies #[trigger] j[k] == ':' || is_hex_digit(j[k]) by {
            if k < a.len() {
                assert(j[k] == a[k]);
            } else if k > a.len() {
                assert(j[k] == h[k - a.len() - 1]);
            }
        }
        assert forall|k: int| !is_double_colon(j, k) by {
            if is_double_colon(j, k) {
                if k + 1 < a.len() {
                    assert(j[k] == a[k] && j[k + 1] == a[k + 1]);
                    assert(is_double_colon(a, k));
                } else if k + 1 == a.len() {
                    assert(j[k] == a.last());
                } else if k == a.len() {
                    assert(j[k + 1] == h[0]);
                } else {
                    assert(j[k] == h[k - a.len() - 1]);
                }
            }
        }
    }
}

/// A run of groups reads back as its segments.
proof fn lemma_run_of_join(v: Seq<nat>, allow_quad: bool)
    requires
        forall|i: int| 0 <= i < v.len() ==> #[trigger] v[i] < 65536,
    ensures
        run_values(join_groups(v), allow_quad) == Some(v),
{
    if v.len() == 0 {
        assert(join_groups(v).len() == 0);
    } else {
        lemma_join_groups(v);
        let ps = colon_pieces(join_groups(v));
        assert forall|i: int| 0 <= i < ps.len() implies is_hex_group(#[trigger] ps[i]) by {
            lemma_hex_text_group(v[i]);
        }
        assert(group_values(ps) =~= v) by {
            assert forall|i: int| 0 <= i < v.len() implies group_values(ps)[i] == v[i] by {
                lemma_hex_text_group(v[i]);
            }
        }
    }
}

/// Scanning from `i` with the longest run so far and the run of zeros that
/// ends at `i` finds the first longest run of zeros.
proof fn lemma_zero_run_scan(v: Seq<nat>, i: int, bs: int, bl: int, cl: int) -> (r: (int, int))
    requires
        0 <= i <= v.len(),
        0 <= cl <= i,
        is_zero_run(v, i - cl, cl),
        i - cl == 0 || v[i - cl - 1] != 0,
        is_zero_run(v, bs, bl),
        bs + bl <= i,
        cl <= bl,
        forall|s2: int, l2: int|
            #[trigger] is_zero_run(v, s2, l2) && s2 + l2 <= i ==> l2 <= bl && (l2 == bl ==> bs <= s2),
    ensures
        is_longest_zero_run(v, r.0, r.1),
    decreases v.len() - i,
{
    if i == v.len() {
        (bs, bl)
    } else {
        let (nbs, nbl, ncl) = if v[i] == 0 {
            if cl + 1 > bl {
                (i - cl, cl + 1, cl + 1)
            } else {
                (bs, bl, cl + 1)
            }
        } else {
            (bs, bl, 0)
        };
        assert forall|s2: int, l2: int| #[trigger] is_zero_run(v, s2, l2) && s2 + l2 <= i + 1 implies l2 <= nbl
            && (l2 == nbl ==> nbs <= s2) by {
            if s2 + l2 <= i {
                assert(l2 <= bl && (l2 == bl ==> bs <= s2));
            } else if l2 > 0 {
                assert(v[i] == 0);
                assert(s2 >= i - cl) by {
                    if s2 < i - cl {
                        assert(v[i - cl - 1] == 0);
                    }
                }
            }
        }
        lemma_zero_run_scan(v, i + 1, nbs, nbl, ncl)
    }
}

/// Some run of zeros is the first longest.
proof fn lemma_longest_zero_run_exists(v: Seq<nat>)
    ensures
        exists|start: int, len: int| is_longest_zero_run(v, start, len),
{
    let r = lemma_zero_run_scan(v, 0, 0, 0, 0);
    assert(is_longest_zero_run(v, r.0, r.1));
}

/// The only octets of `quad_text(o)` are `o`, and that text has no colon.
proof fn lemma_quad_text_facts(o: Seq<u8>)
    requires
        o.len() == 4,
    ensures
        is_dotted_quad(quad_text(o)),
        !quad_text(o).contains(':'),
        !is_hex_group(quad_text(o)),
        quad_segments(quad_text(o)) == seq![(o[0] * 256 + o[1]) as nat, (o[2] * 256 + o[3]) as nat],
{
    crate::validation::ip::lemma_quad_text_is_dotted_quad(o);
    lemma_quad_segments_of(o);
    let q = quad_text(o);
    let d0 = crate::text::decimal(o[0] as nat);
    crate::text::lemma_decimal_digits(o[0] as nat);
    crate::text::lemma_decimal_digits(o[1] as nat);
    crate::text::lemma_decimal_digits(o[2] as nat);
    crate::text::lemma_decimal_digits(o[3] as nat);
    assert(q[d0.len() as int] == '.');
    assert(!is_hex_digit('.'));
    assert forall|i: int| 0 <= i < q.len() implies q[i] != ':' by {
        assert(crate::text::is_ascii_digit(q[i]) || q[i] == '.');
    }
}

/// When `::` starts at `k` and nowhere before, the first `::` is at `k`.
proof fn lemma_first_double_colon_is(s: Seq<char>, k: int)
    requires
        first_double_colon(s, k),
    ensures
        exists|j: int| first_double_colon(s, j),
        (choose|j: int| first_double_colon(s, j)) == k,
{
    let c = choose|j: int| first_double_colon(s, j);
    assert(c == k) by {
        if c < k {
            assert(!is_double_colon(s, c));
        } else if c > k {
            assert(!is_double_colon(s, k));
        }
    }
}

proof fn lemma_ffff() -> (f: Seq<char>)
    ensures
        f == seq!['f', 'f', 'f', 'f'],
        !f.contains(':'),
        is_hex_group(f),
        hex_value(f) == 65535,
{
    let ffff = seq!['f', 'f', 'f', 'f'];
    assert(!ffff.contains(':')) by {
        if ffff.contains(':') {
            let i = choose|i: int| 0 <= i < ffff.len() && ffff[i] == ':';
        }
    }
    assert(is_hex_digit('f'));
    assert(hex_digit_value('f') == 15);
    assert(ffff.drop_last() =~= seq!['f', 'f', 'f']);
    assert(seq!['f', 'f', 'f'].drop_last() =~= seq!['f', 'f']);
    assert(seq!['f', 'f'].drop_last() =~= seq!['f']);
    assert(seq!['f'].drop_last() =~= Seq::<char>::empty());
    assert(seq!['f'].last() == 'f');
    assert(seq!['f', 'f'].last() == 'f');
    assert(seq!['f', 'f', 'f'].last() == 'f');
    assert(ffff.last() == 'f');
    assert(hex_value(Seq::<char>::empty()) == 0);
    assert(hex_value(seq!['f']) == 15);
    assert(hex_value(seq!['f', 'f']) == 255);
    assert(hex_value(seq!['f', 'f', 'f']) == 4095);
    assert(hex_value(ffff) == 65535);
    ffff
}

/// `ffff:` and dot-decimal text read as three segments.
proof fn lemma_mapped_tail(o: Seq<u8>)
    requires
        o.len() == 4,
    ensures
        run_values(seq!['f', 'f', 'f', 'f'] + seq![':'] + quad_text(o), true) == Some(
            seq![65535nat, (o[0] * 256 + o[1]) as nat, (o[2] * 256 + o[3]) as nat],
        ),
{
    let q = quad_text(o);
    lemma_quad_text_facts(o);
    let ffff = lemma_ffff();
    let tail = ffff + seq![':'] + q;
    lemma_colon_pieces_of_piece(ffff);
    lemma_colon_pieces_append(ffff, q);
    let ps = colon_pieces(tail);
    assert(ps =~= seq![ffff, q]);
    assert(!is_hex_group(ps[1]));
    assert(ps.drop_last() =~= seq![ffff]);
    assert(group_values(seq![ffff]) =~= seq![65535nat]);
}

proof fn lemma_tail_octets(v: Seq<nat>)
    requires
        v.len() == 8,
        v[6] < 65536,
        v[7] < 65536,
    ensures
        tail_octets(v).len() == 4,
        tail_octets(v)[0] * 256 + tail_octets(v)[1] == v[6],
        tail_octets(v)[2] * 256 + tail_octets(v)[3] == v[7],
{
    let o = tail_octets(v);
    assert(v[6] / 256 < 256 && v[7] / 256 < 256);
    assert(o[0] == v[6] / 256);
    assert(o[1] == v[6] % 256);
    assert(o[2] == v[7] / 256);
    assert(o[3] == v[7] % 256);
}

/// Text whose first `::` is at `k`, with runs around it that hold at most
/// seven segments, stands for the runs with zeros between them.
proof fn lemma_segments_of_split(text: Seq<char>, k: int, h: Seq<nat>, t: Seq<nat>)
    requires
        first_double_colon(text, k),
        run_values(text.take(k), false) == Some(h),
        run_values(text.skip(k + 2), true) == Some(t),
        h.len() + t.len() <= 7,
    ensures
        ipv6_segments(text) == Some(h + Seq::new((8 - h.len() - t.len()) as nat, |i: int| 0nat) + t),
{
    lemma_first_double_colon_is(text, k);
}

/// `::ffff:` followed by a tail that reads as three segments stands for
/// five zeros and those segments.
proof fn lemma_mapped_text(q: Seq<char>, t: Seq<nat>)
    requires
        run_values(seq!['f', 'f', 'f', 'f'] + seq![':'] + q, true) == Some(t),
        t.len() == 3,
    ensures
        ipv6_segments("::ffff:"@ + q) == Some(Seq::new(5, |i: int| 0nat) + t),
{
    let text = "::ffff:"@ + q;
    reveal_strlit("::ffff:");
    let tail = seq!['f', 'f', 'f', 'f'] + seq![':'] + q;
    assert(text =~= seq![':', ':'] + tail);
    assert(first_double_colon(text, 0));
    assert(text.take(0) =~= Seq::<char>::empty());
    assert(text.skip(2) =~= tail);
    assert(run_values(text.take(0), false) == Some(Seq::<nat>::empty()));
    lemma_segments_of_split(text, 0, Seq::empty(), t);
    assert(Seq::<nat>::empty() + Seq::new(5, |i: int| 0nat) + t =~= Seq::new(5, |i: int| 0nat) + t);
}

proof fn lemma_mapped_round_trip(v: Seq<nat>)
    requires
        v.len() == 8,
        forall|i: int| 0 <= i < v.len() ==> #[trigger] v[i] < 65536,
        is_ipv4_mapped(v),
    ensures
        ipv6_segments("::ffff:"@ + quad_text(tail_octets(v))) == Some(v),
{
    let o = tail_octets(v);
    lemma_tail_octets(v);
    lemma_mapped_tail(o);
    let t = seq![65535nat, v[6], v[7]];
    lemma_mapped_text(quad_text(o), t);
    assert(Seq::new(5, |i: int| 0nat) + t =~= v);
}

proof fn lemma_compressed_round_trip(v: Seq<nat>, st: int, ln: int)
    requires
        v.len() == 8,
        forall|i: int| 0 <= i < v.len() ==> #[trigger] v[i] < 65536,
        is_zero_run(v, st, ln),
        ln > 1,
    ensures
        ipv6_segments(join_groups(v.take(st)) + "::"@ + join_groups(v.skip(st + ln))) == Some(v),
{
    let hd = v.take(st);
    let tl = v.skip(st + ln);
    assert forall|i: int| 0 <= i < hd.len() implies #[trigger] hd[i] < 65536 by {
        assert(hd[i] == v[i]);
    }
    assert forall|i: int| 0 <= i < tl.len() implies #[trigger] tl[i] < 65536 by {
        assert(tl[i] == v[st + ln + i]);
    }
    reveal_strlit("::");
    let a = join_groups(hd);
    let b = join_groups(tl);
    let text = a + "::"@ + b;
    assert(text =~= a + seq![':', ':'] + b);
    let k = a.len() as int;
    assert forall|j: int| 0 <= j < k implies !is_double_colon(text, j) by {
        lemma_join_groups(hd);
        if j + 1 < k {
            assert(text[j] == a[j] && text[j + 1] == a[j + 1]);
            assert(!is_double_colon(a, j));
        } else {
            assert(text[j] == a.last());
        }
    }
    assert(first_double_colon(text, k));
    assert(text.take(k) =~= a);
    assert(text.skip(k + 2) =~= b);
    lemma_run_of_join(hd, false);
    lemma_run_of_join(tl, true);
    lemma_segments_of_split(text, k, hd, tl);
    assert(hd + Seq::new((8 - hd.len() - tl.len()) as nat, |i: int| 0nat) + tl =~= v);
}

proof fn lemma_plain_round_trip(v: Seq<nat>)
    requires
        v.len() == 8,
        forall|i: int| 0 <= i < v.len() ==> #[trigger] v[i] < 65536,
    ensures
        ipv6_segments(join_groups(v)) == Some(v),
{
    lemma_join_groups(v);
    assert(!exists|j: int| first_double_colon(join_groups(v), j));
    lemma_run_of_join(v, true);
}

/// Reading back the text of eight segments gives the segments: the text of
/// an address is IPv6 text, and it stands for that address.
pub proof fn lemma_ipv6_text_round_trip(w: Seq<u16>)
    requires
        w.len() == 8,
    ensures
        ipv6_segments(ipv6_text(segs_view(w))) == Some(segs_view(w)),
{
    let v = segs_view(w);
    assert forall|i: int| 0 <= i < v.len() implies #[trigger] v[i] < 65536 by {
        assert(v[i] == w[i] as nat);
    }
    if is_ipv4_mapped(v) {
        lemma_mapped_round_trip(v);
    } else {
        lemma_longest_zero_run_exists(v);
        let (st, ln) = choose|st: int, ln: int| is_longest_zero_run(v, st, ln);
        if ln > 1 {
            lemma_compressed_round_trip(v, st, ln);
        } else {
            lemma_plain_round_trip(v);
        }
    }
}

} // verus!
