//! IP addresses in the text form that std's address parser reads.

use vstd::prelude::*;
use crate::number::{is_digit, all_digits, digit_value, digits_value, digits_number};
use crate::text::{head_to, tail_from, chars_of};

verus! {

/// The character of a decimal digit.
pub open spec fn digit_char(d: nat) -> char {
    ((d + 48) as u32) as char
}

/// The decimal text of `n`, without leading zeros.
pub open spec fn decimal_text(n: nat) -> Seq<char>
    decreases n,
{
    if n < 10 {
        seq![digit_char(n)]
    } else {
        decimal_text(n / 10) + seq![digit_char(n % 10)]
    }
}

/// The text of the octets of `a` from the `j`-th on, each in decimal, separated by points.
pub open spec fn dotted_from(a: Seq<u8>, j: int) -> Seq<char>
    decreases a.len() - j,
{
    if j < 0 || j >= a.len() {
        Seq::empty()
    } else if j + 1 == a.len() {
        decimal_text(a[j] as nat)
    } else {
        decimal_text(a[j] as nat) + seq!['.'] + dotted_from(a, j + 1)
    }
}

/// The dotted decimal text of an IPv4 address, such as `10.97.59.174`.
pub open spec fn ipv4_text(a: Seq<u8>) -> Seq<char> {
    dotted_from(a, 0)
}

/// The text before the `j`-th octet of `a`: the octets before it, each followed by a point.
pub open spec fn dotted_prefix(a: Seq<u8>, j: int) -> Seq<char>
    decreases j,
{
    if j <= 0 {
        Seq::empty()
    } else {
        dotted_prefix(a, j - 1) + decimal_text(a[j - 1] as nat) + seq!['.']
    }
}

proof fn lemma_digit_char(d: nat)
    requires
        d < 10,
    ensures
        is_digit(digit_char(d)),
        digit_value(digit_char(d)) == d,
        digit_char(d) == '0' <==> d == 0,
{
}

proof fn lemma_digit_char_of(c: char)
    requires
        is_digit(c),
    ensures
        digit_value(c) < 10,
        digit_char(digit_value(c)) == c,
{
}

/// The decimal text of `n` is a non-empty run of digits without a leading zero that writes `n`,
/// and has at most three digits below one thousand.
proof fn lemma_decimal_text(n: nat)
    ensures
        decimal_text(n).len() >= 1,
        all_digits(decimal_text(n)),
        digits_value(decimal_text(n)) == n,
        decimal_text(n).len() > 1 ==> decimal_text(n)[0] != '0',
        n < 10 <==> decimal_text(n).len() == 1,
        n < 100 ==> decimal_text(n).len() <= 2,
        n < 1000 ==> decimal_text(n).len() <= 3,
    decreases n,
{
    if n < 10 {
        lemma_digit_char(n);
        let t = decimal_text(n);
        assert(t.drop_last() =~= Seq::<char>::empty());
        assert(digits_value(t.drop_last()) == 0);
    } else {
        lemma_decimal_text(n / 10);
        lemma_digit_char(n % 10);
        let t = decimal_text(n);
        let h = decimal_text(n / 10);
        assert(t.drop_last() =~= h);
        assert(t.last() == digit_char(n % 10));
        assert(all_digits(t)) by {
            assert forall|i: int| 0 <= i < t.len() implies is_digit(#[trigger] t[i]) by {
                if i < h.len() {
                    assert(t[i] == h[i]);
                }
            }
        }
        assert(t[0] == h[0]);
        if n / 10 < 10 {
            lemma_digit_char(n / 10);
        }
        assert(digits_value(t) == digits_value(h) * 10 + digit_value(t.last()));
        assert(n == (n / 10) * 10 + n % 10);
    }
}

/// A digit of value one or more leads a run whose value is one or more.
proof fn lemma_leading_digit_positive(t: Seq<char>)
    requires
        t.len() >= 1,
        all_digits(t),
        t[0] != '0',
    ensures
        digits_value(t) >= 1,
    decreases t.len(),
{
    if t.len() > 1 {
        let h = t.drop_last();
        assert(h[0] == t[0]);
        lemma_leading_digit_positive(h);
    } else {
        assert(t.drop_last() =~= Seq::<char>::empty());
        assert(digits_value(t.drop_last()) == 0);
    }
}

/// A run of digits without a leading zero is the decimal text of the number it writes.
proof fn lemma_decimal_text_of(t: Seq<char>)
    requires
        t.len() >= 1,
        all_digits(t),
        t.len() > 1 ==> t[0] != '0',
    ensures
        decimal_text(digits_value(t)) == t,
    decreases t.len(),
{
    let c = t.last();
    lemma_digit_char_of(c);
    if t.len() == 1 {
        assert(t.drop_last() =~= Seq::<char>::empty());
        assert(digits_value(t.drop_last()) == 0);
        assert(digits_value(t) == digit_value(c));
        assert(decimal_text(digits_value(t)) =~= t);
    } else {
        let h = t.drop_last();
        assert(h[0] == t[0]);
        assert(all_digits(h)) by {
            assert forall|i: int| 0 <= i < h.len() implies is_digit(#[trigger] h[i]) by {
                assert(h[i] == t[i]);
            }
        }
        lemma_decimal_text_of(h);
        lemma_leading_digit_positive(h);
        let v = digits_value(t);
        let hv = digits_value(h);
        let cv = digit_value(c);
        assert(v == hv * 10 + cv);
        assert(v / 10 == hv && v % 10 == cv) by (nonlinear_arith)
            requires
                v == hv * 10 + cv,
                cv < 10,
        ;
        assert(v >= 10);
        assert(decimal_text(v) =~= t);
    }
}

/// The text of the octets from the `j`-th on follows the text before it.
proof fn lemma_dotted_split(a: Seq<u8>, j: int)
    requires
        0 <= j < a.len(),
    ensures
        ipv4_text(a) == dotted_prefix(a, j) + dotted_from(a, j),
    decreases j,
{
    if j > 0 {
        lemma_dotted_split(a, j - 1);
        assert(dotted_from(a, j - 1) == decimal_text(a[j - 1] as nat) + seq!['.'] + dotted_from(a, j));
        assert(dotted_prefix(a, j - 1) + dotted_from(a, j - 1) =~= dotted_prefix(a, j) + dotted_from(a, j));
    } else {
        assert(dotted_prefix(a, 0) + dotted_from(a, 0) =~= dotted_from(a, 0));
    }
}

/// The text before the `j`-th octet depends only on the octets before it.
proof fn lemma_dotted_prefix_same(a: Seq<u8>, b: Seq<u8>, j: int)
    requires
        0 <= j <= a.len(),
        j <= b.len(),
        a.take(j) == b.take(j),
    ensures
        dotted_prefix(a, j) == dotted_prefix(b, j),
    decreases j,
{
    if j > 0 {
        assert(a.take(j - 1) =~= b.take(j - 1)) by {
            assert forall|q: int| 0 <= q < j - 1 implies a[q] == b[q] by {
                assert(a.take(j)[q] == b.take(j)[q]);
                assert(a.take(j)[q] == a[q]);
                assert(b.take(j)[q] == b[q]);
            }
        }
        assert(a.take(j)[j - 1] == b.take(j)[j - 1]);
        assert(a.take(j)[j - 1] == a[j - 1]);
        assert(b.take(j)[j - 1] == b[j - 1]);
        lemma_dotted_prefix_same(a, b, j - 1);
    }
}

/// Where the text of the octets from the `j`-th on stands in `s` at `i`, the `j`-th octet's
/// digits come first, followed by a point before the next octet, or by the end after the last.
proof fn lemma_octet_run(s: Seq<char>, i: int, a: Seq<u8>, j: int)
    requires
        a.len() == 4,
        0 <= j < 4,
        0 <= i <= s.len(),
        s.skip(i) == dotted_from(a, j),
    ensures
        ({
            let d = decimal_text(a[j] as nat);
            let m = d.len() as int;
            &&& 1 <= m <= 3
            &&& i + m <= s.len()
            &&& s.subrange(i, i + m) == d
            &&& forall|q: int| i <= q < i + m ==> is_digit(#[trigger] s[q])
            &&& j < 3 ==> i + m < s.len() && s[i + m] == '.' && s.skip(i + m + 1) == dotted_from(a, j + 1)
            &&& j == 3 ==> i + m == s.len()
        }),
{
    let d = decimal_text(a[j] as nat);
    let m = d.len() as int;
    lemma_decimal_text(a[j] as nat);
    let rest = s.skip(i);
    if j < 3 {
        assert(rest == d + seq!['.'] + dotted_from(a, j + 1));
        assert(rest[m] == '.');
        assert(s.skip(i + m + 1) =~= dotted_from(a, j + 1)) by {
            assert(s.skip(i + m + 1) =~= rest.skip(m + 1));
            assert(rest.skip(m + 1) =~= dotted_from(a, j + 1));
        }
    } else {
        assert(rest == d);
    }
    assert(s.subrange(i, i + m) =~= d) by {
        assert forall|q: int| 0 <= q < m implies s.subrange(i, i + m)[q] == d[q] by {
            assert(s[i + q] == rest[q]);
        }
    }
    assert forall|q: int| i <= q < i + m implies is_digit(#[trigger] s[q]) by {
        assert(s[q] == rest[q - i]);
        assert(rest[q - i] == d[q - i]);
    }
}

/// Reads an IPv4 address in dotted decimal text, as std's `Ipv4Addr` parser does: four numbers
/// from 0 to 255, each without leading zeros, separated by points. It succeeds exactly on the
/// texts of addresses, and then gives the address.
pub fn parse_ipv4(s: &[char]) -> (r: Option<[u8; 4]>)
    ensures
        match r {
            Some(a) => s@ == ipv4_text(a@),
            None => forall|a: Seq<u8>| a.len() == 4 ==> s@ != #[trigger] ipv4_text(a),
        },
{
    let mut octets: Vec<u8> = Vec::new();
    let mut i: usize = 0;
    while octets.len() < 4
        invariant
            i <= s@.len(),
            octets@.len() <= 4,
            octets@.len() < 4 ==> s@.take(i as int) == dotted_prefix(octets@, octets@.len() as int),
            octets@.len() == 4 ==> s@ == ipv4_text(octets@),
            forall|a: Seq<u8>| a.len() == 4 && s@ == #[trigger] ipv4_text(a) ==> a.take(octets@.len() as int) == octets@,
        decreases 4 - octets@.len(),
    {
        let j = octets.len();
        let mut k: usize = i;
        while k < s.len() && '0' <= s[k] && s[k] <= '9'
            invariant
                i <= k <= s@.len(),
                forall|q: int| i <= q < k ==> is_digit(#[trigger] s@[q]),
            decreases s@.len() - k,
        {
            k = k + 1;
        }
        let tail = tail_from(s, i);
        let run = head_to(tail.as_slice(), k - i);
        assert(run@ =~= s@.subrange(i as int, k as int));
        assert(all_digits(run@)) by {
            assert forall|q: int| 0 <= q < run@.len() implies is_digit(#[trigger] run@[q]) by {
                assert(run@[q] == s@[i + q]);
            }
        }
        let len = k - i;
        let mut ok = 1 <= len && len <= 3 && (len == 1 || s[i] != '0');
        let mut value: u64 = 0;
        if ok {
            match digits_number(run.as_slice()) {
                Some(v) => {
                    value = v;
                    ok = v <= 255;
                },
                None => {
                    ok = false;
                },
            }
        }
        let last = j == 3;
        if ok {
            if last {
                ok = k == s.len();
            } else {
                ok = k < s.len() && s[k] == '.';
            }
        }
        proof {
            assert forall|a: Seq<u8>| a.len() == 4 && s@ == #[trigger] ipv4_text(a) implies ok && value == a[j as int]
                && k == i + decimal_text(a[j as int] as nat).len() by {
                lemma_dotted_split(a, j as int);
                assert(octets@.take(j as int) =~= octets@);
                lemma_dotted_prefix_same(a, octets@, j as int);
                let p = dotted_prefix(a, j as int);
                assert(s@.take(i as int) == p);
                assert(s@.skip(i as int) =~= dotted_from(a, j as int));
                lemma_octet_run(s@, i as int, a, j as int);
                let d = decimal_text(a[j as int] as nat);
                lemma_decimal_text(a[j as int] as nat);
                let m = d.len() as int;
                if k < i + m {
                    assert(is_digit(s@[k as int]));
                } else if k > i + m {
                    assert(is_digit(s@[i + m]));
                }
                assert(run@ == d);
                assert(run@[0] == s@[i as int]);
            }
        }
        if !ok {
            return None;
        }
        let ghost before = octets@;
        proof {
            lemma_decimal_text_of(run@);
        }
        octets.push(value as u8);
        proof {
            assert(octets@.take(j as int) =~= before);
            assert(before.take(j as int) =~= before);
            lemma_dotted_prefix_same(octets@, before, j as int);
            assert forall|a: Seq<u8>| a.len() == 4 && s@ == #[trigger] ipv4_text(a) implies a.take(j + 1) == octets@ by {
                assert(a.take(j as int) == before);
                assert(a.take(j + 1) =~= octets@);
            }
            if last {
                lemma_dotted_split(octets@, 3);
                assert(s@ =~= s@.take(i as int) + run@);
            } else {
                assert(s@.take(k + 1) =~= s@.take(i as int) + run@ + seq!['.']);
            }
        }
        i = if last {
            k
        } else {
            k + 1
        };
    }
    let r = [octets[0], octets[1], octets[2], octets[3]];
    assert(r@ =~= octets@);
    Some(r)
}

/// Two addresses whose texts from the `j`-th octet on agree have the same octets from there on.
proof fn lemma_dotted_from_injective(s: Seq<char>, i: int, a: Seq<u8>, b: Seq<u8>, j: int)
    requires
        a.len() == 4,
        b.len() == 4,
        0 <= j < 4,
        0 <= i <= s.len(),
        s.skip(i) == dotted_from(a, j),
        s.skip(i) == dotted_from(b, j),
    ensures
        forall|q: int| j <= q < 4 ==> a[q] == b[q],
    decreases 4 - j,
{
    lemma_octet_run(s, i, a, j);
    lemma_octet_run(s, i, b, j);
    let da = decimal_text(a[j] as nat);
    let db = decimal_text(b[j] as nat);
    if da.len() < db.len() {
        if j < 3 {
            assert(is_digit(s[i + da.len()]));
        }
    } else if da.len() > db.len() {
        if j < 3 {
            assert(is_digit(s[i + db.len()]));
        }
    }
    assert(da == db);
    lemma_decimal_text(a[j] as nat);
    lemma_decimal_text(b[j] as nat);
    if j < 3 {
        lemma_dotted_from_injective(s, i + da.len() + 1, a, b, j + 1);
    }
}

/// Two addresses with the same dotted text are the same address.
proof fn lemma_ipv4_text_injective(a: Seq<u8>, b: Seq<u8>)
    requires
        a.len() == 4,
        b.len() == 4,
        ipv4_text(a) == ipv4_text(b),
    ensures
        a == b,
{
    let s = ipv4_text(a);
    assert(s.skip(0) =~= s);
    lemma_dotted_from_injective(s, 0, a, b, 0);
    assert(a =~= b);
}

/// The address whose dotted text `t` is, if any.
pub open spec fn ipv4_value(t: Seq<char>) -> Option<Seq<u8>> {
    if exists|a: Seq<u8>| a.len() == 4 && t == #[trigger] ipv4_text(a) {
        Some(choose|a: Seq<u8>| a.len() == 4 && t == #[trigger] ipv4_text(a))
    } else {
        None
    }
}

/// Reads an IPv4 address as [`parse_ipv4`] does, stated as the address that the text is of.
fn ipv4_of(s: &[char]) -> (r: Option<[u8; 4]>)
    ensures
        match r {
            Some(a) => ipv4_value(s@) == Some(a@),
            None => ipv4_value(s@) is None,
        },
{
    let r = parse_ipv4(s);
    match r {
        Some(a) => {
            proof {
                let c = choose|b: Seq<u8>| b.len() == 4 && s@ == #[trigger] ipv4_text(b);
                assert(a@.len() == 4 && s@ == ipv4_text(a@));
                lemma_ipv4_text_injective(c, a@);
            }
        },
        None => {},
    }
    r
}

pub open spec fn is_hex_digit(c: char) -> bool {
    is_digit(c) || ('a' <= c && c <= 'f') || ('A' <= c && c <= 'F')
}

pub open spec fn hex_digit_value(c: char) -> nat {
    if is_digit(c) {
        digit_value(c)
    } else if 'a' <= c && c <= 'f' {
        (c as int - 'a' as int + 10) as nat
    } else {
        (c as int - 'A' as int + 10) as nat
    }
}

/// The natural number that a string of hex digits writes.
pub open spec fn hex_value(t: Seq<char>) -> nat
    decreases t.len(),
{
    if t.len() == 0 {
        0
    } else {
        hex_value(t.drop_last()) * 16 + hex_digit_value(t.last())
    }
}

/// A group of an IPv6 text: one to four hex digits, in either letter case.
pub open spec fn hex_group(t: Seq<char>) -> bool {
    1 <= t.len() <= 4 && forall|i: int| 0 <= i < t.len() ==> is_hex_digit(#[trigger] t[i])
}

/// Sixteen to the power `n`.
pub open spec fn pow16(n: nat) -> nat
    decreases n,
{
    if n == 0 {
        1
    } else {
        16 * pow16((n - 1) as nat)
    }
}

/// `s` cut at each occurrence of `c` (`str::split` with one character): never an empty list.
pub open spec fn split_at(s: Seq<char>, c: char) -> Seq<Seq<char>>
    decreases s.len(),
{
    if s.len() == 0 {
        seq![Seq::empty()]
    } else {
        let p = split_at(s.drop_last(), c);
        if s.last() == c {
            p.push(Seq::empty())
        } else {
            p.update(p.len() - 1, p.last().push(s.last()))
        }
    }
}

/// The two 16-bit groups that an IPv4 address fills at the end of an IPv6 address.
pub open spec fn ipv4_groups(a: Seq<u8>) -> Seq<u16> {
    seq![(a[0] as nat * 256 + a[1] as nat) as u16, (a[2] as nat * 256 + a[3] as nat) as u16]
}

/// The 16-bit groups that the parts of an IPv6 text give: each part is a group of hex digits,
/// except that the last one, where `v4_last`, may be an IPv4 address, which gives two groups.
pub open spec fn groups_of(parts: Seq<Seq<char>>, v4_last: bool) -> Option<Seq<u16>>
    decreases parts.len(),
{
    if parts.len() == 0 {
        Some(Seq::empty())
    } else {
        match groups_of(parts.drop_last(), false) {
            None => None,
            Some(g) => {
                let p = parts.last();
                if hex_group(p) {
                    Some(g.push(hex_value(p) as u16))
                } else if v4_last && ipv4_value(p) is Some {
                    Some(g + ipv4_groups(ipv4_value(p)->Some_0))
                } else {
                    None
                }
            },
        }
    }
}

/// The groups of the colon-separated text `t`; no text gives no groups.
pub open spec fn colon_groups(t: Seq<char>, v4_last: bool) -> Option<Seq<u16>> {
    if t.len() == 0 {
        Some(Seq::empty())
    } else {
        groups_of(split_at(t, ':'), v4_last)
    }
}

/// Where the first `::` in `s` at or after `i` starts, or the length of `s` when there is none.
pub open spec fn double_colon_from(s: Seq<char>, i: int) -> int
    decreases s.len() - i,
{
    if i < 0 || i + 1 >= s.len() {
        s.len() as int
    } else if s[i] == ':' && s[i + 1] == ':' {
        i
    } else {
        double_colon_from(s, i + 1)
    }
}

/// The IPv6 address that `s` writes, as std's `Ipv6Addr` parser reads it: eight groups of hex
/// digits separated by colons, of which the last two may be written as an IPv4 address; or
/// fewer groups with one `::` among them, which stands for one or more groups of zeros, where
/// only the groups after it may end in an IPv4 address.
pub open spec fn ipv6_value(s: Seq<char>) -> Option<Seq<u16>> {
    let p = double_colon_from(s, 0);
    if p < s.len() {
        match (colon_groups(s.take(p), false), colon_groups(s.skip(p + 2), true)) {
            (Some(h), Some(t)) => if h.len() + t.len() <= 7 {
                Some(h + Seq::new((8 - h.len() - t.len()) as nat, |k: int| 0u16) + t)
            } else {
                None
            },
            _ => None,
        }
    } else {
        match colon_groups(s, true) {
            Some(g) => if g.len() == 8 {
                Some(g)
            } else {
                None
            },
            None => None,
        }
    }
}

/// The character views of a list of character vectors.
pub open spec fn part_views(v: Seq<Vec<char>>) -> Seq<Seq<char>> {
    v.map_values(|p: Vec<char>| p@)
}

/// Cuts `s` at each colon.
fn split_colons(s: &[char]) -> (r: Vec<Vec<char>>)
    ensures
        part_views(r@) == split_at(s@, ':'),
{
    let mut done: Vec<Vec<char>> = Vec::new();
    let mut cur: Vec<char> = Vec::new();
    let mut i: usize = 0;
    assert(s@.take(0) =~= Seq::<char>::empty());
    assert(part_views(done@).push(cur@) =~= seq![Seq::<char>::empty()]);
    while i < s.len()
        invariant
            i <= s@.len(),
            split_at(s@.take(i as int), ':') == part_views(done@).push(cur@),
        decreases s@.len() - i,
    {
        let ghost before = part_views(done@).push(cur@);
        assert(s@.take(i + 1).drop_last() =~= s@.take(i as int));
        assert(s@.take(i + 1).last() == s@[i as int]);
        if s[i] == ':' {
            done.push(cur);
            cur = Vec::new();
            assert(part_views(done@).push(cur@) =~= before.push(Seq::empty()));
        } else {
            cur.push(s[i]);
            assert(part_views(done@).push(cur@) =~= before.update(before.len() - 1, before.last().push(s@[i as int])));
        }
        i = i + 1;
    }
    assert(s@.take(s@.len() as int) =~= s@);
    done.push(cur);
    assert(part_views(done@) =~= split_at(s@, ':'));
    done
}

proof fn lemma_hex_value_bound(t: Seq<char>)
    requires
        forall|i: int| 0 <= i < t.len() ==> is_hex_digit(#[trigger] t[i]),
    ensures
        hex_value(t) < pow16(t.len()),
    decreases t.len(),
{
    if t.len() > 0 {
        let h = t.drop_last();
        assert forall|i: int| 0 <= i < h.len() implies is_hex_digit(#[trigger] h[i]) by {
            assert(h[i] == t[i]);
        }
        lemma_hex_value_bound(h);
        let a = hex_value(h);
        let d = hex_digit_value(t.last());
        let p = pow16(h.len());
        assert(d < 16);
        assert(a * 16 + d < 16 * p) by (nonlinear_arith)
            requires
                a < p,
                d < 16,
        ;
    }
}

/// The value of a group of hex digits, if `p` is one.
fn hex_group_value(p: &[char]) -> (r: Option<u16>)
    ensures
        r == if hex_group(p@) {
            Some(hex_value(p@) as u16)
        } else {
            None::<u16>
        },
{
    if p.len() == 0 || p.len() > 4 {
        return None;
    }
    let mut v: u32 = 0;
    let mut q: usize = 0;
    while q < p.len()
        invariant
            q <= p@.len() <= 4,
            forall|i: int| 0 <= i < q ==> is_hex_digit(#[trigger] p@[i]),
            v == hex_value(p@.take(q as int)),
            v < pow16(q as nat),
        decreases p@.len() - q,
    {
        let c = p[q];
        let d: u32 = if '0' <= c && c <= '9' {
            c as u32 - '0' as u32
        } else if 'a' <= c && c <= 'f' {
            c as u32 - 'a' as u32 + 10
        } else if 'A' <= c && c <= 'F' {
            c as u32 - 'A' as u32 + 10
        } else {
            return None;
        };
        assert(d == hex_digit_value(c));
        assert(p@.take(q + 1).drop_last() =~= p@.take(q as int));
        assert(p@.take(q + 1).last() == c);
        assert(pow16(q as nat) <= 4096) by {
            assert(pow16(0) == 1);
            assert(pow16(1) == 16);
            assert(pow16(2) == 256);
            assert(pow16(3) == 4096);
        }
        assert(v * 16 + d < 16 * pow16(q as nat)) by (nonlinear_arith)
            requires
                v < pow16(q as nat),
                d < 16,
        ;
        v = v * 16 + d;
        q = q + 1;
    }
    assert(p@.take(q as int) =~= p@);
    assert(pow16(4) == 65536) by {
        assert(pow16(0) == 1);
        assert(pow16(1) == 16);
        assert(pow16(2) == 256);
        assert(pow16(3) == 4096);
    }
    assert(pow16(q as nat) <= 65536) by {
        assert(pow16(0) == 1);
        assert(pow16(1) == 16);
        assert(pow16(2) == 256);
        assert(pow16(3) == 4096);
    }
    Some(v as u16)
}

/// Where a first stretch of parts already fails, the whole list does.
proof fn lemma_groups_prefix_fails(parts: Seq<Seq<char>>, k: int, v4_last: bool)
    requires
        1 <= k < parts.len(),
        groups_of(parts.take(k), false) is None,
    ensures
        groups_of(parts, v4_last) is None,
    decreases parts.len(),
{
    let d = parts.drop_last();
    if k == d.len() {
        assert(d =~= parts.take(k));
    } else {
        assert(d.take(k) =~= parts.take(k));
        lemma_groups_prefix_fails(d, k, false);
    }
}

/// The groups of a list of parts.
fn groups_from(parts: &Vec<Vec<char>>, v4_last: bool) -> (r: Option<Vec<u16>>)
    ensures
        match r {
            Some(g) => groups_of(part_views(parts@), v4_last) == Some(g@),
            None => groups_of(part_views(parts@), v4_last) is None,
        },
{
    let ghost pv = part_views(parts@);
    let mut g: Vec<u16> = Vec::new();
    let mut i: usize = 0;
    assert(pv.take(0) =~= Seq::<Seq<char>>::empty());
    while i < parts.len()
        invariant
            i <= parts@.len(),
            pv == part_views(parts@),
            groups_of(pv.take(i as int), false) == Some(g@),
        decreases parts@.len() - i,
    {
        let p = &parts[i];
        let ghost next = pv.take(i + 1);
        assert(next.drop_last() =~= pv.take(i as int));
        assert(next.last() == p@);
        match hex_group_value(p.as_slice()) {
            Some(v) => {
                g.push(v);
            },
            None => {
                if v4_last && i + 1 == parts.len() {
                    assert(next =~= pv);
                    match ipv4_of(p.as_slice()) {
                        Some(a) => {
                            let ghost before = g@;
                            g.push((a[0] as u16) * 256 + a[1] as u16);
                            g.push((a[2] as u16) * 256 + a[3] as u16);
                            assert(g@ =~= before + ipv4_groups(a@));
                            return Some(g);
                        },
                        None => {
                            return None;
                        },
                    }
                } else {
                    proof {
                        if i + 1 < parts.len() {
                            lemma_groups_prefix_fails(pv, i + 1, v4_last);
                        } else {
                            assert(next =~= pv);
                        }
                    }
                    return None;
                }
            },
        }
        i = i + 1;
    }
    assert(pv.take(i as int) =~= pv);
    proof {
        if pv.len() > 0 {
            // Every part was a group of hex digits, so reading one as an address never came up.
            assert(groups_of(pv, true) == groups_of(pv, false));
        }
    }
    Some(g)
}

/// The groups of the colon-separated text `t`.
fn colon_groups_of(t: &[char], v4_last: bool) -> (r: Option<Vec<u16>>)
    ensures
        match r {
            Some(g) => colon_groups(t@, v4_last) == Some(g@),
            None => colon_groups(t@, v4_last) is None,
        },
{
    if t.len() == 0 {
        return Some(Vec::new());
    }
    let parts = split_colons(t);
    groups_from(&parts, v4_last)
}

/// Reads an IPv6 address as std's `Ipv6Addr` parser does.
pub fn parse_ipv6(s: &[char]) -> (r: Option<[u16; 8]>)
    ensures
        match r {
            Some(a) => ipv6_value(s@) == Some(a@),
            None => ipv6_value(s@) is None,
        },
{
    let mut p: usize = 0;
    while s.len() - p > 1 && !(s[p] == ':' && s[p + 1] == ':')
        invariant
            p <= s@.len(),
            double_colon_from(s@, 0) == double_colon_from(s@, p as int),
        decreases s@.len() - p,
    {
        p = p + 1;
    }
    let g: Vec<u16> = if s.len() - p > 1 {
        assert(double_colon_from(s@, 0) == p);
        let head = head_to(s, p);
        let rest = tail_from(s, p + 2);
        let h = match colon_groups_of(head.as_slice(), false) {
            Some(h) => h,
            None => {
                return None;
            },
        };
        let t = match colon_groups_of(rest.as_slice(), true) {
            Some(t) => t,
            None => {
                return None;
            },
        };
        if h.len() > 7 || t.len() > 7 - h.len() {
            return None;
        }
        let mut all = h;
        let fill = 8 - all.len() - t.len();
        let ghost hv = all@;
        let mut z: usize = 0;
        while z < fill
            invariant
                z <= fill,
                all@ == hv + Seq::new(z as nat, |k: int| 0u16),
            decreases fill - z,
        {
            all.push(0);
            z = z + 1;
            assert(all@ =~= hv + Seq::new(z as nat, |k: int| 0u16));
        }
        let mut q: usize = 0;
        let ghost zv = all@;
        while q < t.len()
            invariant
                q <= t@.len(),
                all@ == zv + t@.take(q as int),
            decreases t@.len() - q,
        {
            all.push(t[q]);
            q = q + 1;
            assert(all@ =~= zv + t@.take(q as int));
        }
        assert(t@.take(q as int) =~= t@);
        all
    } else {
        assert(double_colon_from(s@, 0) == s@.len());
        let g = match colon_groups_of(s, true) {
            Some(g) => g,
            None => {
                return None;
            },
        };
        if g.len() != 8 {
            return None;
        }
        g
    };
    assert(g@.len() == 8);
    let r = [g[0], g[1], g[2], g[3], g[4], g[5], g[6], g[7]];
    assert(r@ =~= g@);
    Some(r)
}

/// An IP address: version 4 as its four octets, or version 6 as its eight 16-bit groups.
#[derive(Clone, Copy, Debug, PartialEq, Eq)]
pub enum IpAddress {
    V4 { octets: [u8; 4] },
    V6 { segments: [u16; 8] },
}

/// An [`IpAddress`] as a sequence of its parts.
pub enum AddressView {
    V4(Seq<u8>),
    V6(Seq<u16>),
}

impl View for IpAddress {
    type V = AddressView;

    open spec fn view(&self) -> AddressView {
        match self {
            IpAddress::V4 { octets } => AddressView::V4(octets@),
            IpAddress::V6 { segments } => AddressView::V6(segments@),
        }
    }
}

/// The address that `s` writes, as std's `IpAddr` parser reads it: as an IPv4 address where it
/// is the dotted text of one, else as an IPv6 address.
pub open spec fn ip_value(s: Seq<char>) -> Option<AddressView> {
    match ipv4_value(s) {
        Some(a) => Some(AddressView::V4(a)),
        None => match ipv6_value(s) {
            Some(g) => Some(AddressView::V6(g)),
            None => None,
        },
    }
}

/// Reports text that is not an IP address.
#[derive(Clone, Copy, Debug, PartialEq, Eq)]
pub struct AddressParseError {}

impl IpAddress {
    /// Reads an IP address of either version; `None` when `text` is not one.
    pub fn parse(text: &str) -> (r: Option<IpAddress>)
        ensures
            match r {
                Some(a) => ip_value(text@) == Some(a@),
                None => ip_value(text@) is None,
            },
    {
        let s = chars_of(text);
        match ipv4_of(s.as_slice()) {
            Some(octets) => Some(IpAddress::V4 { octets }),
            None => match parse_ipv6(s.as_slice()) {
                Some(segments) => Some(IpAddress::V6 { segments }),
                None => None,
            },
        }
    }
}

impl core::str::FromStr for IpAddress {
    type Err = AddressParseError;

    fn from_str(text: &str) -> (r: Result<IpAddress, AddressParseError>)
        ensures
            match r {
                Ok(a) => ip_value(text@) == Some(a@),
                Err(_) => ip_value(text@) is None,
            },
    {
        match IpAddress::parse(text) {
            Some(a) => Ok(a),
            None => Err(AddressParseError {}),
        }
    }
}

} // verus!
