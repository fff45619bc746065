//! Decimal number text: the syntax of std's float parser, and exact scaling to whole units.

use vstd::prelude::*;
use crate::text::{first_where, lemma_first_where, tail_from, head_to};

verus! {

pub open spec fn is_digit(c: char) -> bool {
    '0' <= c && c <= '9'
}

pub open spec fn all_digits(s: Seq<char>) -> bool {
    forall|i: int| 0 <= i < s.len() ==> is_digit(#[trigger] s[i])
}

pub open spec fn is_sign(c: char) -> bool {
    c == '+' || c == '-'
}

/// `s` without one leading sign.
pub open spec fn unsigned_part(s: Seq<char>) -> Seq<char> {
    if s.len() > 0 && is_sign(s[0]) {
        s.drop_first()
    } else {
        s
    }
}

pub open spec fn ascii_lower(c: char) -> char {
    if 'A' <= c && c <= 'Z' {
        ((c as u32) + 32) as char
    } else {
        c
    }
}

/// `inf`, `infinity` or `nan`, in any letter case.
pub open spec fn is_special_word(s: Seq<char>) -> bool {
    let l = s.map_values(|c: char| ascii_lower(c));
    ||| l == seq!['i', 'n', 'f']
    ||| l == seq!['i', 'n', 'f', 'i', 'n', 'i', 't', 'y']
    ||| l == seq!['n', 'a', 'n']
}

/// Position of the decimal point in `s`, or its length.
pub open spec fn dot_index(s: Seq<char>) -> int {
    first_where(s, |c: char| c == '.')
}

/// Position of the exponent marker in `s`, or its length.
pub open spec fn exp_index(s: Seq<char>) -> int {
    first_where(s, |c: char| c == 'e' || c == 'E')
}

/// `Digit+ | Digit+ '.' Digit* | Digit* '.' Digit+`.
pub open spec fn valid_mantissa(m: Seq<char>) -> bool {
    let d = dot_index(m);
    if d == m.len() {
        m.len() > 0 && all_digits(m)
    } else {
        all_digits(m.take(d)) && all_digits(m.skip(d + 1)) && m.len() > 1
    }
}

/// `Sign? Digit+`.
pub open spec fn valid_exponent(t: Seq<char>) -> bool {
    let v = unsigned_part(t);
    v.len() > 0 && all_digits(v)
}

/// `Mantissa (('e' | 'E') Exponent)?`.
pub open spec fn valid_number(u: Seq<char>) -> bool {
    let x = exp_index(u);
    valid_mantissa(u.take(x)) && (x == u.len() || valid_exponent(u.skip(x + 1)))
}

/// The text that std's `f64` parser accepts: an optional sign, then `inf`, `infinity`, `nan`
/// (any letter case) or a decimal number with an optional exponent.
pub open spec fn float_syntax(s: Seq<char>) -> bool {
    let u = unsigned_part(s);
    is_special_word(u) || valid_number(u)
}

fn digits_only(s: &[char]) -> (r: bool)
    ensures
        r == all_digits(s@),
{
    let mut i: usize = 0;
    while i < s.len()
        invariant
            i <= s@.len(),
            forall|k: int| 0 <= k < i ==> is_digit(#[trigger] s@[k]),
        decreases s@.len() - i,
    {
        if !('0' <= s[i] && s[i] <= '9') {
            return false;
        }
        i = i + 1;
    }
    true
}

fn letter_is(c: char, lower: char) -> (r: bool)
    requires
        'a' <= lower <= 'z',
    ensures
        r == (ascii_lower(c) == lower),
{
    let upper = lower as u32 - 32;
    c == lower || c as u32 == upper
}

fn word_is(s: &[char], w: &[char]) -> (r: bool)
    requires
        forall|i: int| 0 <= i < w@.len() ==> 'a' <= #[trigger] w@[i] <= 'z',
    ensures
        r == (s@.map_values(|c: char| ascii_lower(c)) == w@),
{
    let ghost l = s@.map_values(|c: char| ascii_lower(c));
    if s.len() != w.len() {
        assert(l.len() != w@.len());
        return false;
    }
    let mut i: usize = 0;
    while i < s.len()
        invariant
            i <= s@.len() == w@.len(),
            l == s@.map_values(|c: char| ascii_lower(c)),
            forall|i: int| 0 <= i < w@.len() ==> 'a' <= #[trigger] w@[i] <= 'z',
            forall|k: int| 0 <= k < i ==> l[k] == w@[k],
        decreases s@.len() - i,
    {
        if !letter_is(s[i], w[i]) {
            assert(l[i as int] != w@[i as int]);
            return false;
        }
        i = i + 1;
    }
    assert(l =~= w@);
    true
}

fn special_word(u: &[char]) -> (r: bool)
    ensures
        r == is_special_word(u@),
{
    let inf = ['i', 'n', 'f'];
    let infinity = ['i', 'n', 'f', 'i', 'n', 'i', 't', 'y'];
    let nan = ['n', 'a', 'n'];
    assert(inf@ == seq!['i', 'n', 'f']);
    assert(infinity@ == seq!['i', 'n', 'f', 'i', 'n', 'i', 't', 'y']);
    assert(nan@ == seq!['n', 'a', 'n']);
    word_is(u, inf.as_slice()) || word_is(u, infinity.as_slice()) || word_is(u, nan.as_slice())
}

/// The position of the first `.` in `s`, or its length.
pub fn find_dot(s: &[char]) -> (d: usize)
    ensures
        d == dot_index(s@),
        d <= s@.len(),
{
    let mut i: usize = 0;
    while i < s.len() && s[i] != '.'
        invariant
            i <= s@.len(),
            forall|k: int| 0 <= k < i ==> s@[k] != '.',
        decreases s@.len() - i,
    {
        i = i + 1;
    }
    proof {
        lemma_first_where(s@, |c: char| c == '.', i as int);
    }
    i
}

fn find_exp(s: &[char]) -> (x: usize)
    ensures
        x == exp_index(s@),
        x <= s@.len(),
{
    let mut i: usize = 0;
    while i < s.len() && s[i] != 'e' && s[i] != 'E'
        invariant
            i <= s@.len(),
            forall|k: int| 0 <= k < i ==> s@[k] != 'e' && s@[k] != 'E',
        decreases s@.len() - i,
    {
        i = i + 1;
    }
    proof {
        lemma_first_where(s@, |c: char| c == 'e' || c == 'E', i as int);
    }
    i
}

fn without_sign(s: &[char]) -> (u: Vec<char>)
    ensures
        u@ == unsigned_part(s@),
{
    if s.len() > 0 && (s[0] == '+' || s[0] == '-') {
        let u = tail_from(s, 1);
        assert(u@ == s@.drop_first());
        u
    } else {
        tail_from(s, 0)
    }
}

fn mantissa_ok(m: &[char]) -> (r: bool)
    ensures
        r == valid_mantissa(m@),
{
    let d = find_dot(m);
    if d == m.len() {
        m.len() > 0 && digits_only(m)
    } else {
        let before = head_to(m, d);
        let after = tail_from(m, d + 1);
        digits_only(before.as_slice()) && digits_only(after.as_slice()) && m.len() > 1
    }
}

/// Whether std's `f64` parser accepts `s`.
pub fn is_float_text(s: &[char]) -> (r: bool)
    ensures
        r == float_syntax(s@),
{
    let u = without_sign(s);
    if special_word(u.as_slice()) {
        return true;
    }
    let x = find_exp(u.as_slice());
    let mant = head_to(u.as_slice(), x);
    if !mantissa_ok(mant.as_slice()) {
        return false;
    }
    if x == u.len() {
        return true;
    }
    let t = tail_from(u.as_slice(), x + 1);
    let v = without_sign(t.as_slice());
    v.len() > 0 && digits_only(v.as_slice())
}


pub open spec fn digit_value(c: char) -> nat {
    (c as int - '0' as int) as nat
}

/// The natural number that a string of decimal digits writes.
pub open spec fn digits_value(s: Seq<char>) -> nat
    decreases s.len(),
{
    if s.len() == 0 {
        0
    } else {
        digits_value(s.drop_last()) * 10 + digit_value(s.last())
    }
}

/// The digits before the decimal point.
pub open spec fn int_part(u: Seq<char>) -> Seq<char> {
    u.take(dot_index(u))
}

/// The digits after the decimal point (none without a point).
pub open spec fn frac_part(u: Seq<char>) -> Seq<char> {
    if dot_index(u) < u.len() {
        u.skip(dot_index(u) + 1)
    } else {
        Seq::empty()
    }
}

/// The first `e` fraction digits, filled up with zeros.
pub open spec fn padded(f: Seq<char>, e: nat) -> Seq<char> {
    Seq::new(e, |j: int| if j < f.len() { f[j] } else { '0' })
}

/// The unsigned decimal `u` times `10^e`, rounded to a whole number, halves upwards:
/// the digits up to `e` places after the point, plus one when the next digit is 5 or more.
pub open spec fn rounded_magnitude(u: Seq<char>, e: nat) -> nat {
    let f = frac_part(u);
    digits_value(int_part(u) + padded(f, e)) + if f.len() > e && digit_value(f[e as int]) >= 5 {
        1nat
    } else {
        0nat
    }
}

/// The signed decimal `amount` times `10^e`, rounded to the nearest whole number, halves away
/// from zero.
pub open spec fn scaled_value(amount: Seq<char>, e: nat) -> int {
    let m = rounded_magnitude(unsigned_part(amount), e);
    if amount.len() > 0 && amount[0] == '-' {
        -m
    } else {
        m as int
    }
}

proof fn lemma_digits_value_prefix(s: Seq<char>, i: int)
    requires
        0 <= i <= s.len(),
    ensures
        digits_value(s.take(i)) <= digits_value(s),
    decreases s.len(),
{
    if i < s.len() {
        assert(s.drop_last().take(i) == s.take(i));
        lemma_digits_value_prefix(s.drop_last(), i);
    } else {
        assert(s.take(i) == s);
    }
}

/// The number that a string of digits writes, when it is at most `i64::MAX`.
pub(crate) fn digits_number(q: &[char]) -> (r: Option<u64>)
    requires
        all_digits(q@),
    ensures
        r is None <==> digits_value(q@) > i64::MAX,
        r matches Some(v) ==> v == digits_value(q@) && v <= i64::MAX,
{
    let ghost full = q@;
    let mut acc: u64 = 0;
    let mut i: usize = 0;
    while i < q.len()
        invariant
            i <= q@.len(),
            q@ == full,
            all_digits(full),
            acc == digits_value(full.take(i as int)),
            acc <= i64::MAX,
        decreases full.len() - i,
    {
        assert(full.take(i + 1).drop_last() == full.take(i as int));
        assert(is_digit(full[i as int]));
        let dv = (q[i] as u32 - '0' as u32) as u64;
        assert(dv == digit_value(full[i as int]));
        assert(full.take(i + 1).last() == full[i as int]);
        if acc > (i64::MAX as u64 - dv) / 10 {
            assert(acc * 10 + dv > i64::MAX) by (nonlinear_arith)
                requires
                    acc > (i64::MAX as u64 - dv) / 10,
                    dv <= 9,
            ;
            proof {
                lemma_digits_value_prefix(full, i + 1);
            }
            return None;
        }
        assert(acc * 10 + dv <= i64::MAX) by (nonlinear_arith)
            requires
                acc <= (i64::MAX as u64 - dv) / 10,
                dv <= 9,
        ;
        acc = acc * 10 + dv;
        i = i + 1;
    }
    assert(full.take(full.len() as int) == full);
    Some(acc)
}

proof fn lemma_parts_digits(u: Seq<char>, e: nat)
    requires
        valid_mantissa(u),
    ensures
        all_digits(int_part(u) + padded(frac_part(u), e)),
{
    let d = dot_index(u);
    crate::text::lemma_first_where_bounds(u, |c: char| c == '.');
    let f = frac_part(u);
    let p = padded(f, e);
    assert(all_digits(int_part(u))) by {
        if d == u.len() {
            assert(int_part(u) == u);
        }
    }
    assert(all_digits(p));
    let full = int_part(u) + p;
    assert forall|i: int| 0 <= i < full.len() implies is_digit(#[trigger] full[i]) by {
        if i < int_part(u).len() {
            assert(full[i] == int_part(u)[i]);
        } else {
            assert(full[i] == p[i - int_part(u).len()]);
        }
    }
}

/// `amount` (an optional sign, then digits with at most one point) times `10^e`, rounded to the
/// nearest whole number with halves away from zero; `None` when that does not fit in an `i64`.
pub fn scaled_amount(amount: &[char], e: usize) -> (r: Option<i64>)
    requires
        valid_mantissa(unsigned_part(amount@)),
        e <= 3,
    ensures
        r is None <==> rounded_magnitude(unsigned_part(amount@), e as nat) > i64::MAX,
        r matches Some(v) ==> v == scaled_value(amount@, e as nat),
{
    let u = without_sign(amount);
    let d = find_dot(u.as_slice());
    let ints = head_to(u.as_slice(), d);
    let frac = if d < u.len() {
        tail_from(u.as_slice(), d + 1)
    } else {
        Vec::new()
    };
    assert(frac@ == frac_part(u@));
    let mut q = ints;
    let ghost pad = padded(frac@, e as nat);
    let mut j: usize = 0;
    while j < e
        invariant
            j <= e,
            q@ == int_part(u@) + pad.take(j as int),
            pad == padded(frac@, e as nat),
        decreases e - j,
    {
        if j < frac.len() {
            q.push(frac[j]);
        } else {
            q.push('0');
        }
        j = j + 1;
        assert(pad.take(j as int) == pad.take(j - 1).push(pad[j - 1]));
    }
    assert(pad.take(e as int) == pad);
    proof {
        lemma_parts_digits(u@, e as nat);
    }
    let p = digits_number(q.as_slice());
    let mut acc = match p {
        None => {
            return None;
        },
        Some(v) => v,
    };
    if frac.len() > e && frac[e] >= '5' {
        if acc == i64::MAX as u64 {
            return None;
        }
        acc = acc + 1;
    }
    let m = acc as i64;
    if amount.len() > 0 && amount[0] == '-' {
        Some(-m)
    } else {
        Some(m)
    }
}


/// Ten to the power `n`.
pub open spec fn pow10(n: nat) -> nat
    decreases n,
{
    if n == 0 {
        1
    } else {
        10 * pow10((n - 1) as nat)
    }
}

proof fn lemma_pow10_positive(n: nat)
    ensures
        pow10(n) >= 1,
    decreases n,
{
    if n > 0 {
        lemma_pow10_positive((n - 1) as nat);
    }
}

proof fn lemma_pow10_add(a: nat, b: nat)
    ensures
        pow10(a + b) == pow10(a) * pow10(b),
    decreases b,
{
    if b > 0 {
        lemma_pow10_add(a, (b - 1) as nat);
        assert(pow10(a + b) == 10 * pow10((a + b - 1) as nat));
        assert(((a + b - 1) as nat) == a + ((b - 1) as nat));
        let x = pow10(a);
        let y = pow10((b - 1) as nat);
        assert(pow10(b) == 10 * y);
        assert(10 * (x * y) == x * (10 * y)) by (nonlinear_arith);
    } else {
        assert(pow10(b) == 1);
        assert(a + b == a);
    }
}

/// The value of digits written one after the other: the first part shifted left by the
/// length of the second.
proof fn lemma_digits_value_concat(x: Seq<char>, y: Seq<char>)
    ensures
        digits_value(x + y) == digits_value(x) * pow10(y.len()) + digits_value(y),
    decreases y.len(),
{
    if y.len() == 0 {
        assert(x + y == x);
        assert(pow10(y.len()) == 1);
        assert(digits_value(y) == 0);
    } else {
        let y2 = y.drop_last();
        assert(digits_value(x + y) == digits_value((x + y).drop_last()) * 10 + digit_value((x + y).last()));
        assert(digits_value(y) == digits_value(y2) * 10 + digit_value(y.last()));
        assert((x + y).drop_last() == x + y2);
        assert((x + y).last() == y.last());
        lemma_digits_value_concat(x, y2);
        let a = digits_value(x);
        let b = pow10(y2.len());
        let c = digits_value(y2);
        let l = digit_value(y.last());
        assert(pow10(y.len()) == 10 * b);
        assert((a * b + c) * 10 + l == a * (10 * b) + (c * 10 + l)) by (nonlinear_arith);
    }
}

proof fn lemma_digits_value_bound(s: Seq<char>)
    requires
        all_digits(s),
    ensures
        digits_value(s) < pow10(s.len()),
    decreases s.len(),
{
    if s.len() > 0 {
        let t = s.drop_last();
        assert(all_digits(t)) by {
            assert forall|i: int| 0 <= i < t.len() implies is_digit(#[trigger] t[i]) by {
                assert(t[i] == s[i]);
            }
        }
        lemma_digits_value_bound(t);
        assert(is_digit(s[s.len() - 1]));
        let v = digits_value(t);
        let p = pow10(t.len());
        let l = digit_value(s.last());
        assert(l <= 9);
        assert(v * 10 + l < 10 * p) by (nonlinear_arith)
            requires
                v < p,
                l <= 9,
        ;
    }
}

proof fn lemma_zeros_value(n: nat)
    ensures
        digits_value(Seq::new(n, |j: int| '0')) == 0,
    decreases n,
{
    if n > 0 {
        assert(Seq::new(n, |j: int| '0').drop_last() == Seq::new((n - 1) as nat, |j: int| '0'));
        lemma_zeros_value((n - 1) as nat);
    }
}

/// Twice a digit string is at least ten to its length exactly when its first digit is 5 or more.
proof fn lemma_half_by_first_digit(r: Seq<char>)
    requires
        r.len() > 0,
        all_digits(r),
    ensures
        (2 * digits_value(r) >= pow10(r.len())) == (digit_value(r[0]) >= 5),
{
    let head = seq![r[0]];
    let tail = r.drop_first();
    assert(head + tail == r);
    lemma_digits_value_concat(head, tail);
    assert(head.drop_last() == Seq::<char>::empty());
    assert(digits_value(Seq::<char>::empty()) == 0);
    assert(head.last() == r[0]);
    assert(digits_value(head) == digits_value(head.drop_last()) * 10 + digit_value(head.last()));
    assert(digits_value(head) == digit_value(r[0]));
    assert(all_digits(tail)) by {
        assert forall|i: int| 0 <= i < tail.len() implies is_digit(#[trigger] tail[i]) by {
            assert(tail[i] == r[i + 1]);
        }
    }
    lemma_digits_value_bound(tail);
    lemma_pow10_positive(tail.len());
    assert(is_digit(r[0]));
    let d = digit_value(r[0]);
    let t = pow10(tail.len());
    let rest = digits_value(tail);
    assert(pow10(r.len()) == 10 * t);
    assert((2 * (d * t + rest) >= 10 * t) == (d >= 5)) by (nonlinear_arith)
        requires
            d <= 9,
            rest < t,
            t >= 1,
    ;
}

/// Reading a decimal in whole units rounds to the nearest whole number, halves away from zero:
/// with `n` the number that all the digits of `amount` write and `d` the count of digits after
/// its point, the magnitude `m` of `scaled_value(amount, e)` is the whole number nearest to
/// `n * 10^e / 10^d`, and a half rounds up.
pub proof fn lemma_scaled_value_rounds_to_nearest(amount: Seq<char>, e: nat)
    requires
        valid_mantissa(unsigned_part(amount)),
    ensures
        ({
            let u = unsigned_part(amount);
            let n = digits_value(int_part(u) + frac_part(u));
            let d = frac_part(u).len();
            let m = rounded_magnitude(u, e);
            &&& 2 * m * pow10(d) <= 2 * n * pow10(e) + pow10(d)
            &&& 2 * n * pow10(e) + pow10(d) < 2 * (m + 1) * pow10(d)
            &&& scaled_value(amount, e) == if amount.len() > 0 && amount[0] == '-' {
                -m
            } else {
                m as int
            }
        }),
{
    let u = unsigned_part(amount);
    let i = int_part(u);
    let f = frac_part(u);
    let d = f.len();
    let n = digits_value(i + f);
    let m = rounded_magnitude(u, e);
    crate::text::lemma_first_where_bounds(u, |c: char| c == '.');
    assert(all_digits(f)) by {
        if dot_index(u) == u.len() {
            assert(f.len() == 0);
        }
    }
    lemma_pow10_positive(d);
    lemma_pow10_positive(e);
    if d <= e {
        let z = Seq::new((e - d) as nat, |j: int| '0');
        assert(padded(f, e) == f + z);
        assert(i + padded(f, e) == (i + f) + z);
        lemma_digits_value_concat(i + f, z);
        lemma_zeros_value((e - d) as nat);
        lemma_pow10_add(d, (e - d) as nat);
        assert(m == n * pow10((e - d) as nat));
        let q = pow10((e - d) as nat);
        let pd = pow10(d);
        assert(pow10(e) == pd * q);
        assert(2 * (n * q) * pd <= 2 * n * (pd * q) + pd) by (nonlinear_arith)
            requires
                pd >= 1,
        ;
        assert(2 * n * (pd * q) + pd < 2 * (n * q + 1) * pd) by (nonlinear_arith)
            requires
                pd >= 1,
        ;
    } else {
        let head = f.take(e as int);
        let rest = f.skip(e as int);
        assert(padded(f, e) == head);
        assert((i + head) + rest == i + f);
        lemma_digits_value_concat(i + head, rest);
        let p = digits_value(i + head);
        let r = digits_value(rest);
        let k = rest.len();
        assert(all_digits(rest)) by {
            assert forall|j: int| 0 <= j < rest.len() implies is_digit(#[trigger] rest[j]) by {
                assert(rest[j] == f[j + e]);
            }
        }
        lemma_half_by_first_digit(rest);
        lemma_digits_value_bound(rest);
        assert(rest[0] == f[e as int]);
        lemma_pow10_add(e, k);
        assert(d == e + k);
        let pe = pow10(e);
        let pk = pow10(k);
        assert(pow10(d) == pe * pk);
        assert(n == p * pk + r);
        let b: nat = if digit_value(f[e as int]) >= 5 {
            1
        } else {
            0
        };
        assert(m == p + b);
        assert(b == 1 ==> 2 * r >= pk);
        assert(b == 0 ==> 2 * r < pk);
        assert(2 * (p + b) * (pe * pk) <= 2 * (p * pk + r) * pe + pe * pk) by (nonlinear_arith)
            requires
                b == 1 ==> 2 * r >= pk,
                b == 0 || b == 1,
                pe >= 1,
        ;
        assert(2 * (p * pk + r) * pe + pe * pk < 2 * (p + b + 1) * (pe * pk)) by (nonlinear_arith)
            requires
                b == 0 ==> 2 * r < pk,
                b == 0 || b == 1,
                r < pk,
                pe >= 1,
        ;
    }
}

} // verus!
