//! Character-level text operations with their mathematical meaning.

use vstd::prelude::*;

verus! {

/// Appends one character to a string (`String::push`). Claimed: the string afterwards is the one
/// before with `c` at its end.
#[verifier::external_body]
pub fn push_char(s: &mut String, c: char)
    ensures
        final(s)@ == old(s)@.push(c),
{
    s.push(c);
}

/// The characters of a string slice, in order.
pub fn chars_of(s: &str) -> (v: Vec<char>)
    ensures
        v@ == s@,
{
    let mut v: Vec<char> = Vec::new();
    for c in it: s.chars()
        invariant
            it.seq() == s@,
            v@ == it.seq().take(it.index()),
    {
        v.push(c);
    }
    v
}

/// Builds a string from a sequence of characters.
pub fn string_of(v: &[char]) -> (s: String)
    ensures
        s@ == v@,
{
    let mut s = String::new();
    let mut i: usize = 0;
    while i < v.len()
        invariant
            i <= v@.len(),
            s@ == v@.take(i as int),
        decreases v@.len() - i,
    {
        push_char(&mut s, v[i]);
        i = i + 1;
        assert(v@.take(i as int) == v@.take(i - 1).push(v@[i - 1]));
    }
    assert(v@.take(v@.len() as int) == v@);
    s
}

/// The Unicode `White_Space` characters, the set that `char::is_whitespace` and `str::trim` use.
pub open spec fn is_space(c: char) -> bool {
    ||| ('\u{9}' <= c && c <= '\u{d}')
    ||| c == ' '
    ||| c == '\u{85}'
    ||| c == '\u{a0}'
    ||| c == '\u{1680}'
    ||| ('\u{2000}' <= c && c <= '\u{200a}')
    ||| c == '\u{2028}'
    ||| c == '\u{2029}'
    ||| c == '\u{202f}'
    ||| c == '\u{205f}'
    ||| c == '\u{3000}'
}

/// Tests a character for Unicode white space.
pub fn space(c: char) -> (b: bool)
    ensures
        b == is_space(c),
{
    ('\u{9}' <= c && c <= '\u{d}') || c == ' ' || c == '\u{85}' || c == '\u{a0}' || c == '\u{1680}'
        || ('\u{2000}' <= c && c <= '\u{200a}') || c == '\u{2028}' || c == '\u{2029}' || c
        == '\u{202f}' || c == '\u{205f}' || c == '\u{3000}'
}

/// `s` without its leading white space.
pub open spec fn trim_start(s: Seq<char>) -> Seq<char>
    decreases s.len(),
{
    if s.len() > 0 && is_space(s[0]) {
        trim_start(s.drop_first())
    } else {
        s
    }
}

/// `s` without its trailing white space.
pub open spec fn trim_end(s: Seq<char>) -> Seq<char>
    decreases s.len(),
{
    if s.len() > 0 && is_space(s.last()) {
        trim_end(s.drop_last())
    } else {
        s
    }
}

/// `s` without leading and trailing white space, as `str::trim` gives it.
pub open spec fn trim(s: Seq<char>) -> Seq<char> {
    trim_end(trim_start(s))
}

proof fn lemma_trim_start_skip(s: Seq<char>, a: int)
    requires
        0 <= a <= s.len(),
        forall|i: int| 0 <= i < a ==> is_space(#[trigger] s[i]),
        a == s.len() || !is_space(s[a]),
    ensures
        trim_start(s) == s.skip(a),
    decreases a,
{
    if a == 0 {
        assert(s.skip(0) == s);
    } else {
        let t = s.drop_first();
        assert forall|i: int| 0 <= i < a - 1 implies is_space(#[trigger] t[i]) by {
            assert(t[i] == s[i + 1]);
        }
        lemma_trim_start_skip(t, a - 1);
        assert(t.skip(a - 1) == s.skip(a));
    }
}

proof fn lemma_trim_end_take(s: Seq<char>, b: int)
    requires
        0 <= b <= s.len(),
        forall|i: int| b <= i < s.len() ==> is_space(#[trigger] s[i]),
        b == 0 || !is_space(s[b - 1]),
    ensures
        trim_end(s) == s.take(b),
    decreases s.len() - b,
{
    if b == s.len() {
        assert(s.take(b) == s);
    } else {
        let t = s.drop_last();
        assert forall|i: int| b <= i < t.len() implies is_space(#[trigger] t[i]) by {
            assert(t[i] == s[i]);
        }
        lemma_trim_end_take(t, b);
        assert(t.take(b) == s.take(b));
    }
}

/// Removes leading and trailing white space (`str::trim`).
pub fn trimmed(s: &[char]) -> (r: Vec<char>)
    ensures
        r@ == trim(s@),
{
    let n = s.len();
    let mut a: usize = 0;
    while a < n && space(s[a])
        invariant
            a <= n,
            n == s@.len(),
            forall|i: int| 0 <= i < a ==> is_space(#[trigger] s@[i]),
        decreases n - a,
    {
        a = a + 1;
    }
    proof {
        lemma_trim_start_skip(s@, a as int);
    }
    let mut b: usize = n;
    while b > a && space(s[b - 1])
        invariant
            a <= b <= n,
            n == s@.len(),
            forall|i: int| b <= i < n ==> is_space(#[trigger] s@[i]),
        decreases b,
    {
        b = b - 1;
    }
    let ghost t = s@.skip(a as int);
    proof {
        assert forall|i: int| (b - a) <= i < t.len() implies is_space(#[trigger] t[i]) by {
            assert(t[i] == s@[i + a]);
        }
        if b > a {
            assert(t[b - a - 1] == s@[b - 1]);
        }
        lemma_trim_end_take(t, b - a);
    }
    let mut r: Vec<char> = Vec::new();
    let mut i: usize = a;
    while i < b
        invariant
            a <= i <= b <= n,
            n == s@.len(),
            r@ == s@.subrange(a as int, i as int),
        decreases b - i,
    {
        r.push(s[i]);
        i = i + 1;
    }
    assert(r@ == t.take(b - a));
    r
}

/// `s` with every occurrence of `pat`, scanned from the left without overlap, replaced by `rep`
/// (`str::replace` for a non-empty pattern).
pub open spec fn replace_all(s: Seq<char>, pat: Seq<char>, rep: Seq<char>) -> Seq<char>
    decreases s.len(),
{
    if s.len() == 0 {
        s
    } else if 0 < pat.len() <= s.len() && s.take(pat.len() as int) == pat {
        rep + replace_all(s.skip(pat.len() as int), pat, rep)
    } else {
        seq![s[0]] + replace_all(s.drop_first(), pat, rep)
    }
}

/// Whether `pat` occurs in `s` at position `i`.
pub fn occurs_at(s: &[char], i: usize, pat: &[char]) -> (b: bool)
    requires
        i <= s@.len(),
    ensures
        b == (pat@.len() <= s@.len() - i && s@.subrange(i as int, i + pat@.len()) == pat@),
{
    if pat.len() > s.len() - i {
        return false;
    }
    let mut j: usize = 0;
    while j < pat.len()
        invariant
            j <= pat@.len() <= s@.len() - i,
            i <= s@.len(),
            s@.len() == s.len(),
            forall|k: int| 0 <= k < j ==> s@[i + k] == #[trigger] pat@[k],
        decreases pat@.len() - j,
    {
        if s[i + j] != pat[j] {
            assert(s@.subrange(i as int, i + pat@.len())[j as int] != pat@[j as int]);
            return false;
        }
        j = j + 1;
    }
    assert(s@.subrange(i as int, i + pat@.len()) =~= pat@);
    true
}

/// Replaces every occurrence of a non-empty pattern (`str::replace`).
pub fn replaced(s: &[char], pat: &[char], rep: &[char]) -> (r: Vec<char>)
    requires
        pat@.len() > 0,
    ensures
        r@ == replace_all(s@, pat@, rep@),
{
    let mut r: Vec<char> = Vec::new();
    let mut i: usize = 0;
    assert(s@.skip(0) == s@);
    while i < s.len()
        invariant
            i <= s@.len(),
            pat@.len() > 0,
            r@ + replace_all(s@.skip(i as int), pat@, rep@) == replace_all(s@, pat@, rep@),
        decreases s@.len() - i,
    {
        let ghost rest = s@.skip(i as int);
        if occurs_at(s, i, pat) {
            assert(rest.take(pat@.len() as int) == s@.subrange(i as int, i + pat@.len()));
            assert(rest.skip(pat@.len() as int) == s@.skip(i + pat@.len()));
            let mut k: usize = 0;
            let ghost r0 = r@;
            while k < rep.len()
                invariant
                    k <= rep@.len(),
                    r@ == r0 + rep@.take(k as int),
                decreases rep@.len() - k,
            {
                r.push(rep[k]);
                k = k + 1;
                assert(rep@.take(k as int) == rep@.take(k - 1).push(rep@[k - 1]));
            }
            assert(rep@.take(rep@.len() as int) == rep@);
            assert(r@ + replace_all(s@.skip(i + pat@.len()), pat@, rep@) == r0 + (rep@
                + replace_all(s@.skip(i + pat@.len()), pat@, rep@)));
            i = i + pat.len();
        } else {
            assert(!(rest.take(pat@.len() as int) == pat@) || pat@.len() > rest.len()) by {
                if pat@.len() <= rest.len() {
                    assert(rest.take(pat@.len() as int) == s@.subrange(i as int, i + pat@.len()));
                }
            }
            assert(rest.drop_first() == s@.skip(i + 1));
            let ghost r0 = r@;
            r.push(s[i]);
            assert(r@ + replace_all(s@.skip(i + 1), pat@, rep@) == r0 + (seq![s@[i as int]]
                + replace_all(s@.skip(i + 1), pat@, rep@)));
            i = i + 1;
        }
    }
    assert(s@.skip(s@.len() as int) =~= Seq::<char>::empty());
    r
}


/// Index of the first character of `s` that satisfies `p`, or the length of `s` when none does.
pub open spec fn first_where(s: Seq<char>, p: spec_fn(char) -> bool) -> int
    decreases s.len(),
{
    if s.len() == 0 {
        0
    } else if p(s[0]) {
        0
    } else {
        1 + first_where(s.drop_first(), p)
    }
}

/// `first_where` is the index before which no character satisfies `p`, and at which one does.
pub proof fn lemma_first_where(s: Seq<char>, p: spec_fn(char) -> bool, k: int)
    requires
        0 <= k <= s.len(),
        forall|i: int| 0 <= i < k ==> !p(#[trigger] s[i]),
        k == s.len() || p(s[k]),
    ensures
        first_where(s, p) == k,
    decreases k,
{
    if k > 0 {
        let t = s.drop_first();
        assert forall|i: int| 0 <= i < k - 1 implies !p(#[trigger] t[i]) by {
            assert(t[i] == s[i + 1]);
        }
        lemma_first_where(t, p, k - 1);
    }
}

/// `first_where` lies within `s`; a character before it fails `p`, the one at it passes.
pub proof fn lemma_first_where_bounds(s: Seq<char>, p: spec_fn(char) -> bool)
    ensures
        0 <= first_where(s, p) <= s.len(),
        forall|i: int| 0 <= i < first_where(s, p) ==> !p(#[trigger] s[i]),
        first_where(s, p) < s.len() ==> p(s[first_where(s, p)]),
    decreases s.len(),
{
    if s.len() > 0 && !p(s[0]) {
        let t = s.drop_first();
        lemma_first_where_bounds(t, p);
        assert forall|i: int| 0 <= i < first_where(s, p) implies !p(#[trigger] s[i]) by {
            if i > 0 {
                assert(s[i] == t[i - 1]);
            }
        }
    }
}

/// `s` without the copies of `c` at its end (`str::trim_end_matches` with one character).
pub open spec fn strip_end(s: Seq<char>, c: char) -> Seq<char>
    decreases s.len(),
{
    if s.len() > 0 && s.last() == c {
        strip_end(s.drop_last(), c)
    } else {
        s
    }
}

/// Removes every copy of `c` at the end of `s` (`str::trim_end_matches`).
pub fn stripped_end(s: &[char], c: char) -> (r: Vec<char>)
    ensures
        r@ == strip_end(s@, c),
{
    let mut b: usize = s.len();
    assert(s@.take(b as int) == s@);
    while b > 0 && s[b - 1] == c
        invariant
            b <= s@.len(),
            strip_end(s@, c) == strip_end(s@.take(b as int), c),
        decreases b,
    {
        assert(s@.take(b as int).drop_last() == s@.take(b - 1));
        b = b - 1;
    }
    let mut r: Vec<char> = Vec::new();
    let mut i: usize = 0;
    while i < b
        invariant
            i <= b <= s@.len(),
            r@ == s@.take(i as int),
        decreases b - i,
    {
        r.push(s[i]);
        i = i + 1;
        assert(s@.take(i as int) == s@.take(i - 1).push(s@[i - 1]));
    }
    r
}

/// The characters of `s` from position `from` on.
pub fn tail_from(s: &[char], from: usize) -> (r: Vec<char>)
    requires
        from <= s@.len(),
    ensures
        r@ == s@.skip(from as int),
{
    let mut r: Vec<char> = Vec::new();
    let mut i: usize = from;
    while i < s.len()
        invariant
            from <= i <= s@.len(),
            r@ == s@.subrange(from as int, i as int),
        decreases s@.len() - i,
    {
        r.push(s[i]);
        i = i + 1;
    }
    r
}

/// The first `to` characters of `s`.
pub fn head_to(s: &[char], to: usize) -> (r: Vec<char>)
    requires
        to <= s@.len(),
    ensures
        r@ == s@.take(to as int),
{
    let mut r: Vec<char> = Vec::new();
    let mut i: usize = 0;
    while i < to
        invariant
            i <= to <= s@.len(),
            r@ == s@.take(i as int),
        decreases to - i,
    {
        r.push(s[i]);
        i = i + 1;
        assert(s@.take(i as int) == s@.take(i - 1).push(s@[i - 1]));
    }
    r
}

/// Whether two character sequences are equal.
pub fn same_chars(a: &[char], b: &[char]) -> (r: bool)
    ensures
        r == (a@ == b@),
{
    if a.len() != b.len() {
        return false;
    }
    let mut i: usize = 0;
    while i < a.len()
        invariant
            i <= a@.len() == b@.len(),
            forall|k: int| 0 <= k < i ==> a@[k] == b@[k],
        decreases a@.len() - i,
    {
        if a[i] != b[i] {
            return false;
        }
        i = i + 1;
    }
    assert(a@ =~= b@);
    true
}

/// Replacing a pattern whose first character does not occur in `s` leaves `s` as it is.
pub proof fn lemma_replace_all_absent(s: Seq<char>, pat: Seq<char>, rep: Seq<char>)
    requires
        pat.len() > 0,
        forall|i: int| 0 <= i < s.len() ==> s[i] != pat[0],
    ensures
        replace_all(s, pat, rep) == s,
    decreases s.len(),
{
    if s.len() > 0 {
        let t = s.drop_first();
        assert forall|i: int| 0 <= i < t.len() implies t[i] != pat[0] by {
            assert(t[i] == s[i + 1]);
        }
        lemma_replace_all_absent(t, pat, rep);
        if pat.len() <= s.len() {
            assert(s.take(pat.len() as int)[0] == s[0]);
        }
        assert(seq![s[0]] + t =~= s);
    }
}

/// A text that neither starts nor ends with white space is its own trim.
pub proof fn lemma_trim_unchanged(s: Seq<char>)
    requires
        s.len() > 0,
        !is_space(s[0]),
        !is_space(s.last()),
    ensures
        trim(s) == s,
{
}

/// Trimming drops one leading space before a text that does not start with white space.
pub proof fn lemma_trim_start_one(s: Seq<char>)
    requires
        s.len() > 0,
        !is_space(s[0]),
    ensures
        trim_start(seq![' '] + s) == s,
{
    let x = seq![' '] + s;
    assert(x[0] == ' ');
    assert(x.drop_first() =~= s);
    assert(trim_start(s) == s);
}

/// Trimming drops one trailing space after a text that does not end with white space.
pub proof fn lemma_trim_end_one(s: Seq<char>)
    requires
        s.len() > 0,
        !is_space(s.last()),
    ensures
        trim_end(s + seq![' ']) == s,
{
    let x = s + seq![' '];
    assert(x.last() == ' ');
    assert(x.drop_last() =~= s);
    assert(trim_end(s) == s);
}

} // verus!
