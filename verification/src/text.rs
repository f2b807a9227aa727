//! Character-level helpers shared by the parsers and message builders.
use vstd::prelude::*;

verus! {

/// Appends one character to a string (`String::push`).
#[verifier::external_body]
pub(crate) fn push_char(s: &mut String, c: char)
    ensures
        final(s)@ == old(s)@.push(c),
{
    s.push(c);
}

/// The characters of `s`, in order.
pub fn chars_of(s: &str) -> (r: Vec<char>)
    ensures
        r@ == s@,
{
    let mut r: Vec<char> = Vec::new();
    for c in it: s.chars()
        invariant
            it.seq() == s@,
            r@ == it.seq().take(it.index() as int),
    {
        r.push(c);
    }
    r
}

/// A string holding the characters `v[from..to]`.
pub fn string_from_range(v: &Vec<char>, from: usize, to: usize) -> (r: String)
    requires
        from <= to <= v.len(),
    ensures
        r@ == v@.subrange(from as int, to as int),
{
    let mut r = String::new();
    let mut i = from;
    while i < to
        invariant
            from <= i <= to <= v.len(),
            r@ == v@.subrange(from as int, i as int),
        decreases to - i,
    {
        push_char(&mut r, v[i]);
        assert(v@.subrange(from as int, i + 1) =~= v@.subrange(from as int, i as int).push(v@[i as int]));
        i = i + 1;
    }
    r
}

/// A string holding all the characters of `v`.
pub fn string_from_chars(v: &Vec<char>) -> (r: String)
    ensures
        r@ == v@,
{
    assert(v@.subrange(0, v@.len() as int) =~= v@);
    string_from_range(v, 0, v.len())
}

/// A string holding `a` followed by `b`.
pub fn concat_strings(a: &str, b: &str) -> (r: String)
    ensures
        r@ == a@ + b@,
{
    let va = chars_of(a);
    let mut vb = chars_of(b);
    let mut all = va;
    all.append(&mut vb);
    string_from_chars(&all)
}

/// The ASCII character of a decimal digit.
pub open spec fn digit_char(d: nat) -> char
    recommends
        d < 10,
{
    if d == 0 { '0' }
    else if d == 1 { '1' }
    else if d == 2 { '2' }
    else if d == 3 { '3' }
    else if d == 4 { '4' }
    else if d == 5 { '5' }
    else if d == 6 { '6' }
    else if d == 7 { '7' }
    else if d == 8 { '8' }
    else { '9' }
}

/// The decimal representation of `n`, without leading zeros ("0" for zero),
/// as `Display` prints an unsigned integer.
pub open spec fn decimal_text(n: nat) -> Seq<char>
    decreases n,
{
    if n < 10 {
        seq![digit_char(n)]
    } else {
        decimal_text(n / 10).push(digit_char(n % 10))
    }
}

fn digit_to_char(d: u128) -> (c: char)
    requires
        d < 10,
    ensures
        c == digit_char(d as nat),
{
    if d == 0 { '0' }
    else if d == 1 { '1' }
    else if d == 2 { '2' }
    else if d == 3 { '3' }
    else if d == 4 { '4' }
    else if d == 5 { '5' }
    else if d == 6 { '6' }
    else if d == 7 { '7' }
    else if d == 8 { '8' }
    else { '9' }
}

/// The decimal digits of `n`, as `Display` prints it.
pub fn decimal_chars(n: u128) -> (r: Vec<char>)
    ensures
        r@ == decimal_text(n as nat),
{
    let mut q: u128 = n;
    let mut acc: Vec<char> = Vec::new();
    while q >= 10
        invariant
            decimal_text(n as nat) == decimal_text(q as nat) + acc@,
        decreases q,
    {
        let d = digit_to_char(q % 10);
        let ghost old_acc = acc@;
        acc.insert(0, d);
        assert(decimal_text(q as nat) == decimal_text((q / 10) as nat).push(d));
        assert(decimal_text((q / 10) as nat) + acc@ =~= decimal_text((q / 10) as nat).push(d)
            + old_acc);
        q = q / 10;
    }
    let d = digit_to_char(q);
    acc.insert(0, d);
    assert(decimal_text(q as nat) =~= seq![d]);
    acc
}

/// `char::is_whitespace`: the Unicode `White_Space` property.
pub open spec fn is_whitespace(c: char) -> bool {
    ||| ('\u{9}' <= c && c <= '\u{d}')
    ||| c == ' '
    ||| c == '\u{85}'
    ||| c == '\u{a0}'
    ||| c == '\u{1680}'
    ||| ('\u{2000}' <= c && c <= '\u{200a}')
    ||| c == '\u{2028}'
    ||| c == '\u{2029}'
    ||| c == '\u{202f}'
    ||| c == '\u{205f}'
    ||| c == '\u{3000}'
}

fn char_is_whitespace(c: char) -> (r: bool)
    ensures
        r == is_whitespace(c),
{
    ('\u{9}' <= c && c <= '\u{d}') || c == ' ' || c == '\u{85}' || c == '\u{a0}' || c
        == '\u{1680}' || ('\u{2000}' <= c && c <= '\u{200a}') || c == '\u{2028}' || c
        == '\u{2029}' || c == '\u{202f}' || c == '\u{205f}' || c == '\u{3000}'
}

/// The first index at or after `i` that holds no whitespace (or the length).
pub open spec fn skip_whitespace(s: Seq<char>, i: int) -> int
    decreases s.len() - i,
{
    if 0 <= i < s.len() && is_whitespace(s[i]) {
        skip_whitespace(s, i + 1)
    } else {
        i
    }
}

/// The end left after dropping the whitespace that stands just before `j`.
pub open spec fn back_over_whitespace(s: Seq<char>, j: int) -> int
    decreases j,
{
    if 0 < j <= s.len() && is_whitespace(s[j - 1]) {
        back_over_whitespace(s, j - 1)
    } else {
        j
    }
}

/// `str::trim`: `s` without its leading and trailing whitespace.
pub open spec fn trimmed(s: Seq<char>) -> Seq<char> {
    let a = skip_whitespace(s, 0);
    let b = back_over_whitespace(s, s.len() as int);
    if a < b {
        s.subrange(a, b)
    } else {
        Seq::empty()
    }
}

/// The characters of `s` without leading and trailing whitespace.
pub fn trim_chars(s: &Vec<char>) -> (r: Vec<char>)
    ensures
        r@ == trimmed(s@),
{
    let mut a: usize = 0;
    while a < s.len() && char_is_whitespace(s[a])
        invariant
            a <= s.len(),
            skip_whitespace(s@, 0) == skip_whitespace(s@, a as int),
        decreases s.len() - a,
    {
        a = a + 1;
    }
    let mut b: usize = s.len();
    while b > 0 && char_is_whitespace(s[b - 1])
        invariant
            b <= s.len(),
            back_over_whitespace(s@, s.len() as int) == back_over_whitespace(s@, b as int),
        decreases b,
    {
        b = b - 1;
    }
    let mut r: Vec<char> = Vec::new();
    if a < b {
        let mut i = a;
        while i < b
            invariant
                a <= i <= b <= s.len(),
                r@ == s@.subrange(a as int, i as int),
            decreases b - i,
        {
            r.push(s[i]);
            assert(s@.subrange(a as int, i + 1) =~= s@.subrange(a as int, i as int).push(
                s@[i as int],
            ));
            i = i + 1;
        }
    }
    assert(r@ =~= trimmed(s@));
    r
}

/// `s` with every occurrence of `c` removed.
pub open spec fn without_char(s: Seq<char>, c: char) -> Seq<char>
    decreases s.len(),
{
    if s.len() == 0 {
        Seq::empty()
    } else {
        let rest = without_char(s.drop_last(), c);
        if s.last() == c {
            rest
        } else {
            rest.push(s.last())
        }
    }
}

/// The characters of `s` with every `c` removed.
pub fn remove_char(s: &Vec<char>, c: char) -> (r: Vec<char>)
    ensures
        r@ == without_char(s@, c),
{
    let mut r: Vec<char> = Vec::new();
    let mut i: usize = 0;
    while i < s.len()
        invariant
            i <= s.len(),
            r@ == without_char(s@.take(i as int), c),
        decreases s.len() - i,
    {
        assert(s@.take(i + 1).drop_last() =~= s@.take(i as int));
        if s[i] != c {
            r.push(s[i]);
        }
        i = i + 1;
    }
    assert(s@.take(s.len() as int) =~= s@);
    r
}

/// Whether two character sequences are equal.
pub fn chars_equal(a: &Vec<char>, b: &Vec<char>) -> (r: bool)
    ensures
        r == (a@ == b@),
{
    if a.len() != b.len() {
        return false;
    }
    let mut i: usize = 0;
    while i < a.len()
        invariant
            a.len() == b.len(),
            i <= a.len(),
            forall|k: int| 0 <= k < i ==> a@[k] == b@[k],
        decreases a.len() - i,
    {
        if a[i] != b[i] {
            return false;
        }
        i = i + 1;
    }
    assert(a@ =~= b@);
    true
}

/// All characters of `s` are whitespace.
pub open spec fn all_whitespace(s: Seq<char>) -> bool {
    forall|i: int| 0 <= i < s.len() ==> is_whitespace(#[trigger] s[i])
}

proof fn lemma_skip_whitespace_shift(a: Seq<char>, t: Seq<char>, j: int)
    requires
        0 <= j <= t.len(),
    ensures
        skip_whitespace(a + t, a.len() + j) == a.len() + skip_whitespace(t, j),
    decreases t.len() - j,
{
    if j < t.len() {
        assert((a + t)[a.len() + j] == t[j]);
        if is_whitespace(t[j]) {
            lemma_skip_whitespace_shift(a, t, j + 1);
        }
    }
}

proof fn lemma_skip_whitespace_prefix(a: Seq<char>, t: Seq<char>, i: int)
    requires
        all_whitespace(a),
        0 <= i <= a.len(),
    ensures
        skip_whitespace(a + t, i) == a.len() + skip_whitespace(t, 0),
    decreases a.len() - i,
{
    if i < a.len() {
        assert((a + t)[i] == a[i]);
        lemma_skip_whitespace_prefix(a, t, i + 1);
    } else {
        lemma_skip_whitespace_shift(a, t, 0);
    }
}

proof fn lemma_back_shift(t: Seq<char>, b: Seq<char>, j: int)
    requires
        0 <= j <= t.len(),
    ensures
        back_over_whitespace(t + b, j) == back_over_whitespace(t, j),
    decreases j,
{
    if j > 0 {
        assert((t + b)[j - 1] == t[j - 1]);
        lemma_back_shift(t, b, j - 1);
    }
}

proof fn lemma_back_suffix(t: Seq<char>, b: Seq<char>, j: int)
    requires
        all_whitespace(b),
        t.len() <= j <= t.len() + b.len(),
    ensures
        back_over_whitespace(t + b, j) == back_over_whitespace(t, t.len() as int),
    decreases j,
{
    if j > t.len() {
        assert((t + b)[j - 1] == b[j - 1 - t.len()]);
        lemma_back_suffix(t, b, j - 1);
    } else {
        lemma_back_shift(t, b, j);
    }
}

proof fn lemma_skip_bounds(s: Seq<char>, i: int)
    requires
        0 <= i <= s.len(),
    ensures
        i <= skip_whitespace(s, i) <= s.len(),
        skip_whitespace(s, i) < s.len() ==> !is_whitespace(s[skip_whitespace(s, i)]),
    decreases s.len() - i,
{
    if i < s.len() && is_whitespace(s[i]) {
        lemma_skip_bounds(s, i + 1);
    }
}

proof fn lemma_back_bounds(s: Seq<char>, j: int)
    requires
        0 <= j <= s.len(),
    ensures
        0 <= back_over_whitespace(s, j) <= j,
        back_over_whitespace(s, j) > 0 ==> !is_whitespace(s[back_over_whitespace(s, j) - 1]),
    decreases j,
{
    if j > 0 && is_whitespace(s[j - 1]) {
        lemma_back_bounds(s, j - 1);
    }
}

proof fn lemma_back_stops_at(s: Seq<char>, j: int, k: int)
    requires
        0 <= k <= j <= s.len(),
        k > 0 ==> !is_whitespace(s[k - 1]),
        forall|m: int| k <= m < j ==> is_whitespace(#[trigger] s[m]),
    ensures
        back_over_whitespace(s, j) == k,
    decreases j,
{
    if j > k {
        lemma_back_stops_at(s, j - 1, k);
    }
}

proof fn lemma_skip_stops_before(s: Seq<char>, i: int, k: int)
    requires
        0 <= i <= k < s.len(),
        !is_whitespace(s[k]),
    ensures
        skip_whitespace(s, i) <= k,
    decreases k - i,
{
    if i < k && is_whitespace(s[i]) {
        lemma_skip_stops_before(s, i + 1, k);
    }
}

/// Whitespace around a text does not change what `trim` gives.
pub proof fn lemma_trim_ignores_surrounding_whitespace(a: Seq<char>, s: Seq<char>, b: Seq<char>)
    requires
        all_whitespace(a),
        all_whitespace(b),
    ensures
        trimmed(a + s + b) == trimmed(s),
{
    let x = a + s + b;
    let sb = s + b;
    assert(x =~= a + sb);
    let xs = a + s;
    assert(x =~= xs + b);
    lemma_skip_whitespace_prefix(a, sb, 0);
    lemma_skip_bounds(s, 0);
    lemma_back_bounds(s, s.len() as int);
    let i0 = skip_whitespace(s, 0);
    let j0 = back_over_whitespace(s, s.len() as int);
    lemma_back_suffix(xs, b, (xs + b).len() as int);
    lemma_back_bounds(xs, xs.len() as int);
    if j0 > 0 {
        lemma_skip_stops_before(s, 0, j0 - 1);
        lemma_skip_prefix_agrees(s, b, 0);
        assert(skip_whitespace(x, 0) == a.len() + i0);
        assert forall|m: int| a.len() + j0 <= m < xs.len() implies is_whitespace(
            #[trigger] xs[m],
        ) by {
            lemma_back_all_whitespace_after(s, s.len() as int, m - a.len());
        }
        assert(xs[a.len() + j0 - 1] == s[j0 - 1]);
        lemma_back_stops_at(xs, xs.len() as int, a.len() + j0);
        assert(back_over_whitespace(x, x.len() as int) == a.len() + j0);
        assert(x.subrange(a.len() + i0, a.len() + j0) =~= s.subrange(i0, j0));
    } else {
        if i0 < s.len() {
            lemma_back_all_whitespace_after(s, s.len() as int, i0);
        }
        lemma_skip_into_suffix(s, b, 0);
        lemma_skip_bounds(b, 0);
        assert(skip_whitespace(x, 0) >= a.len() + s.len());
        assert(back_over_whitespace(x, x.len() as int) <= xs.len());
    }
}

proof fn lemma_skip_prefix_agrees(s: Seq<char>, b: Seq<char>, i: int)
    requires
        0 <= i <= s.len(),
        skip_whitespace(s, i) < s.len(),
    ensures
        skip_whitespace(s + b, i) == skip_whitespace(s, i),
    decreases s.len() - i,
{
    assert((s + b)[i] == s[i]);
    if is_whitespace(s[i]) {
        lemma_skip_prefix_agrees(s, b, i + 1);
    }
}

proof fn lemma_skip_into_suffix(s: Seq<char>, b: Seq<char>, i: int)
    requires
        0 <= i <= s.len(),
        skip_whitespace(s, i) == s.len(),
    ensures
        skip_whitespace(s + b, i) == s.len() + skip_whitespace(b, 0),
    decreases s.len() - i,
{
    if i < s.len() {
        assert((s + b)[i] == s[i]);
        lemma_skip_into_suffix(s, b, i + 1);
    } else {
        lemma_skip_whitespace_shift(s, b, 0);
    }
}

proof fn lemma_back_all_whitespace_after(s: Seq<char>, j: int, m: int)
    requires
        0 <= j <= s.len(),
        back_over_whitespace(s, j) <= m < j,
    ensures
        is_whitespace(s[m]),
    decreases j,
{
    if j > 0 && is_whitespace(s[j - 1]) {
        if m < j - 1 {
            lemma_back_all_whitespace_after(s, j - 1, m);
        }
    }
}

/// Nothing of `c` is left after removing `c`, and nothing else is removed.
pub proof fn lemma_without_char_removes_all(s: Seq<char>, c: char)
    ensures
        forall|i: int| 0 <= i < without_char(s, c).len() ==> #[trigger] without_char(s, c)[i] != c,
        without_char(s, c).len() <= s.len(),
    decreases s.len(),
{
    if s.len() > 0 {
        lemma_without_char_removes_all(s.drop_last(), c);
    }
}

/// An ASCII decimal digit.
pub open spec fn is_decimal_digit(c: char) -> bool {
    '0' <= c && c <= '9'
}

/// Every character of `s` is an ASCII decimal digit.
pub open spec fn all_digits(s: Seq<char>) -> bool {
    forall|i: int| 0 <= i < s.len() ==> is_decimal_digit(#[trigger] s[i])
}

/// The number that a string of decimal digits denotes (leading zeros allowed).
pub open spec fn digits_value(s: Seq<char>) -> int
    decreases s.len(),
{
    if s.len() == 0 {
        0
    } else {
        10 * digits_value(s.drop_last()) + (s.last() as int - '0' as int)
    }
}

proof fn lemma_digit_char_value(d: nat)
    requires
        d < 10,
    ensures
        digit_char(d) as int - '0' as int == d,
        is_decimal_digit(digit_char(d)),
        d != 0 ==> digit_char(d) != '0',
{
    assert('0' as int == 48);
    if d == 0 { assert('0' as int == 48); }
    else if d == 1 { assert('1' as int == 49); }
    else if d == 2 { assert('2' as int == 50); }
    else if d == 3 { assert('3' as int == 51); }
    else if d == 4 { assert('4' as int == 52); }
    else if d == 5 { assert('5' as int == 53); }
    else if d == 6 { assert('6' as int == 54); }
    else if d == 7 { assert('7' as int == 55); }
    else if d == 8 { assert('8' as int == 56); }
    else { assert('9' as int == 57); }
}

/// The decimal text of `n` is a string of digits without a leading zero whose
/// value is `n`; so different numbers have different texts.
pub proof fn law_decimal_text_denotes_number(n: nat)
    ensures
        decimal_text(n).len() >= 1,
        n >= 10 ==> decimal_text(n).len() > 1,
        all_digits(decimal_text(n)),
        digits_value(decimal_text(n)) == n,
        decimal_text(n).len() > 1 ==> decimal_text(n)[0] != '0',
    decreases n,
{
    let t = decimal_text(n);
    if n < 10 {
        lemma_digit_char_value(n);
        assert(t.drop_last() =~= Seq::<char>::empty());
        assert(digits_value(t.drop_last()) == 0);
        assert(t.last() == digit_char(n));
        assert(digits_value(t) == n);
    } else {
        law_decimal_text_denotes_number(n / 10);
        lemma_digit_char_value(n % 10);
        let u = decimal_text(n / 10);
        assert(t.drop_last() =~= u);
        assert(t[0] == u[0]);
        assert forall|i: int| 0 <= i < t.len() implies is_decimal_digit(#[trigger] t[i]) by {
            if i < u.len() {
                assert(t[i] == u[i]);
            }
        }
        if n / 10 < 10 {
            lemma_digit_char_value(n / 10);
        }
        assert(t.last() == digit_char(n % 10));
        assert(digits_value(t) == 10 * digits_value(u) + (n % 10));
        assert(10 * (n / 10) + n % 10 == n);
    }
}

/// Different numbers have different decimal texts.
pub proof fn law_decimal_text_injective(a: nat, b: nat)
    ensures
        a != b ==> decimal_text(a) != decimal_text(b),
{
    law_decimal_text_denotes_number(a);
    law_decimal_text_denotes_number(b);
}

/// Digits with value zero in front do not change the value.
pub proof fn lemma_digits_value_zero_prefix(a: Seq<char>, x: Seq<char>)
    requires
        digits_value(a) == 0,
    ensures
        digits_value(a + x) == digits_value(x),
    decreases x.len(),
{
    if x.len() > 0 {
        assert((a + x).drop_last() =~= a + x.drop_last());
        lemma_digits_value_zero_prefix(a, x.drop_last());
    } else {
        assert(a + x =~= a);
    }
}

/// `remove_char` keeps exactly the characters other than `c`, in their order:
/// it is the filter of `s` by "is not `c`".
pub proof fn law_without_char_is_filter(s: Seq<char>, c: char)
    ensures
        without_char(s, c) == s.filter(|x: char| x != c),
    decreases s.len(),
{
    reveal(Seq::filter);
    if s.len() > 0 {
        law_without_char_is_filter(s.drop_last(), c);
    }
}

/// A text without `c` is left as it is by removing `c`.
pub proof fn law_without_char_keeps_other_text(s: Seq<char>, c: char)
    requires
        forall|i: int| 0 <= i < s.len() ==> s[i] != c,
    ensures
        without_char(s, c) == s,
    decreases s.len(),
{
    if s.len() > 0 {
        law_without_char_keeps_other_text(s.drop_last(), c);
        assert(s.drop_last().push(s.last()) =~= s);
    }
}

} // verus!
