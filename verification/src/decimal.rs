//! Decimal rule numbers ("1", "2.5", "4.10"), as `rust_decimal` reads and
//! prints them.
use vstd::prelude::*;
use crate::text::{decimal_text, decimal_chars, push_char, string_from_chars, all_digits,
    digits_value, is_decimal_digit, law_decimal_text_denotes_number, lemma_digits_value_zero_prefix};

verus! {

/// A decimal number as `rust_decimal::Decimal` holds it: a sign, an unsigned
/// mantissa and a scale (the number of digits after the point), so that its
/// value is `(-1)^negative * magnitude / 10^scale`.
#[derive(Clone, Copy, Debug, PartialEq, Eq, Structural)]
pub struct DecimalValue {
    pub negative: bool,
    pub magnitude: u128,
    pub scale: u32,
}

/// What `rust_decimal::Decimal::from_str` makes of a text: `None` where it
/// refuses the text, else the sign, the magnitude of the mantissa and the scale
/// of the parsed number.
pub uninterp spec fn decimal_from_str(text: Seq<char>) -> Option<(bool, u128, u32)>;

/// `Decimal::from_str`, taken apart into sign, magnitude and scale.
///
/// The contract claims only that the outcome is a function of the text
/// (named `decimal_from_str`); which texts the crate accepts and how it
/// rounds long fractions is left to `rust_decimal`.
#[verifier::external_body]
fn decimal_parts_from_str(text: &str) -> (r: Option<(bool, u128, u32)>)
    ensures
        r == decimal_from_str(text@),
{
    match text.parse::<rust_decimal::Decimal>() {
        Ok(d) => Some((d.is_sign_negative(), d.mantissa().unsigned_abs(), d.scale())),
        Err(_) => None,
    }
}

/// The decimal number that a text denotes, as `rust_decimal` parses it.
pub open spec fn spec_parse_decimal(text: Seq<char>) -> Option<DecimalValue> {
    match decimal_from_str(text) {
        Some((negative, magnitude, scale)) => Some(
            DecimalValue { negative, magnitude, scale },
        ),
        None => None,
    }
}

/// Parses a decimal number with `rust_decimal`.
pub fn parse_decimal(text: &str) -> (r: Option<DecimalValue>)
    ensures
        r == spec_parse_decimal(text@),
{
    match decimal_parts_from_str(text) {
        Some((negative, magnitude, scale)) => Some(DecimalValue { negative, magnitude, scale }),
        None => None,
    }
}

/// The digits of the mantissa: none for zero.
pub open spec fn magnitude_digits(m: nat) -> Seq<char> {
    if m == 0 {
        Seq::empty()
    } else {
        decimal_text(m)
    }
}

/// `digits` with zeros put in front until it is at least `width` long.
pub open spec fn zero_padded(digits: Seq<char>, width: nat) -> Seq<char> {
    if digits.len() < width {
        Seq::new((width - digits.len()) as nat, |i: int| '0') + digits
    } else {
        digits
    }
}

/// The text that `Display` gives a `Decimal`: the mantissa's digits with a
/// point put `scale` digits from the right ("0" before a point that would
/// lead), and a minus sign where the sign bit is set.
pub open spec fn decimal_display(d: DecimalValue) -> Seq<char> {
    let p = zero_padded(magnitude_digits(d.magnitude as nat), d.scale as nat);
    let whole_len = p.len() - d.scale;
    let body = if d.scale == 0 {
        if p.len() == 0 {
            seq!['0']
        } else {
            p
        }
    } else {
        (if whole_len == 0 {
            seq!['0']
        } else {
            p.take(whole_len)
        }) + seq!['.'] + p.skip(whole_len)
    };
    if d.negative {
        seq!['-'] + body
    } else {
        body
    }
}

/// Drops trailing fractional zeros: `(m, s)` becomes `(m / 10^k, s - k)` for
/// the largest such `k`.
pub open spec fn strip_trailing_zeros(m: nat, s: nat) -> (nat, nat)
    decreases s,
{
    if s > 0 && m % 10 == 0 {
        strip_trailing_zeros(m / 10, (s - 1) as nat)
    } else {
        (m, s)
    }
}

/// The canonical form of a decimal (`Decimal::normalize`): no trailing
/// fractional zeros, and zero without a sign. Two decimals have the same
/// canonical form exactly when they denote the same number.
pub open spec fn canonical(d: DecimalValue) -> DecimalValue {
    if d.magnitude == 0 {
        DecimalValue { negative: false, magnitude: 0, scale: 0 }
    } else {
        let (m, s) = strip_trailing_zeros(d.magnitude as nat, d.scale as nat);
        DecimalValue { negative: d.negative, magnitude: m as u128, scale: s as u32 }
    }
}

proof fn lemma_strip_bounds(m: nat, s: nat)
    ensures
        strip_trailing_zeros(m, s).0 <= m,
        strip_trailing_zeros(m, s).1 <= s,
    decreases s,
{
    if s > 0 && m % 10 == 0 {
        lemma_strip_bounds(m / 10, (s - 1) as nat);
    }
}

proof fn lemma_strip_fixed(m: nat, s: nat)
    requires
        m != 0,
    ensures
        strip_trailing_zeros(m, s).0 != 0,
        !(strip_trailing_zeros(m, s).1 > 0 && strip_trailing_zeros(m, s).0 % 10 == 0),
    decreases s,
{
    if s > 0 && m % 10 == 0 {
        lemma_strip_fixed(m / 10, (s - 1) as nat);
    }
}

/// Putting a decimal in canonical form twice changes nothing more.
pub proof fn lemma_canonical_idempotent(d: DecimalValue)
    ensures
        canonical(canonical(d)) == canonical(d),
{
    if d.magnitude != 0 {
        lemma_strip_bounds(d.magnitude as nat, d.scale as nat);
        lemma_strip_fixed(d.magnitude as nat, d.scale as nat);
    }
}

/// `10^n`.
pub open spec fn pow10(n: nat) -> nat
    decreases n,
{
    if n == 0 {
        1
    } else {
        10 * pow10((n - 1) as nat)
    }
}

/// The mantissa with its sign.
pub open spec fn signed_mantissa(d: DecimalValue) -> int {
    if d.negative {
        -(d.magnitude as int)
    } else {
        d.magnitude as int
    }
}

/// Whether two decimals denote the same number:
/// `m_a / 10^s_a == m_b / 10^s_b`.
pub open spec fn same_number(a: DecimalValue, b: DecimalValue) -> bool {
    signed_mantissa(a) * pow10(b.scale as nat) == signed_mantissa(b) * pow10(a.scale as nat)
}

proof fn lemma_pow10_positive(n: nat)
    ensures
        pow10(n) > 0,
    decreases n,
{
    if n > 0 {
        lemma_pow10_positive((n - 1) as nat);
    }
}

proof fn lemma_pow10_add(x: nat, y: nat)
    ensures
        pow10(x + y) == pow10(x) * pow10(y),
    decreases x,
{
    if x == 0 {
        assert(pow10(0) == 1);
        assert(x + y == y);
    } else {
        let x1 = (x - 1) as nat;
        lemma_pow10_add(x1, y);
        let a = pow10(x1) as int;
        let b = pow10(y) as int;
        assert(pow10(x1 + y) == a * b);
        assert(x + y == (x1 + y) + 1);
        assert(pow10(x + y) == 10 * pow10(x1 + y));
        assert(pow10(x) == 10 * a);
        assert(10 * (a * b) == (10 * a) * b) by (nonlinear_arith);
    }
}

proof fn lemma_strip_decomposes(m: nat, s: nat)
    ensures
        strip_trailing_zeros(m, s).1 <= s,
        m == strip_trailing_zeros(m, s).0 * pow10((s - strip_trailing_zeros(m, s).1) as nat),
    decreases s,
{
    if s > 0 && m % 10 == 0 {
        let (m2, s2) = strip_trailing_zeros(m / 10, (s - 1) as nat);
        lemma_strip_decomposes(m / 10, (s - 1) as nat);
        let k = (s - 1 - s2) as nat;
        assert(strip_trailing_zeros(m, s) == (m2, s2));
        let p = pow10(k) as int;
        let q = m / 10;
        assert(q == m2 * p);
        assert((s - s2) as nat == k + 1);
        assert(pow10(k + 1) == 10 * p);
        assert(m == 10 * q) by {
            vstd::arithmetic::div_mod::lemma_fundamental_div_mod(m as int, 10);
        }
        assert(10 * (m2 * p) == m2 * (10 * p)) by (nonlinear_arith);
        assert(m == m2 * pow10((s - s2) as nat));
    } else {
        assert(strip_trailing_zeros(m, s) == (m, s));
        assert(pow10(0) == 1);
        assert(m == m * 1);
        assert(m == m * pow10((s - s) as nat));
    }
}

/// A decimal's magnitude is its canonical magnitude times a power of ten, and
/// a nonzero canonical form has no trailing zero.
proof fn lemma_canonical_parts(d: DecimalValue)
    requires
        d.magnitude != 0,
    ensures
        canonical(d).magnitude != 0,
        canonical(d).negative == d.negative,
        canonical(d).scale <= d.scale,
        d.magnitude == canonical(d).magnitude * pow10((d.scale - canonical(d).scale) as nat),
        canonical(d).scale > 0 ==> canonical(d).magnitude % 10 != 0,
{
    lemma_strip_bounds(d.magnitude as nat, d.scale as nat);
    lemma_strip_fixed(d.magnitude as nat, d.scale as nat);
    lemma_strip_decomposes(d.magnitude as nat, d.scale as nat);
}

proof fn lemma_same_number_of_canonical(a: DecimalValue, b: DecimalValue)
    requires
        a.magnitude != 0,
        b.magnitude != 0,
        canonical(a) == canonical(b),
    ensures
        same_number(a, b),
{
    lemma_canonical_parts(a);
    lemma_canonical_parts(b);
    let m = canonical(a).magnitude as int;
    let c = canonical(a).scale as nat;
    let ka = (a.scale - c) as nat;
    let kb = (b.scale - c) as nat;
    lemma_pow10_add(ka, b.scale as nat);
    lemma_pow10_add(kb, a.scale as nat);
    assert(ka + b.scale == kb + a.scale);
    let pa = pow10(ka) as int;
    let pb = pow10(kb) as int;
    let qa = pow10(a.scale as nat) as int;
    let qb = pow10(b.scale as nat) as int;
    assert((m * pa) * qb == m * (pa * qb)) by (nonlinear_arith);
    assert((m * pb) * qa == m * (pb * qa)) by (nonlinear_arith);
    assert((-(m * pa)) * qb == -((m * pa) * qb)) by (nonlinear_arith);
    assert((-(m * pb)) * qa == -((m * pb) * qa)) by (nonlinear_arith);
}

proof fn lemma_canonical_of_same_number(a: DecimalValue, b: DecimalValue)
    requires
        a.magnitude != 0,
        b.magnitude != 0,
        same_number(a, b),
        canonical(a).scale <= canonical(b).scale,
    ensures
        canonical(a) == canonical(b),
{
    lemma_canonical_parts(a);
    lemma_canonical_parts(b);
    let ma = canonical(a).magnitude as int;
    let mb = canonical(b).magnitude as int;
    let ca = canonical(a).scale as nat;
    let cb = canonical(b).scale as nat;
    let ka = (a.scale - ca) as nat;
    let kb = (b.scale - cb) as nat;
    let qa = pow10(a.scale as nat) as int;
    let qb = pow10(b.scale as nat) as int;
    lemma_pow10_positive(a.scale as nat);
    lemma_pow10_positive(b.scale as nat);
    lemma_pow10_positive(ka);
    lemma_pow10_positive(kb);
    let xa = a.magnitude as int;
    let xb = b.magnitude as int;
    assert(xa * qb > 0) by (nonlinear_arith)
        requires
            xa > 0,
            qb > 0,
    ;
    assert(xb * qa > 0) by (nonlinear_arith)
        requires
            xb > 0,
            qa > 0,
    ;
    // the signs agree
    assert(a.negative == b.negative) by {
        if a.negative != b.negative {
            assert((-xa) * qb == -(xa * qb)) by (nonlinear_arith);
            assert((-xb) * qa == -(xb * qa)) by (nonlinear_arith);
        }
    }
    // so do the magnitudes scaled to a common exponent
    assert(xa * qb == xb * qa) by {
        if a.negative {
            assert((-xa) * qb == -(xa * qb)) by (nonlinear_arith);
            assert((-xb) * qa == -(xb * qa)) by (nonlinear_arith);
        }
    }
    // write both sides as a canonical magnitude times one power of ten
    let t = (a.scale + b.scale - cb) as nat;
    let d = (cb - ca) as nat;
    lemma_pow10_add(ka, b.scale as nat);
    lemma_pow10_add(kb, a.scale as nat);
    lemma_pow10_add(d, t);
    assert(ka + b.scale == d + t);
    assert(kb + a.scale == t);
    let pt = pow10(t) as int;
    let pd = pow10(d) as int;
    lemma_pow10_positive(t);
    assert(xa * qb == ma * (pow10(ka) * qb)) by (nonlinear_arith)
        requires
            xa == ma * pow10(ka),
    ;
    assert(xb * qa == mb * (pow10(kb) * qa)) by (nonlinear_arith)
        requires
            xb == mb * pow10(kb),
    ;
    assert((ma * pd) * pt == mb * pt) by (nonlinear_arith)
        requires
            ma * (pd * pt) == mb * pt,
    ;
    vstd::arithmetic::mul::lemma_mul_equality_converse(pt, ma * pd, mb);
    assert(ma * pd == mb) by (nonlinear_arith)
        requires
            pt * (ma * pd) == pt * mb,
            pt != 0,
    ;
    if d > 0 {
        assert(pd == 10 * pow10((d - 1) as nat));
        assert(mb == 10 * (ma * pow10((d - 1) as nat))) by (nonlinear_arith)
            requires
                mb == ma * pd,
                pd == 10 * pow10((d - 1) as nat),
        ;
        vstd::arithmetic::div_mod::lemma_mod_multiples_basic(ma * pow10((d - 1) as nat), 10);
        assert(false);
    }
    assert(pd == 1);
    assert(ma == mb);
    assert(ca == cb);
    assert(canonical(a).magnitude == canonical(b).magnitude);
    assert(canonical(a).scale == canonical(b).scale);
}

/// Two decimals have the same canonical form exactly when they denote the
/// same number; rules are looked up by canonical form, so they are looked up
/// by number ("4.10" finds rule 4.1, "-0" finds rule 0).
pub proof fn law_canonical_is_numeric_equality(a: DecimalValue, b: DecimalValue)
    ensures
        canonical(a) == canonical(b) <==> same_number(a, b),
{
    lemma_pow10_positive(a.scale as nat);
    lemma_pow10_positive(b.scale as nat);
    let qa = pow10(a.scale as nat) as int;
    let qb = pow10(b.scale as nat) as int;
    if a.magnitude == 0 || b.magnitude == 0 {
        if a.magnitude != 0 {
            lemma_canonical_parts(a);
            let xa = a.magnitude as int;
            assert(xa * qb != 0) by (nonlinear_arith)
                requires
                    xa > 0,
                    qb > 0,
            ;
            assert((-xa) * qb == -(xa * qb)) by (nonlinear_arith);
        } else if b.magnitude != 0 {
            lemma_canonical_parts(b);
            let xb = b.magnitude as int;
            assert(xb * qa != 0) by (nonlinear_arith)
                requires
                    xb > 0,
                    qa > 0,
            ;
            assert((-xb) * qa == -(xb * qa)) by (nonlinear_arith);
        }
    } else {
        if canonical(a) == canonical(b) {
            lemma_same_number_of_canonical(a, b);
        }
        if same_number(a, b) {
            if canonical(a).scale <= canonical(b).scale {
                lemma_canonical_of_same_number(a, b);
            } else {
                lemma_canonical_of_same_number(b, a);
            }
        }
    }
}

impl DecimalValue {
    /// The canonical form of this decimal.
    pub fn normalize(&self) -> (r: DecimalValue)
        ensures
            r == canonical(*self),
    {
        if self.magnitude == 0 {
            return DecimalValue { negative: false, magnitude: 0, scale: 0 };
        }
        let mut m = self.magnitude;
        let mut s = self.scale;
        while s > 0 && m % 10 == 0
            invariant
                strip_trailing_zeros(m as nat, s as nat) == strip_trailing_zeros(
                    self.magnitude as nat,
                    self.scale as nat,
                ),
            decreases s,
        {
            m = m / 10;
            s = s - 1;
        }
        DecimalValue { negative: self.negative, magnitude: m, scale: s }
    }

    /// The text that `Display` prints for this decimal.
    pub fn to_text(&self) -> (r: String)
        ensures
            r@ == decimal_display(*self),
    {
        let digits: Vec<char> = if self.magnitude == 0 {
            Vec::new()
        } else {
            decimal_chars(self.magnitude)
        };
        assert(digits@ == magnitude_digits(self.magnitude as nat));
        let scale = self.scale as usize;
        let mut p: Vec<char> = Vec::new();
        if digits.len() < scale {
            let pad = scale - digits.len();
            let mut i: usize = 0;
            while i < pad
                invariant
                    i <= pad,
                    p@ == Seq::new(i as nat, |k: int| '0'),
                decreases pad - i,
            {
                p.push('0');
                assert(p@ =~= Seq::new((i + 1) as nat, |k: int| '0'));
                i = i + 1;
            }
        }
        let mut rest = digits.clone();
        p.append(&mut rest);
        assert(p@ =~= zero_padded(magnitude_digits(self.magnitude as nat), self.scale as nat));
        let whole_len = p.len() - scale;
        let mut out: Vec<char> = Vec::new();
        if self.negative {
            out.push('-');
        }
        let ghost start = out@;
        if scale == 0 {
            if p.len() == 0 {
                out.push('0');
            } else {
                let mut q = p.clone();
                out.append(&mut q);
            }
        } else {
            if whole_len == 0 {
                out.push('0');
            } else {
                let mut i: usize = 0;
                while i < whole_len
                    invariant
                        i <= whole_len <= p.len(),
                        out@ == start + p@.take(i as int),
                    decreases whole_len - i,
                {
                    out.push(p[i]);
                    assert(p@.take(i + 1) =~= p@.take(i as int).push(p@[i as int]));
                    i = i + 1;
                }
            }
            let ghost before_point = out@;
            out.push('.');
            let mut j: usize = whole_len;
            while j < p.len()
                invariant
                    whole_len <= j <= p.len(),
                    out@ == before_point.push('.') + p@.subrange(whole_len as int, j as int),
                decreases p.len() - j,
            {
                out.push(p[j]);
                assert(p@.subrange(whole_len as int, j + 1) =~= p@.subrange(
                    whole_len as int,
                    j as int,
                ).push(p@[j as int]));
                j = j + 1;
            }
            assert(p@.skip(whole_len as int) =~= p@.subrange(whole_len as int, p@.len() as int));
        }
        assert(out@ =~= decimal_display(*self));
        string_from_chars(&out)
    }
}

proof fn lemma_zeros_value(z: nat)
    ensures
        all_digits(Seq::new(z, |i: int| '0')),
        digits_value(Seq::new(z, |i: int| '0')) == 0,
    decreases z,
{
    if z > 0 {
        lemma_zeros_value((z - 1) as nat);
        assert(Seq::new(z, |i: int| '0').drop_last() =~= Seq::new((z - 1) as nat, |i: int| '0'));
        assert('0' as int == 48);
    }
}

proof fn lemma_padded_digits(d: DecimalValue)
    ensures
        all_digits(zero_padded(magnitude_digits(d.magnitude as nat), d.scale as nat)),
        digits_value(zero_padded(magnitude_digits(d.magnitude as nat), d.scale as nat)) == d.magnitude,
        zero_padded(magnitude_digits(d.magnitude as nat), d.scale as nat).len() >= d.scale,
        d.magnitude != 0 ==> zero_padded(magnitude_digits(d.magnitude as nat), d.scale as nat).len() > 0,
{
    let digits = magnitude_digits(d.magnitude as nat);
    if d.magnitude != 0 {
        law_decimal_text_denotes_number(d.magnitude as nat);
    } else {
        assert(digits_value(digits) == 0);
    }
    if digits.len() < d.scale {
        let z = Seq::new((d.scale - digits.len()) as nat, |i: int| '0');
        lemma_zeros_value((d.scale - digits.len()) as nat);
        lemma_digits_value_zero_prefix(z, digits);
        let p = z + digits;
        assert forall|i: int| 0 <= i < p.len() implies is_decimal_digit(#[trigger] p[i]) by {
            if i < z.len() {
                assert(p[i] == z[i]);
            } else {
                assert(p[i] == digits[i - z.len()]);
            }
        }
    }
}

/// The text printed for a decimal denotes its value: a minus sign exactly
/// where the sign is set, then decimal digits, with a point standing `scale`
/// digits from the right where the scale is not zero and at least one digit
/// before it; the digits, read without the point, denote the magnitude.
pub proof fn law_decimal_display_denotes_value(d: DecimalValue)
    ensures
        ({
            let t = decimal_display(d);
            let b = if d.negative { t.drop_first() } else { t };
            &&& d.negative ==> t.len() > 0 && t[0] == '-'
            &&& b.len() > 0
            &&& d.scale == 0 ==> all_digits(b) && digits_value(b) == d.magnitude
            &&& d.scale > 0 ==> {
                let k = b.len() - d.scale - 1;
                &&& k >= 1
                &&& b[k] == '.'
                &&& all_digits(b.take(k))
                &&& all_digits(b.skip(k + 1))
                &&& digits_value(b.take(k) + b.skip(k + 1)) == d.magnitude
            }
        }),
{
    lemma_padded_digits(d);
    let p = zero_padded(magnitude_digits(d.magnitude as nat), d.scale as nat);
    let t = decimal_display(d);
    let whole_len = p.len() - d.scale;
    let body = if d.scale == 0 {
        if p.len() == 0 {
            seq!['0']
        } else {
            p
        }
    } else {
        (if whole_len == 0 {
            seq!['0']
        } else {
            p.take(whole_len)
        }) + seq!['.'] + p.skip(whole_len)
    };
    if d.negative {
        assert(t.drop_first() =~= body);
    }
    let b = if d.negative { t.drop_first() } else { t };
    assert(b == body);
    if d.scale == 0 {
        if p.len() == 0 {
            assert(d.magnitude == 0);
            assert(body.drop_last() =~= Seq::<char>::empty());
            assert('0' as int == 48);
        }
    } else {
        let w = if whole_len == 0 {
            seq!['0']
        } else {
            p.take(whole_len)
        };
        let f = p.skip(whole_len);
        let k = b.len() - d.scale - 1;
        assert(k == w.len());
        assert(b.take(k) =~= w);
        assert(b.skip(k + 1) =~= f);
        assert(b[k] == '.');
        assert forall|i: int| 0 <= i < w.len() implies is_decimal_digit(#[trigger] w[i]) by {
            if whole_len > 0 {
                assert(w[i] == p[i]);
            }
        }
        assert forall|i: int| 0 <= i < f.len() implies is_decimal_digit(#[trigger] f[i]) by {
            assert(f[i] == p[i + whole_len]);
        }
        if whole_len > 0 {
            assert(w + f =~= p);
        } else {
            assert(f =~= p);
            assert(w.drop_last() =~= Seq::<char>::empty());
            assert(digits_value(w.drop_last()) == 0);
            assert(w.last() == '0');
            assert(digits_value(w) == 0);
            lemma_digits_value_zero_prefix(w, p);
        }
    }
}

} // verus!
