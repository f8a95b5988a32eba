//! Decimal numerals: unsigned integers, float literals and exact
//! fixed-point scaling with rounding half to even.

use vstd::prelude::*;
use crate::text::first_index;

verus! {

pub open spec fn is_digit(c: char) -> bool {
    '0' <= c && c <= '9'
}

/// Whether every character of `s` is an ASCII digit.
pub open spec fn all_digits(s: Seq<char>) -> bool {
    forall|i: int| 0 <= i < s.len() ==> is_digit(#[trigger] s[i])
}

pub open spec fn digit_value(c: char) -> nat {
    ((c as u32) - ('0' as u32)) as nat
}

/// The number written by the decimal digits `s` (0 for no digits).
pub open spec fn digits_value(s: Seq<char>) -> nat
    decreases s.len(),
{
    if s.len() == 0 {
        0
    } else {
        digits_value(s.drop_last()) * 10 + digit_value(s.last())
    }
}

pub open spec fn pow10(n: nat) -> nat
    decreases n,
{
    if n == 0 {
        1
    } else {
        10 * pow10((n - 1) as nat)
    }
}

/// `n / d` rounded to the nearest integer, halves going to the even one.
pub open spec fn round_half_even(n: nat, d: nat) -> nat {
    let q = n / d;
    let r = n % d;
    if 2 * r < d {
        q
    } else if 2 * r > d {
        q + 1
    } else if q % 2 == 0 {
        q
    } else {
        q + 1
    }
}

pub proof fn lemma_pow10_positive(n: nat)
    ensures
        pow10(n) >= 1,
    decreases n,
{
    if n > 0 {
        lemma_pow10_positive((n - 1) as nat);
    }
}

pub proof fn lemma_pow10_add(a: nat, b: nat)
    ensures
        pow10(a + b) == pow10(a) * pow10(b),
    decreases b,
{
    if b > 0 {
        let b1 = (b - 1) as nat;
        lemma_pow10_add(a, b1);
        let pa = pow10(a) as int;
        let pb1 = pow10(b1) as int;
        assert(pow10(a + b1) == pa * pb1);
        assert(a + b1 + 1 == a + b);
        assert(pow10(a + b) == 10 * pow10(a + b1));
        assert(pow10(b) == 10 * pb1);
        assert(10 * (pa * pb1) == pa * (10 * pb1)) by (nonlinear_arith);
    } else {
        assert(pow10(0) == 1);
        assert(a + b == a);
        assert(pow10(a) * 1 == pow10(a));
    }
}

proof fn lemma_nl_shift(x: int, p: int, y: int, d: int)
    ensures
        (x * p + y) * 10 + d == x * (10 * p) + (y * 10 + d),
{
    assert((x * p + y) * 10 == x * (10 * p) + y * 10) by (nonlinear_arith);
}

/// The value of concatenated digit strings.
pub proof fn lemma_digits_concat(a: Seq<char>, b: Seq<char>)
    ensures
        digits_value(a + b) == digits_value(a) * pow10(b.len()) + digits_value(b),
    decreases b.len(),
{
    if b.len() == 0 {
        assert(a + b =~= a);
        assert(pow10(0) == 1);
        assert(digits_value(b) == 0);
        assert(digits_value(a) * 1 == digits_value(a));
    } else {
        let b1 = b.drop_last();
        lemma_digits_concat(a, b1);
        assert((a + b).drop_last() =~= a + b1);
        assert((a + b).last() == b.last());
        let x = digits_value(a) as int;
        let p1 = pow10(b1.len()) as int;
        let y = digits_value(b1) as int;
        let d = digit_value(b.last()) as int;
        assert(digits_value(a + b1) == x * p1 + y);
        assert(digits_value(a + b) == digits_value(a + b1) * 10 + d);
        assert(digits_value(b) == y * 10 + d);
        assert(pow10(b.len()) == 10 * p1);
        lemma_nl_shift(x, p1, y, d);
        assert(digits_value(a + b) == x * (10 * p1) + (y * 10 + d));
        assert(digits_value(a) * pow10(b.len()) == x * (10 * p1));
    }
}

proof fn lemma_digits_bound(s: Seq<char>)
    requires
        all_digits(s),
    ensures
        digits_value(s) < pow10(s.len()),
    decreases s.len(),
{
    if s.len() > 0 {
        lemma_digits_bound(s.drop_last());
        assert(is_digit(s[s.len() - 1]));
        assert(digit_value(s.last()) <= 9);
        let p = pow10((s.len() - 1) as nat);
        assert(digits_value(s.drop_last()) + 1 <= p);
        assert(digits_value(s.drop_last()) * 10 + 10 <= 10 * p) by (nonlinear_arith)
            requires
                digits_value(s.drop_last()) + 1 <= p,
        ;
    }
}

proof fn lemma_zeros_value(z: Seq<char>)
    requires
        forall|i: int| 0 <= i < z.len() ==> z[i] == '0',
    ensures
        digits_value(z) == 0,
    decreases z.len(),
{
    if z.len() > 0 {
        lemma_zeros_value(z.drop_last());
    }
}

/// The value of `s`, or `None` when it exceeds `u64::MAX`.
pub fn digits_to_u64(s: &[char]) -> (r: Option<u64>)
    requires
        all_digits(s@),
    ensures
        match r {
            Some(v) => v == digits_value(s@),
            None => digits_value(s@) > u64::MAX,
        },
{
    let mut acc: u64 = 0;
    let mut i: usize = 0;
    while i < s.len()
        invariant
            i <= s@.len(),
            all_digits(s@),
            acc == digits_value(s@.take(i as int)),
        decreases s@.len() - i,
    {
        assert(s@.take(i + 1).drop_last() =~= s@.take(i as int));
        assert(is_digit(s@[i as int]));
        let d = (s[i] as u32 - '0' as u32) as u64;
        assert(d == digit_value(s@[i as int]));
        let next = match acc.checked_mul(10) {
            Some(x) => x.checked_add(d),
            None => None,
        };
        match next {
            Some(v) => {
                acc = v;
            },
            None => {
                proof {
                    let pre = s@.take(i + 1);
                    let rest = s@.skip(i + 1);
                    assert(pre + rest =~= s@);
                    lemma_digits_concat(pre, rest);
                    lemma_pow10_positive(rest.len());
                    assert(digits_value(pre) * pow10(rest.len()) >= digits_value(pre))
                        by (nonlinear_arith)
                        requires
                            pow10(rest.len()) >= 1,
                    ;
                }
                return None;
            },
        }
        i += 1;
    }
    assert(s@.take(i as int) =~= s@);
    Some(acc)
}

/// `c * digits_value(g)` divided by `10^|g|`: the quotient and whether
/// the division is exact.
fn scaled_fraction(g: &[char], c: u64) -> (r: (u64, bool))
    requires
        all_digits(g@),
        1 <= c <= 120,
    ensures
        r.0 as int == (c * digits_value(g@)) / (pow10(g@.len()) as int),
        r.1 == ((c * digits_value(g@)) % (pow10(g@.len()) as int) == 0),
{
    let n = g.len();
    let mut carry: u64 = 0;
    let mut zero = true;
    let mut j: usize = n;
    let ghost mut low: int = 0;
    assert(g@.skip(n as int) =~= Seq::<char>::empty());
    assert(digits_value(g@.skip(n as int)) == 0);
    assert(pow10(0) == 1);
    while j > 0
        invariant
            n == g@.len(),
            j <= n,
            all_digits(g@),
            1 <= c <= 120,
            carry < c,
            0 <= low < pow10((n - j) as nat),
            zero == (low == 0),
            c * digits_value(g@.skip(j as int)) == carry * pow10((n - j) as nat) + low,
        decreases j,
    {
        let ghost old_low = low;
        let ghost old_carry = carry;
        let ghost p = pow10((n - j) as nat);
        assert(is_digit(g@[j - 1]));
        let d = (g[j - 1] as u32 - '0' as u32) as u64;
        assert(d == digit_value(g@[j - 1]));
        assert(d <= 9);
        assert(c * d <= 1080) by (nonlinear_arith)
            requires
                c <= 120,
                d <= 9,
        ;
        let t = c * d + carry;
        let o = t % 10;
        carry = t / 10;
        if o != 0 {
            zero = false;
        }
        proof {
            let tail = g@.skip(j as int);
            assert(g@.skip(j - 1) =~= seq![g@[j - 1]] + tail);
            lemma_digits_concat(seq![g@[j - 1]], tail);
            assert(seq![g@[j - 1]].drop_last() =~= Seq::<char>::empty());
            assert(digits_value(Seq::<char>::empty()) == 0);
            assert(seq![g@[j - 1]].last() == g@[j - 1]);
            assert(digits_value(seq![g@[j - 1]]) == d);
            assert(pow10((n - j + 1) as nat) == 10 * p);
            low = o * p + old_low;
            assert(c * (d * p + digits_value(tail)) == (c * d + old_carry) * p + old_low)
                by (nonlinear_arith)
                requires
                    c * digits_value(tail) == old_carry * p + old_low,
            ;
            assert((c * d + old_carry) * p == (carry * 10 + o) * p);
            assert((carry * 10 + o) * p + old_low == carry * (10 * p) + (o * p + old_low))
                by (nonlinear_arith);
            assert(o * p + old_low < 10 * p) by (nonlinear_arith)
                requires
                    o <= 9,
                    old_low < p,
            ;
            assert(o * p >= 0) by (nonlinear_arith)
                requires
                    o >= 0,
                    p >= 0,
            ;
            if o == 0 {
                assert(o * p == 0) by (nonlinear_arith)
                    requires
                        o == 0,
                ;
            }
            if o != 0 {
                lemma_pow10_positive((n - j) as nat);
                assert(o * p >= p) by (nonlinear_arith)
                    requires
                        o >= 1,
                        p >= 1,
                ;
            }
            vstd::arithmetic::div_mod::lemma_fundamental_div_mod(t as int, 10);
            assert(c * d <= c * 9) by (nonlinear_arith)
                requires
                    d <= 9,
                    c >= 0,
            ;
            assert(carry * 10 <= c * 9 + old_carry);
            assert(carry < c);
        }
        j -= 1;
    }
    proof {
        assert(g@.skip(0) =~= g@);
        lemma_pow10_positive(n as nat);
        vstd::arithmetic::div_mod::lemma_fundamental_div_mod_converse(
            (c * digits_value(g@)) as int,
            pow10(n as nat) as int,
            carry as int,
            low as int,
        );
    }
    (carry, zero)
}

/// Rounding `base * p + y` over `p` is `base` plus the rounding of `y`
/// over `p`, read off `2 * y` divided by `p`.
proof fn lemma_round_split(base: int, y: int, p: int, b: int, e: int)
    requires
        base >= 0,
        y >= 0,
        p >= 1,
        b == (2 * y) / p,
        e == (2 * y) % p,
    ensures
        round_half_even((base * p + y) as nat, p as nat) == base + b / 2 + if b % 2 == 1 && (e != 0
            || (base + b / 2) % 2 == 1) {
            1int
        } else {
            0int
        },
{
    let q0 = y / p;
    let r0 = y % p;
    vstd::arithmetic::div_mod::lemma_fundamental_div_mod(y, p);
    assert(y == q0 * p + r0) by (nonlinear_arith)
        requires
            y == p * (y / p) + (y % p),
            q0 == y / p,
            r0 == y % p,
    ;
    assert(q0 >= 0) by (nonlinear_arith)
        requires
            y >= 0,
            p >= 1,
            q0 == y / p,
    ;
    assert(base * p + y == (base + q0) * p + r0) by (nonlinear_arith)
        requires
            y == q0 * p + r0,
    ;
    assert(base * p + y >= 0) by (nonlinear_arith)
        requires
            base >= 0,
            p >= 1,
            y >= 0,
    ;
    vstd::arithmetic::div_mod::lemma_fundamental_div_mod_converse(
        base * p + y,
        p,
        base + q0,
        r0,
    );
    if 2 * r0 < p {
        assert(2 * y == (2 * q0) * p + 2 * r0) by (nonlinear_arith)
            requires
                y == q0 * p + r0,
        ;
        vstd::arithmetic::div_mod::lemma_fundamental_div_mod_converse(2 * y, p, 2 * q0, 2 * r0);
    } else {
        assert(2 * y == (2 * q0 + 1) * p + (2 * r0 - p)) by (nonlinear_arith)
            requires
                y == q0 * p + r0,
        ;
        vstd::arithmetic::div_mod::lemma_fundamental_div_mod_converse(
            2 * y,
            p,
            2 * q0 + 1,
            2 * r0 - p,
        );
    }
}

/// `round_half_even(n * c, d * c) == round_half_even(n, d)`.
proof fn lemma_round_scale(n: nat, d: nat, c: nat)
    requires
        d >= 1,
        c >= 1,
    ensures
        round_half_even(n * c, d * c) == round_half_even(n, d),
{
    let q = n / d;
    let r = n % d;
    vstd::arithmetic::div_mod::lemma_fundamental_div_mod(n as int, d as int);
    assert(n * c == q * (d * c) + r * c) by (nonlinear_arith)
        requires
            n == d * q + r,
    ;
    assert(r * c < d * c) by (nonlinear_arith)
        requires
            r < d,
            c >= 1,
    ;
    assert(r * c >= 0) by (nonlinear_arith)
        requires
            r >= 0,
            c >= 1,
    ;
    assert(d * c >= 1) by (nonlinear_arith)
        requires
            d >= 1,
            c >= 1,
    ;
    vstd::arithmetic::div_mod::lemma_fundamental_div_mod_converse(
        (n * c) as int,
        (d * c) as int,
        q as int,
        (r * c) as int,
    );
    assert((2 * (r * c) < d * c) == (2 * r < d)) by (nonlinear_arith)
        requires
            c >= 1,
    ;
    assert((2 * (r * c) > d * c) == (2 * r > d)) by (nonlinear_arith)
        requires
            c >= 1,
    ;
}

/// The exact value `digits_value(ip ++ fp) / 10^|fp|`, times `k * 10^m`,
/// rounded half to even, when that fits in a `u64`.
pub open spec fn scaled_rounded(ip: Seq<char>, fp: Seq<char>, k: nat, m: nat) -> Option<u64> {
    let ns = round_half_even(digits_value(ip + fp) * k * pow10(m), pow10(fp.len()));
    if ns <= u64::MAX {
        Some(ns as u64)
    } else {
        None
    }
}

/// Scales the decimal `ip.fp` by `k * 10^m` and rounds half to even.
pub fn scale_decimal(ip: &[char], fp: &[char], k: u64, m: usize) -> (r: Option<u64>)
    requires
        all_digits(ip@),
        all_digits(fp@),
        1 <= k <= 60,
        m <= 9,
    ensures
        r == scaled_rounded(ip@, fp@, k as nat, m as nat),
{
    let ghost n = digits_value(ip@ + fp@);
    let ghost big = pow10(fp@.len());
    let mut all: Vec<char> = Vec::new();
    let mut i: usize = 0;
    while i < ip.len()
        invariant
            i <= ip@.len(),
            all@ == ip@.take(i as int),
        decreases ip@.len() - i,
    {
        all.push(ip[i]);
        i += 1;
        assert(all@ =~= ip@.take(i as int));
    }
    let mut i: usize = 0;
    while i < fp.len()
        invariant
            i <= fp@.len(),
            all@ == ip@ + fp@.take(i as int),
        decreases fp@.len() - i,
    {
        all.push(fp[i]);
        i += 1;
        assert(all@ =~= ip@ + fp@.take(i as int));
    }
    assert(fp@.take(fp@.len() as int) =~= fp@);
    assert(all@ == ip@ + fp@);
    assert(all@.len() == ip@.len() + fp@.len());
    assert forall|t: int| 0 <= t < all@.len() implies is_digit(#[trigger] all@[t]) by {
        if t < ip@.len() {
            assert(all@[t] == ip@[t]);
        } else {
            assert(all@[t] == fp@[t - ip@.len()]);
        }
    }
    proof {
        lemma_pow10_positive(fp@.len());
        lemma_pow10_positive(m as nat);
    }
    if fp.len() <= m {
        let pad = m - fp.len();
        let ghost whole = all@;
        let mut z: usize = 0;
        while z < pad
            invariant
                z <= pad,
                all@.len() == whole.len() + z,
                all@.take(whole.len() as int) == whole,
                forall|t: int| whole.len() <= t < all@.len() ==> all@[t] == '0',
                all_digits(whole),
            decreases pad - z,
        {
            all.push('0');
            z += 1;
        }
        assert forall|t: int| 0 <= t < all@.len() implies is_digit(#[trigger] all@[t]) by {
            if t < whole.len() {
                assert(all@[t] == all@.take(whole.len() as int)[t]);
            }
        }
        let ghost zeros = all@.skip(whole.len() as int);
        proof {
            assert(whole + zeros =~= all@);
            lemma_digits_concat(whole, zeros);
            lemma_zeros_value(zeros);
            lemma_pow10_add(pad as nat, fp@.len());
            assert(pad + fp@.len() == m);
            lemma_pow10_positive(pad as nat);
            // n * k * 10^m == (n * 10^pad * k) * 10^|fp|
            assert(n * k * pow10(m as nat) == (n * pow10(pad as nat) * k) * big) by (nonlinear_arith)
                requires
                    pow10(m as nat) == pow10(pad as nat) * big,
            ;
            vstd::arithmetic::div_mod::lemma_fundamental_div_mod_converse(
                ((n * pow10(pad as nat) * k) * big) as int,
                big as int,
                (n * pow10(pad as nat) * k) as int,
                0,
            );
        }
        match digits_to_u64(all.as_slice()) {
            None => {
                proof {
                    assert(digits_value(all@) * k >= digits_value(all@)) by (nonlinear_arith)
                        requires
                            k >= 1,
                    ;
                }
                None
            },
            Some(jv) => {
                let r = jv.checked_mul(k);
                proof {
                    assert(digits_value(all@) == n * pow10(pad as nat));
                    assert(n * pow10(pad as nat) * k == jv * k);
                }
                r
            },
        }
    } else {
        let total = all.len();
        assert(ip.len() + m < total);
        let cut = ip.len() + m;
        let ghost j_digits = all@.take(cut as int);
        let ghost g_digits = all@.skip(cut as int);
        let jv_slice = crate::text::slice_chars(all.as_slice(), 0, cut);
        let g = crate::text::slice_chars(all.as_slice(), cut, all.len());
        assert(jv_slice@ =~= j_digits);
        assert(g@ =~= g_digits);
        assert(all_digits(j_digits));
        assert(all_digits(g_digits));
        let ghost gl = g_digits.len();
        let ghost p: int = pow10(gl) as int;
        let ghost jd: int = digits_value(j_digits) as int;
        let ghost y: int = k * digits_value(g_digits);
        let ghost b0: int = (2 * y) / p;
        let ghost e0: int = (2 * y) % p;
        proof {
            assert(j_digits + g_digits =~= all@);
            lemma_digits_concat(j_digits, g_digits);
            lemma_pow10_add(gl, m as nat);
            assert(gl + m == fp@.len());
            lemma_pow10_positive(gl);
            assert(big == pow10(gl) * pow10(m as nat));
            lemma_round_scale((n * k) as nat, pow10(gl), pow10(m as nat));
            assert(n * k * pow10(m as nat) == (n * k) * pow10(m as nat));
            assert(n * k == (jd * k) * p + y) by (nonlinear_arith)
                requires
                    n == jd * p + digits_value(g_digits),
                    y == k * digits_value(g_digits),
            ;
            assert(jd * k >= jd) by (nonlinear_arith)
                requires
                    k >= 1,
                    jd >= 0,
            ;
            assert(y >= 0) by (nonlinear_arith)
                requires
                    y == k * digits_value(g_digits),
                    k >= 1,
            ;
            lemma_round_split(jd * k, y, p, b0, e0);
        }
        match digits_to_u64(jv_slice.as_slice()) {
            None => None,
            Some(jv) => {
                match jv.checked_mul(k) {
                    None => None,
                    Some(base) => {
                        let (b, exact) = scaled_fraction(g.as_slice(), 2 * k);
                        proof {
                            assert(2 * k * digits_value(g_digits) == 2 * y) by (nonlinear_arith)
                                requires
                                    y == k * digits_value(g_digits),
                            ;
                            assert(b == b0);
                            assert(exact == (e0 == 0));
                            lemma_digits_bound(g_digits);
                            assert(y < k * p) by (nonlinear_arith)
                                requires
                                    y == k * digits_value(g_digits),
                                    digits_value(g_digits) < p,
                                    k >= 1,
                            ;
                            vstd::arithmetic::div_mod::lemma_fundamental_div_mod(2 * y, p);
                            assert(b0 * p <= 2 * y) by (nonlinear_arith)
                                requires
                                    2 * y == p * b0 + e0,
                                    e0 >= 0,
                            ;
                            assert(2 * k * p == 2 * (k * p)) by (nonlinear_arith);
                            assert(b0 < 2 * k) by (nonlinear_arith)
                                requires
                                    b0 * p <= 2 * y,
                                    2 * y < 2 * k * p,
                                    p >= 1,
                            ;
                        }
                        let a = b / 2;
                        let up: u64 = if b % 2 == 1 && (!exact || (base % 2 + a % 2) % 2 == 1) {
                            1
                        } else {
                            0
                        };
                        assert((base % 2 + a % 2) % 2 == (base + a) % 2);
                        match base.checked_add(a) {
                            None => None,
                            Some(t) => t.checked_add(up),
                        }
                    },
                }
            },
        }
    }
}

/// A decimal numeral `[+-]? digits [. digits]` with at least one digit:
/// whether it is negative, its integer digits and its fraction digits.
pub open spec fn split_decimal(s: Seq<char>) -> Option<(bool, Seq<char>, Seq<char>)> {
    let neg = s.len() > 0 && s[0] == '-';
    let body = if s.len() > 0 && (s[0] == '-' || s[0] == '+') {
        s.drop_first()
    } else {
        s
    };
    match first_index(body, '.') {
        None => if body.len() > 0 && all_digits(body) {
            Some((neg, body, Seq::<char>::empty()))
        } else {
            None
        },
        Some(k) => {
            let ip = body.take(k);
            let fp = body.skip(k + 1);
            if all_digits(ip) && all_digits(fp) && ip.len() + fp.len() > 0 {
                Some((neg, ip, fp))
            } else {
                None
            }
        },
    }
}


// ---------------------------------------------------------------------------
// Numerals with an exponent, as `f64` parsing reads their finite forms
// ---------------------------------------------------------------------------

/// Index of the first `e` or `E` in `s`.
pub open spec fn exp_marker(s: Seq<char>) -> Option<int>
    decreases s.len(),
{
    if s.len() == 0 {
        None
    } else if s[0] == 'e' || s[0] == 'E' {
        Some(0)
    } else {
        match exp_marker(s.drop_first()) {
            Some(i) => Some(i + 1),
            None => None,
        }
    }
}

/// An exponent: an optional sign and at least one digit.
pub open spec fn parse_exponent(x: Seq<char>) -> Option<int> {
    let d = strip_sign(x);
    if d.len() > 0 && all_digits(d) {
        if x[0] == '-' {
            Some(-(digits_value(d) as int))
        } else {
            Some(digits_value(d) as int)
        }
    } else {
        None
    }
}

/// A finite numeral as `f64` parsing reads it: a decimal numeral, then
/// optionally `e` or `E` and an exponent; its sign, integer digits,
/// fraction digits and exponent.
pub open spec fn split_float(s: Seq<char>) -> Option<(bool, Seq<char>, Seq<char>, int)> {
    match exp_marker(s) {
        None => match split_decimal(s) {
            Some((neg, ip, fp)) => Some((neg, ip, fp, 0int)),
            None => None,
        },
        Some(k) => match split_decimal(s.take(k)) {
            None => None,
            Some((neg, ip, fp)) => match parse_exponent(s.skip(k + 1)) {
                Some(e) => Some((neg, ip, fp, e)),
                None => None,
            },
        },
    }
}

/// `n` zero digits.
pub open spec fn zeros(n: nat) -> Seq<char> {
    Seq::new(n, |i: int| '0')
}

/// The digits `ip.fp` with the point moved `e` places to the right (left
/// for a negative `e`), padded with zeros: the same number times `10^e`,
/// as integer and fraction digits.
pub open spec fn shift_point(ip: Seq<char>, fp: Seq<char>, e: int) -> (Seq<char>, Seq<char>) {
    let s = ip + fp;
    let p = ip.len() + e;
    if p >= s.len() {
        (s + zeros((p - s.len()) as nat), Seq::empty())
    } else if p >= 0 {
        (s.take(p), s.skip(p))
    } else {
        (Seq::empty(), zeros((-p) as nat) + s)
    }
}

proof fn lemma_zeros_digits(n: nat)
    ensures
        all_digits(zeros(n)),
        digits_value(zeros(n)) == 0,
{
    lemma_zeros_value(zeros(n));
}

proof fn lemma_all_digits_concat(a: Seq<char>, b: Seq<char>)
    requires
        all_digits(a),
        all_digits(b),
    ensures
        all_digits(a + b),
{
    assert forall|i: int| 0 <= i < (a + b).len() implies is_digit(#[trigger] (a + b)[i]) by {
        if i < a.len() {
            assert((a + b)[i] == a[i]);
        } else {
            assert((a + b)[i] == b[i - a.len()]);
        }
    }
}

/// The shifted digits are digits, and their digit string is the original
/// one with zeros added before or after.
pub(crate) proof fn lemma_shift_digits(ip: Seq<char>, fp: Seq<char>, e: int)
    requires
        all_digits(ip),
        all_digits(fp),
    ensures
        ({
            let (a, b) = shift_point(ip, fp, e);
            let s = ip + fp;
            let p = ip.len() + e;
            &&& all_digits(a) && all_digits(b)
            &&& p >= s.len() ==> digits_value(a + b) == digits_value(s) * pow10((p - s.len()) as nat) && b.len() == 0
            &&& 0 <= p < s.len() ==> a + b == s && b.len() == s.len() - p
            &&& p < 0 ==> digits_value(a + b) == digits_value(s) && b.len() == s.len() - p
        }),
{
    let s = ip + fp;
    let p = ip.len() + e;
    lemma_all_digits_concat(ip, fp);
    if p >= s.len() {
        let z = zeros((p - s.len()) as nat);
        lemma_zeros_digits((p - s.len()) as nat);
        lemma_all_digits_concat(s, z);
        lemma_digits_concat(s, z);
        assert((s + z) + Seq::<char>::empty() =~= s + z);
        assert(all_digits(Seq::<char>::empty()));
    } else if p >= 0 {
        assert(s.take(p) + s.skip(p) =~= s);
        assert forall|i: int| 0 <= i < s.take(p).len() implies is_digit(#[trigger] s.take(p)[i]) by {
            assert(s.take(p)[i] == s[i]);
        }
        assert forall|i: int| 0 <= i < s.skip(p).len() implies is_digit(#[trigger] s.skip(p)[i]) by {
            assert(s.skip(p)[i] == s[i + p]);
        }
    } else {
        let z = zeros((-p) as nat);
        lemma_zeros_digits((-p) as nat);
        lemma_all_digits_concat(z, s);
        lemma_digits_concat(z, s);
        assert(Seq::<char>::empty() + (z + s) =~= z + s);
        assert(all_digits(Seq::<char>::empty()));
    }
}

proof fn lemma_round_small(n: nat, d: nat)
    requires
        2 * n < d,
    ensures
        round_half_even(n, d) == 0,
{
    vstd::arithmetic::div_mod::lemma_fundamental_div_mod_converse(n as int, d as int, 0, n as int);
}

/// A zero numeral stays zero wherever its point moves.
pub(crate) proof fn lemma_shift_zero(ip: Seq<char>, fp: Seq<char>, e: int, k: nat, m: nat)
    requires
        all_digits(ip),
        all_digits(fp),
        digits_value(ip + fp) == 0,
    ensures
        scaled_rounded(shift_point(ip, fp, e).0, shift_point(ip, fp, e).1, k, m) == Some(0u64),
{
    lemma_shift_digits(ip, fp, e);
    let (a, b) = shift_point(ip, fp, e);
    let s = ip + fp;
    let p = ip.len() + e;
    if 0 <= p < s.len() {
        assert(digits_value(a + b) == 0);
    }
    assert(digits_value(a + b) == 0);
    lemma_pow10_positive(b.len());
    lemma_round_small(0, pow10(b.len()));
}

/// A nonzero numeral whose point moves 20 or more places past its last
/// digit is too many nanoseconds for a `u64`.
pub(crate) proof fn lemma_shift_too_big(ip: Seq<char>, fp: Seq<char>, e: int, k: nat, m: nat)
    requires
        all_digits(ip),
        all_digits(fp),
        digits_value(ip + fp) > 0,
        k >= 1,
        ip.len() + e >= (ip + fp).len() + 20,
    ensures
        scaled_rounded(shift_point(ip, fp, e).0, shift_point(ip, fp, e).1, k, m) is None,
{
    lemma_shift_digits(ip, fp, e);
    let (a, b) = shift_point(ip, fp, e);
    let s = ip + fp;
    let z = (ip.len() + e - s.len()) as nat;
    let v = digits_value(a + b);
    assert(v == digits_value(s) * pow10(z));
    lemma_pow10_add(20, (z - 20) as nat);
    lemma_pow10_positive((z - 20) as nat);
    lemma_pow10_positive(m);
    assert(pow10(20) == 100_000_000_000_000_000_000) by {
        reveal_with_fuel(pow10, 21);
    }
    assert(v >= pow10(z)) by (nonlinear_arith)
        requires
            v == digits_value(s) * pow10(z),
            digits_value(s) >= 1,
    ;
    assert(pow10(z) >= pow10(20)) by (nonlinear_arith)
        requires
            pow10(z) == pow10(20) * pow10((z - 20) as nat),
            pow10((z - 20) as nat) >= 1,
    ;
    let n = v * k * pow10(m);
    assert(n >= v) by (nonlinear_arith)
        requires
            n == v * k * pow10(m),
            k >= 1,
            pow10(m) >= 1,
    ;
    assert(b.len() == 0);
    assert(pow10(0) == 1);
    vstd::arithmetic::div_mod::lemma_fundamental_div_mod_converse(n as int, 1, n as int, 0);
    assert(round_half_even(n, 1) == n);
}

/// A numeral whose point moves 12 or more places before its first digit
/// is under half a nanosecond, whatever the unit (at most a minute).
pub(crate) proof fn lemma_shift_too_small(ip: Seq<char>, fp: Seq<char>, e: int, k: nat, m: nat)
    requires
        all_digits(ip),
        all_digits(fp),
        k <= 60,
        m <= 9,
        ip.len() + e <= -12,
    ensures
        scaled_rounded(shift_point(ip, fp, e).0, shift_point(ip, fp, e).1, k, m) == Some(0u64),
{
    lemma_shift_digits(ip, fp, e);
    let (a, b) = shift_point(ip, fp, e);
    let s = ip + fp;
    let q = (-(ip.len() + e)) as nat;
    let v = digits_value(a + b);
    lemma_all_digits_concat(ip, fp);
    lemma_digits_bound(s);
    assert(v < pow10(s.len()));
    assert(b.len() == s.len() + q);
    lemma_pow10_add(s.len(), q);
    lemma_pow10_add(12, (q - 12) as nat);
    lemma_pow10_add(9, (12 - 9) as nat);
    lemma_pow10_add(m, (9 - m) as nat);
    lemma_pow10_positive((q - 12) as nat);
    lemma_pow10_positive((9 - m) as nat);
    lemma_pow10_positive(m);
    assert(pow10(3) == 1000 && pow10(12) == pow10(9) * 1000) by {
        reveal_with_fuel(pow10, 4);
    }
    let n = v * k * pow10(m);
    let ps = pow10(s.len());
    assert(pow10(m) <= pow10(9)) by (nonlinear_arith)
        requires
            pow10(9) == pow10(m) * pow10((9 - m) as nat),
            pow10((9 - m) as nat) >= 1,
            pow10(m) >= 1,
    ;
    let p9 = pow10(9);
    assert(v * k * pow10(m) <= v * 60 * p9) by (nonlinear_arith)
        requires
            k <= 60,
            pow10(m) <= p9,
    ;
    assert(v * 60 * p9 < ps * 60 * p9) by (nonlinear_arith)
        requires
            v < ps,
            p9 >= 1,
    ;
    assert(ps * 60 * p9 == 60 * (ps * p9)) by (nonlinear_arith);
    assert(ps * pow10(12) == 1000 * (ps * p9)) by (nonlinear_arith)
        requires
            pow10(12) == p9 * 1000,
    ;
    assert(2 * n < ps * pow10(12));
    assert(ps * pow10(12) <= pow10(b.len())) by (nonlinear_arith)
        requires
            pow10(b.len()) == ps * pow10(q),
            pow10(q) == pow10(12) * pow10((q - 12) as nat),
            pow10((q - 12) as nat) >= 1,
    ;
    lemma_round_small(n, pow10(b.len()));
}

/// Index of the first `e` or `E`.
pub fn exp_marker_exec(s: &[char]) -> (r: Option<usize>)
    ensures
        match r {
            Some(k) => exp_marker(s@) == Some(k as int) && k < s@.len(),
            None => exp_marker(s@) is None,
        },
{
    let mut i: usize = 0;
    assert(s@.skip(0) =~= s@);
    while i < s.len()
        invariant
            i <= s@.len(),
            exp_marker(s@) == (match exp_marker(s@.skip(i as int)) {
                Some(j) => Some(j + i),
                None => None::<int>,
            }),
        decreases s@.len() - i,
    {
        assert(s@.skip(i as int).drop_first() =~= s@.skip(i + 1));
        if s[i] == 'e' || s[i] == 'E' {
            return Some(i);
        }
        i += 1;
    }
    None
}

/// A digit string has no exponent marker.
pub proof fn lemma_digits_no_exp(s: Seq<char>)
    requires
        all_digits(s),
    ensures
        exp_marker(s) is None,
    decreases s.len(),
{
    if s.len() > 0 {
        assert(is_digit(s[0]));
        let d = s.drop_first();
        assert forall|i: int| 0 <= i < d.len() implies is_digit(#[trigger] d[i]) by {
            assert(d[i] == s[i + 1]);
        }
        lemma_digits_no_exp(d);
    }
}

/// A plain numeral's point stays where it is.
pub proof fn lemma_shift_none(ip: Seq<char>, fp: Seq<char>)
    ensures
        shift_point(ip, fp, 0) == (ip, fp),
{
    if fp.len() == 0 {
        assert(ip + fp + zeros(0) =~= ip);
    } else {
        assert((ip + fp).take(ip.len() as int) =~= ip);
        assert((ip + fp).skip(ip.len() as int) =~= fp);
    }
}

/// The largest exponent magnitude kept exactly; larger ones are held as it.
pub open spec fn exp_cap() -> nat {
    0x10_0000_0000_0000_0000_0000_0000
}

/// An exponent's sign and magnitude, the magnitude held at most at
/// [`exp_cap`].
pub fn exponent_capped(x: &[char]) -> (r: Option<(bool, u128)>)
    ensures
        match r {
            Some((neg, mag)) => parse_exponent(x@) is Some && mag <= exp_cap()
                && neg == (x@[0] == '-')
                && (mag < exp_cap() ==> mag == digits_value(strip_sign(x@)))
                && (mag == exp_cap() ==> digits_value(strip_sign(x@)) >= exp_cap()),
            None => parse_exponent(x@) is None,
        },
{
    let start: usize = if x.len() > 0 && (x[0] == '-' || x[0] == '+') { 1 } else { 0 };
    let d = crate::text::slice_chars(x, start, x.len());
    assert(d@ =~= strip_sign(x@));
    if d.len() == 0 || !all_digits_exec(d.as_slice()) {
        return None;
    }
    let cap: u128 = 0x10_0000_0000_0000_0000_0000_0000;
    let mut v: u128 = 0;
    let mut i: usize = 0;
    while i < d.len()
        invariant
            i <= d@.len(),
            all_digits(d@),
            v <= cap,
            cap == exp_cap(),
            v < cap ==> v == digits_value(d@.take(i as int)),
            v == cap ==> digits_value(d@.take(i as int)) >= cap,
        decreases d@.len() - i,
    {
        assert(d@.take(i + 1).drop_last() =~= d@.take(i as int));
        assert(d@.take(i + 1).last() == d@[i as int]);
        assert(is_digit(d@[i as int]));
        let dv = (d[i] as u32 - '0' as u32) as u128;
        assert(dv == digit_value(d@[i as int]));
        if v < cap {
            if v > (cap - dv) / 10 {
                v = cap;
            } else {
                v = v * 10 + dv;
            }
        }
        i += 1;
    }
    assert(d@.take(d@.len() as int) =~= d@);
    Some((x.len() > 0 && x[0] == '-', v))
}


/// Whether every character of `s` is a digit.
pub fn all_digits_exec(s: &[char]) -> (r: bool)
    ensures
        r == all_digits(s@),
{
    let mut i: usize = 0;
    while i < s.len()
        invariant
            i <= s@.len(),
            forall|j: int| 0 <= j < i ==> is_digit(#[trigger] s@[j]),
        decreases s@.len() - i,
    {
        if !('0' <= s[i] && s[i] <= '9') {
            return false;
        }
        i += 1;
    }
    true
}

/// `s` without one leading `+` or `-`.
pub open spec fn strip_sign(s: Seq<char>) -> Seq<char> {
    if s.len() > 0 && (s[0] == '-' || s[0] == '+') {
        s.drop_first()
    } else {
        s
    }
}

/// Splits a signed decimal numeral into sign, integer digits and fraction
/// digits.
pub fn split_decimal_exec(s: &[char]) -> (r: Option<(bool, Vec<char>, Vec<char>)>)
    ensures
        match r {
            Some((neg, ip, fp)) => split_decimal(s@) == Some((neg, ip@, fp@)),
            None => split_decimal(s@) is None,
        },
{
    let neg = s.len() > 0 && s[0] == '-';
    let start: usize = if s.len() > 0 && (s[0] == '-' || s[0] == '+') { 1 } else { 0 };
    let body = crate::text::slice_chars(s, start, s.len());
    assert(body@ =~= strip_sign(s@));
    match crate::text::first_index_of(body.as_slice(), '.') {
        None => {
            if body.len() > 0 && all_digits_exec(body.as_slice()) {
                Some((neg, body, Vec::new()))
            } else {
                None
            }
        },
        Some(k) => {
            let ip = crate::text::slice_chars(body.as_slice(), 0, k);
            let fp = crate::text::slice_chars(body.as_slice(), k + 1, body.len());
            assert(ip@ =~= body@.take(k as int));
            assert(fp@ =~= body@.skip(k + 1));
            if all_digits_exec(ip.as_slice()) && all_digits_exec(fp.as_slice()) && ip.len()
                + fp.len() > 0 {
                Some((neg, ip, fp))
            } else {
                None
            }
        },
    }
}

/// The value of an unsigned integer numeral (`+`? then digits) when it is at
/// most `max`, as `str::parse` reads `u16`, `u32` and `u64`.
pub open spec fn parse_unsigned(s: Seq<char>, max: nat) -> Option<nat> {
    let d = if s.len() > 0 && s[0] == '+' {
        s.drop_first()
    } else {
        s
    };
    if d.len() > 0 && all_digits(d) && digits_value(d) <= max {
        Some(digits_value(d))
    } else {
        None
    }
}

pub fn parse_unsigned_exec(s: &[char], max: u64) -> (r: Option<u64>)
    ensures
        match r {
            Some(v) => parse_unsigned(s@, max as nat) == Some(v as nat),
            None => parse_unsigned(s@, max as nat) is None,
        },
{
    let start: usize = if s.len() > 0 && s[0] == '+' { 1 } else { 0 };
    let d = crate::text::slice_chars(s, start, s.len());
    assert(d@ =~= (if s@.len() > 0 && s@[0] == '+' { s@.drop_first() } else { s@ }));
    if d.len() == 0 || !all_digits_exec(d.as_slice()) {
        return None;
    }
    match digits_to_u64(d.as_slice()) {
        Some(v) => if v <= max {
            Some(v)
        } else {
            None
        },
        None => None,
    }
}

/// A numeral of digits with at most one `.` and at least one digit.
pub open spec fn is_plain_decimal(m: Seq<char>) -> bool {
    match first_index(m, '.') {
        None => m.len() > 0 && all_digits(m),
        Some(k) => all_digits(m.take(k)) && all_digits(m.skip(k + 1)) && m.len() > 1,
    }
}

/// An exponent: an optional sign, then digits.
pub open spec fn is_exponent(x: Seq<char>) -> bool {
    strip_sign(x).len() > 0 && all_digits(strip_sign(x))
}

/// A decimal numeral with an optional exponent (already lower-cased).
pub open spec fn is_number(l: Seq<char>) -> bool {
    match first_index(l, 'e') {
        None => is_plain_decimal(l),
        Some(k) => is_plain_decimal(l.take(k)) && is_exponent(l.skip(k + 1)),
    }
}

/// Whether `s` is a floating-point literal as `str::parse::<f32>` accepts
/// it: an optional sign, then `inf`, `infinity`, `nan` (any case) or a
/// decimal numeral with an optional exponent.
pub open spec fn is_float_literal(s: Seq<char>) -> bool {
    let l = crate::text::ascii_lower_seq(strip_sign(s));
    l == "inf"@ || l == "infinity"@ || l == "nan"@ || is_number(l)
}

fn is_plain_decimal_exec(m: &[char]) -> (r: bool)
    ensures
        r == is_plain_decimal(m@),
{
    match crate::text::first_index_of(m, '.') {
        None => m.len() > 0 && all_digits_exec(m),
        Some(k) => {
            let n = m.len();
            assert(k < n);
            let a = crate::text::slice_chars(m, 0, k);
            let b = crate::text::slice_chars(m, k + 1, n);
            assert(a@ =~= m@.take(k as int));
            assert(b@ =~= m@.skip(k + 1));
            all_digits_exec(a.as_slice()) && all_digits_exec(b.as_slice()) && m.len() > 1
        },
    }
}

fn is_number_exec(l: &[char]) -> (r: bool)
    ensures
        r == is_number(l@),
{
    match crate::text::first_index_of(l, 'e') {
        None => is_plain_decimal_exec(l),
        Some(k) => {
            let n = l.len();
            assert(k < n);
            let a = crate::text::slice_chars(l, 0, k);
            let b = crate::text::slice_chars(l, k + 1, n);
            assert(a@ =~= l@.take(k as int));
            assert(b@ =~= l@.skip(k + 1));
            let start: usize = if b.len() > 0 && (b[0] == '-' || b[0] == '+') { 1 } else { 0 };
            let d = crate::text::slice_chars(b.as_slice(), start, b.len());
            assert(d@ =~= strip_sign(b@));
            is_plain_decimal_exec(a.as_slice()) && d.len() > 0 && all_digits_exec(d.as_slice())
        },
    }
}

/// Whether `s` is a literal that `str::parse::<f32>` accepts.
pub fn is_float_literal_exec(s: &[char]) -> (r: bool)
    ensures
        r == is_float_literal(s@),
{
    let start: usize = if s.len() > 0 && (s[0] == '-' || s[0] == '+') { 1 } else { 0 };
    let body = crate::text::slice_chars(s, start, s.len());
    assert(body@ =~= strip_sign(s@));
    let l = crate::text::ascii_lower_chars(body.as_slice());
    let inf = crate::text::chars_of("inf");
    let infinity = crate::text::chars_of("infinity");
    let nan = crate::text::chars_of("nan");
    crate::text::chars_eq(l.as_slice(), inf.as_slice()) || crate::text::chars_eq(
        l.as_slice(),
        infinity.as_slice(),
    ) || crate::text::chars_eq(l.as_slice(), nan.as_slice()) || is_number_exec(l.as_slice())
}


/// The decimal digit character for `d < 10`.
pub open spec fn digit_char(d: nat) -> char {
    (d + 48) as char
}

/// The decimal numeral of `n`, without leading zeros.
pub open spec fn nat_text(n: nat) -> Seq<char>
    decreases n,
{
    if n < 10 {
        seq![digit_char(n)]
    } else {
        nat_text(n / 10) + seq![digit_char(n % 10)]
    }
}

/// Writes `n` in decimal.
pub fn u64_text(n: u64) -> (r: String)
    ensures
        r@ == nat_text(n as nat),
{
    u128_text(n as u128)
}

/// Writes `n` in decimal.
pub fn u128_text(n: u128) -> (r: String)
    ensures
        r@ == nat_text(n as nat),
{
    let mut digits: Vec<char> = Vec::new();
    let mut m = n;
    loop
        invariant
            nat_text(n as nat) == nat_text(m as nat) + digits@,
        decreases m,
    {
        let d = m % 10;
        let c = ((d as u8) + 48) as char;
        assert(c == digit_char(d as nat));
        if m < 10 {
            proof {
                assert(nat_text(m as nat) == seq![c]);
            }
            let mut out: Vec<char> = Vec::new();
            out.push(c);
            let mut i: usize = 0;
            while i < digits.len()
                invariant
                    i <= digits@.len(),
                    out@ == seq![c] + digits@.take(i as int),
                decreases digits@.len() - i,
            {
                out.push(digits[i]);
                i += 1;
                assert(out@ =~= seq![c] + digits@.take(i as int));
            }
            assert(digits@.take(digits@.len() as int) =~= digits@);
            return crate::text::string_from_chars(out.as_slice());
        }
        let ghost before = digits@;
        digits.insert(0, c);
        assert(digits@ =~= seq![c] + before);
        assert(nat_text(m as nat) == nat_text((m / 10) as nat) + seq![c]);
        assert(nat_text((m / 10) as nat) + seq![c] + before =~= nat_text((m / 10) as nat) + digits@);
        m = m / 10;
    }
}

} // verus!
