//! Amounts of money written as decimal text, read into whole cents.

use vstd::prelude::*;
use vstd::arithmetic::power::pow;

verus! {

/// A decimal digit.
pub open spec fn is_digit(c: char) -> bool {
    '0' <= c && c <= '9'
}

/// The value of a decimal digit.
pub open spec fn digit_value(c: char) -> int {
    (c as int) - ('0' as int)
}

/// Every character is a decimal digit.
pub open spec fn all_digits(s: Seq<char>) -> bool {
    forall|i: int| 0 <= i < s.len() ==> is_digit(#[trigger] s[i])
}

/// The number that a string of digits writes in base ten (zero for no digits).
pub open spec fn digits_value(s: Seq<char>) -> int
    decreases s.len(),
{
    if s.len() == 0 {
        0
    } else {
        digits_value(s.drop_last()) * 10 + digit_value(s.last())
    }
}

/// An exponent marker.
pub open spec fn is_exponent_mark(c: char) -> bool {
    c == 'e' || c == 'E'
}

/// The text holds an exponent marker.
pub open spec fn has_exponent(s: Seq<char>) -> bool {
    exists|p: int| 0 <= p < s.len() && is_exponent_mark(s[p])
}

/// The text holds a decimal point.
pub open spec fn has_point(s: Seq<char>) -> bool {
    exists|p: int| 0 <= p < s.len() && s[p] == '.'
}

/// The text starts with a sign.
pub open spec fn signed(text: Seq<char>) -> bool {
    text.len() > 0 && (text[0] == '-' || text[0] == '+')
}

/// The value of an exponent: an optional sign, then at least one digit.
pub open spec fn exponent_value(e: Seq<char>) -> Option<int> {
    let negative = e.len() > 0 && e[0] == '-';
    let digits = if signed(e) { e.skip(1) } else { e };
    if digits.len() > 0 && all_digits(digits) {
        Some(if negative { -digits_value(digits) } else { digits_value(digits) })
    } else {
        None
    }
}

/// `n` times ten to the `k`, where that is a whole number.
pub open spec fn scaled(n: int, k: int) -> Option<int> {
    if k >= 0 {
        Some(n * pow(10, k as nat))
    } else if n % pow(10, (-k) as nat) == 0 {
        Some(n / pow(10, (-k) as nat))
    } else {
        None
    }
}

/// The cents written by the digits `whole`, a decimal point and the digits `frac`, times ten
/// to the `exponent`: `None` where there are no digits, or the amount is no whole number of
/// cents.
pub open spec fn mantissa_cents(whole: Seq<char>, frac: Seq<char>, exponent: int) -> Option<int> {
    if all_digits(whole) && all_digits(frac) && whole.len() + frac.len() > 0 {
        scaled(digits_value(whole + frac), exponent + 2 - frac.len())
    } else {
        None
    }
}

/// The cents written by unsigned digits with at most one decimal point, times ten to the
/// `exponent`.
pub open spec fn unsigned_cents(mantissa: Seq<char>, exponent: int) -> Option<int> {
    if has_point(mantissa) {
        let p = choose|p: int| 0 <= p < mantissa.len() && mantissa[p] == '.';
        mantissa_cents(mantissa.take(p), mantissa.skip(p + 1), exponent)
    } else {
        mantissa_cents(mantissa, Seq::empty(), exponent)
    }
}

/// The cents written by an unsigned decimal with an optional exponent, such as `2.5e1`.
pub open spec fn magnitude_cents(body: Seq<char>) -> Option<int> {
    if has_exponent(body) {
        let q = choose|q: int| 0 <= q < body.len() && is_exponent_mark(body[q]);
        match exponent_value(body.skip(q + 1)) {
            Some(e) => unsigned_cents(body.take(q), e),
            None => None,
        }
    } else {
        unsigned_cents(body, 0)
    }
}

/// The amount, in cents, that a decimal float such as `-12.5` or `1e3` writes: an optional
/// sign, digits with at most one decimal point, and an optional exponent (`e` or `E`, an
/// optional sign, digits). `None` where the text is no such float, where its value is no
/// whole number of cents, or where the amount does not fit in an `i64`.
pub open spec fn spec_amount(text: Seq<char>) -> Option<i64> {
    let negative = text.len() > 0 && text[0] == '-';
    let body = if signed(text) { text.skip(1) } else { text };
    match magnitude_cents(body) {
        Some(m) => {
            let v = if negative { -m } else { m };
            if i64::MIN <= v <= i64::MAX { Some(v as i64) } else { None }
        },
        None => None,
    }
}

/// A string of digits is worth at least as much as any of its prefixes.
proof fn lemma_digits_prefix(s: Seq<char>, k: int)
    requires
        all_digits(s),
        0 <= k <= s.len(),
    ensures
        digits_value(s.take(k)) <= digits_value(s),
        digits_value(s) >= 0,
    decreases s.len(),
{
    if s.len() > 0 {
        assert(all_digits(s.drop_last()));
        if k == s.len() {
            assert(s.take(k) =~= s);
            lemma_digits_prefix(s.drop_last(), k - 1);
        } else {
            assert(s.drop_last().take(k) =~= s.take(k));
            lemma_digits_prefix(s.drop_last(), k);
        }
    } else {
        assert(s.take(k) =~= s);
    }
}

/// Digits that end in zeros are worth their other digits times a power of ten.
proof fn lemma_trailing_zeros(s: Seq<char>, t: int)
    requires
        0 <= t <= s.len(),
        forall|i: int| t <= i < s.len() ==> #[trigger] s[i] == '0',
    ensures
        digits_value(s) == digits_value(s.take(t)) * pow(10, (s.len() - t) as nat),
    decreases s.len() - t,
{
    if t == s.len() {
        assert(s.take(t) =~= s);
        assert(pow(10, 0) == 1) by {
            reveal(pow);
        }
    } else {
        let rest = s.drop_last();
        lemma_trailing_zeros(rest, t);
        assert(rest.take(t) =~= s.take(t));
        assert(digit_value(s.last()) == 0);
        let e = (s.len() - t) as nat;
        assert(pow(10, e) == 10 * pow(10, (e - 1) as nat)) by {
            reveal(pow);
        }
        let a = digits_value(s.take(t));
        let b = pow(10, (e - 1) as nat);
        assert((a * b) * 10 == a * (10 * b)) by (nonlinear_arith);
    }
}

/// Digits ending in a digit other than zero are worth a positive number that ten does
/// not divide.
proof fn lemma_last_digit_nonzero(s: Seq<char>)
    requires
        s.len() > 0,
        all_digits(s),
        s.last() != '0',
    ensures
        digits_value(s) > 0,
        digits_value(s) % 10 != 0,
{
    let rest = s.drop_last();
    assert(all_digits(rest));
    lemma_digits_prefix(rest, 0);
    let x = digits_value(rest);
    let d = digit_value(s.last());
    assert(is_digit(s[s.len() - 1]));
    assert(1 <= d <= 9);
    vstd::arithmetic::div_mod::lemma_mod_multiples_vanish(x, d, 10);
    assert(x * 10 == 10 * x) by (nonlinear_arith);
}

/// Nothing times any power of ten is nothing.
proof fn lemma_scaled_zero(k: int)
    ensures
        scaled(0, k) == Some(0int),
{
    if k < 0 {
        let p = pow(10, (-k) as nat);
        vstd::arithmetic::power::lemma_pow_positive(10, (-k) as nat);
        vstd::arithmetic::div_mod::lemma_mod_multiples_basic(0, p);
        vstd::arithmetic::div_mod::lemma_div_by_multiple(0, p);
    } else {
        assert(0 * pow(10, k as nat) == 0) by (nonlinear_arith);
    }
}

/// Where `np` is not a multiple of ten, `np` followed by `z` zeros, times ten to the `k`, is
/// a whole number exactly when `k + z` is not negative, and is then `np` times ten to the
/// `k + z`.
proof fn lemma_scaled_stripped(np: int, z: nat, k: int)
    requires
        np > 0,
        np % 10 != 0,
    ensures
        scaled(np * pow(10, z), k) == (if k + z >= 0 {
            Some(np * pow(10, (k + z) as nat))
        } else {
            None
        }),
{
    let n = np * pow(10, z);
    vstd::arithmetic::power::lemma_pow_positive(10, z);
    if k >= 0 {
        vstd::arithmetic::power::lemma_pow_adds(10, z, k as nat);
        let a = pow(10, z);
        let b = pow(10, k as nat);
        assert((np * a) * b == np * (a * b)) by (nonlinear_arith);
        assert((z + k as nat) as nat == (k + z) as nat);
    } else {
        let j = (-k) as nat;
        let p = pow(10, j);
        vstd::arithmetic::power::lemma_pow_positive(10, j);
        if j <= z {
            let r = (z - j) as nat;
            vstd::arithmetic::power::lemma_pow_adds(10, r, j);
            assert(r + j == z);
            let x = np * pow(10, r);
            assert(n == x * p) by (nonlinear_arith)
                requires
                    n == np * pow(10, z),
                    pow(10, z) == pow(10, r) * p,
                    x == np * pow(10, r),
            ;
            vstd::arithmetic::power::lemma_pow_positive(10, r);
            assert(x >= 0) by (nonlinear_arith)
                requires
                    np > 0,
                    pow(10, r) > 0,
                    x == np * pow(10, r),
            ;
            vstd::arithmetic::div_mod::lemma_mod_multiples_basic(x, p);
            vstd::arithmetic::div_mod::lemma_div_by_multiple(x, p);
            assert(r == (k + z) as nat);
        } else {
            if n % p == 0 {
                let q = n / p;
                vstd::arithmetic::div_mod::lemma_fundamental_div_mod(n, p);
                let r = (j - z) as nat;
                vstd::arithmetic::power::lemma_pow_adds(10, r, z);
                assert(r + z == j);
                let pz = pow(10, z);
                let pr = pow(10, r);
                assert(np == pr * q) by (nonlinear_arith)
                    requires
                        n == np * pz,
                        n == p * q + 0,
                        p == pr * pz,
                        pz > 0,
                ;
                assert(pr == 10 * pow(10, (r - 1) as nat)) by {
                    reveal(pow);
                }
                let w = pow(10, (r - 1) as nat) * q;
                assert(np == w * 10) by (nonlinear_arith)
                    requires
                        np == pr * q,
                        pr == 10 * pow(10, (r - 1) as nat),
                        w == pow(10, (r - 1) as nat) * q,
                ;
                vstd::arithmetic::div_mod::lemma_mod_multiples_basic(w, 10);
            }
        }
    }
}

/// A positive number times ten to the nineteenth or more does not fit in an `i64`, nor does
/// its negation.
proof fn lemma_too_big(np: int, k: nat)
    requires
        np >= 1,
        k >= 19,
    ensures
        np * pow(10, k) > 9223372036854775808,
{
    assert(pow(10, 19) == 10000000000000000000) by {
        reveal_with_fuel(pow, 20);
    }
    vstd::arithmetic::power::lemma_pow_increases(10, 19, k);
    let p = pow(10, k);
    assert(np * p >= p) by (nonlinear_arith)
        requires
            np >= 1,
            p >= 0,
    ;
}

/// An exponent marker spoils the digits of a mantissa.
proof fn lemma_mark_in_mantissa(m: Seq<char>, i: int, e: int)
    requires
        0 <= i < m.len(),
        is_exponent_mark(m[i]),
    ensures
        unsigned_cents(m, e) is None,
{
    if has_point(m) {
        let p = choose|p: int| 0 <= p < m.len() && m[p] == '.';
        if i < p {
            assert(!is_digit(m.take(p)[i]));
        } else {
            assert(!is_digit(m.skip(p + 1)[i - p - 1]));
        }
    } else {
        assert(!is_digit(m[i]));
    }
}

/// An exponent marker spoils the digits of an exponent.
proof fn lemma_mark_in_exponent(x: Seq<char>, i: int)
    requires
        0 <= i < x.len(),
        is_exponent_mark(x[i]),
    ensures
        exponent_value(x) is None,
{
    if signed(x) {
        assert(!is_digit(x.skip(1)[i - 1]));
    } else {
        assert(!is_digit(x[i]));
    }
}

/// Splitting a mantissa at its first decimal point.
proof fn lemma_split_point(m: Seq<char>, p: int)
    requires
        0 <= p <= m.len(),
        forall|k: int| 0 <= k < p ==> m[k] != '.',
        p < m.len() ==> m[p] == '.',
    ensures
        forall|e: int|
            #[trigger] unsigned_cents(m, e) == mantissa_cents(
                m.take(p),
                if p < m.len() {
                    m.skip(p + 1)
                } else {
                    Seq::<char>::empty()
                },
                e,
            ),
{
    if p < m.len() {
        assert(has_point(m));
        let c = choose|c: int| 0 <= c < m.len() && m[c] == '.';
        if c != p {
            assert(c > p);
            assert(!is_digit(m.take(c)[p]));
            assert(!is_digit(m.skip(p + 1)[c - p - 1]));
        }
    } else {
        assert(m.take(p) =~= m);
        assert(!has_point(m));
    }
}

/// Splitting a body at its first exponent marker.
proof fn lemma_split_mark(body: Seq<char>, q: int)
    requires
        0 <= q <= body.len(),
        forall|k: int| 0 <= k < q ==> !is_exponent_mark(body[k]),
        q < body.len() ==> is_exponent_mark(body[q]),
    ensures
        magnitude_cents(body) == (if q < body.len() {
            match exponent_value(body.skip(q + 1)) {
                Some(e) => unsigned_cents(body.take(q), e),
                None => None,
            }
        } else {
            unsigned_cents(body, 0)
        }),
{
    if q < body.len() {
        assert(has_exponent(body));
        let c = choose|c: int| 0 <= c < body.len() && is_exponent_mark(body[c]);
        if c != q {
            assert(c > q);
            match exponent_value(body.skip(c + 1)) {
                Some(e) => {
                    lemma_mark_in_mantissa(body.take(c), q, e);
                },
                None => {},
            }
            lemma_mark_in_exponent(body.skip(q + 1), c - q - 1);
        }
    } else {
        assert(!has_exponent(body));
    }
}

/// Whether the characters of `text` in `[from, to)` are all digits.
fn digits_between(text: &str, from: usize, to: usize) -> (r: bool)
    requires
        from <= to <= text@.len(),
    ensures
        r == all_digits(text@.subrange(from as int, to as int)),
{
    let mut i = from;
    while i < to
        invariant
            from <= i <= to <= text@.len(),
            forall|k: int| from <= k < i ==> is_digit(#[trigger] text@[k]),
        decreases to - i,
    {
        let c = text.get_char(i);
        if !('0' <= c && c <= '9') {
            assert(!is_digit(text@.subrange(from as int, to as int)[i - from]));
            return false;
        }
        i = i + 1;
    }
    assert forall|k: int| 0 <= k < to - from implies is_digit(
        #[trigger] text@.subrange(from as int, to as int)[k],
    ) by {
        assert(text@.subrange(from as int, to as int)[k] == text@[from + k]);
    }
    true
}

/// Pushes the characters of `text` in `[from, to)` onto `chars`.
fn push_chars(text: &str, from: usize, to: usize, chars: &mut Vec<char>)
    requires
        from <= to <= text@.len(),
    ensures
        final(chars)@ == old(chars)@ + text@.subrange(from as int, to as int),
{
    let mut i = from;
    while i < to
        invariant
            from <= i <= to <= text@.len(),
            chars@ == old(chars)@ + text@.subrange(from as int, i as int),
        decreases to - i,
    {
        let c = text.get_char(i);
        chars.push(c);
        assert(old(chars)@ + text@.subrange(from as int, i + 1) =~= old(chars)@ + text@.subrange(
            from as int,
            i as int,
        ) + seq![c]);
        i = i + 1;
    }
}

/// The value of the first `to` digits, where it fits in a `u64`.
fn prefix_value(digits: &Vec<char>, to: usize) -> (r: Option<u64>)
    requires
        all_digits(digits@),
        to <= digits@.len(),
    ensures
        r matches Some(v) ==> v == digits_value(digits@.take(to as int)),
        r is None ==> digits_value(digits@.take(to as int)) > u64::MAX,
{
    let ghost d = digits@;
    let mut v: u64 = 0;
    let mut i: usize = 0;
    assert(d.take(0) =~= Seq::<char>::empty());
    while i < to
        invariant
            i <= to <= d.len(),
            d == digits@,
            all_digits(d),
            v == digits_value(d.take(i as int)),
        decreases to - i,
    {
        let c = digits[i];
        assert(d.take(i + 1).drop_last() =~= d.take(i as int));
        assert(is_digit(d[i as int]));
        let digit: u64 = ((c as u32) - ('0' as u32)) as u64;
        let step = v.checked_mul(10);
        let w = match step {
            Some(m) => m.checked_add(digit),
            None => None,
        };
        match w {
            Some(nv) => {
                v = nv;
            },
            None => {
                proof {
                    let prefix = d.take(to as int);
                    assert(all_digits(prefix));
                    assert(prefix.take(i + 1) =~= d.take(i + 1));
                    lemma_digits_prefix(prefix, i + 1);
                }
                return None;
            },
        }
        i = i + 1;
    }
    Some(v)
}

/// The value of the digits of `text` in `[from, to)`, where it fits in a `u128`.
fn exponent_magnitude(text: &str, from: usize, to: usize) -> (r: Option<u128>)
    requires
        from <= to <= text@.len(),
        all_digits(text@.subrange(from as int, to as int)),
    ensures
        r matches Some(v) ==> v == digits_value(text@.subrange(from as int, to as int)),
        r is None ==> digits_value(text@.subrange(from as int, to as int)) > u128::MAX,
{
    let ghost t = text@;
    let ghost whole = t.subrange(from as int, to as int);
    let mut v: u128 = 0;
    let mut i: usize = from;
    assert(t.subrange(from as int, from as int) =~= Seq::<char>::empty());
    while i < to
        invariant
            from <= i <= to <= t.len(),
            t == text@,
            whole == t.subrange(from as int, to as int),
            all_digits(whole),
            v == digits_value(t.subrange(from as int, i as int)),
        decreases to - i,
    {
        let c = text.get_char(i);
        let ghost next = t.subrange(from as int, i + 1);
        assert(next.drop_last() =~= t.subrange(from as int, i as int));
        assert(whole[i - from] == c);
        let digit: u128 = ((c as u32) - ('0' as u32)) as u128;
        let step = v.checked_mul(10);
        let w = match step {
            Some(m) => m.checked_add(digit),
            None => None,
        };
        match w {
            Some(nv) => {
                v = nv;
            },
            None => {
                proof {
                    assert(whole.take(i + 1 - from) =~= next);
                    lemma_digits_prefix(whole, i + 1 - from);
                }
                return None;
            },
        }
        i = i + 1;
    }
    assert(t.subrange(from as int, to as int) =~= whole);
    Some(v)
}

/// Reads an exponent, the characters of `text` in `[from, to)`: `None` where it is malformed,
/// otherwise whether it is negative and its magnitude, where that fits in a `u128`.
fn read_exponent(text: &str, from: usize, to: usize) -> (r: Option<(bool, Option<u128>)>)
    requires
        from <= to <= text@.len(),
    ensures
        r is None <==> exponent_value(text@.subrange(from as int, to as int)) is None,
        r matches Some((negative, magnitude)) ==> {
            let e = exponent_value(text@.subrange(from as int, to as int))->0;
            &&& magnitude matches Some(m) ==> e == (if negative {
                -m
            } else {
                m as int
            })
            &&& magnitude is None ==> (if negative {
                e < -(u128::MAX as int)
            } else {
                e > u128::MAX
            })
        },
{
    let ghost x = text@.subrange(from as int, to as int);
    let mut digits_from = from;
    let mut negative = false;
    if from < to {
        let c = text.get_char(from);
        if c == '-' {
            negative = true;
            digits_from = from + 1;
        } else if c == '+' {
            digits_from = from + 1;
        }
    }
    proof {
        let digits = if signed(x) {
            x.skip(1)
        } else {
            x
        };
        assert(digits =~= text@.subrange(digits_from as int, to as int));
    }
    if digits_from == to || !digits_between(text, digits_from, to) {
        return None;
    }
    Some((negative, exponent_magnitude(text, digits_from, to)))
}

/// The cents that the digits `d` times ten to the `e + 2 - fl` are; `None` where that is no
/// whole number or is more than `2^63`.
fn scaled_amount(
    digits: &Vec<char>,
    fl: usize,
    exp_negative: bool,
    exp_magnitude: Option<u128>,
    Ghost(e): Ghost<int>,
) -> (r: Option<u64>)
    requires
        all_digits(digits@),
        digits@.len() > 0,
        exp_magnitude matches Some(m) ==> e == (if exp_negative {
            -m
        } else {
            m as int
        }),
        exp_magnitude is None ==> (if exp_negative {
            e < -(u128::MAX as int)
        } else {
            e > u128::MAX
        }),
    ensures
        r matches Some(m) ==> scaled(digits_value(digits@), e + 2 - fl) == Some(m as int),
        r is None ==> (scaled(digits_value(digits@), e + 2 - fl) is None || scaled(
            digits_value(digits@),
            e + 2 - fl,
        )->0 > 9223372036854775808),
{
    let ghost d = digits@;
    let ghost k: int = e + 2 - fl;
    // Trailing zeros of the digits.
    let mut kept = digits.len();
    while kept > 0 && digits[kept - 1] == '0'
        invariant
            kept <= digits@.len(),
            d == digits@,
            forall|i: int| kept <= i < d.len() ==> #[trigger] d[i] == '0',
        decreases kept,
    {
        kept = kept - 1;
    }
    let z = digits.len() - kept;
    proof {
        lemma_trailing_zeros(d, kept as int);
    }
    if kept == 0 {
        proof {
            assert(d.take(0) =~= Seq::<char>::empty());
            assert(0 * pow(10, z as nat) == 0) by (nonlinear_arith);
            lemma_scaled_zero(k);
        }
        return Some(0);
    }
    let ghost np_spec = digits_value(d.take(kept as int));
    proof {
        let prefix = d.take(kept as int);
        assert(all_digits(prefix));
        assert(prefix.last() == d[kept - 1]);
        lemma_last_digit_nonzero(prefix);
        lemma_scaled_stripped(np_spec, z as nat, k);
        vstd::arithmetic::power::lemma_pow_positive(10, (k + z) as nat);
    }
    // The amount is `np_spec` times ten to the `k + z`, where `k + z` is not negative.
    let np = match prefix_value(digits, kept) {
        Some(v) => v,
        None => {
            proof {
                if k + z >= 0 {
                    let p = pow(10, (k + z) as nat);
                    assert(np_spec * p >= np_spec) by (nonlinear_arith)
                        requires
                            np_spec > 0,
                            p > 0,
                    ;
                }
            }
            return None;
        },
    };
    let scale: u128 = match exp_magnitude {
        None => {
            proof {
                if !exp_negative {
                    lemma_too_big(np_spec, (k + z) as nat);
                }
            }
            return None;
        },
        Some(magnitude) => {
            if !exp_negative {
                match magnitude.checked_add(2 + z as u128) {
                    None => {
                        proof {
                            lemma_too_big(np_spec, (k + z) as nat);
                        }
                        return None;
                    },
                    Some(top) => {
                        if top < fl as u128 {
                            return None;
                        }
                        top - fl as u128
                    },
                }
            } else {
                match (fl as u128).checked_add(magnitude) {
                    None => {
                        return None;
                    },
                    Some(bottom) => {
                        if 2 + (z as u128) < bottom {
                            return None;
                        }
                        2 + (z as u128) - bottom
                    },
                }
            }
        },
    };
    assert(scale == k + z);
    if scale > 18 {
        proof {
            lemma_too_big(np_spec, (k + z) as nat);
        }
        return None;
    }
    let scale = scale as u32;
    let power = power_of_ten(scale);
    match np.checked_mul(power) {
        Some(m) => Some(m),
        None => None,
    }
}

/// Ten to the `e`.
fn power_of_ten(e: u32) -> (r: u64)
    requires
        e <= 18,
    ensures
        r == pow(10, e as nat),
{
    let mut power: u64 = 1;
    let mut i: u32 = 0;
    assert(pow(10, 0) == 1) by {
        reveal(pow);
    }
    assert(pow(10, 18) == 1000000000000000000) by {
        reveal_with_fuel(pow, 19);
    }
    while i < e
        invariant
            i <= e <= 18,
            power == pow(10, i as nat),
            pow(10, 18) == 1000000000000000000,
        decreases e - i,
    {
        proof {
            assert(pow(10, (i + 1) as nat) == 10 * pow(10, i as nat)) by {
                reveal(pow);
            }
            vstd::arithmetic::power::lemma_pow_increases(10, (i + 1) as nat, 18);
        }
        power = power * 10;
        i = i + 1;
    }
    power
}

/// Where the mantissa starting at `start` has its first decimal point at `point` (or none
/// before `mark`) and the exponent marker at `mark` (or none, where `mark` is the end): the
/// amount that the text from `start` writes.
pub open spec fn split_cents(t: Seq<char>, start: int, point: int, mark: int) -> Option<int> {
    let whole = t.subrange(start, point);
    let frac = t.subrange(if point < mark { point + 1 } else { mark }, mark);
    if mark < t.len() {
        match exponent_value(t.subrange(mark + 1, t.len() as int)) {
            Some(e) => mantissa_cents(whole, frac, e),
            None => None,
        }
    } else {
        mantissa_cents(whole, frac, 0)
    }
}

/// Finds the first exponent marker of the text from `start`, and the first decimal point
/// before it.
fn split_body(text: &str, start: usize) -> (r: (usize, usize))
    requires
        start <= text@.len(),
    ensures
        start <= r.1 <= r.0 <= text@.len(),
        magnitude_cents(text@.skip(start as int)) == split_cents(
            text@,
            start as int,
            r.1 as int,
            r.0 as int,
        ),
{
    let ghost t = text@;
    let len = text.unicode_len();
    let mut mark = start;
    while mark < len && text.get_char(mark) != 'e' && text.get_char(mark) != 'E'
        invariant
            start <= mark <= len,
            len == t.len(),
            t == text@,
            forall|k: int| start <= k < mark ==> !is_exponent_mark(#[trigger] t[k]),
        decreases len - mark,
    {
        mark = mark + 1;
    }
    let mut point = start;
    while point < mark && text.get_char(point) != '.'
        invariant
            start <= point <= mark <= len,
            len == t.len(),
            t == text@,
            forall|k: int| start <= k < point ==> #[trigger] t[k] != '.',
        decreases mark - point,
    {
        point = point + 1;
    }
    proof {
        let body = t.skip(start as int);
        let mantissa = t.subrange(start as int, mark as int);
        let frac = t.subrange(if point < mark { point + 1 } else { mark as int }, mark as int);
        lemma_split_mark(body, mark - start);
        assert(body.take(mark - start) =~= mantissa);
        if mark < len {
            assert(body.skip(mark - start + 1) =~= t.subrange(mark + 1, len as int));
        } else {
            assert(body =~= mantissa);
        }
        lemma_split_point(mantissa, point - start);
        assert(mantissa.take(point - start) =~= t.subrange(start as int, point as int));
        if point < mark {
            assert(mantissa.skip(point - start + 1) =~= frac);
        } else {
            assert(frac =~= Seq::<char>::empty());
        }
    }
    (mark, point)
}

/// The cents that the unsigned float from `start` writes; `None` where it writes none, or
/// more than `2^63`.
fn unsigned_amount(text: &str, start: usize) -> (r: Option<u64>)
    requires
        start <= text@.len(),
    ensures
        r matches Some(m) ==> magnitude_cents(text@.skip(start as int)) == Some(m as int),
        r is None ==> (magnitude_cents(text@.skip(start as int)) is None || magnitude_cents(
            text@.skip(start as int),
        )->0 > 9223372036854775808),
{
    let ghost t = text@;
    let len = text.unicode_len();
    let (mark, point) = split_body(text, start);
    let frac_from = if point < mark {
        point + 1
    } else {
        mark
    };
    let ghost whole = t.subrange(start as int, point as int);
    let ghost frac = t.subrange(frac_from as int, mark as int);
    if !digits_between(text, start, point) || !digits_between(text, frac_from, mark) {
        return None;
    }
    if point - start + (mark - frac_from) == 0 {
        return None;
    }
    let (exp_negative, exp_magnitude) = if mark < len {
        match read_exponent(text, mark + 1, len) {
            Some(x) => x,
            None => {
                return None;
            },
        }
    } else {
        (false, Some(0u128))
    };
    let ghost e: int = if mark < len {
        exponent_value(t.subrange(mark + 1, len as int))->0
    } else {
        0
    };
    assert(magnitude_cents(t.skip(start as int)) == mantissa_cents(whole, frac, e));
    // The digits of the mantissa, without their point.
    let mut digits: Vec<char> = Vec::new();
    push_chars(text, start, point, &mut digits);
    push_chars(text, frac_from, mark, &mut digits);
    assert(digits@ =~= whole + frac);
    let ghost d = digits@;
    assert(all_digits(d)) by {
        assert forall|i: int| 0 <= i < d.len() implies is_digit(#[trigger] d[i]) by {
            if i < whole.len() {
                assert(d[i] == whole[i]);
            } else {
                assert(d[i] == frac[i - whole.len()]);
            }
        }
    }
    scaled_amount(&digits, mark - frac_from, exp_negative, exp_magnitude, Ghost(e))
}

/// Reads an amount of money written as a decimal float, such as `12.5`, `-3` or `1e3`, into
/// cents. `None` where the text is no such float, where it writes a fraction of a cent, or
/// where the amount does not fit in an `i64`.
pub fn parse_amount(text: &str) -> (r: Option<i64>)
    ensures
        r == spec_amount(text@),
{
    let ghost t = text@;
    let len = text.unicode_len();
    let mut start: usize = 0;
    let mut negative = false;
    if len > 0 {
        let c = text.get_char(0);
        if c == '-' {
            negative = true;
            start = 1;
        } else if c == '+' {
            start = 1;
        }
    }
    assert((if signed(t) { t.skip(1) } else { t }) =~= t.skip(start as int));
    assert(negative == (t.len() > 0 && t[0] == '-'));
    match unsigned_amount(text, start) {
        Some(mag) => {
            if negative {
                if mag <= 9223372036854775808u64 {
                    if mag == 9223372036854775808u64 {
                        Some(i64::MIN)
                    } else {
                        Some(-(mag as i64))
                    }
                } else {
                    None
                }
            } else {
                if mag <= 9223372036854775807u64 {
                    Some(mag as i64)
                } else {
                    None
                }
            }
        },
        None => None,
    }
}

} // verus!
