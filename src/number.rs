//! Reading numbers out of tokens: counts, and decimal values held exactly
//! in millionths of a unit.

use vstd::prelude::*;

verus! {

/// Millionths in one unit: a decimal value `v` is held as the integer `v * SCALE`.
pub const SCALE: u64 = 1_000_000;

pub open spec fn is_digit(c: char) -> bool {
    '0' <= c && c <= '9'
}

pub open spec fn digit_of(c: char) -> nat {
    (c as u32 - '0' as u32) as nat
}

pub open spec fn all_digits(s: Seq<char>) -> bool {
    forall|i: int| 0 <= i < s.len() ==> is_digit(#[trigger] s[i])
}

/// The number that a string of decimal digits writes, most significant first.
pub open spec fn digits_value(s: Seq<char>) -> nat
    decreases s.len(),
{
    if s.len() == 0 {
        0
    } else {
        digits_value(s.drop_last()) * 10 + digit_of(s.last())
    }
}

/// A count: an optional `+`, then one or more decimal digits, naming a value
/// that fits in `usize`.
pub open spec fn count_of(s: Seq<char>) -> Option<usize> {
    let body = if s.len() > 0 && s[0] == '+' {
        s.drop_first()
    } else {
        s
    };
    if body.len() > 0 && all_digits(body) && digits_value(body) <= usize::MAX {
        Some(digits_value(body) as usize)
    } else {
        None
    }
}

fn digit_char(c: char) -> (r: Option<u64>)
    ensures
        r is Some <==> is_digit(c),
        r matches Some(d) ==> d == digit_of(c) && d <= 9,
{
    if '0' <= c && c <= '9' {
        Some((c as u32 - '0' as u32) as u64)
    } else {
        None
    }
}

proof fn lemma_digits_step(s: Seq<char>, start: int, i: int)
    requires
        0 <= start <= i < s.len(),
    ensures
        digits_value(s.subrange(start, i + 1)) == digits_value(s.subrange(start, i)) * 10
            + digit_of(s[i]),
{
    assert(s.subrange(start, i + 1).drop_last() =~= s.subrange(start, i));
}

/// Reads a count token.
pub fn parse_count(token: &Vec<char>) -> (r: Option<usize>)
    ensures
        r == count_of(token@),
{
    let n = token.len();
    let start: usize = if n > 0 && token[0] == '+' {
        1
    } else {
        0
    };
    let ghost body = token@.subrange(start as int, n as int);
    proof {
        if n > 0 && token@[0] == '+' {
            assert(body =~= token@.drop_first());
        } else {
            assert(body =~= token@);
        }
    }
    if start == n {
        return None;
    }
    let mut value: usize = 0;
    let mut big = false;
    let mut i: usize = start;
    while i < n
        invariant
            start <= i <= n,
            n == token.len(),
            body == token@.subrange(start as int, n as int),
            count_of(token@) == (if body.len() > 0 && all_digits(body) && digits_value(body)
                <= usize::MAX {
                Some(digits_value(body) as usize)
            } else {
                None
            }),
            all_digits(token@.subrange(start as int, i as int)),
            !big ==> value == digits_value(token@.subrange(start as int, i as int)),
            big ==> digits_value(token@.subrange(start as int, i as int)) > usize::MAX,
        decreases n - i,
    {
        let d = match digit_char(token[i]) {
            Some(d) => d as usize,
            None => {
                assert(!all_digits(body)) by {
                    assert(body[i - start] == token@[i as int]);
                }
                return None;
            },
        };
        proof {
            lemma_digits_step(token@, start as int, i as int);
            assert(all_digits(token@.subrange(start as int, i + 1))) by {
                assert forall|k: int| 0 <= k < i + 1 - start implies is_digit(
                    #[trigger] token@.subrange(start as int, i + 1)[k],
                ) by {
                    if k < i - start {
                        assert(token@.subrange(start as int, i + 1)[k] == token@.subrange(
                            start as int,
                            i as int,
                        )[k]);
                    }
                }
            }
        }
        if !big {
            if value <= (usize::MAX - d) / 10 {
                assert(value * 10 + d <= usize::MAX) by (nonlinear_arith)
                    requires
                        value <= (usize::MAX - d) / 10,
                        d <= 9,
                ;
                value = value * 10 + d;
            } else {
                assert(value * 10 + d > usize::MAX) by (nonlinear_arith)
                    requires
                        value > (usize::MAX - d) / 10,
                        d <= 9,
                ;
                big = true;
            }
        }
        i = i + 1;
    }
    assert(token@.subrange(start as int, n as int) == body);
    if big {
        None
    } else {
        Some(value)
    }
}

/// Digits above which a run of digits is only known to be large: beyond
/// any `i64` value and any length of text.
pub const DIGIT_CAP: u128 = 100_000_000_000_000_000_000;

pub open spec fn pow10(n: nat) -> nat
    decreases n,
{
    if n == 0 {
        1
    } else {
        10 * pow10((n - 1) as nat)
    }
}

/// `floor(d * 10^shift)`.
pub open spec fn scaled(d: nat, shift: int) -> nat {
    if shift >= 0 {
        (d * pow10(shift as nat)) as nat
    } else {
        d / pow10((-shift) as nat)
    }
}

/// `body` holds a point at `p`, with digits alone before and after it.
pub open spec fn point_at(body: Seq<char>, p: int) -> bool {
    0 <= p < body.len() && body[p] == '.' && all_digits(body.take(p)) && all_digits(
        body.skip(p + 1),
    )
}

/// The digits of an unsigned decimal without exponent, and how many of them
/// follow the point: digits, or digits around one point with at least one
/// digit in all.
pub open spec fn mantissa_of(m: Seq<char>) -> Option<(Seq<char>, nat)> {
    if m.len() > 0 && all_digits(m) {
        Some((m, 0nat))
    } else if m.len() >= 2 && exists|p: int| point_at(m, p) {
        let p = choose|p: int| point_at(m, p);
        Some((m.take(p) + m.skip(p + 1), (m.len() - p - 1) as nat))
    } else {
        None
    }
}

/// An exponent: an optional sign, then one or more decimal digits.
pub open spec fn exponent_of(x: Seq<char>) -> Option<int> {
    let signed = x.len() > 0 && (x[0] == '+' || x[0] == '-');
    let digits = if signed {
        x.drop_first()
    } else {
        x
    };
    if digits.len() > 0 && all_digits(digits) {
        Some(
            if signed && x[0] == '-' {
                -(digits_value(digits) as int)
            } else {
                digits_value(digits) as int
            },
        )
    } else {
        None
    }
}

pub open spec fn is_exponent_mark(c: char) -> bool {
    c == 'e' || c == 'E'
}

/// `body` is a mantissa, an exponent mark at `q`, and an exponent.
pub open spec fn exponent_at(body: Seq<char>, q: int) -> bool {
    &&& 0 <= q < body.len()
    &&& is_exponent_mark(body[q])
    &&& mantissa_of(body.take(q)) is Some
    &&& exponent_of(body.skip(q + 1)) is Some
}

/// The magnitude, in millionths and truncated, of an unsigned decimal: a
/// mantissa, optionally followed by `e` or `E` and an exponent.
pub open spec fn magnitude_of(body: Seq<char>) -> Option<nat> {
    if mantissa_of(body) is Some {
        let (d, f) = mantissa_of(body)->0;
        Some(scaled(digits_value(d), 6 - f))
    } else if exists|q: int| exponent_at(body, q) {
        let q = choose|q: int| exponent_at(body, q);
        let (d, f) = mantissa_of(body.take(q))->0;
        Some(scaled(digits_value(d), exponent_of(body.skip(q + 1))->0 + 6 - f))
    } else {
        None
    }
}

/// A decimal value in millionths: an optional sign, then an unsigned decimal
/// whose magnitude fits in `i64`. Digits past the sixth decimal place are
/// dropped; words such as `inf` or `NaN` are not read.
pub open spec fn fixed_of(s: Seq<char>) -> Option<i64> {
    let signed = s.len() > 0 && (s[0] == '+' || s[0] == '-');
    let body = if signed {
        s.drop_first()
    } else {
        s
    };
    let m = magnitude_of(body);
    if m is Some && m->0 <= i64::MAX {
        Some(
            if signed && s[0] == '-' {
                -(m->0 as int)
            } else {
                m->0 as int
            } as i64,
        )
    } else {
        None
    }
}

proof fn lemma_point_unique(body: Seq<char>, p: int, q: int)
    requires
        point_at(body, p),
        point_at(body, q),
    ensures
        p == q,
{
    if p < q {
        assert(body.take(q)[p] == body[p]);
    } else if q < p {
        assert(body.take(p)[q] == body[q]);
    }
}

proof fn lemma_not_point_before(body: Seq<char>, q: int)
    requires
        0 <= q <= body.len(),
        all_digits(body.take(q)),
    ensures
        forall|p: int| 0 <= p < q ==> !point_at(body, p),
{
    assert forall|p: int| 0 <= p < q implies !point_at(body, p) by {
        assert(body.take(q)[p] == body[p]);
    }
}

proof fn lemma_not_point_after(body: Seq<char>, q: int)
    requires
        0 <= q < body.len(),
        !is_digit(body[q]),
    ensures
        forall|p: int| q < p ==> !point_at(body, p),
        !all_digits(body),
{
    assert forall|p: int| q < p implies !point_at(body, p) by {
        if point_at(body, p) {
            assert(body.take(p)[q] == body[q]);
        }
    }
}

/// A mantissa whose digits end at `q` with a character that is neither a
/// digit nor a point is no mantissa.
proof fn lemma_mantissa_stray(m: Seq<char>, q: int)
    requires
        0 <= q < m.len(),
        all_digits(m.take(q)),
        !is_digit(m[q]),
        m[q] != '.',
    ensures
        mantissa_of(m) is None,
{
    lemma_not_point_before(m, q);
    lemma_not_point_after(m, q);
}

/// A mantissa whose fraction holds a non-digit is no mantissa.
proof fn lemma_mantissa_bad_fraction(m: Seq<char>, q: int)
    requires
        0 <= q < m.len(),
        all_digits(m.take(q)),
        m[q] == '.',
        !all_digits(m.skip(q + 1)),
    ensures
        mantissa_of(m) is None,
{
    lemma_not_point_before(m, q);
    lemma_not_point_after(m, q);
}

proof fn lemma_mantissa_point(m: Seq<char>, q: int)
    requires
        point_at(m, q),
    ensures
        !all_digits(m),
        mantissa_of(m) == if m.len() >= 2 {
            Some((m.take(q) + m.skip(q + 1), (m.len() - q - 1) as nat))
        } else {
            None::<(Seq<char>, nat)>
        },
{
    lemma_not_point_after(m, q);
    let p = choose|p: int| point_at(m, p);
    lemma_point_unique(m, p, q);
}

/// A mantissa holds only digits and points.
proof fn lemma_mantissa_chars(m: Seq<char>, i: int)
    requires
        mantissa_of(m) is Some,
        0 <= i < m.len(),
    ensures
        is_digit(m[i]) || m[i] == '.',
{
    if !all_digits(m) {
        let p = choose|p: int| point_at(m, p);
        if i < p {
            assert(m.take(p)[i] == m[i]);
        } else if i > p {
            assert(m.skip(p + 1)[i - p - 1] == m[i]);
        }
    }
}

/// The digits of `s` written with `n` digits make a number below `10^n`.
proof fn lemma_digits_bound(s: Seq<char>)
    requires
        all_digits(s),
    ensures
        digits_value(s) < pow10(s.len()),
    decreases s.len(),
{
    if s.len() > 0 {
        let t = s.drop_last();
        assert(all_digits(t)) by {
            assert forall|i: int| 0 <= i < t.len() implies is_digit(#[trigger] t[i]) by {
                assert(t[i] == s[i]);
            }
        }
        lemma_digits_bound(t);
        assert(is_digit(s[s.len() - 1]));
    }
}

/// Dropping the last `m` digits divides by `10^m`.
proof fn lemma_digits_div(s: Seq<char>, m: nat)
    requires
        m <= s.len(),
        all_digits(s),
    ensures
        digits_value(s) / pow10(m) == digits_value(s.take(s.len() - m)),
    decreases m,
{
    if m == 0 {
        assert(s.take(s.len() as int) =~= s);
        assert(pow10(0) == 1);
    } else {
        let t = s.drop_last();
        assert(all_digits(t)) by {
            assert forall|i: int| 0 <= i < t.len() implies is_digit(#[trigger] t[i]) by {
                assert(t[i] == s[i]);
            }
        }
        assert(is_digit(s[s.len() - 1]));
        lemma_digits_div(t, (m - 1) as nat);
        assert(t.take(t.len() - (m - 1)) =~= s.take(s.len() - m));
        let x = digits_value(s);
        vstd::arithmetic::div_mod::lemma_fundamental_div_mod_converse(
            x as int,
            10,
            digits_value(t) as int,
            digit_of(s.last()) as int,
        );
        lemma_pow10_positive((m - 1) as nat);
        let p = pow10((m - 1) as nat) as int;
        vstd::arithmetic::div_mod::lemma_div_denominator(x as int, 10, p);
        assert(pow10(m) == 10 * p);
        assert(x as int / 10 == digits_value(t));
        assert(x / pow10(m) == (x as int / 10) / p);
        assert(digits_value(t) / pow10((m - 1) as nat) == digits_value(
            t.take(t.len() - (m - 1) as nat),
        ));
        assert(t.take(t.len() - (m - 1) as nat) =~= s.take(s.len() - m));
        assert(digits_value(s) / pow10(m) == digits_value(s.take(s.len() - m)));
    }
}

proof fn lemma_pow10_positive(n: nat)
    ensures
        pow10(n) >= 1,
    decreases n,
{
    if n > 0 {
        lemma_pow10_positive((n - 1) as nat);
    }
}

proof fn lemma_pow10_monotone(a: nat, b: nat)
    requires
        a <= b,
    ensures
        pow10(a) <= pow10(b),
    decreases b,
{
    if a < b {
        lemma_pow10_monotone(a, (b - 1) as nat);
        lemma_pow10_positive((b - 1) as nat);
    }
}

proof fn lemma_pow10_19()
    ensures
        pow10(19) == 10_000_000_000_000_000_000,
{
    reveal_with_fuel(pow10, 20);
}

/// From a shift of 19 on, any digits but zeros leave `i64`.
proof fn lemma_scaled_high(d: nat, shift: int)
    requires
        shift >= 19,
    ensures
        d == 0 ==> scaled(d, shift) == 0,
        d >= 1 ==> scaled(d, shift) > i64::MAX,
{
    lemma_pow10_monotone(19, shift as nat);
    lemma_pow10_19();
    let p = pow10(shift as nat);
    assert(d >= 1 ==> d * p >= p) by (nonlinear_arith)
        requires
            p >= 1,
    ;
}

/// A shift down by at least as many places as there are digits leaves 0.
proof fn lemma_scaled_low(s: Seq<char>, shift: int)
    requires
        all_digits(s),
        shift <= -(s.len() as int),
        shift < 0,
    ensures
        scaled(digits_value(s), shift) == 0,
{
    lemma_digits_bound(s);
    lemma_pow10_monotone(s.len(), (-shift) as nat);
    vstd::arithmetic::div_mod::lemma_basic_div(
        digits_value(s) as int,
        pow10((-shift) as nat) as int,
    );
}

/// The number that `token[lo..hi]` writes, or that it exceeds `DIGIT_CAP`.
fn digits_capped(token: &Vec<char>, lo: usize, hi: usize) -> (r: (u128, bool))
    requires
        lo <= hi <= token.len(),
        all_digits(token@.subrange(lo as int, hi as int)),
    ensures
        !r.1 ==> r.0 == digits_value(token@.subrange(lo as int, hi as int)) && r.0 <= DIGIT_CAP,
        r.1 ==> digits_value(token@.subrange(lo as int, hi as int)) > DIGIT_CAP,
{
    let mut value: u128 = 0;
    let mut big = false;
    let mut i: usize = lo;
    while i < hi
        invariant
            lo <= i <= hi <= token.len(),
            all_digits(token@.subrange(lo as int, hi as int)),
            !big ==> value == digits_value(token@.subrange(lo as int, i as int)) && value
                <= DIGIT_CAP,
            big ==> digits_value(token@.subrange(lo as int, i as int)) > DIGIT_CAP,
        decreases hi - i,
    {
        assert(token@.subrange(lo as int, hi as int)[i - lo] == token@[i as int]);
        let d = (token[i] as u32 - '0' as u32) as u128;
        proof {
            lemma_digits_step(token@, lo as int, i as int);
        }
        if !big {
            if value * 10 + d <= DIGIT_CAP {
                value = value * 10 + d;
            } else {
                big = true;
            }
        }
        i = i + 1;
    }
    (value, big)
}

/// Whether `token[lo..hi]` is digits alone.
fn digits_in(token: &Vec<char>, lo: usize, hi: usize) -> (r: bool)
    requires
        lo <= hi <= token.len(),
    ensures
        r == all_digits(token@.subrange(lo as int, hi as int)),
{
    let mut j: usize = lo;
    while j < hi
        invariant
            lo <= j <= hi <= token.len(),
            all_digits(token@.subrange(lo as int, j as int)),
        decreases hi - j,
    {
        if !('0' <= token[j] && token[j] <= '9') {
            assert(token@.subrange(lo as int, hi as int)[j - lo] == token@[j as int]);
            return false;
        }
        assert forall|k: int| 0 <= k < j + 1 - lo implies is_digit(
            #[trigger] token@.subrange(lo as int, j + 1)[k],
        ) by {
            if k < j - lo {
                assert(token@.subrange(lo as int, j + 1)[k] == token@.subrange(
                    lo as int,
                    j as int,
                )[k]);
            }
        }
        j = j + 1;
    }
    true
}

/// Appends `token[lo..hi]` to `out`.
fn push_range(out: &mut Vec<char>, token: &Vec<char>, lo: usize, hi: usize)
    requires
        lo <= hi <= token.len(),
    ensures
        final(out)@ == old(out)@ + token@.subrange(lo as int, hi as int),
{
    let ghost start = out@;
    let mut i: usize = lo;
    while i < hi
        invariant
            lo <= i <= hi <= token.len(),
            out@ == start + token@.subrange(lo as int, i as int),
        decreases hi - i,
    {
        out.push(token[i]);
        assert(start + token@.subrange(lo as int, i + 1) =~= (start + token@.subrange(
            lo as int,
            i as int,
        )).push(token@[i as int]));
        i = i + 1;
    }
}

/// The mantissa `token[lo..hi]`: its digits and how many follow the point.
fn parse_mantissa(token: &Vec<char>, lo: usize, hi: usize) -> (r: Option<(Vec<char>, usize)>)
    requires
        lo <= hi <= token.len(),
    ensures
        match r {
            Some((d, f)) => mantissa_of(token@.subrange(lo as int, hi as int)) == Some(
                (d@, f as nat),
            ) && all_digits(d@),
            None => mantissa_of(token@.subrange(lo as int, hi as int)) is None,
        },
{
    let ghost m = token@.subrange(lo as int, hi as int);
    let mut i: usize = lo;
    while i < hi
        invariant
            lo <= i <= hi <= token.len(),
            all_digits(token@.subrange(lo as int, i as int)),
        ensures
            i < hi ==> !is_digit(token@[i as int]),
        decreases hi - i,
    {
        if !('0' <= token[i] && token[i] <= '9') {
            break;
        }
        assert forall|k: int| 0 <= k < i + 1 - lo implies is_digit(
            #[trigger] token@.subrange(lo as int, i + 1)[k],
        ) by {
            if k < i - lo {
                assert(token@.subrange(lo as int, i + 1)[k] == token@.subrange(
                    lo as int,
                    i as int,
                )[k]);
            }
        }
        i = i + 1;
    }
    let ghost q = i - lo;
    assert(m.take(q) =~= token@.subrange(lo as int, i as int));
    if i == hi {
        if hi == lo {
            return None;
        }
        assert(m.take(q) =~= m);
        let mut d: Vec<char> = Vec::new();
        push_range(&mut d, token, lo, hi);
        assert(d@ =~= m);
        return Some((d, 0));
    }
    assert(m[q] == token@[i as int]);
    if token[i] != '.' {
        proof {
            lemma_mantissa_stray(m, q);
        }
        return None;
    }
    assert(m.skip(q + 1) =~= token@.subrange(i + 1, hi as int));
    if !digits_in(token, i + 1, hi) {
        proof {
            lemma_mantissa_bad_fraction(m, q);
        }
        return None;
    }
    proof {
        lemma_mantissa_point(m, q);
    }
    if hi - lo < 2 {
        return None;
    }
    let mut d: Vec<char> = Vec::new();
    push_range(&mut d, token, lo, i);
    push_range(&mut d, token, i + 1, hi);
    assert(d@ =~= m.take(q) + m.skip(q + 1));
    assert(all_digits(d@)) by {
        assert forall|k: int| 0 <= k < d@.len() implies is_digit(#[trigger] d@[k]) by {
            if k < q {
                assert(d@[k] == m.take(q)[k]);
            } else {
                assert(d@[k] == m.skip(q + 1)[k - q]);
            }
        }
    }
    Some((d, hi - i - 1))
}

/// The exponent `token[from..]`, held within `DIGIT_CAP + 1` either way.
fn parse_exponent(token: &Vec<char>, from: usize) -> (r: Option<i128>)
    requires
        from <= token.len(),
    ensures
        r is Some <==> exponent_of(token@.skip(from as int)) is Some,
        r matches Some(e) ==> {
            let t = exponent_of(token@.skip(from as int))->0;
            &&& -DIGIT_CAP <= t <= DIGIT_CAP ==> e == t
            &&& t > DIGIT_CAP ==> e == DIGIT_CAP + 1
            &&& t < -DIGIT_CAP ==> e == -(DIGIT_CAP + 1)
        },
{
    let ghost x = token@.skip(from as int);
    let n = token.len();
    let signed = from < n && (token[from] == '+' || token[from] == '-');
    let negative = signed && token[from] == '-';
    let start: usize = if signed {
        from + 1
    } else {
        from
    };
    proof {
        if signed {
            assert(x.drop_first() =~= token@.subrange(start as int, n as int));
            assert(x[0] == token@[from as int]);
        } else {
            assert(x =~= token@.subrange(start as int, n as int));
        }
    }
    if start == n {
        return None;
    }
    if !digits_in(token, start, n) {
        return None;
    }
    let (v, big) = digits_capped(token, start, n);
    let magnitude: i128 = if big {
        (DIGIT_CAP + 1) as i128
    } else {
        v as i128
    };
    if negative {
        Some(-magnitude)
    } else {
        Some(magnitude)
    }
}

/// `floor(digits * 10^shift)` where it fits in `i64`.
fn scale_digits(d: &Vec<char>, shift: i128) -> (r: Option<u64>)
    requires
        all_digits(d@),
        shift > i128::MIN,
    ensures
        r == (if scaled(digits_value(d@), shift as int) <= i64::MAX {
            Some(scaled(digits_value(d@), shift as int) as u64)
        } else {
            None::<u64>
        }),
{
    let ghost dv = digits_value(d@);
    if shift >= 0 {
        assert(d@.subrange(0, d@.len() as int) =~= d@);
        let (v, big) = digits_capped(d, 0, d.len());
        if !big && v == 0 {
            assert(v == dv);
            assert(dv * pow10(shift as nat) == 0) by (nonlinear_arith)
                requires
                    dv == 0,
            ;
            return Some(0);
        }
        if shift >= 19 {
            proof {
                lemma_scaled_high(dv, shift as int);
            }
            return None;
        }
        if big || v > 0x7fff_ffff_ffff_ffff {
            proof {
                lemma_pow10_positive(shift as nat);
                let p = pow10(shift as nat);
                assert(dv * p >= dv) by (nonlinear_arith)
                    requires
                        p >= 1,
                ;
                assert(scaled(dv, shift as int) > i64::MAX);
            }
            return None;
        }
        let mut acc: u128 = v;
        let mut j: i128 = 0;
        assert(pow10(0) == 1);
        assert(acc == dv * pow10(j as nat)) by {
            assert(j as nat == 0);
            assert(dv * 1 == dv);
        }
        while j < shift
            invariant
                0 <= j <= shift < 19,
                dv == digits_value(d@),
                v == dv,
                acc == dv * pow10(j as nat),
                acc <= i64::MAX,
            decreases shift - j,
        {
            if acc * 10 > 0x7fff_ffff_ffff_ffff {
                proof {
                    lemma_pow10_monotone((j + 1) as nat, shift as nat);
                    let a = pow10((j + 1) as nat);
                    let b = pow10(shift as nat);
                    assert(a == 10 * pow10(j as nat));
                    assert(dv * a <= dv * b) by (nonlinear_arith)
                        requires
                            a <= b,
                            dv >= 0,
                    ;
                    assert(dv * a == acc * 10) by (nonlinear_arith)
                        requires
                            acc == dv * pow10(j as nat),
                            a == 10 * pow10(j as nat),
                    ;
                    assert(scaled(dv, shift as int) == dv * b);
                    assert(scaled(dv, shift as int) > i64::MAX);
                }
                return None;
            }
            proof {
                assert(acc * 10 == dv * pow10((j + 1) as nat)) by (nonlinear_arith)
                    requires
                        acc == dv * pow10(j as nat),
                        pow10((j + 1) as nat) == 10 * pow10(j as nat),
                ;
            }
            acc = acc * 10;
            j = j + 1;
        }
        Some(acc as u64)
    } else {
        let m = -shift;
        if m >= d.len() as i128 {
            proof {
                lemma_scaled_low(d@, shift as int);
            }
            return Some(0);
        }
        let keep = d.len() - m as usize;
        assert(d@.subrange(0, keep as int) =~= d@.take(keep as int));
        let (v, big) = digits_capped(d, 0, keep);
        proof {
            lemma_digits_div(d@, m as nat);
        }
        if big || v > 0x7fff_ffff_ffff_ffff {
            return None;
        }
        Some(v as u64)
    }
}

/// Two shifts on the same side of both limits scale the same digits alike.
proof fn lemma_same_outcome(s: Seq<char>, a: int, b: int)
    requires
        all_digits(s),
        a == b || (a >= 19 && b >= 19) || (a < 0 && b < 0 && a <= -(s.len() as int) && b <= -(
        s.len() as int)),
    ensures
        scaled(digits_value(s), a) == scaled(digits_value(s), b) || (scaled(digits_value(s), a)
            > i64::MAX && scaled(digits_value(s), b) > i64::MAX),
{
    if a != b {
        if a >= 19 {
            lemma_scaled_high(digits_value(s), a);
            lemma_scaled_high(digits_value(s), b);
        } else {
            lemma_scaled_low(s, a);
            lemma_scaled_low(s, b);
        }
    }
}

/// The first exponent mark in `token[lo..]`, or the length.
fn find_exponent_mark(token: &Vec<char>, lo: usize) -> (q: usize)
    requires
        lo <= token.len(),
    ensures
        lo <= q <= token.len(),
        forall|k: int| lo <= k < q ==> !is_exponent_mark(#[trigger] token@[k]),
        q < token.len() ==> is_exponent_mark(token@[q as int]),
{
    let mut q: usize = lo;
    while q < token.len()
        invariant
            lo <= q <= token.len(),
            forall|k: int| lo <= k < q ==> !is_exponent_mark(#[trigger] token@[k]),
        decreases token.len() - q,
    {
        if token[q] == 'e' || token[q] == 'E' {
            return q;
        }
        q = q + 1;
    }
    q
}

/// A decimal without exponent mark is its mantissa.
proof fn lemma_magnitude_plain(body: Seq<char>)
    requires
        forall|k: int| 0 <= k < body.len() ==> !is_exponent_mark(#[trigger] body[k]),
    ensures
        magnitude_of(body) == match mantissa_of(body) {
            Some((d, f)) => Some(scaled(digits_value(d), 6 - f)),
            None => None::<nat>,
        },
{
    assert forall|p: int| !exponent_at(body, p) by {
        if 0 <= p < body.len() {
            assert(!is_exponent_mark(body[p]));
        }
    }
}

/// A decimal whose first exponent mark is at `q` is a mantissa before it
/// and an exponent after it.
proof fn lemma_magnitude_marked(body: Seq<char>, q: int)
    requires
        0 <= q < body.len(),
        is_exponent_mark(body[q]),
        forall|k: int| 0 <= k < q ==> !is_exponent_mark(#[trigger] body[k]),
    ensures
        magnitude_of(body) == match (mantissa_of(body.take(q)), exponent_of(body.skip(q + 1))) {
            (Some((d, f)), Some(e)) => Some(scaled(digits_value(d), e + 6 - f)),
            _ => None::<nat>,
        },
{
    if mantissa_of(body) is Some {
        lemma_mantissa_chars(body, q);
    }
    assert forall|p: int| p != q implies !exponent_at(body, p) by {
        if exponent_at(body, p) {
            if p < q {
                assert(!is_exponent_mark(body[p]));
            } else {
                assert(body.take(p)[q] == body[q]);
                lemma_mantissa_chars(body.take(p), q);
            }
        }
    }
    if exponent_at(body, q) {
        let c = choose|c: int| exponent_at(body, c);
        assert(c == q);
    }
}

/// The magnitude of the unsigned decimal `token[start..]`, where it fits in
/// `i64`.
fn parse_magnitude(token: &Vec<char>, start: usize) -> (r: Option<u64>)
    requires
        start <= token.len(),
    ensures
        r == (match magnitude_of(token@.skip(start as int)) {
            Some(m) => if m <= i64::MAX {
                Some(m as u64)
            } else {
                None
            },
            None => None,
        }),
{
    let ghost body = token@.skip(start as int);
    let n = token.len();
    let q = find_exponent_mark(token, start);
    let ghost qq = q - start;
    assert forall|k: int| 0 <= k < qq implies !is_exponent_mark(#[trigger] body[k]) by {
        assert(body[k] == token@[start + k]);
    }
    assert(body.take(qq) =~= token@.subrange(start as int, q as int));
    let mantissa = parse_mantissa(token, start, q);
    let mut exponent: i128 = 0;
    let ghost mut true_shift: int = 0;
    if q < n {
        assert(body[qq] == token@[q as int]);
        proof {
            lemma_magnitude_marked(body, qq);
        }
        assert(body.skip(qq + 1) =~= token@.skip(q + 1));
        match parse_exponent(token, q + 1) {
            Some(e) => {
                exponent = e;
            },
            None => {
                return None;
            },
        }
        proof {
            true_shift = exponent_of(body.skip(qq + 1))->0 + 6;
        }
    } else {
        assert(body.take(qq) =~= body);
        proof {
            lemma_magnitude_plain(body);
            true_shift = 6;
        }
    }
    let (digits, fraction) = match mantissa {
        Some(m) => m,
        None => {
            return None;
        },
    };
    let shift: i128 = exponent + 6 - fraction as i128;
    proof {
        lemma_same_outcome(digits@, true_shift - fraction, shift as int);
    }
    scale_digits(&digits, shift)
}

/// Reads a decimal token into millionths.
pub fn parse_fixed(token: &Vec<char>) -> (r: Option<i64>)
    ensures
        r == fixed_of(token@),
{
    let n = token.len();
    let signed = n > 0 && (token[0] == '+' || token[0] == '-');
    let negative = signed && token[0] == '-';
    let start: usize = if signed {
        1
    } else {
        0
    };
    proof {
        if signed {
            assert(token@.skip(1) =~= token@.drop_first());
        } else {
            assert(token@.skip(0) =~= token@);
        }
    }
    match parse_magnitude(token, start) {
        Some(m) => {
            if negative {
                Some(-(m as i64))
            } else {
                Some(m as i64)
            }
        },
        None => None,
    }
}

} // verus!
