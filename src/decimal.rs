//! Exact decimal amounts in fixed point: text is read into units of
//! 10^-12, and quotients are rounded half away from zero.
use crate::text::{all_digits, before_char, digits_value, is_digit, pow10};
use vstd::prelude::*;

verus! {

/// One whole unit in fixed point.
pub const UNIT: i128 = 1_000_000_000_000;

/// The sign and the digits after it.
pub open spec fn unsigned_part(s: Seq<char>) -> Seq<char> {
    if s.len() > 0 && s[0] == '-' {
        s.drop_first()
    } else {
        s
    }
}

/// The fractional digits: what follows the first '.', if any.
pub open spec fn frac_part(b: Seq<char>) -> Seq<char> {
    let ip = before_char(b, '.');
    if ip.len() < b.len() {
        b.subrange(ip.len() as int + 1, b.len() as int)
    } else {
        Seq::empty()
    }
}

/// The amount that a decimal text such as `-1234.5` denotes, in units of
/// 10^-12: at most twelve digits on either side of the point, at least one
/// before it. Anything else denotes no amount.
pub open spec fn fixed_value(s: Seq<char>) -> Option<int> {
    let neg = s.len() > 0 && s[0] == '-';
    let b = unsigned_part(s);
    let ip = before_char(b, '.');
    let fp = frac_part(b);
    if ip.len() == 0 || ip.len() > 12 || fp.len() > 12 || !all_digits(ip) || !all_digits(fp) {
        None
    } else {
        let v: int = (digits_value(ip) * pow10(12) + digits_value(fp) * pow10((12 - fp.len()) as nat)) as int;
        Some(
            if neg {
                -v
            } else {
                v
            },
        )
    }
}

/// `a / b` rounded to the nearest integer, halves away from zero.
pub open spec fn round_div(a: int, b: int) -> int
    recommends
        b > 0,
{
    if a >= 0 {
        (2 * a + b) / (2 * b)
    } else {
        -((-2 * a + b) / (2 * b))
    }
}

/// `a / b` rounded half away from zero, for a divisor of either sign.
pub open spec fn round_quotient(a: int, b: int) -> int
    recommends
        b != 0,
{
    if b > 0 {
        round_div(a, b)
    } else {
        round_div(-a, -b)
    }
}

/// A rounded quotient is at most one past the bound on the exact one.
pub proof fn lemma_round_div_bound(a: int, b: int, m: int)
    requires
        b > 0,
        m >= 0,
        -m * b <= a <= m * b,
    ensures
        -m - 1 <= round_div(a, b) <= m + 1,
{
    let x = if a >= 0 {
        2 * a + b
    } else {
        -2 * a + b
    };
    let q = x / (2 * b);
    vstd::arithmetic::div_mod::lemma_fundamental_div_mod(x, 2 * b);
    vstd::arithmetic::div_mod::lemma_mod_pos_bound(x, 2 * b);
    assert(x <= 2 * m * b + b) by (nonlinear_arith)
        requires
            x == (if a >= 0 {
                2 * a + b
            } else {
                -2 * a + b
            }),
            -m * b <= a <= m * b,
    ;
    assert(0 <= q <= m + 1) by (nonlinear_arith)
        requires
            x == 2 * b * q + x % (2 * b),
            0 <= x % (2 * b) < 2 * b,
            0 <= x <= 2 * m * b + b,
            b > 0,
    ;
}

/// The bound below which products of two amounts stay exact.
pub const LIMIT: i128 = 10_000_000_000_000_000_000_000_000_000_000_000_000;

/// `a / b` rounded half away from zero.
pub fn div_round(a: i128, b: i128) -> (r: i128)
    requires
        b != 0,
        -LIMIT <= a <= LIMIT,
        -LIMIT <= b <= LIMIT,
    ensures
        r == round_quotient(a as int, b as int),
{
    let (n, d) = if b > 0 {
        (a, b)
    } else {
        (-a, -b)
    };
    if n >= 0 {
        let q = (2 * n + d) / (2 * d);
        proof {
            assert(0 <= q <= 2 * n + d) by (nonlinear_arith)
                requires
                    q == (2 * n + d) / (2 * d),
                    d > 0,
                    n >= 0,
            ;
        }
        q
    } else {
        let q = (-2 * n + d) / (2 * d);
        proof {
            assert(0 <= q <= -2 * n + d) by (nonlinear_arith)
                requires
                    q == (-2 * n + d) / (2 * d),
                    d > 0,
                    n < 0,
            ;
        }
        -q
    }
}

/// The copy of `s` from position `from` on.
fn tail_from(s: &Vec<char>, from: usize) -> (r: Vec<char>)
    requires
        from <= s@.len(),
    ensures
        r@ == s@.subrange(from as int, s@.len() as int),
{
    let mut r: Vec<char> = Vec::new();
    let mut i: usize = from;
    while i < s.len()
        invariant
            from <= i <= s@.len(),
            r@ == s@.subrange(from as int, i as int),
        decreases s@.len() - i,
    {
        r.push(s[i]);
        proof {
            assert(s@.subrange(from as int, i + 1) =~= s@.subrange(from as int, i as int).push(
                s@[i as int],
            ));
        }
        i += 1;
    }
    r
}

/// The value of a string of at most twelve digits.
fn digits_to_int(d: &Vec<char>) -> (r: Option<i128>)
    requires
        d@.len() <= 12,
    ensures
        r is Some <==> all_digits(d@),
        r is Some ==> r->0 == digits_value(d@) && 0 <= r->0 < pow10(d@.len()),
{
    let mut acc: i128 = 0;
    let mut i: usize = 0;
    proof {
        lemma_pow10_mono(0, 12);
        lemma_pow10_twelve();
    }
    while i < d.len()
        invariant
            d@.len() <= 12,
            0 <= i <= d@.len(),
            all_digits(d@.subrange(0, i as int)),
            acc == digits_value(d@.subrange(0, i as int)),
            0 <= acc < pow10(i as nat),
            pow10(i as nat) <= pow10(12),
            pow10(12) == UNIT,
        decreases d@.len() - i,
    {
        let c = d[i];
        if !(c >= '0' && c <= '9') {
            proof {
                assert(!is_digit(d@[i as int]));
            }
            return None;
        }
        let v = (c as u32 - '0' as u32) as i128;
        proof {
            let pre = d@.subrange(0, i + 1);
            assert(pre.drop_last() =~= d@.subrange(0, i as int));
            assert(pre.last() == c);
            assert(pow10((i + 1) as nat) == 10 * pow10(i as nat));
            lemma_pow10_mono((i + 1) as nat, 12);
            assert(0 <= v < 10);
            assert(acc * 10 + v < pow10((i + 1) as nat)) by (nonlinear_arith)
                requires
                    0 <= acc < pow10(i as nat),
                    0 <= v < 10,
                    pow10((i + 1) as nat) == 10 * pow10(i as nat),
            ;
            assert(all_digits(pre)) by {
                assert forall|k: int| 0 <= k < pre.len() implies is_digit(#[trigger] pre[k]) by {
                    if k < i {
                        assert(pre[k] == d@.subrange(0, i as int)[k]);
                    }
                }
            }
        }
        acc = acc * 10 + v;
        i += 1;
    }
    proof {
        assert(d@.subrange(0, d@.len() as int) =~= d@);
    }
    Some(acc)
}

pub proof fn lemma_pow10_twelve()
    ensures
        pow10(12) == UNIT,
{
    reveal_with_fuel(pow10, 13);
}

pub proof fn lemma_pow10_mono(a: nat, b: nat)
    requires
        a <= b,
    ensures
        pow10(a) <= pow10(b),
    decreases b - a,
{
    if a < b {
        lemma_pow10_mono(a, (b - 1) as nat);
        crate::text::lemma_pow10_pos((b - 1) as nat);
    }
}

/// 10 to the power `k`.
fn pow10_of(k: usize) -> (r: i128)
    requires
        k <= 12,
    ensures
        r == pow10(k as nat),
{
    let mut r: i128 = 1;
    let mut i: usize = 0;
    proof {
        lemma_pow10_mono(0, 12);
        lemma_pow10_twelve();
    }
    while i < k
        invariant
            0 <= i <= k <= 12,
            r == pow10(i as nat),
            pow10(i as nat) <= pow10(12),
            pow10(12) == UNIT,
        decreases k - i,
    {
        proof {
            lemma_pow10_mono((i + 1) as nat, 12);
        }
        r = r * 10;
        i += 1;
    }
    r
}

/// Reads a decimal text as a fixed-point amount.
pub fn parse_fixed(s: &Vec<char>) -> (r: Option<i128>)
    ensures
        match r {
            Some(v) => fixed_value(s@) == Some(v as int),
            None => fixed_value(s@) is None,
        },
        r is Some ==> -UNIT * UNIT < r->0 < UNIT * UNIT,
{
    let neg = s.len() > 0 && s[0] == '-';
    let b = if neg {
        tail_from(s, 1)
    } else {
        tail_from(s, 0)
    };
    proof {
        assert(s@.subrange(0, s@.len() as int) =~= s@);
        if neg {
            assert(s@.drop_first() =~= s@.subrange(1, s@.len() as int));
        }
        assert(b@ == unsigned_part(s@));
    }
    let ip = crate::text::prefix_before(&b, '.');
    proof {
        lemma_before_char_prefix(b@, '.');
    }
    let fp = if ip.len() < b.len() {
        tail_from(&b, ip.len() + 1)
    } else {
        Vec::new()
    };
    proof {
        assert(fp@ =~= frac_part(b@));
    }
    if ip.len() == 0 || ip.len() > 12 || fp.len() > 12 {
        return None;
    }
    proof {
        lemma_pow10_mono(ip@.len(), 12);
    }
    let iv = match digits_to_int(&ip) {
        Some(v) => v,
        None => {
            return None;
        },
    };
    let fv = match digits_to_int(&fp) {
        Some(v) => v,
        None => {
            return None;
        },
    };
    let scale = pow10_of(12 - fp.len());
    proof {
        lemma_amount_bounds(iv as int, fv as int, fp@.len(), scale as int);
    }
    let v = iv * UNIT + fv * scale;
    proof {
        lemma_pow10_twelve();
        let bb = unsigned_part(s@);
        assert(bb == b@);
        assert(before_char(bb, '.') == ip@);
        assert(frac_part(bb) == fp@);
        assert(v as int == digits_value(ip@) * pow10(12) + digits_value(fp@) * pow10(
            (12 - fp@.len()) as nat,
        ));
    }
    if neg {
        Some(-v)
    } else {
        Some(v)
    }
}

proof fn lemma_amount_bounds(iv: int, fv: int, flen: nat, scale: int)
    requires
        flen <= 12,
        0 <= iv < pow10(12),
        0 <= fv < pow10(flen),
        scale == pow10((12 - flen) as nat),
    ensures
        0 <= iv * UNIT <= (UNIT - 1) * UNIT,
        0 <= fv * scale < UNIT,
{
    lemma_pow10_twelve();
    lemma_pow10_add(flen, (12 - flen) as nat);
    crate::text::lemma_pow10_pos((12 - flen) as nat);
    assert(fv * scale < UNIT) by (nonlinear_arith)
        requires
            0 <= fv < pow10(flen),
            scale >= 1,
            pow10(flen) * scale == UNIT,
    ;
    assert(0 <= fv * scale) by (nonlinear_arith)
        requires
            0 <= fv,
            scale >= 0,
    ;
    assert(0 <= iv * UNIT <= (UNIT - 1) * UNIT) by (nonlinear_arith)
        requires
            0 <= iv < UNIT,
    ;
}

pub proof fn lemma_pow10_add(a: nat, b: nat)
    ensures
        pow10(a) * pow10(b) == pow10(a + b),
    decreases a,
{
    if a == 0 {
        assert(pow10(a) == 1);
        assert(pow10(a) * pow10(b) == pow10(b));
    } else {
        lemma_pow10_add((a - 1) as nat, b);
        assert(pow10(a + b) == 10 * pow10((a - 1 + b) as nat));
        assert(pow10(a) * pow10(b) == 10 * (pow10((a - 1) as nat) * pow10(b))) by (nonlinear_arith)
            requires
                pow10(a) == 10 * pow10((a - 1) as nat),
        ;
    }
}

/// The part before the first `c` is a prefix, followed by `c` when shorter.
pub proof fn lemma_before_char_prefix(s: Seq<char>, c: char)
    ensures
        before_char(s, c).len() <= s.len(),
        before_char(s, c) == s.subrange(0, before_char(s, c).len() as int),
        before_char(s, c).len() < s.len() ==> s[before_char(s, c).len() as int] == c,
    decreases s.len(),
{
    if s.len() > 0 && s[0] != c {
        lemma_before_char_prefix(s.drop_first(), c);
        let t = before_char(s.drop_first(), c);
        assert(before_char(s, c) =~= seq![s[0]] + t);
        assert(s.subrange(0, t.len() as int + 1) =~= seq![s[0]] + s.drop_first().subrange(0, t.len() as int));
    } else if s.len() > 0 {
        assert(before_char(s, c) =~= s.subrange(0, 0));
    }
}

} // verus!
