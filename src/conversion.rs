//! Conversion of a payment into the two token amounts of a purchase.
//!
//! A payment buys `SCALE * paid / price` base units (truncating). Of these the
//! liquid share is `base * 20 / 100` and the locked share `base * 80 / 100`,
//! each truncated on its own. The intermediate product may exceed `u128`, so
//! the amounts are computed without it and reported as absent when they do not
//! fit in `u128`.
use vstd::arithmetic::div_mod::*;
use vstd::prelude::*;

verus! {

/// Fixed-point scale of one whole token.
pub const SCALE: u128 = 1_000_000_000_000_000_000;

/// `SCALE * 20 / 100`: the liquid part of one whole token.
pub const SALE_PART: u128 = 200_000_000_000_000_000;

/// `SCALE * 80 / 100`: the locked part of one whole token.
pub const LOCKED_PART: u128 = 800_000_000_000_000_000;

pub open spec fn pow10(i: nat) -> nat
    decreases i,
{
    if i == 0 {
        1
    } else {
        10 * pow10((i - 1) as nat)
    }
}

/// Base units bought by a payment of `paid` at `price` per whole token.
pub open spec fn base_units(paid: nat, price: nat) -> nat
    recommends
        price > 0,
{
    ((SCALE as int) * paid / (price as int)) as nat
}

/// Amount of the liquid token that a payment buys.
pub open spec fn sale_share(paid: nat, price: nat) -> nat
    recommends
        price > 0,
{
    (base_units(paid, price) * 20 / 100) as nat
}

/// Amount of the locked token that a payment buys.
pub open spec fn locked_share(paid: nat, price: nat) -> nat
    recommends
        price > 0,
{
    (base_units(paid, price) * 80 / 100) as nat
}

proof fn lemma_pow10_mono(i: nat, j: nat)
    requires
        i <= j,
    ensures
        pow10(i) <= pow10(j),
    decreases j - i,
{
    if i < j {
        lemma_pow10_mono(i, (j - 1) as nat);
    }
}

/// `a + b` split into a multiple of `m` and a remainder below `m`.
fn add_mod(a: u128, b: u128, m: u128) -> (r: (u128, u128))
    requires
        a < m,
        b < m,
    ensures
        a + b == r.0 * m + r.1,
        r.0 <= 1,
        r.1 < m,
{
    if a >= m - b {
        (1, a - (m - b))
    } else {
        (0, a + b)
    }
}

/// `10 * x` split into a multiple of `m` and a remainder below `m`.
fn times_ten_mod(x: u128, m: u128) -> (r: (u128, u128))
    requires
        x < m,
    ensures
        10 * x == r.0 * m + r.1,
        r.0 < 10,
        r.1 < m,
{
    let mut carry: u128 = 0;
    let mut acc: u128 = x;
    let mut k: u128 = 1;
    while k < 10
        invariant
            1 <= k <= 10,
            x < m,
            k * x == carry * m + acc,
            carry < k,
            acc < m,
        decreases 10 - k,
    {
        let (c, s) = add_mod(acc, x, m);
        proof {
            assert((k + 1) * x == carry * m + acc + x) by (nonlinear_arith)
                requires
                    k * x == carry * m + acc,
            ;
            assert((k + 1) * x == (carry + c) * m + s) by (nonlinear_arith)
                requires
                    (k + 1) * x == carry * m + acc + x,
                    acc + x == c * m + s,
            ;
        }
        carry = carry + c;
        acc = s;
        k = k + 1;
    }
    (carry, acc)
}

/// `SCALE * r / m`, for `r < m`, computed one decimal digit at a time.
fn scaled_fraction(r: u128, m: u128) -> (f: u128)
    requires
        r < m,
    ensures
        f == (SCALE as int) * r / (m as int),
        f < SCALE,
{
    let mut q: u128 = 0;
    let mut rem: u128 = r;
    let mut i: u128 = 0;
    proof {
        reveal_with_fuel(pow10, 19);
        assert(pow10(18) == SCALE);
        assert(pow10(0) == 1);
        assert(r * pow10(0) == r);
    }
    while i < 18
        invariant
            i <= 18,
            r < m,
            pow10(18) == SCALE,
            r * pow10(i as nat) == q * m + rem,
            q < pow10(i as nat),
            rem < m,
        decreases 18 - i,
    {
        let (c, s) = times_ten_mod(rem, m);
        proof {
            lemma_pow10_mono((i + 1) as nat, 18);
            let p = pow10(i as nat);
            assert(pow10((i + 1) as nat) == 10 * p);
            assert(r * (10 * p) == (10 * q + c) * m + s) by (nonlinear_arith)
                requires
                    r * p == q * m + rem,
                    10 * rem == c * m + s,
            ;
            assert(10 * q + c < 10 * p) by (nonlinear_arith)
                requires
                    q < p,
                    c < 10,
            ;
        }
        q = 10 * q + c;
        rem = s;
        i = i + 1;
    }
    proof {
        assert(i == 18);
        assert(r * pow10(18) == q * m + rem);
        assert((SCALE as int) * r == r * pow10(18));
        lemma_fundamental_div_mod_converse((SCALE as int) * r, m as int, q as int, rem as int);
    }
    q
}

/// Splits the payment into whole multiples of the price and a remainder, and
/// gives `SCALE * paid / price` as `SCALE * q + f`.
proof fn lemma_base_split(paid: nat, price: nat, q: nat, rem: nat, f: nat)
    requires
        price > 0,
        paid == q * price + rem,
        rem < price,
        f == (SCALE as int) * rem / (price as int),
    ensures
        base_units(paid, price) == SCALE * q + f,
{
    assert(SCALE * paid == (SCALE * q) * price + SCALE * rem) by (nonlinear_arith)
        requires
            paid == q * price + rem,
    ;
    lemma_hoist_over_denominator(SCALE * rem, SCALE * q, price);
}

/// The liquid share of `SCALE * q + f` base units.
proof fn lemma_sale_split(q: nat, f: nat)
    ensures
        (SCALE * q + f) * 20 / 100 == SALE_PART * q + f / 5,
{
    let b = SCALE * q + f;
    assert(b * 20 == (b * 20 / 20) * 20) by {
        lemma_div_by_multiple(b as int, 20);
    }
    lemma_div_by_multiple(b as int, 20);
    lemma_div_denominator(b * 20, 20, 5);
    assert(b == (SALE_PART * q) * 5 + f) by (nonlinear_arith)
        requires
            b == SCALE * q + f,
    ;
    lemma_hoist_over_denominator(f as int, SALE_PART * q, 5);
}

/// The locked share of `SCALE * q + f` base units.
proof fn lemma_locked_split(q: nat, f: nat)
    ensures
        (SCALE * q + f) * 80 / 100 == LOCKED_PART * q + (4 * f) / 5,
{
    let b = SCALE * q + f;
    assert(b * 80 == (b * 4) * 20);
    lemma_div_by_multiple((b * 4) as int, 20);
    lemma_div_denominator(b * 80, 20, 5);
    assert(b * 4 == (LOCKED_PART * q) * 5 + 4 * f) by (nonlinear_arith)
        requires
            b == SCALE * q + f,
    ;
    lemma_hoist_over_denominator((4 * f) as int, LOCKED_PART * q, 5);
}

/// Amount of the liquid token bought by `paid` at `price`, or `None` when
/// it exceeds `u128::MAX`.
pub fn token_amount(paid: u128, price: u128) -> (r: Option<u128>)
    requires
        price > 0,
    ensures
        sale_share(paid as nat, price as nat) <= u128::MAX ==> r == Some(
            sale_share(paid as nat, price as nat) as u128,
        ),
        sale_share(paid as nat, price as nat) > u128::MAX ==> r is None,
{
    let q = paid / price;
    let rem = paid % price;
    let f = scaled_fraction(rem, price);
    proof {
        lemma_fundamental_div_mod(paid as int, price as int);
        lemma_base_split(paid as nat, price as nat, q as nat, rem as nat, f as nat);
        lemma_sale_split(q as nat, f as nat);
    }
    match SALE_PART.checked_mul(q) {
        Some(whole) => whole.checked_add(f / 5),
        None => None,
    }
}

/// Amount of the locked token bought by `paid` at `price`, or `None` when
/// it exceeds `u128::MAX`.
pub fn locked_token_amount(paid: u128, price: u128) -> (r: Option<u128>)
    requires
        price > 0,
    ensures
        locked_share(paid as nat, price as nat) <= u128::MAX ==> r == Some(
            locked_share(paid as nat, price as nat) as u128,
        ),
        locked_share(paid as nat, price as nat) > u128::MAX ==> r is None,
{
    let q = paid / price;
    let rem = paid % price;
    let f = scaled_fraction(rem, price);
    proof {
        lemma_fundamental_div_mod(paid as int, price as int);
        lemma_base_split(paid as nat, price as nat, q as nat, rem as nat, f as nat);
        lemma_locked_split(q as nat, f as nat);
    }
    match LOCKED_PART.checked_mul(q) {
        Some(whole) => whole.checked_add(4 * f / 5),
        None => None,
    }
}

} // verus!
