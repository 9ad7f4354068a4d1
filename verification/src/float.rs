//! Binary64 numbers, as their bit patterns.
//!
//! A number is never held as a machine float here: it is the 64 bits of one, and
//! what those bits stand for is stated over the integers.

use crate::big::Big;
use crate::text::{cat2, cat3, chars_of, digit, digit_char, digits, push_char, string_of};
use vstd::arithmetic::power::{lemma1_pow, lemma_pow0, lemma_pow_positive, pow};
use vstd::arithmetic::power2::{
    lemma2_to64, lemma2_to64_rest, lemma_pow2_adds, lemma_pow2_pos, lemma_pow2_strictly_increases,
    lemma_pow2_unfold, pow2,
};
use vstd::prelude::*;

verus! {

pub const SIGN: u64 = 0x8000_0000_0000_0000;

pub const HIDDEN: u64 = 0x10_0000_0000_0000;

pub const INFINITE: u64 = 0x7ff0_0000_0000_0000;

/// A number that is none.
pub const NAN: u64 = 0x7ff8_0000_0000_0000;

// -- rounding --------------------------------------------------------------------------------

/// A quotient of naturals rounded to the nearest natural, ties to even.
pub open spec fn nearest(num: nat, den: nat) -> nat
    recommends
        den > 0,
{
    let down = num / den;
    let twice = 2 * (num % den);
    if twice < den || (twice == den && down % 2 == 0) {
        down
    } else {
        down + 1
    }
}

/// A number times two to the `j`, where `j` is positive.
pub open spec fn up(x: nat, j: int) -> nat {
    if j > 0 {
        x * pow2(j as nat)
    } else {
        x
    }
}

/// Whether `num` times two to the `j` is less than `den`.
pub open spec fn scaled_less(num: nat, den: nat, j: int) -> bool {
    up(num, j) < up(den, -j)
}

/// The quotient of `num` times two to the `j` and `den`, rounded.
pub open spec fn scaled_nearest(num: nat, den: nat, j: int) -> nat {
    nearest(up(num, j), up(den, -j))
}

/// Whether the last binary place of `num / den` times two to the `e` stands for two to
/// the `t`: a number has 53 places, or fewer where they would go below two to the -1074.
pub open spec fn is_place(num: nat, den: nat, e: int, t: int) -> bool {
    &&& t >= -1074
    &&& scaled_less(num, den, e - t - 53)
    &&& t == -1074 || !scaled_less(num, den, e - t - 52)
}

pub open spec fn place(num: nat, den: nat, e: int) -> int {
    choose|t: int| is_place(num, den, e, t)
}

/// The bits of the number nearest to `num / den` times two to the `e`, ties to even.
/// Rounding up to the next power of two carries into the exponent, and past the largest
/// number into infinity.
pub open spec fn rounded(num: nat, den: nat, e: int) -> u64 {
    let t = place(num, den, e);
    let bits = (t + 1074) * HIDDEN + scaled_nearest(num, den, e - t);
    if bits < INFINITE {
        bits as u64
    } else {
        INFINITE
    }
}

proof fn lemma_less_double_num(num: nat, den: nat, j: int)
    ensures
        scaled_less(2 * num, den, j) == scaled_less(num, den, j + 1),
{
    if j >= 0 {
        lemma_pow2_unfold((j + 1) as nat);
        let a = pow2(j as nat);
        assert((2 * num) * a == num * (2 * a)) by (nonlinear_arith);
        if j == 0 {
            lemma2_to64();
            assert(num * 2 == 2 * num);
        }
    } else {
        lemma_pow2_unfold((-j) as nat);
        let a = pow2((-j - 1) as nat);
        assert(den * (2 * a) == 2 * (den * a)) by (nonlinear_arith);
        if j == -1 {
            lemma2_to64();
            assert(den * 1 == den) by (nonlinear_arith);
        }
    }
}

proof fn lemma_less_double_den(num: nat, den: nat, j: int)
    ensures
        scaled_less(num, 2 * den, j) == scaled_less(num, den, j - 1),
{
    if j <= 0 {
        lemma_pow2_unfold((1 - j) as nat);
        let a = pow2((-j) as nat);
        assert((2 * den) * a == den * (2 * a)) by (nonlinear_arith);
        if j == 0 {
            lemma2_to64();
            assert(den * 2 == 2 * den);
        }
    } else {
        lemma_pow2_unfold(j as nat);
        let a = pow2((j - 1) as nat);
        assert(num * (2 * a) == 2 * (num * a)) by (nonlinear_arith);
        if j == 1 {
            lemma2_to64();
            assert(num * 1 == num) by (nonlinear_arith);
        }
    }
}

proof fn lemma_nearest_twice(p: nat, q: nat)
    requires
        q > 0,
    ensures
        nearest(2 * p, 2 * q) == nearest(p, q),
{
    let d = p / q;
    let r = p % q;
    assert(p == q * d + r && 0 <= r < q) by (nonlinear_arith)
        requires
            q > 0,
            d == p / q,
            r == p % q,
    ;
    assert(2 * p == (2 * q) * d + 2 * r) by (nonlinear_arith)
        requires
            p == q * d + r,
    ;
    lemma_div_is(2 * p, 2 * q, d, 2 * r);
}

/// A quotient and what is left determine each other.
proof fn lemma_div_is(p: nat, q: nat, d: nat, r: nat)
    requires
        q > 0,
        p == q * d + r,
        r < q,
    ensures
        p / q == d,
        p % q == r,
{
    assert(p / q == d && p % q == r) by (nonlinear_arith)
        requires
            q > 0,
            p == q * d + r,
            0 <= r < q,
            d >= 0,
    ;
}

proof fn lemma_nearest_double_num(num: nat, den: nat, j: int)
    requires
        den > 0,
    ensures
        scaled_nearest(2 * num, den, j) == scaled_nearest(num, den, j + 1),
{
    if j >= 0 {
        lemma_pow2_unfold((j + 1) as nat);
        let a = pow2(j as nat);
        assert((2 * num) * a == num * (2 * a)) by (nonlinear_arith);
        if j == 0 {
            lemma2_to64();
            assert(num * 2 == 2 * num);
        }
    } else {
        lemma_pow2_unfold((-j) as nat);
        lemma_pow2_pos((-j - 1) as nat);
        let a = pow2((-j - 1) as nat);
        assert(den * (2 * a) == 2 * (den * a)) by (nonlinear_arith);
        assert(den * a > 0) by (nonlinear_arith)
            requires
                den > 0,
                a > 0,
        ;
        lemma_nearest_twice(num, den * a);
        if j == -1 {
            lemma2_to64();
            assert(den * 1 == den) by (nonlinear_arith);
        }
    }
}

proof fn lemma_nearest_double_den(num: nat, den: nat, j: int)
    requires
        den > 0,
    ensures
        scaled_nearest(num, 2 * den, j) == scaled_nearest(num, den, j - 1),
{
    if j <= 0 {
        lemma_pow2_unfold((1 - j) as nat);
        let a = pow2((-j) as nat);
        assert((2 * den) * a == den * (2 * a)) by (nonlinear_arith);
        if j == 0 {
            lemma2_to64();
            assert(den * 2 == 2 * den);
        }
    } else {
        lemma_pow2_unfold(j as nat);
        let a = pow2((j - 1) as nat);
        assert(num * (2 * a) == 2 * (num * a)) by (nonlinear_arith);
        lemma_nearest_twice(num * a, den);
        if j == 1 {
            lemma2_to64();
            assert(num * 1 == num) by (nonlinear_arith);
        }
    }
}

/// What is less stays so when it is scaled less.
proof fn lemma_less_monotonic(num: nat, den: nat, j: int, k: int)
    requires
        k <= j,
        scaled_less(num, den, j),
    ensures
        scaled_less(num, den, k),
    decreases j - k,
{
    if k < j {
        lemma_less_double_num(num, den, j - 1);
        assert(scaled_less(2 * num, den, j - 1));
        let i = j - 1;
        if i > 0 {
            let a = pow2(i as nat);
            assert(num * a <= (2 * num) * a) by (nonlinear_arith)
                requires
                    a >= 0,
                    num >= 0,
            ;
        }
        assert(scaled_less(num, den, i));
        lemma_less_monotonic(num, den, i, k);
    }
}

/// A number has one last place.
proof fn lemma_place_unique(num: nat, den: nat, e: int, t: int)
    requires
        is_place(num, den, e, t),
    ensures
        place(num, den, e) == t,
{
    let u = place(num, den, e);
    assert(is_place(num, den, e, u));
    if u < t {
        lemma_less_monotonic(num, den, e - u - 53, e - t - 52);
    } else if t < u {
        lemma_less_monotonic(num, den, e - t - 53, e - u - 52);
    }
}

/// Counts that come of doubling stay far below this.
pub const FAR: i128 = 0x40_0000_0000_0000_0000;

/// How many doublings a number of this many digits can take.
proof fn lemma_few_doublings(n: &Big, d: nat, count: nat)
    requires
        d > 0,
        d * pow2(count) <= n@,
    ensures
        count < 32 * n.digits@.len(),
{
    crate::big::lemma_bits(n.digits@);
    let bits = 32 * n.digits@.len();
    if count >= bits {
        if count > bits {
            lemma_pow2_strictly_increases(bits, count);
        }
        let p = pow2(count);
        assert(p <= d * p) by (nonlinear_arith)
            requires
                d >= 1,
                p >= 0,
        ;
    }
}

/// A quotient brought to between a half and one by doubling: both parts, and how often
/// each was doubled.
struct Normal {
    num: Big,
    den: Big,
    ups: i128,
    downs: i128,
}

fn normalized(num: &Big, den: &Big) -> (r: Normal)
    requires
        num@ > 0,
        den@ > 0,
    ensures
        r.num@ < r.den@ <= 2 * r.num@,
        0 <= r.ups < FAR,
        0 <= r.downs < FAR,
        forall|j: int| #[trigger]
            scaled_less(r.num@, r.den@, j) == scaled_less(num@, den@, j + r.ups - r.downs),
        forall|j: int| #[trigger]
            scaled_nearest(r.num@, r.den@, j) == scaled_nearest(
                num@,
                den@,
                j + r.ups - r.downs,
            ),
{
    let mut a: Big = num.scaled(1, 0);
    let mut d: Big = den.scaled(1, 0);
    let mut ups: i128 = 0;
    let mut downs: i128 = 0;
    proof {
        lemma2_to64();
        assert(den@ * 1 == den@) by (nonlinear_arith);
        assert(num@ * 1 == num@) by (nonlinear_arith);
    }
    let num_digits: usize = num.digits.len();
    let den_digits: usize = den.digits.len();
    while !a.less(&d)
        invariant
            a@ == num@,
            a@ > 0,
            den@ > 0,
            d@ > 0,
            0 <= downs,
            downs == 0 || downs <= 32 * num_digits,
            num_digits == num.digits@.len(),
            d@ == den@ * pow2(downs as nat),
            downs > 0 ==> d@ <= 2 * a@,
            forall|j: int| #[trigger]
                scaled_less(a@, d@, j) == scaled_less(num@, den@, j - downs),
            forall|j: int| #[trigger]
                scaled_nearest(a@, d@, j) == scaled_nearest(num@, den@, j - downs),
        decreases 2 * a@ - d@,
    {
        let ghost before = d@;
        proof {
            lemma_few_doublings(num, den@, downs as nat);
            lemma_double_step(den@, downs as nat);
        }
        d = d.scaled(2, 0);
        proof {
            assert(d@ == 2 * before);
            assert forall|j: int| #[trigger]
                scaled_less(a@, d@, j) == scaled_less(num@, den@, j - (downs + 1)) by {
                lemma_less_double_den(a@, before, j);
                assert(scaled_less(a@, before, j - 1) == scaled_less(num@, den@, j - 1 - downs));
            }
            assert forall|j: int| #[trigger]
                scaled_nearest(a@, d@, j) == scaled_nearest(num@, den@, j - (downs + 1)) by {
                lemma_nearest_double_den(a@, before, j);
                assert(scaled_nearest(a@, before, j - 1) == scaled_nearest(
                    num@,
                    den@,
                    j - 1 - downs,
                ));
            }
        }
        downs += 1;
    }
    let ghost bottom = d@;
    let limit: usize = d.digits.len();
    loop
        invariant
            a@ > 0,
            den@ > 0,
            d@ == bottom,
            a@ < d@,
            0 <= ups,
            limit == d.digits@.len(),
            ups == 0 || ups <= 32 * limit,
            0 <= downs <= 32 * num_digits,
            a@ == num@ * pow2(ups as nat),
            num@ > 0,
            forall|j: int| #[trigger]
                scaled_less(a@, d@, j) == scaled_less(num@, den@, j + ups - downs),
            forall|j: int| #[trigger]
                scaled_nearest(a@, d@, j) == scaled_nearest(num@, den@, j + ups - downs),
        ensures
            d@ <= 2 * a@,
        decreases d@ - a@,
    {
        let twice = a.scaled(2, 0);
        if !twice.less(&d) {
            break;
        }
        let ghost before = a@;
        proof {
            lemma_double_step(num@, ups as nat);
            lemma_few_doublings(&d, num@, (ups + 1) as nat);
        }
        a = twice;
        proof {
            assert(a@ == 2 * before);
            assert forall|j: int| #[trigger]
                scaled_less(a@, d@, j) == scaled_less(num@, den@, j + (ups + 1) - downs) by {
                lemma_less_double_num(before, d@, j);
                assert(scaled_less(before, d@, j + 1) == scaled_less(
                    num@,
                    den@,
                    j + 1 + ups - downs,
                ));
            }
            assert forall|j: int| #[trigger]
                scaled_nearest(a@, d@, j) == scaled_nearest(
                    num@,
                    den@,
                    j + (ups + 1) - downs,
                ) by {
                lemma_nearest_double_num(before, d@, j);
                assert(scaled_nearest(before, d@, j + 1) == scaled_nearest(
                    num@,
                    den@,
                    j + 1 + ups - downs,
                ));
            }
        }
        ups += 1;
    }
    Normal { num: a, den: d, ups, downs }
}

/// The quotient of `num` times two to the `n` and `den`, rounded.
fn nearest_scaled(num: &Big, den: &Big, n: u64) -> (r: u64)
    requires
        num@ < den@,
        n <= 53,
    ensures
        r == scaled_nearest(num@, den@, n as int),
        r <= 0x20_0000_0000_0000,
{
    let mut rest: Big = num.scaled(1, 0);
    let mut q: u64 = 0;
    let mut i: u64 = 0;
    proof {
        lemma2_to64();
        lemma2_to64_rest();
        assert(num@ * 1 == num@) by (nonlinear_arith);
        assert(den@ * 0 == 0) by (nonlinear_arith);
    }
    while i < n
        invariant
            i <= n <= 53,
            num@ < den@,
            rest@ < den@,
            num@ * pow2(i as nat) == den@ * q + rest@,
            q < pow2(i as nat),
            pow2(53) == 0x20_0000_0000_0000,
        decreases n - i,
    {
        proof {
            lemma_double_step(num@, i as nat);
            lemma_pow2_unfold((i + 1) as nat);
            if i < 53 {
                lemma_pow2_strictly_increases(i as nat, 53);
            }
            assert(den@ * (2 * q) == 2 * (den@ * q)) by (nonlinear_arith);
            assert(den@ * (2 * q + 1) == 2 * (den@ * q) + den@) by (nonlinear_arith);
        }
        let twice = rest.scaled(2, 0);
        if twice.less(den) {
            rest = twice;
            q = 2 * q;
        } else {
            rest = twice.minus(den);
            q = 2 * q + 1;
        }
        i += 1;
    }
    proof {
        lemma_div_is(num@ * pow2(n as nat), den@, q as nat, rest@);
        if n < 53 {
            lemma_pow2_strictly_increases(n as nat, 53);
        }
    }
    let twice = rest.scaled(2, 0);
    if twice.less(den) || (twice.same(den) && q % 2 == 0) {
        q
    } else {
        q + 1
    }
}

/// [`rounded`], computed.
pub fn round(num: &Big, den: &Big, e: i64) -> (r: u64)
    requires
        den@ > 0,
    ensures
        r == rounded(num@, den@, e as int),
        r <= INFINITE,
{
    if num.is_zero() {
        proof {
            lemma_pow2_pos((1074 - 53 - e) as nat);
            lemma_zero(den@, e as int);
        }
        return 0;
    }
    let normal = normalized(num, den);
    let top: i128 = e as i128 + normal.downs - normal.ups;
    proof {
        let shift = normal.ups - normal.downs;
        assert(scaled_less(normal.num@, normal.den@, 0) == scaled_less(num@, den@, 0 + shift));
        assert(scaled_less(normal.num@, normal.den@, 1) == scaled_less(num@, den@, 1 + shift));
        lemma2_to64();
        assert(normal.num@ * 2 == 2 * normal.num@);
        assert(scaled_less(num@, den@, e - top));
        assert(!scaled_less(num@, den@, e - top + 1));
    }
    let t: i128 = if top - 53 >= -1074 {
        top - 53
    } else {
        -1074
    };
    proof {
        lemma_less_monotonic(num@, den@, e - top, e - t - 53);
        assert(is_place(num@, den@, e as int, t as int));
        lemma_place_unique(num@, den@, e as int, t as int);
        assert(scaled_nearest(normal.num@, normal.den@, (top - t) as int) == scaled_nearest(
            num@,
            den@,
            e - t,
        ));
    }
    let m: u64 = if top >= t {
        nearest_scaled(&normal.num, &normal.den, (top - t) as u64)
    } else {
        proof {
            lemma_below_half(normal.num@, normal.den@, (top - t) as int);
        }
        0
    };
    let bits: i128 = (t + 1074) * 0x10_0000_0000_0000 + m as i128;
    if bits < 0x7ff0_0000_0000_0000 {
        bits as u64
    } else {
        INFINITE
    }
}

pub(crate) proof fn lemma_zero(den: nat, e: int)
    requires
        den > 0,
    ensures
        rounded(0, den, e) == 0,
{
    let j = e + 1074 - 53;
    let k = e + 1074;
    lemma_pow2_pos((-j) as nat);
    lemma_pow2_pos((-k) as nat);
    lemma_pow2_pos(j as nat);
    lemma_pow2_pos(k as nat);
    assert(up(0, j) == 0) by (nonlinear_arith)
        requires
            up(0, j) == 0 || up(0, j) == 0 * pow2(j as nat),
    ;
    assert(up(0, k) == 0) by (nonlinear_arith)
        requires
            up(0, k) == 0 || up(0, k) == 0 * pow2(k as nat),
    ;
    if -j > 0 {
        assert(den * pow2((-j) as nat) > 0) by (nonlinear_arith)
            requires
                den > 0,
                pow2((-j) as nat) > 0,
        ;
    }
    let d = up(den, -k);
    if -k > 0 {
        assert(den * pow2((-k) as nat) > 0) by (nonlinear_arith)
            requires
                den > 0,
                pow2((-k) as nat) > 0,
        ;
    }
    assert(is_place(0, den, e, -1074));
    lemma_place_unique(0, den, e, -1074);
    assert(d > 0);
    assert(0nat / d == 0 && 0nat % d == 0) by (nonlinear_arith)
        requires
            d > 0,
    ;
    assert(scaled_nearest(0, den, k) == 0);
}

/// Less than half of the last place rounds to nothing.
proof fn lemma_below_half(num: nat, den: nat, j: int)
    requires
        num < den,
        j < 0,
    ensures
        scaled_nearest(num, den, j) == 0,
{
    lemma_pow2_unfold((-j) as nat);
    lemma_pow2_pos((-j - 1) as nat);
    let p = pow2((-j) as nat);
    let q = pow2((-j - 1) as nat);
    assert(den * p >= 2 * den) by (nonlinear_arith)
        requires
            p == 2 * q,
            q >= 1,
            den >= 0,
    ;
    lemma_div_is(num, den * p, 0, num);
}

proof fn lemma_double_step(x: nat, e: nat)
    ensures
        x * pow2(e + 1) == 2 * (x * pow2(e)),
{
    lemma_pow2_unfold(e + 1);
    let a = pow2(e);
    assert(x * (2 * a) == 2 * (x * a)) by (nonlinear_arith);
}

/// The bits of the number nearest to a quotient.
pub open spec fn ratio_bits(p: nat, q: nat) -> u64 {
    rounded(p, q, 0)
}

// -- what bits stand for ----------------------------------------------------------------

/// The biased exponent of a bit pattern.
pub open spec fn biased(bits: u64) -> nat {
    ((bits / HIDDEN) % 2048) as nat
}

pub open spec fn fraction(bits: u64) -> nat {
    (bits % HIDDEN) as nat
}

pub open spec fn is_nan(bits: u64) -> bool {
    biased(bits) == 2047 && fraction(bits) != 0
}

pub open spec fn is_infinite(bits: u64) -> bool {
    biased(bits) == 2047 && fraction(bits) == 0
}

pub open spec fn is_negative(bits: u64) -> bool {
    bits >= SIGN
}

/// A finite number is its mantissa times two to its power.
pub open spec fn mantissa(bits: u64) -> nat {
    if biased(bits) == 0 {
        fraction(bits)
    } else {
        fraction(bits) + HIDDEN as nat
    }
}

pub open spec fn power(bits: u64) -> int {
    if biased(bits) == 0 {
        -1074
    } else {
        biased(bits) - 1075
    }
}

/// A place in the order of numbers; both zeros have the same.
pub open spec fn rank(bits: u64) -> int {
    if bits >= SIGN {
        -(bits - SIGN)
    } else {
        bits as int
    }
}

/// Whether one number is less than another; nothing is less or greater than NaN.
pub open spec fn less(a: u64, b: u64) -> bool {
    !is_nan(a) && !is_nan(b) && rank(a) < rank(b)
}

/// Whether two numbers are equal; NaN equals nothing.
pub open spec fn equal(a: u64, b: u64) -> bool {
    !is_nan(a) && !is_nan(b) && rank(a) == rank(b)
}

pub open spec fn negated(bits: u64) -> u64 {
    if bits >= SIGN {
        (bits - SIGN) as u64
    } else {
        (bits + SIGN) as u64
    }
}

/// The number nearest to an integer.
pub open spec fn int_bits(n: int) -> u64 {
    if n < 0 {
        (ratio_bits((-n) as nat, 1) + SIGN) as u64
    } else {
        ratio_bits(n as nat, 1)
    }
}

/// A finite number without its sign, rounded towards zero.
pub open spec fn whole(bits: u64) -> nat {
    if power(bits) >= 0 {
        mantissa(bits) * pow2(power(bits) as nat)
    } else {
        mantissa(bits) / pow2((-power(bits)) as nat)
    }
}

/// Why a number has no integer.
#[derive(Clone, Copy, Debug, PartialEq, Eq, Structural)]
pub enum NoInt {
    NotANumber,
    OutOfRange,
}

/// A number rounded towards zero, where 64 bits hold it.
pub open spec fn truncated(bits: u64) -> Result<int, NoInt> {
    if is_nan(bits) {
        Err(NoInt::NotANumber)
    } else if is_infinite(bits) {
        Err(NoInt::OutOfRange)
    } else if is_negative(bits) {
        if whole(bits) <= 0x8000_0000_0000_0000 {
            Ok(-(whole(bits) as int))
        } else {
            Err(NoInt::OutOfRange)
        }
    } else if whole(bits) < 0x8000_0000_0000_0000 {
        Ok(whole(bits) as int)
    } else {
        Err(NoInt::OutOfRange)
    }
}

pub fn nan(bits: u64) -> (r: bool)
    ensures
        r == is_nan(bits),
{
    (bits / HIDDEN) % 2048 == 2047 && bits % HIDDEN != 0
}

pub fn rank_of(bits: u64) -> (r: i128)
    ensures
        r == rank(bits),
{
    if bits >= SIGN {
        -((bits - SIGN) as i128)
    } else {
        bits as i128
    }
}

/// [`less`], computed.
pub fn is_less(a: u64, b: u64) -> (r: bool)
    ensures
        r == less(a, b),
{
    !nan(a) && !nan(b) && rank_of(a) < rank_of(b)
}

/// [`equal`], computed.
pub fn is_equal(a: u64, b: u64) -> (r: bool)
    ensures
        r == equal(a, b),
{
    !nan(a) && !nan(b) && rank_of(a) == rank_of(b)
}

/// [`negated`], computed.
pub fn negate(bits: u64) -> (r: u64)
    ensures
        r == negated(bits),
{
    if bits >= SIGN {
        bits - SIGN
    } else {
        bits + SIGN
    }
}

/// [`int_bits`], computed.
pub fn from_int(n: i64) -> (r: u64)
    ensures
        r == int_bits(n as int),
{
    if n < 0 {
        let magnitude: u64 = if n == i64::MIN {
            0x8000_0000_0000_0000
        } else {
            (-n) as u64
        };
        let bits: u64 = round(&Big::of(magnitude), &Big::of(1), 0);
        bits + SIGN
    } else {
        round(&Big::of(n as u64), &Big::of(1), 0)
    }
}

/// `x` doubled `n` times.
fn doubled(x: u128, n: u64) -> (r: u128)
    requires
        x * pow2(n as nat) < 0x4000_0000_0000_0000_0000_0000_0000_0000,
    ensures
        r == x * pow2(n as nat),
    decreases n,
{
    proof {
        lemma_pow2_pos(n as nat);
        lemma2_to64();
    }
    if n == 0 {
        assert(x * pow2(0) == x) by (nonlinear_arith)
            requires
                pow2(0) == 1,
        ;
        x
    } else {
        proof {
            lemma_pow2_unfold(n as nat);
            lemma_pow2_pos((n - 1) as nat);
            let a = pow2((n - 1) as nat);
            assert(x * (2 * a) == (2 * x) * a) by (nonlinear_arith);
            assert(2 * x <= (2 * x) * a) by (nonlinear_arith)
                requires
                    a >= 1,
                    x >= 0,
            ;
        }
        doubled(2 * x, n - 1)
    }
}

proof fn lemma_shift_below(m: nat, k: nat)
    requires
        m < 0x20_0000_0000_0000,
        k >= 53,
    ensures
        m / pow2(k) == 0,
{
    lemma2_to64();
    lemma2_to64_rest();
    if k > 53 {
        lemma_pow2_strictly_increases(53, k);
    }
    assert(m / pow2(k) == 0) by (nonlinear_arith)
        requires
            0 <= m < pow2(k),
    ;
}

proof fn lemma_shift_above(m: nat, e: nat)
    requires
        m >= 0x10_0000_0000_0000,
        e >= 12,
    ensures
        m * pow2(e) > 0x8000_0000_0000_0000,
{
    lemma2_to64();
    if e > 12 {
        lemma_pow2_strictly_increases(12, e);
    }
    assert(m * pow2(e) >= 0x10_0000_0000_0000 * 4096) by (nonlinear_arith)
        requires
            m >= 0x10_0000_0000_0000,
            pow2(e) >= 4096,
    ;
}

/// [`truncated`], computed.
pub fn truncate(bits: u64) -> (r: Result<i64, NoInt>)
    ensures
        match r {
            Ok(n) => truncated(bits) == Ok::<int, NoInt>(n as int),
            Err(why) => truncated(bits) == Err::<int, NoInt>(why),
        },
{
    if nan(bits) {
        return Err(NoInt::NotANumber);
    }
    let exponent: u64 = (bits / HIDDEN) % 2048;
    if exponent == 2047 {
        return Err(NoInt::OutOfRange);
    }
    let m: u64 = if exponent == 0 {
        bits % HIDDEN
    } else {
        bits % HIDDEN + HIDDEN
    };
    let magnitude: u128 = if exponent >= 1075 {
        let e: u64 = exponent - 1075;
        if e >= 12 {
            proof {
                lemma_shift_above(m as nat, e as nat);
            }
            return Err(NoInt::OutOfRange);
        }
        proof {
            lemma2_to64();
            if e < 12 {
                lemma_pow2_strictly_increases(e as nat, 12);
            }
            assert(m * pow2(e as nat) < 0x20_0000_0000_0000 * 4096) by (nonlinear_arith)
                requires
                    0 <= m < 0x20_0000_0000_0000,
                    0 <= pow2(e as nat) < 4096,
            ;
        }
        doubled(m as u128, e)
    } else {
        let k: u64 = if exponent == 0 {
            1074
        } else {
            1075 - exponent
        };
        if k >= 53 {
            proof {
                lemma_shift_below(m as nat, k as nat);
            }
            0
        } else {
            proof {
                lemma2_to64();
                lemma2_to64_rest();
                lemma_pow2_strictly_increases(k as nat, 53);
                lemma_pow2_pos(k as nat);
                assert(1 * pow2(k as nat) == pow2(k as nat));
            }
            let scale: u128 = doubled(1, k);
            let q: u128 = (m as u128) / scale;
            q
        }
    };
    if bits >= SIGN {
        if magnitude < 0x8000_0000_0000_0000 {
            Ok(-(magnitude as i64))
        } else if magnitude == 0x8000_0000_0000_0000 {
            Ok(i64::MIN)
        } else {
            Err(NoInt::OutOfRange)
        }
    } else if magnitude < 0x8000_0000_0000_0000 {
        Ok(magnitude as i64)
    } else {
        Err(NoInt::OutOfRange)
    }
}

/// Negating twice changes nothing.
pub proof fn law_negation_undoes_itself(bits: u64)
    ensures
        negated(negated(bits)) == bits,
{
}

// -- arithmetic -------------------------------------------------------------------------------

/// A magnitude with a sign.
pub open spec fn signed(negative: bool, bits: u64) -> u64 {
    if negative && bits < SIGN {
        (bits + SIGN) as u64
    } else {
        bits
    }
}

fn with_sign(negative: bool, bits: u64) -> (r: u64)
    ensures
        r == signed(negative, bits),
{
    if negative && bits < SIGN {
        bits + SIGN
    } else {
        bits
    }
}

/// A finite number over a power of two that is no higher than its own.
pub open spec fn over(bits: u64, low: int) -> int {
    let n = up(mantissa(bits), power(bits) - low);
    if is_negative(bits) {
        -(n as int)
    } else {
        n as int
    }
}

pub open spec fn lower(a: u64, b: u64) -> int {
    if power(a) < power(b) {
        power(a)
    } else {
        power(b)
    }
}

/// A sum, rounded. An exact zero is negative only where both terms are.
pub open spec fn sum(a: u64, b: u64) -> u64 {
    if is_nan(a) || is_nan(b) || (is_infinite(a) && is_infinite(b) && is_negative(a)
        != is_negative(b)) {
        NAN
    } else if is_infinite(a) {
        a
    } else if is_infinite(b) {
        b
    } else {
        let low = lower(a, b);
        let n = over(a, low) + over(b, low);
        if n == 0 {
            signed(is_negative(a) && is_negative(b), 0)
        } else if n < 0 {
            signed(true, rounded((-n) as nat, 1, low))
        } else {
            rounded(n as nat, 1, low)
        }
    }
}

/// A difference, rounded.
pub open spec fn difference(a: u64, b: u64) -> u64 {
    sum(a, negated(b))
}

/// A product, rounded.
pub open spec fn product(a: u64, b: u64) -> u64 {
    let negative = is_negative(a) != is_negative(b);
    if is_nan(a) || is_nan(b) {
        NAN
    } else if is_infinite(a) || is_infinite(b) {
        if mantissa(a) == 0 || mantissa(b) == 0 {
            NAN
        } else {
            signed(negative, INFINITE)
        }
    } else {
        signed(negative, rounded(mantissa(a) * mantissa(b), 1, power(a) + power(b)))
    }
}

/// A quotient, rounded.
pub open spec fn quotient(a: u64, b: u64) -> u64 {
    let negative = is_negative(a) != is_negative(b);
    if is_nan(a) || is_nan(b) || (is_infinite(a) && is_infinite(b)) || (mantissa(a) == 0
        && mantissa(b) == 0) {
        NAN
    } else if is_infinite(a) || mantissa(b) == 0 {
        signed(negative, INFINITE)
    } else if is_infinite(b) {
        signed(negative, 0)
    } else {
        signed(negative, rounded(mantissa(a), mantissa(b), power(a) - power(b)))
    }
}

/// A number rounded towards negative infinity.
pub open spec fn floored(a: u64) -> u64 {
    if biased(a) == 2047 || power(a) >= 0 {
        a
    } else {
        let d = pow2((-power(a)) as nat);
        let q = mantissa(a) / d;
        if mantissa(a) % d == 0 {
            a
        } else if is_negative(a) {
            signed(true, rounded(q + 1, 1, 0))
        } else {
            rounded(q, 1, 0)
        }
    }
}

/// What is left of a number once as many whole others as fit were taken, with its sign.
pub open spec fn remainder(a: u64, b: u64) -> u64 {
    if is_nan(a) || is_nan(b) || is_infinite(a) || mantissa(b) == 0 {
        NAN
    } else if is_infinite(b) {
        a
    } else {
        let low = lower(a, b);
        let r = up(mantissa(a), power(a) - low) % up(mantissa(b), power(b) - low);
        signed(is_negative(a), rounded(r, 1, low))
    }
}

fn infinite(bits: u64) -> (r: bool)
    ensures
        r == is_infinite(bits),
{
    (bits / HIDDEN) % 2048 == 2047 && bits % HIDDEN == 0
}

fn mantissa_of(bits: u64) -> (r: u64)
    ensures
        r == mantissa(bits),
        r < 0x20_0000_0000_0000,
{
    if (bits / HIDDEN) % 2048 == 0 {
        bits % HIDDEN
    } else {
        bits % HIDDEN + HIDDEN
    }
}

fn power_of(bits: u64) -> (r: i64)
    ensures
        r == power(bits),
        -1074 <= r <= 972,
{
    let e: u64 = (bits / HIDDEN) % 2048;
    if e == 0 {
        -1074
    } else {
        e as i64 - 1075
    }
}

/// A number doubled `n` times.
fn shifted(x: u64, n: u64) -> (r: Big)
    ensures
        r@ == x * pow2(n as nat),
{
    let mut r = Big::of(x);
    let mut i: u64 = 0;
    proof {
        lemma2_to64();
        assert(x * 1 == x) by (nonlinear_arith);
    }
    while i < n
        invariant
            i <= n,
            r@ == x * pow2(i as nat),
        decreases n - i,
    {
        proof {
            lemma_double_step(x as nat, i as nat);
        }
        r = r.scaled(2, 0);
        i += 1;
    }
    r
}

fn aligned(bits: u64, low: i64) -> (r: Big)
    requires
        low <= power(bits),
        low >= -1074,
    ensures
        r@ == up(mantissa(bits), power(bits) - low),
{
    let n: u64 = (power_of(bits) - low) as u64;
    proof {
        lemma2_to64();
        assert(mantissa(bits) * 1 == mantissa(bits)) by (nonlinear_arith);
    }
    shifted(mantissa_of(bits), n)
}

/// [`sum`], computed.
pub fn plus(a: u64, b: u64) -> (r: u64)
    ensures
        r == sum(a, b),
{
    let minus_a = a >= SIGN;
    let minus_b = b >= SIGN;
    if nan(a) || nan(b) || (infinite(a) && infinite(b) && minus_a != minus_b) {
        return NAN;
    }
    if infinite(a) {
        return a;
    }
    if infinite(b) {
        return b;
    }
    let low: i64 = if power_of(a) < power_of(b) {
        power_of(a)
    } else {
        power_of(b)
    };
    let x = aligned(a, low);
    let y = aligned(b, low);
    let one = Big::of(1);
    if minus_a == minus_b {
        let n = x.plus(&y);
        if n.is_zero() {
            return with_sign(minus_a && minus_b, 0);
        }
        return with_sign(minus_a, round(&n, &one, low));
    }
    if x.same(&y) {
        return with_sign(minus_a && minus_b, 0);
    }
    if x.less(&y) {
        with_sign(minus_b, round(&y.minus(&x), &one, low))
    } else {
        with_sign(minus_a, round(&x.minus(&y), &one, low))
    }
}

/// [`difference`], computed.
pub fn minus(a: u64, b: u64) -> (r: u64)
    ensures
        r == difference(a, b),
{
    plus(a, negate(b))
}

fn big_product(x: u64, y: u64) -> (r: Big)
    requires
        x < 0x20_0000_0000_0000,
        y < 0x20_0000_0000_0000,
    ensures
        r@ == x * y,
{
    // The product takes more than a machine word: its high and low parts are put
    // together again.
    let high: u64 = x / 0x1_0000_0000;
    let low: u64 = x % 0x1_0000_0000;
    let first = Big::of(y).scaled(high as u32, 0);
    let second = first.scaled(0x1_0000, 0).scaled(0x1_0000, 0);
    let third = Big::of(y).scaled(low as u32, 0);
    let r = second.plus(&third);
    proof {
        assert(((y * high) * 0x1_0000) * 0x1_0000 + y * low == x * y) by (nonlinear_arith)
            requires
                x == high * 0x1_0000_0000 + low,
        ;
    }
    r
}

/// [`product`], computed.
pub fn times(a: u64, b: u64) -> (r: u64)
    ensures
        r == product(a, b),
{
    let negative = (a >= SIGN) != (b >= SIGN);
    if nan(a) || nan(b) {
        return NAN;
    }
    let x = mantissa_of(a);
    let y = mantissa_of(b);
    if infinite(a) || infinite(b) {
        if x == 0 || y == 0 {
            return NAN;
        }
        return with_sign(negative, INFINITE);
    }
    let n = big_product(x, y);
    with_sign(negative, round(&n, &Big::of(1), power_of(a) + power_of(b)))
}

/// [`quotient`], computed.
pub fn divided(a: u64, b: u64) -> (r: u64)
    ensures
        r == quotient(a, b),
{
    let negative = (a >= SIGN) != (b >= SIGN);
    let x = mantissa_of(a);
    let y = mantissa_of(b);
    if nan(a) || nan(b) || (infinite(a) && infinite(b)) || (x == 0 && y == 0) {
        return NAN;
    }
    if infinite(a) || y == 0 {
        return with_sign(negative, INFINITE);
    }
    if infinite(b) {
        return with_sign(negative, 0);
    }
    with_sign(negative, round(&Big::of(x), &Big::of(y), power_of(a) - power_of(b)))
}

/// [`floored`], computed.
pub fn floor(a: u64) -> (r: u64)
    ensures
        r == floored(a),
{
    let e: u64 = (a / HIDDEN) % 2048;
    if e == 2047 || power_of(a) >= 0 {
        return a;
    }
    let k: u64 = (-power_of(a)) as u64;
    let m = mantissa_of(a);
    let one = Big::of(1);
    let (q, rest): (u64, bool) = if k >= 53 {
        proof {
            lemma_shift_below(m as nat, k as nat);
            lemma_small_rest(m as nat, k as nat);
        }
        (0, m != 0)
    } else {
        proof {
            lemma2_to64();
            lemma2_to64_rest();
            lemma_pow2_strictly_increases(k as nat, 53);
            lemma_pow2_pos(k as nat);
            assert(1 * pow2(k as nat) == pow2(k as nat));
        }
        let d: u128 = doubled(1, k);
        let q: u64 = m / (d as u64);
        let rest: u64 = m % (d as u64);
        (q, rest != 0)
    };
    if !rest {
        return a;
    }
    assert(q <= m) by {
        let d = pow2(k as nat);
        lemma_pow2_pos(k as nat);
        assert((m as nat) / d <= m) by (nonlinear_arith)
            requires
                d >= 1,
                m >= 0,
        ;
    }
    if a >= SIGN {
        with_sign(true, round(&Big::of(q + 1), &one, 0))
    } else {
        round(&Big::of(q), &one, 0)
    }
}

proof fn lemma_small_rest(m: nat, k: nat)
    requires
        m < 0x20_0000_0000_0000,
        k >= 53,
    ensures
        m % pow2(k) == m,
{
    lemma2_to64();
    lemma2_to64_rest();
    if k > 53 {
        lemma_pow2_strictly_increases(53, k);
    }
    lemma_div_is(m, pow2(k), 0, m);
}

/// What is left of `x` doubled `n` times once whole `y` were taken.
fn doubled_rest(x: u64, y: u64, n: u64) -> (r: u64)
    requires
        0 < y < 0x20_0000_0000_0000,
    ensures
        r == (x * pow2(n as nat)) % (y as int),
        r < y,
{
    let mut r: u64 = x % y;
    let mut i: u64 = 0;
    proof {
        lemma2_to64();
        assert(x * 1 == x) by (nonlinear_arith);
    }
    while i < n
        invariant
            i <= n,
            0 < y < 0x20_0000_0000_0000,
            r < y,
            r == (x * pow2(i as nat)) % (y as int),
        decreases n - i,
    {
        proof {
            lemma_double_step(x as nat, i as nat);
            lemma_rest_doubled((x * pow2(i as nat)) as nat, y as nat);
        }
        r = (2 * r) % y;
        i += 1;
    }
    r
}

proof fn lemma_rest_doubled(p: nat, y: nat)
    requires
        y > 0,
    ensures
        (2 * p) % y == (2 * (p % y)) % y,
{
    let d = p / y;
    let r = p % y;
    let d2 = (2 * r) / y;
    let r2 = (2 * r) % y;
    assert(p == y * d + r && 2 * r == y * d2 + r2 && 0 <= r2 < y) by (nonlinear_arith)
        requires
            y > 0,
            d == p / y,
            r == p % y,
            d2 == (2 * r) / y,
            r2 == (2 * r) % y,
    ;
    assert(2 * p == y * (2 * d + d2) + r2) by (nonlinear_arith)
        requires
            p == y * d + r,
            2 * r == y * d2 + r2,
    ;
    lemma_div_is(2 * p, y, 2 * d + d2, r2);
}

/// [`remainder`], computed.
pub fn modulo(a: u64, b: u64) -> (r: u64)
    ensures
        r == remainder(a, b),
{
    let x = mantissa_of(a);
    let y = mantissa_of(b);
    if nan(a) || nan(b) || infinite(a) || y == 0 {
        return NAN;
    }
    if infinite(b) {
        return a;
    }
    let pa = power_of(a);
    let pb = power_of(b);
    let one = Big::of(1);
    proof {
        lemma2_to64();
        assert(x * 1 == x) by (nonlinear_arith);
        assert(y * 1 == y) by (nonlinear_arith);
    }
    if pa >= pb {
        let rest = doubled_rest(x, y, (pa - pb) as u64);
        return with_sign(a >= SIGN, round(&Big::of(rest), &one, pb));
    }
    let k: u64 = (pb - pa) as u64;
    let rest: u64 = if k >= 53 {
        proof {
            lemma2_to64_rest();
            if k > 53 {
                lemma_pow2_strictly_increases(53, k as nat);
            }
            let p = pow2(k as nat);
            assert(y * p >= p) by (nonlinear_arith)
                requires
                    y >= 1,
                    p >= 0,
            ;
            lemma_div_is(x as nat, (y * p) as nat, 0, x as nat);
        }
        x
    } else {
        proof {
            lemma2_to64_rest();
            lemma_pow2_strictly_increases(k as nat, 53);
            let p = pow2(k as nat);
            lemma_pow2_pos(k as nat);
            assert(1 <= y * p < 0x20_0000_0000_0000 * 0x20_0000_0000_0000) by (nonlinear_arith)
                requires
                    1 <= y < 0x20_0000_0000_0000,
                    1 <= p < 0x20_0000_0000_0000,
            ;
        }
        let d: u128 = doubled(y as u128, k);
        let left: u128 = (x as u128) % d;
        proof {
            let n = x as nat;
            let m = d as nat;
            assert(n % m <= n) by (nonlinear_arith)
                requires
                    m > 0,
                    n >= 0,
            ;
        }
        left as u64
    };
    with_sign(a >= SIGN, round(&Big::of(rest), &one, pa))
}

/// Adding is the same in either order.
pub proof fn law_addition_commutes(a: u64, b: u64)
    ensures
        sum(a, b) == sum(b, a),
{
    if is_infinite(a) && is_infinite(b) && is_negative(a) == is_negative(b) {
        assert(a == b) by {
            assert(a % SIGN == b % SIGN);
        }
    }
}

/// Multiplying is the same in either order.
pub proof fn law_multiplication_commutes(a: u64, b: u64)
    ensures
        product(a, b) == product(b, a),
{
    let x = mantissa(a);
    let y = mantissa(b);
    assert(x * y == y * x) by (nonlinear_arith);
}

// -- decimal text ----------------------------------------------------------------------------

/// Ten to the `k`.
pub open spec fn ten_to(k: nat) -> nat
    decreases k,
{
    if k == 0 {
        1
    } else {
        10 * ten_to((k - 1) as nat)
    }
}

/// How many decimal places are tried before a number is given up on.
pub const PLACES: u64 = 1100;

/// The two to some power that a finite number's mantissa is divided by.
pub open spec fn divisor(bits: u64) -> nat {
    if power(bits) < 0 {
        pow2((-power(bits)) as nat)
    } else {
        1
    }
}

/// A finite number without its sign and its decimals behind the `j`th.
pub open spec fn cut_at(bits: u64, j: nat) -> nat {
    (mantissa(bits) * ten_to(j)) / divisor(bits)
}

/// What that leaves of the number.
pub open spec fn cut_rest(bits: u64, j: nat) -> nat {
    (mantissa(bits) * ten_to(j)) % divisor(bits)
}

pub open spec fn magnitude(bits: u64) -> u64 {
    if bits >= SIGN {
        (bits - SIGN) as u64
    } else {
        bits
    }
}

/// Whether `n` over ten to the `j` reads back as a number without its sign.
pub open spec fn reads_back(bits: u64, n: nat, j: nat) -> bool {
    rounded(n, ten_to(j), 0) == magnitude(bits)
}

/// The decimal of `j` places nearest to a number that reads back as it, where there is
/// one.
pub open spec fn decimal_at(bits: u64, j: nat) -> Option<nat> {
    let n = cut_at(bits, j);
    if reads_back(bits, n, j) && (!reads_back(bits, n + 1, j) || 2 * cut_rest(bits, j) <= divisor(
        bits,
    )) {
        Some(n)
    } else if reads_back(bits, n + 1, j) {
        Some(n + 1)
    } else {
        None
    }
}

/// The decimal with the fewest places, `j` or more, that reads back as a number.
pub open spec fn shortest(bits: u64, j: nat) -> (nat, nat)
    decreases PLACES - j,
{
    if j >= PLACES {
        (cut_at(bits, j), j)
    } else {
        match decimal_at(bits, j) {
            Some(n) => (n, j),
            None => shortest(bits, j + 1),
        }
    }
}

pub open spec fn zeros(n: nat) -> Seq<char> {
    Seq::new(n, |i: int| '0')
}

/// A natural's digits, with zeros in front where there would be fewer than `width`.
pub open spec fn padded(n: nat, width: nat) -> Seq<char> {
    let d = digits(n);
    if d.len() < width {
        zeros((width - d.len()) as nat) + d
    } else {
        d
    }
}

/// `n` over ten to the `j`, as a decimal.
pub open spec fn fixed(n: nat, j: nat) -> Seq<char> {
    let d = padded(n, j + 1);
    d.take(d.len() - j) + "."@ + d.skip(d.len() - j)
}

/// Whether a finite number is an integer.
pub open spec fn is_whole(bits: u64) -> bool {
    mantissa(bits) % divisor(bits) == 0
}

/// The integer of 64 bits that a number is exactly, where it is one.
pub open spec fn exact_int(bits: u64) -> Option<int> {
    if !is_nan(bits) && !is_infinite(bits) && is_whole(bits) && truncated(bits) is Ok {
        Some(truncated(bits)->Ok_0)
    } else {
        None
    }
}

/// [`exact_int`], computed.
pub fn to_exact_int(bits: u64) -> (r: Option<i64>)
    ensures
        exact_int(bits) == match r {
            Some(n) => Some(n as int),
            None => None,
        },
{
    if nan(bits) || infinite(bits) {
        return None;
    }
    let by = divisor_of(bits);
    let first = cut_whole(bits, &by);
    assert(mantissa(bits) * 1 == mantissa(bits)) by (nonlinear_arith);
    if first.rest.is_zero() {
        match truncate(bits) {
            Ok(n) => Some(n),
            Err(_) => None,
        }
    } else {
        None
    }
}

/// How a number is written: an integer with all its digits and one decimal, any other
/// with as few decimals as read back as it.
pub open spec fn shown(bits: u64) -> Seq<char> {
    let sign = if is_negative(bits) && !is_nan(bits) {
        "-"@
    } else {
        ""@
    };
    sign + if is_nan(bits) {
        "NaN"@
    } else if is_infinite(bits) {
        "inf"@
    } else if is_whole(bits) {
        digits(whole(bits)) + ".0"@
    } else {
        fixed(shortest(bits, 1).0, shortest(bits, 1).1)
    }
}

/// [`digits`] of a number of any size.
fn big_digits(n: &Big) -> (r: String)
    ensures
        r@ == digits(n@),
    decreases n@,
{
    let (q, rest) = n.tenth();
    if q.is_zero() {
        let mut r = String::new();
        push_char(&mut r, digit_char(rest as u64));
        assert(r@ =~= seq![digit(rest as nat)]);
        r
    } else {
        let mut r = big_digits(&q);
        push_char(&mut r, digit_char(rest as u64));
        r
    }
}

/// [`divisor`], computed.
fn divisor_of(bits: u64) -> (r: Big)
    ensures
        r@ == divisor(bits),
        r@ > 0,
{
    let p = power_of(bits);
    if p < 0 {
        proof {
            lemma_pow2_pos((-p) as nat);
            assert(1 * pow2((-p) as nat) == pow2((-p) as nat)) by (nonlinear_arith);
        }
        shifted(1, (-p) as u64)
    } else {
        Big::of(1)
    }
}

/// A decimal being lengthened: the digits so far, what they leave, and ten to the places.
struct Decimal {
    cut: Big,
    rest: Big,
    scale: Big,
}

impl Decimal {
    spec fn holds(&self, bits: u64, j: nat) -> bool {
        &&& self.cut@ == cut_at(bits, j)
        &&& self.rest@ == cut_rest(bits, j)
        &&& self.scale@ == ten_to(j)
    }
}

proof fn lemma_ten_positive(j: nat)
    ensures
        ten_to(j) > 0,
    decreases j,
{
    if j > 0 {
        lemma_ten_positive((j - 1) as nat);
    }
}

/// One place more.
fn lengthened(d: Decimal, by: &Big, bits: u64, j: Ghost<nat>) -> (r: Decimal)
    requires
        d.holds(bits, j@),
        by@ == divisor(bits),
        by@ > 0,
    ensures
        r.holds(bits, j@ + 1),
{
    let ghost p = mantissa(bits) * ten_to(j@);
    let ghost c = d.cut@;
    proof {
        let x = d.rest@;
        let y = by@;
        assert(p == y * c + x && 0 <= x < y) by (nonlinear_arith)
            requires
                y > 0,
                c == p / y,
                x == p % y,
        ;
        assert(mantissa(bits) * (10 * ten_to(j@)) == 10 * p) by (nonlinear_arith)
            requires
                p == mantissa(bits) * ten_to(j@),
        ;
    }
    let mut rest = d.rest.scaled(10, 0);
    let mut digit: u32 = 0;
    assert(by@ * (10 * c + 0) == 10 * (by@ * c)) by (nonlinear_arith);
    while !rest.less(by)
        invariant
            by@ > 0,
            digit <= 9,
            rest@ < by@ * (10 - digit),
            10 * p == by@ * (10 * c + digit) + rest@,
        decreases rest@,
    {
        proof {
            let y = by@;
            let n = digit as nat;
            assert(y * (10 * c + (n + 1)) == y * (10 * c + n) + y) by (nonlinear_arith);
            assert(y * (10 - n) - y == y * (10 - (n + 1))) by (nonlinear_arith);
            if digit == 9 {
                assert(y * (10 - 9) == y) by (nonlinear_arith);
            }
        }
        rest = rest.minus(by);
        digit += 1;
    }
    let cut = d.cut.scaled(10, digit);
    let scale = d.scale.scaled(10, 0);
    proof {
        assert(c * 10 + digit == 10 * c + digit) by (nonlinear_arith);
        lemma_div_is(10 * p, by@, 10 * c + digit as nat, rest@);
    }
    Decimal { cut, rest, scale }
}

/// [`decimal_at`], decided.
fn decimal_of(d: &Decimal, by: &Big, bits: u64, j: Ghost<nat>) -> (r: Option<Big>)
    requires
        d.holds(bits, j@),
        by@ == divisor(bits),
    ensures
        match r {
            Some(n) => decimal_at(bits, j@) == Some(n@),
            None => decimal_at(bits, j@) is None,
        },
{
    proof {
        lemma_ten_positive(j@);
    }
    let goal: u64 = if bits >= SIGN {
        bits - SIGN
    } else {
        bits
    };
    let next = d.cut.scaled(1, 1);
    let below = round(&d.cut, &d.scale, 0) == goal;
    let above = round(&next, &d.scale, 0) == goal;
    if below && (!above || !by.less(&d.rest.scaled(2, 0))) {
        Some(d.cut.scaled(1, 0))
    } else if above {
        Some(next)
    } else {
        None
    }
}

/// [`shortest`] from the first place on, computed.
fn shortest_of(bits: u64) -> (r: (Big, u64))
    ensures
        (r.0@, r.1 as nat) == shortest(bits, 1),
{
    let by = divisor_of(bits);
    let m = mantissa_of(bits);
    let first = cut_whole(bits, &by);
    let mut d = lengthened(first, &by, bits, Ghost(0));
    let mut j: u64 = 1;
    while j < PLACES
        invariant
            1 <= j <= PLACES,
            by@ == divisor(bits),
            by@ > 0,
            d.holds(bits, j as nat),
            shortest(bits, 1) == shortest(bits, j as nat),
        decreases PLACES - j,
    {
        if let Some(n) = decimal_of(&d, &by, bits, Ghost(j as nat)) {
            return (n, j);
        }
        d = lengthened(d, &by, bits, Ghost(j as nat));
        j += 1;
    }
    (d.cut, j)
}

/// A number's integer part and what is left.
fn cut_whole(bits: u64, by: &Big) -> (r: Decimal)
    requires
        by@ == divisor(bits),
        by@ > 0,
    ensures
        r.holds(bits, 0),
{
    let m = mantissa_of(bits);
    let scale = Big::of(1);
    assert(mantissa(bits) * 1 == mantissa(bits)) by (nonlinear_arith);
    let big = Big::of(m);
    if big.less(by) {
        proof {
            lemma_div_is(m as nat, by@, 0, m as nat);
        }
        return Decimal { cut: Big::of(0), rest: big, scale };
    }
    let p = power_of(bits);
    proof {
        lemma2_to64();
        lemma2_to64_rest();
    }
    if p >= 0 {
        proof {
            lemma_div_is(m as nat, 1, m as nat, 0);
        }
        return Decimal { cut: big, rest: Big::of(0), scale };
    }
    let k: u64 = (-p) as u64;
    proof {
        if k >= 53 {
            if k > 53 {
                lemma_pow2_strictly_increases(53, k as nat);
            }
        } else {
            lemma_pow2_strictly_increases(k as nat, 53);
        }
        lemma_pow2_pos(k as nat);
        assert(1 * pow2(k as nat) == pow2(k as nat)) by (nonlinear_arith);
    }
    let d: u128 = doubled(1, k);
    let cut: u64 = m / (d as u64);
    let rest: u64 = m % (d as u64);
    Decimal { cut: Big::of(cut), rest: Big::of(rest), scale }
}

/// [`fixed`], written.
fn fixed_of(n: &Big, j: u64) -> (r: String)
    requires
        j <= PLACES,
    ensures
        r@ == fixed(n@, j as nat),
{
    let mut d = chars_of(big_digits(n).as_str());
    let ghost bare = d@;
    let mut all: Vec<char> = Vec::new();
    let mut left: usize = if d.len() < (j + 1) as usize {
        (j + 1) as usize - d.len()
    } else {
        0
    };
    let ghost wanted = left as nat;
    while left > 0
        invariant
            left <= wanted,
            all@ =~= zeros((wanted - left) as nat),
        decreases left,
    {
        all.push('0');
        left -= 1;
    }
    all.append(&mut d);
    assert(all@ =~= padded(n@, (j + 1) as nat));
    let point: usize = all.len() - j as usize;
    let whole = string_of(&all, 0, point);
    let rest = string_of(&all, point, all.len());
    assert(whole@ =~= all@.take(point as int));
    assert(rest@ =~= all@.skip(point as int));
    cat3(whole.as_str(), ".", rest.as_str())
}

/// [`digits`] of [`whole`], where the number is an integer.
fn whole_digits(bits: u64) -> (r: String)
    requires
        biased(bits) != 2047,
    ensures
        r@ == digits(whole(bits)),
{
    let p = power_of(bits);
    if p >= 0 {
        let n = shifted(mantissa_of(bits), p as u64);
        return big_digits(&n);
    }
    let by = divisor_of(bits);
    let d = cut_whole(bits, &by);
    assert(mantissa(bits) * 1 == mantissa(bits)) by (nonlinear_arith);
    big_digits(&d.cut)
}

/// [`shown`], written.
pub fn show(bits: u64) -> (r: String)
    ensures
        r@ == shown(bits),
{
    let sign = if bits >= SIGN && !nan(bits) {
        "-"
    } else {
        ""
    };
    if nan(bits) {
        return cat2(sign, "NaN");
    }
    if infinite(bits) {
        return cat2(sign, "inf");
    }
    let by = divisor_of(bits);
    let first = cut_whole(bits, &by);
    assert(mantissa(bits) * 1 == mantissa(bits)) by (nonlinear_arith);
    if first.rest.is_zero() {
        let n = whole_digits(bits);
        let text = cat2(n.as_str(), ".0");
        return cat2(sign, text.as_str());
    }
    let (n, j) = shortest_of(bits);
    proof {
        lemma_shortest_bound(bits, 1);
    }
    let text = fixed_of(&n, j);
    cat2(sign, text.as_str())
}

proof fn lemma_shortest_bound(bits: u64, j: nat)
    requires
        j <= PLACES,
    ensures
        shortest(bits, j).1 <= PLACES,
    decreases PLACES - j,
{
    if j < PLACES && decimal_at(bits, j) is None {
        lemma_shortest_bound(bits, j + 1);
    }
}

/// What a number is shown as has as few decimals as can be, and reads back as the number,
/// unless every place that is tried is needed.
pub proof fn law_the_shortest_decimal_reads_back(bits: u64, j: nat)
    ensures
        ({
            let (n, k) = shortest(bits, j);
            &&& j <= k
            &&& k < PLACES ==> reads_back(bits, n, k)
            &&& forall|i: nat| j <= i < k && i < PLACES ==> (#[trigger] decimal_at(bits, i)) is None
        }),
    decreases PLACES - j,
{
    if j < PLACES && decimal_at(bits, j) is None {
        law_the_shortest_decimal_reads_back(bits, j + 1);
    }
}

// -- powers --------------------------------------------------------------------------------------

/// How far an exponent goes before every power of it is too small for any number but zero.
pub const FARTHEST: u64 = 1100;

/// The number nearest to one divided by a power of an integer. Nothing divides by zero but to
/// infinity, and what is too small for any number is zero.
pub open spec fn inverse_power(a: int, n: nat) -> u64 {
    let m = if a < 0 {
        -a
    } else {
        a
    };
    signed(
        a < 0 && n % 2 == 1,
        if a == 0 {
            INFINITE
        } else if m > 1 && n > FARTHEST {
            0
        } else {
            ratio_bits(1, pow(m, n) as nat)
        },
    )
}

fn big_times(x: &Big, m: u64) -> (r: Big)
    ensures
        r@ == x@ * m,
{
    let high: u32 = (m / 0x1_0000_0000) as u32;
    let low: u32 = (m % 0x1_0000_0000) as u32;
    let a = x.scaled(high, 0);
    let b = a.scaled(0x1_0000, 0);
    let c = b.scaled(0x1_0000, 0);
    let d = x.scaled(low, 0);
    let r = c.plus(&d);
    proof {
        let h = high as nat;
        let l = low as nat;
        assert(m == h * 0x1_0000_0000 + l);
        assert(a@ == x@ * h && d@ == x@ * l);
        assert(c@ == (x@ * h) * 0x1_0000_0000) by (nonlinear_arith)
            requires
                b@ == (x@ * h) * 0x1_0000,
                c@ == b@ * 0x1_0000,
        ;
        assert((x@ * h) * 0x1_0000_0000 + x@ * l == x@ * (h * 0x1_0000_0000 + l)) by (nonlinear_arith);
    }
    r
}

fn big_power(m: u64, n: u64) -> (r: Big)
    requires
        m > 0,
    ensures
        r@ == pow(m as int, n as nat),
        r@ > 0,
{
    let mut r = Big::of(1);
    let mut k: u64 = 0;
    proof {
        lemma_pow0(m as int);
    }
    while k < n
        invariant
            k <= n,
            m > 0,
            r@ == pow(m as int, k as nat),
            r@ > 0,
        decreases n - k,
    {
        proof {
            reveal(pow);
            lemma_pow_positive(m as int, (k + 1) as nat);
            assert(pow(m as int, (k + 1) as nat) == m as int * pow(m as int, k as nat));
            assert(r@ * m == m * r@) by (nonlinear_arith);
        }
        r = big_times(&r, m);
        k += 1;
    }
    r
}

/// [`inverse_power`], computed.
pub fn to_inverse_power(a: i64, n: u64) -> (r: u64)
    ensures
        r == inverse_power(a as int, n as nat),
{
    let m: u64 = if a == i64::MIN {
        0x8000_0000_0000_0000
    } else if a < 0 {
        (-a) as u64
    } else {
        a as u64
    };
    let bits: u64 = if a == 0 {
        INFINITE
    } else if m > 1 && n > FARTHEST {
        0
    } else if m == 1 {
        proof {
            lemma1_pow(n as nat);
        }
        round(&Big::of(1), &Big::of(1), 0)
    } else {
        round(&Big::of(1), &big_power(m, n), 0)
    };
    with_sign(a < 0 && n % 2 == 1, bits)
}

} // verus!
