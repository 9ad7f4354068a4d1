//! Natural numbers of any size.

use vstd::arithmetic::power2::{lemma2_to64, lemma_pow2_adds, pow2};
use vstd::prelude::*;

verus! {

/// A natural number, as digits to the base two to the 32nd, the lowest first.
pub struct Big {
    pub digits: Vec<u32>,
}

pub open spec fn base() -> nat {
    0x1_0000_0000
}

/// What a digit at a place counts.
pub open spec fn weight(i: nat) -> nat
    decreases i,
{
    if i == 0 {
        1
    } else {
        base() * weight((i - 1) as nat)
    }
}

/// The digit at a place; there are zeros above the highest.
pub open spec fn digit_at(s: Seq<u32>, i: int) -> nat {
    if 0 <= i < s.len() {
        s[i] as nat
    } else {
        0
    }
}

/// What the lowest `n` digits write.
pub open spec fn low(s: Seq<u32>, n: nat) -> nat
    decreases n,
{
    if n == 0 {
        0
    } else {
        low(s, (n - 1) as nat) + digit_at(s, n - 1) * weight((n - 1) as nat)
    }
}

/// What the digits from `i` on write, as if they were all there were.
pub open spec fn high(s: Seq<u32>, i: nat) -> nat
    decreases s.len() - i,
{
    if i >= s.len() {
        0
    } else {
        s[i as int] as nat + base() * high(s, i + 1)
    }
}

impl View for Big {
    type V = nat;

    open spec fn view(&self) -> nat {
        low(self.digits@, self.digits@.len())
    }
}

proof fn lemma_low_above(s: Seq<u32>, n: nat)
    requires
        n >= s.len(),
    ensures
        low(s, n) == low(s, s.len()),
    decreases n,
{
    if n > s.len() {
        lemma_low_above(s, (n - 1) as nat);
        assert(digit_at(s, n - 1) * weight((n - 1) as nat) == 0) by (nonlinear_arith)
            requires
                digit_at(s, n - 1) == 0,
        ;
    }
}

proof fn lemma_low_agrees(a: Seq<u32>, b: Seq<u32>, n: nat)
    requires
        forall|i: int| 0 <= i < n ==> #[trigger] digit_at(a, i) == digit_at(b, i),
    ensures
        low(a, n) == low(b, n),
    decreases n,
{
    if n > 0 {
        lemma_low_agrees(a, b, (n - 1) as nat);
        assert(digit_at(a, n - 1) == digit_at(b, n - 1));
    }
}

proof fn lemma_low_push(s: Seq<u32>, d: u32)
    ensures
        low(s.push(d), s.len() + 1) == low(s, s.len()) + d * weight(s.len()),
{
    let t = s.push(d);
    assert forall|i: int| 0 <= i < s.len() implies #[trigger] digit_at(t, i) == digit_at(s, i) by {}
    lemma_low_agrees(t, s, s.len());
    assert(digit_at(t, s.len() as int) == d as nat);
}

proof fn lemma_low_bound(s: Seq<u32>, n: nat)
    ensures
        low(s, n) < weight(n),
    decreases n,
{
    if n > 0 {
        lemma_low_bound(s, (n - 1) as nat);
        let w = weight((n - 1) as nat);
        let d = digit_at(s, n - 1);
        let l = low(s, (n - 1) as nat);
        assert(l + d * w < base() * w) by (nonlinear_arith)
            requires
                l < w,
                0 <= d < base(),
        ;
    }
}

proof fn lemma_split(s: Seq<u32>, n: nat)
    requires
        n <= s.len(),
    ensures
        low(s, s.len()) == low(s, n) + weight(n) * high(s, n),
    decreases s.len() - n,
{
    if n < s.len() {
        lemma_split(s, n + 1);
        let w = weight(n);
        let d = s[n as int] as nat;
        let h = high(s, n + 1);
        assert(d * w + (base() * w) * h == w * (d + base() * h)) by (nonlinear_arith);
    } else {
        assert(weight(n) * 0 == 0) by (nonlinear_arith);
    }
}

proof fn lemma_is_high(s: Seq<u32>)
    ensures
        low(s, s.len()) == high(s, 0),
{
    lemma_split(s, 0);
    assert(weight(0) * high(s, 0) == high(s, 0)) by (nonlinear_arith)
        requires
            weight(0) == 1,
    ;
}

proof fn lemma_weight(i: nat)
    ensures
        weight(i) == pow2(32 * i),
    decreases i,
{
    lemma2_to64();
    if i > 0 {
        lemma_weight((i - 1) as nat);
        lemma_pow2_adds(32, (32 * (i - 1)) as nat);
    }
}

/// A number is below two to as many bits as its digits have.
pub proof fn lemma_bits(s: Seq<u32>)
    ensures
        low(s, s.len()) < pow2(32 * s.len()),
{
    lemma_low_bound(s, s.len());
    lemma_weight(s.len());
}

/// The digits of two numbers compared from the highest down.
#[derive(Clone, Copy, PartialEq, Eq, Structural)]
enum Side {
    Less,
    Same,
    Greater,
}

impl Big {
    /// A number that a machine word holds.
    pub fn of(n: u64) -> (r: Big)
        ensures
            r@ == n,
    {
        let mut digits: Vec<u32> = Vec::new();
        let first: u32 = (n % 0x1_0000_0000) as u32;
        let second: u32 = (n / 0x1_0000_0000) as u32;
        digits.push(first);
        digits.push(second);
        proof {
            assert(weight(1) == base() * weight(0));
            assert(low(digits@, 1) == low(digits@, 0) + digit_at(digits@, 0) * weight(0));
            assert(low(digits@, 2) == low(digits@, 1) + digit_at(digits@, 1) * weight(1));
            assert(first * 1 + second * 0x1_0000_0000 == n);
        }
        Big { digits }
    }

    /// This number times another and one more added to it.
    pub fn scaled(&self, by: u32, plus: u32) -> (r: Big)
        ensures
            r@ == self@ * by + plus,
    {
        let ghost s = self.digits@;
        let mut digits: Vec<u32> = Vec::new();
        let mut carry: u32 = plus;
        let mut i: usize = 0;
        assert(0 * by == 0) by (nonlinear_arith);
        assert(carry * weight(0) == carry) by (nonlinear_arith)
            requires
                weight(0) == 1,
        ;
        while i < self.digits.len()
            invariant
                i <= s.len(),
                s == self.digits@,
                digits@.len() == i,
                low(digits@, i as nat) + carry * weight(i as nat) == low(s, i as nat) * by + plus,
            decreases s.len() - i,
        {
            let d: u64 = self.digits[i] as u64;
            assert(d * by <= 0xffff_ffff * 0xffff_ffff) by (nonlinear_arith)
                requires
                    0 <= d <= 0xffff_ffff,
                    0 <= by <= 0xffff_ffff,
            ;
            let t: u64 = d * (by as u64) + carry as u64;
            let ghost before = digits@;
            let digit: u32 = (t % 0x1_0000_0000) as u32;
            let up: u32 = (t / 0x1_0000_0000) as u32;
            digits.push(digit);
            proof {
                lemma_low_push(before, digit);
                let w = weight(i as nat);
                let l = low(s, i as nat);
                assert(digit * w + up * (base() * w) == t * w) by (nonlinear_arith)
                    requires
                        t == digit + 0x1_0000_0000 * up,
                        base() == 0x1_0000_0000,
                ;
                assert(t * w == (d * w) * by + carry * w) by (nonlinear_arith)
                    requires
                        t == d * by + carry,
                ;
                assert((l + d * w) * by == l * by + (d * w) * by) by (nonlinear_arith);
            }
            carry = up;
            i += 1;
        }
        let ghost before = digits@;
        digits.push(carry);
        proof {
            lemma_low_push(before, carry);
        }
        Big { digits }
    }

    /// Two numbers added.
    pub fn plus(&self, other: &Big) -> (r: Big)
        ensures
            r@ == self@ + other@,
    {
        let ghost a = self.digits@;
        let ghost b = other.digits@;
        let n: usize = if self.digits.len() < other.digits.len() {
            other.digits.len()
        } else {
            self.digits.len()
        };
        let mut digits: Vec<u32> = Vec::new();
        let mut carry: u32 = 0;
        let mut i: usize = 0;
        while i < n
            invariant
                i <= n,
                a == self.digits@,
                b == other.digits@,
                n >= a.len(),
                n >= b.len(),
                carry <= 1,
                digits@.len() == i,
                low(digits@, i as nat) + carry * weight(i as nat) == low(a, i as nat) + low(
                    b,
                    i as nat,
                ),
            decreases n - i,
        {
            let x: u64 = self.digit(i) as u64;
            let y: u64 = other.digit(i) as u64;
            let t: u64 = x + y + carry as u64;
            let digit: u32 = (t % 0x1_0000_0000) as u32;
            let up: u32 = (t / 0x1_0000_0000) as u32;
            let ghost before = digits@;
            digits.push(digit);
            proof {
                lemma_low_push(before, digit);
                let w = weight(i as nat);
                assert(digit * w + up * (base() * w) == x * w + y * w + carry * w) by (nonlinear_arith)
                    requires
                        x + y + carry == digit + 0x1_0000_0000 * up,
                        base() == 0x1_0000_0000,
                ;
            }
            carry = up;
            i += 1;
        }
        let ghost before = digits@;
        digits.push(carry);
        proof {
            lemma_low_push(before, carry);
            lemma_low_above(a, n as nat);
            lemma_low_above(b, n as nat);
        }
        Big { digits }
    }

    fn digit(&self, i: usize) -> (r: u32)
        ensures
            r == digit_at(self.digits@, i as int),
    {
        if i < self.digits.len() {
            self.digits[i]
        } else {
            0
        }
    }

    /// A number taken from one that is no smaller.
    pub fn minus(&self, other: &Big) -> (r: Big)
        requires
            other@ <= self@,
        ensures
            r@ == self@ - other@,
    {
        let ghost a = self.digits@;
        let ghost b = other.digits@;
        let n: usize = if self.digits.len() < other.digits.len() {
            other.digits.len()
        } else {
            self.digits.len()
        };
        let mut digits: Vec<u32> = Vec::new();
        let mut borrow: u32 = 0;
        let mut i: usize = 0;
        while i < n
            invariant
                i <= n,
                a == self.digits@,
                b == other.digits@,
                n >= a.len(),
                n >= b.len(),
                borrow <= 1,
                digits@.len() == i,
                low(digits@, i as nat) + low(b, i as nat) == low(a, i as nat) + borrow * weight(
                    i as nat,
                ),
            decreases n - i,
        {
            let x: u64 = self.digit(i) as u64;
            let y: u64 = other.digit(i) as u64;
            let t: u64 = 0x1_0000_0000 + x - y - borrow as u64;
            let digit: u32 = (t % 0x1_0000_0000) as u32;
            let next: u32 = if t < 0x1_0000_0000 {
                1
            } else {
                0
            };
            let ghost before = digits@;
            digits.push(digit);
            proof {
                lemma_low_push(before, digit);
                let w = weight(i as nat);
                assert(digit * w + y * w + borrow * w == x * w + next * (base() * w)) by (nonlinear_arith)
                    requires
                        digit + y + borrow == x + next * 0x1_0000_0000,
                        base() == 0x1_0000_0000,
                ;
            }
            borrow = next;
            i += 1;
        }
        proof {
            lemma_low_above(a, n as nat);
            lemma_low_above(b, n as nat);
            lemma_low_bound(digits@, n as nat);
            assert(borrow == 0) by {
                if borrow == 1 {
                    assert(1 * weight(n as nat) == weight(n as nat));
                }
            }
            assert(0 * weight(n as nat) == 0) by (nonlinear_arith);
        }
        Big { digits }
    }

    /// Whether one number is less than another.
    pub fn less(&self, other: &Big) -> (r: bool)
        ensures
            r == (self@ < other@),
    {
        self.side(other) == Side::Less
    }

    /// Whether two numbers are equal.
    pub fn same(&self, other: &Big) -> (r: bool)
        ensures
            r == (self@ == other@),
    {
        self.side(other) == Side::Same
    }

    fn side(&self, other: &Big) -> (r: Side)
        ensures
            match r {
                Side::Less => self@ < other@,
                Side::Same => self@ == other@,
                Side::Greater => self@ > other@,
            },
    {
        let ghost a = self.digits@;
        let ghost b = other.digits@;
        let mut i: usize = if self.digits.len() < other.digits.len() {
            other.digits.len()
        } else {
            self.digits.len()
        };
        let mut r = Side::Same;
        while i > 0
            invariant
                a == self.digits@,
                b == other.digits@,
                match r {
                    Side::Less => high(a, i as nat) < high(b, i as nat),
                    Side::Same => high(a, i as nat) == high(b, i as nat),
                    Side::Greater => high(a, i as nat) > high(b, i as nat),
                },
            decreases i,
        {
            i -= 1;
            let x: u32 = self.digit(i);
            let y: u32 = other.digit(i);
            proof {
                assert(high(a, i as nat) == x + base() * high(a, (i + 1) as nat));
                assert(high(b, i as nat) == y + base() * high(b, (i + 1) as nat));
            }
            if r == Side::Same {
                if x < y {
                    r = Side::Less;
                } else if x > y {
                    r = Side::Greater;
                }
            }
        }
        proof {
            lemma_is_high(a);
            lemma_is_high(b);
        }
        r
    }

    /// Whether this is zero.
    pub fn is_zero(&self) -> (r: bool)
        ensures
            r == (self@ == 0),
    {
        self.same(&Big::of(0))
    }

    /// A tenth of this number, and what is left.
    pub fn tenth(&self) -> (r: (Big, u32))
        ensures
            r.0@ == self@ / 10,
            r.1 == self@ % 10,
    {
        let ghost s = self.digits@;
        let mut digits: Vec<u32> = Vec::new();
        let mut k: usize = 0;
        while k < self.digits.len()
            invariant
                k <= s.len(),
                s == self.digits@,
                digits@.len() == k,
            decreases s.len() - k,
        {
            digits.push(0);
            k += 1;
        }
        let mut rest: u32 = 0;
        let mut i: usize = self.digits.len();
        while i > 0
            invariant
                i <= s.len(),
                s == self.digits@,
                digits@.len() == s.len(),
                rest < 10,
                high(s, i as nat) == 10 * high(digits@, i as nat) + rest,
            decreases i,
        {
            i -= 1;
            let t: u64 = (rest as u64) * 0x1_0000_0000 + self.digits[i] as u64;
            let digit: u32 = (t / 10) as u32;
            let ghost before = digits@;
            digits.set(i, digit);
            proof {
                lemma_high_agrees(before, digits@, (i + 1) as nat);
                let h = high(before, (i + 1) as nat);
                assert(high(s, i as nat) == s[i as int] + base() * high(s, (i + 1) as nat));
                assert(high(digits@, i as nat) == digit + base() * h);
            }
            rest = (t % 10) as u32;
        }
        proof {
            lemma_is_high(s);
            lemma_is_high(digits@);
            let v = high(s, 0);
            let q = high(digits@, 0);
            assert(v / 10 == q && v % 10 == rest as nat) by (nonlinear_arith)
                requires
                    v == 10 * q + rest,
                    0 <= rest < 10,
            ;
        }
        (Big { digits }, rest)
    }
}

proof fn lemma_high_agrees(a: Seq<u32>, b: Seq<u32>, i: nat)
    requires
        a.len() == b.len(),
        forall|j: int| i <= j < a.len() ==> a[j] == b[j],
    ensures
        high(a, i) == high(b, i),
    decreases a.len() - i,
{
    if i < a.len() {
        lemma_high_agrees(a, b, i + 1);
    }
}

} // verus!
