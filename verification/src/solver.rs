//! Brute-force enumeration of item-count combinations.
//!
//! The inventory endpoint must split a known number of sold items
//! over the items of a category. `Combinatorial` enumerates, in
//! increasing counter order, every vector of a fixed size whose
//! entries sum to a fixed total: each candidate is the base-`total+1`
//! digit decomposition of a counter value, and `next` returns the
//! next decomposition whose digits sum to the total. Which candidates
//! also match the recorded sales figures is the caller's concern.

use vstd::arithmetic::div_mod::lemma_div_denominator;
use vstd::arithmetic::power::lemma_pow0;
use vstd::arithmetic::power::lemma_pow1;
use vstd::arithmetic::power::lemma_pow_adds;
use vstd::arithmetic::power::lemma_pow_positive;
use vstd::arithmetic::power::lemma_pow_increases;
use vstd::arithmetic::power::pow;
use vstd::arithmetic::power2::lemma_pow2;
use vstd::arithmetic::power2::lemma2_to64;
use vstd::prelude::*;

verus! {

/// Digit `i` (counting from the least significant) of `n` written in
/// base `base`.
pub open spec fn digit_at(n: nat, base: nat, i: nat) -> nat {
    (n / (pow(base as int, i) as nat)) % base
}

/// The sum of the `len` least significant digits of `n` in base `base`.
pub open spec fn digit_sum(n: nat, base: nat, len: nat) -> nat
    decreases len,
{
    if len == 0 {
        0
    } else {
        (n % base) + digit_sum(n / base, base, (len - 1) as nat)
    }
}

/// `v` is the digit decomposition of `n` in base `base`, most
/// significant digit first.
pub open spec fn is_digits_of(v: Seq<u32>, n: nat, base: nat) -> bool {
    forall|x: int|
        0 <= x < v.len() ==> (#[trigger] v[x]) as nat == digit_at(n, base, (v.len() - 1 - x) as nat)
}

/// The sum of a sequence of counts.
pub open spec fn seq_sum(s: Seq<u32>) -> nat
    decreases s.len(),
{
    if s.len() == 0 {
        0
    } else {
        seq_sum(s.drop_last()) + s.last() as nat
    }
}

/// For `b >= 1` the power does not shrink when the base grows.
proof fn lemma_pow_base_mono(b1: nat, b2: nat, e: nat)
    requires
        1 <= b1 <= b2,
    ensures
        pow(b1 as int, e) <= pow(b2 as int, e),
    decreases e,
{
    if e == 0 {
        lemma_pow0(b1 as int);
        lemma_pow0(b2 as int);
    } else {
        lemma_pow_base_mono(b1, b2, (e - 1) as nat);
        lemma_pow_positive(b1 as int, (e - 1) as nat);
        lemma_pow_positive(b2 as int, (e - 1) as nat);
        lemma_pow1(b1 as int);
        lemma_pow1(b2 as int);
        lemma_pow_adds(b1 as int, 1nat, (e - 1) as nat);
        lemma_pow_adds(b2 as int, 1nat, (e - 1) as nat);
        assert(b1 as int * pow(b1 as int, (e - 1) as nat) <= b2 as int * pow(
            b2 as int,
            (e - 1) as nat,
        )) by (nonlinear_arith)
            requires
                1 <= b1 <= b2,
                0 < pow(b1 as int, (e - 1) as nat) <= pow(b2 as int, (e - 1) as nat),
        ;
        assert(pow(b1 as int, e) == b1 as int * pow(b1 as int, (e - 1) as nat));
        assert(pow(b2 as int, e) == b2 as int * pow(b2 as int, (e - 1) as nat));
    }
}

/// With at least two digit values available, a counter space that
/// fits in 32 bits bounds the number of digits by 31.
proof fn lemma_size_bound(base: nat, len: nat)
    requires
        base >= 2,
        pow(base as int, len) <= u32::MAX,
    ensures
        len <= 31,
{
    if len > 31 {
        lemma_pow_base_mono(2, base, len);
        lemma_pow_increases(2, 32, len);
        lemma_pow2(32);
        lemma2_to64();
        assert(pow(2, 32) > u32::MAX);
    }
}

/// Shifting a number one digit right shifts its digit positions.
proof fn lemma_digit_shift(n: nat, base: nat, j: nat)
    requires
        base >= 1,
    ensures
        digit_at(n / base, base, j) == digit_at(n, base, j + 1),
{
    lemma_pow_positive(base as int, j);
    lemma_div_denominator(n as int, base as int, pow(base as int, j));
    lemma_pow1(base as int);
    lemma_pow_adds(base as int, 1nat, j);
    assert(pow(base as int, (j + 1) as nat) == base as int * pow(base as int, j));
}

/// The elementwise digit decomposition sums to the digit sum.
proof fn lemma_digits_sum(v: Seq<u32>, n: nat, base: nat)
    requires
        base >= 1,
        is_digits_of(v, n, base),
    ensures
        seq_sum(v) == digit_sum(n, base, v.len() as nat),
    decreases v.len(),
{
    if v.len() > 0 {
        let w = v.drop_last();
        assert forall|x: int|
            0 <= x < w.len() implies (#[trigger] w[x]) as nat == digit_at(
            n / base,
            base,
            (w.len() - 1 - x) as nat,
        ) by {
            lemma_digit_shift(n, base, (w.len() - 1 - x) as nat);
            assert(w[x] == v[x]);
            assert(v[x] as nat == digit_at(n, base, (v.len() - 1 - x) as nat));
        }
        lemma_digits_sum(w, n / base, base);
        lemma_pow0(base as int);
        assert(pow(base as int, 0) == 1);
        assert(v.last() as nat == digit_at(n, base, 0));
        assert(n as int / 1int == n as int) by (nonlinear_arith);
        assert(digit_at(n, base, 0) == n % base);
    }
}

/// Raises `base` to `exp`.
fn u32_pow(base: u32, exp: usize) -> (r: u32)
    requires
        1 <= base,
        pow(base as int, exp as nat) <= u32::MAX,
    ensures
        r as int == pow(base as int, exp as nat),
{
    proof {
        lemma_pow0(base as int);
    }
    let mut r: u32 = 1;
    let mut i: usize = 0;
    while i < exp
        invariant
            1 <= base,
            0 <= i <= exp,
            pow(base as int, exp as nat) <= u32::MAX,
            r as int == pow(base as int, i as nat),
        decreases exp - i,
    {
        proof {
            lemma_pow_increases(base as nat, (i + 1) as nat, exp as nat);
            lemma_pow1(base as int);
            lemma_pow_adds(base as int, i as nat, 1nat);
            assert(pow(base as int, (i + 1) as nat) == pow(base as int, i as nat) * base as int);
        }
        r = r * base;
        i += 1;
    }
    r
}

/// Copies a count vector.
fn copy_counts(v: &Vec<u32>) -> (r: Vec<u32>)
    ensures
        r@ == v@,
{
    let n = v.len();
    let mut r: Vec<u32> = Vec::new();
    let mut i: usize = 0;
    while i < n
        invariant
            n == v@.len(),
            0 <= i <= n,
            r@ == v@.take(i as int),
        decreases n - i,
    {
        r.push(v[i]);
        proof {
            assert(v@.take(i + 1 as int) =~= v@.take(i as int).push(v@[i as int]));
        }
        i += 1;
    }
    proof {
        assert(v@.take(n as int) =~= v@);
    }
    r
}

/// Sums a count vector whose entries are bounded by `total`.
fn sum_counts(v: &Vec<u32>, total: u32) -> (s: u64)
    requires
        forall|x: int| 0 <= x < v@.len() ==> (#[trigger] v@[x]) <= total,
        total >= 1 ==> v@.len() <= 31,
    ensures
        s as nat == seq_sum(v@),
{
    let n = v.len();
    let mut s: u64 = 0;
    let mut i: usize = 0;
    while i < n
        invariant
            n == v@.len(),
            0 <= i <= n,
            forall|x: int| 0 <= x < v@.len() ==> (#[trigger] v@[x]) <= total,
            total >= 1 ==> v@.len() <= 31,
            s as nat == seq_sum(v@.take(i as int)),
            s as int <= i as int * total as int,
        decreases n - i,
    {
        proof {
            assert(v@.take(i + 1 as int).drop_last() =~= v@.take(i as int));
            assert(v@.take(i + 1 as int).last() == v@[i as int]);
            assert(s as int + v@[i as int] as int <= 31 * 0xffff_ffff) by (nonlinear_arith)
                requires
                    0 <= i as int,
                    s as int <= i as int * total as int,
                    v@[i as int] as int <= total as int,
                    total as int <= 0xffff_ffff,
                    total as int >= 1 ==> i as int <= 30,
                    total as int == 0 ==> s as int + v@[i as int] as int == 0,
            ;
            assert((i as int + 1) * total as int == i as int * total as int + total as int)
                by (nonlinear_arith);
        }
        s = s + v[i] as u64;
        i += 1;
    }
    proof {
        assert(v@.take(n as int) =~= v@);
    }
    s
}

/// Enumerator state: iterates over all vectors of `current.len()`
/// entries in `0..=total` whose entries sum to `total`, by walking a
/// base-`total+1` counter.
pub struct Combinatorial {
    /// The required sum of the entries.
    pub total: u32,
    /// The digit buffer; its length is the number of entries.
    pub current: Vec<u32>,
    /// The next counter value to try.
    pub current_n: u32,
}

impl Combinatorial {
    /// The counter base: one more than the total, so a digit can hold
    /// any entry value.
    pub open spec fn base(self) -> nat {
        self.total as nat + 1
    }

    /// The number of entries of each enumerated vector.
    pub open spec fn size(self) -> nat {
        self.current@.len() as nat
    }

    /// The end of the counter space.
    pub open spec fn max_n(self) -> int {
        pow(self.base() as int, self.size())
    }

    /// The counter space fits the 32-bit counter (machine limit),
    /// and the position has not run past its end.
    pub open spec fn wf(self) -> bool {
        &&& self.total < u32::MAX
        &&& self.max_n() <= u32::MAX
        &&& self.current_n as int <= self.max_n()
    }

    /// A fresh enumerator over vectors of `size` entries summing to
    /// `total`, starting at the zero vector.
    pub fn new(size: usize, total: u32) -> (c: Combinatorial)
        requires
            total < u32::MAX,
            pow(total as int + 1, size as nat) <= u32::MAX,
        ensures
            c.wf(),
            c.total == total,
            c.current@.len() == size,
            c.current_n == 0,
            forall|x: int| 0 <= x < size ==> (#[trigger] c.current@[x]) == 0,
    {
        let mut current: Vec<u32> = Vec::new();
        let mut i: usize = 0;
        while i < size
            invariant
                0 <= i <= size,
                current@.len() == i,
                forall|x: int| 0 <= x < i ==> (#[trigger] current@[x]) == 0,
            decreases size - i,
        {
            current.push(0);
            i += 1;
        }
        proof {
            lemma_pow_positive(total as int + 1, size as nat);
        }
        Combinatorial { total, current, current_n: 0 }
    }

    /// The next vector of entries summing to `total`, in counter
    /// order; `None` once the counter space is exhausted. A returned
    /// vector is the digit decomposition of the least counter value,
    /// from the previous position on, whose digits sum to `total`.
    pub fn next(&mut self) -> (r: Option<Vec<u32>>)
        requires
            old(self).wf(),
        ensures
            final(self).wf(),
            final(self).total == old(self).total,
            final(self).current@.len() == old(self).current@.len(),
            match r {
                Some(v) => {
                    let base = old(self).base();
                    let len = old(self).size();
                    let n = final(self).current_n as int - 1;
                    &&& old(self).current_n <= n < old(self).max_n()
                    &&& v@.len() == len
                    &&& is_digits_of(v@, n as nat, base)
                    &&& digit_sum(n as nat, base, len) == old(self).total as nat
                    &&& seq_sum(v@) == old(self).total as nat
                    &&& forall|m: int|
                        old(self).current_n <= m < n ==> #[trigger] digit_sum(m as nat, base, len)
                            != old(self).total as nat
                    &&& final(self).current@ == v@
                },
                None => {
                    &&& final(self).current_n == old(self).current_n
                    &&& forall|m: int|
                        old(self).current_n <= m < old(self).max_n() ==> #[trigger] digit_sum(
                            m as nat,
                            old(self).base(),
                            old(self).size(),
                        ) != old(self).total as nat
                },
            },
    {
        let base = self.total + 1;
        let len = self.current.len();
        let max_n = u32_pow(base, len);
        proof {
            if self.total >= 1 {
                lemma_size_bound(base as nat, len as nat);
            }
        }
        let mut n = self.current_n;
        while n < max_n
            invariant
                base == self.total + 1,
                len == self.current@.len(),
                max_n as int == pow(base as int, len as nat),
                self.total == old(self).total,
                self.current_n == old(self).current_n,
                len == old(self).current@.len(),
                self.total < u32::MAX,
                old(self).current_n <= n <= max_n,
                self.total >= 1 ==> len <= 31,
                forall|m: int|
                    old(self).current_n <= m < n ==> #[trigger] digit_sum(
                        m as nat,
                        base as nat,
                        len as nat,
                    ) != self.total as nat,
            decreases max_n - n,
        {
            // write the digits of n into the buffer, most significant first
            let mut i: usize = 0;
            while i < len
                invariant
                    base == self.total + 1,
                    len == self.current@.len(),
                    max_n as int == pow(base as int, len as nat),
                    self.total == old(self).total,
                    self.current_n == old(self).current_n,
                    len == old(self).current@.len(),
                    self.total < u32::MAX,
                    old(self).current_n <= n < max_n,
                    self.total >= 1 ==> len <= 31,
                    forall|m: int|
                        old(self).current_n <= m < n ==> #[trigger] digit_sum(
                            m as nat,
                            base as nat,
                            len as nat,
                        ) != self.total as nat,
                    0 <= i <= len,
                    forall|x: int|
                        len - i <= x < len ==> (#[trigger] self.current@[x]) as nat == digit_at(
                            n as nat,
                            base as nat,
                            (len - 1 - x) as nat,
                        ),
                decreases len - i,
            {
                let x = len - 1 - i;
                proof {
                    lemma_pow_increases(base as nat, i as nat, len as nat);
                    lemma_pow_positive(base as int, i as nat);
                }
                let curr_base = u32_pow(base, i);
                let digit = (n / curr_base) % base;
                self.current[x] = digit;
                i += 1;
            }
            proof {
                assert(is_digits_of(self.current@, n as nat, base as nat));
                lemma_digits_sum(self.current@, n as nat, base as nat);
                assert forall|x: int|
                    0 <= x < self.current@.len() implies (#[trigger] self.current@[x])
                    <= self.total by {
                    assert(self.current@[x] as nat == digit_at(
                        n as nat,
                        base as nat,
                        (len - 1 - x) as nat,
                    ));
                }
            }
            let s = sum_counts(&self.current, self.total);
            if s == self.total as u64 {
                self.current_n = n + 1;
                let out = copy_counts(&self.current);
                return Some(out);
            }
            n += 1;
        }
        None
    }
}

} // verus!
