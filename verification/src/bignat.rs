use vstd::prelude::*;

verus! {

/// The base of the limbs: 2^32.
pub open spec fn base() -> nat {
    0x1_0000_0000
}

/// The number whose base-2^32 digits, least significant first, are `s`.
pub open spec fn limbs_value(s: Seq<u32>) -> nat
    decreases s.len(),
{
    if s.len() == 0 {
        0
    } else {
        s[0] as nat + base() * limbs_value(s.drop_first())
    }
}

/// The number made of the digits of `s` from position `i` up.
pub open spec fn tail_value(s: Seq<u32>, i: int) -> nat {
    if 0 <= i < s.len() {
        limbs_value(s.skip(i))
    } else {
        0
    }
}

/// Digit `i` of `s`, zero past its end.
pub open spec fn limb_at(s: Seq<u32>, i: int) -> nat {
    if 0 <= i < s.len() {
        s[i] as nat
    } else {
        0
    }
}

/// Ten to the power `n`.
pub open spec fn pow10(n: nat) -> nat
    decreases n,
{
    if n == 0 {
        1
    } else {
        10 * pow10((n - 1) as nat)
    }
}

/// The number whose big-endian bytes are `s`.
pub open spec fn bytes_value(s: Seq<u8>) -> nat
    decreases s.len(),
{
    if s.len() == 0 {
        0
    } else {
        bytes_value(s.drop_last()) * 256 + s.last() as nat
    }
}

proof fn lemma_tail_step(s: Seq<u32>, i: int)
    requires
        0 <= i,
    ensures
        tail_value(s, i) == limb_at(s, i) + base() * tail_value(s, i + 1),
{
    if i < s.len() {
        let t = s.skip(i);
        assert(t.drop_first() =~= s.skip(i + 1));
        assert(t[0] == s[i]);
        assert(limbs_value(t) == t[0] as nat + base() * limbs_value(t.drop_first()));
        if i + 1 == s.len() {
            assert(t.drop_first().len() == 0);
            assert(limbs_value(t.drop_first()) == 0);
        }
    }
}

proof fn lemma_prepend(x: u32, r: Seq<u32>)
    ensures
        limbs_value(seq![x] + r) == x as nat + base() * limbs_value(r),
{
    assert((seq![x] + r).drop_first() =~= r);
}

proof fn lemma_whole(s: Seq<u32>)
    ensures
        tail_value(s, 0) == limbs_value(s),
{
    assert(s.skip(0) =~= s);
}

proof fn lemma_drop_top_zero(s: Seq<u32>)
    requires
        s.len() > 0,
        s.last() == 0,
    ensures
        limbs_value(s.drop_last()) == limbs_value(s),
    decreases s.len(),
{
    if s.len() == 1 {
        assert(s.drop_first().len() == 0);
        assert(limbs_value(s.drop_first()) == 0);
        assert(s.drop_last().len() == 0);
        assert(limbs_value(s) == s[0] as nat + base() * limbs_value(s.drop_first()));
    } else {
        lemma_drop_top_zero(s.drop_first());
        assert(s.drop_first().drop_last() =~= s.drop_last().drop_first());
        assert(s.drop_last()[0] == s[0]);
        assert(limbs_value(s) == s[0] as nat + base() * limbs_value(s.drop_first()));
        assert(limbs_value(s.drop_last()) == s[0] as nat + base() * limbs_value(
            s.drop_last().drop_first(),
        ));
    }
}

pub proof fn lemma_pow10_positive(n: nat)
    ensures
        pow10(n) >= 1,
    decreases n,
{
    if n > 0 {
        lemma_pow10_positive((n - 1) as nat);
    }
}

/// A natural number of any size.
#[derive(Clone, Debug, PartialEq, Eq)]
pub struct BigNat {
    limbs: Vec<u32>,
}

impl View for BigNat {
    type V = nat;

    closed spec fn view(&self) -> nat {
        limbs_value(self.limbs@)
    }
}

/// The digits of `a` and `b` from `i` up, added with `carry`.
fn add_from(a: &Vec<u32>, b: &Vec<u32>, i: usize, carry: u64) -> (res: Vec<u32>)
    requires
        carry <= 1,
    ensures
        limbs_value(res@) == tail_value(a@, i as int) + tail_value(b@, i as int) + carry,
    decreases a.len() + b.len() - i,
{
    if i >= a.len() && i >= b.len() {
        if carry == 0 {
            Vec::new()
        } else {
            proof {
                lemma_prepend(1, Seq::empty());
            }
            let mut r: Vec<u32> = Vec::new();
            r.push(1);
            assert(r@ =~= seq![1u32] + Seq::<u32>::empty());
            r
        }
    } else {
        let x: u64 = if i < a.len() {
            a[i] as u64
        } else {
            0
        };
        let y: u64 = if i < b.len() {
            b[i] as u64
        } else {
            0
        };
        let t = x + y + carry;
        let lo = (t % 0x1_0000_0000) as u32;
        let rest = add_from(a, b, i + 1, t / 0x1_0000_0000);
        let ghost rest_view = rest@;
        let mut r = rest;
        r.insert(0, lo);
        proof {
            assert(r@ =~= seq![lo] + rest_view);
            lemma_prepend(lo, rest_view);
            lemma_tail_step(a@, i as int);
            lemma_tail_step(b@, i as int);
        }
        r
    }
}

/// The digits of `a` from `i` up less those of `b` and `borrow`, or `None`
/// where that is below zero.
fn sub_from(a: &Vec<u32>, b: &Vec<u32>, i: usize, borrow: u64) -> (res: Option<Vec<u32>>)
    requires
        borrow <= 1,
    ensures
        match res {
            Some(r) => tail_value(a@, i as int) >= tail_value(b@, i as int) + borrow && limbs_value(r@)
                == tail_value(a@, i as int) - tail_value(b@, i as int) - borrow,
            None => tail_value(a@, i as int) < tail_value(b@, i as int) + borrow,
        },
    decreases a.len() + b.len() - i,
{
    if i >= a.len() && i >= b.len() {
        if borrow == 0 {
            Some(Vec::new())
        } else {
            None
        }
    } else {
        let x: u64 = if i < a.len() {
            a[i] as u64
        } else {
            0
        };
        let y: u64 = (if i < b.len() {
            b[i] as u64
        } else {
            0
        }) + borrow;
        let (d, next) = if x >= y {
            ((x - y) as u32, 0u64)
        } else {
            ((x + 0x1_0000_0000 - y) as u32, 1u64)
        };
        proof {
            lemma_tail_step(a@, i as int);
            lemma_tail_step(b@, i as int);
        }
        match sub_from(a, b, i + 1, next) {
            None => None,
            Some(rest) => {
                let ghost rest_view = rest@;
                let mut r = rest;
                r.insert(0, d);
                proof {
                    assert(r@ =~= seq![d] + rest_view);
                    lemma_prepend(d, rest_view);
                }
                Some(r)
            },
        }
    }
}

/// The digits of `a` from `i` up times `m`, plus `carry`.
fn mul_small_from(a: &Vec<u32>, m: u32, i: usize, carry: u64) -> (res: Vec<u32>)
    requires
        carry < 0x1_0000_0000,
    ensures
        limbs_value(res@) == tail_value(a@, i as int) * m + carry,
    decreases a.len() - i,
{
    if i >= a.len() {
        let ghost tv = tail_value(a@, i as int);
        assert(tv == 0);
        assert(tv * m == 0) by (nonlinear_arith)
            requires
                tv == 0,
        ;
        if carry == 0 {
            assert(limbs_value(Seq::<u32>::empty()) == 0);
            Vec::new()
        } else {
            let mut r: Vec<u32> = Vec::new();
            r.push(carry as u32);
            proof {
                assert(r@ =~= seq![carry as u32] + Seq::<u32>::empty());
                lemma_prepend(carry as u32, Seq::empty());
            }
            r
        }
    } else {
        let x = a[i] as u64;
        assert(x * m <= 0xFFFF_FFFFu64 * 0xFFFF_FFFFu64) by (nonlinear_arith)
            requires
                x <= 0xFFFF_FFFF,
                m <= 0xFFFF_FFFF,
        ;
        let t = x * (m as u64) + carry;
        let lo = (t % 0x1_0000_0000) as u32;
        let rest = mul_small_from(a, m, i + 1, t / 0x1_0000_0000);
        let ghost rest_view = rest@;
        let mut r = rest;
        r.insert(0, lo);
        proof {
            assert(r@ =~= seq![lo] + rest_view);
            lemma_prepend(lo, rest_view);
            lemma_tail_step(a@, i as int);
            let v1 = tail_value(a@, i as int + 1);
            assert(tail_value(a@, i as int) == x + base() * v1);
            assert((x + base() * v1) * m == x * m + base() * (v1 * m)) by (nonlinear_arith);
            assert(t == lo + base() * (t / 0x1_0000_0000));
            assert(limbs_value(r@) == lo + base() * (v1 * m + t / 0x1_0000_0000));
            assert(limbs_value(r@) == t + base() * (v1 * m));
        }
        r
    }
}

/// The digits of `a` from `i` up divided by `m`: quotient and remainder.
fn div_small_from(a: &Vec<u32>, m: u32, i: usize) -> (res: (Vec<u32>, u64))
    requires
        m > 0,
    ensures
        tail_value(a@, i as int) == limbs_value(res.0@) * m + res.1,
        res.1 < m,
    decreases a.len() - i,
{
    if i >= a.len() {
        let q: Vec<u32> = Vec::new();
        assert(limbs_value(q@) == 0);
        let ghost qv = limbs_value(q@);
        assert(qv * m == 0) by (nonlinear_arith)
            requires
                qv == 0,
        ;
        (q, 0)
    } else {
        let (q1, r1) = div_small_from(a, m, i + 1);
        let x = a[i] as u64;
        assert(r1 * 0x1_0000_0000 + x < (m as int) * 0x1_0000_0000) by (nonlinear_arith)
            requires
                r1 < m,
                x < 0x1_0000_0000,
        ;
        let cur = r1 * 0x1_0000_0000 + x;
        let qd = cur / (m as u64);
        let r = cur % (m as u64);
        assert(qd < 0x1_0000_0000) by (nonlinear_arith)
            requires
                cur < (m as int) * 0x1_0000_0000,
                qd as int == (cur as int) / (m as int),
                m > 0,
        ;
        let ghost q1_view = q1@;
        let d = qd as u32;
        assert(d as nat == qd as nat);
        let mut q = q1;
        q.insert(0, d);
        proof {
            assert(q@ =~= seq![d] + q1_view);
            lemma_prepend(d, q1_view);
            lemma_tail_step(a@, i as int);
            vstd::arithmetic::div_mod::lemma_fundamental_div_mod(cur as int, m as int);
            let v = limbs_value(q1_view);
            assert(tail_value(a@, i as int) == x + base() * (v * m + r1));
            assert(cur == m * qd + r);
            assert(x + base() * (v * m + r1) == (qd + base() * v) * m + r) by (nonlinear_arith)
                requires
                    cur == r1 * base() + x,
                    cur == m * qd + r,
            ;
            assert(limbs_value(q@) == qd + base() * v);
        }
        (q, r)
    }
}

/// `a` times the digits of `b` from `j` up.
fn mul_from(a: &Vec<u32>, b: &Vec<u32>, j: usize) -> (res: Vec<u32>)
    ensures
        limbs_value(res@) == limbs_value(a@) * tail_value(b@, j as int),
    decreases b.len() - j,
{
    if j >= b.len() {
        Vec::new()
    } else {
        let higher = mul_from(a, b, j + 1);
        let ghost hv = higher@;
        let mut shifted = higher;
        shifted.insert(0, 0);
        let low = mul_small_from(a, b[j], 0, 0);
        let res = add_from(&low, &shifted, 0, 0);
        proof {
            assert(shifted@ =~= seq![0u32] + hv);
            lemma_prepend(0, hv);
            lemma_whole(low@);
            lemma_whole(shifted@);
            lemma_whole(a@);
            lemma_tail_step(b@, j as int);
            let va = limbs_value(a@);
            let vh = tail_value(b@, j as int + 1);
            assert(va * (b[j as int] + base() * vh) == va * b[j as int] + base() * (va * vh))
                by (nonlinear_arith);
        }
        res
    }
}

/// `v` without zero digits at the top; the same number.
fn trimmed(v: Vec<u32>) -> (res: Vec<u32>)
    ensures
        limbs_value(res@) == limbs_value(v@),
        res@.len() == 0 || res@.last() != 0,
{
    let mut v = v;
    let ghost orig = v@;
    while v.len() > 0 && v[v.len() - 1] == 0
        invariant
            limbs_value(v@) == limbs_value(orig),
        decreases v.len(),
    {
        proof {
            lemma_drop_top_zero(v@);
        }
        v.pop();
    }
    v
}

impl BigNat {
    /// Zero.
    pub fn zero() -> (res: BigNat)
        ensures
            res@ == 0,
    {
        BigNat { limbs: Vec::new() }
    }

    /// The number `x`.
    pub fn from_u64(x: u64) -> (res: BigNat)
        ensures
            res@ == x,
    {
        let lo = (x % 0x1_0000_0000) as u32;
        let hi = (x / 0x1_0000_0000) as u32;
        let mut v: Vec<u32> = Vec::new();
        v.push(lo);
        v.push(hi);
        proof {
            assert(v@.drop_first() =~= seq![hi]);
            assert(seq![hi].drop_first() =~= Seq::<u32>::empty());
            assert(limbs_value(Seq::<u32>::empty()) == 0);
            assert(limbs_value(seq![hi]) == hi as nat);
            assert(limbs_value(v@) == lo as nat + base() * hi as nat);
        }
        BigNat { limbs: trimmed(v) }
    }

    /// The number `x`.
    pub fn from_u128(x: u128) -> (res: BigNat)
        ensures
            res@ == x,
    {
        let lo = BigNat::from_u64((x % 0x1_0000_0000_0000_0000) as u64);
        let hi = BigNat::from_u64((x / 0x1_0000_0000_0000_0000) as u64);
        let scale = BigNat::from_u64(0xFFFF_FFFF_FFFF_FFFF).add(&BigNat::from_u64(1));
        let prod = hi.mul(&scale);
        assert(prod@ == hi@ * 0x1_0000_0000_0000_0000);
        prod.add(&lo)
    }

    /// This number as a `u128`, where it fits.
    pub fn to_u128(&self) -> (res: Option<u128>)
        ensures
            match res {
                Some(v) => v == self@,
                None => self@ > u128::MAX,
            },
    {
        let max = BigNat::from_u128(u128::MAX);
        if !max.ge(self) {
            return None;
        }
        let mut acc: u128 = 0;
        let mut i: usize = self.limbs.len();
        proof {
            lemma_whole(self.limbs@);
        }
        while i > 0
            invariant
                i <= self.limbs.len(),
                acc == tail_value(self.limbs@, i as int),
                self@ <= u128::MAX,
                tail_value(self.limbs@, 0) == self@,
            decreases i,
        {
            i = i - 1;
            proof {
                lemma_tail_step(self.limbs@, i as int);
                lemma_tail_le_whole(self.limbs@, i as int);
            }
            acc = acc * 0x1_0000_0000 + self.limbs[i] as u128;
        }
        Some(acc)
    }

    /// The number whose big-endian bytes are `bytes`.
    pub fn from_be_bytes(bytes: &Vec<u8>) -> (res: BigNat)
        ensures
            res@ == bytes_value(bytes@),
    {
        let mut acc = BigNat::zero();
        let mut i: usize = 0;
        while i < bytes.len()
            invariant
                i <= bytes.len(),
                acc@ == bytes_value(bytes@.take(i as int)),
            decreases bytes.len() - i,
        {
            assert(bytes@.take(i + 1).drop_last() =~= bytes@.take(i as int));
            acc = acc.mul_small(256).add(&BigNat::from_u64(bytes[i] as u64));
            i = i + 1;
        }
        assert(bytes@.take(bytes.len() as int) =~= bytes@);
        acc
    }

    /// The big-endian bytes of this number, with no leading zero byte.
    pub fn to_be_bytes(&self) -> (res: Vec<u8>)
        ensures
            bytes_value(res@) == self@,
        decreases self@,
    {
        if self.is_zero() {
            Vec::new()
        } else {
            let (q, r) = self.div_small(256);
            let mut out = q.to_be_bytes();
            let ghost prefix = out@;
            out.push(r as u8);
            assert(out@.drop_last() =~= prefix);
            out
        }
    }

    /// A copy of this number.
    pub fn copy(&self) -> (res: BigNat)
        ensures
            res@ == self@,
    {
        let mut v: Vec<u32> = Vec::new();
        let mut i: usize = 0;
        while i < self.limbs.len()
            invariant
                i <= self.limbs.len(),
                v@ =~= self.limbs@.take(i as int),
            decreases self.limbs.len() - i,
        {
            v.push(self.limbs[i]);
            i = i + 1;
        }
        assert(v@ =~= self.limbs@);
        BigNat { limbs: v }
    }

    /// Whether this number is zero.
    pub fn is_zero(&self) -> (res: bool)
        ensures
            res == (self@ == 0),
    {
        BigNat::zero().ge(self)
    }

    /// The sum.
    pub fn add(&self, other: &BigNat) -> (res: BigNat)
        ensures
            res@ == self@ + other@,
    {
        let r = add_from(&self.limbs, &other.limbs, 0, 0);
        proof {
            lemma_whole(self.limbs@);
            lemma_whole(other.limbs@);
        }
        BigNat { limbs: trimmed(r) }
    }

    /// The difference, or `None` where `other` is greater.
    pub fn checked_sub(&self, other: &BigNat) -> (res: Option<BigNat>)
        ensures
            match res {
                Some(r) => self@ >= other@ && r@ == self@ - other@,
                None => self@ < other@,
            },
    {
        proof {
            lemma_whole(self.limbs@);
            lemma_whole(other.limbs@);
        }
        match sub_from(&self.limbs, &other.limbs, 0, 0) {
            Some(r) => Some(BigNat { limbs: trimmed(r) }),
            None => None,
        }
    }

    /// Whether this number is at least `other`.
    pub fn ge(&self, other: &BigNat) -> (res: bool)
        ensures
            res == (self@ >= other@),
    {
        self.checked_sub(other).is_some()
    }

    /// The product.
    pub fn mul(&self, other: &BigNat) -> (res: BigNat)
        ensures
            res@ == self@ * other@,
    {
        let r = mul_from(&self.limbs, &other.limbs, 0);
        proof {
            lemma_whole(other.limbs@);
        }
        BigNat { limbs: trimmed(r) }
    }

    /// The product with a small number.
    pub fn mul_small(&self, m: u32) -> (res: BigNat)
        ensures
            res@ == self@ * m,
    {
        let r = mul_small_from(&self.limbs, m, 0, 0);
        proof {
            lemma_whole(self.limbs@);
        }
        BigNat { limbs: trimmed(r) }
    }

    /// Quotient and remainder of the division by `m`.
    pub fn div_small(&self, m: u32) -> (res: (BigNat, u32))
        requires
            m > 0,
        ensures
            self@ == res.0@ * m + res.1,
            res.1 < m,
    {
        let (q, r) = div_small_from(&self.limbs, m, 0);
        proof {
            lemma_whole(self.limbs@);
        }
        (BigNat { limbs: trimmed(q) }, r as u32)
    }

    /// This number divided by ten to the power `decimals`, rounded down.
    pub fn div_pow10(&self, decimals: u8) -> (res: BigNat)
        ensures
            res@ == self@ / pow10(decimals as nat),
    {
        let mut cur = self.copy();
        let mut k: u8 = 0;
        proof {
            assert(self@ / 1 == self@);
        }
        while k < decimals
            invariant
                k <= decimals,
                cur@ == self@ / pow10(k as nat),
            decreases decimals - k,
        {
            let (q, r) = cur.div_small(10);
            proof {
                lemma_pow10_positive(k as nat);
                vstd::arithmetic::div_mod::lemma_div_denominator(self@ as int, pow10(k as nat) as int, 10);
                vstd::arithmetic::div_mod::lemma_fundamental_div_mod_converse(
                    cur@ as int,
                    10,
                    q@ as int,
                    r as int,
                );
                assert(pow10((k + 1) as nat) == pow10(k as nat) * 10);
            }
            cur = q;
            k = k + 1;
        }
        cur
    }
}

proof fn lemma_tail_le_whole(s: Seq<u32>, i: int)
    requires
        0 <= i,
    ensures
        tail_value(s, i) <= tail_value(s, 0),
    decreases i,
{
    if i > 0 {
        lemma_tail_step(s, i - 1);
        lemma_tail_le_whole(s, i - 1);
    }
}

} // verus!
