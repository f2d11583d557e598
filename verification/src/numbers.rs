//! Integers of any size, held as big-endian magnitudes.

use vstd::arithmetic::power::*;
use vstd::prelude::*;

verus! {

/// The number that a byte string is in big-endian base 256.
pub open spec fn be_nat(s: Seq<u8>) -> nat
    decreases s.len(),
{
    if s.len() == 0 {
        0
    } else {
        be_nat(s.drop_last()) * 256 + s.last() as nat
    }
}

/// The shortest big-endian byte string of a number; zero has no bytes.
pub open spec fn be_bytes(n: nat) -> Seq<u8>
    decreases n,
{
    if n == 0 {
        Seq::empty()
    } else {
        be_bytes(n / 256).push((n % 256) as u8)
    }
}

/// A byte string without a leading zero byte.
pub open spec fn is_canonical(s: Seq<u8>) -> bool {
    s.len() > 0 ==> s[0] != 0
}

/// A string of `n` bytes is below `256^n`.
pub proof fn lemma_be_nat_bound(s: Seq<u8>)
    ensures
        be_nat(s) < pow(256, s.len()),
    decreases s.len(),
{
    reveal(pow);
    if s.len() > 0 {
        lemma_be_nat_bound(s.drop_last());
        assert(pow(256, s.len()) == 256 * pow(256, (s.len() - 1) as nat));
    }
}

/// A leading zero byte does not change the number.
pub proof fn lemma_be_nat_leading_zero(s: Seq<u8>)
    requires
        s.len() > 0,
        s[0] == 0,
    ensures
        be_nat(s) == be_nat(s.drop_first()),
    decreases s.len(),
{
    let tail = s.drop_first();
    if s.len() == 1 {
        assert(s.last() == 0);
        assert(be_nat(s.drop_last()) == 0);
        assert(be_nat(tail) == 0);
    } else {
        lemma_be_nat_leading_zero(s.drop_last());
        assert(s.drop_last().drop_first() =~= tail.drop_last());
        assert(tail.last() == s.last());
        assert(be_nat(tail) == be_nat(tail.drop_last()) * 256 + tail.last() as nat);
    }
}

/// Leading zero bytes do not change the number.
pub proof fn lemma_be_nat_skip_zeros(s: Seq<u8>, k: int)
    requires
        0 <= k <= s.len(),
        forall|i: int| 0 <= i < k ==> s[i] == 0,
    ensures
        be_nat(s) == be_nat(s.skip(k)),
    decreases k,
{
    if k == 0 {
        assert(s.skip(0) =~= s);
    } else {
        lemma_be_nat_leading_zero(s);
        lemma_be_nat_skip_zeros(s.drop_first(), k - 1);
        assert(s.drop_first().skip(k - 1) =~= s.skip(k));
    }
}

/// A canonical string of `n > 0` bytes is at least `256^(n-1)`.
pub proof fn lemma_be_nat_lower_bound(s: Seq<u8>)
    requires
        s.len() > 0,
        s[0] != 0,
    ensures
        be_nat(s) >= pow(256, (s.len() - 1) as nat),
    decreases s.len(),
{
    reveal(pow);
    if s.len() == 1 {
        assert(s.drop_last().len() == 0);
        assert(be_nat(s.drop_last()) == 0);
    } else {
        lemma_be_nat_lower_bound(s.drop_last());
        assert(pow(256, (s.len() - 1) as nat) == 256 * pow(256, (s.len() - 2) as nat));
    }
}

/// The shortest byte string of a number is canonical and stands for it.
pub proof fn lemma_be_bytes_is_canonical(n: nat)
    ensures
        be_nat(be_bytes(n)) == n,
        is_canonical(be_bytes(n)),
        n > 0 ==> be_bytes(n).len() > 0,
    decreases n,
{
    if n > 0 {
        lemma_be_bytes_is_canonical(n / 256);
        let s = be_bytes(n);
        assert(s.drop_last() =~= be_bytes(n / 256));
        assert(s.last() == (n % 256) as u8);
        if n / 256 > 0 {
            assert(s[0] == be_bytes(n / 256)[0]);
        }
    }
}

/// A canonical byte string is the shortest one of its number: two canonical
/// strings that stand for the same number are the same string.
pub proof fn lemma_canonical_is_be_bytes(s: Seq<u8>)
    requires
        is_canonical(s),
    ensures
        be_bytes(be_nat(s)) == s,
    decreases s.len(),
{
    if s.len() > 0 {
        let head = s.drop_last();
        if head.len() > 0 {
            assert(head[0] == s[0]);
            lemma_be_nat_lower_bound(head);
            lemma_pow_positive(256, (head.len() - 1) as nat);
        }
        lemma_canonical_is_be_bytes(head);
        let n = be_nat(s);
        assert(n == be_nat(head) * 256 + s.last() as nat);
        assert(n / 256 == be_nat(head));
        assert(n % 256 == s.last() as nat);
        assert(n > 0);
        assert(be_bytes(n) =~= s);
    }
}

/// An unsigned integer of any size.
#[derive(Debug, PartialEq, Eq)]
pub struct BigUint {
    bytes: Vec<u8>,
}

impl Clone for BigUint {
    fn clone(&self) -> (r: Self)
        ensures
            r@ == self@,
    {
        proof {
            use_type_invariant(self);
        }
        BigUint { bytes: self.bytes.clone() }
    }
}

impl View for BigUint {
    type V = nat;

    closed spec fn view(&self) -> nat {
        be_nat(self.bytes@)
    }
}

impl BigUint {
    #[verifier::type_invariant]
    spec fn well_formed(&self) -> bool {
        is_canonical(self.bytes@)
    }

    /// The number that `bytes` is in big-endian base 256.
    pub fn from_be_bytes(bytes: &[u8]) -> (r: BigUint)
        ensures
            r@ == be_nat(bytes@),
    {
        let mut start: usize = 0;
        while start < bytes.len() && bytes[start] == 0
            invariant
                start <= bytes.len(),
                forall|i: int| 0 <= i < start ==> bytes@[i] == 0,
            decreases bytes.len() - start,
        {
            start += 1;
        }
        let mut out: Vec<u8> = Vec::new();
        let mut i: usize = start;
        while i < bytes.len()
            invariant
                start <= i <= bytes.len(),
                out@ == bytes@.subrange(start as int, i as int),
            decreases bytes.len() - i,
        {
            out.push(bytes[i]);
            i += 1;
        }
        proof {
            lemma_be_nat_skip_zeros(bytes@, start as int);
            assert(out@ =~= bytes@.skip(start as int));
        }
        BigUint { bytes: out }
    }

    /// The number `value`.
    pub fn from_u64(value: u64) -> (r: BigUint)
        ensures
            r@ == value,
    {
        let mut rest: u64 = value;
        let mut out: Vec<u8> = Vec::new();
        while rest > 0
            invariant
                be_bytes(value as nat) == be_bytes(rest as nat) + out@,
            decreases rest,
        {
            let ghost before = out@;
            out.insert(0, (rest % 256) as u8);
            proof {
                let digits = be_bytes(rest as nat);
                assert(digits == be_bytes((rest / 256) as nat).push((rest % 256) as u8));
                assert(digits + before =~= be_bytes((rest / 256) as nat) + out@);
            }
            rest = rest / 256;
        }
        proof {
            assert(be_bytes(0).len() == 0);
            assert(out@ =~= be_bytes(value as nat));
            lemma_be_bytes_is_canonical(value as nat);
        }
        BigUint { bytes: out }
    }

    /// The number as a `u64`, where it fits in one.
    pub fn to_u64(&self) -> (r: Option<u64>)
        ensures
            match r {
                Some(v) => v == self@,
                None => self@ > u64::MAX,
            },
    {
        proof {
            use_type_invariant(self);
        }
        let n: usize = self.bytes.len();
        if n > 8 {
            proof {
                lemma_be_nat_lower_bound(self.bytes@);
                lemma_pow_increases(256, 8, (n - 1) as nat);
                lemma_pow256_8();
            }
            return None;
        }
        let mut value: u64 = 0;
        let mut i: usize = 0;
        while i < n
            invariant
                n == self.bytes.len(),
                n <= 8,
                i <= n,
                value == be_nat(self.bytes@.take(i as int)),
            decreases n - i,
        {
            proof {
                let head = self.bytes@.take(i as int);
                lemma_be_nat_bound(head);
                lemma_pow_increases(256, i as nat, 7);
                lemma_pow256_7();
                let next = self.bytes@.take(i + 1);
                assert(next.drop_last() =~= head);
                assert(next.last() == self.bytes@[i as int]);
            }
            value = value * 256 + self.bytes[i] as u64;
            i += 1;
        }
        assert(self.bytes@.take(n as int) =~= self.bytes@);
        Some(value)
    }

    /// The shortest big-endian byte string of the number.
    pub fn to_be_bytes(&self) -> (r: Vec<u8>)
        ensures
            r@ == be_bytes(self@),
    {
        proof {
            use_type_invariant(self);
            lemma_canonical_is_be_bytes(self.bytes@);
        }
        self.bytes.clone()
    }

    /// Whether the number is zero.
    pub fn is_zero(&self) -> (r: bool)
        ensures
            r == (self@ == 0),
    {
        proof {
            use_type_invariant(self);
            if self.bytes@.len() > 0 {
                lemma_be_nat_lower_bound(self.bytes@);
                lemma_pow_positive(256, (self.bytes@.len() - 1) as nat);
            }
        }
        self.bytes.len() == 0
    }
}

proof fn lemma_pow256_7()
    ensures
        pow(256, 7) == 0x100_0000_0000_0000,
{
    reveal_with_fuel(pow, 8);
}

proof fn lemma_pow256_8()
    ensures
        pow(256, 8) == 0x1_0000_0000_0000_0000,
{
    reveal_with_fuel(pow, 9);
}

/// A signed integer of any size, as a sign and a magnitude. Zero may carry
/// either sign.
#[derive(Debug, PartialEq, Eq)]
pub struct BigInt {
    pub negative: bool,
    pub magnitude: BigUint,
}

impl Clone for BigInt {
    fn clone(&self) -> (r: Self)
        ensures
            r.negative == self.negative,
            r.magnitude@ == self.magnitude@,
    {
        BigInt { negative: self.negative, magnitude: self.magnitude.clone() }
    }
}

impl BigInt {
    /// The integer that the sign and the magnitude stand for.
    pub open spec fn value(&self) -> int {
        if self.negative {
            -(self.magnitude@ as int)
        } else {
            self.magnitude@ as int
        }
    }

    /// The integer `value`.
    pub fn from_i64(value: i64) -> (r: BigInt)
        ensures
            r.value() == value,
            r.negative == (value < 0),
    {
        if value < 0 {
            let magnitude: u64 = if value == i64::MIN {
                0x8000_0000_0000_0000
            } else {
                (-value) as u64
            };
            BigInt { negative: true, magnitude: BigUint::from_u64(magnitude) }
        } else {
            BigInt { negative: false, magnitude: BigUint::from_u64(value as u64) }
        }
    }

    /// The integer as an `i64`, where it fits in one.
    pub fn to_i64(&self) -> (r: Option<i64>)
        ensures
            match r {
                Some(v) => v == self.value(),
                None => self.value() < i64::MIN || self.value() > i64::MAX,
            },
    {
        match self.magnitude.to_u64() {
            None => None,
            Some(m) => {
                if self.negative {
                    if m > 0x8000_0000_0000_0000 {
                        None
                    } else if m == 0x8000_0000_0000_0000 {
                        Some(i64::MIN)
                    } else {
                        Some(-(m as i64))
                    }
                } else {
                    if m > 0x7fff_ffff_ffff_ffff {
                        None
                    } else {
                        Some(m as i64)
                    }
                }
            },
        }
    }
}

} // verus!
