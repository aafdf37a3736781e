use vstd::prelude::*;

verus! {

/// `10` to the power `k`.
pub open spec fn pow10(k: nat) -> nat
    decreases k,
{
    if k == 0 {
        1
    } else {
        10 * pow10((k - 1) as nat)
    }
}

/// The ASCII decimal digits of `n`, most significant first, without
/// leading zeros (`"0"` for zero).
pub open spec fn digits(n: nat) -> Seq<u8>
    decreases n,
{
    if n < 10 {
        seq![(0x30 + n) as u8]
    } else {
        digits(n / 10).push((0x30 + n % 10) as u8)
    }
}

/// The number that the ASCII decimal digits `s` stand for.
pub open spec fn decimal_value(s: Seq<u8>) -> int
    decreases s.len(),
{
    if s.len() == 0 {
        0
    } else {
        decimal_value(s.drop_last()) * 10 + (s.last() - 0x30)
    }
}

/// `s` with its leading zero bytes left out.
pub open spec fn skip_zeros(s: Seq<u8>) -> Seq<u8>
    decreases s.len(),
{
    if s.len() > 0 && s[0] == 0 {
        skip_zeros(s.drop_first())
    } else {
        s
    }
}

/// An unsigned number as ASCII decimal digits, right-aligned in `N`
/// bytes; the bytes before the digits are zero.
#[derive(Copy, Clone, Debug)]
pub struct UintToBytes<const N: usize> {
    bytes: [u8; N],
}

pub proof fn lemma_pow10_positive(k: nat)
    ensures
        pow10(k) >= 1,
    decreases k,
{
    if k > 0 {
        lemma_pow10_positive((k - 1) as nat);
    }
}

pub proof fn lemma_pow10_mono(a: nat, b: nat)
    requires
        a <= b,
    ensures
        pow10(a) <= pow10(b),
    decreases b,
{
    if a < b {
        lemma_pow10_mono(a, (b - 1) as nat);
        lemma_pow10_positive((b - 1) as nat);
    }
}

proof fn lemma_digits_bytes(n: nat)
    ensures
        digits(n).len() >= 1,
        forall|i: int| 0 <= i < digits(n).len() ==> 0x30 <= #[trigger] digits(n)[i] <= 0x39,
    decreases n,
{
    if n >= 10 {
        lemma_digits_bytes(n / 10);
    }
}

proof fn lemma_skip_zeros(s: Seq<u8>, i: int)
    requires
        0 <= i <= s.len(),
        forall|j: int| 0 <= j < i ==> s[j] == 0,
        i < s.len() ==> s[i] != 0,
    ensures
        skip_zeros(s) == s.subrange(i, s.len() as int),
    decreases i,
{
    if i > 0 {
        lemma_skip_zeros(s.drop_first(), i - 1);
        assert(s.drop_first().subrange(i - 1, s.len() - 1) =~= s.subrange(i, s.len() as int));
    } else {
        assert(s.subrange(0, s.len() as int) =~= s);
    }
}

impl<const N: usize> UintToBytes<N> {
    /// The digits held.
    pub closed spec fn spec_bytes(&self) -> Seq<u8> {
        skip_zeros(self.bytes@)
    }

    /// The digits of `n`, or `None` when it has more than `N` of them.
    pub fn from_uint(n: usize) -> (r: Option<Self>)
        requires
            pow10(N as nat) <= usize::MAX,
        ensures
            r is Some <==> n < pow10(N as nat),
            r matches Some(u) ==> u.spec_bytes() == if N > 0 {
                digits(n as nat)
            } else {
                Seq::<u8>::empty()
            },
    {
        let mut limit: usize = 1;
        let mut k: usize = 0;
        while k < N
            invariant
                k <= N,
                limit == pow10(k as nat),
                pow10(N as nat) <= usize::MAX,
            decreases N - k,
        {
            proof {
                lemma_pow10_mono((k + 1) as nat, N as nat);
            }
            limit = limit * 10;
            k += 1;
        }
        if n >= limit {
            return None;
        }
        let ghost n0 = n as nat;
        let mut bytes = [0u8; N];
        proof {
            lemma_digits_bytes(n0);
        }
        if N == 0 {
            proof {
                assert(bytes@ =~= Seq::<u8>::empty());
            }
            return Some(Self { bytes });
        }
        let mut n = n;
        let mut i: usize = N;
        loop
            invariant_except_break
                0 < i <= N,
                digits(n0) == if i == N {
                    digits(n as nat)
                } else {
                    digits(n as nat) + bytes@.subrange(i as int, N as int)
                },
                i < N ==> n > 0,
            invariant
                1 <= N,
                bytes@.len() == N,
                forall|j: int| 0 <= j < i ==> bytes@[j] == 0,
                (n as nat) < pow10(i as nat),
            ensures
                i <= N,
                forall|j: int| 0 <= j < i ==> bytes@[j] == 0,
                bytes@.subrange(i as int, N as int) == digits(n0),
            decreases i,
        {
            let ghost before = bytes@;
            let ghost m = n as nat;
            i -= 1;
            bytes[i] = 0x30 + (n % 10) as u8;
            n = n / 10;
            proof {
                lemma_digits_bytes(m);
                if m >= 10 {
                    assert(digits(m) == digits(m / 10).push((0x30 + m % 10) as u8));
                }
                let tail = bytes@.subrange(i as int, N as int);
                if i + 1 == N {
                    assert(tail =~= seq![(0x30 + m % 10) as u8]);
                } else {
                    assert(tail =~= seq![(0x30 + m % 10) as u8] + before.subrange(
                        i + 1,
                        N as int,
                    ));
                }
                if m >= 10 {
                    assert(digits(n0) =~= digits(n as nat) + tail);
                } else {
                    assert(digits(m) =~= seq![(0x30 + m % 10) as u8]);
                    assert(digits(n0) =~= tail);
                }
            }
            if n == 0 {
                break;
            }
            proof {
                assert(pow10((i + 1) as nat) == 10 * pow10(i as nat));
                lemma_pow10_positive(i as nat);
                if i == 0 {
                    assert(false);
                }
            }
        }
        proof {
            lemma_digits_bytes(n0);
            assert(bytes@[i as int] == digits(n0)[0]);
            lemma_skip_zeros(bytes@, i as int);
        }
        Some(Self { bytes })
    }

    /// The digits as bytes.
    pub fn as_bytes(&self) -> (b: &[u8])
        ensures
            b@ == self.spec_bytes(),
    {
        let mut start: usize = 0;
        while start < N && self.bytes[start] == 0
            invariant
                start <= N,
                self.bytes@.len() == N,
                forall|j: int| 0 <= j < start ==> self.bytes@[j] == 0,
            decreases N - start,
        {
            start += 1;
        }
        proof {
            lemma_skip_zeros(self.bytes@, start as int);
        }
        &self.bytes[start..N]
    }
}

/// Law: the digits of a number read back as that number.
pub proof fn lemma_digits_value(n: nat)
    ensures
        decimal_value(digits(n)) == n,
    decreases n,
{
    if n >= 10 {
        lemma_digits_value(n / 10);
        assert(digits(n).drop_last() =~= digits(n / 10));
        assert(digits(n).last() - 0x30 == n % 10);
        vstd::arithmetic::div_mod::lemma_fundamental_div_mod(n as int, 10);
        assert(decimal_value(digits(n)) == decimal_value(digits(n / 10)) * 10 + (n % 10));
    } else {
        assert(digits(n).drop_last() =~= Seq::<u8>::empty());
        assert(decimal_value(digits(n)) == decimal_value(Seq::<u8>::empty()) * 10 + (
        digits(n).last() - 0x30));
    }
}

} // verus!
