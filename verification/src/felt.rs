//! The field element: a non-negative integer below the field modulus
//! 2^251 + 17*2^192 + 1, held as its 32-byte little-endian representation.
//! Decimal parsing, fixed-width serialization, and the minimal big-endian
//! form used by the byte-array word decoding are all verified against the
//! numeric value.

use vstd::prelude::*;
use vstd::arithmetic::power2::{pow2, lemma_pow2_adds, lemma2_to64, lemma2_to64_rest};
use crate::dec::{is_digit, is_dec_digits, digits_val, lemma_digits_val_prefix_le};

verus! {

/// 256 raised to `k`: the weight of the byte at position `k` of a
/// little-endian representation.
pub open spec fn pow256(k: nat) -> nat
    decreases k,
{
    if k == 0 {
        1
    } else {
        256 * pow256((k - 1) as nat)
    }
}

/// Value of a little-endian base-256 digit sequence.
pub open spec fn le_bytes_val(b: Seq<u8>) -> nat
    decreases b.len(),
{
    if b.len() == 0 {
        0
    } else {
        (b[0] + 256 * le_bytes_val(b.drop_first())) as nat
    }
}

/// The field modulus, 2^251 + 17*2^192 + 1.
pub open spec fn felt_prime() -> nat {
    3618502788666131213697322783095070105623107215331596699973092056135872020481nat
}

/// 256^k is 2^(8k): the byte weights are powers of two.
pub proof fn lemma_pow256_is_pow2(k: nat)
    ensures
        pow256(k) == pow2(8 * k),
    decreases k,
{
    if k == 0 {
        lemma2_to64();
    } else {
        lemma_pow256_is_pow2((k - 1) as nat);
        lemma_pow2_adds(8, 8 * (k - 1) as nat);
        lemma2_to64();
    }
}

/// The modulus is exactly 2^251 + 17*2^192 + 1.
pub proof fn lemma_felt_prime_form()
    ensures
        felt_prime() == pow2(251) + 17 * pow2(192) + 1,
{
    lemma2_to64();
    lemma2_to64_rest();
    lemma_pow2_adds(64, 64);
    lemma_pow2_adds(128, 64);
    lemma_pow2_adds(192, 59);
}

/// Little-endian bytes of the modulus.
pub open spec fn prime_le_bytes() -> Seq<u8> {
    seq![
        1u8, 0u8, 0u8, 0u8, 0u8, 0u8, 0u8, 0u8,
        0u8, 0u8, 0u8, 0u8, 0u8, 0u8, 0u8, 0u8,
        0u8, 0u8, 0u8, 0u8, 0u8, 0u8, 0u8, 0u8,
        0x11u8, 0u8, 0u8, 0u8, 0u8, 0u8, 0u8, 8u8,
    ]
}

/// Zero bytes in a range contribute nothing to the prefix value.
proof fn lemma_le_take_zero_range(b: Seq<u8>, lo: int, hi: int)
    requires
        0 <= lo <= hi <= b.len(),
        forall|k: int| lo <= k < hi ==> b[k] == 0,
    ensures
        le_bytes_val(b.take(hi)) == le_bytes_val(b.take(lo)),
    decreases hi - lo,
{
    if lo < hi {
        lemma_le_take_zero_range(b, lo, hi - 1);
        lemma_le_bytes_val_snoc(b, hi - 1);
    }
}

/// The byte sequence above does denote the modulus.
pub proof fn lemma_prime_le_bytes_val()
    ensures
        le_bytes_val(prime_le_bytes()) == felt_prime(),
{
    let b = prime_le_bytes();
    assert(b[0] == 1 && b[24] == 0x11 && b[31] == 8);
    assert(b.take(0) =~= Seq::<u8>::empty());
    assert(le_bytes_val(Seq::<u8>::empty()) == 0);
    lemma_le_bytes_val_snoc(b, 0);
    assert(pow256(0) == 1);
    assert(b[0] * pow256(0) == 1) by (nonlinear_arith)
        requires
            b[0] == 1,
            pow256(0) == 1,
    ;
    assert(le_bytes_val(b.take(1)) == 1);
    lemma_le_take_zero_range(b, 1, 24);
    lemma_le_bytes_val_snoc(b, 24);
    lemma_le_take_zero_range(b, 25, 31);
    lemma_le_bytes_val_snoc(b, 31);
    assert(b.take(32) =~= b);
    assert(le_bytes_val(b) == 1 + 0x11 * pow256(24) + 8 * pow256(31));
    lemma_pow256_is_pow2(24);
    lemma_pow256_is_pow2(31);
    lemma_felt_prime_form();
    lemma2_to64();
    lemma_pow2_adds(64, 64);
    lemma_pow2_adds(128, 64);
    lemma_pow2_adds(192, 56);
    lemma_pow2_adds(248, 3);
}

/// The modulus fits in 32 bytes.
pub proof fn lemma_prime_below_pow256_32()
    ensures
        felt_prime() < pow256(32),
{
    lemma_pow256_is_pow2(32);
    lemma_felt_prime_form();
    lemma2_to64();
    lemma_pow2_adds(64, 64);
    lemma_pow2_adds(128, 64);
    lemma_pow2_adds(192, 59);
    lemma_pow2_adds(192, 64);
}

/// Splitting a little-endian sequence at `k` splits its value: the low part
/// keeps its value and the high part is weighted by 256^k.
pub proof fn lemma_le_bytes_val_split(b: Seq<u8>, k: int)
    requires
        0 <= k <= b.len(),
    ensures
        le_bytes_val(b) == le_bytes_val(b.take(k)) + le_bytes_val(b.skip(k)) * pow256(k as nat),
    decreases k,
{
    if k == 0 {
        assert(b.take(0) =~= Seq::<u8>::empty());
        assert(le_bytes_val(Seq::<u8>::empty()) == 0);
        assert(b.skip(0) =~= b);
        assert(pow256(0) == 1);
        assert(le_bytes_val(b.take(0)) == 0);
        assert(le_bytes_val(b.skip(0)) == le_bytes_val(b));
        assert(le_bytes_val(b.skip(0)) * pow256(0) == le_bytes_val(b)) by (nonlinear_arith)
            requires
                le_bytes_val(b.skip(0)) == le_bytes_val(b),
                pow256(0) == 1,
        ;
        assert(le_bytes_val(b) == le_bytes_val(b.take(0)) + le_bytes_val(b.skip(0)) * pow256(0));
    } else {
        assert(b.len() > 0);
        let t = b.drop_first();
        let low = le_bytes_val(t.take(k - 1));
        let high = le_bytes_val(b.skip(k));
        let p = pow256((k - 1) as nat);
        lemma_le_bytes_val_split(t, k - 1);
        assert(t.take(k - 1) =~= b.take(k).drop_first());
        assert(t.skip(k - 1) =~= b.skip(k));
        assert(b.take(k).len() == k);
        assert(b.take(k)[0] == b[0]);
        assert(le_bytes_val(b.take(k)) == b[0] + 256 * low);
        assert(le_bytes_val(b) == b[0] + 256 * le_bytes_val(t));
        assert(le_bytes_val(t) == low + high * p);
        assert(le_bytes_val(b) == b[0] + 256 * (low + high * p));
        assert(pow256(k as nat) == 256 * p);
        assert(256 * (low + high * p) == 256 * low + high * (256 * p)) by (nonlinear_arith);
        assert(high * (256 * p) == high * pow256(k as nat));
        assert(le_bytes_val(b) == le_bytes_val(b.take(k)) + high * pow256(k as nat));
    }
}

/// The value of `n` bytes is below 256^n.
pub proof fn lemma_le_bytes_val_bound(b: Seq<u8>)
    ensures
        le_bytes_val(b) < pow256(b.len()),
    decreases b.len(),
{
    if b.len() == 0 {
    } else {
        let t = b.drop_first();
        lemma_le_bytes_val_bound(t);
        assert(le_bytes_val(b) == b[0] + 256 * le_bytes_val(t));
        assert(256 * le_bytes_val(t) <= 256 * (pow256(t.len()) - 1)) by (nonlinear_arith)
            requires
                le_bytes_val(t) <= pow256(t.len()) - 1,
        ;
    }
}

/// Extending the low prefix by one byte adds that byte at weight 256^i.
pub proof fn lemma_le_bytes_val_snoc(b: Seq<u8>, i: int)
    requires
        0 <= i < b.len(),
    ensures
        le_bytes_val(b.take(i + 1)) == le_bytes_val(b.take(i)) + b[i] * pow256(i as nat),
{
    let p = b.take(i + 1);
    lemma_le_bytes_val_split(p, i);
    assert(p.take(i) =~= b.take(i));
    assert(p.skip(i) =~= seq![b[i]]);
    assert(seq![b[i]].drop_first() =~= Seq::<u8>::empty());
    assert(le_bytes_val(Seq::<u8>::empty()) == 0);
    assert(le_bytes_val(seq![b[i]]) == b[i] + 256 * le_bytes_val(seq![b[i]].drop_first()));
    assert(le_bytes_val(seq![b[i]]) == b[i]);
}

/// Two equal-length sequences that agree above position `i` compare, as
/// values, the way their bytes at `i` do when those differ.
pub proof fn lemma_le_bytes_val_cmp_at(a: Seq<u8>, b: Seq<u8>, i: int)
    requires
        a.len() == b.len(),
        0 <= i < a.len(),
        forall|k: int| i < k < a.len() ==> a[k] == b[k],
        a[i] < b[i],
    ensures
        le_bytes_val(a) < le_bytes_val(b),
{
    lemma_le_bytes_val_split(a, i + 1);
    lemma_le_bytes_val_split(b, i + 1);
    assert(a.skip(i + 1) =~= b.skip(i + 1));
    lemma_le_bytes_val_snoc(a, i);
    lemma_le_bytes_val_snoc(b, i);
    lemma_le_bytes_val_bound(a.take(i));
    assert(a.take(i).len() == i);
    assert((a[i] + 1) * pow256(i as nat) <= b[i] * pow256(i as nat)) by (nonlinear_arith)
        requires
            a[i] + 1 <= b[i],
            pow256(i as nat) >= 0,
    ;
    assert(a[i] * pow256(i as nat) + pow256(i as nat) == (a[i] + 1) * pow256(i as nat))
        by (nonlinear_arith);
}

/// A sequence of zero bytes denotes zero.
pub proof fn lemma_le_bytes_val_zero(b: Seq<u8>)
    requires
        forall|k: int| 0 <= k < b.len() ==> b[k] == 0,
    ensures
        le_bytes_val(b) == 0,
    decreases b.len(),
{
    if b.len() > 0 {
        lemma_le_bytes_val_zero(b.drop_first());
    }
}

/// Byte weights are positive.
pub proof fn lemma_pow256_pos(k: nat)
    ensures
        pow256(k) >= 1,
    decreases k,
{
    if k > 0 {
        lemma_pow256_pos((k - 1) as nat);
        assert(256 * pow256((k - 1) as nat) >= 1) by (nonlinear_arith)
            requires
                pow256((k - 1) as nat) >= 1,
        ;
    }
}

/// The minimal big-endian representation of `n`: no leading zero byte, empty
/// exactly for zero. This is the byte sequence whose lower-case hex expansion
/// is the shortest even-length hex form of `n`.
pub open spec fn min_be_bytes(n: nat) -> Seq<u8>
    decreases n,
{
    if n == 0 {
        Seq::empty()
    } else {
        min_be_bytes(n / 256).push((n % 256) as u8)
    }
}

/// A little-endian representation without trailing zero bytes is exactly the
/// reverse of the minimal big-endian form of its value.
pub proof fn lemma_min_be_bytes_of_le(b: Seq<u8>)
    requires
        b.len() == 0 || b.last() != 0,
    ensures
        min_be_bytes(le_bytes_val(b)) == b.reverse(),
    decreases b.len(),
{
    if b.len() == 0 {
        assert(le_bytes_val(b) == 0);
        assert(b.reverse() =~= Seq::<u8>::empty());
    } else {
        let t = b.drop_first();
        let n = le_bytes_val(b);
        assert(n == b[0] + 256 * le_bytes_val(t));
        // the value is positive because the top byte is not zero
        lemma_le_bytes_val_snoc(b, b.len() - 1);
        assert(b.take(b.len() as int) =~= b);
        lemma_pow256_pos((b.len() - 1) as nat);
        assert(b.last() * pow256((b.len() - 1) as nat) >= 1) by (nonlinear_arith)
            requires
                b.last() >= 1,
                pow256((b.len() - 1) as nat) >= 1,
        ;
        assert(n > 0);
        // quotient and remainder of n by 256 are the tail value and first byte
        assert(le_bytes_val(t) * 256 + b[0] == n) by (nonlinear_arith)
            requires
                n == b[0] + 256 * le_bytes_val(t),
        ;
        vstd::arithmetic::div_mod::lemma_fundamental_div_mod_converse(
            n as int,
            256,
            le_bytes_val(t) as int,
            b[0] as int,
        );
        assert(n % 256 == b[0]);
        assert(n / 256 == le_bytes_val(t));
        if t.len() > 0 {
            assert(t.last() == b.last());
        }
        lemma_min_be_bytes_of_le(t);
        assert(min_be_bytes(n) == t.reverse().push(b[0]));
        assert(t.reverse().push(b[0]) =~= b.reverse());
    }
}

/// A field element: a value below the modulus, carried as exactly 32
/// little-endian bytes.
#[derive(Clone, Debug)]
pub struct Felt {
    bytes: Vec<u8>,
}

impl View for Felt {
    type V = nat;

    open spec fn view(&self) -> nat {
        le_bytes_val(self.spec_bytes())
    }
}

impl Felt {
    /// The 32 little-endian bytes that carry the value.
    pub closed spec fn spec_bytes(&self) -> Seq<u8> {
        self.bytes@
    }

    /// Well-formed: exactly 32 bytes denoting a value below the modulus.
    pub open spec fn wf(&self) -> bool {
        self.spec_bytes().len() == 32 && le_bytes_val(self.spec_bytes()) < felt_prime()
    }

    /// Parses a decimal token as a field element. Succeeds exactly when the
    /// token is a non-empty digit run whose value is below the modulus; the
    /// grammar admits nothing else as a number.
    pub fn from_dec_str(s: &str) -> (r: Option<Felt>)
        ensures
            match r {
                Some(f) => {
                    &&& f.wf()
                    &&& is_dec_digits(s@)
                    &&& digits_val(s@) < felt_prime()
                    &&& f@ == digits_val(s@)
                },
                None => !is_dec_digits(s@) || digits_val(s@) >= felt_prime(),
            },
    {
        let n = s.unicode_len();
        if n == 0 {
            return None;
        }
        let mut bytes: Vec<u8> = zeros32();
        proof {
            lemma_le_bytes_val_zero(bytes@);
            assert(s@.take(0) =~= Seq::<char>::empty());
        }
        let mut i: usize = 0;
        while i < n
            invariant
                0 <= i <= n,
                n == s@.len(),
                bytes@.len() == 32,
                forall|j: int| 0 <= j < i ==> is_digit(#[trigger] s@[j]),
                le_bytes_val(bytes@) == digits_val(s@.take(i as int)),
            decreases n - i,
        {
            let c = s.get_char(i);
            if !(c >= '0' && c <= '9') {
                return None;
            }
            let d: u8 = ((c as u32) - 48) as u8;
            let overflow = mul10_add(&mut bytes, d);
            proof {
                assert(s@.take(i + 1 as int).drop_last() =~= s@.take(i as int));
                assert(digits_val(s@.take(i + 1 as int)) == digits_val(s@.take(i as int)) * 10
                    + d);
            }
            if overflow {
                proof {
                    lemma_prime_below_pow256_32();
                    lemma_digits_val_prefix_le(s@, i + 1);
                    assert(digits_val(s@.take(i as int)) * 10 + d == 10 * digits_val(
                        s@.take(i as int),
                    ) + d) by (nonlinear_arith);
                }
                return None;
            }
            proof {
                assert(digits_val(s@.take(i as int)) * 10 + d == 10 * digits_val(
                    s@.take(i as int),
                ) + d) by (nonlinear_arith);
            }
            i = i + 1;
        }
        proof {
            assert(s@.take(n as int) =~= s@);
        }
        let prime = prime_bytes_vec();
        if lt_le_bytes(&bytes, &prime) {
            proof {
                lemma_prime_le_bytes_val();
            }
            Some(Felt { bytes })
        } else {
            proof {
                lemma_prime_le_bytes_val();
            }
            None
        }
    }

    /// Accepts 32 little-endian bytes as a field element exactly when they
    /// denote a value below the modulus.
    pub fn from_bytes_le(bytes: Vec<u8>) -> (r: Option<Felt>)
        ensures
            match r {
                Some(f) => {
                    &&& f.wf()
                    &&& bytes@.len() == 32
                    &&& f.spec_bytes() == bytes@
                    &&& f@ == le_bytes_val(bytes@)
                },
                None => bytes@.len() != 32 || le_bytes_val(bytes@) >= felt_prime(),
            },
    {
        if bytes.len() != 32 {
            return None;
        }
        let prime = prime_bytes_vec();
        if lt_le_bytes(&bytes, &prime) {
            proof {
                lemma_prime_le_bytes_val();
            }
            Some(Felt { bytes })
        } else {
            proof {
                lemma_prime_le_bytes_val();
            }
            None
        }
    }

    /// The fixed-width serialization: the 32 little-endian bytes, as the
    /// memory encoding emits them.
    pub fn to_bytes_le(&self) -> (r: Vec<u8>)
        ensures
            r@ == self.spec_bytes(),
    {
        let mut out: Vec<u8> = Vec::new();
        let n = self.bytes.len();
        let mut i: usize = 0;
        while i < n
            invariant
                0 <= i <= n,
                n == self.bytes@.len(),
                out@ == self.bytes@.take(i as int),
            decreases n - i,
        {
            out.push(self.bytes[i]);
            proof {
                assert(self.bytes@.take(i + 1 as int) =~= self.bytes@.take(i as int).push(
                    self.bytes@[i as int],
                ));
            }
            i = i + 1;
        }
        proof {
            assert(self.bytes@.take(n as int) =~= self.bytes@);
        }
        out
    }

    /// The minimal big-endian form of the value: what the word decoding
    /// expands from hex. Empty exactly for zero.
    pub fn to_min_be_bytes(&self) -> (r: Vec<u8>)
        requires
            self.spec_bytes().len() == 32,
        ensures
            r@ == min_be_bytes(self@),
    {
        let mut j: usize = 32;
        while j > 0 && self.bytes[j - 1] == 0
            invariant
                0 <= j <= 32,
                self.spec_bytes().len() == 32,
                forall|k: int| j <= k < 32 ==> self.spec_bytes()[k] == 0,
            decreases j,
        {
            j = j - 1;
        }
        let ghost sig = self.spec_bytes().take(j as int);
        proof {
            lemma_le_bytes_val_split(self.spec_bytes(), j as int);
            lemma_le_bytes_val_zero(self.spec_bytes().skip(j as int));
            assert(le_bytes_val(self.spec_bytes().skip(j as int)) * pow256(j as nat) == 0)
                by (nonlinear_arith)
                requires
                    le_bytes_val(self.spec_bytes().skip(j as int)) == 0,
            ;
            assert(le_bytes_val(sig) == self@);
            if j > 0 {
                assert(sig.last() != 0);
            }
            lemma_min_be_bytes_of_le(sig);
        }
        let mut out: Vec<u8> = Vec::new();
        let mut k: usize = j;
        while k > 0
            invariant
                0 <= k <= j <= 32,
                self.spec_bytes().len() == 32,
                sig == self.spec_bytes().take(j as int),
                out@ == self.spec_bytes().subrange(k as int, j as int).reverse(),
            decreases k,
        {
            k = k - 1;
            out.push(self.bytes[k]);
            proof {
                assert(out@ =~= self.spec_bytes().subrange(k as int, j as int).reverse());
            }
        }
        proof {
            assert(self.spec_bytes().subrange(0, j as int) =~= sig);
            assert(out@ == min_be_bytes(self@));
        }
        out
    }
}

/// A vector of 32 zero bytes.
fn zeros32() -> (r: Vec<u8>)
    ensures
        r@.len() == 32,
        forall|i: int| 0 <= i < 32 ==> r@[i] == 0,
{
    let mut r: Vec<u8> = Vec::new();
    while r.len() < 32
        invariant
            r@.len() <= 32,
            forall|i: int| 0 <= i < r@.len() ==> r@[i] == 0,
        decreases 32 - r@.len(),
    {
        r.push(0u8);
    }
    r
}

/// The modulus as an executable byte vector.
fn prime_bytes_vec() -> (r: Vec<u8>)
    ensures
        r@ == prime_le_bytes(),
{
    let mut r: Vec<u8> = zeros32();
    r.set(0, 1);
    r.set(24, 0x11);
    r.set(31, 8);
    proof {
        assert(r@ =~= prime_le_bytes());
    }
    r
}

/// Multiplies a 32-byte little-endian number by ten and adds one digit, in
/// place. Reports overflow out of 32 bytes instead of wrapping.
fn mul10_add(bytes: &mut Vec<u8>, d: u8) -> (overflow: bool)
    requires
        old(bytes)@.len() == 32,
        d < 10,
    ensures
        final(bytes)@.len() == 32,
        !overflow ==> le_bytes_val(final(bytes)@) == 10 * le_bytes_val(old(bytes)@) + d,
        overflow ==> 10 * le_bytes_val(old(bytes)@) + d >= pow256(32),
{
    let mut carry: u32 = d as u32;
    let mut i: usize = 0;
    proof {
        assert(bytes@.take(0) =~= Seq::<u8>::empty());
        assert(old(bytes)@.take(0) =~= Seq::<u8>::empty());
        assert(pow256(0) == 1);
        assert(carry * pow256(0) == d) by (nonlinear_arith)
            requires
                carry == d,
                pow256(0) == 1,
        ;
    }
    while i < 32
        invariant
            0 <= i <= 32,
            bytes@.len() == 32,
            old(bytes)@.len() == 32,
            d < 10,
            carry < 10,
            forall|j: int| i <= j < 32 ==> bytes@[j] == old(bytes)@[j],
            le_bytes_val(bytes@.take(i as int)) + carry * pow256(i as nat) == 10 * le_bytes_val(
                old(bytes)@.take(i as int),
            ) + d,
        decreases 32 - i,
    {
        let ghost pre = bytes@;
        let ghost oldcarry = carry;
        let t: u32 = (bytes[i] as u32) * 10 + carry;
        bytes.set(i, (t % 256) as u8);
        carry = t / 256;
        proof {
            let p = pow256(i as nat);
            let p1 = pow256((i + 1) as nat);
            let lo = t % 256;
            let hi = t / 256;
            let prelow = le_bytes_val(pre.take(i as int));
            let oldlow = le_bytes_val(old(bytes)@.take(i as int));
            let b0 = pre[i as int];
            assert(p1 == 256 * p);
            assert(bytes@.take(i as int) =~= pre.take(i as int));
            lemma_le_bytes_val_snoc(bytes@, i as int);
            lemma_le_bytes_val_snoc(old(bytes)@, i as int);
            assert(b0 == old(bytes)@[i as int]);
            assert(t == b0 * 10 + oldcarry);
            vstd::arithmetic::div_mod::lemma_fundamental_div_mod(t as int, 256);
            assert(le_bytes_val(bytes@.take(i + 1 as int)) == prelow + lo * p);
            assert(le_bytes_val(old(bytes)@.take(i + 1 as int)) == oldlow + b0 * p);
            assert(prelow + lo * p + hi * p1 == 10 * (oldlow + b0 * p) + d) by (nonlinear_arith)
                requires
                    prelow + oldcarry * p == 10 * oldlow + d,
                    t == b0 * 10 + oldcarry,
                    t == 256 * hi + lo,
                    p1 == 256 * p,
            ;
        }
        i = i + 1;
    }
    proof {
        assert(bytes@.take(32) =~= bytes@);
        assert(old(bytes)@.take(32) =~= old(bytes)@);
    }
    if carry == 0 {
        proof {
            assert(carry * pow256(32) == 0) by (nonlinear_arith)
                requires
                    carry == 0,
            ;
        }
        false
    } else {
        proof {
            lemma_pow256_pos(32);
            assert(carry * pow256(32) >= pow256(32)) by (nonlinear_arith)
                requires
                    carry >= 1,
                    pow256(32) >= 1,
            ;
        }
        true
    }
}

/// Compares two equal-length little-endian byte vectors as numbers.
fn lt_le_bytes(a: &Vec<u8>, b: &Vec<u8>) -> (r: bool)
    requires
        a@.len() == b@.len(),
    ensures
        r == (le_bytes_val(a@) < le_bytes_val(b@)),
{
    let n = a.len();
    let mut j: usize = n;
    while j > 0
        invariant
            0 <= j <= n,
            n == a@.len(),
            n == b@.len(),
            forall|k: int| j <= k < n ==> a@[k] == b@[k],
        decreases j,
    {
        j = j - 1;
        let av = a[j];
        let bv = b[j];
        if av < bv {
            proof {
                lemma_le_bytes_val_cmp_at(a@, b@, j as int);
            }
            return true;
        }
        if av > bv {
            proof {
                lemma_le_bytes_val_cmp_at(b@, a@, j as int);
            }
            return false;
        }
    }
    proof {
        assert(a@ =~= b@);
    }
    false
}

} // verus!
