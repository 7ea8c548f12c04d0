//! Big-endian byte strings and the arithmetic facts the codecs need.
//!
//! Wire quantities (nonces, gas values, 256-bit words) travel as minimal
//! big-endian byte strings: no leading zero byte, the empty string meaning
//! zero. This module gives them a mathematical value and the executable
//! conversions and comparisons the rest of the crate is specified against.
use vstd::prelude::*;

verus! {

/// Mathematical value of a big-endian byte string.
pub open spec fn be_val(s: Seq<u8>) -> nat
    decreases s.len(),
{
    if s.len() == 0 {
        0
    } else {
        (be_val(s.drop_last()) * 256 + s.last()) as nat
    }
}

/// 256 to the power `n`.
pub open spec fn pow256(n: nat) -> nat
    decreases n,
{
    if n == 0 {
        1
    } else {
        256 * pow256((n - 1) as nat)
    }
}

/// A big-endian byte string is minimal when it has no leading zero byte.
pub open spec fn min_be(s: Seq<u8>) -> bool {
    s.len() == 0 || s[0] != 0
}

/// Minimal big-endian byte string of a number.
pub open spec fn spec_min_be(n: nat) -> Seq<u8>
    decreases n,
{
    if n == 0 {
        Seq::empty()
    } else {
        spec_min_be(n / 256).push((n % 256) as u8)
    }
}

pub proof fn lemma_pow256_8()
    ensures
        pow256(7) == 0x100000000000000,
        pow256(8) == 0x10000000000000000,
{
    reveal_with_fuel(pow256, 9);
}

pub proof fn lemma_pow256_positive(n: nat)
    ensures
        pow256(n) >= 1,
    decreases n,
{
    if n > 0 {
        lemma_pow256_positive((n - 1) as nat);
    }
}

pub proof fn lemma_pow256_mono(m: nat, n: nat)
    requires
        m <= n,
    ensures
        pow256(m) <= pow256(n),
    decreases n,
{
    if m < n {
        lemma_pow256_mono(m, (n - 1) as nat);
        lemma_pow256_positive((n - 1) as nat);
    }
}

/// A big-endian string of `k` bytes is below 256^k.
pub proof fn lemma_be_val_upper(s: Seq<u8>)
    ensures
        be_val(s) < pow256(s.len()),
    decreases s.len(),
{
    if s.len() > 0 {
        lemma_be_val_upper(s.drop_last());
    }
}

/// A minimal, non-empty big-endian string of `k` bytes reaches 256^(k-1).
pub proof fn lemma_be_val_lower(s: Seq<u8>)
    requires
        min_be(s),
        s.len() > 0,
    ensures
        be_val(s) >= pow256((s.len() - 1) as nat),
    decreases s.len(),
{
    if s.len() > 1 {
        assert(s.drop_last()[0] == s[0]);
        lemma_be_val_lower(s.drop_last());
    }
}

pub proof fn lemma_min_be_val(n: nat)
    ensures
        be_val(spec_min_be(n)) == n,
        min_be(spec_min_be(n)),
        n == 0 ==> spec_min_be(n).len() == 0,
        n > 0 ==> spec_min_be(n).len() > 0,
    decreases n,
{
    if n > 0 {
        lemma_min_be_val(n / 256);
        let s = spec_min_be(n);
        assert(s == spec_min_be(n / 256).push((n % 256) as u8));
        assert(s.drop_last() == spec_min_be(n / 256));
        if n / 256 > 0 {
            assert(s[0] == spec_min_be(n / 256)[0]);
        }
    }
}

/// Minimal big-endian strings are the canonical images of their values.
pub proof fn lemma_min_be_unique(s: Seq<u8>)
    requires
        min_be(s),
    ensures
        spec_min_be(be_val(s)) == s,
    decreases s.len(),
{
    if s.len() > 0 {
        let dl = s.drop_last();
        let n = be_val(s);
        assert(n == be_val(dl) * 256 + s.last());
        assert(n / 256 == be_val(dl) && n % 256 == s.last()) by (nonlinear_arith)
            requires
                n == be_val(dl) * 256 + s.last(),
                s.last() < 256,
        ;
        if s.len() == 1 {
            assert(dl.len() == 0);
            assert(n == s.last());
            assert(s[0] != 0);
            assert(n > 0);
            assert(spec_min_be(n) == spec_min_be(n / 256).push((n % 256) as u8));
            assert(spec_min_be(n) =~= s);
        } else {
            assert(dl[0] == s[0]);
            lemma_min_be_unique(dl);
            lemma_be_val_lower(dl);
            lemma_pow256_positive((dl.len() - 1) as nat);
            assert(n > 0);
            assert(spec_min_be(n) == spec_min_be(n / 256).push((n % 256) as u8));
            assert(spec_min_be(n) =~= s);
        }
    }
}

/// How `be_val` grows along a prefix: taking one more byte multiplies by 256.
pub proof fn lemma_be_val_take_step(s: Seq<u8>, i: int)
    requires
        0 <= i < s.len(),
    ensures
        be_val(s.take(i + 1)) == be_val(s.take(i)) * 256 + s[i],
{
    assert(s.take(i + 1).drop_last() =~= s.take(i));
    assert(s.take(i + 1).last() == s[i]);
}

/// Byte-string equality.
pub fn bytes_eq(a: &Vec<u8>, b: &Vec<u8>) -> (r: bool)
    ensures
        r == (a@ == b@),
{
    if a.len() != b.len() {
        assert(a@ != b@);
        return false;
    }
    let n = a.len();
    let mut i: usize = 0;
    while i < n
        invariant
            i <= n,
            n == a@.len() == b@.len(),
            forall|j: int| 0 <= j < i ==> a@[j] == b@[j],
        decreases n - i,
    {
        if a[i] != b[i] {
            return false;
        }
        i += 1;
    }
    assert(a@ =~= b@);
    true
}

/// Value of a big-endian string of at most 8 bytes, as a machine word.
pub fn be_val_u64(s: &Vec<u8>) -> (r: u64)
    requires
        s@.len() <= 8,
    ensures
        r == be_val(s@),
{
    let n = s.len();
    let mut acc: u64 = 0;
    let mut i: usize = 0;
    while i < n
        invariant
            i <= n <= 8,
            n == s@.len(),
            acc == be_val(s@.take(i as int)),
        decreases n - i,
    {
        proof {
            lemma_be_val_upper(s@.take(i as int));
            lemma_pow256_mono(i as nat, 7);
            lemma_pow256_8();
            lemma_be_val_take_step(s@, i as int);
        }
        acc = acc * 256 + (s[i] as u64);
        i += 1;
    }
    assert(s@.take(n as int) =~= s@);
    acc
}

/// Minimal big-endian bytes of a machine word.
pub fn u64_to_min_be(v: u64) -> (r: Vec<u8>)
    ensures
        r@ == spec_min_be(v as nat),
        min_be(r@),
        be_val(r@) == v,
        r@.len() <= 8,
{
    let mut out: Vec<u8> = Vec::new();
    push_min_be(&mut out, v);
    proof {
        lemma_min_be_val(v as nat);
        lemma_pow256_8();
        lemma_be_val_lower_contra(v as nat);
        assert(out@ =~= spec_min_be(v as nat));
    }
    out
}

/// The minimal big-endian form of a `u64` value takes at most 8 bytes.
pub proof fn lemma_be_val_lower_contra(n: nat)
    requires
        n < pow256(8),
    ensures
        spec_min_be(n).len() <= 8,
{
    lemma_min_be_val(n);
    if spec_min_be(n).len() > 8 {
        lemma_be_val_lower(spec_min_be(n));
        lemma_pow256_mono(8, (spec_min_be(n).len() - 1) as nat);
    }
}

/// Appends the minimal big-endian bytes of `v` to `out`.
fn push_min_be(out: &mut Vec<u8>, v: u64)
    ensures
        final(out)@ == old(out)@ + spec_min_be(v as nat),
    decreases v,
{
    if v == 0 {
        assert(final(out)@ =~= old(out)@ + spec_min_be(0));
        return;
    }
    push_min_be(out, v / 256);
    out.push((v % 256) as u8);
    assert(final(out)@ =~= old(out)@ + spec_min_be(v as nat));
}

/// Decimal digits of a number, as ASCII bytes.
pub open spec fn spec_dec(n: nat) -> Seq<u8>
    decreases n,
{
    if n < 10 {
        seq![(48 + n) as u8]
    } else {
        spec_dec(n / 10).push((48 + n % 10) as u8)
    }
}

/// Renders a block number the way the chain derives block hashes: as the
/// ASCII decimal digits of the number.
pub fn u64_to_dec(v: u64) -> (r: Vec<u8>)
    ensures
        r@ == spec_dec(v as nat),
{
    let mut out: Vec<u8> = Vec::new();
    push_dec(&mut out, v);
    proof {
        assert(out@ =~= spec_dec(v as nat));
    }
    out
}

fn push_dec(out: &mut Vec<u8>, v: u64)
    ensures
        final(out)@ == old(out)@ + spec_dec(v as nat),
    decreases v,
{
    if v < 10 {
        out.push(48 + (v as u8));
        assert(final(out)@ =~= old(out)@ + spec_dec(v as nat));
        return;
    }
    push_dec(out, v / 10);
    out.push(48 + ((v % 10) as u8));
    assert(final(out)@ =~= old(out)@ + spec_dec(v as nat));
}

/// Whether the quantity held in `s` exceeds the machine word `x`.
pub fn be_gt_u64(s: &Vec<u8>, x: u64) -> (r: bool)
    requires
        min_be(s@),
    ensures
        r == (be_val(s@) > x),
{
    if s.len() > 8 {
        proof {
            lemma_be_val_lower(s@);
            lemma_pow256_mono(8, (s@.len() - 1) as nat);
            lemma_pow256_8();
        }
        true
    } else {
        be_val_u64(s) > x
    }
}

/// Whether the quantity held in `s` is below the machine word `x`.
pub fn be_lt_u64(s: &Vec<u8>, x: u64) -> (r: bool)
    requires
        min_be(s@),
    ensures
        r == (be_val(s@) < x),
{
    if s.len() > 8 {
        proof {
            lemma_be_val_lower(s@);
            lemma_pow256_mono(8, (s@.len() - 1) as nat);
            lemma_pow256_8();
        }
        false
    } else {
        be_val_u64(s) < x
    }
}

/// Left-pads a big-endian quantity with zero bytes to a fixed width.
pub fn pad_left_to(s: &Vec<u8>, width: usize) -> (r: Vec<u8>)
    requires
        s@.len() <= width,
    ensures
        r@.len() == width,
        r@ == Seq::new((width - s@.len()) as nat, |i: int| 0u8) + s@,
{
    let mut out: Vec<u8> = Vec::new();
    let pad = width - s.len();
    let mut i: usize = 0;
    while i < pad
        invariant
            i <= pad,
            out@ =~= Seq::new(i as nat, |j: int| 0u8),
        decreases pad - i,
    {
        out.push(0);
        assert(out@ =~= Seq::new((i + 1) as nat, |j: int| 0u8));
        i += 1;
    }
    let mut k: usize = 0;
    let n = s.len();
    while k < n
        invariant
            k <= n,
            n == s@.len(),
            n + pad == width,
            out@ =~= Seq::new(pad as nat, |j: int| 0u8) + s@.take(k as int),
        decreases n - k,
    {
        out.push(s[k]);
        assert(out@ =~= Seq::new(pad as nat, |j: int| 0u8) + s@.take(k + 1 as int));
        k += 1;
    }
    assert(s@.take(n as int) =~= s@);
    out
}

/// Copies a byte string.
pub fn copy_whole(src: &Vec<u8>) -> (r: Vec<u8>)
    ensures
        r@ == src@,
{
    let n = src.len();
    let mut out: Vec<u8> = Vec::new();
    let mut i: usize = 0;
    while i < n
        invariant
            i <= n,
            n == src@.len(),
            out@ =~= src@.take(i as int),
        decreases n - i,
    {
        out.push(src[i]);
        assert(out@ =~= src@.take(i + 1 as int));
        i += 1;
    }
    assert(src@.take(n as int) =~= src@);
    out
}

/// A run of zero bytes.
pub fn zero_bytes(n: usize) -> (r: Vec<u8>)
    ensures
        r@ == Seq::new(n as nat, |i: int| 0u8),
{
    let mut out: Vec<u8> = Vec::new();
    let mut i: usize = 0;
    while i < n
        invariant
            i <= n,
            out@ =~= Seq::new(i as nat, |j: int| 0u8),
        decreases n - i,
    {
        out.push(0);
        assert(out@ =~= Seq::new((i + 1) as nat, |j: int| 0u8));
        i += 1;
    }
    out
}

} // verus!
