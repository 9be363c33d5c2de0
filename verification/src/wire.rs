//! Big-endian integer fields, as every wire protocol here writes them.
use vstd::prelude::*;

verus! {

/// The value of the big-endian bytes `s[from..to]`.
pub open spec fn be_val(s: Seq<u8>, from: int, to: int) -> int
    decreases to - from,
{
    if from >= to {
        0
    } else {
        be_val(s, from, to - 1) * 256 + s[to - 1]
    }
}

/// The `n`-byte big-endian encoding of `v`.
pub open spec fn int_be_bytes(v: int, n: nat) -> Seq<u8>
    decreases n,
{
    if n == 0 {
        Seq::<u8>::empty()
    } else {
        int_be_bytes(v / 256, (n - 1) as nat).push((v % 256) as u8)
    }
}

/// A big-endian value of `k` bytes is below `256^k`.
pub proof fn lemma_be_val_bound(s: Seq<u8>, from: int, to: int)
    requires
        from <= to <= s.len(),
    ensures
        0 <= be_val(s, from, to) < vstd::arithmetic::power::pow(256, (to - from) as nat),
    decreases to - from,
{
    vstd::arithmetic::power::lemma_pow_positive(256, (to - from) as nat);
    if from < to {
        lemma_be_val_bound(s, from, to - 1);
        vstd::arithmetic::power::lemma_pow_adds(256, (to - from - 1) as nat, 1);
        vstd::arithmetic::power::lemma_pow1(256);
    }
}

/// The encoding of an `n`-byte field has `n` bytes.
pub proof fn lemma_int_be_bytes_len(v: int, n: nat)
    ensures
        int_be_bytes(v, n).len() == n,
    decreases n,
{
    if n > 0 {
        lemma_int_be_bytes_len(v / 256, (n - 1) as nat);
    }
}

/// Two sequences that agree on `[from..to]` have the same field value there.
pub proof fn lemma_be_val_congruent(s: Seq<u8>, t: Seq<u8>, from: int, to: int)
    requires
        0 <= from,
        to <= s.len(),
        to <= t.len(),
        forall|j: int| from <= j < to ==> s[j] == t[j],
    ensures
        be_val(s, from, to) == be_val(t, from, to),
    decreases to - from,
{
    if from < to {
        lemma_be_val_congruent(s, t, from, to - 1);
    }
}

/// Encoding a value that fits `n` bytes and reading the field back gives the
/// value again.
pub proof fn lemma_be_round_trip(v: int, n: nat)
    requires
        0 <= v < vstd::arithmetic::power::pow(256, n),
    ensures
        int_be_bytes(v, n).len() == n,
        be_val(int_be_bytes(v, n), 0, n as int) == v,
    decreases n,
{
    lemma_int_be_bytes_len(v, n);
    if n == 0 {
        vstd::arithmetic::power::lemma_pow0(256);
    } else {
        vstd::arithmetic::power::lemma_pow_adds(256, (n - 1) as nat, 1);
        vstd::arithmetic::power::lemma_pow1(256);
        assert(vstd::arithmetic::power::pow(256, n) == vstd::arithmetic::power::pow(
            256,
            (n - 1) as nat,
        ) * 256);
        let p1 = vstd::arithmetic::power::pow(256, (n - 1) as nat) as int;
        assert(v / 256 < p1) by (nonlinear_arith)
            requires
                0 <= v,
                v < p1 * 256,
                p1 > 0,
        ;
        lemma_be_round_trip(v / 256, (n - 1) as nat);
        let s = int_be_bytes(v, n);
        let s0 = int_be_bytes(v / 256, (n - 1) as nat);
        assert(s == s0.push((v % 256) as u8));
        assert(s.subrange(0, n as int - 1) =~= s0);
        lemma_be_val_congruent(s, s0, 0, n as int - 1);
        assert(be_val(s, 0, n as int) == be_val(s, 0, n as int - 1) * 256 + s[n as int - 1]);
        assert(be_val(s, 0, n as int - 1) == v / 256);
        assert(s[n as int - 1] as int == v % 256);
        vstd::arithmetic::div_mod::lemma_fundamental_div_mod(v, 256);
    }
}

/// The `n`-byte big-endian form of `v` as a fresh vector.
pub fn int_be_vec(v: u128, n: usize) -> (r: Vec<u8>)
    ensures
        r@ == int_be_bytes(v as int, n as nat),
    decreases n,
{
    if n == 0 {
        Vec::new()
    } else {
        let mut r = int_be_vec(v / 256, n - 1);
        r.push((v % 256) as u8);
        r
    }
}

/// Appends the `n`-byte big-endian form of `v`.
pub fn push_int_be(out: &mut Vec<u8>, v: u128, n: usize)
    ensures
        final(out)@ == old(out)@ + int_be_bytes(v as int, n as nat),
{
    let mut tail = int_be_vec(v, n);
    out.append(&mut tail);
}

/// Appends the two-byte big-endian form of `v`.
pub fn push_u16_be(out: &mut Vec<u8>, v: u16)
    ensures
        final(out)@ == old(out)@ + int_be_bytes(v as int, 2),
{
    push_int_be(out, v as u128, 2);
}

/// Appends the four-byte big-endian form of `v`.
pub fn push_u32_be(out: &mut Vec<u8>, v: u32)
    ensures
        final(out)@ == old(out)@ + int_be_bytes(v as int, 4),
{
    push_int_be(out, v as u128, 4);
}

/// Reads the two-byte big-endian field at `data[i..i+2]`.
pub fn read_u16_be(data: &[u8], i: usize) -> (r: u16)
    requires
        i + 2 <= data@.len(),
    ensures
        r as int == be_val(data@, i as int, i as int + 2),
{
    let hi = data[i];
    let lo = data[i + 1];
    proof {
        reveal_with_fuel(be_val, 3);
    }
    (hi as u16) * 256 + (lo as u16)
}

/// Reads the four-byte big-endian field at `data[i..i+4]`.
pub fn read_u32_be(data: &[u8], i: usize) -> (r: u32)
    requires
        i + 4 <= data@.len(),
    ensures
        r as int == be_val(data@, i as int, i as int + 4),
{
    let b0 = data[i];
    let b1 = data[i + 1];
    let b2 = data[i + 2];
    let b3 = data[i + 3];
    proof {
        reveal_with_fuel(be_val, 5);
    }
    (b0 as u32) * 0x1000000 + (b1 as u32) * 0x10000 + (b2 as u32) * 0x100 + (b3 as u32)
}

/// Reads the sixteen-byte big-endian field at `data[i..i+16]`.
pub fn read_u128_be(data: &[u8], i: usize) -> (r: u128)
    requires
        i + 16 <= data@.len(),
    ensures
        r as int == be_val(data@, i as int, i as int + 16),
{
    let dlen = data.len();
    let mut acc: u128 = 0;
    let mut k: usize = 0;
    while k < 16
        invariant
            k <= 16,
            i + 16 <= dlen == data@.len(),
            acc as int == be_val(data@, i as int, i as int + k),
        decreases 16 - k,
    {
        proof {
            lemma_be_val_bound(data@, i as int, i as int + k);
            reveal_with_fuel(vstd::arithmetic::power::pow, 17);
            assert(vstd::arithmetic::power::pow(256, 15) == 0x1000000000000000000000000000000);
            vstd::arithmetic::power::lemma_pow_increases(256, k as nat, 15);
        }
        acc = acc * 256 + (data[i + k] as u128);
        k += 1;
    }
    acc
}

} // verus!
