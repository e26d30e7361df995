//! Little- and big-endian integer encodings used by the container formats.

use vstd::prelude::*;

verus! {

/// Low byte `k` (0 = least significant) of `v`.
pub open spec fn byte_of(v: u64, k: u64) -> u8 {
    ((v >> (8 * k)) & 0xff) as u8
}

/// The `n` least significant bytes of `v`, least significant first.
pub open spec fn le_bytes(v: u64, n: nat) -> Seq<u8>
    decreases n,
{
    if n == 0 {
        Seq::empty()
    } else {
        le_bytes(v, (n - 1) as nat).push(byte_of(v, (n - 1) as u64))
    }
}

/// The `n` least significant bytes of `v`, most significant first.
pub open spec fn be_bytes(v: u64, n: nat) -> Seq<u8>
    decreases n,
{
    if n == 0 {
        Seq::empty()
    } else {
        seq![byte_of(v, (n - 1) as u64)] + be_bytes(v, (n - 1) as nat)
    }
}

pub proof fn lemma_le_bytes_len(v: u64, n: nat)
    ensures
        #[trigger] le_bytes(v, n).len() == n,
    decreases n,
{
    if n > 0 {
        lemma_le_bytes_len(v, (n - 1) as nat);
    }
}

/// Value of the little-endian bytes `b`.
pub open spec fn le_value(b: Seq<u8>) -> nat
    decreases b.len(),
{
    if b.len() == 0 {
        0
    } else {
        b[0] as nat + 256 * le_value(b.drop_first())
    }
}

/// Four bytes hold less than 2^32, eight less than 2^64.
pub proof fn lemma_le_value_bound(b: Seq<u8>)
    ensures
        le_value(b) < pow256(b.len()),
    decreases b.len(),
{
    if b.len() > 0 {
        lemma_le_value_bound(b.drop_first());
        assert(pow256(b.len()) == 256 * pow256((b.len() - 1) as nat));
        assert(b[0] + 256 * le_value(b.drop_first()) < 256 * pow256((b.len() - 1) as nat)) by (nonlinear_arith)
            requires b[0] < 256, le_value(b.drop_first()) < pow256((b.len() - 1) as nat);
    }
    reveal_with_fuel(pow256, 5);
}

pub fn push_u8(out: &mut Vec<u8>, v: u8)
    ensures
        final(out)@ == old(out)@.push(v),
{
    out.push(v);
}

/// Appends the `n` low bytes of `v`, least significant first.
pub fn push_le(out: &mut Vec<u8>, v: u64, n: u64)
    requires
        n <= 8,
    ensures
        final(out)@ == old(out)@ + le_bytes(v, n as nat),
{
    let ghost start = out@;
    let mut k: u64 = 0;
    while k < n
        invariant
            k <= n <= 8,
            out@ == start + le_bytes(v, k as nat),
        decreases n - k,
    {
        let b: u8 = ((v >> (8 * k)) & 0xff) as u8;
        out.push(b);
        k = k + 1;
        assert(out@ =~= start + le_bytes(v, k as nat));
    }
}

/// Appends the `n` low bytes of `v`, most significant first.
pub fn push_be(out: &mut Vec<u8>, v: u64, n: u64)
    requires
        n <= 8,
    ensures
        final(out)@ == old(out)@ + be_bytes(v, n as nat),
{
    let ghost start = out@;
    let mut k: u64 = n;
    while k > 0
        invariant
            k <= n <= 8,
            out@ + be_bytes(v, k as nat) == start + be_bytes(v, n as nat),
        decreases k,
    {
        let b: u8 = ((v >> (8 * (k - 1))) & 0xff) as u8;
        out.push(b);
        k = k - 1;
        assert(out@ + be_bytes(v, k as nat) =~= start + be_bytes(v, n as nat));
    }
    assert(out@ =~= out@ + be_bytes(v, 0));
}

pub fn push_u32(out: &mut Vec<u8>, v: u32)
    ensures
        final(out)@ == old(out)@ + le_bytes(v as u64, 4),
{
    push_le(out, v as u64, 4);
}

pub fn push_u64(out: &mut Vec<u8>, v: u64)
    ensures
        final(out)@ == old(out)@ + le_bytes(v, 8),
{
    push_le(out, v, 8);
}

/// Appends `n` zero bytes.
pub fn push_zeros(out: &mut Vec<u8>, n: usize)
    ensures
        final(out)@ == old(out)@ + Seq::new(n as nat, |i: int| 0u8),
{
    let ghost start = out@;
    let mut k: usize = 0;
    while k < n
        invariant
            k <= n,
            out@ == start + Seq::new(k as nat, |i: int| 0u8),
        decreases n - k,
    {
        out.push(0);
        k = k + 1;
        assert(out@ =~= start + Seq::new(k as nat, |i: int| 0u8));
    }
}

/// Appends every byte of `b`.
pub fn push_all(out: &mut Vec<u8>, b: &[u8])
    ensures
        final(out)@ == old(out)@ + b@,
{
    let ghost start = out@;
    let mut k: usize = 0;
    while k < b.len()
        invariant
            k <= b@.len(),
            out@ == start + b@.subrange(0, k as int),
        decreases b@.len() - k,
    {
        out.push(b[k]);
        k = k + 1;
        assert(out@ =~= start + b@.subrange(0, k as int));
    }
    assert(b@.subrange(0, b@.len() as int) =~= b@);
}

/// Reads the `n` bytes at `pos` as a little-endian integer, or `None` where
/// they run past the end of `b`.
pub fn read_le(b: &[u8], pos: usize, n: usize) -> (r: Option<u64>)
    requires
        n <= 8,
    ensures
        r is Some <==> pos + n <= b@.len(),
        r is Some ==> r->0 as nat == le_value(b@.subrange(pos as int, pos + n)),
{
    if n > b.len() || pos > b.len() - n {
        return None;
    }
    let mut v: u64 = 0;
    let mut k: usize = n;
    while k > 0
        invariant
            k <= n <= 8,
            pos + n <= b.len(),
            v as nat == le_value(b@.subrange(pos + k, pos + n)),
            v < pow256((n - k) as nat),
        decreases k,
    {
        let ghost tail = b@.subrange(pos + k, pos + n);
        let km1: usize = k - 1;
        let idx: usize = pos + km1;
        let byte = b[idx];
        let ghost e: nat = (n - k) as nat;
        assert(b@.subrange(pos + k - 1, pos + n).drop_first() =~= tail);
        proof {
            lemma_pow256_step(e);
            lemma_pow256_mono(e + 1, 8);
            lemma_pow256_8();
        }
        assert(v * 256 + byte < pow256(e + 1)) by (nonlinear_arith)
            requires v < pow256(e), byte < 256, pow256(e + 1) == 256 * pow256(e);
        v = v * 256 + byte as u64;
        k = k - 1;
    }
    Some(v)
}

/// The little-endian `u32` at `pos`, or `None` past the end.
pub fn read_u32(b: &[u8], pos: usize) -> (r: Option<u32>)
    ensures
        r is Some <==> pos + 4 <= b@.len(),
        r is Some ==> r->0 as nat == le_value(b@.subrange(pos as int, pos + 4)),
{
    match read_le(b, pos, 4) {
        Some(v) => {
            proof {
                lemma_le_value_bound(b@.subrange(pos as int, pos + 4));
                reveal_with_fuel(pow256, 5);
            }
            Some(v as u32)
        },
        None => None,
    }
}

/// The little-endian `u64` at `pos`, or `None` past the end.
pub fn read_u64(b: &[u8], pos: usize) -> (r: Option<u64>)
    ensures
        r is Some <==> pos + 8 <= b@.len(),
        r is Some ==> r->0 as nat == le_value(b@.subrange(pos as int, pos + 8)),
{
    read_le(b, pos, 8)
}

pub open spec fn pow256(n: nat) -> nat
    decreases n,
{
    if n == 0 { 1 } else { 256 * pow256((n - 1) as nat) }
}

proof fn lemma_pow256_step(n: nat)
    ensures
        pow256(n + 1) == 256 * pow256(n),
{
}

proof fn lemma_pow256_8()
    ensures
        pow256(8) == 0x1_0000_0000_0000_0000,
{
    reveal_with_fuel(pow256, 9);
}

proof fn lemma_pow256_mono(a: nat, b: nat)
    requires
        a <= b,
    ensures
        pow256(a) <= pow256(b),
    decreases b - a,
{
    if a < b {
        lemma_pow256_mono(a, (b - 1) as nat);
    }
}

} // verus!
