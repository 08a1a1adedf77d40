use vstd::prelude::*;

verus! {

/// `256^n`, the number of values that `n` little-endian bytes can hold.
pub open spec fn byte_pow(n: nat) -> nat
    decreases n,
{
    if n == 0 {
        1
    } else {
        256 * byte_pow((n - 1) as nat)
    }
}

/// The unsigned integer stored little-endian in `b[i..i + n]`.
pub open spec fn le_at(b: Seq<u8>, i: int, n: nat) -> nat
    decreases n,
{
    if n == 0 {
        0
    } else {
        b[i] as nat + 256 * le_at(b, i + 1, (n - 1) as nat)
    }
}

pub proof fn lemma_le_bound(b: Seq<u8>, i: int, n: nat)
    ensures
        le_at(b, i, n) < byte_pow(n),
    decreases n,
{
    if n > 0 {
        lemma_le_bound(b, i + 1, (n - 1) as nat);
        assert(b[i] < 256);
    }
}

pub proof fn lemma_byte_pow_mono(m: nat, n: nat)
    requires
        m <= n,
    ensures
        byte_pow(m) <= byte_pow(n),
    decreases n,
{
    if m < n {
        lemma_byte_pow_mono(m, (n - 1) as nat);
    }
}

proof fn lemma_byte_pow_values()
    ensures
        byte_pow(4) == 0x1_0000_0000,
        byte_pow(8) == 0x1_0000_0000_0000_0000,
        byte_pow(16) == 0x1_0000_0000_0000_0000_0000_0000_0000_0000,
{
    reveal_with_fuel(byte_pow, 17);
}

/// Reads `n <= 16` little-endian bytes starting at `i`.
fn read_le(b: &[u8], i: usize, n: usize) -> (r: u128)
    requires
        n <= 16,
        i + n <= b@.len(),
    ensures
        r as nat == le_at(b@, i as int, n as nat),
{
    let len = b.len();
    let mut k: usize = n;
    let mut acc: u128 = 0;
    while k > 0
        invariant
            k <= n,
            n <= 16,
            i + n <= b@.len(),
            len == b@.len(),
            acc as nat == le_at(b@, i + k, (n - k) as nat),
        decreases k,
    {
        proof {
            lemma_le_bound(b@, i + k, (n - k) as nat);
            lemma_byte_pow_mono((n - k + 1) as nat, 16);
            lemma_byte_pow_values();
            assert(byte_pow((n - k + 1) as nat) == 256 * byte_pow((n - k) as nat));
        }
        let byte = b[i + k - 1];
        acc = acc * 256 + byte as u128;
        k = k - 1;
    }
    acc
}

/// Reads a little-endian `u32` at byte offset `i`.
pub fn read_u32(b: &[u8], i: usize) -> (r: u32)
    requires
        i + 4 <= b@.len(),
    ensures
        r as nat == le_at(b@, i as int, 4),
{
    let v = read_le(b, i, 4);
    proof {
        lemma_le_bound(b@, i as int, 4);
        lemma_byte_pow_values();
    }
    v as u32
}

/// Reads a little-endian `u64` at byte offset `i`.
pub fn read_u64(b: &[u8], i: usize) -> (r: u64)
    requires
        i + 8 <= b@.len(),
    ensures
        r as nat == le_at(b@, i as int, 8),
{
    let v = read_le(b, i, 8);
    proof {
        lemma_le_bound(b@, i as int, 8);
        lemma_byte_pow_values();
    }
    v as u64
}

/// Reads a little-endian `u128` at byte offset `i`.
pub fn read_u128(b: &[u8], i: usize) -> (r: u128)
    requires
        i + 16 <= b@.len(),
    ensures
        r as nat == le_at(b@, i as int, 16),
{
    read_le(b, i, 16)
}

} // verus!
