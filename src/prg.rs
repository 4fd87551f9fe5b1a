//! The pseudo-random generator behind the key tree: SipHash-2-4 keyed by a
//! 128-bit seed and applied to a counter, so that one seed yields as many
//! pseudo-random words as the tree and the output conversion need.
use vstd::prelude::*;

verus! {

/// Word state of the keyed hash: four 64-bit lanes.
pub type Lanes = (u64, u64, u64, u64);

pub open spec fn rotl(x: u64, r: u64) -> u64
    recommends
        0 < r < 64,
{
    (x << r) | (x >> (64 - r))
}

/// One mixing round over the four lanes.
pub open spec fn sip_round(v: Lanes) -> Lanes {
    let v0 = v.0.wrapping_add(v.1);
    let v1 = rotl(v.1, 13) ^ v0;
    let v0 = rotl(v0, 32);
    let v2 = v.2.wrapping_add(v.3);
    let v3 = rotl(v.3, 16) ^ v2;
    let v0 = v0.wrapping_add(v3);
    let v3 = rotl(v3, 21) ^ v0;
    let v2 = v2.wrapping_add(v1);
    let v1 = rotl(v1, 17) ^ v2;
    let v2 = rotl(v2, 32);
    (v0, v1, v2, v3)
}

pub open spec fn two_rounds(v: Lanes) -> Lanes {
    sip_round(sip_round(v))
}

/// Absorbs one 64-bit block.
pub open spec fn absorb(v: Lanes, m: u64) -> Lanes {
    let w = two_rounds((v.0, v.1, v.2, v.3 ^ m));
    (w.0 ^ m, w.1, w.2, w.3)
}

/// The keyed hash of the 8-byte message `m` under the key `seed`.
#[verifier::opaque]
pub open spec fn prf(seed: u128, m: u64) -> u64 {
    let k0 = seed as u64;
    let k1 = (seed >> 64u128) as u64;
    let v: Lanes = (
        k0 ^ 0x736f6d6570736575u64,
        k1 ^ 0x646f72616e646f6du64,
        k0 ^ 0x6c7967656e657261u64,
        k1 ^ 0x7465646279746573u64,
    );
    let v = absorb(v, m);
    let v = absorb(v, 0x0800000000000000u64);
    let v = two_rounds(two_rounds((v.0, v.1, v.2 ^ 0xffu64, v.3)));
    v.0 ^ v.1 ^ v.2 ^ v.3
}

pub open spec fn join(lo: u64, hi: u64) -> u128 {
    ((hi as u128) << 64u128) | (lo as u128)
}

/// What one tree node expands into: the left and right child seeds and
/// their control bits.
#[derive(Clone, Copy, Debug)]
pub struct Expansion {
    pub left: u128,
    pub right: u128,
    pub left_bit: bool,
    pub right_bit: bool,
}

/// The expansion of a seed: four hash words make the two child seeds, a
/// fifth gives the two control bits.
pub open spec fn expand_spec(seed: u128) -> Expansion {
    let bits = prf(seed, 4);
    Expansion {
        left: join(prf(seed, 0), prf(seed, 1)),
        right: join(prf(seed, 2), prf(seed, 3)),
        left_bit: bits & 1 == 1,
        right_bit: bits & 2 == 2,
    }
}

/// Counter base for the words of the output conversion, apart from those of
/// the expansion.
pub const OUTPUT_DOMAIN: u64 = 0x100;

/// Byte `i` of the conversion of a leaf seed into an output string.
pub open spec fn convert_byte(seed: u128, i: nat) -> u8 {
    let w = prf(seed, (OUTPUT_DOMAIN + i / 8) as u64);
    ((w >> (8 * (i % 8)) as u64) & 0xffu64) as u8
}

/// The conversion of a leaf seed into `len` pseudo-random bytes.
pub open spec fn convert_spec(seed: u128, len: nat) -> Seq<u8> {
    Seq::new(len, |i: int| convert_byte(seed, i as nat))
}

fn rotate(x: u64, r: u64) -> (y: u64)
    requires
        0 < r < 64,
    ensures
        y == rotl(x, r),
{
    (x << r) | (x >> (64 - r))
}

fn round(v: Lanes) -> (w: Lanes)
    ensures
        w == sip_round(v),
{
    let v0 = v.0.wrapping_add(v.1);
    let v1 = rotate(v.1, 13) ^ v0;
    let v0 = rotate(v0, 32);
    let v2 = v.2.wrapping_add(v.3);
    let v3 = rotate(v.3, 16) ^ v2;
    let v0 = v0.wrapping_add(v3);
    let v3 = rotate(v3, 21) ^ v0;
    let v2 = v2.wrapping_add(v1);
    let v1 = rotate(v1, 17) ^ v2;
    let v2 = rotate(v2, 32);
    (v0, v1, v2, v3)
}

fn absorb_block(v: Lanes, m: u64) -> (w: Lanes)
    ensures
        w == absorb(v, m),
{
    let w = round(round((v.0, v.1, v.2, v.3 ^ m)));
    (w.0 ^ m, w.1, w.2, w.3)
}

/// The keyed hash of `m` under `seed`.
pub fn keyed_hash(seed: u128, m: u64) -> (r: u64)
    ensures
        r == prf(seed, m),
{
    proof {
        reveal(prf);
    }
    let k0 = seed as u64;
    let k1 = (seed >> 64u128) as u64;
    let v: Lanes = (
        k0 ^ 0x736f6d6570736575u64,
        k1 ^ 0x646f72616e646f6du64,
        k0 ^ 0x6c7967656e657261u64,
        k1 ^ 0x7465646279746573u64,
    );
    let v = absorb_block(v, m);
    let v = absorb_block(v, 0x0800000000000000u64);
    let v = round(round(round(round((v.0, v.1, v.2 ^ 0xffu64, v.3)))));
    v.0 ^ v.1 ^ v.2 ^ v.3
}

pub fn join_words(lo: u64, hi: u64) -> (r: u128)
    ensures
        r == join(lo, hi),
{
    ((hi as u128) << 64u128) | (lo as u128)
}

/// Expands a tree node's seed into its two children and their control bits.
pub fn expand(seed: u128) -> (e: Expansion)
    ensures
        e == expand_spec(seed),
{
    let bits = keyed_hash(seed, 4);
    Expansion {
        left: join_words(keyed_hash(seed, 0), keyed_hash(seed, 1)),
        right: join_words(keyed_hash(seed, 2), keyed_hash(seed, 3)),
        left_bit: bits & 1 == 1,
        right_bit: bits & 2 == 2,
    }
}

/// Converts a leaf seed into `len` pseudo-random bytes.
pub fn convert(seed: u128, len: usize) -> (out: Vec<u8>)
    ensures
        out@ == convert_spec(seed, len as nat),
{
    let mut out: Vec<u8> = Vec::with_capacity(len);
    let mut word: u64 = 0;
    let mut i: usize = 0;
    while i < len
        invariant
            i <= len,
            out@.len() == i,
            forall|j: int| 0 <= j < i ==> out@[j] == convert_byte(seed, j as nat),
            i % 8 != 0 ==> word == prf(seed, (OUTPUT_DOMAIN + i / 8) as u64),
        decreases len - i,
    {
        if i % 8 == 0 {
            word = keyed_hash(seed, OUTPUT_DOMAIN + (i / 8) as u64);
        }
        let shift: u64 = 8 * (i % 8) as u64;
        out.push(((word >> shift) & 0xffu64) as u8);
        i = i + 1;
    }
    assert(out@ =~= convert_spec(seed, len as nat));
    out
}

} // verus!
