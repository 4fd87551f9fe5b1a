//! Distributed point function: a pair of keys over a domain `[0, N)` whose
//! evaluations XOR to a payload at one secret index and to zero elsewhere.
//!
//! The keys share a chain of per-level correction words for a binary tree of
//! seed expansions; level `i` of the tree branches on bit `i` of the index
//! (least significant bit first).
use vstd::prelude::*;
use crate::error::Error;
use crate::prg::{convert, convert_byte, convert_spec, expand, expand_spec, Expansion};

verus! {

/// Correction word of one tree level.
#[derive(Clone, Copy, Debug)]
pub struct LevelCorrection {
    pub seed: u128,
    pub left_bit: bool,
    pub right_bit: bool,
}

/// One party's key.
#[derive(Debug)]
pub struct DpfKey {
    /// Size `N` of the domain the key is evaluated over.
    pub domain_size: u64,
    /// Root seed of this party's tree.
    pub seed: u128,
    /// Root control bit of this party's tree.
    pub bit: bool,
    /// One correction word per tree level, from the root down.
    pub levels: Vec<LevelCorrection>,
    /// Correction of the leaf output; its length is the output length.
    pub output_correction: Vec<u8>,
}

pub open spec fn two_to(n: nat) -> nat
    decreases n,
{
    if n == 0 { 1 } else { 2 * two_to((n - 1) as nat) }
}

/// Depth of the tree for a domain of `n` indices: the least `L` with
/// `n <= 2^L`.
pub open spec fn levels_for(n: nat) -> nat
    decreases n,
{
    if n <= 1 { 0 } else { 1 + levels_for(((n + 1) / 2) as nat) }
}

/// Whether the `len` low bits of `x` and `y` agree.
pub open spec fn same_low_bits(x: nat, y: nat, len: nat) -> bool
    decreases len,
{
    len == 0 || (x % 2 == y % 2 && same_low_bits(x / 2, y / 2, (len - 1) as nat))
}

/// Moves one party's state `(seed, bit)` to a child, applying the level's
/// correction where the party's control bit is set.
pub open spec fn step(s: u128, t: bool, cw: LevelCorrection, go_right: bool) -> (u128, bool) {
    step_from(expand_spec(s), t, cw, go_right)
}

/// The child state reached from a node with expansion `e` and control bit `t`.
pub open spec fn step_from(e: Expansion, t: bool, cw: LevelCorrection, go_right: bool) -> (u128, bool) {
    let mask: u128 = if t { cw.seed } else { 0 };
    if go_right {
        (e.right ^ mask, e.right_bit != (t && cw.right_bit))
    } else {
        (e.left ^ mask, e.left_bit != (t && cw.left_bit))
    }
}

/// The state that a party reaches at the leaf of index `x`.
pub open spec fn walk(s: u128, t: bool, cws: Seq<LevelCorrection>, x: nat) -> (u128, bool)
    decreases cws.len(),
{
    if cws.len() == 0 {
        (s, t)
    } else {
        let n = step(s, t, cws[0], x % 2 == 1);
        walk(n.0, n.1, cws.drop_first(), x / 2)
    }
}

/// Correction word of a level, given both parties' expansions and the branch
/// that the secret index takes: the seeds of the other branch are made equal,
/// and the control bits of the taken branch are made to differ.
pub open spec fn correction(e0: Expansion, e1: Expansion, go_right: bool) -> LevelCorrection {
    if go_right {
        LevelCorrection {
            seed: e0.left ^ e1.left,
            left_bit: e0.left_bit != e1.left_bit,
            right_bit: e0.right_bit == e1.right_bit,
        }
    } else {
        LevelCorrection {
            seed: e0.right ^ e1.right,
            left_bit: e0.left_bit == e1.left_bit,
            right_bit: e0.right_bit != e1.right_bit,
        }
    }
}

/// The correction words along the path of `alpha`, for `len` levels, with
/// both parties' states at the end of the path.
pub open spec fn gen_walk(
    s0: u128,
    t0: bool,
    s1: u128,
    t1: bool,
    alpha: nat,
    len: nat,
) -> (Seq<LevelCorrection>, (u128, bool), (u128, bool))
    decreases len,
{
    if len == 0 {
        (Seq::empty(), (s0, t0), (s1, t1))
    } else {
        let r = alpha % 2 == 1;
        let cw = correction(expand_spec(s0), expand_spec(s1), r);
        let n0 = step(s0, t0, cw, r);
        let n1 = step(s1, t1, cw, r);
        let rest = gen_walk(n0.0, n0.1, n1.0, n1.1, alpha / 2, (len - 1) as nat);
        (seq![cw] + rest.0, rest.1, rest.2)
    }
}

pub open spec fn xor_bytes(a: Seq<u8>, b: Seq<u8>) -> Seq<u8> {
    Seq::new(a.len(), |i: int| a[i] ^ b[i])
}

pub open spec fn zero_bytes(len: nat) -> Seq<u8> {
    Seq::new(len, |i: int| 0u8)
}

/// The point function: `payload` at `alpha`, zero bytes elsewhere.
pub open spec fn point(alpha: nat, payload: Seq<u8>, x: nat) -> Seq<u8> {
    if x == alpha { payload } else { zero_bytes(payload.len()) }
}

/// The output correction: makes the two leaf outputs on the secret path XOR
/// to the payload.
pub open spec fn output_correction(payload: Seq<u8>, s0: u128, s1: u128) -> Seq<u8> {
    Seq::new(payload.len(), |i: int| payload[i] ^ convert_byte(s0, i as nat) ^ convert_byte(s1, i as nat))
}

proof fn lemma_xor_seed(a: u128, b: u128)
    ensures
        a ^ (a ^ b) == b,
        b ^ (a ^ b) == a,
        a ^ 0u128 == a,
        b ^ 0u128 == b,
{
    assert(a ^ (a ^ b) == b) by (bit_vector);
    assert(b ^ (a ^ b) == a) by (bit_vector);
    assert(a ^ 0u128 == a) by (bit_vector);
    assert(b ^ 0u128 == b) by (bit_vector);
}

/// Along the path of `alpha` the parties' control bits differ; off the path
/// their states agree from the first level where the index leaves it.
proof fn lemma_walk(s0: u128, t0: bool, s1: u128, t1: bool, alpha: nat, x: nat, len: nat)
    requires
        t0 != t1,
    ensures
        ({
            let g = gen_walk(s0, t0, s1, t1, alpha, len);
            &&& g.0.len() == len
            &&& g.1.1 != g.2.1
            &&& if same_low_bits(x, alpha, len) {
                walk(s0, t0, g.0, x) == g.1 && walk(s1, t1, g.0, x) == g.2
            } else {
                walk(s0, t0, g.0, x) == walk(s1, t1, g.0, x)
            }
        }),
    decreases len,
{
    if len > 0 {
        let r = alpha % 2 == 1;
        let e0 = expand_spec(s0);
        let e1 = expand_spec(s1);
        let cw = correction(e0, e1, r);
        let n0 = step(s0, t0, cw, r);
        let n1 = step(s1, t1, cw, r);
        let rest = gen_walk(n0.0, n0.1, n1.0, n1.1, alpha / 2, (len - 1) as nat);
        let cws = seq![cw] + rest.0;
        assert(cws[0] == cw);
        assert(cws.drop_first() =~= rest.0);
        lemma_walk(n0.0, n0.1, n1.0, n1.1, alpha / 2, x / 2, (len - 1) as nat);
        if x % 2 != alpha % 2 {
            let go = x % 2 == 1;
            lemma_xor_seed(e0.left, e1.left);
            lemma_xor_seed(e0.right, e1.right);
            if go {
                assert(step(s0, t0, cw, go).0 == step(s1, t1, cw, go).0);
            } else {
                assert(step(s0, t0, cw, go).0 == step(s1, t1, cw, go).0);
            }
            assert(step(s0, t0, cw, go) == step(s1, t1, cw, go));
        }
    }
}

proof fn lemma_levels(n: nat)
    ensures
        n <= two_to(levels_for(n)),
    decreases n,
{
    if n > 1 {
        lemma_levels(((n + 1) / 2) as nat);
    }
}

proof fn lemma_same_low_bits(x: nat, y: nat, len: nat)
    requires
        x < two_to(len),
        y < two_to(len),
    ensures
        same_low_bits(x, y, len) <==> x == y,
    decreases len,
{
    if len > 0 {
        lemma_same_low_bits(x / 2, y / 2, (len - 1) as nat);
    }
}

/// The defining law of the key pair: for every domain size, secret index
/// inside it, payload, pair of root seeds and index `x` of the domain, the
/// two keys' outputs at `x` XOR to the payload when `x` is the secret index
/// and to zero bytes otherwise.
pub proof fn lemma_point_function(n: u64, alpha: nat, payload: Seq<u8>, s0: u128, s1: u128, x: nat)
    requires
        alpha < n,
        x < n,
    ensures
        ({
            let g = gen_spec(n, alpha, payload, s0, s1);
            xor_bytes(share_at(s0, false, g.0, g.1, x), share_at(s1, true, g.0, g.1, x))
                == point(alpha, payload, x)
        }),
{
    let len = levels_for(n as nat);
    let w = gen_walk(s0, false, s1, true, alpha, len);
    let g = gen_spec(n, alpha, payload, s0, s1);
    lemma_walk(s0, false, s1, true, alpha, x, len);
    lemma_levels(n as nat);
    lemma_same_low_bits(x, alpha, len);
    let a = share_at(s0, false, g.0, g.1, x);
    let b = share_at(s1, true, g.0, g.1, x);
    let r = xor_bytes(a, b);
    assert forall|i: int| 0 <= i < payload.len() implies #[trigger] r[i] == point(alpha, payload, x)[i] by {
        let w0 = walk(s0, false, g.0, x);
        let w1 = walk(s1, true, g.0, x);
        let c0 = convert_byte(w0.0, i as nat);
        let c1 = convert_byte(w1.0, i as nat);
        assert(r[i] == a[i] ^ b[i]);
        if x == alpha {
            let p = payload[i];
            let o = g.1[i];
            assert(o == p ^ c0 ^ c1);
            if w0.1 {
                assert(!w1.1);
                assert((c0 ^ (p ^ c0 ^ c1)) ^ (c1 ^ 0u8) == p) by (bit_vector);
            } else {
                assert(w1.1);
                assert((c0 ^ 0u8) ^ (c1 ^ (p ^ c0 ^ c1)) == p) by (bit_vector);
            }
        } else {
            assert(w0 == w1);
            assert(a[i] == b[i]);
            let v = a[i];
            assert(v ^ v == 0u8) by (bit_vector);
        }
    }
    assert(r =~= point(alpha, payload, x));
}

/// A party's share of the point function at `x`, from its root state, the
/// correction chain and the output correction.
pub open spec fn share_at(s: u128, t: bool, cws: Seq<LevelCorrection>, out: Seq<u8>, x: nat) -> Seq<u8> {
    let w = walk(s, t, cws, x);
    Seq::new(out.len(), |i: int| convert_byte(w.0, i as nat) ^ (if w.1 { out[i] } else { 0u8 }))
}

impl DpfKey {
    /// The key's correction chain fits its domain.
    pub open spec fn wf(&self) -> bool {
        self.levels@.len() == levels_for(self.domain_size as nat)
    }

    /// Length of the key's output strings.
    pub open spec fn output_len(&self) -> nat {
        self.output_correction@.len()
    }

    /// This key's share of the point function at `x`.
    pub open spec fn eval_spec(&self, x: nat) -> Seq<u8> {
        share_at(self.seed, self.bit, self.levels@, self.output_correction@, x)
    }
}

/// The key pair for `alpha` and `payload` over a domain of `n` indices, from
/// root seeds `s0` and `s1`.
pub open spec fn gen_spec(n: u64, alpha: nat, payload: Seq<u8>, s0: u128, s1: u128) -> (
    Seq<LevelCorrection>,
    Seq<u8>,
) {
    let g = gen_walk(s0, false, s1, true, alpha, levels_for(n as nat));
    (g.0, output_correction(payload, g.1.0, g.2.0))
}

/// Whether two keys hold the same material.
pub open spec fn same_key(a: DpfKey, b: DpfKey) -> bool {
    &&& a.domain_size == b.domain_size && a.seed == b.seed && a.bit == b.bit
    &&& a.levels@ == b.levels@ && a.output_correction@ == b.output_correction@
}

/// Whether `k0` and `k1` share the point function `payload` at `alpha`: at
/// every index of the domain their outputs XOR to it.
pub open spec fn complementary(k0: DpfKey, k1: DpfKey, alpha: nat, payload: Seq<u8>) -> bool {
    &&& k0.wf() && k1.wf()
    &&& k0.domain_size == k1.domain_size
    &&& k0.output_len() == payload.len() && k1.output_len() == payload.len()
    &&& alpha < k0.domain_size
    &&& forall|x: nat|
        x < k0.domain_size ==> #[trigger] xor_bytes(k0.eval_spec(x), k1.eval_spec(x)) == point(
            alpha,
            payload,
            x,
        )
}

/// Depth of the tree for a domain of `n` indices.
pub fn levels_count(n: u64) -> (l: u64)
    ensures
        l == levels_for(n as nat),
{
    let mut m: u64 = n;
    let mut l: u64 = 0;
    while m > 1
        invariant
            levels_for(n as nat) == l + levels_for(m as nat),
            l + m <= n || m <= 1,
            n <= 1 ==> m == n,
        decreases m,
    {
        m = m / 2 + m % 2;
        l = l + 1;
    }
    l
}

fn correction_of(e0: &Expansion, e1: &Expansion, go_right: bool) -> (cw: LevelCorrection)
    ensures
        cw == correction(*e0, *e1, go_right),
{
    if go_right {
        LevelCorrection {
            seed: e0.left ^ e1.left,
            left_bit: e0.left_bit != e1.left_bit,
            right_bit: e0.right_bit == e1.right_bit,
        }
    } else {
        LevelCorrection {
            seed: e0.right ^ e1.right,
            left_bit: e0.left_bit == e1.left_bit,
            right_bit: e0.right_bit != e1.right_bit,
        }
    }
}

fn child(e: &Expansion, t: bool, cw: &LevelCorrection, go_right: bool) -> (r: (u128, bool))
    ensures
        r == step_from(*e, t, *cw, go_right),
{
    let mask: u128 = if t { cw.seed } else { 0 };
    if go_right {
        (e.right ^ mask, e.right_bit != (t && cw.right_bit))
    } else {
        (e.left ^ mask, e.left_bit != (t && cw.left_bit))
    }
}

/// Generates the key pair that shares `payload` at `secret_index` over a
/// domain of `domain_size` indices, from the root seeds `s0` and `s1`.
///
/// Fails with `InvalidArgument` exactly when the index lies outside the
/// domain or the payload is not `element_size` bytes long; otherwise the two
/// keys are complementary for that index and payload.
pub fn generate_keys(
    domain_size: u64,
    secret_index: u64,
    payload: &Vec<u8>,
    element_size: usize,
    s0: u128,
    s1: u128,
) -> (r: Result<(DpfKey, DpfKey), Error>)
    ensures
        r is Err <==> (secret_index >= domain_size || payload@.len() != element_size),
        r is Err ==> r == Err::<(DpfKey, DpfKey), Error>(Error::InvalidArgument),
        r matches Ok((k0, k1)) ==> {
            let g = gen_spec(domain_size, secret_index as nat, payload@, s0, s1);
            &&& k0.domain_size == domain_size && k1.domain_size == domain_size
            &&& k0.seed == s0 && !k0.bit && k1.seed == s1 && k1.bit
            &&& k0.levels@ == g.0 && k1.levels@ == g.0
            &&& k0.output_correction@ == g.1 && k1.output_correction@ == g.1
            &&& complementary(k0, k1, secret_index as nat, payload@)
        },
{
    if secret_index >= domain_size || payload.len() != element_size {
        return Err(Error::InvalidArgument);
    }
    let ghost alpha = secret_index as nat;
    let len = levels_count(domain_size);
    let mut cws0: Vec<LevelCorrection> = Vec::new();
    let mut cws1: Vec<LevelCorrection> = Vec::new();
    let mut a0: u128 = s0;
    let mut b0: bool = false;
    let mut a1: u128 = s1;
    let mut b1: bool = true;
    let mut rest: u64 = secret_index;
    let mut i: u64 = 0;
    while i < len
        invariant
            i <= len,
            len == levels_for(domain_size as nat),
            cws0@ == cws1@,
            ({
                let whole = gen_walk(s0, false, s1, true, alpha, len as nat);
                let tail = gen_walk(a0, b0, a1, b1, rest as nat, (len - i) as nat);
                whole.0 == cws0@ + tail.0 && whole.1 == tail.1 && whole.2 == tail.2
            }),
        decreases len - i,
    {
        let ghost tail_before = gen_walk(a0, b0, a1, b1, rest as nat, (len - i) as nat);
        let ghost cws_before = cws0@;
        let e0 = expand(a0);
        let e1 = expand(a1);
        let go_right = rest % 2 == 1;
        let cw = correction_of(&e0, &e1, go_right);
        let n0 = child(&e0, b0, &cw, go_right);
        let n1 = child(&e1, b1, &cw, go_right);
        cws0.push(cw);
        cws1.push(cw);
        a0 = n0.0;
        b0 = n0.1;
        a1 = n1.0;
        b1 = n1.1;
        rest = rest / 2;
        i = i + 1;
        proof {
            let tail = gen_walk(a0, b0, a1, b1, rest as nat, (len - i) as nat);
            assert(tail_before.0 == seq![cw] + tail.0);
            assert(cws_before + tail_before.0 =~= cws0@ + tail.0);
        }
    }
    proof {
        let tail = gen_walk(a0, b0, a1, b1, rest as nat, 0);
        assert(tail.0 =~= Seq::<LevelCorrection>::empty());
        assert(cws0@ + Seq::<LevelCorrection>::empty() =~= cws0@);
        assert(cws0@ == gen_spec(domain_size, alpha, payload@, s0, s1).0);
    }
    let c0 = convert(a0, element_size);
    let c1 = convert(a1, element_size);
    let mut out0: Vec<u8> = Vec::with_capacity(element_size);
    let mut out1: Vec<u8> = Vec::with_capacity(element_size);
    let mut j: usize = 0;
    while j < element_size
        invariant
            j <= element_size,
            payload@.len() == element_size,
            c0@ == convert_spec(a0, element_size as nat),
            c1@ == convert_spec(a1, element_size as nat),
            out0@.len() == j,
            out0@ == out1@,
            forall|k: int| 0 <= k < j ==> out0@[k] == payload@[k] ^ convert_byte(a0, k as nat) ^ convert_byte(a1, k as nat),
        decreases element_size - j,
    {
        let v = payload[j] ^ c0[j] ^ c1[j];
        out0.push(v);
        out1.push(v);
        j = j + 1;
    }
    let k0 = DpfKey { domain_size, seed: s0, bit: false, levels: cws0, output_correction: out0 };
    let k1 = DpfKey { domain_size, seed: s1, bit: true, levels: cws1, output_correction: out1 };
    proof {
        let g = gen_spec(domain_size, alpha, payload@, s0, s1);
        assert(k0.output_correction@ =~= g.1);
        assert(k1.output_correction@ =~= g.1);
        assert(k0.levels@ == g.0);
        assert(k1.levels@ == g.0);
        lemma_walk(s0, false, s1, true, alpha, 0, len as nat);
        assert(k0.wf() && k1.wf());
        assert forall|x: nat| x < domain_size implies #[trigger] xor_bytes(k0.eval_spec(x), k1.eval_spec(x))
            == point(alpha, payload@, x) by {
            lemma_point_function(domain_size, alpha, payload@, s0, s1, x);
        }
    }
    Ok((k0, k1))
}

impl DpfKey {
    /// A copy of this key.
    pub fn duplicate(&self) -> (k: DpfKey)
        ensures
            same_key(k, *self),
    {
        let mut levels: Vec<LevelCorrection> = Vec::with_capacity(self.levels.len());
        let mut i: usize = 0;
        while i < self.levels.len()
            invariant
                i <= self.levels@.len(),
                levels@ =~= self.levels@.subrange(0, i as int),
            decreases self.levels@.len() - i,
        {
            levels.push(self.levels[i]);
            i = i + 1;
        }
        let mut out: Vec<u8> = Vec::with_capacity(self.output_correction.len());
        let mut j: usize = 0;
        while j < self.output_correction.len()
            invariant
                j <= self.output_correction@.len(),
                out@ =~= self.output_correction@.subrange(0, j as int),
            decreases self.output_correction@.len() - j,
        {
            out.push(self.output_correction[j]);
            j = j + 1;
        }
        assert(levels@ =~= self.levels@);
        assert(out@ =~= self.output_correction@);
        DpfKey { domain_size: self.domain_size, seed: self.seed, bit: self.bit, levels, output_correction: out }
    }

    /// This key's share of the point function at index `x`.
    ///
    /// Fails with `InvalidArgument` exactly when `x` lies outside the key's
    /// domain or the key's correction chain does not fit the domain.
    pub fn evaluate(&self, x: u64) -> (r: Result<Vec<u8>, Error>)
        ensures
            (x >= self.domain_size || !self.wf()) ==> r == Err::<Vec<u8>, Error>(Error::InvalidArgument),
            (x < self.domain_size && self.wf()) ==> (r matches Ok(v) && v@ == self.eval_spec(x as nat)),
    {
        let len = levels_count(self.domain_size);
        if x >= self.domain_size || self.levels.len() as u64 != len {
            return Err(Error::InvalidArgument);
        }
        let ghost cws = self.levels@;
        let mut s: u128 = self.seed;
        let mut t: bool = self.bit;
        let mut rest: u64 = x;
        let mut i: usize = 0;
        assert(cws.subrange(0, cws.len() as int) =~= cws);
        while i < self.levels.len()
            invariant
                i <= cws.len(),
                cws == self.levels@,
                walk(s, t, cws.subrange(i as int, cws.len() as int), rest as nat) == walk(self.seed, self.bit, cws, x as nat),
            decreases cws.len() - i,
        {
            let ghost sub = cws.subrange(i as int, cws.len() as int);
            assert(sub[0] == cws[i as int]);
            assert(sub.drop_first() =~= cws.subrange(i + 1, cws.len() as int));
            let e = expand(s);
            let n = child(&e, t, &self.levels[i], rest % 2 == 1);
            s = n.0;
            t = n.1;
            rest = rest / 2;
            i = i + 1;
        }
        let c = convert(s, self.output_correction.len());
        let mut out: Vec<u8> = Vec::with_capacity(self.output_correction.len());
        let mut j: usize = 0;
        while j < self.output_correction.len()
            invariant
                j <= self.output_correction@.len(),
                c@ == convert_spec(s, self.output_correction@.len() as nat),
                walk(s, t, Seq::empty(), rest as nat) == walk(self.seed, self.bit, cws, x as nat),
                cws == self.levels@,
                out@.len() == j,
                forall|k: int| 0 <= k < j ==> out@[k] == self.eval_spec(x as nat)[k],
            decreases self.output_correction@.len() - j,
        {
            let m: u8 = if t { self.output_correction[j] } else { 0u8 };
            out.push(c[j] ^ m);
            j = j + 1;
        }
        assert(out@ =~= self.eval_spec(x as nat));
        Ok(out)
    }
}

} // verus!
