//! The sponge driver built on Keccak-f[1600]: absorb, pad, squeeze.
//!
//! The state's 25 lanes are addressed as 200 bytes in little-endian lane
//! order, uniformly for absorbing and squeezing. `spec_keccak_hash` is the
//! mathematical model of the whole construction: the digest is a function
//! of the rate, the delimiter byte, the absorbed message and the requested
//! output length alone. The `Keccak` driver carries the absorbed message as
//! a ghost history, so its `finalize` contract speaks of the concatenation
//! of everything ever passed to `update`.

use vstd::prelude::*;
use crate::permutation::{keccakf, spec_keccakf};

verus! {

/// The all-zero 25-lane state a sponge driver starts from.
pub open spec fn zero_state() -> Seq<u64> {
    Seq::new(25, |i: int| 0u64)
}

/// Byte `j` of a lane, in little-endian order: byte 0 is the lane's least
/// significant byte.
pub open spec fn lane_byte(l: u64, j: int) -> u8
    recommends
        0 <= j < 8,
{
    ((l >> ((8 * j) as u64)) & 0xff) as u8
}

/// Byte `p` of the state's 200-byte little-endian serialization.
pub open spec fn byte_at(s: Seq<u64>, p: int) -> u8
    recommends
        s.len() == 25,
        0 <= p < 200,
{
    lane_byte(s[p / 8], p % 8)
}

/// The state with byte `b` XORed into byte position `p` of its
/// serialization.
pub open spec fn xor_byte_at(s: Seq<u64>, p: int, b: u8) -> Seq<u64>
    recommends
        s.len() == 25,
        0 <= p < 200,
{
    s.update(p / 8, s[p / 8] ^ ((b as u64) << ((8 * (p % 8)) as u64)))
}

/// Absorb a single byte at offset `off` of the current block: XOR it in,
/// and permute (resetting the offset) when it completes a rate-sized block.
pub open spec fn spec_absorb_byte(lanes: Seq<u64>, off: nat, rate: nat, b: u8) -> (Seq<u64>, nat)
    recommends
        lanes.len() == 25,
        0 < rate <= 200,
        off < rate,
{
    let l2 = xor_byte_at(lanes, off as int, b);
    if off + 1 == rate {
        (spec_keccakf(l2), 0nat)
    } else {
        (l2, (off + 1) as nat)
    }
}

/// Absorb a whole byte sequence, byte by byte.
pub open spec fn spec_absorb(lanes: Seq<u64>, off: nat, rate: nat, input: Seq<u8>) -> (Seq<u64>, nat)
    recommends
        lanes.len() == 25,
        0 < rate <= 200,
        off < rate,
    decreases input.len(),
{
    if input.len() == 0 {
        (lanes, off)
    } else {
        let st = spec_absorb_byte(lanes, off, rate, input[0]);
        spec_absorb(st.0, st.1, rate, input.drop_first())
    }
}

/// Multi-rate padding: XOR the delimiter at the current offset and 0x80
/// into the last byte of the block; when the offset is `rate - 1` both land
/// on the same byte and both apply.
pub open spec fn spec_pad(lanes: Seq<u64>, off: nat, rate: nat, delim: u8) -> Seq<u64>
    recommends
        lanes.len() == 25,
        0 < rate <= 200,
        off < rate,
{
    xor_byte_at(xor_byte_at(lanes, off as int, delim), rate - 1, 0x80)
}

/// Squeeze `n` bytes starting at byte `pos` of the current block, permuting
/// each time a rate-sized block is exhausted before more output is needed.
pub open spec fn spec_squeeze(lanes: Seq<u64>, pos: nat, rate: nat, n: nat) -> Seq<u8>
    recommends
        lanes.len() == 25,
        0 < rate <= 200,
        pos <= rate,
    decreases n,
{
    if n == 0 {
        Seq::empty()
    } else {
        let l2 = if pos == rate {
            spec_keccakf(lanes)
        } else {
            lanes
        };
        let p2: nat = if pos == rate {
            0
        } else {
            pos
        };
        seq![byte_at(l2, p2 as int)] + spec_squeeze(l2, (p2 + 1) as nat, rate, (n - 1) as nat)
    }
}

/// The sponge as a whole: absorb the message into the zero state, pad,
/// permute once, then squeeze `outlen` bytes.
pub open spec fn spec_keccak_hash(rate: nat, delim: u8, msg: Seq<u8>, outlen: nat) -> Seq<u8>
    recommends
        0 < rate <= 200,
{
    let st = spec_absorb(zero_state(), 0, rate, msg);
    let padded = spec_pad(st.0, st.1, rate, delim);
    spec_squeeze(spec_keccakf(padded), 0, rate, outlen)
}

/// Streaming equivalence: absorbing the concatenation of two inputs is the
/// same as absorbing the first and then the second. Feeding a message to
/// the driver in any sequence of chunks therefore leaves it in the same
/// state as feeding it whole.
pub proof fn lemma_absorb_append(lanes: Seq<u64>, off: nat, rate: nat, xs: Seq<u8>, ys: Seq<u8>)
    ensures
        spec_absorb(lanes, off, rate, xs + ys) == ({
            let mid = spec_absorb(lanes, off, rate, xs);
            spec_absorb(mid.0, mid.1, rate, ys)
        }),
    decreases xs.len(),
{
    if xs.len() == 0 {
        assert(xs + ys =~= ys);
    } else {
        let st = spec_absorb_byte(lanes, off, rate, xs[0]);
        assert((xs + ys).drop_first() =~= xs.drop_first() + ys);
        lemma_absorb_append(st.0, st.1, rate, xs.drop_first(), ys);
    }
}

/// Squeezing `n` bytes yields exactly `n` bytes.
pub proof fn lemma_squeeze_len(lanes: Seq<u64>, pos: nat, rate: nat, n: nat)
    ensures
        spec_squeeze(lanes, pos, rate, n).len() == n,
    decreases n,
{
    if n == 0 {
    } else {
        let l2 = if pos == rate {
            spec_keccakf(lanes)
        } else {
            lanes
        };
        let p2: nat = if pos == rate {
            0
        } else {
            pos
        };
        lemma_squeeze_len(l2, (p2 + 1) as nat, rate, (n - 1) as nat);
    }
}

/// Extendable-output prefix property: squeezing `n` bytes yields exactly
/// the first `n` bytes of squeezing any `m >= n` bytes from the same state.
pub proof fn lemma_squeeze_prefix(lanes: Seq<u64>, pos: nat, rate: nat, n: nat, m: nat)
    requires
        n <= m,
    ensures
        spec_squeeze(lanes, pos, rate, n) == spec_squeeze(lanes, pos, rate, m).take(n as int),
    decreases n,
{
    lemma_squeeze_len(lanes, pos, rate, m);
    if n == 0 {
        assert(spec_squeeze(lanes, pos, rate, 0) =~= spec_squeeze(lanes, pos, rate, m).take(0));
    } else {
        let l2 = if pos == rate {
            spec_keccakf(lanes)
        } else {
            lanes
        };
        let p2: nat = if pos == rate {
            0
        } else {
            pos
        };
        let b = byte_at(l2, p2 as int);
        let sn = spec_squeeze(l2, (p2 + 1) as nat, rate, (n - 1) as nat);
        let sm = spec_squeeze(l2, (p2 + 1) as nat, rate, (m - 1) as nat);
        lemma_squeeze_len(l2, (p2 + 1) as nat, rate, (m - 1) as nat);
        lemma_squeeze_prefix(l2, (p2 + 1) as nat, rate, (n - 1) as nat, (m - 1) as nat);
        assert(spec_squeeze(lanes, pos, rate, n) == seq![b] + sn);
        assert(spec_squeeze(lanes, pos, rate, m) == seq![b] + sm);
        assert((seq![b] + sm).take(n as int) =~= seq![b] + sm.take(n - 1));
    }
}

/// Extendable-output prefix property at the digest level: for one message
/// and parameter set, a shorter digest is a prefix of any longer one.
pub proof fn lemma_hash_prefix(rate: nat, delim: u8, msg: Seq<u8>, n: nat, m: nat)
    requires
        n <= m,
    ensures
        spec_keccak_hash(rate, delim, msg, n) == spec_keccak_hash(rate, delim, msg, m).take(
            n as int,
        ),
{
    let st = spec_absorb(zero_state(), 0, rate, msg);
    let padded = spec_pad(st.0, st.1, rate, delim);
    lemma_squeeze_prefix(spec_keccakf(padded), 0, rate, n, m);
}

/// A sponge driver for one Keccak/SHA-3/SHAKE variant.
///
/// It holds the 25-lane state, the byte offset into the current block, the
/// rate in bytes and the domain-separation delimiter, plus the ghost
/// history of all absorbed bytes that the contracts speak of.
pub struct Keccak {
    pub a: [u64; 25],
    pub offset: usize,
    pub rate: usize,
    pub delim: u8,
    pub absorbed: Ghost<Seq<u8>>,
}

impl Clone for Keccak {
    /// Duplicate the driver, state and bookkeeping included, so a hash
    /// computation can be branched (for instance to take a prefix digest
    /// while continuing to extend the original).
    fn clone(&self) -> (r: Self)
        ensures
            r == *self,
    {
        Keccak {
            a: self.a,
            offset: self.offset,
            rate: self.rate,
            delim: self.delim,
            absorbed: self.absorbed,
        }
    }
}

impl Keccak {
    /// Well-formedness: the rate is a valid block size, the offset lies
    /// inside the current block, and the concrete state is exactly the one
    /// reached by absorbing the ghost history into the zero state.
    pub open spec fn wf(&self) -> bool {
        &&& 0 < self.rate <= 200
        &&& self.offset < self.rate
        &&& (self.a@, self.offset as nat) == spec_absorb(
            zero_state(),
            0,
            self.rate as nat,
            self.absorbed@,
        )
    }

    fn new(rate: usize, delim: u8) -> (k: Keccak)
        requires
            0 < rate <= 200,
        ensures
            k.wf(),
            k.rate == rate,
            k.delim == delim,
            k.absorbed@ == Seq::<u8>::empty(),
    {
        let k = Keccak {
            a: [0u64; 25],
            offset: 0,
            rate: rate,
            delim: delim,
            absorbed: Ghost(Seq::empty()),
        };
        proof {
            assert(k.a@ =~= zero_state());
        }
        k
    }

    /// SHAKE128: rate 168 (capacity 256 bits), delimiter 0x1f.
    pub fn new_shake128() -> (k: Keccak)
        ensures
            k.wf(),
            k.rate == 168,
            k.delim == 0x1f,
            k.absorbed@ == Seq::<u8>::empty(),
    {
        Keccak::new(168, 0x1f)
    }

    /// SHAKE256: rate 136 (capacity 512 bits), delimiter 0x1f.
    pub fn new_shake256() -> (k: Keccak)
        ensures
            k.wf(),
            k.rate == 136,
            k.delim == 0x1f,
            k.absorbed@ == Seq::<u8>::empty(),
    {
        Keccak::new(136, 0x1f)
    }

    /// Legacy Keccak-224: rate 144, delimiter 0x01.
    pub fn new_keccak224() -> (k: Keccak)
        ensures
            k.wf(),
            k.rate == 144,
            k.delim == 0x01,
            k.absorbed@ == Seq::<u8>::empty(),
    {
        Keccak::new(144, 0x01)
    }

    /// Legacy Keccak-256: rate 136, delimiter 0x01.
    pub fn new_keccak256() -> (k: Keccak)
        ensures
            k.wf(),
            k.rate == 136,
            k.delim == 0x01,
            k.absorbed@ == Seq::<u8>::empty(),
    {
        Keccak::new(136, 0x01)
    }

    /// Legacy Keccak-384: rate 104, delimiter 0x01.
    pub fn new_keccak384() -> (k: Keccak)
        ensures
            k.wf(),
            k.rate == 104,
            k.delim == 0x01,
            k.absorbed@ == Seq::<u8>::empty(),
    {
        Keccak::new(104, 0x01)
    }

    /// Legacy Keccak-512: rate 72, delimiter 0x01.
    pub fn new_keccak512() -> (k: Keccak)
        ensures
            k.wf(),
            k.rate == 72,
            k.delim == 0x01,
            k.absorbed@ == Seq::<u8>::empty(),
    {
        Keccak::new(72, 0x01)
    }

    /// SHA3-224: rate 144, delimiter 0x06.
    pub fn new_sha3_224() -> (k: Keccak)
        ensures
            k.wf(),
            k.rate == 144,
            k.delim == 0x06,
            k.absorbed@ == Seq::<u8>::empty(),
    {
        Keccak::new(144, 0x06)
    }

    /// SHA3-256: rate 136, delimiter 0x06.
    pub fn new_sha3_256() -> (k: Keccak)
        ensures
            k.wf(),
            k.rate == 136,
            k.delim == 0x06,
            k.absorbed@ == Seq::<u8>::empty(),
    {
        Keccak::new(136, 0x06)
    }

    /// SHA3-384: rate 104, delimiter 0x06.
    pub fn new_sha3_384() -> (k: Keccak)
        ensures
            k.wf(),
            k.rate == 104,
            k.delim == 0x06,
            k.absorbed@ == Seq::<u8>::empty(),
    {
        Keccak::new(104, 0x06)
    }

    /// SHA3-512: rate 72, delimiter 0x06.
    pub fn new_sha3_512() -> (k: Keccak)
        ensures
            k.wf(),
            k.rate == 72,
            k.delim == 0x06,
            k.absorbed@ == Seq::<u8>::empty(),
    {
        Keccak::new(72, 0x06)
    }

    /// Absorb a chunk of input: XOR it byte by byte into the state,
    /// permuting every time a rate-sized block fills up.
    fn absorb(&mut self, input: &[u8])
        requires
            old(self).wf(),
        ensures
            final(self).wf(),
            final(self).rate == old(self).rate,
            final(self).delim == old(self).delim,
            final(self).absorbed@ == old(self).absorbed@ + input@,
    {
        let ghost pre = *self;
        let n: usize = input.len();
        let mut i: usize = 0;
        while i < n
            invariant
                i <= n,
                n == input@.len(),
                self.rate == pre.rate,
                self.delim == pre.delim,
                self.absorbed == pre.absorbed,
                0 < self.rate <= 200,
                self.offset < self.rate,
                (self.a@, self.offset as nat) == spec_absorb(
                    pre.a@,
                    pre.offset as nat,
                    pre.rate as nat,
                    input@.take(i as int),
                ),
            decreases n - i,
        {
            let ghost mid_a = self.a@;
            let ghost mid_off = self.offset as nat;
            let b: u8 = input[i];
            let idx: usize = self.offset / 8;
            let sh: u64 = ((self.offset % 8) * 8) as u64;
            self.a[idx] = self.a[idx] ^ ((b as u64) << sh);
            proof {
                assert(self.a@ =~= xor_byte_at(mid_a, mid_off as int, b));
            }
            if self.offset + 1 == self.rate {
                keccakf(&mut self.a);
                self.offset = 0;
            } else {
                self.offset = self.offset + 1;
            }
            proof {
                assert((self.a@, self.offset as nat) == spec_absorb_byte(
                    mid_a,
                    mid_off,
                    pre.rate as nat,
                    b,
                ));
                assert(input@.take(i + 1) =~= input@.take(i as int) + seq![b]);
                lemma_absorb_append(
                    pre.a@,
                    pre.offset as nat,
                    pre.rate as nat,
                    input@.take(i as int),
                    seq![b],
                );
                let st1 = spec_absorb_byte(mid_a, mid_off, pre.rate as nat, b);
                assert(seq![b][0] == b);
                assert(seq![b].drop_first() =~= Seq::<u8>::empty());
                assert(spec_absorb(st1.0, st1.1, pre.rate as nat, Seq::<u8>::empty()) == (
                    st1.0,
                    st1.1,
                ));
                assert(spec_absorb(mid_a, mid_off, pre.rate as nat, seq![b]) == (
                    self.a@,
                    self.offset as nat,
                ));
            }
            i = i + 1;
        }
        proof {
            assert(input@.take(n as int) =~= input@);
            lemma_absorb_append(
                zero_state(),
                0,
                pre.rate as nat,
                pre.absorbed@,
                input@,
            );
            self.absorbed = Ghost(pre.absorbed@ + input@);
        }
    }

    /// Feed more message bytes to the driver; callable any number of times
    /// before `finalize`, with chunks of any size including empty.
    pub fn update(&mut self, input: &[u8])
        requires
            old(self).wf(),
        ensures
            final(self).wf(),
            final(self).rate == old(self).rate,
            final(self).delim == old(self).delim,
            final(self).absorbed@ == old(self).absorbed@ + input@,
    {
        self.absorb(input);
    }

    /// Apply multi-rate padding: XOR the delimiter at the current offset
    /// and 0x80 into the last byte of the block.
    fn pad(&mut self)
        requires
            0 < old(self).rate <= 200,
            old(self).offset < old(self).rate,
        ensures
            final(self).a@ == spec_pad(
                old(self).a@,
                old(self).offset as nat,
                old(self).rate as nat,
                old(self).delim,
            ),
            final(self).offset == old(self).offset,
            final(self).rate == old(self).rate,
            final(self).delim == old(self).delim,
            final(self).absorbed == old(self).absorbed,
    {
        let ghost pre = *self;
        let idx: usize = self.offset / 8;
        let sh: u64 = ((self.offset % 8) * 8) as u64;
        self.a[idx] = self.a[idx] ^ ((self.delim as u64) << sh);
        proof {
            assert(self.a@ =~= xor_byte_at(pre.a@, pre.offset as int, pre.delim));
        }
        let ghost mid_a = self.a@;
        let last: usize = self.rate - 1;
        let idx2: usize = last / 8;
        let sh2: u64 = ((last % 8) * 8) as u64;
        self.a[idx2] = self.a[idx2] ^ (0x80u64 << sh2);
        proof {
            assert(self.a@ =~= xor_byte_at(mid_a, pre.rate - 1, 0x80));
        }
    }

    /// Copy bytes of the state's serialization into `output`, overwriting
    /// all of it and permuting between rate-sized output blocks.
    fn squeeze(&mut self, output: &mut Vec<u8>)
        requires
            0 < old(self).rate <= 200,
        ensures
            final(output)@.len() == old(output)@.len(),
            final(output)@ == spec_squeeze(
                old(self).a@,
                0,
                old(self).rate as nat,
                old(output)@.len(),
            ),
    {
        let ghost pre = *self;
        let ghost total = output@.len();
        let ghost full = spec_squeeze(pre.a@, 0, pre.rate as nat, total);
        proof {
            lemma_squeeze_len(pre.a@, 0, pre.rate as nat, total);
        }
        let n: usize = output.len();
        let mut pos: usize = 0;
        let mut i: usize = 0;
        while i < n
            invariant
                i <= n,
                n == total,
                self.rate == pre.rate,
                0 < self.rate <= 200,
                pos <= self.rate,
                output@.len() == total,
                full.len() == total,
                forall|j: int| 0 <= j < i ==> output@[j] == full[j],
                spec_squeeze(self.a@, pos as nat, self.rate as nat, (n - i) as nat) == full.skip(
                    i as int,
                ),
            decreases n - i,
        {
            if pos == self.rate {
                let ghost before = self.a@;
                keccakf(&mut self.a);
                pos = 0;
                proof {
                    assert(spec_squeeze(before, pre.rate as nat, pre.rate as nat, (n - i) as nat)
                        == spec_squeeze(self.a@, 0, pre.rate as nat, (n - i) as nat));
                }
            }
            let ghost cur = self.a@;
            let ghost cpos = pos as nat;
            let idx: usize = pos / 8;
            let sh: u64 = ((pos % 8) * 8) as u64;
            let b: u8 = ((self.a[idx] >> sh) & 0xff) as u8;
            proof {
                assert(b == byte_at(cur, cpos as int));
                assert(full.skip(i as int) == seq![byte_at(cur, cpos as int)] + spec_squeeze(
                    cur,
                    (cpos + 1) as nat,
                    pre.rate as nat,
                    (n - i - 1) as nat,
                ));
                assert(full[i as int] == full.skip(i as int)[0]);
                assert(full.skip(i as int).drop_first() =~= full.skip(i + 1));
            }
            output.set(i, b);
            pos = pos + 1;
            i = i + 1;
        }
        proof {
            assert(output@ =~= full);
        }
    }

    /// Consume the driver: pad, permute once, then squeeze exactly
    /// `output.len()` bytes. The digest is the sponge of the concatenation
    /// of everything passed to `update`, so any way of chunking the same
    /// message yields the same digest.
    pub fn finalize(self, output: &mut Vec<u8>)
        requires
            self.wf(),
        ensures
            final(output)@.len() == old(output)@.len(),
            final(output)@ == spec_keccak_hash(
                self.rate as nat,
                self.delim,
                self.absorbed@,
                old(output)@.len(),
            ),
    {
        let mut k = self;
        k.pad();
        keccakf(&mut k.a);
        k.squeeze(output);
    }
}

} // verus!
