//! The Keccak-f[1600] permutation: 24 rounds of theta, rho, pi, chi and
//! iota on a state of 25 lanes of 64 bits, indexed by `x + 5*y`.
//!
//! `spec_keccakf` is the mathematical model; the executable `keccakf` is
//! proved to compute exactly that model, which makes the permutation a
//! deterministic function of its input state.

use vstd::prelude::*;

verus! {

/// Left rotation of a 64-bit lane; bits shifted past bit 63 wrap to bit 0.
pub open spec fn rotl64(x: u64, n: u64) -> u64
    recommends
        n < 64,
{
    if n == 0 {
        x
    } else {
        (x << n) | (x >> ((64 - n) as u64))
    }
}

/// Executable left rotation, proved equal to `rotl64`.
pub fn rotl(x: u64, n: u64) -> (r: u64)
    requires
        n < 64,
    ensures
        r == rotl64(x, n),
{
    if n == 0 {
        x
    } else {
        (x << n) | (x >> (64 - n))
    }
}

/// Parity of column `x`: the XOR of the five lanes in that column.
pub open spec fn theta_c(s: Seq<u64>, x: int) -> u64
    recommends
        s.len() == 25,
        0 <= x < 5,
{
    s[x] ^ s[x + 5] ^ s[x + 10] ^ s[x + 15] ^ s[x + 20]
}

/// The value theta XORs into every lane of column `x`.
pub open spec fn theta_d(s: Seq<u64>, x: int) -> u64
    recommends
        s.len() == 25,
        0 <= x < 5,
{
    theta_c(s, (x + 4) % 5) ^ rotl64(theta_c(s, (x + 1) % 5), 1)
}

/// Theta: diffuse each column's parity across the state.
pub open spec fn spec_theta(s: Seq<u64>) -> Seq<u64>
    recommends
        s.len() == 25,
{
    Seq::new(25, |i: int| s[i] ^ theta_d(s, i % 5))
}

/// The source position that rho-pi moves into position `i`: the lane at
/// `(x, y)` comes from `((x + 3*y) % 5, x)`.
pub open spec fn pi_src(i: int) -> int
    recommends
        0 <= i < 25,
{
    (i % 5 + 3 * (i / 5)) % 5 + 5 * (i % 5)
}

/// The canonical per-lane rotation offsets, by linear lane index.
pub open spec fn rho_off(j: int) -> u64
    recommends
        0 <= j < 25,
{
    if j == 0 {
        0
    } else if j == 1 {
        1
    } else if j == 2 {
        62
    } else if j == 3 {
        28
    } else if j == 4 {
        27
    } else if j == 5 {
        36
    } else if j == 6 {
        44
    } else if j == 7 {
        6
    } else if j == 8 {
        55
    } else if j == 9 {
        20
    } else if j == 10 {
        3
    } else if j == 11 {
        10
    } else if j == 12 {
        43
    } else if j == 13 {
        25
    } else if j == 14 {
        39
    } else if j == 15 {
        41
    } else if j == 16 {
        45
    } else if j == 17 {
        15
    } else if j == 18 {
        21
    } else if j == 19 {
        8
    } else if j == 20 {
        18
    } else if j == 21 {
        2
    } else if j == 22 {
        61
    } else if j == 23 {
        56
    } else {
        14
    }
}

/// Rho and pi fused: every lane is rotated by its source lane's offset and
/// moved to its new position (lane 0 keeps offset 0 and stays in place).
pub open spec fn spec_rho_pi(s: Seq<u64>) -> Seq<u64>
    recommends
        s.len() == 25,
{
    Seq::new(25, |i: int| rotl64(s[pi_src(i)], rho_off(pi_src(i))))
}

/// Chi: the only non-linear step, applied row by row.
pub open spec fn spec_chi(s: Seq<u64>) -> Seq<u64>
    recommends
        s.len() == 25,
{
    Seq::new(
        25,
        |i: int| s[i] ^ ((!s[5 * (i / 5) + (i % 5 + 1) % 5]) & s[5 * (i / 5) + (i % 5 + 2) % 5]),
    )
}

/// The 24 canonical round constants.
pub open spec fn rc_val(r: int) -> u64
    recommends
        0 <= r < 24,
{
    if r == 0 {
        0x1
    } else if r == 1 {
        0x8082
    } else if r == 2 {
        0x800000000000808a
    } else if r == 3 {
        0x8000000080008000
    } else if r == 4 {
        0x808b
    } else if r == 5 {
        0x80000001
    } else if r == 6 {
        0x8000000080008081
    } else if r == 7 {
        0x8000000000008009
    } else if r == 8 {
        0x8a
    } else if r == 9 {
        0x88
    } else if r == 10 {
        0x80008009
    } else if r == 11 {
        0x8000000a
    } else if r == 12 {
        0x8000808b
    } else if r == 13 {
        0x800000000000008b
    } else if r == 14 {
        0x8000000000008089
    } else if r == 15 {
        0x8000000000008003
    } else if r == 16 {
        0x8000000000008002
    } else if r == 17 {
        0x8000000000000080
    } else if r == 18 {
        0x800a
    } else if r == 19 {
        0x800000008000000a
    } else if r == 20 {
        0x8000000080008081
    } else if r == 21 {
        0x8000000000008080
    } else if r == 22 {
        0x80000001
    } else {
        0x8000000080008008
    }
}

/// Iota: XOR the round constant of round `r` into lane 0 only.
pub open spec fn spec_iota(s: Seq<u64>, r: int) -> Seq<u64>
    recommends
        s.len() == 25,
        0 <= r < 24,
{
    s.update(0, s[0] ^ rc_val(r))
}

/// One full round: theta, then rho-pi, then chi, then iota.
pub open spec fn spec_round(s: Seq<u64>, r: int) -> Seq<u64>
    recommends
        s.len() == 25,
        0 <= r < 24,
{
    spec_iota(spec_chi(spec_rho_pi(spec_theta(s))), r)
}

/// The state after the first `n` rounds.
pub open spec fn spec_rounds(s: Seq<u64>, n: nat) -> Seq<u64>
    recommends
        s.len() == 25,
        n <= 24,
    decreases n,
{
    if n == 0 {
        s
    } else {
        spec_round(spec_rounds(s, (n - 1) as nat), n - 1)
    }
}

/// The full Keccak-f[1600] permutation: exactly 24 rounds.
pub open spec fn spec_keccakf(s: Seq<u64>) -> Seq<u64>
    recommends
        s.len() == 25,
{
    spec_rounds(s, 24)
}

fn theta_step(a: &[u64; 25]) -> (out: [u64; 25])
    ensures
        out@ == spec_theta(a@),
{
    let mut c = [0u64; 5];
    let mut x: usize = 0;
    while x < 5
        invariant
            x <= 5,
            forall|j: int| 0 <= j < x ==> c@[j] == theta_c(a@, j),
        decreases 5 - x,
    {
        c[x] = a[x] ^ a[x + 5] ^ a[x + 10] ^ a[x + 15] ^ a[x + 20];
        x += 1;
    }
    let mut out = [0u64; 25];
    let mut i: usize = 0;
    while i < 25
        invariant
            i <= 25,
            forall|j: int| 0 <= j < 5 ==> c@[j] == theta_c(a@, j),
            forall|j: int| 0 <= j < i ==> out@[j] == spec_theta(a@)[j],
        decreases 25 - i,
    {
        let x: usize = i % 5;
        let d: u64 = c[(x + 4) % 5] ^ rotl(c[(x + 1) % 5], 1);
        out[i] = a[i] ^ d;
        i += 1;
    }
    proof {
        assert(out@ =~= spec_theta(a@));
    }
    out
}

fn pi_source(i: usize) -> (s: usize)
    requires
        i < 25,
    ensures
        s == pi_src(i as int),
        s < 25,
{
    (i % 5 + 3 * (i / 5)) % 5 + 5 * (i % 5)
}

fn rho_offset(j: usize) -> (n: u64)
    requires
        j < 25,
    ensures
        n == rho_off(j as int),
        n < 64,
{
    if j == 0 {
        0
    } else if j == 1 {
        1
    } else if j == 2 {
        62
    } else if j == 3 {
        28
    } else if j == 4 {
        27
    } else if j == 5 {
        36
    } else if j == 6 {
        44
    } else if j == 7 {
        6
    } else if j == 8 {
        55
    } else if j == 9 {
        20
    } else if j == 10 {
        3
    } else if j == 11 {
        10
    } else if j == 12 {
        43
    } else if j == 13 {
        25
    } else if j == 14 {
        39
    } else if j == 15 {
        41
    } else if j == 16 {
        45
    } else if j == 17 {
        15
    } else if j == 18 {
        21
    } else if j == 19 {
        8
    } else if j == 20 {
        18
    } else if j == 21 {
        2
    } else if j == 22 {
        61
    } else if j == 23 {
        56
    } else {
        14
    }
}

fn rho_pi_step(a: &[u64; 25]) -> (out: [u64; 25])
    ensures
        out@ == spec_rho_pi(a@),
{
    let mut out = [0u64; 25];
    let mut i: usize = 0;
    while i < 25
        invariant
            i <= 25,
            forall|j: int| 0 <= j < i ==> out@[j] == spec_rho_pi(a@)[j],
        decreases 25 - i,
    {
        let s: usize = pi_source(i);
        let n: u64 = rho_offset(s);
        out[i] = rotl(a[s], n);
        i += 1;
    }
    proof {
        assert(out@ =~= spec_rho_pi(a@));
    }
    out
}

fn chi_step(a: &[u64; 25]) -> (out: [u64; 25])
    ensures
        out@ == spec_chi(a@),
{
    let mut out = [0u64; 25];
    let mut i: usize = 0;
    while i < 25
        invariant
            i <= 25,
            forall|j: int| 0 <= j < i ==> out@[j] == spec_chi(a@)[j],
        decreases 25 - i,
    {
        let x: usize = i % 5;
        let base: usize = i - x;
        out[i] = a[i] ^ ((!a[base + (x + 1) % 5]) & a[base + (x + 2) % 5]);
        i += 1;
    }
    proof {
        assert(out@ =~= spec_chi(a@));
    }
    out
}

fn round_constant(r: usize) -> (c: u64)
    requires
        r < 24,
    ensures
        c == rc_val(r as int),
{
    if r == 0 {
        0x1
    } else if r == 1 {
        0x8082
    } else if r == 2 {
        0x800000000000808a
    } else if r == 3 {
        0x8000000080008000
    } else if r == 4 {
        0x808b
    } else if r == 5 {
        0x80000001
    } else if r == 6 {
        0x8000000080008081
    } else if r == 7 {
        0x8000000000008009
    } else if r == 8 {
        0x8a
    } else if r == 9 {
        0x88
    } else if r == 10 {
        0x80008009
    } else if r == 11 {
        0x8000000a
    } else if r == 12 {
        0x8000808b
    } else if r == 13 {
        0x800000000000008b
    } else if r == 14 {
        0x8000000000008089
    } else if r == 15 {
        0x8000000000008003
    } else if r == 16 {
        0x8000000000008002
    } else if r == 17 {
        0x8000000000000080
    } else if r == 18 {
        0x800a
    } else if r == 19 {
        0x800000008000000a
    } else if r == 20 {
        0x8000000080008081
    } else if r == 21 {
        0x8000000000008080
    } else if r == 22 {
        0x80000001
    } else {
        0x8000000080008008
    }
}

fn round_step(a: &[u64; 25], r: usize) -> (out: [u64; 25])
    requires
        r < 24,
    ensures
        out@ == spec_round(a@, r as int),
{
    let t = theta_step(a);
    let rp = rho_pi_step(&t);
    let mut out = chi_step(&rp);
    out[0] = out[0] ^ round_constant(r);
    proof {
        assert(out@ =~= spec_round(a@, r as int));
    }
    out
}

/// Apply the Keccak-f[1600] permutation in place: exactly 24 rounds, a
/// total, deterministic function of the input state with no other effect.
pub fn keccakf(a: &mut [u64; 25])
    ensures
        final(a)@ == spec_keccakf(old(a)@),
{
    let ghost s0 = a@;
    let mut r: usize = 0;
    while r < 24
        invariant
            r <= 24,
            a@ == spec_rounds(s0, r as nat),
        decreases 24 - r,
    {
        let next = round_step(a, r);
        *a = next;
        r += 1;
    }
}

} // verus!
