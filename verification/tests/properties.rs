use tiny_keccak::keccakf;
use tiny_keccak::Keccak;

fn shake128_digest(data: &[u8], len: usize) -> Vec<u8> {
    let mut shake = Keccak::new_shake128();
    shake.update(data);
    let mut res: Vec<u8> = vec![0; len];
    shake.finalize(&mut res);
    res
}

fn shake256_digest(data: &[u8], len: usize) -> Vec<u8> {
    let mut shake = Keccak::new_shake256();
    shake.update(data);
    let mut res: Vec<u8> = vec![0; len];
    shake.finalize(&mut res);
    res
}

#[test]
fn shake128_output_is_prefix_closed() {
    let data = b"The quick brown fox jumps over the lazy dog";
    let short = shake128_digest(data, 32);
    let long = shake128_digest(data, 64);
    assert_eq!(short, long[..32].to_vec());
}

#[test]
fn shake128_prefix_across_block_boundary() {
    // SHAKE128 has a rate of 168 bytes; an output of 200 bytes spans two
    // blocks, and an output of exactly one rate must still be its prefix.
    let data = b"prefix across the squeeze boundary";
    let one_block = shake128_digest(data, 168);
    let long = shake128_digest(data, 200);
    assert_eq!(one_block, long[..168].to_vec());
}

#[test]
fn shake256_output_is_prefix_closed() {
    let data = b"extendable output";
    let short = shake256_digest(data, 17);
    let long = shake256_digest(data, 136);
    assert_eq!(short, long[..17].to_vec());
}

#[test]
fn permutation_is_deterministic_and_not_identity() {
    let mut first = [0u64; 25];
    let mut second = [0u64; 25];
    keccakf(&mut first);
    keccakf(&mut second);
    // Deterministic: the same input state gives the same output state.
    assert_eq!(first, second);
    // Not the identity on the zero state.
    assert_ne!(first, [0u64; 25]);
    // Not idempotent either: a second application moves the state again.
    keccakf(&mut second);
    assert_ne!(first, second);
}

#[test]
fn sha3_256_differs_from_keccak256() {
    // Same rate, different delimiter byte: the digests must differ.
    let data = b"hello";

    let mut sha3 = Keccak::new_sha3_256();
    sha3.update(data);
    let mut sha3_res: Vec<u8> = vec![0; 32];
    sha3.finalize(&mut sha3_res);

    let mut keccak = Keccak::new_keccak256();
    keccak.update(data);
    let mut keccak_res: Vec<u8> = vec![0; 32];
    keccak.finalize(&mut keccak_res);

    assert_ne!(sha3_res, keccak_res);
}

#[test]
fn streaming_across_exact_block_boundary() {
    // 136 bytes is exactly one SHA3-256 rate block: splitting right at the
    // boundary must give the same digest as one call with the whole input.
    let data: Vec<u8> = vec![0x61; 200];

    let mut whole = Keccak::new_sha3_256();
    whole.update(&data);
    let mut whole_res: Vec<u8> = vec![0; 32];
    whole.finalize(&mut whole_res);

    let mut parts = Keccak::new_sha3_256();
    parts.update(&data[..136]);
    parts.update(&data[136..]);
    let mut parts_res: Vec<u8> = vec![0; 32];
    parts.finalize(&mut parts_res);

    assert_eq!(whole_res, parts_res);
}

#[test]
fn empty_update_changes_nothing() {
    let mut plain = Keccak::new_sha3_256();
    plain.update(b"data");
    let mut plain_res: Vec<u8> = vec![0; 32];
    plain.finalize(&mut plain_res);

    let mut padded = Keccak::new_sha3_256();
    padded.update(&[]);
    padded.update(b"data");
    padded.update(&[]);
    let mut padded_res: Vec<u8> = vec![0; 32];
    padded.finalize(&mut padded_res);

    assert_eq!(plain_res, padded_res);
}

#[test]
fn cloned_driver_branches_independently() {
    let mut base = Keccak::new_sha3_256();
    base.update(b"shared prefix");

    let branch = base.clone();
    let mut branch_res: Vec<u8> = vec![0; 32];
    branch.finalize(&mut branch_res);

    base.update(b" and more");
    let mut base_res: Vec<u8> = vec![0; 32];
    base.finalize(&mut base_res);

    let mut reference = Keccak::new_sha3_256();
    reference.update(b"shared prefix");
    let mut reference_res: Vec<u8> = vec![0; 32];
    reference.finalize(&mut reference_res);

    assert_eq!(branch_res, reference_res);
    assert_ne!(base_res, reference_res);
}

#[test]
fn all_variants_are_deterministic_and_distinct() {
    let data = b"variant check";
    let mut digests: Vec<Vec<u8>> = Vec::new();
    let constructors: Vec<(fn() -> Keccak, usize)> = vec![
        (Keccak::new_keccak224 as fn() -> Keccak, 28),
        (Keccak::new_keccak256 as fn() -> Keccak, 32),
        (Keccak::new_keccak384 as fn() -> Keccak, 48),
        (Keccak::new_keccak512 as fn() -> Keccak, 64),
        (Keccak::new_sha3_224 as fn() -> Keccak, 28),
        (Keccak::new_sha3_256 as fn() -> Keccak, 32),
        (Keccak::new_sha3_384 as fn() -> Keccak, 48),
        (Keccak::new_sha3_512 as fn() -> Keccak, 64),
    ];
    for (make, len) in constructors.iter() {
        let mut once = make();
        once.update(data);
        let mut once_res: Vec<u8> = vec![0; *len];
        once.finalize(&mut once_res);

        let mut again = make();
        again.update(data);
        let mut again_res: Vec<u8> = vec![0; *len];
        again.finalize(&mut again_res);

        assert_eq!(once_res, again_res);
        digests.push(once_res);
    }
    for i in 0..digests.len() {
        for j in 0..i {
            // No two variants agree, not even on a common prefix length.
            let n = digests[i].len().min(digests[j].len());
            assert_ne!(digests[i][..n], digests[j][..n]);
        }
    }
}
