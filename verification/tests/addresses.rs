use anchor_lang::prelude::Pubkey;
use token_swap_escrow::address::{escrow_address, nonce_bytes, rederive_address};
use token_swap_escrow::identity::Identity;

fn id(byte: u8) -> Identity {
    Identity::new([byte; 32])
}

#[test]
fn nonce_bytes_are_little_endian() {
    assert_eq!(nonce_bytes(0), vec![0u8; 8]);
    assert_eq!(nonce_bytes(1), vec![1u8, 0, 0, 0, 0, 0, 0, 0]);
    assert_eq!(nonce_bytes(0x0102_0304_0506_0708), vec![8u8, 7, 6, 5, 4, 3, 2, 1]);
    assert_eq!(nonce_bytes(u64::MAX), vec![255u8; 8]);
    assert_eq!(nonce_bytes(256), vec![0u8, 1, 0, 0, 0, 0, 0, 0]);
}

#[test]
fn nonce_bytes_agree_with_std() {
    for nonce in [0u64, 7, 255, 256, 65_535, 1 << 40, u64::MAX - 1] {
        assert_eq!(nonce_bytes(nonce), nonce.to_le_bytes().to_vec());
    }
}

#[test]
fn identity_same_compares_bytes() {
    let a = id(3);
    let mut other = [3u8; 32];
    assert!(a.same(&Identity::new(other)));
    other[31] = 4;
    assert!(!a.same(&Identity::new(other)));
    assert_eq!(a.to_vec(), vec![3u8; 32]);
}

#[test]
fn escrow_address_is_the_program_derived_address() {
    let program = id(9);
    let maker = id(1);
    let seed: u64 = 42;
    let tag: &[u8] = b"escrow";
    let maker_bytes = [1u8; 32];
    let seed_bytes = seed.to_le_bytes();
    let expected = Pubkey::find_program_address(
        &[tag, &maker_bytes[..], &seed_bytes[..]],
        &Pubkey::new_from_array([9u8; 32]),
    );
    let (address, proof) = escrow_address(&program, &maker, seed).expect("an address");
    assert_eq!(address.bytes, expected.0.to_bytes());
    assert_eq!(proof, expected.1);
    assert_ne!(address.bytes, program.bytes);
    assert_ne!(address.bytes, maker.bytes);
}

#[test]
fn rederiving_gives_the_derived_address() {
    let program = id(9);
    let maker = id(1);
    for seed in [0u64, 1, 42, u64::MAX] {
        let (address, proof) = escrow_address(&program, &maker, seed).expect("an address");
        assert_eq!(rederive_address(&program, &maker, seed, proof), Some(address));
    }
}

#[test]
fn rederiving_is_create_program_address() {
    let program = id(9);
    let maker = id(1);
    let seed: u64 = 5;
    let tag: &[u8] = b"escrow";
    let maker_bytes = [1u8; 32];
    let seed_bytes = seed.to_le_bytes();
    for proof in [0u8, 1, 100, 254, 255] {
        let proof_bytes = [proof];
        let expected = Pubkey::create_program_address(
            &[tag, &maker_bytes[..], &seed_bytes[..], &proof_bytes[..]],
            &Pubkey::new_from_array([9u8; 32]),
        )
        .ok()
        .map(|key| Identity::new(key.to_bytes()));
        assert_eq!(rederive_address(&program, &maker, seed, proof), expected);
    }
}

#[test]
fn rederiving_with_another_proof_gives_another_address() {
    let program = id(9);
    let maker = id(1);
    let (address, proof) = escrow_address(&program, &maker, 11).expect("an address");
    let other = proof.wrapping_sub(1);
    assert_ne!(rederive_address(&program, &maker, 11, other), Some(address));
}

#[test]
fn addresses_differ_by_maker_seed_and_program() {
    let (base, _) = escrow_address(&id(9), &id(1), 1).expect("an address");
    let (other_seed, _) = escrow_address(&id(9), &id(1), 2).expect("an address");
    let (other_maker, _) = escrow_address(&id(9), &id(2), 1).expect("an address");
    let (other_program, _) = escrow_address(&id(8), &id(1), 1).expect("an address");
    assert_ne!(base, other_seed);
    assert_ne!(base, other_maker);
    assert_ne!(base, other_program);
}
