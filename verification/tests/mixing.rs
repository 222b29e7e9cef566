use xxhash64::mixing::{
    fold_u32, fold_u64, fold_u8, ingest_one_number, intermix, mix_one, rotate_left, PRIME_1,
    PRIME_2, PRIME_3, PRIME_4, PRIME_5,
};

#[test]
fn the_five_primes() {
    assert_eq!(PRIME_1, 11400714785074694791);
    assert_eq!(PRIME_2, 14029467366897019727);
    assert_eq!(PRIME_3, 1609587929392839161);
    assert_eq!(PRIME_4, 9650029242287828579);
    assert_eq!(PRIME_5, 2870177450012600261);
}

#[test]
fn rotation_carries_the_top_bits_round() {
    assert_eq!(rotate_left(1, 1), 2);
    assert_eq!(rotate_left(0x8000000000000001, 1), 3);
    assert_eq!(rotate_left(1, 31), 0x80000000);
    assert_eq!(rotate_left(1, 63), 0x8000000000000000);
    assert_eq!(rotate_left(0xF000000000000000, 4), 0xF);
    assert_eq!(rotate_left(0x0123456789ABCDEF, 0), 0x0123456789ABCDEF);
    assert_eq!(rotate_left(0x0123456789ABCDEF, 64), 0x0123456789ABCDEF);
    assert_eq!(rotate_left(1, 65), 2);
    for r in 0..200u32 {
        assert_eq!(rotate_left(0x0123456789ABCDEF, r), 0x0123456789ABCDEFu64.rotate_left(r));
    }
}

#[test]
fn one_accumulator_step() {
    assert_eq!(ingest_one_number(0, 0), 0);
    assert_eq!(ingest_one_number(0, 1), 0x7F0E345BE3649CD2);
    assert_eq!(ingest_one_number(5, 7), 0xF24155494F6F73DA);
}

#[test]
fn one_lane_merged() {
    assert_eq!(mix_one(0, 0), PRIME_4);
    assert_eq!(mix_one(0, 1), 0x9D049A611F451521);
    assert_eq!(mix_one(3, 9), 0xE1A539452C24B58D);
}

#[test]
fn one_u64_folded() {
    assert_eq!(fold_u64(0, 0), PRIME_4);
    assert_eq!(fold_u64(0, 1), 0x652E3BED4E166ED1);
    assert_eq!(fold_u64(3, 9), 0x907ADC7FF42B75A3);
}

#[test]
fn one_u32_folded() {
    assert_eq!(fold_u32(0, 0), PRIME_3);
    assert_eq!(fold_u32(0, 1), 0x2F55D73945469CFD);
    assert_eq!(fold_u32(3, 0xFFFFFFFF), 0xE2A6C7902F5A8451);
}

#[test]
fn one_byte_folded() {
    assert_eq!(fold_u8(0, 0), 0);
    assert_eq!(fold_u8(0, 1), 0xEC604F06A43CABB2);
    assert_eq!(fold_u8(3, 255), 0x3C2EA0F4F58329D8);
}

#[test]
fn final_intermixing() {
    assert_eq!(intermix(0), 0);
    assert_eq!(intermix(1), 0x283A72A5B9AB93D3);
}
