use tx_filter::value::{from_u256, U256};
use tx_filter::Filter;

fn plain(v: ethers::types::U256) -> U256 {
    U256::from_limbs(v.0)
}

fn shortest(v: ethers::types::U256) -> Vec<u8> {
    let mut bytes = [0u8; 32];
    v.to_big_endian(&mut bytes);
    let zeros = bytes.iter().take_while(|b| **b == 0).count();
    bytes[zeros..].to_vec()
}

#[test]
fn zero_has_no_bytes() {
    assert_eq!(from_u256(U256::from(0)), Vec::<u8>::new());
    let mut f = Filter::new();
    f.value(U256::from(0));
    assert_eq!(f.root().unwrap().operand.as_ref().unwrap().value, Vec::<u8>::new());
}

#[test]
fn two_hundred_fifty_six_has_two_bytes() {
    assert_eq!(from_u256(U256::from(256)), vec![0x01, 0x00]);
    let mut f = Filter::new();
    f.value(U256::from(256));
    assert_eq!(f.root().unwrap().operand.as_ref().unwrap().value, vec![0x01, 0x00]);
}

#[test]
fn two_hundred_fifty_five_has_one_byte() {
    assert_eq!(from_u256(U256::from(255)), vec![0xff]);
    let mut f = Filter::new();
    f.value(U256::from(255));
    assert_eq!(f.root().unwrap().operand.as_ref().unwrap().value, vec![0xff]);
}

#[test]
fn odd_number_of_digits_is_padded() {
    assert_eq!(from_u256(U256::from(0x1)), vec![0x01]);
    assert_eq!(from_u256(U256::from(0xf)), vec![0x0f]);
    assert_eq!(from_u256(U256::from(0x123)), vec![0x01, 0x23]);
    assert_eq!(from_u256(U256::from(0xabcde)), vec![0x0a, 0xbc, 0xde]);
}

#[test]
fn even_number_of_digits_is_kept() {
    assert_eq!(from_u256(U256::from(0x10)), vec![0x10]);
    assert_eq!(from_u256(U256::from(10000)), vec![0x27, 0x10]);
    assert_eq!(from_u256(U256::from(0xdeadbeef)), vec![0xde, 0xad, 0xbe, 0xef]);
    assert_eq!(from_u256(U256::from(u64::MAX)), vec![0xff; 8]);
}

#[test]
fn words_count_from_the_least_significant() {
    assert_eq!(from_u256(U256::from_limbs([0, 1, 0, 0])), vec![1, 0, 0, 0, 0, 0, 0, 0, 0]);
    assert_eq!(from_u256(U256::from_limbs([2, 0, 0, 0x0100])).len(), 26);
    assert_eq!(from_u256(U256::from_limbs([u64::MAX; 4])), vec![0xff; 32]);
    let bytes = from_u256(U256::from_limbs([0x0807060504030201, 0, 0x11, 0]));
    assert_eq!(
        bytes,
        vec![0x11, 0, 0, 0, 0, 0, 0, 0, 0, 0x08, 0x07, 0x06, 0x05, 0x04, 0x03, 0x02, 0x01]
    );
}

#[test]
fn from_a_word_fills_the_lowest_word() {
    assert_eq!(U256::from(10000).limbs, [10000, 0, 0, 0]);
    assert_eq!(U256::from(u64::MAX).limbs, [u64::MAX, 0, 0, 0]);
    assert!(U256::from(0).is_zero());
    assert!(!U256::from(1).is_zero());
    assert!(!U256::from_limbs([0, 0, 0, 1]).is_zero());
}

#[test]
fn bytes_agree_with_the_big_endian_form() {
    let samples = [
        ethers::types::U256::zero(),
        ethers::types::U256::one(),
        ethers::types::U256::from(255u64),
        ethers::types::U256::from(256u64),
        ethers::types::U256::from(10000u64),
        ethers::types::U256::from(u64::MAX),
        ethers::types::U256::from(u128::MAX),
        ethers::types::U256::from(u128::MAX) + ethers::types::U256::one(),
        ethers::types::U256::MAX,
        ethers::types::U256::from_dec_str("1000000000000000000000000000").unwrap(),
    ];
    for v in samples {
        assert_eq!(from_u256(plain(v)), shortest(v));
    }
}

#[test]
fn bytes_never_start_with_zero() {
    let mut word: u64 = 1;
    for _ in 0..64 {
        for limbs in [[word, 0, 0, 0], [0, word, 0, 0], [1, 0, word, 0], [0, 0, 0, word]] {
            let bytes = from_u256(U256::from_limbs(limbs));
            assert!(bytes[0] != 0);
            let mut back = ethers::types::U256::zero();
            for b in &bytes {
                back = back * 256 + ethers::types::U256::from(*b);
            }
            assert_eq!(back, ethers::types::U256(limbs));
        }
        word = word.rotate_left(1);
    }
}
