use ctrlmsg::message::{Issue, Message, NAMED_BITS, TIMEOUT_BIT, WRONG_CRC_BIT};

#[test]
fn every_byte_is_retained() {
    let mut b: u16 = 0;
    while b <= 255 {
        assert_eq!(Issue::from_bits_retain(b as u8).bits(), b as u8);
        b += 1;
    }
    assert_eq!(Issue::from_bits_retain(0b1000_0000).bits(), 0b1000_0000);
}

#[test]
fn named_bit_values() {
    assert_eq!(WRONG_CRC_BIT, 0b0000_0001);
    assert_eq!(TIMEOUT_BIT, 0b0000_0010);
    assert_eq!(NAMED_BITS, WRONG_CRC_BIT | TIMEOUT_BIT);
    assert_eq!(Issue::wrong_crc().bits(), WRONG_CRC_BIT);
    assert_eq!(Issue::timeout().bits(), TIMEOUT_BIT);
    assert_eq!(Issue::empty().bits(), 0);
}

#[test]
fn union_is_bitwise_or() {
    let both = Issue::wrong_crc().union(Issue::timeout());
    assert_eq!(both.bits(), 0x03);
    assert_eq!(both, Issue::timeout().union(Issue::wrong_crc()));
    assert_eq!(both.union(both), both);
    assert_eq!(both.union(Issue::empty()), both);
}

#[test]
fn contains_tests_membership() {
    let both = Issue::wrong_crc().union(Issue::timeout());
    assert!(both.contains(Issue::wrong_crc()));
    assert!(both.contains(Issue::timeout()));
    assert!(!Issue::wrong_crc().contains(Issue::timeout()));
    assert!(both.contains(Issue::empty()));
}

#[test]
fn checked_construction_rejects_unknown_bits() {
    assert_eq!(Issue::from_bits_checked(0x03), Some(Issue::wrong_crc().union(Issue::timeout())));
    assert_eq!(Issue::from_bits_checked(0), Some(Issue::empty()));
    assert_eq!(Issue::from_bits_checked(0x04), None);
    assert_eq!(Issue::from_bits_checked(0x80), None);
    assert_eq!(Issue::from_bits_checked(0x83), None);
}

#[test]
fn messages_compare_by_shape_and_payload() {
    assert_eq!(Message::Start, Message::Start);
    assert_ne!(Message::Start, Message::Stop);
    assert_ne!(
        Message::Issue(Issue::wrong_crc()),
        Message::Issue(Issue::timeout())
    );
    assert_eq!(
        Message::Issue(Issue::from_bits_retain(5)),
        Message::Issue(Issue::from_bits_retain(5))
    );
}
