use ctrlmsg::binary_structured::{
    issue_take_from_bytes, issue_to_vec, message_take_from_bytes, message_to_vec, ISSUE_MAX_SIZE,
    MESSAGE_MAX_SIZE,
};
use ctrlmsg::message::{Issue, Message};
use ctrlmsg::wire::DecodeError;

#[test]
fn postcard_wire_issue() {
    let issue_in = Issue::timeout().union(Issue::wrong_crc());
    let serialized = issue_to_vec(issue_in).expect("can't serialize");
    let (issue_out, extra) =
        issue_take_from_bytes(serialized.as_slice()).expect("can't deserialize");
    assert_eq!(issue_in, issue_out);
    assert_eq!(extra.len(), 0);
}

#[test]
fn postcard_wire_message() {
    let message_in = Message::Stop;
    let serialized = message_to_vec(message_in).expect("can't serialize");
    let (message_out, extra) =
        message_take_from_bytes(serialized.as_slice()).expect("can't deserialize");
    assert_eq!(message_in, message_out);
    assert_eq!(extra.len(), 0);
}

#[test]
fn flag_set_encodes_as_count_and_positions() {
    let buf = issue_to_vec(Issue::wrong_crc().union(Issue::timeout())).expect("can't serialize");
    assert_eq!(buf.len(), 3);
    assert_eq!(buf.byte_at(0), 2);
    assert_eq!(buf.byte_at(1), 0);
    assert_eq!(buf.byte_at(2), 1);
    let buf = issue_to_vec(Issue::empty()).expect("can't serialize");
    assert_eq!(buf.len(), 1);
    assert_eq!(buf.byte_at(0), 0);
}

#[test]
fn unknown_bits_are_retained() {
    let f = Issue::from_bits_retain(0b1000_0001);
    let buf = issue_to_vec(f).expect("can't serialize");
    assert_eq!(buf.len(), 3);
    assert_eq!(buf.byte_at(0), 2);
    assert_eq!(buf.byte_at(1), 0);
    assert_eq!(buf.byte_at(2), 7);
    let (out, extra) = issue_take_from_bytes(buf.as_slice()).expect("can't deserialize");
    assert_eq!(out, f);
    assert_eq!(extra.len(), 0);
}

#[test]
fn positions_decode_in_any_order() {
    let (out, extra) = issue_take_from_bytes(&[2, 1, 0]).expect("can't deserialize");
    assert_eq!(out.bits(), 0x03);
    assert_eq!(extra.len(), 0);
}

#[test]
fn position_above_seven_is_malformed() {
    assert_eq!(
        message_take_from_bytes(&[2, 1, 9]),
        Err(DecodeError::Malformed)
    );
    assert_eq!(issue_take_from_bytes(&[1, 8]), Err(DecodeError::Malformed));
}

#[test]
fn short_position_list_is_truncated() {
    assert_eq!(message_take_from_bytes(&[]), Err(DecodeError::Truncated));
    assert_eq!(message_take_from_bytes(&[2]), Err(DecodeError::Truncated));
    assert_eq!(message_take_from_bytes(&[2, 2, 0]), Err(DecodeError::Truncated));
}

#[test]
fn structured_unknown_discriminant_is_rejected() {
    assert_eq!(
        message_take_from_bytes(&[4, 0]),
        Err(DecodeError::UnknownDiscriminant)
    );
}

#[test]
fn structured_round_trip_every_flag_byte() {
    let mut b: u16 = 0;
    while b <= 255 {
        let m = Message::Issue(Issue::from_bits_retain(b as u8));
        let buf = message_to_vec(m).expect("can't serialize");
        let (out, extra) = message_take_from_bytes(buf.as_slice()).expect("can't deserialize");
        assert_eq!(out, m);
        assert_eq!(extra.len(), 0);
        b += 1;
    }
}

#[test]
fn round_trip_unit_variants_with_leftovers() {
    for m in [Message::Start, Message::Stop] {
        let buf = message_to_vec(m).expect("can't serialize");
        let mut bytes = Vec::new();
        for i in 0..buf.len() {
            bytes.push(buf.byte_at(i));
        }
        bytes.push(7);
        bytes.push(7);
        let (out, extra) = message_take_from_bytes(&bytes).expect("can't deserialize");
        assert_eq!(out, m);
        assert_eq!(extra, &[7, 7]);
    }
}

#[test]
fn structured_size_bound_holds_for_every_message() {
    assert_eq!(MESSAGE_MAX_SIZE, 10);
    assert_eq!(ISSUE_MAX_SIZE, 9);
    let mut b: u16 = 0;
    while b <= 255 {
        let m = Message::Issue(Issue::from_bits_retain(b as u8));
        let buf = message_to_vec(m).expect("can't serialize");
        assert!(buf.len() <= MESSAGE_MAX_SIZE);
        b += 1;
    }
    let buf = message_to_vec(Message::Issue(Issue::from_bits_retain(0xFF)))
        .expect("can't serialize");
    assert_eq!(buf.len(), 10);
}
