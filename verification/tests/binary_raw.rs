use ctrlmsg::binary_raw::{
    issue_take_from_bytes, issue_to_vec, message_take_from_bytes, message_to_vec, ISSUE_MAX_SIZE,
    MESSAGE_MAX_SIZE,
};
use ctrlmsg::message::{Issue, Message};
use ctrlmsg::wire::DecodeError;

#[test]
fn postcard_u8_wire_issue() {
    let issue_in = Issue::timeout().union(Issue::wrong_crc());
    let serialized = issue_to_vec(issue_in).expect("can't serialize");
    let (issue_out, extra) =
        issue_take_from_bytes(serialized.as_slice()).expect("can't deserialize");
    assert_eq!(issue_in, issue_out);
    assert_eq!(extra.len(), 0);
}

#[test]
fn postcard_u8_wire_message() {
    let message_in = Message::Stop;
    let serialized = message_to_vec(message_in).expect("can't serialize");
    let (message_out, extra) =
        message_take_from_bytes(serialized.as_slice()).expect("can't deserialize");
    assert_eq!(message_in, message_out);
    assert_eq!(extra.len(), 0);
}

#[test]
fn issue_with_both_flags_encodes_to_two_bytes() {
    let m = Message::Issue(Issue::wrong_crc().union(Issue::timeout()));
    let buf = message_to_vec(m).expect("can't serialize");
    assert_eq!(buf.len(), 2);
    assert_eq!(buf.byte_at(0), 2);
    assert_eq!(buf.byte_at(1), 0x03);
}

#[test]
fn stop_encodes_to_one_byte_and_leftovers_come_back() {
    let buf = message_to_vec(Message::Stop).expect("can't serialize");
    assert_eq!(buf.len(), 1);
    assert_eq!(buf.byte_at(0), 1);
    let (out, extra) = message_take_from_bytes(&[1, 9, 9]).expect("can't deserialize");
    assert_eq!(out, Message::Stop);
    assert_eq!(extra, &[9, 9]);
}

#[test]
fn empty_buffer_is_truncated() {
    assert_eq!(message_take_from_bytes(&[]), Err(DecodeError::Truncated));
    assert_eq!(issue_take_from_bytes(&[]), Err(DecodeError::Truncated));
}

#[test]
fn lone_issue_discriminant_is_truncated() {
    assert_eq!(message_take_from_bytes(&[2]), Err(DecodeError::Truncated));
}

#[test]
fn raw_unknown_discriminant_is_rejected() {
    assert_eq!(
        message_take_from_bytes(&[3]),
        Err(DecodeError::UnknownDiscriminant)
    );
    assert_eq!(
        message_take_from_bytes(&[255, 0, 0]),
        Err(DecodeError::UnknownDiscriminant)
    );
}

#[test]
fn raw_round_trip_every_flag_byte() {
    let mut b: u16 = 0;
    while b <= 255 {
        let m = Message::Issue(Issue::from_bits_retain(b as u8));
        let buf = message_to_vec(m).expect("can't serialize");
        let (out, extra) = message_take_from_bytes(buf.as_slice()).expect("can't deserialize");
        assert_eq!(out, m);
        assert_eq!(extra.len(), 0);
        b += 1;
    }
}

#[test]
fn raw_round_trip_unit_variants() {
    for m in [Message::Start, Message::Stop] {
        let buf = message_to_vec(m).expect("can't serialize");
        let (out, extra) = message_take_from_bytes(buf.as_slice()).expect("can't deserialize");
        assert_eq!(out, m);
        assert_eq!(extra.len(), 0);
    }
}

#[test]
fn raw_size_bound_holds_for_every_message() {
    assert_eq!(MESSAGE_MAX_SIZE, 2);
    assert_eq!(ISSUE_MAX_SIZE, 1);
    let mut b: u16 = 0;
    while b <= 255 {
        let m = Message::Issue(Issue::from_bits_retain(b as u8));
        let buf = message_to_vec(m).expect("can't serialize");
        assert!(buf.len() <= 2);
        assert!(buf.len() <= MESSAGE_MAX_SIZE);
        b += 1;
    }
    assert!(message_to_vec(Message::Start).expect("can't serialize").len() <= 2);
    assert!(message_to_vec(Message::Stop).expect("can't serialize").len() <= 2);
}

#[test]
fn decoding_consumes_exactly_the_encoding() {
    let mut b: u16 = 0;
    while b <= 255 {
        let m = Message::Issue(Issue::from_bits_retain(b as u8));
        let buf = message_to_vec(m).expect("can't serialize");
        let mut bytes = Vec::new();
        for i in 0..buf.len() {
            bytes.push(buf.byte_at(i));
        }
        bytes.push(0xEE);
        let (out, extra) = message_take_from_bytes(&bytes).expect("can't deserialize");
        assert_eq!(out, m);
        assert_eq!(extra, &[0xEE]);
        b += 1;
    }
}
