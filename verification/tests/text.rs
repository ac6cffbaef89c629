use ctrlmsg::message::{Issue, Message};
use ctrlmsg::text::{issue_from_str, issue_to_string, message_from_str, message_to_string};
use ctrlmsg::wire::DecodeError;

#[test]
fn json_wire_issue() {
    let issue_in = Issue::timeout().union(Issue::wrong_crc());
    let serialied = issue_to_string(issue_in).expect("can't serialize");
    let issue_out = issue_from_str(&serialied).expect("can't deserialize");
    assert_eq!(issue_in, issue_out);
}

#[test]
fn json_wire_message() {
    let message_in = Message::Stop;
    let serialied = message_to_string(message_in).expect("can't serialize");
    let message_out = message_from_str(&serialied).expect("can't deserialize");
    assert_eq!(message_in, message_out);
}

#[test]
fn text_forms_are_self_describing() {
    assert_eq!(
        message_to_string(Message::Start).expect("can't serialize"),
        "\"Start\""
    );
    assert_eq!(
        message_to_string(Message::Stop).expect("can't serialize"),
        "\"Stop\""
    );
    let m = Message::Issue(Issue::wrong_crc().union(Issue::timeout()));
    assert_eq!(
        message_to_string(m).expect("can't serialize"),
        "{\"Issue\":\"WRONG_CRC | TIMEOUT\"}"
    );
    assert_eq!(
        issue_to_string(Issue::empty()).expect("can't serialize"),
        "\"\""
    );
    assert_eq!(
        issue_to_string(Issue::timeout()).expect("can't serialize"),
        "\"TIMEOUT\""
    );
    assert_eq!(
        issue_to_string(Issue::from_bits_retain(0x81)).expect("can't serialize"),
        "\"WRONG_CRC | 0x80\""
    );
}

#[test]
fn stop_round_trips_through_text() {
    let s = message_to_string(Message::Stop).expect("can't serialize");
    assert_eq!(message_from_str(&s).expect("can't deserialize"), Message::Stop);
}

#[test]
fn text_round_trip_every_flag_byte() {
    let mut b: u16 = 0;
    while b <= 255 {
        let f = Issue::from_bits_retain(b as u8);
        let s = issue_to_string(f).expect("can't serialize");
        assert_eq!(issue_from_str(&s).expect("can't deserialize"), f);
        let m = Message::Issue(f);
        let t = message_to_string(m).expect("can't serialize");
        assert_eq!(message_from_str(&t).expect("can't deserialize"), m);
        b += 1;
    }
}

#[test]
fn hex_digits_decode_in_either_case() {
    let upper = issue_from_str("\"0xAB\"").expect("can't deserialize");
    let lower = issue_from_str("\"0xab\"").expect("can't deserialize");
    assert_eq!(upper, lower);
    assert_eq!(upper.bits(), 0xAB);
}

#[test]
fn terms_decode_in_any_order() {
    let f = issue_from_str("\"TIMEOUT | WRONG_CRC\"").expect("can't deserialize");
    assert_eq!(f.bits(), 0x03);
}

#[test]
fn unknown_variant_name_is_rejected() {
    assert_eq!(message_from_str("\"Begin\""), Err(DecodeError::Malformed));
    assert_eq!(message_from_str("\"start\""), Err(DecodeError::Malformed));
}

#[test]
fn malformed_text_is_rejected() {
    assert_eq!(message_from_str(""), Err(DecodeError::Malformed));
    assert_eq!(message_from_str("\"Stop\" "), Err(DecodeError::Malformed));
    assert_eq!(message_from_str("{\"Issue\":\"\""), Err(DecodeError::Malformed));
    assert_eq!(message_from_str("{\"Issue\":3}"), Err(DecodeError::Malformed));
    assert_eq!(issue_from_str("\"WRONG_CRC |\""), Err(DecodeError::Malformed));
    assert_eq!(issue_from_str("\"WRONG_CRCified\""), Err(DecodeError::Malformed));
    assert_eq!(issue_from_str("\"0x8\""), Err(DecodeError::Malformed));
    assert_eq!(issue_from_str("\"0xZZ\""), Err(DecodeError::Malformed));
    assert_eq!(issue_from_str("TIMEOUT"), Err(DecodeError::Malformed));
}
