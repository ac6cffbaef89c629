//! The text codec.
//!
//! A message is written as a self-describing textual form: the quoted
//! variant name `"Start"` or `"Stop"`, or the tagged object
//! `{"Issue":"..."}` whose inner string names the flag set's members.
//! The flag string is empty for the empty set; otherwise it lists the
//! named flags that are present (`WRONG_CRC`, then `TIMEOUT`) and, if
//! any unnamed bit is set, one hexadecimal term `0x` followed by two
//! digits holding those bits; terms are joined by `" | "`. A decoder
//! accepts terms in any order, hexadecimal digits in either case, and
//! reports any text outside this grammar as malformed.

use vstd::prelude::*;
use vstd::string::*;

use crate::message::{Issue, Message, NAMED_BITS, TIMEOUT_BIT, WRONG_CRC_BIT};
use crate::wire::{DecodeError, EncodeError};

verus! {

/// The value of a hexadecimal digit, upper or lower case, and 16 for
/// any character that is not one.
pub open spec fn spec_hex_val(c: char) -> u8 {
    if c == '0' {
        0u8
    } else if c == '1' {
        1u8
    } else if c == '2' {
        2u8
    } else if c == '3' {
        3u8
    } else if c == '4' {
        4u8
    } else if c == '5' {
        5u8
    } else if c == '6' {
        6u8
    } else if c == '7' {
        7u8
    } else if c == '8' {
        8u8
    } else if c == '9' {
        9u8
    } else if c == 'a' || c == 'A' {
        10u8
    } else if c == 'b' || c == 'B' {
        11u8
    } else if c == 'c' || c == 'C' {
        12u8
    } else if c == 'd' || c == 'D' {
        13u8
    } else if c == 'e' || c == 'E' {
        14u8
    } else if c == 'f' || c == 'F' {
        15u8
    } else {
        16u8
    }
}

/// Whether `c` is a hexadecimal digit.
pub open spec fn spec_is_hex(c: char) -> bool {
    spec_hex_val(c) < 16
}

/// The upper-case digit for a value below 16.
pub open spec fn spec_hex_digit(n: u8) -> char {
    if n == 0 {
        '0'
    } else if n == 1 {
        '1'
    } else if n == 2 {
        '2'
    } else if n == 3 {
        '3'
    } else if n == 4 {
        '4'
    } else if n == 5 {
        '5'
    } else if n == 6 {
        '6'
    } else if n == 7 {
        '7'
    } else if n == 8 {
        '8'
    } else if n == 9 {
        '9'
    } else if n == 10 {
        'A'
    } else if n == 11 {
        'B'
    } else if n == 12 {
        'C'
    } else if n == 13 {
        'D'
    } else if n == 14 {
        'E'
    } else {
        'F'
    }
}

/// Writing a digit and reading it back is the identity below 16.
pub proof fn lemma_hex_digit_inverse(n: u8)
    requires
        n < 16,
    ensures
        spec_hex_val(spec_hex_digit(n)) == n,
{
}

/// The name of the checksum-mismatch flag.
pub open spec fn spec_wrong_crc_name() -> Seq<char> {
    seq!['W', 'R', 'O', 'N', 'G', '_', 'C', 'R', 'C']
}

/// The name of the timeout flag.
pub open spec fn spec_timeout_name() -> Seq<char> {
    seq!['T', 'I', 'M', 'E', 'O', 'U', 'T']
}

/// The separator between two terms of a flag string.
pub open spec fn spec_sep() -> Seq<char> {
    seq![' ', '|', ' ']
}

/// The hexadecimal term carrying the unnamed bits `r`.
pub open spec fn spec_hex_term(r: u8) -> Seq<char> {
    seq!['0', 'x', spec_hex_digit(r >> 4), spec_hex_digit(r & 0x0F)]
}

/// The canonical flag string of a flag byte: named flags first, then
/// one hexadecimal term for whatever unnamed bits are set.
pub open spec fn spec_flags_text(b: u8) -> Seq<char> {
    let w = b & WRONG_CRC_BIT != 0;
    let t = b & TIMEOUT_BIT != 0;
    let r = b & !NAMED_BITS;
    if w && t && r != 0 {
        spec_wrong_crc_name() + spec_sep() + spec_timeout_name() + spec_sep() + spec_hex_term(r)
    } else if w && t {
        spec_wrong_crc_name() + spec_sep() + spec_timeout_name()
    } else if w && r != 0 {
        spec_wrong_crc_name() + spec_sep() + spec_hex_term(r)
    } else if t && r != 0 {
        spec_timeout_name() + spec_sep() + spec_hex_term(r)
    } else if w {
        spec_wrong_crc_name()
    } else if t {
        spec_timeout_name()
    } else if r != 0 {
        spec_hex_term(r)
    } else {
        Seq::empty()
    }
}

/// The text of a flag set: its flag string in quotes.
pub open spec fn spec_issue_text(f: Issue) -> Seq<char> {
    seq!['"'] + spec_flags_text(f.bits) + seq!['"']
}

/// The opening of the tagged object naming the `Issue` variant.
pub open spec fn spec_issue_tag() -> Seq<char> {
    seq!['{', '"', 'I', 's', 's', 'u', 'e', '"', ':']
}

/// The text of a message.
pub open spec fn spec_message_text(m: Message) -> Seq<char> {
    match m {
        Message::Start => seq!['"', 'S', 't', 'a', 'r', 't', '"'],
        Message::Stop => seq!['"', 'S', 't', 'o', 'p', '"'],
        Message::Issue(f) => spec_issue_tag() + spec_issue_text(f) + seq!['}'],
    }
}

/// Whether `s` starts with the checksum-mismatch flag's name.
pub open spec fn spec_wrong_crc_at(s: Seq<char>) -> bool {
    s.len() >= 9 && s[0] == 'W' && s[1] == 'R' && s[2] == 'O' && s[3] == 'N' && s[4] == 'G'
        && s[5] == '_' && s[6] == 'C' && s[7] == 'R' && s[8] == 'C'
}

/// Whether `s` starts with the timeout flag's name.
pub open spec fn spec_timeout_at(s: Seq<char>) -> bool {
    s.len() >= 7 && s[0] == 'T' && s[1] == 'I' && s[2] == 'M' && s[3] == 'E' && s[4] == 'O'
        && s[5] == 'U' && s[6] == 'T'
}

/// Whether `s` starts with a two-digit hexadecimal term.
pub open spec fn spec_hex_at(s: Seq<char>) -> bool {
    s.len() >= 4 && s[0] == '0' && s[1] == 'x' && spec_is_hex(s[2]) && spec_is_hex(s[3])
}

/// The value of the hexadecimal term at the front of `s`.
pub open spec fn spec_hex_pair(s: Seq<char>) -> u8 {
    (spec_hex_val(s[2]) * 16 + spec_hex_val(s[3])) as u8
}

/// Whether `s` starts with the term separator.
pub open spec fn spec_sep_at(s: Seq<char>) -> bool {
    s.len() >= 3 && s[0] == ' ' && s[1] == '|' && s[2] == ' '
}

/// What parsing a non-empty flag string yields: the union of its terms'
/// bits, or nothing if the text strays from the grammar.
pub open spec fn spec_terms_parse(s: Seq<char>) -> Option<u8>
    decreases s.len(),
{
    if spec_wrong_crc_at(s) {
        let rest = s.skip(9);
        if rest.len() == 0 {
            Some(WRONG_CRC_BIT)
        } else if spec_sep_at(rest) {
            match spec_terms_parse(rest.skip(3)) {
                Some(v) => Some(WRONG_CRC_BIT | v),
                None => None,
            }
        } else {
            None
        }
    } else if spec_timeout_at(s) {
        let rest = s.skip(7);
        if rest.len() == 0 {
            Some(TIMEOUT_BIT)
        } else if spec_sep_at(rest) {
            match spec_terms_parse(rest.skip(3)) {
                Some(v) => Some(TIMEOUT_BIT | v),
                None => None,
            }
        } else {
            None
        }
    } else if spec_hex_at(s) {
        let rest = s.skip(4);
        if rest.len() == 0 {
            Some(spec_hex_pair(s))
        } else if spec_sep_at(rest) {
            match spec_terms_parse(rest.skip(3)) {
                Some(v) => Some(spec_hex_pair(s) | v),
                None => None,
            }
        } else {
            None
        }
    } else {
        None
    }
}

/// What parsing a flag string yields: the empty string is the empty
/// set; anything else must be a list of terms.
pub open spec fn spec_flags_text_parse(s: Seq<char>) -> Option<u8> {
    if s.len() == 0 {
        Some(0u8)
    } else {
        spec_terms_parse(s)
    }
}

/// What parsing the text of a flag set yields: a quoted flag string.
pub open spec fn spec_issue_from_text(s: Seq<char>) -> Option<Issue> {
    if s.len() >= 2 && s[0] == '"' && s[s.len() - 1] == '"' {
        match spec_flags_text_parse(s.subrange(1, s.len() - 1)) {
            Some(b) => Some(Issue { bits: b }),
            None => None,
        }
    } else {
        None
    }
}

/// What parsing the text of a message yields.
pub open spec fn spec_message_from_text(s: Seq<char>) -> Option<Message> {
    if s.len() == 7 && s[0] == '"' && s[1] == 'S' && s[2] == 't' && s[3] == 'a' && s[4] == 'r'
        && s[5] == 't' && s[6] == '"' {
        Some(Message::Start)
    } else if s.len() == 6 && s[0] == '"' && s[1] == 'S' && s[2] == 't' && s[3] == 'o' && s[4]
        == 'p' && s[5] == '"' {
        Some(Message::Stop)
    } else if s.len() >= 10 && s[0] == '{' && s[1] == '"' && s[2] == 'I' && s[3] == 's' && s[4]
        == 's' && s[5] == 'u' && s[6] == 'e' && s[7] == '"' && s[8] == ':' && s[s.len() - 1]
        == '}' {
        match spec_issue_from_text(s.subrange(9, s.len() - 1)) {
            Some(f) => Some(Message::Issue(f)),
            None => None,
        }
    } else {
        None
    }
}

/// The one-character string of the upper-case digit for `n`.
fn hex_digit_str(n: u8) -> (r: &'static str)
    requires
        n < 16,
    ensures
        r@ == seq![spec_hex_digit(n)],
{
    proof {
        reveal_strlit("0");
        reveal_strlit("1");
        reveal_strlit("2");
        reveal_strlit("3");
        reveal_strlit("4");
        reveal_strlit("5");
        reveal_strlit("6");
        reveal_strlit("7");
        reveal_strlit("8");
        reveal_strlit("9");
        reveal_strlit("A");
        reveal_strlit("B");
        reveal_strlit("C");
        reveal_strlit("D");
        reveal_strlit("E");
        reveal_strlit("F");
    }
    let r: &'static str = if n == 0 {
        "0"
    } else if n == 1 {
        "1"
    } else if n == 2 {
        "2"
    } else if n == 3 {
        "3"
    } else if n == 4 {
        "4"
    } else if n == 5 {
        "5"
    } else if n == 6 {
        "6"
    } else if n == 7 {
        "7"
    } else if n == 8 {
        "8"
    } else if n == 9 {
        "9"
    } else if n == 10 {
        "A"
    } else if n == 11 {
        "B"
    } else if n == 12 {
        "C"
    } else if n == 13 {
        "D"
    } else if n == 14 {
        "E"
    } else {
        "F"
    };
    proof {
        assert(r@ =~= seq![spec_hex_digit(n)]);
    }
    r
}

/// Appends the hexadecimal term for the unnamed bits `r`.
fn append_hex_term(out: &mut String, r: u8)
    ensures
        final(out)@ == old(out)@ + spec_hex_term(r),
{
    let ghost at_entry = out@;
    out.append("0x");
    proof {
        reveal_strlit("0x");
        assert(r >> 4 < 16 && r & 0x0F < 16) by (bit_vector);
    }
    let hi = hex_digit_str(r >> 4);
    let lo = hex_digit_str(r & 0x0F);
    out.append(hi);
    out.append(lo);
    proof {
        assert(out@ =~= at_entry + spec_hex_term(r));
    }
}

/// Appends the canonical flag string of `b`.
fn append_flags_text(out: &mut String, b: u8)
    ensures
        final(out)@ == old(out)@ + spec_flags_text(b),
{
    let ghost at_entry = out@;
    let w = b & WRONG_CRC_BIT != 0;
    let t = b & TIMEOUT_BIT != 0;
    let r = b & !NAMED_BITS;
    proof {
        reveal_strlit("WRONG_CRC");
        reveal_strlit("TIMEOUT");
        reveal_strlit(" | ");
        assert(("WRONG_CRC")@ =~= spec_wrong_crc_name());
        assert(("TIMEOUT")@ =~= spec_timeout_name());
        assert((" | ")@ =~= spec_sep());
    }
    if w {
        out.append("WRONG_CRC");
    }
    if t {
        if w {
            out.append(" | ");
        }
        out.append("TIMEOUT");
    }
    if r != 0 {
        if w || t {
            out.append(" | ");
        }
        append_hex_term(out, r);
    }
    proof {
        assert(out@ =~= at_entry + spec_flags_text(b));
    }
}

/// Encodes a flag set as its quoted flag string. Always succeeds.
pub fn issue_to_string(f: Issue) -> (r: Result<String, EncodeError>)
    ensures
        r matches Ok(s) && s@ == spec_issue_text(f),
{
    let mut out = String::new();
    out.append("\"");
    append_flags_text(&mut out, f.bits());
    out.append("\"");
    proof {
        reveal_strlit("\"");
        assert(("\"")@ =~= seq!['"']);
        assert(out@ =~= spec_issue_text(f));
    }
    Ok(out)
}

/// Encodes a message as its textual form. Always succeeds for every
/// representable value.
pub fn message_to_string(m: Message) -> (r: Result<String, EncodeError>)
    ensures
        r matches Ok(s) && s@ == spec_message_text(m),
{
    match m {
        Message::Start => {
            let s = "\"Start\"".to_owned();
            proof {
                reveal_strlit("\"Start\"");
                assert(s@ =~= spec_message_text(m));
            }
            Ok(s)
        },
        Message::Stop => {
            let s = "\"Stop\"".to_owned();
            proof {
                reveal_strlit("\"Stop\"");
                assert(s@ =~= spec_message_text(m));
            }
            Ok(s)
        },
        Message::Issue(f) => {
            let mut out = String::new();
            out.append("{\"Issue\":\"");
            append_flags_text(&mut out, f.bits());
            out.append("\"}");
            proof {
                reveal_strlit("{\"Issue\":\"");
                reveal_strlit("\"}");
                assert(out@ =~= spec_message_text(m));
            }
            Ok(out)
        },
    }
}

/// The value of a hexadecimal digit, or 16 for any other character.
fn hex_digit_value(c: char) -> (r: u8)
    ensures
        r == spec_hex_val(c),
{
    if c == '0' {
        0
    } else if c == '1' {
        1
    } else if c == '2' {
        2
    } else if c == '3' {
        3
    } else if c == '4' {
        4
    } else if c == '5' {
        5
    } else if c == '6' {
        6
    } else if c == '7' {
        7
    } else if c == '8' {
        8
    } else if c == '9' {
        9
    } else if c == 'a' || c == 'A' {
        10
    } else if c == 'b' || c == 'B' {
        11
    } else if c == 'c' || c == 'C' {
        12
    } else if c == 'd' || c == 'D' {
        13
    } else if c == 'e' || c == 'E' {
        14
    } else if c == 'f' || c == 'F' {
        15
    } else {
        16
    }
}

/// Reads one term at position `i`: its bits and how many characters it
/// uses, or nothing if no term starts there.
fn term_at(s: &str, i: usize, n: usize) -> (r: Option<(u8, usize)>)
    requires
        n == s@.len(),
        i <= n,
    ensures
        spec_wrong_crc_at(s@.skip(i as int)) ==> r == Some((WRONG_CRC_BIT, 9usize)),
        !spec_wrong_crc_at(s@.skip(i as int)) && spec_timeout_at(s@.skip(i as int)) ==> r == Some(
            (TIMEOUT_BIT, 7usize),
        ),
        !spec_wrong_crc_at(s@.skip(i as int)) && !spec_timeout_at(s@.skip(i as int))
            && spec_hex_at(s@.skip(i as int)) ==> (r matches Some(q) && q.0 == spec_hex_pair(
            s@.skip(i as int),
        ) && q.1 == 4),
        !spec_wrong_crc_at(s@.skip(i as int)) && !spec_timeout_at(s@.skip(i as int))
            && !spec_hex_at(s@.skip(i as int)) ==> r is None,
{
    proof {
        assert(s@.skip(i as int).len() == n - i);
        assert forall|j: int| 0 <= j < n - i implies s@.skip(i as int)[j] == s@[i + j] by {}
    }
    if n - i >= 9 && s.get_char(i) == 'W' && s.get_char(i + 1) == 'R' && s.get_char(i + 2) == 'O'
        && s.get_char(i + 3) == 'N' && s.get_char(i + 4) == 'G' && s.get_char(i + 5) == '_'
        && s.get_char(i + 6) == 'C' && s.get_char(i + 7) == 'R' && s.get_char(i + 8) == 'C' {
        Some((WRONG_CRC_BIT, 9))
    } else if n - i >= 7 && s.get_char(i) == 'T' && s.get_char(i + 1) == 'I' && s.get_char(i + 2)
        == 'M' && s.get_char(i + 3) == 'E' && s.get_char(i + 4) == 'O' && s.get_char(i + 5) == 'U'
        && s.get_char(i + 6) == 'T' {
        Some((TIMEOUT_BIT, 7))
    } else if n - i >= 4 && s.get_char(i) == '0' && s.get_char(i + 1) == 'x' {
        let hv = hex_digit_value(s.get_char(i + 2));
        let lv = hex_digit_value(s.get_char(i + 3));
        if hv < 16 && lv < 16 {
            Some((hv * 16 + lv, 4))
        } else {
            None
        }
    } else {
        None
    }
}

/// Parses a whole flag string: the union of its terms' bits, or the
/// empty set for the empty string.
fn parse_flags_text(s: &str) -> (r: Result<u8, DecodeError>)
    ensures
        spec_flags_text_parse(s@) matches Some(b) ==> (r matches Ok(b2) && b2 == b),
        spec_flags_text_parse(s@) is None ==> (r matches Err(e) && e == DecodeError::Malformed),
{
    let n = s.unicode_len();
    if n == 0 {
        return Ok(0);
    }
    proof {
        assert(s@.skip(0) =~= s@);
        assert(forall|v: u8| #[trigger] (0u8 | v) == v) by (bit_vector);
    }
    let mut acc: u8 = 0;
    let mut i: usize = 0;
    loop
        invariant
            n == s@.len(),
            0 < n,
            i <= n,
            (match spec_terms_parse(s@.skip(i as int)) {
                Some(v) => spec_terms_parse(s@) == Some((acc | v)),
                None => spec_terms_parse(s@) is None,
            }),
        decreases n - i,
    {
        let ghost sub = s@.skip(i as int);
        proof {
            assert(sub.len() == n - i);
            assert forall|j: int| 0 <= j < n - i implies sub[j] == s@[i + j] by {}
        }
        match term_at(s, i, n) {
            None => {
                return Err(DecodeError::Malformed);
            },
            Some((v, used)) => {
                proof {
                    if spec_wrong_crc_at(sub) {
                        assert(sub.skip(9) =~= s@.skip(i + 9));
                    } else if spec_timeout_at(sub) {
                        assert(sub.skip(7) =~= s@.skip(i + 7));
                    } else if spec_hex_at(sub) {
                        assert(sub.skip(4) =~= s@.skip(i + 4));
                    } else {
                        assert(false);
                    }
                }
                let j = i + used;
                if j == n {
                    proof {
                        assert(s@.skip(j as int).len() == 0);
                    }
                    return Ok(acc | v);
                }
                if n - j >= 3 && s.get_char(j) == ' ' && s.get_char(j + 1) == '|' && s.get_char(
                    j + 2,
                ) == ' ' {
                    proof {
                        let rest = s@.skip(j as int);
                        assert(rest.len() == n - j);
                        assert forall|k: int| 0 <= k < n - j implies rest[k] == s@[j + k] by {}
                        assert(spec_sep_at(rest));
                        assert(rest.skip(3) =~= s@.skip(j + 3));
                        assert(forall|x: u8, y: u8, z: u8| #[trigger] (x | (y | z)) == ((x | y)
                            | z)) by (bit_vector);
                    }
                    acc = acc | v;
                    i = j + 3;
                } else {
                    proof {
                        let rest = s@.skip(j as int);
                        assert(rest.len() == n - j);
                        assert forall|k: int| 0 <= k < n - j implies rest[k] == s@[j + k] by {}
                    }
                    return Err(DecodeError::Malformed);
                }
            },
        }
    }
}

/// Decodes a flag set from its quoted flag string.
pub fn issue_from_str(value: &str) -> (r: Result<Issue, DecodeError>)
    ensures
        spec_issue_from_text(value@) matches Some(f) ==> (r matches Ok(f2) && f2 == f),
        spec_issue_from_text(value@) is None ==> (r matches Err(e) && e == DecodeError::Malformed),
{
    let n = value.unicode_len();
    if n < 2 {
        return Err(DecodeError::Malformed);
    }
    if value.get_char(0) != '"' || value.get_char(n - 1) != '"' {
        return Err(DecodeError::Malformed);
    }
    let inner = value.substring_char(1, n - 1);
    match parse_flags_text(inner) {
        Ok(b) => Ok(Issue::from_bits_retain(b)),
        Err(e) => Err(e),
    }
}

/// Decodes a message from its textual form. Any text outside the
/// grammar is reported as malformed; nothing is ever consumed
/// partially.
pub fn message_from_str(value: &str) -> (r: Result<Message, DecodeError>)
    ensures
        spec_message_from_text(value@) matches Some(m) ==> (r matches Ok(m2) && m2 == m),
        spec_message_from_text(value@) is None ==> (r matches Err(e) && e
            == DecodeError::Malformed),
{
    let n = value.unicode_len();
    if n == 7 && value.get_char(0) == '"' && value.get_char(1) == 'S' && value.get_char(2) == 't'
        && value.get_char(3) == 'a' && value.get_char(4) == 'r' && value.get_char(5) == 't'
        && value.get_char(6) == '"' {
        return Ok(Message::Start);
    }
    if n == 6 && value.get_char(0) == '"' && value.get_char(1) == 'S' && value.get_char(2) == 't'
        && value.get_char(3) == 'o' && value.get_char(4) == 'p' && value.get_char(5) == '"' {
        return Ok(Message::Stop);
    }
    if n >= 10 && value.get_char(0) == '{' && value.get_char(1) == '"' && value.get_char(2) == 'I'
        && value.get_char(3) == 's' && value.get_char(4) == 's' && value.get_char(5) == 'u'
        && value.get_char(6) == 'e' && value.get_char(7) == '"' && value.get_char(8) == ':'
        && value.get_char(n - 1) == '}' {
        let inner = value.substring_char(9, n - 1);
        match issue_from_str(inner) {
            Ok(f) => Ok(Message::Issue(f)),
            Err(e) => Err(e),
        }
    } else {
        Err(DecodeError::Malformed)
    }
}

/// Parsing the lone checksum-mismatch name yields its bit.
proof fn lemma_parse_wrong_crc_alone()
    ensures
        spec_terms_parse(spec_wrong_crc_name()) == Some(WRONG_CRC_BIT),
{
    let s = spec_wrong_crc_name();
    assert(spec_wrong_crc_at(s));
    assert(s.skip(9).len() == 0);
}

/// Parsing the lone timeout name yields its bit.
proof fn lemma_parse_timeout_alone()
    ensures
        spec_terms_parse(spec_timeout_name()) == Some(TIMEOUT_BIT),
{
    let s = spec_timeout_name();
    assert(!spec_wrong_crc_at(s));
    assert(spec_timeout_at(s));
    assert(s.skip(7).len() == 0);
}

/// Parsing a lone hexadecimal term yields its byte.
proof fn lemma_parse_hex_alone(r: u8)
    ensures
        spec_terms_parse(spec_hex_term(r)) == Some(r),
{
    let s = spec_hex_term(r);
    assert(r >> 4 < 16 && r & 0x0F < 16) by (bit_vector);
    lemma_hex_digit_inverse(r >> 4);
    lemma_hex_digit_inverse(r & 0x0F);
    assert(!spec_wrong_crc_at(s));
    assert(!spec_timeout_at(s));
    assert(spec_hex_at(s));
    assert(spec_hex_pair(s) == ((r >> 4) * 16 + (r & 0x0F)) as u8);
    assert(((r >> 4) * 16 + (r & 0x0F)) as u8 == r) by (bit_vector);
    assert(s.skip(4).len() == 0);
}

/// Prepending the checksum-mismatch name and a separator to a
/// parseable flag string ORs its bit in.
proof fn lemma_parse_prepend_wrong_crc(rest: Seq<char>, v: u8)
    requires
        spec_terms_parse(rest) == Some(v),
    ensures
        spec_terms_parse(spec_wrong_crc_name() + spec_sep() + rest) == Some(WRONG_CRC_BIT | v),
{
    let s = spec_wrong_crc_name() + spec_sep() + rest;
    assert(spec_wrong_crc_at(s));
    assert(s.skip(9) =~= spec_sep() + rest);
    let tail = spec_sep() + rest;
    assert(rest.len() > 0);
    assert(spec_sep_at(tail));
    assert(tail.skip(3) =~= rest);
}

/// Prepending the timeout name and a separator to a parseable flag
/// string ORs its bit in.
proof fn lemma_parse_prepend_timeout(rest: Seq<char>, v: u8)
    requires
        spec_terms_parse(rest) == Some(v),
    ensures
        spec_terms_parse(spec_timeout_name() + spec_sep() + rest) == Some(TIMEOUT_BIT | v),
{
    let s = spec_timeout_name() + spec_sep() + rest;
    assert(!spec_wrong_crc_at(s));
    assert(spec_timeout_at(s));
    assert(s.skip(7) =~= spec_sep() + rest);
    let tail = spec_sep() + rest;
    assert(rest.len() > 0);
    assert(spec_sep_at(tail));
    assert(tail.skip(3) =~= rest);
}

/// Round trip of the flag string: parsing the canonical text of any
/// flag byte, unnamed bits included, recovers exactly that byte.
pub proof fn lemma_flags_text_round_trip(b: u8)
    ensures
        spec_flags_text_parse(spec_flags_text(b)) == Some(b),
{
    let w = b & WRONG_CRC_BIT != 0;
    let t = b & TIMEOUT_BIT != 0;
    let r = b & !NAMED_BITS;
    if w && t && r != 0 {
        lemma_parse_hex_alone(r);
        lemma_parse_prepend_timeout(spec_hex_term(r), r);
        lemma_parse_prepend_wrong_crc(
            spec_timeout_name() + spec_sep() + spec_hex_term(r),
            TIMEOUT_BIT | r,
        );
        assert(spec_flags_text(b) =~= spec_wrong_crc_name() + spec_sep() + (spec_timeout_name()
            + spec_sep() + spec_hex_term(r)));
        assert(spec_flags_text(b).len() > 0);
        assert(1u8 | (2u8 | (b & !3u8)) == b) by (bit_vector)
            requires
                b & 1 != 0,
                b & 2 != 0,
        ;
    } else if w && t {
        lemma_parse_timeout_alone();
        lemma_parse_prepend_wrong_crc(spec_timeout_name(), TIMEOUT_BIT);
        assert(spec_flags_text(b).len() > 0);
        assert(1u8 | 2u8 == b) by (bit_vector)
            requires
                b & 1 != 0,
                b & 2 != 0,
                b & !3 == 0,
        ;
    } else if w && r != 0 {
        lemma_parse_hex_alone(r);
        lemma_parse_prepend_wrong_crc(spec_hex_term(r), r);
        assert(spec_flags_text(b).len() > 0);
        assert(1u8 | (b & !3u8) == b) by (bit_vector)
            requires
                b & 1 != 0,
                b & 2 == 0,
        ;
    } else if t && r != 0 {
        lemma_parse_hex_alone(r);
        lemma_parse_prepend_timeout(spec_hex_term(r), r);
        assert(spec_flags_text(b).len() > 0);
        assert(2u8 | (b & !3u8) == b) by (bit_vector)
            requires
                b & 1 == 0,
                b & 2 != 0,
        ;
    } else if w {
        lemma_parse_wrong_crc_alone();
        assert(spec_flags_text(b).len() > 0);
        assert(1u8 == b) by (bit_vector)
            requires
                b & 1 != 0,
                b & 2 == 0,
                b & !3 == 0,
        ;
    } else if t {
        lemma_parse_timeout_alone();
        assert(spec_flags_text(b).len() > 0);
        assert(2u8 == b) by (bit_vector)
            requires
                b & 1 == 0,
                b & 2 != 0,
                b & !3 == 0,
        ;
    } else if r != 0 {
        lemma_parse_hex_alone(r);
        assert(spec_flags_text(b).len() > 0);
        assert(b & !3u8 == b) by (bit_vector)
            requires
                b & 1 == 0,
                b & 2 == 0,
        ;
    } else {
        assert(b == 0) by (bit_vector)
            requires
                b & 1 == 0,
                b & 2 == 0,
                b & !3 == 0,
        ;
    }
}

/// Round trip for a flag set: decoding the text of any flag set yields
/// an equal flag set.
pub proof fn lemma_issue_text_round_trip(f: Issue)
    ensures
        spec_issue_from_text(spec_issue_text(f)) == Some(f),
{
    let s = spec_issue_text(f);
    let inner = spec_flags_text(f.bits);
    assert(s[0] == '"');
    assert(s[s.len() - 1] == '"');
    assert(s.subrange(1, s.len() - 1) =~= inner);
    lemma_flags_text_round_trip(f.bits);
}

/// Round trip for a message: decoding the text of any message yields
/// an equal message.
pub proof fn lemma_message_text_round_trip(m: Message)
    ensures
        spec_message_from_text(spec_message_text(m)) == Some(m),
{
    let s = spec_message_text(m);
    match m {
        Message::Start => {
        },
        Message::Stop => {
        },
        Message::Issue(f) => {
            assert(s.len() >= 12);
            assert(s[s.len() - 1] == '}');
            assert(s.subrange(9, s.len() - 1) =~= spec_issue_text(f));
            lemma_issue_text_round_trip(f);
        },
    }
}

} // verus!
