use dns_wire::dns::append_rname;
use dns_wire::parser::{merge_str, parse_rname, parse_rname_section};
use dns_wire::CodecError;

fn encode(name: &str) -> Result<Vec<u8>, CodecError> {
    let mut bytes = Vec::new();
    append_rname(&mut bytes, &String::from(name)).map(|_| bytes)
}

#[test]
fn name_www_example_com_on_the_wire() {
    let expected: Vec<u8> = vec![
        0x03, 0x77, 0x77, 0x77, 0x07, 0x65, 0x78, 0x61, 0x6D, 0x70, 0x6C, 0x65, 0x03, 0x63, 0x6F,
        0x6D, 0x00,
    ];
    assert_eq!(Ok(expected), encode("www.example.com"));
}

#[test]
fn empty_name_is_one_zero_octet() {
    assert_eq!(Ok(vec![0u8]), encode(""));
    let (rest, name) = parse_rname(&[0u8]).unwrap();
    assert_eq!("", name);
    assert!(rest.is_empty());
}

#[test]
fn empty_labels_leave_nothing_on_the_wire() {
    assert_eq!(Ok(vec![1, b'a', 1, b'b', 0]), encode("a..b"));
    assert_eq!(Ok(vec![1, b'a', 0]), encode("a."));
    assert_eq!(Ok(vec![1, b'a', 0]), encode(".a"));
    assert_eq!(Ok(vec![0]), encode("."));
}

#[test]
fn name_is_appended_behind_what_is_there() {
    let mut bytes = vec![9u8, 8, 7];
    assert_eq!(Ok(()), append_rname(&mut bytes, &String::from("ab.c")));
    assert_eq!(vec![9, 8, 7, 2, b'a', b'b', 1, b'c', 0], bytes);
}

#[test]
fn label_of_255_octets_is_encoded() {
    let label = "x".repeat(255);
    let bytes = encode(&label).unwrap();
    assert_eq!(257, bytes.len());
    assert_eq!(255, bytes[0]);
    assert_eq!(0, bytes[256]);
    let (rest, name) = parse_rname(&bytes).unwrap();
    assert_eq!(label, name);
    assert!(rest.is_empty());
}

#[test]
fn label_of_256_octets_is_too_long_and_appends_nothing() {
    let name = format!("ok.{}.com", "y".repeat(256));
    let mut bytes = vec![1u8, 2];
    assert_eq!(Err(CodecError::LabelTooLong), append_rname(&mut bytes, &name));
    assert_eq!(vec![1u8, 2], bytes);
}

#[test]
fn name_survives_the_wire() {
    for name in ["www.example.com", "a", "big.badwolf.co.jp", "x.y", "münchen.de", ""] {
        let mut bytes = encode(name).unwrap();
        let own = bytes.len();
        bytes.extend([0xAA, 0xBB]);
        let (rest, back) = parse_rname(&bytes).unwrap();
        assert_eq!(name, back);
        assert_eq!(&bytes[own..], rest);
    }
}

#[test]
fn name_cut_short_is_truncated() {
    let bytes = encode("www.example.com").unwrap();
    for k in 0..bytes.len() {
        assert_eq!(Err(CodecError::Truncated), parse_rname(&bytes[..k]));
    }
    assert_eq!(Err(CodecError::Truncated), parse_rname(&[]));
    assert_eq!(Err(CodecError::Truncated), parse_rname(&[3, b'a', b'b']));
    assert_eq!(Err(CodecError::Truncated), parse_rname(&[1, b'a']));
}

#[test]
fn name_stops_at_the_first_zero_length() {
    let bytes = [1, b'a', 0, 1, b'b', 0];
    let (rest, name) = parse_rname(&bytes).unwrap();
    assert_eq!("a", name);
    assert_eq!(&[1, b'b', 0][..], rest);
}

#[test]
fn label_may_hold_a_zero_octet() {
    let bytes = [3, b'a', 0, b'b', 0];
    let (rest, name) = parse_rname(&bytes).unwrap();
    assert_eq!("a\0b", name);
    assert!(rest.is_empty());
}

#[test]
fn label_that_is_not_utf8_is_refused() {
    assert_eq!(Err(CodecError::InvalidLabel), parse_rname_section(&[2, 0xFF, 0xFE, 0]));
    assert_eq!(Err(CodecError::InvalidLabel), parse_rname(&[1, b'a', 1, 0x80, 0]));
    assert_eq!(Err(CodecError::Truncated), parse_rname(&[2, 0xFF]));
}

#[test]
fn section_reads_length_then_text() {
    let (rest, label) = parse_rname_section(&[2, b'h', b'i', 7]).unwrap();
    assert_eq!("hi", label);
    assert_eq!(&[7u8][..], rest);
    assert_eq!(Err(CodecError::Truncated), parse_rname_section(&[]));
    assert_eq!(Err(CodecError::Truncated), parse_rname_section(&[2, b'h']));
}

#[test]
fn merge_str_puts_a_dot_behind_a_label() {
    assert_eq!("www.", merge_str(String::new(), "www"));
    assert_eq!("www.example.", merge_str(String::from("www."), "example"));
    assert_eq!("www.", merge_str(String::from("www."), ""));
}
