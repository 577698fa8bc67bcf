use dns_wire::dns::question::Question;
use dns_wire::dns::resourcerecord::{RData, ResourceRecord};
use dns_wire::dns::{Class, QClass, QType, Type};
use dns_wire::parser::{
    parse_question, parse_questions, parse_rdata, parse_rdata_a, parse_rdata_aaaa,
    parse_rdata_cname, parse_rdata_ns, parse_rdata_ptr, parse_rr, parse_rrs,
};
use dns_wire::CodecError;

fn record(rr_type: Type, rdata: RData) -> ResourceRecord {
    ResourceRecord {
        name: String::from("wvs.spooky.com"),
        rr_type,
        rr_class: Class::IN,
        ttl: 0x01020304,
        rd_len: 0x0506,
        rdata,
    }
}

fn five() -> Vec<ResourceRecord> {
    vec![
        record(Type::A, RData::A(192, 168, 1, 253)),
        record(Type::AAAA, RData::AAAA(0x2001, 0x1608, 0x10, 0x25, 0, 0, 0x9249, 0xd69b)),
        record(Type::NS, RData::NS(String::from("turnips.dns.com"))),
        record(Type::CNAME, RData::CNAME(String::from("www.halloween.fr"))),
        record(Type::PTR, RData::PTR(String::from("host.example.org"))),
    ]
}

#[test]
fn each_record_type_survives_the_wire() {
    for rr in five() {
        let mut bytes = rr.to_bytes().unwrap();
        let own = bytes.len();
        bytes.extend([0xCA, 0xFE]);
        let (rest, back) = parse_rr(&bytes).unwrap();
        assert_eq!(rr, back);
        assert_eq!(&bytes[own..], rest);
    }
}

#[test]
fn aaaa_groups_are_kept_as_they_are() {
    for groups in [[0u16; 8], [0, 0, 0, 0, 0, 0, 0, 1], [0xFFFF; 8], [1, 0, 2, 0, 3, 0, 4, 0]] {
        let [a, b, c, d, e, f, g, h] = groups;
        let rr = record(Type::AAAA, RData::AAAA(a, b, c, d, e, f, g, h));
        let bytes = rr.to_bytes().unwrap();
        assert_eq!(Ok((&[][..], rr)), parse_rr(&bytes));
    }
}

#[test]
fn record_cut_short_is_truncated() {
    for rr in five() {
        let bytes = rr.to_bytes().unwrap();
        for k in 0..bytes.len() {
            assert_eq!(Err(CodecError::Truncated), parse_rr(&bytes[..k]));
        }
    }
}

#[test]
fn record_layout_is_exact() {
    let rr = record(Type::A, RData::A(1, 2, 3, 4));
    let mut expected = vec![3, b'w', b'v', b's', 6, b's', b'p', b'o', b'o', b'k', b'y', 3];
    expected.extend(b"com");
    expected.extend([0, 0, 1, 0, 1, 1, 2, 3, 4, 5, 6, 1, 2, 3, 4]);
    assert_eq!(Ok(expected), rr.to_bytes());
}

#[test]
fn declared_length_bounds_nothing() {
    let mut rr = record(Type::A, RData::A(1, 2, 3, 4));
    rr.rd_len = 0;
    let bytes = rr.to_bytes().unwrap();
    assert_eq!(Ok((&[][..], rr)), parse_rr(&bytes));
    let mut rr = record(Type::NS, RData::NS(String::from("a.b")));
    rr.rd_len = 0xFFFF;
    let bytes = rr.to_bytes().unwrap();
    assert_eq!(Ok((&[][..], rr)), parse_rr(&bytes));
}

#[test]
fn data_is_read_in_the_shape_the_type_selects() {
    let sixteen: Vec<u8> = (1u8..=17).collect();
    assert_eq!(Ok((&sixteen[4..], RData::A(1, 2, 3, 4))), parse_rdata(Type::A, &sixteen));
    assert_eq!(Ok((&sixteen[4..], RData::A(1, 2, 3, 4))), parse_rdata_a(&sixteen));
    let groups = RData::AAAA(0x0102, 0x0304, 0x0506, 0x0708, 0x090A, 0x0B0C, 0x0D0E, 0x0F10);
    assert_eq!(Ok((&sixteen[16..], groups)), parse_rdata(Type::AAAA, &sixteen));
    let name = [1, b'x', 0, 9];
    assert_eq!(Ok((&[9u8][..], RData::NS(String::from("x")))), parse_rdata(Type::NS, &name));
    assert_eq!(Ok((&[9u8][..], RData::CNAME(String::from("x")))), parse_rdata(Type::CNAME, &name));
    assert_eq!(Ok((&[9u8][..], RData::PTR(String::from("x")))), parse_rdata(Type::PTR, &name));
    assert_eq!(Ok((&[9u8][..], RData::NS(String::from("x")))), parse_rdata_ns(&name));
    assert_eq!(Ok((&[9u8][..], RData::CNAME(String::from("x")))), parse_rdata_cname(&name));
    assert_eq!(Ok((&[9u8][..], RData::PTR(String::from("x")))), parse_rdata_ptr(&name));
    assert_eq!(Err(CodecError::Truncated), parse_rdata_a(&[1, 2, 3]));
    assert_eq!(Err(CodecError::Truncated), parse_rdata_aaaa(&sixteen[..15]));
    assert_eq!(Err(CodecError::Truncated), parse_rdata(Type::PTR, &[1]));
}

#[test]
fn data_on_the_wire() {
    assert_eq!(Ok(vec![255, 254, 253, 252]), RData::A(255, 254, 253, 252).to_bytes());
    assert_eq!(
        Ok(vec![0, 0, 0, 0, 0, 0, 0, 0, 0, 0, 0, 0, 0, 0, 0, 1]),
        RData::AAAA(0, 0, 0, 0, 0, 0, 0, 1).to_bytes()
    );
    assert_eq!(Ok(vec![1, b'a', 2, b'b', b'c', 0]), RData::NS(String::from("a.bc")).to_bytes());
    assert_eq!(Ok(vec![1, b'a', 0]), RData::CNAME(String::from("a")).to_bytes());
    assert_eq!(Ok(vec![0]), RData::PTR(String::new()).to_bytes());
}

#[test]
fn unknown_record_type_is_refused() {
    for code in [0u16, 3, 4, 6, 11, 13, 27, 29, 255, 256, 0xFFFF] {
        let mut bytes = vec![1, b'a', 0];
        bytes.extend(code.to_be_bytes());
        bytes.extend([0, 1, 0, 0, 0, 0, 0, 4, 1, 2, 3, 4]);
        assert_eq!(Err(CodecError::UnsupportedType), parse_rr(&bytes));
        assert_eq!(Err(CodecError::UnsupportedType), Type::try_from(code));
    }
}

#[test]
fn unknown_record_class_is_refused() {
    for code in [0u16, 2, 3, 255, 256, 0xFFFF] {
        let mut bytes = vec![1, b'a', 0, 0, 1];
        bytes.extend(code.to_be_bytes());
        bytes.extend([0, 0, 0, 0, 0, 4, 1, 2, 3, 4]);
        assert_eq!(Err(CodecError::UnsupportedClass), parse_rr(&bytes));
        assert_eq!(Err(CodecError::UnsupportedClass), Class::try_from(code));
    }
}

#[test]
fn unknown_question_type_and_class_are_refused() {
    for code in [0u16, 3, 6, 13, 29, 255, 0x0100] {
        let mut bytes = vec![1, b'a', 0];
        bytes.extend(code.to_be_bytes());
        bytes.extend([0, 1]);
        assert_eq!(Err(CodecError::UnsupportedQType), parse_question(&bytes));
        assert_eq!(Err(CodecError::UnsupportedQType), QType::try_from(code));
    }
    for code in [0u16, 2, 254, 256, 0xFF00] {
        let mut bytes = vec![1, b'a', 0, 0, 28];
        bytes.extend(code.to_be_bytes());
        assert_eq!(Err(CodecError::UnsupportedQClass), parse_question(&bytes));
        assert_eq!(Err(CodecError::UnsupportedQClass), QClass::try_from(code));
    }
}

#[test]
fn unknown_type_comes_before_a_missing_class() {
    assert_eq!(Err(CodecError::UnsupportedQType), parse_question(&[0, 0, 3]));
    assert_eq!(Err(CodecError::UnsupportedType), parse_rr(&[0, 0, 3]));
    assert_eq!(Err(CodecError::Truncated), parse_question(&[0, 0, 1]));
    assert_eq!(Err(CodecError::Truncated), parse_rr(&[0, 0, 1, 0]));
}

#[test]
fn code_tables_of_types_and_classes() {
    let types = [(1u16, Type::A), (28, Type::AAAA), (2, Type::NS), (5, Type::CNAME), (12, Type::PTR)];
    for (code, t) in types {
        assert_eq!(Ok(t), Type::try_from(code));
        assert_eq!(code, t.to_u16());
    }
    let qtypes =
        [(1u16, QType::A), (28, QType::AAAA), (2, QType::NS), (5, QType::CNAME), (12, QType::PTR)];
    for (code, t) in qtypes {
        assert_eq!(Ok(t), QType::try_from(code));
        assert_eq!(code, t.to_u16());
    }
    assert_eq!(Ok(QClass::IN), QClass::try_from(1));
    assert_eq!(Ok(QClass::Any), QClass::try_from(255));
    assert_eq!(1, QClass::IN.to_u16());
    assert_eq!(255, QClass::Any.to_u16());
    assert_eq!(Ok(Class::IN), Class::try_from(1));
    assert_eq!(1, Class::IN.to_u16());
}

#[test]
fn question_survives_the_wire_and_cut_short_is_truncated() {
    for (qtype, qclass) in [(QType::A, QClass::IN), (QType::PTR, QClass::Any)] {
        let q = Question { qname: String::from("www.wikipedia.org"), qtype, qclass };
        let bytes = q.to_bytes().unwrap();
        for k in 0..bytes.len() {
            assert_eq!(Err(CodecError::Truncated), parse_question(&bytes[..k]));
        }
        assert_eq!(Ok((&[][..], q)), parse_question(&bytes));
    }
}

#[test]
fn overlong_label_fails_every_encoder() {
    let long = "z".repeat(300);
    let q = Question { qname: long.clone(), qtype: QType::A, qclass: QClass::IN };
    assert_eq!(Err(CodecError::LabelTooLong), q.to_bytes());
    assert_eq!(Err(CodecError::LabelTooLong), RData::NS(long.clone()).to_bytes());
    assert_eq!(Err(CodecError::LabelTooLong), RData::CNAME(long.clone()).to_bytes());
    assert_eq!(Err(CodecError::LabelTooLong), RData::PTR(long.clone()).to_bytes());
    let mut rr = record(Type::A, RData::A(1, 2, 3, 4));
    rr.name = long.clone();
    assert_eq!(Err(CodecError::LabelTooLong), rr.to_bytes());
    assert_eq!(Err(CodecError::LabelTooLong), record(Type::PTR, RData::PTR(long)).to_bytes());
}

#[test]
fn exactly_the_count_is_read() {
    let q = Question { qname: String::from("a.b"), qtype: QType::NS, qclass: QClass::IN };
    let one = q.to_bytes().unwrap();
    let mut three = Vec::new();
    for _ in 0..3 {
        three.extend(&one);
    }
    let (rest, got) = parse_questions(&three, 2).unwrap();
    assert_eq!(2, got.len());
    assert_eq!(q, got[1]);
    assert_eq!(&one[..], rest);
    assert_eq!(Ok((&three[..], Vec::new())), parse_questions(&three, 0));
    assert_eq!(Err(CodecError::Truncated), parse_questions(&three, 4));

    let rr = record(Type::A, RData::A(9, 9, 9, 9));
    let one = rr.to_bytes().unwrap();
    let mut two = one.clone();
    two.extend(&one);
    let (rest, got) = parse_rrs(&two, 1).unwrap();
    assert_eq!(vec![record(Type::A, RData::A(9, 9, 9, 9))], got);
    assert_eq!(&one[..], rest);
    assert_eq!(Err(CodecError::Truncated), parse_rrs(&two, 3));
}
