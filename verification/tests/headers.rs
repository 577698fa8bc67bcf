use dns_wire::dns::header::{Header, OpCode, RespCode, QR};
use dns_wire::parser::{parse_header, parse_r2, parse_r2_first, parse_r2_second};
use dns_wire::CodecError;

fn sample() -> Header {
    Header {
        id: 0xFEED,
        qr: QR::Response,
        op: OpCode::StdQuery,
        auth_answ: true,
        trunc_resp: false,
        rec_desired: true,
        rec_avail: false,
        rcode: RespCode::FormatError,
        qd_count: 0,
        an_count: 0xFF,
        ns_count: 0xAB,
        ar_count: 0xCD,
    }
}

#[test]
fn header_example_on_the_wire() {
    let bytes = sample().to_bytes();
    assert_eq!(
        vec![0xFE, 0xED, 0x85, 0x01, 0x00, 0x00, 0x00, 0xFF, 0x00, 0xAB, 0x00, 0xCD],
        bytes
    );
    let (rest, back) = parse_header(&bytes).unwrap();
    assert_eq!(sample(), back);
    assert!(rest.is_empty());
}

#[test]
fn header_new_takes_the_flag_fields_in_order() {
    let h = Header::new(
        0xFEED,
        ((QR::Response, OpCode::StdQuery, true, false, true), (false, RespCode::FormatError)),
        0,
        0xFF,
        0xAB,
        0xCD,
    );
    assert_eq!(sample(), h);
}

#[test]
fn flag_octets_of_each_field() {
    let base = Header {
        id: 0,
        qr: QR::Query,
        op: OpCode::StdQuery,
        auth_answ: false,
        trunc_resp: false,
        rec_desired: false,
        rec_avail: false,
        rcode: RespCode::NoError,
        qd_count: 0,
        an_count: 0,
        ns_count: 0,
        ar_count: 0,
    };
    assert_eq!(vec![0x00, 0x00], base.make_r2_bytes());
    assert_eq!(vec![0x80, 0x00], Header { qr: QR::Response, ..base }.make_r2_bytes());
    assert_eq!(vec![0x08, 0x00], Header { op: OpCode::IvQuery, ..base }.make_r2_bytes());
    assert_eq!(vec![0x10, 0x00], Header { op: OpCode::Status, ..base }.make_r2_bytes());
    assert_eq!(vec![0x04, 0x00], Header { auth_answ: true, ..base }.make_r2_bytes());
    assert_eq!(vec![0x02, 0x00], Header { trunc_resp: true, ..base }.make_r2_bytes());
    assert_eq!(vec![0x01, 0x00], Header { rec_desired: true, ..base }.make_r2_bytes());
    assert_eq!(vec![0x00, 0x80], Header { rec_avail: true, ..base }.make_r2_bytes());
    assert_eq!(vec![0x00, 0x05], Header { rcode: RespCode::Refused, ..base }.make_r2_bytes());
}

#[test]
fn every_header_survives_the_wire() {
    let qrs = [QR::Query, QR::Response];
    let ops = [OpCode::StdQuery, OpCode::IvQuery, OpCode::Status];
    let rcodes = [
        RespCode::NoError,
        RespCode::FormatError,
        RespCode::ServFail,
        RespCode::NameError,
        RespCode::NotImpl,
        RespCode::Refused,
    ];
    for qr in qrs {
        for op in ops {
            for rcode in rcodes {
                for flags in 0u8..16 {
                    let h = Header {
                        id: 0x1234,
                        qr,
                        op,
                        auth_answ: flags & 1 != 0,
                        trunc_resp: flags & 2 != 0,
                        rec_desired: flags & 4 != 0,
                        rec_avail: flags & 8 != 0,
                        rcode,
                        qd_count: 1,
                        an_count: 0x0203,
                        ns_count: 0xFFFF,
                        ar_count: 0,
                    };
                    let mut bytes = h.to_bytes();
                    assert_eq!(12, bytes.len());
                    bytes.push(0x99);
                    assert_eq!(Ok((&[0x99u8][..], h)), parse_header(&bytes));
                }
            }
        }
    }
}

#[test]
fn header_needs_twelve_octets() {
    let bytes = sample().to_bytes();
    for k in 0..12 {
        assert_eq!(Err(CodecError::Truncated), parse_header(&bytes[..k]));
    }
    let bad_opcode = [0u8, 0, 0x78, 0, 0, 0, 0, 0, 0, 0, 0];
    assert_eq!(Err(CodecError::Truncated), parse_header(&bad_opcode));
}

#[test]
fn unknown_opcode_is_refused() {
    for op in 3u8..16 {
        let mut bytes = sample().to_bytes();
        bytes[2] = 0x80 | (op << 3);
        assert_eq!(Err(CodecError::UnsupportedOpcode), parse_header(&bytes));
        assert_eq!(Err(CodecError::UnsupportedOpcode), OpCode::try_from(op));
    }
    assert_eq!(Err(CodecError::UnsupportedOpcode), parse_r2_first(&[0x18]));
    assert_eq!(Err(CodecError::UnsupportedOpcode), parse_r2(&[0x18]));
    assert_eq!(Err(CodecError::UnsupportedOpcode), OpCode::try_from(255));
}

#[test]
fn unknown_response_code_is_refused() {
    for rc in 6u8..16 {
        let mut bytes = sample().to_bytes();
        bytes[3] = rc;
        assert_eq!(Err(CodecError::UnsupportedResponseCode), parse_header(&bytes));
        assert_eq!(Err(CodecError::UnsupportedResponseCode), RespCode::try_from(rc));
    }
    assert_eq!(Err(CodecError::UnsupportedResponseCode), parse_r2_second(&[0x0F]));
    assert_eq!(Err(CodecError::UnsupportedResponseCode), parse_r2(&[0x00, 0x06]));
}

#[test]
fn unknown_opcode_comes_before_unknown_response_code() {
    let mut bytes = sample().to_bytes();
    bytes[2] = 0x78;
    bytes[3] = 0x0F;
    assert_eq!(Err(CodecError::UnsupportedOpcode), parse_header(&bytes));
}

#[test]
fn reserved_bits_are_not_looked_at() {
    let mut bytes = sample().to_bytes();
    bytes[3] = 0b0111_0101;
    let (_, h) = parse_header(&bytes).unwrap();
    assert_eq!(RespCode::Refused, h.rcode);
    assert!(!h.rec_avail);
    assert_eq!(Ok((&[][..], (true, RespCode::NameError))), parse_r2_second(&[0b1101_0011]));
}

#[test]
fn flag_octets_need_their_octets() {
    assert_eq!(Err(CodecError::Truncated), parse_r2(&[]));
    assert_eq!(Err(CodecError::Truncated), parse_r2(&[0x00]));
    assert_eq!(Err(CodecError::Truncated), parse_r2_first(&[]));
    assert_eq!(Err(CodecError::Truncated), parse_r2_second(&[]));
    assert_eq!(
        Ok((&[7u8][..], (QR::Response, OpCode::IvQuery, false, true, false))),
        parse_r2_first(&[0b1000_1010, 7])
    );
}

#[test]
fn code_tables_of_the_header() {
    assert_eq!(Ok(QR::Query), QR::try_from(0));
    assert_eq!(Ok(QR::Response), QR::try_from(1));
    assert_eq!(Err(CodecError::UnsupportedQr), QR::try_from(2));
    assert_eq!(Ok(OpCode::StdQuery), OpCode::try_from(0));
    assert_eq!(Ok(OpCode::IvQuery), OpCode::try_from(1));
    assert_eq!(Ok(OpCode::Status), OpCode::try_from(2));
    assert_eq!(Ok(RespCode::NoError), RespCode::try_from(0));
    assert_eq!(Ok(RespCode::FormatError), RespCode::try_from(1));
    assert_eq!(Ok(RespCode::ServFail), RespCode::try_from(2));
    assert_eq!(Ok(RespCode::NameError), RespCode::try_from(3));
    assert_eq!(Ok(RespCode::NotImpl), RespCode::try_from(4));
    assert_eq!(Ok(RespCode::Refused), RespCode::try_from(5));
    assert_eq!(1, QR::Response.to_u8());
    assert_eq!(2, OpCode::Status.to_u8());
    assert_eq!(3, RespCode::NameError.to_u8());
}
