use dns_wire::parser::boolify;
use dns_wire::wire::{push_u16, push_u32, read_u16, read_u32, read_u8};
use dns_wire::CodecError;

#[test]
fn read_u8_takes_the_first_octet() {
    let input = [0x7Fu8, 0x01, 0x02];
    let (rest, v) = read_u8(&input).unwrap();
    assert_eq!(0x7F, v);
    assert_eq!(&[0x01u8, 0x02][..], rest);
    assert_eq!(Err(CodecError::Truncated), read_u8(&[]));
}

#[test]
fn read_u16_is_big_endian() {
    let input = [0x12u8, 0x34, 0x56];
    let (rest, v) = read_u16(&input).unwrap();
    assert_eq!(0x1234, v);
    assert_eq!(&[0x56u8][..], rest);
    assert_eq!(Err(CodecError::Truncated), read_u16(&[0x12]));
    assert_eq!(Err(CodecError::Truncated), read_u16(&[]));
}

#[test]
fn read_u32_is_big_endian() {
    let input = [0xDEu8, 0xAD, 0xBE, 0xEF, 0x00];
    let (rest, v) = read_u32(&input).unwrap();
    assert_eq!(0xDEADBEEF, v);
    assert_eq!(&[0x00u8][..], rest);
    assert_eq!(Err(CodecError::Truncated), read_u32(&[1, 2, 3]));
}

#[test]
fn push_u16_is_big_endian() {
    let mut bytes = vec![0xFFu8];
    push_u16(&mut bytes, 0x0A0B);
    push_u16(&mut bytes, 0);
    push_u16(&mut bytes, 0xFFFF);
    assert_eq!(vec![0xFF, 0x0A, 0x0B, 0x00, 0x00, 0xFF, 0xFF], bytes);
}

#[test]
fn push_u32_is_big_endian() {
    let mut bytes = Vec::new();
    push_u32(&mut bytes, 0x89ABCDEF);
    push_u32(&mut bytes, 1);
    assert_eq!(vec![0x89, 0xAB, 0xCD, 0xEF, 0x00, 0x00, 0x00, 0x01], bytes);
}

#[test]
fn integers_survive_the_wire() {
    for x in [0u16, 1, 255, 256, 0x1234, 0xFFFF] {
        let mut bytes = Vec::new();
        push_u16(&mut bytes, x);
        assert_eq!(Ok((&[][..], x)), read_u16(&bytes));
    }
    for x in [0u32, 1, 0xFFFF, 0x10000, 0xDEADBEEF, 0xFFFFFFFF] {
        let mut bytes = Vec::new();
        push_u32(&mut bytes, x);
        assert_eq!(Ok((&[][..], x)), read_u32(&bytes));
    }
}

#[test]
fn boolify_is_true_of_all_but_zero() {
    assert!(!boolify(0));
    assert!(boolify(1));
    assert!(boolify(255));
}
