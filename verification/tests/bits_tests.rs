use register_tool::bits::BitField;
use register_tool::errors::RegError;
use register_tool::register_op::parse_bits;

#[test]
fn parse_bits_full_word() {
    let (mask, lo) = parse_bits("31:0").unwrap();
    assert_eq!(mask, 0xFFFF_FFFF);
    assert_eq!(lo, 0);
}

#[test]
fn parse_bits_trims_whitespace() {
    let (mask, lo) = parse_bits(" 7 : 3 ").unwrap();
    assert_eq!(mask, 0xF8);
    assert_eq!(lo, 3);
}

#[test]
fn parse_bits_single_bit() {
    let (mask, lo) = parse_bits("0:0").unwrap();
    assert_eq!(mask, 1);
    assert_eq!(lo, 0);
}

#[test]
fn parse_bits_rejects_missing_separator() {
    assert_eq!(parse_bits("5"), Err(RegError::InvalidFormat));
    assert_eq!(parse_bits(""), Err(RegError::InvalidFormat));
}

#[test]
fn parse_bits_rejects_extra_separator() {
    assert_eq!(parse_bits("1:2:3"), Err(RegError::InvalidFormat));
}

#[test]
fn parse_bits_rejects_bad_digits() {
    assert_eq!(parse_bits("a:0"), Err(RegError::InvalidDigit));
    assert_eq!(parse_bits("3:b"), Err(RegError::InvalidDigit));
    assert_eq!(parse_bits(":"), Err(RegError::InvalidDigit));
}

#[test]
fn parse_bits_rejects_out_of_range() {
    assert_eq!(parse_bits("32:0"), Err(RegError::OutOfRange));
    assert_eq!(parse_bits("31:32"), Err(RegError::OutOfRange));
    assert_eq!(parse_bits("99:99"), Err(RegError::OutOfRange));
}

#[test]
fn parse_bits_rejects_inverted_range() {
    assert_eq!(parse_bits("2:5"), Err(RegError::Inverted));
}

#[test]
fn bitfield_parse_carries_width() {
    let bf = BitField::parse("4:2").unwrap();
    assert_eq!(bf.mask, 0b11100);
    assert_eq!(bf.shift, 2);
    assert_eq!(bf.width, 3);

    let bf = BitField::parse("31:0").unwrap();
    assert_eq!(bf.mask, 0xFFFF_FFFF);
    assert_eq!(bf.shift, 0);
    assert_eq!(bf.width, 32);
}

#[test]
fn mask_bits_are_contiguous() {
    let (mask, lo) = parse_bits("13:5").unwrap();
    assert_eq!(lo, 5);
    for bit in 0..32 {
        let set = (mask >> bit) & 1 == 1;
        assert_eq!(set, (5..=13).contains(&bit));
    }
}

#[test]
fn error_messages_are_descriptive() {
    assert_eq!(
        RegError::Inverted.message(),
        "High bit must be greater than or equal to low bit"
    );
    assert_eq!(
        RegError::InvalidFormat.message(),
        "Invalid bit range format. Expected 'hi:lo'"
    );
    assert_eq!(RegError::Misaligned.message(), "Memory address must be 4-byte aligned");
}
