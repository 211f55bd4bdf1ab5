use kibank::read::BankReader;
use kibank::BankError;

fn header(count: u64) -> Vec<u8> {
    let mut b = vec![137, b'k', b'H', b's', 0x0d, 0x0a, 0x1a, 0x0a];
    b.extend_from_slice(b"Bank0001");
    b.extend_from_slice(&count.to_le_bytes());
    b
}

fn location(b: &mut Vec<u8>, name: u64, offset: u64, size: u64) {
    b.extend_from_slice(&name.to_le_bytes());
    b.extend_from_slice(&offset.to_le_bytes());
    b.extend_from_slice(&size.to_le_bytes());
}

/// Two files whose payloads overlap are refused.
#[test]
fn overlapping_payloads() {
    let mut b = header(2);
    // The table ends at 72, the name block "a\0b\0" at 84, payload at 84.
    location(&mut b, 0, 84, 4);
    location(&mut b, 2, 86, 4);
    b.extend_from_slice(&4u64.to_le_bytes());
    b.extend_from_slice(b"a\0b\0");
    b.extend_from_slice(&[1, 2, 3, 4, 5, 6]);
    match BankReader::new(b) {
        Err(BankError::Overlap(x, y)) => {
            assert!((x == b"a" && y == b"b") || (x == b"b" && y == b"a"));
        }
        other => panic!("unexpected {:?}", other.err()),
    }
}

#[test]
fn adjacent_payloads_are_fine() {
    let mut b = header(2);
    location(&mut b, 0, 84, 2);
    location(&mut b, 2, 86, 2);
    b.extend_from_slice(&4u64.to_le_bytes());
    b.extend_from_slice(b"a\0b\0");
    b.extend_from_slice(&[1, 2, 3, 4]);
    let reader = BankReader::new(b).unwrap();
    let items = reader.items();
    assert_eq!(items.len(), 2);
    assert_eq!(reader.read_contents(&items[1]).unwrap(), vec![3, 4]);
}

#[test]
fn not_a_bank() {
    assert!(matches!(BankReader::new(b"PK\x03\x04rest".to_vec()), Err(BankError::NotABank)));
}

#[test]
fn truncated() {
    assert!(matches!(BankReader::new(vec![137, b'k']), Err(BankError::Truncated)));
    let b = header(1);
    assert!(matches!(BankReader::new(b), Err(BankError::Truncated)));
}

#[test]
fn wrong_check_bytes() {
    let mut b = header(0);
    b[5] = 0x0d;
    match BankReader::new(b) {
        Err(BankError::UnexpectedCheckBytes(c)) => assert_eq!(c, vec![0x0d, 0x0d, 0x1a, 0x0a]),
        other => panic!("unexpected {:?}", other.err()),
    }
}

#[test]
fn wrong_version() {
    let mut b = header(0);
    b[15] = b'2';
    match BankReader::new(b) {
        Err(BankError::UnexpectedFormatVersion(v)) => assert_eq!(v, b"Bank0002".to_vec()),
        other => panic!("unexpected {:?}", other.err()),
    }
}

#[test]
fn name_outside_the_data() {
    let mut b = header(1);
    location(&mut b, 100, 0, 0);
    b.extend_from_slice(&2u64.to_le_bytes());
    b.extend_from_slice(b"a\0");
    assert!(matches!(BankReader::new(b), Err(BankError::ZeroLengthName(100))));
}

#[test]
fn name_past_the_name_block() {
    let mut b = header(1);
    location(&mut b, 0, 0, 0);
    b.extend_from_slice(&1u64.to_le_bytes());
    b.extend_from_slice(b"ab\0");
    assert!(matches!(BankReader::new(b), Err(BankError::NamePastEnd)));
}

#[test]
fn payload_past_the_end() {
    let mut b = header(1);
    location(&mut b, 0, 58, 10);
    b.extend_from_slice(&2u64.to_le_bytes());
    b.extend_from_slice(b"a\0");
    b.extend_from_slice(&[1, 2]);
    let reader = BankReader::new(b).unwrap();
    let items = reader.items();
    assert!(matches!(reader.read_contents(&items[0]), Err(BankError::Truncated)));
}

#[test]
fn name_without_zero_at_end_of_data() {
    let mut b = header(1);
    location(&mut b, 0, 0, 0);
    b.extend_from_slice(&2u64.to_le_bytes());
    b.extend_from_slice(b"ab");
    let reader = BankReader::new(b).unwrap();
    assert_eq!(reader.items()[0].path_bytes, b"ab");
}
