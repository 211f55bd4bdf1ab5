use kibank::write::BankWriter;
use kibank::{BankError, ItemKind, Metadata};

/// Must not be able to add to a bank once it has been written.
#[test]
fn add_after_write() {
    let mut writer = BankWriter::new();
    writer.write().unwrap();
    let result = writer.add_metadata(&Metadata::default());
    assert!(result.is_err());
}

#[test]
fn add_after_write_leaves_output() {
    let mut writer = BankWriter::new();
    writer.add(ItemKind::Sample, b"kick.wav", vec![1, 2, 3]).unwrap();
    writer.write().unwrap();
    let before = writer.bytes().to_vec();
    let result = writer.add(ItemKind::Sample, b"snare.wav", vec![4, 5]);
    assert!(matches!(result, Err(BankError::AlreadyWritten)));
    assert!(matches!(writer.write(), Err(BankError::AlreadyWritten)));
    assert!(matches!(
        writer.add_metadata(&Metadata::default()),
        Err(BankError::AlreadyWritten)
    ));
    assert_eq!(writer.bytes(), before.as_slice());
}

#[test]
fn sanitize_id_keeps_alphanumerics_and_dots() {
    assert_eq!(Metadata::sanitize_id("My Bank-2.0!"), "mybank2.0");
    assert_eq!(Metadata::sanitize_id(""), "");
    assert_eq!(Metadata::sanitize_id("ÄÖ x"), "ÄÖx");
}
