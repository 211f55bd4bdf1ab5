use kibank::read::BankReader;
use kibank::write::BankWriter;

fn create_blank() -> Vec<u8> {
    let mut writer = BankWriter::new();
    writer.write().unwrap();
    writer.into_bytes()
}

fn verify_blank(reader: &BankReader) {
    // First and only item is the metadata
    let items = reader.items();
    assert_eq!(items.len(), 1);
    let metadata_item = items.first().unwrap();
    assert!(metadata_item.is_metadata_file());
    assert_eq!(metadata_item.path_bytes, b"index.json");

    let metadata = reader.read_metadata(metadata_item).unwrap();
    assert!(metadata.id.is_empty());
    assert!(metadata.author.is_empty());
    assert!(metadata.name.is_empty());
    assert!(metadata.description.is_empty());
    assert!(metadata.hash.unwrap_or_default().is_empty());
    assert_eq!(metadata.version, None);
    assert!(metadata.extra.is_empty());
}

/// Create then reload a blank bank.
#[test]
fn create_and_load_blank() {
    let blank = create_blank();
    let reader = BankReader::new(blank).unwrap();
    verify_blank(&reader);
}

#[test]
fn blank_layout() {
    let blank = create_blank();
    assert_eq!(&blank[0..4], &[137, b'k', b'H', b's']);
    assert_eq!(&blank[4..8], &[0x0d, 0x0a, 0x1a, 0x0a]);
    assert_eq!(&blank[8..16], b"Bank0001");
    assert_eq!(&blank[16..24], &1u64.to_le_bytes());
    // One location: name at 0, payload after the name block, whole JSON.
    assert_eq!(&blank[24..32], &0u64.to_le_bytes());
    let data_offset = u64::from_le_bytes(blank[32..40].try_into().unwrap());
    let data_size = u64::from_le_bytes(blank[40..48].try_into().unwrap());
    assert_eq!(&blank[48..56], &11u64.to_le_bytes());
    assert_eq!(&blank[56..67], b"index.json\0");
    assert_eq!(data_offset, 67);
    assert_eq!(data_offset + data_size, blank.len() as u64);
    let json = std::str::from_utf8(&blank[67..]).unwrap();
    assert_eq!(
        json,
        "{\n  \"version\": null,\n  \"id\": \"\",\n  \"name\": \"\",\n  \"author\": \"\",\n  \"description\": \"\",\n  \"hash\": null\n}"
    );
}
