use kibank::read::BankReader;
use kibank::write::BankWriter;
use kibank::{ItemKind, BACKGROUND_FILE_STEM};

#[test]
fn png() {
    let image = vec![0x89, b'P', b'N', b'G', 0x0d, 0x0a, 0x1a, 0x0a, 1, 2, 3];
    let mut writer = BankWriter::new();
    let file_name = format!("{BACKGROUND_FILE_STEM}.png");
    writer
        .add(ItemKind::Background, file_name.as_bytes(), image.clone())
        .unwrap();
    writer.write().unwrap();

    // Verify
    let reader = BankReader::new(writer.into_bytes()).unwrap();
    let items = reader.items();
    let item = items.first().unwrap();
    assert!(item.is_background_file());
    assert_eq!(item.path_bytes, file_name.as_bytes());
    assert_eq!(reader.read_contents(item).unwrap(), image);
}

/// A bank with one background image and the default metadata lists exactly
/// the metadata file and the image.
#[test]
fn background_and_default_metadata() {
    let mut writer = BankWriter::new();
    writer
        .add(ItemKind::Background, b"background.jpg", vec![0xff, 0xd8, 0xff])
        .unwrap();
    writer.write().unwrap();
    let reader = BankReader::new(writer.into_bytes()).unwrap();
    let items = reader.items();
    assert_eq!(items.len(), 2);
    let names: Vec<String> = items.iter().map(|i| i.file_name_lossy()).collect();
    assert!(names.contains(&"index.json".to_string()));
    assert!(names.contains(&"background.jpg".to_string()));
    let background = items
        .iter()
        .find(|i| i.path_bytes == b"background.jpg")
        .unwrap();
    assert!(background.is_background_file());
    assert!(!background.is_metadata_file());
    assert!(items.iter().any(|i| i.is_metadata_file()));
}
