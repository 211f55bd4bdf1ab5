use kibank::read::BankReader;
use kibank::write::BankWriter;
use kibank::ItemKind;

#[test]
fn items_come_back_grouped_by_kind() {
    let mut writer = BankWriter::new();
    writer.add(ItemKind::Reverb, b"room.ksrv", vec![9, 9]).unwrap();
    writer.add(ItemKind::Sample, b"kick.wav", vec![1, 2, 3]).unwrap();
    writer.add(ItemKind::PhasePlantPreset, b"lead.phaseplant", vec![4]).unwrap();
    writer.add(ItemKind::Sample, b"snare.wav", vec![5, 6]).unwrap();
    writer.add(ItemKind::Background, b"background.png", vec![7, 7, 7]).unwrap();
    writer.write().unwrap();
    let reader = BankReader::new(writer.into_bytes()).unwrap();
    let items = reader.items();
    let names: Vec<&[u8]> = items.iter().map(|i| i.path_bytes.as_slice()).collect();
    let expected: Vec<&[u8]> = vec![
        b"background.png",
        b"index.json",
        b"flac",
        b"flac/kick.wav",
        b"flac/snare.wav",
        b"phaseplant",
        b"phaseplant/lead.phaseplant",
        b"ksrv",
        b"ksrv/room.ksrv",
    ];
    assert_eq!(names, expected);
    let dirs: Vec<bool> = items.iter().map(|i| i.is_directory()).collect();
    assert_eq!(dirs, vec![false, false, true, false, false, true, false, true, false]);
    let contents: Vec<Vec<u8>> = items
        .iter()
        .filter(|i| i.is_file())
        .map(|i| reader.read_contents(i).unwrap())
        .collect();
    assert_eq!(contents[0], vec![7, 7, 7]);
    assert_eq!(contents[2], vec![1, 2, 3]);
    assert_eq!(contents[3], vec![5, 6]);
    assert_eq!(contents[4], vec![4]);
    assert_eq!(contents[5], vec![9, 9]);
}

#[test]
fn no_items_gives_default_metadata_only() {
    let mut writer = BankWriter::new();
    writer.write().unwrap();
    let reader = BankReader::new(writer.into_bytes()).unwrap();
    let items = reader.items();
    assert_eq!(items.len(), 1);
    assert_eq!(items[0].path_bytes, b"index.json");
}

#[test]
fn raw_path_bytes_are_kept() {
    let mut writer = BankWriter::new();
    writer.add(ItemKind::Sample, &[0xff, 0xfe, b'.', b'w', b'a', b'v'], vec![1]).unwrap();
    writer.write().unwrap();
    let reader = BankReader::new(writer.into_bytes()).unwrap();
    let items = reader.items();
    let item = items.iter().find(|i| i.path_bytes.starts_with(b"flac/")).unwrap();
    assert_eq!(item.path_bytes, vec![b'f', b'l', b'a', b'c', b'/', 0xff, 0xfe, b'.', b'w', b'a', b'v']);
    assert_eq!(item.file_name_lossy(), "flac/\u{fffd}\u{fffd}.wav");
}

#[test]
fn empty_contents_read_as_directory() {
    let mut writer = BankWriter::new();
    writer.add(ItemKind::Sample, b"empty.wav", vec![]).unwrap();
    writer.write().unwrap();
    let reader = BankReader::new(writer.into_bytes()).unwrap();
    let item = reader
        .items()
        .into_iter()
        .find(|i| i.path_bytes == b"flac/empty.wav")
        .unwrap();
    assert!(item.is_directory());
}
