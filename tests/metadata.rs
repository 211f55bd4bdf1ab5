use kibank::read::BankReader;
use kibank::write::BankWriter;
use kibank::{BankError, JsonField, Metadata};

fn bank_with(metadata: &Metadata) -> BankReader {
    let mut writer = BankWriter::new();
    writer.add_metadata(metadata).unwrap();
    writer.write().unwrap();
    BankReader::new(writer.into_bytes()).unwrap()
}

/// Read metadata
#[test]
fn read() {
    let mut written = Metadata::default();
    written.author = "Author".to_string();
    written.name = "Title".to_string();
    written.description = "Description".to_string();
    let reader = bank_with(&written);
    let items = reader.items();
    let item = items.first().unwrap();
    let metadata = reader.read_metadata(item).unwrap();
    assert_eq!(metadata.author, "Author");
    assert_eq!(metadata.name, "Title");
    assert_eq!(metadata.description, "Description");
    assert_eq!(metadata.id, "author.title");
}

#[test]
fn synthesized_id_skips_empty_parts() {
    let mut m = Metadata::default();
    m.name = "Only Name!".to_string();
    assert_eq!(m.stored_id(), "onlyname");
    m.id = "given.id".to_string();
    assert_eq!(m.stored_id(), "given.id");
}

#[test]
fn extra_fields_round_trip() {
    let mut m = Metadata::default();
    m.version = Some(3);
    m.hash = Some("00ff".to_string());
    m.extra.push(("foo".to_string(), JsonField::Text("bar".to_string())));
    m.extra.push(("n".to_string(), JsonField::Other("[1,2]".to_string())));
    let reader = bank_with(&m);
    let item = reader.items().into_iter().find(|i| i.is_metadata_file()).unwrap();
    let back = reader.read_metadata(&item).unwrap();
    assert_eq!(back.version, Some(3));
    assert_eq!(back.hash.as_deref(), Some("00ff"));
    assert_eq!(back.extra.len(), 2);
    assert!(back.extra.iter().any(|(k, v)| k == "foo" && matches!(v, JsonField::Text(t) if t == "bar")));
    assert!(back.extra.iter().any(|(k, v)| k == "n" && matches!(v, JsonField::Other(t) if t == "[1,2]")));
}

#[test]
fn json_layout() {
    let mut m = Metadata::default();
    m.id = "a.b".to_string();
    m.version = Some(12);
    m.extra.push(("foo".to_string(), JsonField::Text("bar".to_string())));
    let text = String::from_utf8(m.to_json()).unwrap();
    assert_eq!(
        text,
        "{\n  \"version\": 12,\n  \"id\": \"a.b\",\n  \"name\": \"\",\n  \"author\": \"\",\n  \"description\": \"\",\n  \"hash\": null,\n  \"foo\": \"bar\"\n}"
    );
}

#[test]
fn parse_rules() {
    let m = BankReader::parse_metadata(b"{\"name\": \"N\", \"version\": 7, \"x\": true}").unwrap();
    assert_eq!(m.name, "N");
    assert_eq!(m.id, "");
    assert_eq!(m.version, Some(7));
    assert_eq!(m.extra.len(), 1);
    assert!(matches!(
        BankReader::parse_metadata(b"{\"name\": 5}"),
        Err(BankError::InvalidMetadata)
    ));
    assert!(matches!(
        BankReader::parse_metadata(b"{\"version\": 4294967296}"),
        Err(BankError::InvalidMetadata)
    ));
    assert!(matches!(
        BankReader::parse_metadata(b"not json"),
        Err(BankError::InvalidMetadata)
    ));
}

#[test]
fn metadata_of_other_item() {
    let mut writer = BankWriter::new();
    writer.add(kibank::ItemKind::Sample, b"a.wav", vec![1]).unwrap();
    writer.write().unwrap();
    let reader = BankReader::new(writer.into_bytes()).unwrap();
    for item in reader.items() {
        if !item.is_metadata_file() {
            assert!(matches!(reader.read_metadata(&item), Err(BankError::NotMetadata)));
        }
    }
}

#[test]
fn empty_object_gives_empty_record() {
    let m = BankReader::parse_metadata(b"{}").unwrap();
    assert_eq!(m.id, "");
    assert_eq!(m.name, "");
    assert_eq!(m.author, "");
    assert_eq!(m.description, "");
    assert!(m.version.is_none());
    assert!(m.hash.is_none());
    assert!(m.extra.is_empty());
    assert!(BankReader::parse_metadata(b"[1, 2]").is_err());
}

#[test]
fn strings_are_escaped() {
    let mut m = Metadata::default();
    m.id = "x".to_string();
    m.name = "a\"b\\c\n\u{1}".to_string();
    let text = String::from_utf8(m.to_json()).unwrap();
    assert!(text.contains("\"name\": \"a\\\"b\\\\c\\n\\u0001\""));
    let back = BankReader::parse_metadata(text.as_bytes()).unwrap();
    assert_eq!(back.name, m.name);
}

#[test]
fn extra_keys_are_checked() {
    let mut m = Metadata::default();
    assert!(m.extra_keys_valid());
    m.extra.push(("foo".to_string(), JsonField::Null));
    assert!(m.extra_keys_valid());
    m.extra.push(("foo".to_string(), JsonField::Null));
    assert!(!m.extra_keys_valid());
    let mut n = Metadata::default();
    n.extra.push(("name".to_string(), JsonField::Null));
    assert!(!n.extra_keys_valid());
}
