use kibank::merge::{background_file_name, merge_metadata, metadata_plan, MetadataOptions, MetadataPlan};
use kibank::read::host_path_bytes;
use kibank::{JsonField, Metadata};

fn no_options() -> MetadataOptions {
    MetadataOptions {
        author: None,
        name: None,
        description: None,
        id: None,
        version: None,
        hash: None,
    }
}

#[test]
fn options_replace_file_fields() {
    let mut file = Metadata::default();
    file.author = "File Author".to_string();
    file.name = "File Name".to_string();
    file.description = "From file".to_string();
    file.version = Some(2);
    file.hash = Some("aa".to_string());
    file.extra.push(("foo".to_string(), JsonField::Text("bar".to_string())));
    let mut options = no_options();
    options.name = Some("Given".to_string());
    options.hash = Some("bb".to_string());
    assert!(options.any());
    let m = merge_metadata(file, options);
    assert_eq!(m.author, "File Author");
    assert_eq!(m.name, "Given");
    assert_eq!(m.description, "From file");
    assert_eq!(m.id, "");
    assert_eq!(m.version, Some(2));
    assert_eq!(m.hash.as_deref(), Some("bb"));
    assert_eq!(m.extra.len(), 1);
    assert_eq!(m.extra[0].0, "foo");
}

#[test]
fn no_options_keeps_file() {
    let mut file = Metadata::default();
    file.id = "a.b".to_string();
    file.version = Some(5);
    let options = no_options();
    assert!(!options.any());
    let m = merge_metadata(file, options);
    assert_eq!(m.id, "a.b");
    assert_eq!(m.version, Some(5));
    assert!(m.hash.is_none());
}

#[test]
fn plans() {
    assert_eq!(metadata_plan(0, false), MetadataPlan::Nothing);
    assert_eq!(metadata_plan(1, false), MetadataPlan::CopyFile);
    assert_eq!(metadata_plan(2, false), MetadataPlan::Merge);
    assert_eq!(metadata_plan(0, true), MetadataPlan::Merge);
    assert_eq!(metadata_plan(1, true), MetadataPlan::Merge);
}

#[test]
fn background_names() {
    assert_eq!(background_file_name(b"jpg"), Some(b"background.jpg".to_vec()));
    assert_eq!(background_file_name(b"PNG"), Some(b"background.PNG".to_vec()));
    assert_eq!(background_file_name(b"gif"), None);
}

#[test]
fn host_paths() {
    assert_eq!(host_path_bytes(b"flac/kick.wav", b'\\'), b"flac\\kick.wav".to_vec());
    assert_eq!(host_path_bytes(b"a/b/c", b'/'), b"a/b/c".to_vec());
    assert_eq!(host_path_bytes(b"", b'\\'), Vec::<u8>::new());
}
