use kibank::ItemKind;

#[test]
fn extensions() {
    assert_eq!(ItemKind::Metadata.extensions(), vec!["json"]);

    // All kinds must have at least one extension.
    assert!(ItemKind::all()
        .iter()
        .all(|kind| !kind.extensions().is_empty()));
}

#[test]
fn has_extension() {
    assert!(ItemKind::Metadata.has_extension("json".as_bytes()));
    assert!(ItemKind::Metadata.has_extension("JSON".as_bytes()));
    assert!(!ItemKind::Metadata.has_extension("txt".as_bytes()));
}

#[test]
fn directories() {
    assert_eq!(ItemKind::Background.directory(), None);
    assert_eq!(ItemKind::Metadata.directory(), None);
    assert_eq!(ItemKind::Sample.directory(), Some("flac"));
    assert_eq!(ItemKind::PhasePlantPreset.directory(), Some("phaseplant"));
    assert_eq!(ItemKind::Reverb.directory(), Some("ksrv"));
}

#[test]
fn all_kinds_in_order() {
    let all = ItemKind::all();
    assert_eq!(all.len(), 41);
    assert_eq!(all[0], ItemKind::Background);
    assert_eq!(all[1], ItemKind::Metadata);
    assert_eq!(all[2], ItemKind::Sample);
    assert_eq!(all[40], ItemKind::TransientShaper);
}

#[test]
fn classify_by_name() {
    assert_eq!(ItemKind::from(b"index.json"), Some(ItemKind::Metadata));
    assert_eq!(ItemKind::from(b"some/dir/INDEX.JSON"), Some(ItemKind::Metadata));
    assert_eq!(ItemKind::from(b"background.jpg"), Some(ItemKind::Background));
    assert_eq!(ItemKind::from(b"x/Background.PNG"), Some(ItemKind::Background));
    assert_eq!(ItemKind::from(b"other.json"), Some(ItemKind::Metadata));
    assert_eq!(ItemKind::from(b"a/lead.phaseplant"), Some(ItemKind::PhasePlantPreset));
    assert_eq!(ItemKind::from(b"kick.WAV"), Some(ItemKind::Sample));
    assert_eq!(ItemKind::from(b"room.ksrv"), Some(ItemKind::Reverb));
    assert_eq!(ItemKind::from(b"notes.txt"), None);
    assert_eq!(ItemKind::from(b"noextension"), None);
    assert_eq!(ItemKind::from(b".wav"), None);
    assert_eq!(ItemKind::from(b"dir.wav/file"), None);
}
