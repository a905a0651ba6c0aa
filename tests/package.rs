use docx_template::package::{classify_entry, media_path, EntryKind};

#[test]
fn entries_are_classified_by_path() {
    assert_eq!(classify_entry("word/document.xml"), EntryKind::Body);
    assert_eq!(classify_entry("word/_rels/document.xml.rels"), EntryKind::Relationships);
    assert_eq!(classify_entry("word/styles.xml"), EntryKind::Other);
    assert_eq!(classify_entry("_rels/.rels"), EntryKind::Other);
}

#[test]
fn media_goes_under_media_directory() {
    assert_eq!(media_path("image_1.png"), "word/media/image_1.png");
}
