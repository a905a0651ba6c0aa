use bytes::Bytes;
use docx_template::rels::{parse_next_rid_from_rels, RelationshipManager};

const RELS: &str = "<?xml version=\"1.0\" encoding=\"UTF-8\"?>\n<Relationships xmlns=\"http://schemas.openxmlformats.org/package/2006/relationships\"><Relationship Id=\"rId3\" Type=\"t\" Target=\"styles.xml\"/><Relationship Id=\"rId7\" Type=\"t\" Target=\"theme.xml\"/></Relationships>";

#[test]
fn next_id_follows_largest_existing() {
    assert_eq!(parse_next_rid_from_rels(RELS), 8);
    let mut m = RelationshipManager::new();
    m.set_initial_content(Bytes::from(RELS.as_bytes().to_vec()));
    let (id, n) = m.add_image_relationship("image_a.png");
    assert_eq!(id, "rId8");
    assert_eq!(n, 8);
    let (id2, n2) = m.add_image_relationship("image_b.jpg");
    assert_eq!(id2, "rId9");
    assert_eq!(n2, 9);
}

#[test]
fn empty_document_starts_at_one() {
    assert_eq!(parse_next_rid_from_rels(""), 1);
    let mut m = RelationshipManager::new();
    m.set_initial_content(Bytes::new());
    assert_eq!(m.add_image_relationship("x.png").0, "rId1");
}

#[test]
fn ids_without_digits_are_ignored() {
    assert_eq!(parse_next_rid_from_rels("<R Id=\"rIdX\"/><R Id=\"rId12\"/><R Id=\"other5\"/>"), 13);
}

#[test]
fn finalize_without_allocations_is_identity() {
    let mut m = RelationshipManager::new();
    m.set_initial_content(Bytes::from(RELS.as_bytes().to_vec()));
    assert_eq!(m.generate_final_rels_content().map(|b| b.to_vec()), Some(RELS.as_bytes().to_vec()));
}

#[test]
fn finalize_without_document_is_none() {
    let mut m = RelationshipManager::new();
    m.add_image_relationship("a.png");
    assert!(m.generate_final_rels_content().is_none());
}

#[test]
fn finalize_splices_entries_before_closing_tag() {
    let mut m = RelationshipManager::new();
    m.set_initial_content(Bytes::from(b"<Relationships><Relationship Id=\"rId1\"/></Relationships>".to_vec()));
    m.add_image_relationship("image_x.png");
    let out = String::from_utf8(m.generate_final_rels_content().unwrap().to_vec()).unwrap();
    let expected = "<Relationships><Relationship Id=\"rId1\"/>\n    <Relationship Id=\"rId2\" Type=\"http://schemas.openxmlformats.org/officeDocument/2006/relationships/image\" Target=\"media/image_x.png\"/>\n    </Relationships>";
    assert_eq!(out, expected);
}

#[test]
fn invalid_utf8_keeps_counter() {
    let mut m = RelationshipManager::new();
    m.set_initial_content(Bytes::from(vec![0xFF, 0xFE, b'I', b'd']));
    assert_eq!(m.next_id(), 1);
}

#[test]
fn finalize_without_closing_tag_appends_entries() {
    let mut m = RelationshipManager::new();
    m.set_initial_content(Bytes::from(b"<Relationships>".to_vec()));
    m.add_image_relationship("a.png");
    let out = String::from_utf8(m.generate_final_rels_content().unwrap().to_vec()).unwrap();
    let expected = "<Relationships>\n    <Relationship Id=\"rId1\" Type=\"http://schemas.openxmlformats.org/officeDocument/2006/relationships/image\" Target=\"media/a.png\"/>\n    ";
    assert_eq!(out, expected);
}
