use base64::Engine as _;
use docx_template::image::{clamp_size, compute_image_size, detect_extension, generate_xml_drawing_inner, ImageError, ImageManager};
use docx_template::rels::RelationshipManager;

fn png_header(width: u32, height: u32) -> Vec<u8> {
    let mut b = vec![0x89, b'P', b'N', b'G', 0x0D, 0x0A, 0x1A, 0x0A, 0, 0, 0, 13];
    b.extend_from_slice(b"IHDR");
    b.extend_from_slice(&width.to_be_bytes());
    b.extend_from_slice(&height.to_be_bytes());
    b.extend_from_slice(&[8, 6, 0, 0, 0]);
    b
}

#[test]
fn oversize_is_clamped_keeping_aspect() {
    assert_eq!(clamp_size(3_600_000, 1_800_000), (1_800_000, 900_000));
    assert_eq!(clamp_size(1_800_000, 3_600_000), (900_000, 1_800_000));
    assert_eq!(clamp_size(1_000_000, 500_000), (1_000_000, 500_000));
}

#[test]
fn size_from_pixels_at_dpi() {
    assert_eq!(compute_image_size(&png_header(96, 48), 96000), (914_400, 457_200));
    assert_eq!(compute_image_size(&png_header(800, 600), 96000), (1_800_000, 1_350_000));
}

#[test]
fn oversize_is_rounded_once() {
    assert_eq!(compute_image_size(&png_header(14, 1), 7000), (1_800_000, 128_571));
}

#[test]
fn fractional_dpi_is_kept() {
    assert_eq!(compute_image_size(&png_header(145, 145), 72500), (1_800_000, 1_800_000));
    assert_eq!(compute_image_size(&png_header(29, 58), 72500), (365_760, 731_520));
}

#[test]
fn unreadable_size_falls_back_to_default() {
    assert_eq!(compute_image_size(&[1, 2, 3], 96000), (720_000, 900_000));
}

#[test]
fn extension_from_signature() {
    assert_eq!(detect_extension(&[0x89, b'P', b'N', b'G']), "png");
    assert_eq!(detect_extension(&[0xFF, 0xD8, 0xFF]), "jpg");
    assert_eq!(detect_extension(&[1, 2, 3]), "png");
}

#[test]
fn process_base64_decodes_registers_and_sizes() {
    let bytes = png_header(96, 48);
    let payload = base64::engine::general_purpose::STANDARD.encode(&bytes);
    let mut rels = RelationshipManager::new();
    rels.set_initial_content(bytes::Bytes::from(b"<Relationships><R Id=\"rId4\"/></Relationships>".to_vec()));
    let mut images = ImageManager::new(96000);
    let p = images.process_base64(&payload, &mut rels).unwrap();
    assert_eq!(p.rel_id, "rId5");
    assert_eq!(p.image_id, 5);
    assert_eq!((p.width, p.height), (914_400, 457_200));
    let stored = images.get_images();
    assert_eq!(stored.len(), 1);
    assert_eq!(&stored[0].bytes[..], &bytes[..]);
    assert!(stored[0].filename.starts_with("image_"));
    assert!(stored[0].filename.ends_with(".png"));
    assert_eq!(rels.next_id(), 6);
}

#[test]
fn invalid_base64_is_an_error() {
    let mut rels = RelationshipManager::new();
    let mut images = ImageManager::new(96000);
    assert!(matches!(images.process_base64("iVBORw0KGgo!!!", &mut rels), Err(ImageError::InvalidBase64)));
    assert_eq!(images.get_images().len(), 0);
    assert_eq!(rels.next_id(), 1);
}

#[test]
fn drawing_markup_carries_ids_and_size() {
    let xml = generate_xml_drawing_inner("rId5", 5, 100, 200, "Picture 5", "Generated Image");
    assert!(xml.starts_with("<w:r><w:drawing><wp:inline distT=\"0\""));
    assert!(xml.contains("<wp:extent cx=\"100\" cy=\"200\"/>"));
    assert!(xml.contains("<wp:docPr id=\"5\" name=\"Picture 5\" descr=\"Generated Image\"/>"));
    assert!(xml.contains("<a:blip r:embed=\"rId5\"/>"));
    assert!(xml.contains("<a:ext cx=\"100\" cy=\"200\"/>"));
    assert!(xml.ends_with("</wp:inline></w:drawing></w:r>"));
}

#[test]
fn embed_image_names_picture_by_number() {
    let payload = base64::engine::general_purpose::STANDARD.encode(png_header(10, 10));
    let mut rels = RelationshipManager::new();
    let mut images = ImageManager::new(96000);
    let xml = images.embed_image(&payload, &mut rels).unwrap();
    assert!(xml.contains("name=\"Picture 1\""));
    assert!(xml.contains("r:embed=\"rId1\""));
    assert!(xml.contains("cx=\"95250\" cy=\"95250\""));
}
