use docx_template::sniff::{get_image_dimensions, SniffError};

pub fn png_header(width: u32, height: u32) -> Vec<u8> {
    let mut b = vec![0x89, b'P', b'N', b'G', 0x0D, 0x0A, 0x1A, 0x0A, 0, 0, 0, 13];
    b.extend_from_slice(b"IHDR");
    b.extend_from_slice(&width.to_be_bytes());
    b.extend_from_slice(&height.to_be_bytes());
    b.extend_from_slice(&[8, 6, 0, 0, 0]);
    b
}

#[test]
fn png_dimensions_round_trip() {
    assert_eq!(get_image_dimensions(&png_header(800, 600)), Ok((800, 600)));
}

#[test]
fn png_without_ihdr_is_rejected() {
    let mut b = png_header(1, 1);
    b[12] = b'X';
    assert_eq!(get_image_dimensions(&b), Err(SniffError::InvalidPngHeader));
}

#[test]
fn short_buffer_is_rejected() {
    assert_eq!(get_image_dimensions(&[0x89, b'P', b'N', b'G']), Err(SniffError::TooShort));
}

#[test]
fn unknown_signature_is_rejected() {
    assert_eq!(get_image_dimensions(&[0u8; 30]), Err(SniffError::UnknownFormat));
}

#[test]
fn jpeg_sof0_dimensions() {
    let mut b = vec![0xFF, 0xD8, 0xFF, 0xE0, 0x00, 0x04, 0x00, 0x00];
    b.extend_from_slice(&[0xFF, 0xC0, 0x00, 0x11, 0x08, 0x01, 0xE0, 0x02, 0x80, 0x03]);
    b.extend_from_slice(&[0u8; 16]);
    assert_eq!(get_image_dimensions(&b), Ok((640, 480)));
}

#[test]
fn jpeg_with_only_huffman_table_has_no_sof() {
    let mut b = vec![0xFF, 0xD8, 0xFF, 0xC4, 0x00, 0x1E];
    b.extend_from_slice(&[0u8; 28]);
    assert_eq!(get_image_dimensions(&b), Err(SniffError::NoSofMarker));
}

#[test]
fn jpeg_with_bad_marker_byte() {
    let mut b = vec![0xFF, 0xD8, 0x00, 0xC0];
    b.extend_from_slice(&[0u8; 24]);
    assert_eq!(get_image_dimensions(&b), Err(SniffError::InvalidJpegMarker));
}
