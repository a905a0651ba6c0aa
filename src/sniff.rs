//! Pixel dimensions read from the header of a PNG or JPEG image.
use vstd::prelude::*;

verus! {

/// Why the dimensions of an image could not be read.
#[derive(Debug, Clone, Copy, PartialEq, Eq, Structural)]
pub enum SniffError {
    /// Fewer than 24 bytes.
    TooShort,
    /// A PNG signature without the `IHDR` chunk in its place.
    InvalidPngHeader,
    /// A JPEG segment that does not start with `0xFF`.
    InvalidJpegMarker,
    /// A JPEG whose segments hold no start-of-frame marker.
    NoSofMarker,
    /// Neither a PNG nor a JPEG signature.
    UnknownFormat,
}

/// The smallest buffer whose dimensions can be read.
pub const MIN_IMAGE_LEN: usize = 24;

/// Big-endian 16-bit integer at `i`.
pub open spec fn be16(b: Seq<u8>, i: int) -> int {
    b[i] as int * 256 + b[i + 1] as int
}

/// Big-endian 32-bit integer at `i`.
pub open spec fn be32(b: Seq<u8>, i: int) -> int {
    b[i] as int * 16777216 + b[i + 1] as int * 65536 + b[i + 2] as int * 256 + b[i + 3] as int
}

/// The first four bytes of the PNG signature.
pub open spec fn has_png_signature(b: Seq<u8>) -> bool {
    b.len() >= 4 && b[0] == 0x89u8 && b[1] == 0x50u8 && b[2] == 0x4Eu8 && b[3] == 0x47u8
}

/// The JPEG start-of-image marker.
pub open spec fn has_jpeg_marker(b: Seq<u8>) -> bool {
    b.len() >= 2 && b[0] == 0xFFu8 && b[1] == 0xD8u8
}

/// `IHDR` at offset 12.
pub open spec fn has_ihdr(b: Seq<u8>) -> bool {
    b.len() >= 16 && b[12] == 0x49u8 && b[13] == 0x48u8 && b[14] == 0x44u8 && b[15] == 0x52u8
}

/// A start-of-frame marker: 0xC0 to 0xCF, but for 0xC4, 0xC8 and 0xCC, which share
/// the range and mean something else.
pub open spec fn is_sof_marker(m: u8) -> bool {
    0xC0u8 <= m <= 0xCFu8 && m != 0xC4u8 && m != 0xC8u8 && m != 0xCCu8
}

/// The walk over JPEG segments from `off`: each segment is `0xFF`, a marker byte and a
/// big-endian length that counts itself but not the first two bytes.
pub open spec fn jpeg_scan(b: Seq<u8>, off: int) -> Result<(u32, u32), SniffError>
    decreases b.len() - off,
{
    if off >= 0 && off + 9 < b.len() {
        if b[off] != 0xFFu8 {
            Err(SniffError::InvalidJpegMarker)
        } else if is_sof_marker(b[off + 1]) {
            Ok((be16(b, off + 7) as u32, be16(b, off + 5) as u32))
        } else {
            let next = off + be16(b, off + 2) + 2;
            if next < b.len() {
                jpeg_scan(b, next)
            } else {
                Err(SniffError::NoSofMarker)
            }
        }
    } else {
        Err(SniffError::NoSofMarker)
    }
}

/// Width and height, in pixels, of the image in `b`.
pub open spec fn dimensions_of(b: Seq<u8>) -> Result<(u32, u32), SniffError> {
    if b.len() < 24 {
        Err(SniffError::TooShort)
    } else if has_png_signature(b) {
        if has_ihdr(b) {
            Ok((be32(b, 16) as u32, be32(b, 20) as u32))
        } else {
            Err(SniffError::InvalidPngHeader)
        }
    } else if has_jpeg_marker(b) {
        jpeg_scan(b, 2)
    } else {
        Err(SniffError::UnknownFormat)
    }
}

fn read_be16(b: &[u8], i: usize) -> (r: u32)
    requires
        i + 1 < b@.len(),
    ensures
        r as int == be16(b@, i as int),
{
    (b[i] as u32) * 256 + (b[i + 1] as u32)
}

fn read_be32(b: &[u8], i: usize) -> (r: u32)
    requires
        i + 3 < b@.len(),
    ensures
        r as int == be32(b@, i as int),
{
    let x0 = b[i] as u32;
    let x1 = b[i + 1] as u32;
    let x2 = b[i + 2] as u32;
    let x3 = b[i + 3] as u32;
    assert(x0 * 16777216 + x1 * 65536 + x2 * 256 + x3 < 0x1_0000_0000) by (nonlinear_arith)
        requires
            x0 < 256,
            x1 < 256,
            x2 < 256,
            x3 < 256,
    ;
    x0 * 16777216 + x1 * 65536 + x2 * 256 + x3
}

/// Width and height in pixels of a PNG or JPEG image, read from its header.
///
/// A PNG gives them as big-endian 32-bit integers after its `IHDR` marker; a JPEG in its
/// first start-of-frame segment, height first, as big-endian 16-bit integers.
pub fn get_image_dimensions(bytes: &[u8]) -> (r: Result<(u32, u32), SniffError>)
    ensures
        r == dimensions_of(bytes@),
{
    let len = bytes.len();
    if len < MIN_IMAGE_LEN {
        return Err(SniffError::TooShort);
    }
    if bytes[0] == 0x89 && bytes[1] == 0x50 && bytes[2] == 0x4E && bytes[3] == 0x47 {
        if bytes[12] == 0x49 && bytes[13] == 0x48 && bytes[14] == 0x44 && bytes[15] == 0x52 {
            let width = read_be32(bytes, 16);
            let height = read_be32(bytes, 20);
            return Ok((width, height));
        }
        return Err(SniffError::InvalidPngHeader);
    }
    if bytes[0] == 0xFF && bytes[1] == 0xD8 {
        let mut offset: usize = 2;
        while offset < len - 9
            invariant
                len == bytes@.len(),
                len >= 24,
                2 <= offset < len,
                dimensions_of(bytes@) == jpeg_scan(bytes@, 2),
                jpeg_scan(bytes@, 2) == jpeg_scan(bytes@, offset as int),
            decreases len - offset,
        {
            if bytes[offset] != 0xFF {
                return Err(SniffError::InvalidJpegMarker);
            }
            let marker = bytes[offset + 1];
            let segment_len = read_be16(bytes, offset + 2) as usize;
            if 0xC0 <= marker && marker <= 0xCF && marker != 0xC4 && marker != 0xC8 && marker
                != 0xCC {
                let height = read_be16(bytes, offset + 5);
                let width = read_be16(bytes, offset + 7);
                return Ok((width, height));
            }
            if segment_len + 2 >= len - offset {
                assert(jpeg_scan(bytes@, offset + segment_len + 2) == Err::<(u32, u32), SniffError>(
                    SniffError::NoSofMarker,
                ));
                return Err(SniffError::NoSofMarker);
            }
            offset = offset + segment_len + 2;
        }
        return Err(SniffError::NoSofMarker);
    }
    Err(SniffError::UnknownFormat)
}

/// The four big-endian bytes of `v`.
pub open spec fn be32_bytes(v: u32) -> Seq<u8> {
    seq![(v >> 24u32) as u8, ((v >> 16u32) & 0xffu32) as u8, ((v >> 8u32) & 0xffu32) as u8, (v & 0xffu32) as u8]
}

/// The first 24 bytes of a PNG file whose header chunk gives `width` and `height`.
pub open spec fn png_header(width: u32, height: u32) -> Seq<u8> {
    seq![0x89u8, 0x50u8, 0x4Eu8, 0x47u8, 0x0Du8, 0x0Au8, 0x1Au8, 0x0Au8, 0u8, 0u8, 0u8, 13u8]
        + seq![0x49u8, 0x48u8, 0x44u8, 0x52u8] + be32_bytes(width) + be32_bytes(height)
}

proof fn lemma_be32_bytes(v: u32)
    ensures
        be32(be32_bytes(v), 0) == v,
{
    let b = be32_bytes(v);
    let b0 = (v >> 24u32) as u8;
    let b1 = ((v >> 16u32) & 0xffu32) as u8;
    let b2 = ((v >> 8u32) & 0xffu32) as u8;
    let b3 = (v & 0xffu32) as u8;
    assert(b[0] == b0 && b[1] == b1 && b[2] == b2 && b[3] == b3);
    assert((v >> 24u32) < 256u32 && (v >> 24u32) as u8 as u32 == (v >> 24u32)) by (bit_vector);
    assert(((v >> 16u32) & 0xffu32) as u8 as u32 == ((v >> 16u32) & 0xffu32)) by (bit_vector);
    assert(((v >> 8u32) & 0xffu32) as u8 as u32 == ((v >> 8u32) & 0xffu32)) by (bit_vector);
    assert((v & 0xffu32) as u8 as u32 == (v & 0xffu32)) by (bit_vector);
    assert((v >> 24u32) * 16777216u32 + ((v >> 16u32) & 0xffu32) * 65536u32 + ((v >> 8u32) & 0xffu32)
        * 256u32 + (v & 0xffu32) == v) by (bit_vector);
}

/// A PNG header carries its dimensions through: reading the dimensions of a header
/// written with `width` and `height` gives them back.
pub proof fn lemma_png_round_trip(width: u32, height: u32)
    ensures
        dimensions_of(png_header(width, height)) == Ok::<(u32, u32), SniffError>((width, height)),
{
    let b = png_header(width, height);
    lemma_be32_bytes(width);
    lemma_be32_bytes(height);
    assert(b.len() == 24);
    assert(has_png_signature(b));
    assert(has_ihdr(b));
    assert(b.subrange(16, 20) =~= be32_bytes(width));
    assert(b.subrange(20, 24) =~= be32_bytes(height));
    assert(be32(b, 16) == be32(be32_bytes(width), 0));
    assert(be32(b, 20) == be32(be32_bytes(height), 0));
}

/// The two big-endian bytes of `v`.
pub open spec fn be16_bytes(v: u16) -> Seq<u8> {
    seq![(v >> 8u16) as u8, (v & 0xffu16) as u8]
}

/// A JPEG start followed by a baseline start-of-frame segment for `width` and
/// `height`, padded to 24 bytes.
pub open spec fn jpeg_sof0_header(width: u16, height: u16) -> Seq<u8> {
    seq![0xFFu8, 0xD8u8, 0xFFu8, 0xC0u8, 0u8, 17u8, 8u8] + be16_bytes(height) + be16_bytes(width)
        + Seq::new(13, |i: int| 0u8)
}

/// A JPEG start followed by one Huffman-table segment of `len` bytes that runs past
/// the end of the 24-byte buffer.
pub open spec fn jpeg_dht_only(len: u16) -> Seq<u8> {
    seq![0xFFu8, 0xD8u8, 0xFFu8, 0xC4u8] + be16_bytes(len) + Seq::new(18, |i: int| 0u8)
}

proof fn lemma_be16_bytes(v: u16)
    ensures
        be16(be16_bytes(v), 0) == v,
{
    assert((v >> 8u16) < 256u16 && (v >> 8u16) as u8 as u16 == (v >> 8u16)) by (bit_vector);
    assert((v & 0xffu16) as u8 as u16 == (v & 0xffu16)) by (bit_vector);
    assert((v >> 8u16) * 256u16 + (v & 0xffu16) == v) by (bit_vector);
}

/// A baseline start-of-frame segment right after the JPEG start gives the dimensions
/// it encodes, height first in the segment.
pub proof fn lemma_jpeg_sof0(width: u16, height: u16)
    ensures
        dimensions_of(jpeg_sof0_header(width, height)) == Ok::<(u32, u32), SniffError>(
            (width as u32, height as u32),
        ),
{
    let b = jpeg_sof0_header(width, height);
    lemma_be16_bytes(width);
    lemma_be16_bytes(height);
    assert(b.len() == 24);
    assert(!has_png_signature(b));
    assert(has_jpeg_marker(b));
    assert(is_sof_marker(b[3]));
    assert(b.subrange(7, 9) =~= be16_bytes(height));
    assert(b.subrange(9, 11) =~= be16_bytes(width));
    assert(be16(b, 7) == be16(be16_bytes(height), 0));
    assert(be16(b, 9) == be16(be16_bytes(width), 0));
}

/// A Huffman-table marker (0xC4) falls in the start-of-frame range but is no frame: a
/// buffer whose only segment is one reads as having no start-of-frame marker.
pub proof fn lemma_jpeg_dht_is_not_a_frame(len: u16)
    requires
        len >= 20,
    ensures
        dimensions_of(jpeg_dht_only(len)) == Err::<(u32, u32), SniffError>(SniffError::NoSofMarker),
{
    let b = jpeg_dht_only(len);
    lemma_be16_bytes(len);
    assert(b.len() == 24);
    assert(!has_png_signature(b));
    assert(has_jpeg_marker(b));
    assert(!is_sof_marker(b[3]));
    assert(b.subrange(4, 6) =~= be16_bytes(len));
    assert(be16(b, 4) == be16(be16_bytes(len), 0));
}

} // verus!
