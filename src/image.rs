//! Embedded images: decoding, sizing, storage under a fresh name, and drawing markup.
use base64::Engine;
use vstd::prelude::*;
use vstd::string::{StrSliceExecFns, StringExecFns};
use crate::buffer::{bytes_from_vec, bytes_view};
use bytes::Bytes;
use crate::rels::{RelationshipManager, RelsView, rel_fragment, rel_id_text};
use crate::sniff::{dimensions_of, get_image_dimensions};
use crate::text::{dec_text, decimal};

verus! {

/// The largest width or height of an image: 5 cm.
pub const MAX_EMU: u64 = 1800000;

/// Width of an image whose dimensions cannot be read: 2 cm.
pub const DEFAULT_WIDTH_EMU: u64 = 720000;

/// Height of an image whose dimensions cannot be read: 2.5 cm.
pub const DEFAULT_HEIGHT_EMU: u64 = 900000;

/// The description given to every embedded image.
pub const DEFAULT_IMAGE_DESCRIPTION: &'static str = "Generated Image";

/// What base64 decoding gives for a text: the bytes, or nothing where it is not valid
/// standard base64.
pub uninterp spec fn base64_decoded(s: Seq<char>) -> Option<Seq<u8>>;

/// Relies on `base64::engine::general_purpose::STANDARD.decode`: the decoded bytes, or
/// an error where the text is not valid standard base64 with padding.
#[verifier::external_body]
fn decode_base64(s: &str) -> (r: Option<Vec<u8>>)
    ensures
        match r {
            Some(v) => base64_decoded(s@) == Some(v@),
            None => base64_decoded(s@) is None,
        },
{
    base64::engine::general_purpose::STANDARD.decode(s).ok()
}

/// A lower-case hexadecimal digit.
pub open spec fn is_lower_hex(c: char) -> bool {
    ('0' <= c <= '9') || ('a' <= c <= 'f')
}

/// The hyphenated form of a UUID: 36 characters, hyphens at 8, 13, 18 and 23, lower-case
/// hexadecimal digits elsewhere.
pub open spec fn is_hyphenated_uuid(s: Seq<char>) -> bool {
    &&& s.len() == 36
    &&& forall|i: int|
        0 <= i < 36 ==> if i == 8 || i == 13 || i == 18 || i == 23 {
            #[trigger] s[i] == '-'
        } else {
            is_lower_hex(s[i])
        }
}

/// Relies on `uuid::Uuid::now_v7` and its `Display`, which writes the hyphenated
/// lower-case form; which identifier comes out depends on the time and random bits.
#[verifier::external_body]
fn fresh_identifier() -> (r: String)
    ensures
        is_hyphenated_uuid(r@),
{
    uuid::Uuid::now_v7().to_string()
}

/// Why an image could not be embedded.
#[derive(Debug, Clone, Copy, PartialEq, Eq, Structural)]
pub enum ImageError {
    /// The payload is not valid base64.
    InvalidBase64,
    /// Relationship ids have run out.
    IdsExhausted,
}

/// `a / b`, rounded to the nearest integer, halves up.
pub open spec fn div_round(a: int, b: int) -> int
    recommends
        b > 0,
{
    (2 * a + b) / (2 * b)
}

/// A size scaled down, aspect kept, so that neither side exceeds [`MAX_EMU`]: the larger
/// side becomes the cap and the other is scaled by the same factor, rounded.
pub open spec fn clamp_spec(w: int, h: int) -> (int, int) {
    if w >= h && w > MAX_EMU {
        (MAX_EMU as int, div_round(h * MAX_EMU, w))
    } else if h > w && h > MAX_EMU {
        (div_round(w * MAX_EMU, h), MAX_EMU as int)
    } else {
        (w, h)
    }
}

/// Length units per inch, times a thousand: with the resolution in thousandths of a
/// dot per inch, `px * EMU_PER_INCH_MILLI / milli_dpi` is a length in length units.
pub const EMU_PER_INCH_MILLI: u64 = 914400000;

/// The size of `w` by `h` pixels at `milli_dpi` thousandths of a dot per inch, rounded
/// once from the exact value: where a side exceeds the cap, the larger side becomes the
/// cap and the other is scaled by the same factor, which is the ratio of the pixel counts.
pub open spec fn scaled_size(w: int, h: int, milli_dpi: int) -> (int, int) {
    if w >= h && w * EMU_PER_INCH_MILLI > MAX_EMU * milli_dpi {
        (MAX_EMU as int, div_round(h * MAX_EMU, w))
    } else if h > w && h * EMU_PER_INCH_MILLI > MAX_EMU * milli_dpi {
        (div_round(w * MAX_EMU, h), MAX_EMU as int)
    } else {
        (div_round(w * EMU_PER_INCH_MILLI, milli_dpi), div_round(h * EMU_PER_INCH_MILLI, milli_dpi))
    }
}

/// The size an image is shown at: from its pixel dimensions where they can be read,
/// else the default size.
pub open spec fn image_size(bytes: Seq<u8>, milli_dpi: int) -> (int, int) {
    match dimensions_of(bytes) {
        Ok((w, h)) => scaled_size(w as int, h as int, milli_dpi),
        Err(_) => (DEFAULT_WIDTH_EMU as int, DEFAULT_HEIGHT_EMU as int),
    }
}

/// The file extension of an image: `jpg` for a JPEG signature, else `png`.
pub open spec fn image_ext(b: Seq<u8>) -> Seq<char> {
    if b.len() >= 4 && b[0] == 0x89u8 && b[1] == 0x50u8 && b[2] == 0x4Eu8 && b[3] == 0x47u8 {
        "png"@
    } else if b.len() >= 3 && b[0] == 0xFFu8 && b[1] == 0xD8u8 && b[2] == 0xFFu8 {
        "jpg"@
    } else {
        "png"@
    }
}

fn div_round_wide(a: u128, b: u128) -> (r: u128)
    requires
        0 < b <= 0x1_0000_0000_0000_0000_0000_0000,
        a <= 0x1_0000_0000_0000_0000_0000_0000,
    ensures
        r as int == div_round(a as int, b as int),
        r <= a + b,
{
    assert((2 * a + b) / (2 * b) <= a + b) by (nonlinear_arith)
        requires
            0 < b,
            0 <= a,
    ;
    (2 * a + b) / (2 * b)
}

proof fn lemma_scaled_within_cap(small: int, large: int)
    requires
        0 <= small <= large,
        large > 0,
    ensures
        0 <= div_round(small * MAX_EMU, large) <= MAX_EMU,
{
    let m = MAX_EMU as int;
    assert(2 * (small * m) + large <= 2 * (large * m) + large) by (nonlinear_arith)
        requires
            0 <= small <= large,
            m > 0,
    ;
    assert((2 * (small * m) + large) / (2 * large) <= (2 * (large * m) + large) / (2 * large))
        by (nonlinear_arith)
        requires
            2 * (small * m) + large <= 2 * (large * m) + large,
            large > 0,
    ;
    assert((2 * (large * m) + large) / (2 * large) == m) by (nonlinear_arith)
        requires
            large > 0,
            m > 0,
    ;
    assert(0 <= 2 * (small * m) + large) by (nonlinear_arith)
        requires
            0 <= small,
            0 < large,
            m > 0,
    ;
}

/// Scales a size down so that neither side exceeds the cap, keeping its aspect.
pub fn clamp_size(w: u64, h: u64) -> (r: (u64, u64))
    requires
        w <= 0x1_0000_0000_0000_0000,
        h <= 0x1_0000_0000_0000_0000,
    ensures
        r.0 as int == clamp_spec(w as int, h as int).0,
        r.1 as int == clamp_spec(w as int, h as int).1,
{
    if w >= h && w > MAX_EMU {
        proof {
            lemma_scaled_within_cap(h as int, w as int);
            assert(h as int * MAX_EMU as int <= 0x1_0000_0000_0000_0000_0000_0000) by (nonlinear_arith)
                requires
                    h <= 0x1_0000_0000_0000_0000,
            ;
        }
        let s = div_round_wide(h as u128 * MAX_EMU as u128, w as u128);
        (MAX_EMU, s as u64)
    } else if h > w && h > MAX_EMU {
        proof {
            lemma_scaled_within_cap(w as int, h as int);
            assert(w as int * MAX_EMU as int <= 0x1_0000_0000_0000_0000_0000_0000) by (nonlinear_arith)
                requires
                    w <= 0x1_0000_0000_0000_0000,
            ;
        }
        let s = div_round_wide(w as u128 * MAX_EMU as u128, h as u128);
        (s as u64, MAX_EMU)
    } else {
        (w, h)
    }
}

/// The size an image is shown at, from its bytes and the resolution in dots per inch.
pub fn compute_image_size(bytes: &[u8], milli_dpi: u32) -> (r: (u64, u64))
    requires
        milli_dpi > 0,
    ensures
        r.0 as int == image_size(bytes@, milli_dpi as int).0,
        r.1 as int == image_size(bytes@, milli_dpi as int).1,
{
    match get_image_dimensions(bytes) {
        Ok((wp, hp)) => {
            let k = EMU_PER_INCH_MILLI as u128;
            let cap = MAX_EMU as u128;
            let d = milli_dpi as u128;
            let w = wp as u128;
            let h = hp as u128;
            if wp >= hp && w * k > cap * d {
                let s = div_round_wide(h * cap, w);
                proof {
                    lemma_scaled_within_cap(hp as int, wp as int);
                }
                (MAX_EMU, s as u64)
            } else if hp > wp && h * k > cap * d {
                let s = div_round_wide(w * cap, h);
                proof {
                    lemma_scaled_within_cap(wp as int, hp as int);
                }
                (s as u64, MAX_EMU)
            } else {
                let a = div_round_wide(w * k, d);
                let b = div_round_wide(h * k, d);
                (a as u64, b as u64)
            }
        },
        Err(_) => (DEFAULT_WIDTH_EMU, DEFAULT_HEIGHT_EMU),
    }
}

/// The extension of an image's file name, from its signature.
pub fn detect_extension(b: &[u8]) -> (r: &'static str)
    ensures
        r@ == image_ext(b@),
{
    if b.len() >= 4 && b[0] == 0x89 && b[1] == 0x50 && b[2] == 0x4E && b[3] == 0x47 {
        "png"
    } else if b.len() >= 3 && b[0] == 0xFF && b[1] == 0xD8 && b[2] == 0xFF {
        "jpg"
    } else {
        "png"
    }
}

/// The inline drawing that shows an image: its relationship id, its number (used for
/// both drawing ids), its size in length units, a name and a description.
pub open spec fn drawing_markup(
    rel_id: Seq<char>,
    image_id: nat,
    width: nat,
    height: nat,
    name: Seq<char>,
    descr: Seq<char>,
) -> Seq<char> {
    "<w:r><w:drawing><wp:inline distT=\"0\" distB=\"0\" distL=\"114300\" distR=\"114300\"><wp:extent cx=\""@ + dec_text(width) + "\" cy=\""@ + dec_text(height) + "\"/><wp:effectExtent l=\"0\" t=\"0\" r=\"24765\" b=\"24130\"/><wp:docPr id=\""@ + dec_text(image_id) + "\" name=\""@ + name + "\" descr=\""@ + descr + "\"/><wp:cNvGraphicFramePr><a:graphicFrameLocks xmlns:a=\"http://schemas.openxmlformats.org/drawingml/2006/main\" noChangeAspect=\"1\"/></wp:cNvGraphicFramePr><a:graphic xmlns:a=\"http://schemas.openxmlformats.org/drawingml/2006/main\"><a:graphicData uri=\"http://schemas.openxmlformats.org/drawingml/2006/picture\"><pic:pic xmlns:pic=\"http://schemas.openxmlformats.org/drawingml/2006/picture\"><pic:nvPicPr><pic:cNvPr id=\""@ + dec_text(image_id) + "\" name=\""@ + name + "\" descr=\""@ + descr + "\"/><pic:cNvPicPr><a:picLocks noChangeAspect=\"1\"/></pic:cNvPicPr></pic:nvPicPr><pic:blipFill><a:blip r:embed=\""@ + rel_id + "\"/><a:stretch><a:fillRect/></a:stretch></pic:blipFill><pic:spPr><a:xfrm><a:off x=\"0\" y=\"0\"/><a:ext cx=\""@ + dec_text(width) + "\" cy=\""@ + dec_text(height) + "\"/></a:xfrm><a:prstGeom prst=\"rect\"><a:avLst/></a:prstGeom></pic:spPr></pic:pic></a:graphicData></a:graphic></wp:inline></w:drawing></w:r>"@
}

/// The inline drawing markup of an image, as [`drawing_markup`] states.
pub fn generate_xml_drawing_inner(
    relationship_id: &str,
    image_id: u64,
    width: u64,
    height: u64,
    name: &str,
    descr: &str,
) -> (r: String)
    ensures
        r@ == drawing_markup(relationship_id@, image_id as nat, width as nat, height as nat, name@, descr@),
{
    let wt = decimal(width);
    let ht = decimal(height);
    let idt = decimal(image_id);
    let mut xml = String::from_str("<w:r><w:drawing><wp:inline distT=\"0\" distB=\"0\" distL=\"114300\" distR=\"114300\"><wp:extent cx=\"");
    xml.append(wt.as_str());
    xml.append("\" cy=\"");
    xml.append(ht.as_str());
    xml.append("\"/><wp:effectExtent l=\"0\" t=\"0\" r=\"24765\" b=\"24130\"/><wp:docPr id=\"");
    xml.append(idt.as_str());
    xml.append("\" name=\"");
    xml.append(name);
    xml.append("\" descr=\"");
    xml.append(descr);
    xml.append("\"/><wp:cNvGraphicFramePr><a:graphicFrameLocks xmlns:a=\"http://schemas.openxmlformats.org/drawingml/2006/main\" noChangeAspect=\"1\"/></wp:cNvGraphicFramePr><a:graphic xmlns:a=\"http://schemas.openxmlformats.org/drawingml/2006/main\"><a:graphicData uri=\"http://schemas.openxmlformats.org/drawingml/2006/picture\"><pic:pic xmlns:pic=\"http://schemas.openxmlformats.org/drawingml/2006/picture\"><pic:nvPicPr><pic:cNvPr id=\"");
    xml.append(idt.as_str());
    xml.append("\" name=\"");
    xml.append(name);
    xml.append("\" descr=\"");
    xml.append(descr);
    xml.append("\"/><pic:cNvPicPr><a:picLocks noChangeAspect=\"1\"/></pic:cNvPicPr></pic:nvPicPr><pic:blipFill><a:blip r:embed=\"");
    xml.append(relationship_id);
    xml.append("\"/><a:stretch><a:fillRect/></a:stretch></pic:blipFill><pic:spPr><a:xfrm><a:off x=\"0\" y=\"0\"/><a:ext cx=\"");
    xml.append(wt.as_str());
    xml.append("\" cy=\"");
    xml.append(ht.as_str());
    xml.append("\"/></a:xfrm><a:prstGeom prst=\"rect\"><a:avLst/></a:prstGeom></pic:spPr></pic:pic></a:graphicData></a:graphic></wp:inline></w:drawing></w:r>");
    xml
}

/// An image stored for the output package: its file name under the media directory
/// and its bytes.
pub struct ImageRecord {
    pub filename: String,
    pub bytes: Bytes,
}

/// Where an embedded image stands: its relationship id and number, and its size in
/// length units.
pub struct ImagePlacement {
    pub rel_id: String,
    pub image_id: u64,
    pub width: u64,
    pub height: u64,
}

/// The state of an [`ImageManager`].
pub struct ImagesView {
    /// The resolution that pixel sizes are read at, in thousandths of a dot per inch.
    pub milli_dpi: nat,
    /// File names and bytes of the images stored, in order.
    pub images: Seq<(Seq<char>, Seq<u8>)>,
}

/// No two stored images share a file name.
pub open spec fn names_distinct(v: ImagesView) -> bool {
    forall|i: int, j: int|
        0 <= i < j < v.images.len() ==> #[trigger] v.images[i].0 != #[trigger] v.images[j].0
}

/// `image_{u}.{ext}`
pub open spec fn image_filename(u: Seq<char>, ext: Seq<char>) -> Seq<char> {
    "image_"@ + u + "."@ + ext
}

/// What embedding `payload` does when it succeeds with `p`: the decoded bytes are stored
/// once under a fresh `image_{u}.{ext}` name, that name gets the next relationship id,
/// and the size is the one the bytes give at the manager's resolution.
pub open spec fn embedded(
    before: ImagesView,
    after: ImagesView,
    rels_before: RelsView,
    rels_after: RelsView,
    payload: Seq<char>,
    p: ImagePlacement,
) -> bool {
    &&& base64_decoded(payload) is Some
    &&& {
        let b = base64_decoded(payload)->0;
        &&& rels_before.next_id < u64::MAX
        &&& p.rel_id@ == rel_id_text(rels_before.next_id)
        &&& p.image_id as nat == rels_before.next_id
        &&& p.width as int == image_size(b, before.milli_dpi as int).0
        &&& p.height as int == image_size(b, before.milli_dpi as int).1
        &&& rels_after.next_id == rels_before.next_id + 1
        &&& rels_after.document == rels_before.document
        &&& after.milli_dpi == before.milli_dpi
        &&& exists|u: Seq<char>|
            {
                &&& forall|i: int|
                    0 <= i < before.images.len() ==> before.images[i].0 != #[trigger] image_filename(
                        u,
                        image_ext(b),
                    )
                &&& after.images == before.images.push((image_filename(u, image_ext(b)), b))
                &&& rels_after.pending == rels_before.pending.push(
                    rel_fragment(p.rel_id@, image_filename(u, image_ext(b))),
                )
            }
    }
}

/// What embedding `payload` does when it succeeds with markup `xml`: as [`embedded`]
/// states, and `xml` is the image's drawing, named `Picture {number}` with the default
/// description.
pub open spec fn embedded_markup(
    before: ImagesView,
    after: ImagesView,
    rels_before: RelsView,
    rels_after: RelsView,
    payload: Seq<char>,
    xml: Seq<char>,
) -> bool {
    exists|p: ImagePlacement|
        {
            &&& #[trigger] embedded(before, after, rels_before, rels_after, payload, p)
            &&& xml == drawing_markup(
                p.rel_id@,
                p.image_id as nat,
                p.width as nat,
                p.height as nat,
                "Picture "@ + dec_text(p.image_id as nat),
                DEFAULT_IMAGE_DESCRIPTION@,
            )
        }
}

/// `image_{u}.{ext}`
fn image_name(u: &String, ext: &str) -> (r: String)
    ensures
        r@ == image_filename(u@, ext@),
{
    let mut name = String::from_str("image_");
    name.append(u.as_str());
    name.append(".");
    name.append(ext);
    assert(name@ =~= image_filename(u@, ext@));
    name
}

/// Holds the images embedded in one generation pass.
pub struct ImageManager {
    milli_dpi: u32,
    images: Vec<ImageRecord>,
}

impl View for ImageManager {
    type V = ImagesView;

    closed spec fn view(&self) -> ImagesView {
        ImagesView {
            milli_dpi: self.milli_dpi as nat,
            images: Seq::new(
                self.images@.len(),
                |i: int| (self.images@[i].filename@, bytes_view(self.images@[i].bytes)),
            ),
        }
    }
}

impl ImageManager {
    /// A manager with no image, sizing pixels at `milli_dpi` thousandths of a dot per
    /// inch (96 dpi is 96000).
    pub fn new(milli_dpi: u32) -> (r: Self)
        requires
            milli_dpi > 0,
        ensures
            r@.milli_dpi == milli_dpi,
            r@.images.len() == 0,
            names_distinct(r@),
    {
        let r = ImageManager { milli_dpi, images: Vec::new() };
        assert(r@.images =~= Seq::<(Seq<char>, Seq<u8>)>::empty());
        r
    }

    /// The images stored so far.
    pub fn get_images(&self) -> (r: &Vec<ImageRecord>)
        ensures
            r@.len() == self@.images.len(),
            forall|i: int|
                0 <= i < r@.len() ==> (#[trigger] r@[i]).filename@ == self@.images[i].0
                    && bytes_view(r@[i].bytes) == self@.images[i].1,
    {
        &self.images
    }

    fn name_taken(&self, name: &String) -> (r: bool)
        ensures
            r == exists|i: int| 0 <= i < self@.images.len() && self@.images[i].0 == name@,
    {
        let mut i: usize = 0;
        while i < self.images.len()
            invariant
                i <= self.images@.len(),
                forall|j: int| 0 <= j < i ==> self@.images[j].0 != name@,
            decreases self.images@.len() - i,
        {
            if self.images[i].filename == *name {
                assert(self@.images[i as int].0 == name@);
                return true;
            }
            i = i + 1;
        }
        false
    }

    fn longest_name(&self) -> (r: usize)
        ensures
            forall|i: int| 0 <= i < self@.images.len() ==> self@.images[i].0.len() <= r,
    {
        let mut m: usize = 0;
        let mut i: usize = 0;
        while i < self.images.len()
            invariant
                i <= self.images@.len(),
                forall|j: int| 0 <= j < i ==> self@.images[j].0.len() <= m,
            decreases self.images@.len() - i,
        {
            let n = self.images[i].filename.as_str().unicode_len();
            if n > m {
                m = n;
            }
            i = i + 1;
        }
        m
    }

    /// Decodes a base64 image, stores its bytes under a file name that no stored image
    /// has, registers it
    /// with `rel_manager` and sizes it. Fails only on invalid base64, or where
    /// relationship ids have run out; nothing changes then.
    pub fn process_base64(&mut self, base64_data: &str, rel_manager: &mut RelationshipManager) -> (r:
        Result<ImagePlacement, ImageError>)
        requires
            old(self)@.milli_dpi > 0,
        ensures
            match r {
                Ok(p) => embedded(
                    old(self)@,
                    final(self)@,
                    old(rel_manager)@,
                    final(rel_manager)@,
                    base64_data@,
                    p,
                ),
                Err(ImageError::InvalidBase64) => base64_decoded(base64_data@) is None
                    && final(self)@ == old(self)@ && final(rel_manager)@ == old(rel_manager)@,
                Err(ImageError::IdsExhausted) => base64_decoded(base64_data@) is Some
                    && old(rel_manager)@.next_id == u64::MAX && final(self)@ == old(self)@
                    && final(rel_manager)@ == old(rel_manager)@,
            },
            names_distinct(old(self)@) ==> names_distinct(final(self)@),
    {
        let image_bytes = match decode_base64(base64_data) {
            Some(b) => b,
            None => {
                return Err(ImageError::InvalidBase64);
            },
        };
        if rel_manager.next_id() == u64::MAX {
            return Err(ImageError::IdsExhausted);
        }
        let extension = detect_extension(image_bytes.as_slice());
        let mut uuid = fresh_identifier();
        let mut filename = image_name(&uuid, extension);
        if self.name_taken(&filename) {
            let longest = self.longest_name();
            let mut pad: usize = 0;
            proof {
                reveal_strlit("0");
            }
            while pad < longest
                invariant
                    pad <= longest,
                    uuid@.len() >= pad,
                decreases longest - pad,
            {
                proof {
                    reveal_strlit("0");
                }
                uuid.append("0");
                pad = pad + 1;
            }
            uuid.append("0");
            filename = image_name(&uuid, extension);
            proof {
                reveal_strlit("image_");
                reveal_strlit(".");
                assert(filename@.len() > longest);
            }
        }
        let ghost fname = image_filename(uuid@, image_ext(image_bytes@));
        let (rel_id, image_id) = rel_manager.add_image_relationship(filename.as_str());
        let ghost before = self@;
        let ghost bv = image_bytes@;
        let (width_emu, height_emu) = compute_image_size(image_bytes.as_slice(), self.milli_dpi);
        self.images.push(ImageRecord { filename, bytes: bytes_from_vec(image_bytes) });
        assert(self@.images =~= before.images.push((fname, bv)));
        assert(self@.images == old(self)@.images.push((image_filename(uuid@, image_ext(bv)), bv)));
        let r = ImagePlacement { rel_id, image_id, width: width_emu, height: height_emu };
        assert(base64_decoded(base64_data@)->0 == bv);
        Ok(r)
    }

    /// Embeds a base64 image and returns its inline drawing markup, named
    /// `Picture {number}` with the default description.
    pub fn embed_image(&mut self, base64_data: &str, rel_manager: &mut RelationshipManager) -> (r:
        Result<String, ImageError>)
        requires
            old(self)@.milli_dpi > 0,
        ensures
            match r {
                Ok(xml) => embedded_markup(
                    old(self)@,
                    final(self)@,
                    old(rel_manager)@,
                    final(rel_manager)@,
                    base64_data@,
                    xml@,
                ),
                Err(ImageError::InvalidBase64) => base64_decoded(base64_data@) is None
                    && final(self)@ == old(self)@ && final(rel_manager)@ == old(rel_manager)@,
                Err(ImageError::IdsExhausted) => base64_decoded(base64_data@) is Some
                    && old(rel_manager)@.next_id == u64::MAX && final(self)@ == old(self)@
                    && final(rel_manager)@ == old(rel_manager)@,
            },
    {
        let p = self.process_base64(base64_data, rel_manager)?;
        let mut name = String::from_str("Picture ");
        let num = decimal(p.image_id);
        name.append(num.as_str());
        let xml = generate_xml_drawing_inner(
            p.rel_id.as_str(),
            p.image_id,
            p.width,
            p.height,
            name.as_str(),
            DEFAULT_IMAGE_DESCRIPTION,
        );
        Ok(xml)
    }
}

} // verus!
