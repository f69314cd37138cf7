//! Resource definitions (DocumentRes.xml, PublicRes.xml) and image header
//! inspection.

use vstd::prelude::*;

verus! {

/// Image format for multimedia resources.
#[derive(Debug, Clone, Copy, PartialEq, Eq, Structural)]
pub enum ImageFormat {
    Jpeg,
    Png,
    Bmp,
    Tiff,
}

/// File extension of a format (without dot).
pub open spec fn extension_text(f: ImageFormat) -> Seq<char> {
    match f {
        ImageFormat::Jpeg => "jpg"@,
        ImageFormat::Png => "png"@,
        ImageFormat::Bmp => "bmp"@,
        ImageFormat::Tiff => "tiff"@,
    }
}

/// Format name used in OFD XML.
pub open spec fn ofd_format_text(f: ImageFormat) -> Seq<char> {
    match f {
        ImageFormat::Jpeg => "JPEG"@,
        ImageFormat::Png => "PNG"@,
        ImageFormat::Bmp => "BMP"@,
        ImageFormat::Tiff => "TIFF"@,
    }
}

/// MIME type of a format.
pub open spec fn mime_type_text(f: ImageFormat) -> Seq<char> {
    match f {
        ImageFormat::Jpeg => "image/jpeg"@,
        ImageFormat::Png => "image/png"@,
        ImageFormat::Bmp => "image/bmp"@,
        ImageFormat::Tiff => "image/tiff"@,
    }
}

/// The format announced by the magic number at the start of `d`.
pub open spec fn detect_format(d: Seq<u8>) -> Option<ImageFormat> {
    if d.len() < 4 {
        None
    } else if d[0] == 0xFF && d[1] == 0xD8 {
        Some(ImageFormat::Jpeg)
    } else if d[0] == 0x89 && d[1] == 0x50 && d[2] == 0x4E && d[3] == 0x47 {
        Some(ImageFormat::Png)
    } else if d[0] == 0x42 && d[1] == 0x4D {
        Some(ImageFormat::Bmp)
    } else if (d[0] == 0x49 && d[1] == 0x49) || (d[0] == 0x4D && d[1] == 0x4D) {
        Some(ImageFormat::Tiff)
    } else {
        None
    }
}

/// ASCII lower case of one character; other characters are kept.
pub open spec fn ascii_lower(c: char) -> char {
    if 'A' <= c && c <= 'Z' {
        ((c as u32) + 32) as char
    } else {
        c
    }
}

/// ASCII lower case of a text.
pub open spec fn ascii_lower_text(s: Seq<char>) -> Seq<char> {
    Seq::new(s.len(), |i: int| ascii_lower(s[i]))
}

/// The format named by a file extension, compared without regard to case.
pub open spec fn format_of_extension(ext: Seq<char>) -> Option<ImageFormat> {
    let e = ascii_lower_text(ext);
    if e == "jpg"@ || e == "jpeg"@ {
        Some(ImageFormat::Jpeg)
    } else if e == "png"@ {
        Some(ImageFormat::Png)
    } else if e == "bmp"@ {
        Some(ImageFormat::Bmp)
    } else if e == "tif"@ || e == "tiff"@ {
        Some(ImageFormat::Tiff)
    } else {
        None
    }
}

impl ImageFormat {
    /// File extension (without dot).
    pub fn extension(&self) -> (e: &'static str)
        ensures
            e@ == extension_text(*self),
    {
        match self {
            ImageFormat::Jpeg => "jpg",
            ImageFormat::Png => "png",
            ImageFormat::Bmp => "bmp",
            ImageFormat::Tiff => "tiff",
        }
    }

    /// Format name for OFD XML (upper case, as ofdrw writes it).
    pub fn ofd_format(&self) -> (n: &'static str)
        ensures
            n@ == ofd_format_text(*self),
    {
        match self {
            ImageFormat::Jpeg => "JPEG",
            ImageFormat::Png => "PNG",
            ImageFormat::Bmp => "BMP",
            ImageFormat::Tiff => "TIFF",
        }
    }

    /// MIME type string.
    pub fn mime_type(&self) -> (m: &'static str)
        ensures
            m@ == mime_type_text(*self),
    {
        match self {
            ImageFormat::Jpeg => "image/jpeg",
            ImageFormat::Png => "image/png",
            ImageFormat::Bmp => "image/bmp",
            ImageFormat::Tiff => "image/tiff",
        }
    }

    /// Detect image format from file header bytes (magic number).
    pub fn detect(data: &[u8]) -> (f: Option<Self>)
        ensures
            f == detect_format(data@),
    {
        if data.len() < 4 {
            return None;
        }
        if data[0] == 0xFF && data[1] == 0xD8 {
            Some(ImageFormat::Jpeg)
        } else if data[0] == 0x89 && data[1] == 0x50 && data[2] == 0x4E && data[3] == 0x47 {
            Some(ImageFormat::Png)
        } else if data[0] == 0x42 && data[1] == 0x4D {
            Some(ImageFormat::Bmp)
        } else if (data[0] == 0x49 && data[1] == 0x49) || (data[0] == 0x4D && data[1] == 0x4D) {
            Some(ImageFormat::Tiff)
        } else {
            None
        }
    }

    /// Detect format from file extension, ignoring ASCII case.
    ///
    /// Matching the ASCII lower case is the same as matching the full
    /// Unicode lower case here: no other character lowers to a letter of
    /// "jpeg", "png", "bmp" or "tiff" as a single character.
    pub fn from_extension(ext: &str) -> (f: Option<Self>)
        ensures
            f == format_of_extension(ext@),
    {
        let lower = lower_ascii_chars(ext);
        let ghost e = ascii_lower_text(ext@);
        proof {
            reveal_strlit("jpg");
            reveal_strlit("jpeg");
            reveal_strlit("png");
            reveal_strlit("bmp");
            reveal_strlit("tif");
            reveal_strlit("tiff");
        }
        let n = lower.len();
        if n == 3 && lower[0] == 'j' && lower[1] == 'p' && lower[2] == 'g' {
            assert(e =~= "jpg"@);
            Some(ImageFormat::Jpeg)
        } else if n == 4 && lower[0] == 'j' && lower[1] == 'p' && lower[2] == 'e' && lower[3] == 'g' {
            assert(e =~= "jpeg"@);
            Some(ImageFormat::Jpeg)
        } else if n == 3 && lower[0] == 'p' && lower[1] == 'n' && lower[2] == 'g' {
            assert(e =~= "png"@);
            assert(e != "jpg"@ && e != "jpeg"@);
            Some(ImageFormat::Png)
        } else if n == 3 && lower[0] == 'b' && lower[1] == 'm' && lower[2] == 'p' {
            assert(e =~= "bmp"@);
            assert(e != "jpg"@ && e != "jpeg"@ && e != "png"@);
            Some(ImageFormat::Bmp)
        } else if n == 3 && lower[0] == 't' && lower[1] == 'i' && lower[2] == 'f' {
            assert(e =~= "tif"@);
            assert(e != "jpg"@ && e != "jpeg"@ && e != "png"@ && e != "bmp"@);
            Some(ImageFormat::Tiff)
        } else if n == 4 && lower[0] == 't' && lower[1] == 'i' && lower[2] == 'f' && lower[3] == 'f' {
            assert(e =~= "tiff"@);
            assert(e != "jpg"@ && e != "jpeg"@ && e != "png"@ && e != "bmp"@ && e != "tif"@);
            Some(ImageFormat::Tiff)
        } else {
            assert(e != "jpg"@) by { if e == "jpg"@ { assert(e[0] == 'j' && e[1] == 'p' && e[2] == 'g'); } }
            assert(e != "jpeg"@) by { if e == "jpeg"@ { assert(e[0] == 'j' && e[1] == 'p' && e[2] == 'e' && e[3] == 'g'); } }
            assert(e != "png"@) by { if e == "png"@ { assert(e[0] == 'p' && e[1] == 'n' && e[2] == 'g'); } }
            assert(e != "bmp"@) by { if e == "bmp"@ { assert(e[0] == 'b' && e[1] == 'm' && e[2] == 'p'); } }
            assert(e != "tif"@) by { if e == "tif"@ { assert(e[0] == 't' && e[1] == 'i' && e[2] == 'f'); } }
            assert(e != "tiff"@) by { if e == "tiff"@ { assert(e[0] == 't' && e[1] == 'i' && e[2] == 'f' && e[3] == 'f'); } }
            None
        }
    }
}

/// The characters of `s` in ASCII lower case.
fn lower_ascii_chars(s: &str) -> (v: Vec<char>)
    ensures
        v@ == ascii_lower_text(s@),
{
    let mut v: Vec<char> = Vec::new();
    let mut it = s.chars();
    for c in iter: it
        invariant
            iter.seq() == s@,
            v@ =~= ascii_lower_text(s@.take(iter.index() as int)),
    {
        let l = if c >= 'A' && c <= 'Z' {
            ((c as u8) + 32) as char
        } else {
            c
        };
        v.push(l);
    }
    assert(s@.take(s@.len() as int) =~= s@);
    v
}

/// The JPEG header walk reads a frame header (SOF0 to SOF3) where it finds
/// one: height from the big-endian bytes 5-6 after the marker's `FF`,
/// width from bytes 7-8.
pub proof fn lemma_jpeg_reads_frame_header(d: Seq<u8>, i: int)
    requires
        0 <= i,
        i + 9 < d.len(),
        d[i] == 0xFF,
        0xC0 <= d[i + 1] <= 0xC3,
    ensures
        jpeg_scan(d, i) == Some(
            (((d[i + 7] as int) * 256 + d[i + 8] as int) as u32, ((d[i + 5] as int) * 256 + d[i + 6] as int) as u32),
        ),
{
}

/// The JPEG header walk skips any other segment by its full big-endian
/// 16-bit length (bytes 2-3 after the marker's `FF`, counting themselves):
/// what the segment holds is never read.
pub proof fn lemma_jpeg_skips_segment(d: Seq<u8>, i: int)
    requires
        0 <= i,
        i + 3 < d.len(),
        d[i] == 0xFF,
        d[i + 1] != 0x00,
        d[i + 1] != 0xFF,
        !(0xC0 <= d[i + 1] <= 0xC3),
    ensures
        jpeg_scan(d, i) == jpeg_scan(d, i + 2 + (d[i + 2] as int) * 256 + d[i + 3] as int),
{
}

/// A JPEG whose start-of-image marker is followed by one application
/// segment of length `len` and then a frame header has the frame header's
/// dimensions, whatever the application segment holds.
pub proof fn lemma_jpeg_after_one_segment(d: Seq<u8>, len: int)
    requires
        d.len() > 4 + len + 9,
        len >= 2,
        d[0] == 0xFF,
        d[1] == 0xD8,
        d[2] == 0xFF,
        0xE0 <= d[3] <= 0xEF,
        (d[4] as int) * 256 + d[5] as int == len,
        d[4 + len] == 0xFF,
        0xC0 <= d[4 + len + 1] <= 0xC3,
    ensures
        image_dimensions(d) == Some(
            (
                ((d[4 + len + 7] as int) * 256 + d[4 + len + 8] as int) as u32,
                ((d[4 + len + 5] as int) * 256 + d[4 + len + 6] as int) as u32,
            ),
        ),
{
    assert(detect_format(d) == Some(ImageFormat::Jpeg));
    lemma_jpeg_skips_segment(d, 2);
    lemma_jpeg_reads_frame_header(d, 4 + len);
}

/// ASCII upper case of one character; other characters are kept.
pub open spec fn ascii_upper(c: char) -> char {
    if 'a' <= c && c <= 'z' {
        ((c as u32) - 32) as char
    } else {
        c
    }
}

/// ASCII upper case of a text.
pub open spec fn ascii_upper_text(s: Seq<char>) -> Seq<char> {
    Seq::new(s.len(), |i: int| ascii_upper(s[i]))
}

/// Extensions are recognised without regard to ASCII case: an extension,
/// its upper case and its lower case name the same format (or none).
pub proof fn lemma_extension_ignores_case(ext: Seq<char>)
    ensures
        format_of_extension(ascii_upper_text(ext)) == format_of_extension(ext),
        format_of_extension(ascii_lower_text(ext)) == format_of_extension(ext),
{
    assert forall|i: int| 0 <= i < ext.len() implies ascii_lower(ascii_upper(#[trigger] ext[i])) == ascii_lower(
        ext[i],
    ) && ascii_lower(ascii_lower(ext[i])) == ascii_lower(ext[i]) by {
        let c = ext[i];
        if 'a' <= c && c <= 'z' {
            let u = ((c as u32) - 32) as char;
            assert(u as u32 == (c as u32) - 32);
            assert('A' <= u && u <= 'Z');
            assert(((u as u32) + 32) as char == c);
        } else if 'A' <= c && c <= 'Z' {
            let l = ((c as u32) + 32) as char;
            assert(l as u32 == (c as u32) + 32);
            assert(!('A' <= l && l <= 'Z'));
        }
    }
    assert(ascii_lower_text(ascii_upper_text(ext)) =~= ascii_lower_text(ext));
    assert(ascii_lower_text(ascii_lower_text(ext)) =~= ascii_lower_text(ext));
}

/// The extension of a format is recognised as that format again.
pub proof fn lemma_extension_round_trip(f: ImageFormat)
    ensures
        format_of_extension(extension_text(f)) == Some(f),
{
    reveal_strlit("jpg");
    reveal_strlit("jpeg");
    reveal_strlit("png");
    reveal_strlit("bmp");
    reveal_strlit("tif");
    reveal_strlit("tiff");
    let e = extension_text(f);
    assert(ascii_lower_text(e) =~= e);
    match f {
        ImageFormat::Jpeg => {},
        ImageFormat::Png => {
            assert(e[0] != "jpg"@[0]);
            assert(e[0] != "jpeg"@[0]);
        },
        ImageFormat::Bmp => {
            assert(e[0] != "jpg"@[0]);
            assert(e[0] != "jpeg"@[0]);
            assert(e[0] != "png"@[0]);
        },
        ImageFormat::Tiff => {
            assert(e.len() != "jpg"@.len());
            assert(e[0] != "jpeg"@[0]);
            assert(e.len() != "png"@.len());
            assert(e.len() != "bmp"@.len());
            assert(e.len() != "tif"@.len());
        },
    }
}

/// Big-endian 16-bit value at `i`.
pub open spec fn be_u16(d: Seq<u8>, i: int) -> nat {
    (d[i] * 256 + d[i + 1]) as nat
}

/// Big-endian 32-bit value at `i`.
pub open spec fn be_u32(d: Seq<u8>, i: int) -> nat {
    (d[i] * 0x100_0000 + d[i + 1] * 0x1_0000 + d[i + 2] * 0x100 + d[i + 3]) as nat
}

/// Little-endian 32-bit value at `i`.
pub open spec fn le_u32(d: Seq<u8>, i: int) -> nat {
    (d[i] + d[i + 1] * 0x100 + d[i + 2] * 0x1_0000 + d[i + 3] * 0x100_0000) as nat
}

/// Magnitude of a 32-bit two's complement value given by its bits.
pub open spec fn magnitude_i32(bits: nat) -> nat {
    if bits < 0x8000_0000 {
        bits
    } else {
        (0x1_0000_0000 - bits) as nat
    }
}

/// PNG: width and height from the IHDR chunk that follows the signature.
pub open spec fn png_dimensions(d: Seq<u8>) -> Option<(u32, u32)> {
    if d.len() < 24 {
        None
    } else if !(d[12] == 0x49 && d[13] == 0x48 && d[14] == 0x44 && d[15] == 0x52) {
        None
    } else {
        Some((be_u32(d, 16) as u32, be_u32(d, 20) as u32))
    }
}

/// JPEG: the segment walk from byte `i` looking for a start-of-frame
/// marker (SOF0..SOF3), which holds height then width.
pub open spec fn jpeg_scan(d: Seq<u8>, i: int) -> Option<(u32, u32)>
    decreases (if i < d.len() { d.len() - i } else { 0 }),
{
    if i < 0 || i + 1 >= d.len() {
        None
    } else if d[i] != 0xFF {
        jpeg_scan(d, i + 1)
    } else {
        let marker = d[i + 1];
        if marker == 0x00 || marker == 0xFF {
            jpeg_scan(d, i + 1)
        } else if 0xC0 <= marker && marker <= 0xC3 && i + 9 < d.len() {
            Some((be_u16(d, i + 7) as u32, be_u16(d, i + 5) as u32))
        } else if i + 3 < d.len() {
            jpeg_scan(d, i + 2 + be_u16(d, i + 2))
        } else {
            None
        }
    }
}

/// JPEG: the scan starts after the SOI marker.
pub open spec fn jpeg_dimensions(d: Seq<u8>) -> Option<(u32, u32)> {
    jpeg_scan(d, 2)
}

/// BMP: width at offset 18, height (signed, as magnitude) at offset 22.
pub open spec fn bmp_dimensions(d: Seq<u8>) -> Option<(u32, u32)> {
    if d.len() < 26 {
        None
    } else {
        Some((le_u32(d, 18) as u32, magnitude_i32(le_u32(d, 22)) as u32))
    }
}

/// Pixel dimensions read from the header of a detected format.
pub open spec fn image_dimensions(d: Seq<u8>) -> Option<(u32, u32)> {
    match detect_format(d) {
        Some(ImageFormat::Png) => png_dimensions(d),
        Some(ImageFormat::Jpeg) => jpeg_dimensions(d),
        Some(ImageFormat::Bmp) => bmp_dimensions(d),
        Some(ImageFormat::Tiff) => None,
        None => None,
    }
}

/// Read pixel dimensions from image file header.
/// Returns (width, height) in pixels, or `None` if parsing fails.
pub fn detect_image_dimensions(data: &[u8]) -> (dims: Option<(u32, u32)>)
    ensures
        dims == image_dimensions(data@),
{
    let format = ImageFormat::detect(data);
    match format {
        Some(ImageFormat::Png) => detect_png_dimensions(data),
        Some(ImageFormat::Jpeg) => detect_jpeg_dimensions(data),
        Some(ImageFormat::Bmp) => detect_bmp_dimensions(data),
        Some(ImageFormat::Tiff) => None,
        None => None,
    }
}

fn read_be_u16(data: &[u8], i: usize) -> (v: u16)
    requires
        i + 1 < data@.len(),
    ensures
        v as nat == be_u16(data@, i as int),
{
    (data[i] as u16) * 256 + (data[i + 1] as u16)
}

fn read_be_u32(data: &[u8], i: usize) -> (v: u32)
    requires
        i + 3 < data@.len(),
    ensures
        v as nat == be_u32(data@, i as int),
{
    (data[i] as u32) * 0x100_0000 + (data[i + 1] as u32) * 0x1_0000 + (data[i + 2] as u32) * 0x100
        + (data[i + 3] as u32)
}

fn read_le_u32(data: &[u8], i: usize) -> (v: u32)
    requires
        i + 3 < data@.len(),
    ensures
        v as nat == le_u32(data@, i as int),
{
    (data[i] as u32) + (data[i + 1] as u32) * 0x100 + (data[i + 2] as u32) * 0x1_0000
        + (data[i + 3] as u32) * 0x100_0000
}

fn detect_png_dimensions(data: &[u8]) -> (dims: Option<(u32, u32)>)
    ensures
        dims == png_dimensions(data@),
{
    // PNG IHDR chunk: signature(8) + length(4) + "IHDR"(4) + width(4) + height(4)
    if data.len() < 24 {
        return None;
    }
    if !(data[12] == 0x49 && data[13] == 0x48 && data[14] == 0x44 && data[15] == 0x52) {
        return None;
    }
    let w = read_be_u32(data, 16);
    let h = read_be_u32(data, 20);
    Some((w, h))
}

fn detect_jpeg_dimensions(data: &[u8]) -> (dims: Option<(u32, u32)>)
    ensures
        dims == jpeg_dimensions(data@),
{
    // Scan for SOFn markers (0xFFC0..0xFFC3) which contain dimensions.
    if data.len() < 3 {
        return None;
    }
    let mut i: usize = 2;  // skip SOI (0xFFD8)
    while data.len() - i > 1
        invariant
            2 <= i <= data@.len(),
            jpeg_scan(data@, i as int) == jpeg_dimensions(data@),
        decreases data@.len() - i,
    {
        if data[i] != 0xFF {
            i += 1;
            continue;
        }
        let marker = data[i + 1];
        if marker == 0x00 || marker == 0xFF {
            i += 1;
            continue;
        }
        if 0xC0 <= marker && marker <= 0xC3 && data.len() - i > 9 {
            let h = read_be_u16(data, i + 5) as u32;
            let w = read_be_u16(data, i + 7) as u32;
            return Some((w, h));
        }
        if data.len() - i > 3 {
            let len = read_be_u16(data, i + 2) as usize;
            if 2 + len > data.len() - i {
                // the next segment would start past the end: nothing found
                assert(jpeg_scan(data@, i + 2 + len) == None::<(u32, u32)>);
                return None;
            }
            i += 2 + len;
        } else {
            return None;
        }
    }
    None
}

fn detect_bmp_dimensions(data: &[u8]) -> (dims: Option<(u32, u32)>)
    ensures
        dims == bmp_dimensions(data@),
{
    // BMP header: width at offset 18 (4 bytes LE), height at offset 22 (4 bytes LE, signed).
    if data.len() < 26 {
        return None;
    }
    let w = read_le_u32(data, 18);
    let bits = read_le_u32(data, 22);
    let h: u32 = if bits < 0x8000_0000 {
        bits
    } else {
        ((0x1_0000_0000u64 - bits as u64) as u32)
    };
    Some((w, h))
}

/// Internal multimedia resource definition used during assembly.
#[derive(Debug)]
pub struct MediaDef {
    pub id: u32,
    pub format: ImageFormat,
    /// File name within Res/ directory (e.g. "Image_0.jpg").
    pub file_name: String,
}

/// Internal font resource definition (PublicRes.xml).
#[derive(Debug)]
pub struct FontDef {
    pub id: u32,
    pub font_name: String,
    pub family_name: Option<String>,
}

} // verus!
