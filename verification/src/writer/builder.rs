//! High-level OFD writer / builder.

use vstd::prelude::*;
use std::time::{Duration, SystemTime, UNIX_EPOCH};

use crate::model::document::{PageDef, PageSize, PPM_DEFAULT, length_at_dpi, length_at_ppm, page_box};
use vstd::utf8::encode_utf8;
use crate::model::graphic::{GraphicObject, ImageObject};
use crate::model::ofd::{DocInfo, DocInfoView};
use crate::model::resource::{
    ImageFormat, MediaDef, detect_format, detect_image_dimensions, extension_text, image_dimensions,
};
use crate::text::{decimal, push_decimal, push_signed_zero_padded, push_zero_padded, signed_zero_padded, zero_padded};
use crate::types::StBox;
use crate::writer::archive::{
    ArchiveWriter, Compression, MAX_ENTRY_BYTES, data_len, entry_fits, last_fits, name_is_new, zip_archive,
    zip_entries, zip_finish, zip_start_file, zip_write_all, zip_writer_new,
};
use crate::writer::calendar::{civil_from_days, days_to_ymd};
use crate::writer::xml_gen;
use crate::writer::xml_gen::{content_xml, document_res_xml, document_xml, ofd_xml};

verus! {

/// Library name used as default Creator in DocInfo.
pub const LIB_NAME: &'static str = "ofd-rs";

/// Library version used as default CreatorVersion in DocInfo.
pub const LIB_VERSION: &'static str = "0.1.0";

/// Source for a single image page to be embedded in the OFD.
///
/// Each `ImageSource` becomes one page in the output document.
/// The image fills the entire page boundary (no margins).
pub struct ImageSource {
    /// Raw image bytes.
    pub bytes: Vec<u8>,
    /// Detected or specified image format.
    pub format: ImageFormat,
    /// Page size, in ten-thousandths of a millimetre.
    pub page_size: PageSize,
}

/// An image page as values.
pub struct ImageSourceView {
    pub bytes: Seq<u8>,
    pub format: ImageFormat,
    pub page_size: PageSize,
}

impl View for ImageSource {
    type V = ImageSourceView;

    open spec fn view(&self) -> ImageSourceView {
        ImageSourceView { bytes: self.bytes@, format: self.format, page_size: self.page_size }
    }
}

/// The view of an optional image page.
pub open spec fn opt_source(s: Option<ImageSource>) -> Option<ImageSourceView> {
    match s {
        Some(src) => Some(src@),
        None => None,
    }
}

/// The page that auto detection at `dpi` makes of `bytes`: present exactly
/// when the format and the pixel dimensions can be read from the header.
pub open spec fn detected_at_dpi(bytes: Seq<u8>, dpi: nat) -> Option<ImageSourceView> {
    match (detect_format(bytes), image_dimensions(bytes)) {
        (Some(format), Some(dims)) => Some(
            ImageSourceView {
                bytes,
                format,
                page_size: PageSize {
                    width: length_at_dpi(dims.0 as nat, dpi) as u64,
                    height: length_at_dpi(dims.1 as nat, dpi) as u64,
                },
            },
        ),
        _ => None,
    }
}

/// The page that auto detection at `ppm` pixels per millimetre makes of
/// `bytes`.
pub open spec fn detected_at_ppm(bytes: Seq<u8>, ppm: nat) -> Option<ImageSourceView> {
    match (detect_format(bytes), image_dimensions(bytes)) {
        (Some(format), Some(dims)) => Some(
            ImageSourceView {
                bytes,
                format,
                page_size: PageSize {
                    width: length_at_ppm(dims.0 as nat, ppm) as u64,
                    height: length_at_ppm(dims.1 as nat, ppm) as u64,
                },
            },
        ),
        _ => None,
    }
}

impl ImageSource {
    /// Create from image bytes with explicit format and page size.
    pub fn new(bytes: Vec<u8>, format: ImageFormat, width: u64, height: u64) -> (s: Self)
        ensures
            s@ == (ImageSourceView { bytes: bytes@, format, page_size: PageSize { width, height } }),
    {
        ImageSource { bytes, format, page_size: PageSize::new(width, height) }
    }

    /// Create from JPEG bytes with known pixel dimensions and DPI.
    pub fn jpeg(bytes: Vec<u8>, width_px: u32, height_px: u32, dpi: u32) -> (s: Self)
        requires
            dpi > 0,
        ensures
            s@ == (ImageSourceView {
                bytes: bytes@,
                format: ImageFormat::Jpeg,
                page_size: PageSize {
                    width: length_at_dpi(width_px as nat, dpi as nat) as u64,
                    height: length_at_dpi(height_px as nat, dpi as nat) as u64,
                },
            }),
    {
        ImageSource {
            bytes,
            format: ImageFormat::Jpeg,
            page_size: PageSize::from_pixels(width_px, height_px, dpi),
        }
    }

    /// Create from JPEG bytes with the page size given.
    pub fn jpeg_mm(bytes: Vec<u8>, width: u64, height: u64) -> (s: Self)
        ensures
            s@ == (ImageSourceView {
                bytes: bytes@,
                format: ImageFormat::Jpeg,
                page_size: PageSize { width, height },
            }),
    {
        ImageSource { bytes, format: ImageFormat::Jpeg, page_size: PageSize::new(width, height) }
    }

    /// Create from PNG bytes with the page size given.
    pub fn png_mm(bytes: Vec<u8>, width: u64, height: u64) -> (s: Self)
        ensures
            s@ == (ImageSourceView {
                bytes: bytes@,
                format: ImageFormat::Png,
                page_size: PageSize { width, height },
            }),
    {
        ImageSource { bytes, format: ImageFormat::Png, page_size: PageSize::new(width, height) }
    }

    /// Auto-detect format and dimensions, calculate page size from DPI.
    ///
    /// Returns `None` if format or dimensions cannot be detected.
    pub fn auto_detect(bytes: Vec<u8>, dpi: u32) -> (s: Option<Self>)
        requires
            dpi > 0,
        ensures
            opt_source(s) == detected_at_dpi(bytes@, dpi as nat),
    {
        let format = match ImageFormat::detect(bytes.as_slice()) {
            Some(f) => f,
            None => return None,
        };
        let (w_px, h_px) = match detect_image_dimensions(bytes.as_slice()) {
            Some(d) => d,
            None => return None,
        };
        Some(ImageSource { bytes, format, page_size: PageSize::from_pixels(w_px, h_px, dpi) })
    }

    /// Auto-detect format and dimensions using a pixels-per-mm ratio
    /// (`mm = pixels / ppm`, as ofdrw converts); see [`PPM_DEFAULT`].
    /// Returns `None` if format or dimensions cannot be detected.
    pub fn auto_detect_ppm(bytes: Vec<u8>, ppm: u32) -> (s: Option<Self>)
        requires
            ppm > 0,
        ensures
            opt_source(s) == detected_at_ppm(bytes@, ppm as nat),
    {
        let format = match ImageFormat::detect(bytes.as_slice()) {
            Some(f) => f,
            None => return None,
        };
        let (w_px, h_px) = match detect_image_dimensions(bytes.as_slice()) {
            Some(d) => d,
            None => return None,
        };
        Some(ImageSource { bytes, format, page_size: PageSize::from_pixels_ppm(w_px, h_px, ppm) })
    }

    /// Auto-detect format and dimensions using ofdrw's default ratio
    /// (5 px/mm): the same as `auto_detect_ppm(bytes, PPM_DEFAULT)`.
    /// Returns `None` if format or dimensions cannot be detected.
    pub fn auto_detect_default(bytes: Vec<u8>) -> (s: Option<Self>)
        ensures
            opt_source(s) == detected_at_ppm(bytes@, PPM_DEFAULT as nat),
    {
        Self::auto_detect_ppm(bytes, PPM_DEFAULT)
    }

    /// Auto-detect format, use the page size given.
    ///
    /// Returns `None` if format cannot be detected from file header.
    pub fn auto_detect_mm(bytes: Vec<u8>, width: u64, height: u64) -> (s: Option<Self>)
        ensures
            opt_source(s) == match detect_format(bytes@) {
                Some(format) => Some(
                    ImageSourceView { bytes: bytes@, format, page_size: PageSize { width, height } },
                ),
                None => None,
            },
    {
        let format = match ImageFormat::detect(bytes.as_slice()) {
            Some(f) => f,
            None => return None,
        };
        Some(ImageSource { bytes, format, page_size: PageSize::new(width, height) })
    }
}

/// Errors that can occur during OFD generation.
#[derive(Debug)]
pub enum OfdError {
    /// No pages were added to the writer.
    NoPages,
    /// ZIP packaging error.
    Zip(String),
}

impl OfdError {
    /// The message of this error.
    pub fn to_text(&self) -> (t: String)
        ensures
            self is NoPages ==> t@ == "no pages added to OFD writer"@,
            self matches OfdError::Zip(msg) ==> t@ == "ZIP error: "@ + msg@,
    {
        match self {
            OfdError::NoPages => String::from_str("no pages added to OFD writer"),
            OfdError::Zip(msg) => {
                let mut t = String::from_str("ZIP error: ");
                t.append(msg.as_str());
                t
            },
        }
    }
}


/// Whether a character is a lower-case hexadecimal digit.
pub open spec fn is_lower_hex(c: char) -> bool {
    ('0' <= c && c <= '9') || ('a' <= c && c <= 'f')
}

/// The text of a random (version 4) UUID: 36 characters, lower-case hex
/// digits in groups of 8-4-4-4-12 separated by hyphens, the version digit
/// `4` at index 14 and the variant digit (8, 9, a or b) at index 19.
pub open spec fn is_uuid_v4_text(s: Seq<char>) -> bool {
    &&& s.len() == 36
    &&& forall|i: int|
        0 <= i < 36 ==> if i == 8 || i == 13 || i == 18 || i == 23 {
            s[i] == '-'
        } else {
            is_lower_hex(#[trigger] s[i])
        }
    &&& s[14] == '4'
    &&& (s[19] == '8' || s[19] == '9' || s[19] == 'a' || s[19] == 'b')
}

/// A text without its hyphens.
pub open spec fn without_hyphens(s: Seq<char>) -> Seq<char> {
    s.filter(|c: char| c != '-')
}

proof fn lemma_filter_keeps_all(s: Seq<char>)
    requires
        forall|i: int| 0 <= i < s.len() ==> #[trigger] s[i] != '-',
    ensures
        without_hyphens(s) == s,
    decreases s.len(),
{
    reveal_with_fuel(Seq::<_>::filter, 1);
    if s.len() > 0 {
        lemma_filter_keeps_all(s.drop_last());
        assert(s.drop_last().push(s.last()) =~= s);
    }
}

/// The ID a new writer draws is 32 lower-case hex digits: the UUID text
/// without its four hyphens.
pub proof fn lemma_uuid_id_is_32_hex_digits(t: Seq<char>)
    requires
        is_uuid_v4_text(t),
    ensures
        without_hyphens(t).len() == 32,
        forall|i: int| 0 <= i < 32 ==> is_lower_hex(#[trigger] without_hyphens(t)[i]),
{
    broadcast use vstd::seq::Seq::filter_distributes_over_add;
    let a = t.subrange(0, 8);
    let b = t.subrange(9, 13);
    let c = t.subrange(14, 18);
    let d = t.subrange(19, 23);
    let e = t.subrange(24, 36);
    let h = seq!['-'];
    assert(t =~= a + h + b + h + c + h + d + h + e);
    assert forall|i: int| 0 <= i < a.len() implies #[trigger] a[i] != '-' && is_lower_hex(a[i]) by {
        assert(a[i] == t[i]);
    }
    assert forall|i: int| 0 <= i < b.len() implies #[trigger] b[i] != '-' && is_lower_hex(b[i]) by {
        assert(b[i] == t[i + 9]);
    }
    assert forall|i: int| 0 <= i < c.len() implies #[trigger] c[i] != '-' && is_lower_hex(c[i]) by {
        assert(c[i] == t[i + 14]);
    }
    assert forall|i: int| 0 <= i < d.len() implies #[trigger] d[i] != '-' && is_lower_hex(d[i]) by {
        assert(d[i] == t[i + 19]);
    }
    assert forall|i: int| 0 <= i < e.len() implies #[trigger] e[i] != '-' && is_lower_hex(e[i]) by {
        assert(e[i] == t[i + 24]);
    }
    lemma_filter_keeps_all(a);
    lemma_filter_keeps_all(b);
    lemma_filter_keeps_all(c);
    lemma_filter_keeps_all(d);
    lemma_filter_keeps_all(e);
    assert(without_hyphens(h) =~= Seq::<char>::empty()) by {
        reveal_with_fuel(Seq::<_>::filter, 2);
    }
    let r = a + b + c + d + e;
    assert(without_hyphens(t) =~= r);
    assert forall|i: int| 0 <= i < 32 implies is_lower_hex(#[trigger] r[i]) by {
        if i < 8 {
            assert(r[i] == a[i]);
        } else if i < 12 {
            assert(r[i] == b[i - 8]);
        } else if i < 16 {
            assert(r[i] == c[i - 12]);
        } else if i < 20 {
            assert(r[i] == d[i - 16]);
        } else {
            assert(r[i] == e[i - 20]);
        }
    }
}

/// `uuid::Uuid::new_v4()` written by its `Display` impl: a random UUID,
/// hyphenated and in lower case (`format_hyphenated` in uuid's fmt.rs;
/// `new_v4` masks the version and variant bits). Which UUID comes out is
/// left open: it is random.
#[verifier::external_body]
fn new_uuid_v4_text() -> (t: String)
    ensures
        is_uuid_v4_text(t@),
{
    uuid::Uuid::new_v4().to_string()
}

/// The characters of `s` except its hyphens.
fn remove_hyphens(s: &str) -> (r: String)
    ensures
        r@ == without_hyphens(s@),
{
    let mut r = String::new();
    let mut it = s.chars();
    for c in iter: it
        invariant
            iter.seq() == s@,
            r@ == without_hyphens(s@.take(iter.index() as int)),
    {
        let ghost before = s@.take(iter.index() as int);
        if c != '-' {
            crate::text::push_char(&mut r, c);
        }
        proof {
            let after = s@.take(iter.index() + 1);
            assert(after.drop_last() =~= before);
            reveal_with_fuel(Seq::<_>::filter, 1);
        }
    }
    assert(s@.take(s@.len() as int) =~= s@);
    r
}

#[verifier::external_type_specification]
#[verifier::external_body]
pub struct ExSystemTime(SystemTime);

/// `SystemTime::now()`: whatever the system clock says.
#[verifier::external_body]
fn system_now() -> SystemTime {
    SystemTime::now()
}

/// `SystemTime::duration_since(UNIX_EPOCH)`: the time since the Unix epoch,
/// or `None` when the given time lies before it.
#[verifier::external_body]
fn since_unix_epoch(t: &SystemTime) -> Option<Duration> {
    match t.duration_since(UNIX_EPOCH) {
        Ok(d) => Some(d),
        Err(_) => None,
    }
}

/// `Duration::as_secs`: the whole seconds of a duration.
#[verifier::external_body]
fn duration_secs(d: &Duration) -> u64 {
    d.as_secs()
}

/// `yyyy-MM-dd` text of a date: year zero-padded to four characters
/// (with its sign when negative), month and day to two.
pub open spec fn date_text(y: i32, m: u32, d: u32) -> Seq<char> {
    signed_zero_padded(y as int, 4) + seq!['-'] + zero_padded(m as nat, 2) + seq!['-']
        + zero_padded(d as nat, 2)
}

/// The `yyyy-MM-dd` text of day `days` after 1970-01-01.
pub open spec fn date_text_of_day(days: int) -> Seq<char> {
    let c = civil_from_days(days);
    date_text(#[verifier::truncate] (c.0 as i32), c.1 as u32, c.2 as u32)
}

/// The `yyyy-MM-dd` date of an instant given as seconds since the Unix
/// epoch (UTC).
pub fn date_of_unix_secs(secs: u64) -> (t: String)
    ensures
        t@ == date_text_of_day((secs / 86400) as int),
{
    let days = (secs / 86400) as i64;
    let (y, m, d) = days_to_ymd(days);
    let mut t = String::new();
    push_signed_zero_padded(&mut t, y as i64, 4);
    crate::text::push_char(&mut t, '-');
    push_zero_padded(&mut t, m as u64, 2);
    crate::text::push_char(&mut t, '-');
    push_zero_padded(&mut t, d as u64, 2);
    assert(t@ =~= date_text(y, m, d));
    t
}

/// Whether `t` is the date text of some day from 1970-01-01 on.
pub open spec fn is_date_text(t: Seq<char>) -> bool {
    exists|days: int| 0 <= days && t == #[trigger] date_text_of_day(days)
}

/// Today's date (UTC) as `yyyy-MM-dd`.
fn today() -> (t: String)
    ensures
        is_date_text(t@),
{
    let now = system_now();
    let secs = match since_unix_epoch(&now) {
        Some(d) => Some(duration_secs(&d)),
        None => None,
    };
    date_of_clock(secs)
}

/// The `yyyy-MM-dd` date (UTC) of a clock reading in seconds since the Unix
/// epoch; a clock set before the epoch (`None`) gives the epoch's date.
pub fn date_of_clock(secs: Option<u64>) -> (t: String)
    ensures
        t@ == date_text_of_day(
            match secs {
                Some(s) => (s / 86400) as int,
                None => 0,
            },
        ),
{
    let s = match secs {
        Some(s) => s,
        None => 0,
    };
    date_of_unix_secs(s)
}

/// OFD document writer.
///
/// Generates an OFD file (ZIP archive) containing image pages.
pub struct OfdWriter {
    doc_info: DocInfo,
    pages: Vec<ImageSource>,
}

/// A writer as values: its metadata and its pages, in order.
pub struct OfdWriterView {
    pub doc_info: DocInfoView,
    pub pages: Seq<ImageSourceView>,
}

/// The views of a list of image pages.
pub open spec fn source_views(pages: Seq<ImageSource>) -> Seq<ImageSourceView> {
    pages.map_values(|s: ImageSource| s@)
}

impl View for OfdWriter {
    type V = OfdWriterView;

    closed spec fn view(&self) -> OfdWriterView {
        OfdWriterView { doc_info: self.doc_info@, pages: source_views(self.pages@) }
    }
}

/// The metadata a new writer starts with: a fresh 32-digit ID, this
/// library as creator, and a creation date.
pub open spec fn is_default_doc_info(info: DocInfoView) -> bool {
    &&& exists|t: Seq<char>| is_uuid_v4_text(t) && info.doc_id == without_hyphens(t)
    &&& info.title is None
    &&& info.author is None
    &&& info.creator == Some(LIB_NAME@)
    &&& info.creator_version == Some(LIB_VERSION@)
    &&& info.creation_date is Some
    &&& is_date_text(info.creation_date->0)
}

impl OfdWriter {
    /// Create a new writer with default metadata (as ofdrw fills it) and no
    /// page.
    pub fn new() -> (w: Self)
        ensures
            is_default_doc_info(w@.doc_info),
            w@.pages == Seq::<ImageSourceView>::empty(),
    {
        let uuid = new_uuid_v4_text();
        let doc_id = remove_hyphens(uuid.as_str());
        let date = today();
        let w = OfdWriter {
            doc_info: DocInfo {
                doc_id,
                title: None,
                author: None,
                creator: Some(String::from_str(LIB_NAME)),
                creator_version: Some(String::from_str(LIB_VERSION)),
                creation_date: Some(date),
            },
            pages: Vec::new(),
        };
        assert(source_views(w.pages@) =~= Seq::<ImageSourceView>::empty());
        assert(is_uuid_v4_text(uuid@) && w@.doc_info.doc_id == without_hyphens(uuid@));
        assert(w@.doc_info.creator == Some(LIB_NAME@));
        assert(w@.doc_info.creator_version == Some(LIB_VERSION@));
        assert(w@.doc_info.creation_date == Some(date@));
        w
    }

    /// Quick constructor: one image per page.
    pub fn from_images(images: Vec<ImageSource>) -> (w: Self)
        ensures
            is_default_doc_info(w@.doc_info),
            w@.pages == source_views(images@),
    {
        let mut writer = Self::new();
        writer.pages = images;
        writer
    }

    /// Set document metadata.
    pub fn set_doc_info(&mut self, info: DocInfo) -> (w: &mut Self)
        ensures
            w@.doc_info == info@,
            w@.pages == old(self)@.pages,
            *final(self) == *final(w),
    {
        self.doc_info = info;
        self
    }

    /// Add a page with an image, after the pages already there.
    pub fn add_image_page(&mut self, image: ImageSource) -> (w: &mut Self)
        ensures
            w@.doc_info == old(self)@.doc_info,
            w@.pages == old(self)@.pages.push(image@),
            *final(self) == *final(w),
    {
        let ghost old_pages = self.pages@;
        self.pages.push(image);
        assert(source_views(self.pages@) =~= source_views(old_pages).push(image@));
        self
    }
}

/// Most pages a writer can build: every page takes four IDs, all `u32`.
pub const MAX_PAGES: usize = 0x3FFF_FFFF;

/// The data of a file as the writes that fill it: one write, or none for
/// empty data.
pub open spec fn chunks(d: Seq<u8>) -> Seq<Seq<u8>> {
    if d.len() == 0 {
        Seq::<Seq<u8>>::empty()
    } else {
        seq![d]
    }
}

/// A compressed file holding the UTF-8 encoding of an XML text.
pub open spec fn xml_file(name: Seq<char>, xml: Seq<char>) -> (Seq<char>, Compression, Seq<Seq<u8>>) {
    (name, Compression::Deflated, chunks(encode_utf8(xml)))
}

/// Location of page `i`'s content, relative to the document directory.
pub open spec fn page_base_loc(i: nat) -> Seq<char> {
    "Pages/Page_"@ + decimal(i) + "/Content.xml"@
}

/// Path of page `i`'s content in the package.
pub open spec fn content_path(i: nat) -> Seq<char> {
    "Doc_0/Pages/Page_"@ + decimal(i) + "/Content.xml"@
}

/// File name of page `i`'s image within the resource directory.
pub open spec fn image_file_name(i: nat, format: ImageFormat) -> Seq<char> {
    "Image_"@ + decimal(i) + "."@ + extension_text(format)
}

/// Path of page `i`'s image in the package.
pub open spec fn image_path(i: nat, format: ImageFormat) -> Seq<char> {
    "Doc_0/Res/"@ + image_file_name(i, format)
}

/// ID of page `i` (IDs count from 1, four per page).
pub open spec fn page_id(i: nat) -> nat {
    4 * i + 1
}

/// ID of the image resource of page `i`.
pub open spec fn media_id(i: nat) -> nat {
    4 * i + 2
}

/// ID of the body layer of page `i`.
pub open spec fn layer_id(i: nat) -> nat {
    4 * i + 3
}

/// ID of the image object of page `i`.
pub open spec fn image_object_id(i: nat) -> nat {
    4 * i + 4
}

/// The IDs page `i` uses: page, image resource, layer, image object.
pub open spec fn unit_ids(i: nat) -> Seq<nat> {
    seq![page_id(i), media_id(i), layer_id(i), image_object_id(i)]
}

/// IDs are unique within a document and bounded by its MaxUnitID: with `n`
/// pages every ID of every page lies in `1..=4n`, and two IDs are equal only
/// when they are the same ID of the same page.
pub proof fn lemma_unit_ids_unique(n: nat, i: nat, a: int, j: nat, b: int)
    requires
        i < n,
        j < n,
        0 <= a < 4,
        0 <= b < 4,
    ensures
        1 <= unit_ids(i)[a] <= 4 * n,
        unit_ids(i)[a] == unit_ids(j)[b] ==> i == j && a == b,
{
    assert(unit_ids(i)[a] == 4 * i + a + 1);
    assert(unit_ids(j)[b] == 4 * j + b + 1);
}

/// With `n` pages every ID from 1 to MaxUnitID = `4n` is used exactly
/// once: ID `k` is unit `(k - 1) % 4` of page `(k - 1) / 4`, and of no
/// other unit of any page.
pub proof fn lemma_unit_ids_cover(n: nat, k: nat)
    requires
        1 <= k <= 4 * n,
    ensures
        ((k - 1) / 4) < n,
        unit_ids(((k - 1) / 4) as nat)[(k - 1) % 4] == k,
        forall|j: nat, b: int|
            j < n && 0 <= b < 4 && #[trigger] unit_ids(j)[b] == k ==> j == (k - 1) / 4 && b == (k - 1) % 4,
{
    let i = ((k - 1) / 4) as nat;
    let a = (k - 1) % 4;
    assert(unit_ids(i)[a] == 4 * i + a + 1);
    assert forall|j: nat, b: int| j < n && 0 <= b < 4 && #[trigger] unit_ids(j)[b] == k implies j == i && b == a by {
        assert(unit_ids(j)[b] == 4 * j + b + 1);
    }
}

/// The parts of a package refer to each other consistently: Document.xml
/// lists page `i` with ID `4i + 1` at `Pages/Page_i/Content.xml`, which is
/// where the page's content file lies under `Doc_0/`; DocumentRes.xml
/// declares the `i`-th image with ID `4i + 2` in file `Image_i.ext`, which
/// is where the image file lies under `Doc_0/Res/`; and the image object of
/// page `i` (ID `4i + 4`, on layer `4i + 3`) shows that image.
pub proof fn lemma_cross_references(w: OfdWriterView, i: int)
    requires
        w.pages.len() <= MAX_PAGES,
        0 <= i < w.pages.len(),
    ensures
        page_refs(w.pages.len())[i].0 == page_id(i as nat),
        page_refs(w.pages.len())[i].1 == page_base_loc(i as nat),
        content_path(i as nat) == "Doc_0/"@ + page_base_loc(i as nat),
        media_refs(w.pages)[i].0 == media_id(i as nat),
        media_refs(w.pages)[i].1 == w.pages[i].format,
        image_path(i as nat, w.pages[i].format) == "Doc_0/Res/"@ + media_refs(w.pages)[i].2,
        page_image(i as nat, w.pages[i]) matches GraphicObject::Image(img) && img.resource_id
            == media_refs(w.pages)[i].0 && img.id == image_object_id(i as nat),
        layer_id(i as nat) <= u32::MAX,
{
    reveal_strlit("Doc_0/Pages/Page_");
    reveal_strlit("Pages/Page_");
    reveal_strlit("Doc_0/");
    assert("Doc_0/Pages/Page_"@ =~= "Doc_0/"@ + "Pages/Page_"@);
    assert(content_path(i as nat) =~= "Doc_0/"@ + page_base_loc(i as nat));
}

/// The page references of Document.xml for `n` pages: page `i` has ID
/// `4i + 1`.
pub open spec fn page_refs(n: nat) -> Seq<(u32, Seq<char>)> {
    Seq::new(n, |i: int| (page_id(i as nat) as u32, page_base_loc(i as nat)))
}

/// The multimedia declarations for the pages: page `i`'s image has ID
/// `4i + 2`.
pub open spec fn media_refs(pages: Seq<ImageSourceView>) -> Seq<(u32, ImageFormat, Seq<char>)> {
    Seq::new(
        pages.len(),
        |i: int| (media_id(i as nat) as u32, pages[i].format, image_file_name(i as nat, pages[i].format)),
    )
}

/// Distance between two lengths.
pub open spec fn abs_diff(a: u64, b: u64) -> nat {
    if a >= b { (a - b) as nat } else { (b - a) as nat }
}

/// Whether two page sizes differ by more than 0.01 mm in width or height.
pub open spec fn sizes_differ(a: PageSize, b: PageSize) -> bool {
    abs_diff(a.width, b.width) > 100 || abs_diff(a.height, b.height) > 100
}

/// The image object of page `i`: ID `4i + 4`, covering the page, showing
/// resource `4i + 2`.
pub open spec fn page_image(i: nat, page: ImageSourceView) -> GraphicObject {
    GraphicObject::Image(
        ImageObject {
            id: image_object_id(i) as u32,
            boundary: page_box(page.page_size),
            resource_id: media_id(i) as u32,
            alpha: None,
        },
    )
}

/// The area override of a page: its own box, only when its size differs
/// from the first page's.
pub open spec fn page_area(page: ImageSourceView, first: PageSize) -> Option<StBox> {
    if sizes_differ(page.page_size, first) {
        Some(page_box(page.page_size))
    } else {
        None
    }
}

/// A page gets its own area exactly when its width or its height differs
/// from the first page's by more than 0.01 mm (100 units), and that area
/// is the page's own box.
pub proof fn lemma_area_override(page: ImageSourceView, first: PageSize)
    ensures
        page_area(page, first) is Some <==> (page.page_size.width - first.width > 100 || first.width
            - page.page_size.width > 100 || page.page_size.height - first.height > 100 || first.height
            - page.page_size.height > 100),
        page_area(page, first) matches Some(b) ==> b == (StBox {
            x: 0,
            y: 0,
            w: page.page_size.width,
            h: page.page_size.height,
        }),
{
}

/// The content file of page `i`: layer `4i + 3` holding the page's image.
pub open spec fn content_file(i: nat, page: ImageSourceView, first: PageSize) -> (Seq<char>, Compression, Seq<Seq<u8>>) {
    xml_file(
        content_path(i),
        content_xml(layer_id(i) as u32, seq![page_image(i, page)], page_area(page, first)),
    )
}

/// The image file of page `i`: its bytes as given.
pub open spec fn image_file(i: nat, page: ImageSourceView) -> (Seq<char>, Compression, Seq<Seq<u8>>) {
    (image_path(i, page.format), Compression::Deflated, chunks(page.bytes))
}

/// The files of pages, two per page (content, then image).
pub open spec fn page_files(pages: Seq<ImageSourceView>) -> Seq<(Seq<char>, Compression, Seq<Seq<u8>>)> {
    Seq::new(
        2 * pages.len(),
        |k: int|
            if k % 2 == 0 {
                content_file((k / 2) as nat, pages[k / 2], pages[0].page_size)
            } else {
                image_file((k / 2) as nat, pages[k / 2])
            },
    )
}

/// The files of the package a writer builds, in the order they are written:
/// OFD.xml, Document.xml, DocumentRes.xml, then each page's content and
/// image. The largest ID is `4n` for `n` pages; the first page's size is
/// the document's page area.
#[verifier::opaque]
pub open spec fn package_files(w: OfdWriterView) -> Seq<(Seq<char>, Compression, Seq<Seq<u8>>)> {
    let n = w.pages.len();
    seq![
        xml_file("OFD.xml"@, ofd_xml(w.doc_info)),
        xml_file(
            "Doc_0/Document.xml"@,
            document_xml(page_refs(n), (4 * n) as u32, page_box(w.pages[0].page_size)),
        ),
        xml_file("Doc_0/DocumentRes.xml"@, document_res_xml(media_refs(w.pages))),
    ] + page_files(w.pages)
}

/// What `package_files` holds, file by file.
pub proof fn lemma_package_files(w: OfdWriterView)
    requires
        w.pages.len() > 0,
    ensures
        package_files(w).len() == 3 + 2 * w.pages.len(),
        package_files(w)[0] == xml_file("OFD.xml"@, ofd_xml(w.doc_info)),
        package_files(w)[1] == xml_file(
            "Doc_0/Document.xml"@,
            document_xml(page_refs(w.pages.len()), (4 * w.pages.len()) as u32, page_box(w.pages[0].page_size)),
        ),
        package_files(w)[2] == xml_file("Doc_0/DocumentRes.xml"@, document_res_xml(media_refs(w.pages))),
        forall|i: int|
            0 <= i < w.pages.len() ==> #[trigger] package_files(w)[3 + 2 * i] == content_file(
                i as nat,
                w.pages[i],
                w.pages[0].page_size,
            ) && package_files(w)[3 + 2 * i + 1] == image_file(i as nat, w.pages[i]),
{
    reveal(package_files);
    let files = package_files(w);
    let pf = page_files(w.pages);
    assert forall|i: int| 0 <= i < w.pages.len() implies #[trigger] files[3 + 2 * i] == content_file(
        i as nat,
        w.pages[i],
        w.pages[0].page_size,
    ) && files[3 + 2 * i + 1] == image_file(i as nat, w.pages[i]) by {
        assert(files[3 + 2 * i] == pf[2 * i]);
        assert(files[3 + 2 * i + 1] == pf[2 * i + 1]);
        assert((2 * i) / 2 == i && (2 * i) % 2 == 0);
        assert((2 * i + 1) / 2 == i && (2 * i + 1) % 2 == 1);
    }
}

/// The first page never overrides the document's page area: its content
/// has no `Area`, whatever the other pages are.
pub proof fn lemma_first_page_has_no_area(w: OfdWriterView)
    requires
        w.pages.len() > 0,
    ensures
        page_area(w.pages[0], w.pages[0].page_size) is None,
{
}

proof fn lemma_content_path_injective(i: nat, j: nat)
    requires
        content_path(i) == content_path(j),
    ensures
        i == j,
{
    reveal_strlit("Doc_0/Pages/Page_");
    reveal_strlit("/Content.xml");
    let p = "Doc_0/Pages/Page_"@;
    let a = decimal(i);
    let b = decimal(j);
    assert(content_path(i).len() == p.len() + a.len() + 12);
    assert(content_path(j).len() == p.len() + b.len() + 12);
    assert(a =~= content_path(i).subrange(17, 17 + a.len() as int));
    assert(b =~= content_path(j).subrange(17, 17 + b.len() as int));
    crate::text::lemma_decimal_injective(i, j);
}

proof fn lemma_image_path_injective(i: nat, f: ImageFormat, j: nat, g: ImageFormat)
    requires
        image_path(i, f) == image_path(j, g),
    ensures
        i == j,
{
    reveal_strlit("Doc_0/Res/");
    reveal_strlit("Image_");
    reveal_strlit(".");
    let a = decimal(i);
    let b = decimal(j);
    crate::text::lemma_decimal_is_digits(i);
    crate::text::lemma_decimal_is_digits(j);
    let x = image_path(i, f);
    let y = image_path(j, g);
    assert(x == "Doc_0/Res/"@ + ("Image_"@ + a + "."@ + extension_text(f)));
    assert(y == "Doc_0/Res/"@ + ("Image_"@ + b + "."@ + extension_text(g)));
    assert forall|k: int| 0 <= k < a.len() implies x[16 + k] == a[k] by {}
    assert forall|k: int| 0 <= k < b.len() implies y[16 + k] == b[k] by {}
    assert(x[16 + a.len() as int] == '.');
    assert(y[16 + b.len() as int] == '.');
    if a.len() < b.len() {
        assert(y[16 + a.len() as int] == b[a.len() as int]);
        assert(false);
    } else if b.len() < a.len() {
        assert(x[16 + b.len() as int] == a[b.len() as int]);
        assert(false);
    }
    assert(a =~= b);
    crate::text::lemma_decimal_injective(i, j);
}

/// No two files of a package share a name (the ZIP writer refuses a name
/// given twice).
pub proof fn lemma_package_names_distinct(w: OfdWriterView)
    requires
        w.pages.len() > 0,
    ensures
        forall|k1: int, k2: int|
            0 <= k1 < k2 < package_files(w).len() ==> (#[trigger] package_files(w)[k1]).0
                != (#[trigger] package_files(w)[k2]).0,
{
    lemma_package_files(w);
    reveal_strlit("OFD.xml");
    reveal_strlit("Doc_0/Document.xml");
    reveal_strlit("Doc_0/DocumentRes.xml");
    reveal_strlit("Doc_0/Pages/Page_");
    reveal_strlit("Doc_0/Res/");
    let files = package_files(w);
    let n = w.pages.len();
    assert forall|k: int| #![trigger files[k]] 3 <= k < files.len() implies {
        let i = (k - 3) / 2;
        &&& 0 <= i < n
        &&& ((k - 3) % 2 == 0 ==> files[k].0 == content_path(i as nat))
        &&& ((k - 3) % 2 == 1 ==> files[k].0 == image_path(i as nat, w.pages[i].format))
        &&& files[k].0[0] == 'D'
        &&& files[k].0[6] == (if (k - 3) % 2 == 0 { 'P' } else { 'R' })
    } by {
        let i = (k - 3) / 2;
        if (k - 3) % 2 == 0 {
            assert(k == 3 + 2 * i);
            assert(files[3 + 2 * i].0 == content_path(i as nat));
        } else {
            assert(k == 3 + 2 * i + 1);
            assert(files[3 + 2 * i].0 == content_path(i as nat));
            assert(files[3 + 2 * i + 1].0 == image_path(i as nat, w.pages[i].format));
            assert(image_path(i as nat, w.pages[i].format) == "Doc_0/Res/"@ + image_file_name(
                i as nat,
                w.pages[i].format,
            ));
        }
    }
    assert forall|k1: int, k2: int|
        0 <= k1 < k2 < files.len() implies (#[trigger] files[k1]).0 != (#[trigger] files[k2]).0 by {
        if k1 == 0 {
            assert(files[k1].0[0] == 'O');
            assert(files[k2].0[0] == 'D');
        } else if k1 == 1 {
            if k2 == 2 {
                assert(files[k1].0.len() != files[k2].0.len());
            } else {
                assert(files[k1].0[6] == 'D');
            }
        } else if k1 == 2 {
            assert(files[k1].0[6] == 'D');
        } else {
            let i1 = (k1 - 3) / 2;
            let i2 = (k2 - 3) / 2;
            if (k1 - 3) % 2 != (k2 - 3) % 2 {
                assert(files[k1].0[6] != files[k2].0[6]);
            } else if (k1 - 3) % 2 == 0 {
                if files[k1].0 == files[k2].0 {
                    lemma_content_path_injective(i1 as nat, i2 as nat);
                }
            } else {
                if files[k1].0 == files[k2].0 {
                    lemma_image_path_injective(
                        i1 as nat,
                        w.pages[i1].format,
                        i2 as nat,
                        w.pages[i2].format,
                    );
                }
            }
        }
    }
}

/// `prefix`, the decimal form of `i`, then `suffix`.
fn numbered(prefix: &str, i: usize, suffix: &str) -> (t: String)
    ensures
        t@ == prefix@ + decimal(i as nat) + suffix@,
{
    let mut t = String::from_str(prefix);
    push_decimal(&mut t, i as u64);
    t.append(suffix);
    t
}

/// Whether two page sizes differ by more than 0.01 mm in width or height.
fn differs(a: &PageSize, b: &PageSize) -> (r: bool)
    ensures
        r == sizes_differ(*a, *b),
{
    let dw = if a.width >= b.width { a.width - b.width } else { b.width - a.width };
    let dh = if a.height >= b.height { a.height - b.height } else { b.height - a.height };
    dw > 100 || dh > 100
}

/// Adds a compressed file holding `data` to the archive. It succeeds when
/// the name is new, the file before it fits and `data` is within
/// `MAX_ENTRY_BYTES`.
fn zip_file(zip: &mut ArchiveWriter, path: &str, data: &[u8]) -> (r: Result<(), OfdError>)
    requires
        path@.len() <= 0x3FFF,
    ensures
        r is Ok ==> zip_entries(*final(zip)) == zip_entries(*old(zip)).push(
            (path@, Compression::Deflated, chunks(data@)),
        ),
        r is Err ==> r->Err_0 is Zip,
        name_is_new(zip_entries(*old(zip)), path@) && last_fits(zip_entries(*old(zip)))
            && data@.len() <= MAX_ENTRY_BYTES ==> r is Ok,
{
    match zip_start_file(zip, path, Compression::Deflated) {
        Ok(()) => {},
        Err(e) => return Err(OfdError::Zip(e.to_string())),
    }
    proof {
        let started = zip_entries(*zip);
        assert(started.last().2 =~= Seq::<Seq<u8>>::empty());
        assert(data_len(started.last().2) == 0);
    }
    match zip_write_all(zip, data) {
        Ok(()) => {
            proof {
                let expected = zip_entries(*old(zip)).push((path@, Compression::Deflated, chunks(data@)));
                if data@.len() > 0 {
                    assert(seq![].push(data@) =~= seq![data@]);
                    assert(zip_entries(*zip) =~= expected);
                } else {
                    assert(zip_entries(*zip) =~= expected);
                }
            }
            Ok(())
        },
        Err(e) => Err(OfdError::Zip(e.to_string())),
    }
}

/// The data of `chunks(d)` is as long as `d`.
proof fn lemma_chunks_len(d: Seq<u8>)
    ensures
        data_len(chunks(d)) == d.len(),
{
    if d.len() > 0 {
        let c = chunks(d);
        assert(c.drop_last() =~= Seq::<Seq<u8>>::empty());
        assert(data_len(c.drop_last()) == 0);
    } else {
        assert(data_len(chunks(d)) == 0);
    }
}

/// Adds an XML part to the archive.
fn zip_xml(zip: &mut ArchiveWriter, path: &str, xml: &String) -> (r: Result<(), OfdError>)
    requires
        path@.len() <= 0x3FFF,
    ensures
        r is Ok ==> zip_entries(*final(zip)) == zip_entries(*old(zip)).push(xml_file(path@, xml@)),
        r is Err ==> r->Err_0 is Zip,
        name_is_new(zip_entries(*old(zip)), path@) && last_fits(zip_entries(*old(zip)))
            && data_len(xml_file(path@, xml@).2) <= MAX_ENTRY_BYTES ==> r is Ok,
{
    proof {
        lemma_chunks_len(encode_utf8(xml@));
    }
    zip_file(zip, path, xml.as_str().as_bytes())
}

/// The page references for the first `n` pages.
fn make_page_defs(n: usize) -> (defs: Vec<PageDef>)
    requires
        n <= MAX_PAGES,
    ensures
        xml_gen::page_def_views(defs@) == page_refs(n as nat),
{
    let mut defs: Vec<PageDef> = Vec::new();
    let mut i: usize = 0;
    while i < n
        invariant
            i <= n <= MAX_PAGES,
            xml_gen::page_def_views(defs@) == page_refs(n as nat).take(i as int),
        decreases n - i,
    {
        let base_loc = numbered("Pages/Page_", i, "/Content.xml");
        let ghost old_defs = defs@;
        defs.push(PageDef { page_id: (4 * i + 1) as u32, base_loc });
        assert(xml_gen::page_def_views(defs@) =~= xml_gen::page_def_views(old_defs).push(
            ((4 * i + 1) as u32, page_base_loc(i as nat)),
        ));
        i = i + 1;
        assert(xml_gen::page_def_views(defs@) =~= page_refs(n as nat).take(i as int));
    }
    assert(page_refs(n as nat).take(n as int) =~= page_refs(n as nat));
    defs
}

/// The multimedia declarations for the pages.
fn make_media_defs(pages: &Vec<ImageSource>) -> (defs: Vec<MediaDef>)
    requires
        pages@.len() <= MAX_PAGES,
    ensures
        xml_gen::media_def_views(defs@) == media_refs(source_views(pages@)),
{
    let ghost views = source_views(pages@);
    let mut defs: Vec<MediaDef> = Vec::new();
    let mut i: usize = 0;
    while i < pages.len()
        invariant
            i <= pages@.len() <= MAX_PAGES,
            views == source_views(pages@),
            xml_gen::media_def_views(defs@) == media_refs(views).take(i as int),
        decreases pages@.len() - i,
    {
        let format = pages[i].format;
        let mut file_name = numbered("Image_", i, ".");
        file_name.append(format.extension());
        let ghost old_defs = defs@;
        defs.push(MediaDef { id: (4 * i + 2) as u32, format, file_name });
        assert(xml_gen::media_def_views(defs@) =~= xml_gen::media_def_views(old_defs).push(
            ((4 * i + 2) as u32, format, image_file_name(i as nat, format)),
        ));
        i = i + 1;
        assert(xml_gen::media_def_views(defs@) =~= media_refs(views).take(i as int));
    }
    assert(media_refs(views).take(pages@.len() as int) =~= media_refs(views));
    defs
}

/// Paths of a page's files are short: at most `0x3FFF` characters (their
/// number has at most 20 digits), and the content path differs from the
/// image path (`P` against `R` after `Doc_0/`).
proof fn lemma_page_paths(i: nat, f: ImageFormat)
    requires
        i <= u64::MAX,
    ensures
        content_path(i).len() <= 0x3FFF,
        image_path(i, f).len() <= 0x3FFF,
        content_path(i) != image_path(i, f),
{
    reveal_strlit("Doc_0/Pages/Page_");
    reveal_strlit("/Content.xml");
    reveal_strlit("Doc_0/Res/");
    reveal_strlit("Image_");
    reveal_strlit(".");
    reveal_strlit("jpg");
    reveal_strlit("png");
    reveal_strlit("bmp");
    reveal_strlit("tiff");
    crate::text::lemma_u64_decimal_len(i);
    assert(content_path(i)[6] == 'P');
    assert(image_path(i, f)[6] == 'R');
}

/// Adds the content and the image of page `i` to the archive. It succeeds
/// when both names are new, the file before them fits, the content fits
/// and the image is within `MAX_ENTRY_BYTES`.
#[verifier::spinoff_prover]
#[verifier::rlimit(40)]
fn zip_page(zip: &mut ArchiveWriter, i: usize, source: &ImageSource, first: &PageSize) -> (r: Result<(), OfdError>)
    requires
        i < MAX_PAGES,
    ensures
        r is Ok ==> zip_entries(*final(zip)) == zip_entries(*old(zip)).push(
            content_file(i as nat, source@, *first),
        ).push(image_file(i as nat, source@)),
        r is Err ==> r->Err_0 is Zip,
        name_is_new(zip_entries(*old(zip)), content_path(i as nat)) && name_is_new(
            zip_entries(*old(zip)),
            image_path(i as nat, source.format),
        ) && last_fits(zip_entries(*old(zip))) && entry_fits(content_file(i as nat, source@, *first))
            && source.bytes@.len() <= MAX_ENTRY_BYTES ==> r is Ok,
{
    proof {
        lemma_page_paths(i as nat, source.format);
    }
    let boundary = source.page_size.to_box();
    let objects = vec![GraphicObject::Image(ImageObject {
        id: (4 * i + 4) as u32,
        boundary,
        resource_id: (4 * i + 2) as u32,
        alpha: None,
    })];
    let area: Option<StBox> = if differs(&source.page_size, first) {
        Some(source.page_size.to_box())
    } else {
        None
    };
    let content = xml_gen::gen_content_xml((4 * i + 3) as u32, objects.as_slice(), area.as_ref());
    assert(objects@ =~= seq![page_image(i as nat, source@)]);
    assert(content@ == content_xml((4 * i + 3) as u32, seq![page_image(i as nat, source@)], page_area(source@, *first)));
    let content_path = numbered("Doc_0/Pages/Page_", i, "/Content.xml");
    let ghost before = zip_entries(*zip);
    zip_xml(zip, content_path.as_str(), &content)?;
    let mut image_path = numbered("Doc_0/Res/Image_", i, ".");
    image_path.append(source.format.extension());
    proof {
        reveal_strlit("Doc_0/Res/Image_");
        reveal_strlit("Doc_0/Res/");
        reveal_strlit("Image_");
        assert("Doc_0/Res/Image_"@ =~= "Doc_0/Res/"@ + "Image_"@);
        assert(image_path@ =~= crate::writer::builder::image_path(i as nat, source.format));
        let after = zip_entries(*zip);
        lemma_chunks_len(source.bytes@);
        if name_is_new(before, crate::writer::builder::image_path(i as nat, source.format)) {
            assert forall|k: int| 0 <= k < after.len() implies #[trigger] after[k].0 != image_path@ by {
                if k < before.len() {
                    assert(after[k] == before[k]);
                }
            }
        }
        assert(after.last() == content_file(i as nat, source@, *first));
    }
    zip_file(zip, image_path.as_str(), source.bytes.as_slice())
}

/// Whether every file of the package a writer builds is within
/// `MAX_ENTRY_BYTES`, before and after compression.
pub open spec fn package_fits(w: OfdWriterView) -> bool {
    forall|k: int| 0 <= k < package_files(w).len() ==> entry_fits(#[trigger] package_files(w)[k])
}

/// Before file `m` of a package goes to the archive, which holds the files
/// before it, its name is new there and the file before it is within the
/// limit; if the package fits, so is file `m`.
proof fn lemma_next_file(w: OfdWriterView, m: int)
    requires
        w.pages.len() > 0,
        0 <= m < package_files(w).len(),
    ensures
        name_is_new(package_files(w).take(m), package_files(w)[m].0),
        package_fits(w) ==> last_fits(package_files(w).take(m)),
        package_fits(w) ==> entry_fits(package_files(w)[m]),
{
    let files = package_files(w);
    lemma_package_names_distinct(w);
    let before = files.take(m);
    assert forall|k: int| 0 <= k < before.len() implies #[trigger] before[k].0 != files[m].0 by {
        assert(before[k] == files[k]);
    }
    if package_fits(w) && m > 0 {
        assert(before.last() == files[m - 1]);
    }
}

impl OfdWriter {
    /// Build the OFD file and return the ZIP bytes.
    ///
    /// Fails with `NoPages` exactly when no page was added. Otherwise the
    /// archive holds the files of `package_files`; it is built whenever each
    /// of those files is within `MAX_ENTRY_BYTES`, before and after
    /// compression (the most `zip` takes without its large-file option).
    pub fn build(self) -> (r: Result<Vec<u8>, OfdError>)
        requires
            self@.pages.len() <= MAX_PAGES,
        ensures
            r matches Err(OfdError::NoPages) <==> self@.pages.len() == 0,
            r matches Ok(bytes) ==> bytes@ == zip_archive(package_files(self@)),
            r matches Err(e) ==> (e is NoPages || (e is Zip && self@.pages.len() > 0)),
            self@.pages.len() > 0 && package_fits(self@) ==> r is Ok,
    {
        if self.pages.len() == 0 {
            return Err(OfdError::NoPages);
        }
        let n = self.pages.len();
        let ghost w = self@;
        let ghost files = package_files(w);
        let ghost fits = package_fits(w);
        proof {
            lemma_package_files(w);
            reveal_strlit("OFD.xml");
            reveal_strlit("Doc_0/Document.xml");
            reveal_strlit("Doc_0/DocumentRes.xml");
        }
        // First page's size as default page area
        let default_page_size = self.pages[0].page_size;
        let default_page_area = default_page_size.to_box();

        let page_defs = make_page_defs(n);
        let media_defs = make_media_defs(&self.pages);
        let max_id = (4 * n) as u32;

        // Generate XML
        let ofd_xml = xml_gen::gen_ofd_xml(&self.doc_info);
        let document_xml = xml_gen::gen_document_xml(page_defs.as_slice(), max_id, &default_page_area);
        let doc_res_xml = xml_gen::gen_document_res_xml(media_defs.as_slice());

        // Build ZIP
        let mut zip = zip_writer_new();
        proof {
            lemma_next_file(w, 0);
            assert(zip_entries(zip) =~= files.take(0));
        }
        zip_xml(&mut zip, "OFD.xml", &ofd_xml)?;
        proof {
            lemma_next_file(w, 1);
            assert(zip_entries(zip) =~= files.take(1));
        }
        zip_xml(&mut zip, "Doc_0/Document.xml", &document_xml)?;
        proof {
            lemma_next_file(w, 2);
            assert(zip_entries(zip) =~= files.take(2));
        }
        zip_xml(&mut zip, "Doc_0/DocumentRes.xml", &doc_res_xml)?;
        assert(zip_entries(zip) =~= files.take(3));

        let mut i: usize = 0;
        while i < n
            invariant
                i <= n,
                n == self.pages@.len(),
                n <= MAX_PAGES,
                w == self@,
                files == package_files(w),
                fits == package_fits(w),
                default_page_size == w.pages[0].page_size,
                zip_entries(zip) == files.take(3 + 2 * i),
                files.len() == 3 + 2 * n,
            decreases n - i,
        {
            proof {
                lemma_package_files(w);
                assert(w.pages[i as int] == self.pages@[i as int]@);
                assert(files[3 + 2 * i] == content_file(i as nat, w.pages[i as int], default_page_size));
                assert(files[3 + 2 * i + 1] == image_file(i as nat, w.pages[i as int]));
                lemma_next_file(w, 3 + 2 * i);
                lemma_next_file(w, 3 + 2 * i + 1);
                lemma_chunks_len(w.pages[i as int].bytes);
                let before = files.take(3 + 2 * i);
                assert forall|k: int| 0 <= k < before.len() implies #[trigger] before[k].0 != files[3 + 2 * i + 1].0 by {
                    assert(files.take(3 + 2 * i + 1)[k] == before[k]);
                }
            }
            zip_page(&mut zip, i, &self.pages[i], &default_page_size)?;
            i = i + 1;
            assert(zip_entries(zip) =~= files.take(3 + 2 * i));
        }
        assert(files.take(3 + 2 * n) =~= files);
        proof {
            if fits {
                assert(files.last() == files[files.len() - 1]);
            }
        }

        match zip_finish(zip) {
            Ok(bytes) => Ok(bytes),
            Err(e) => Err(OfdError::Zip(e.to_string())),
        }
    }
}

impl Default for OfdWriter {
    fn default() -> (w: Self)
        ensures
            is_default_doc_info(w@.doc_info),
            w@.pages == Seq::<ImageSourceView>::empty(),
    {
        Self::new()
    }
}

} // verus!
