//! Tests of the library's parts on concrete values.

use ofd_rs::model::document::PageDef;
use ofd_rs::model::graphic::{GraphicObject, ImageObject};
use ofd_rs::model::resource::{detect_image_dimensions, FontDef, MediaDef};
use ofd_rs::text::escape_xml_string;
use ofd_rs::types::{StBox, StPos};
use ofd_rs::writer::builder::{date_of_clock, date_of_unix_secs};
use ofd_rs::writer::calendar::days_to_ymd;
use ofd_rs::writer::xml_gen::{
    gen_content_xml, gen_document_res_xml, gen_document_xml, gen_ofd_xml, gen_public_res_xml,
    write_image_object,
};
use ofd_rs::{DocInfo, ImageFormat, ImageSource, OfdError, OfdWriter, PageSize, PPM_DEFAULT};
use std::io::{Cursor, Read};
use zip::ZipArchive;

fn png_header(w: u32, h: u32) -> Vec<u8> {
    let mut v = vec![0x89, 0x50, 0x4E, 0x47, 0x0D, 0x0A, 0x1A, 0x0A, 0, 0, 0, 13];
    v.extend_from_slice(b"IHDR");
    v.extend_from_slice(&w.to_be_bytes());
    v.extend_from_slice(&h.to_be_bytes());
    v.extend_from_slice(&[8, 2, 0, 0, 0]);
    v
}

fn bmp_header(w: u32, h: i32) -> Vec<u8> {
    let mut v = vec![0x42, 0x4D];
    v.extend_from_slice(&[0u8; 16]);
    v.extend_from_slice(&w.to_le_bytes());
    v.extend_from_slice(&h.to_le_bytes());
    v.extend_from_slice(&[0u8; 4]);
    v
}

fn jpeg_header(w: u16, h: u16) -> Vec<u8> {
    let mut v = vec![0xFF, 0xD8, 0xFF, 0xE0, 0x00, 0x04, 0x00, 0x00];
    v.extend_from_slice(&[0xFF, 0xC2, 0x00, 0x0B, 0x08]);
    v.extend_from_slice(&h.to_be_bytes());
    v.extend_from_slice(&w.to_be_bytes());
    v.extend_from_slice(&[0x01, 0x01, 0x11, 0x00]);
    v
}

#[test]
fn format_texts() {
    let all = [ImageFormat::Jpeg, ImageFormat::Png, ImageFormat::Bmp, ImageFormat::Tiff];
    let ext = ["jpg", "png", "bmp", "tiff"];
    let ofd = ["JPEG", "PNG", "BMP", "TIFF"];
    let mime = ["image/jpeg", "image/png", "image/bmp", "image/tiff"];
    for i in 0..4 {
        assert_eq!(all[i].extension(), ext[i]);
        assert_eq!(all[i].ofd_format(), ofd[i]);
        assert_eq!(all[i].mime_type(), mime[i]);
        // the extension of a format is recognised as that format again
        assert_eq!(ImageFormat::from_extension(all[i].extension()), Some(all[i]));
    }
}

#[test]
fn from_extension_ignores_case() {
    assert_eq!(ImageFormat::from_extension("JPG"), Some(ImageFormat::Jpeg));
    assert_eq!(ImageFormat::from_extension("JpEg"), Some(ImageFormat::Jpeg));
    assert_eq!(ImageFormat::from_extension("Tif"), Some(ImageFormat::Tiff));
    assert_eq!(ImageFormat::from_extension("TIFF"), Some(ImageFormat::Tiff));
    assert_eq!(ImageFormat::from_extension("BMP"), Some(ImageFormat::Bmp));
    assert_eq!(ImageFormat::from_extension("gif"), None);
    assert_eq!(ImageFormat::from_extension(""), None);
    assert_eq!(ImageFormat::from_extension("jpgx"), None);
    assert_eq!(ImageFormat::from_extension(".jpg"), None);
}

#[test]
fn detect_magic_numbers() {
    assert_eq!(ImageFormat::detect(&[0xFF, 0xD8, 0, 0]), Some(ImageFormat::Jpeg));
    assert_eq!(ImageFormat::detect(&[0x89, 0x50, 0x4E, 0x47]), Some(ImageFormat::Png));
    assert_eq!(ImageFormat::detect(&[0x42, 0x4D, 0, 0]), Some(ImageFormat::Bmp));
    assert_eq!(ImageFormat::detect(&[0x49, 0x49, 0x2A, 0]), Some(ImageFormat::Tiff));
    assert_eq!(ImageFormat::detect(&[0x4D, 0x4D, 0, 0x2A]), Some(ImageFormat::Tiff));
    assert_eq!(ImageFormat::detect(&[0xFF, 0xD8, 0xFF]), None);
    assert_eq!(ImageFormat::detect(&[0x89, 0x50, 0x4E, 0x48]), None);
    assert_eq!(ImageFormat::detect(&[]), None);
}

#[test]
fn header_dimensions() {
    assert_eq!(detect_image_dimensions(&png_header(640, 480)), Some((640, 480)));
    assert_eq!(detect_image_dimensions(&png_header(640, 480)[..23]), None);
    let mut bad_png = png_header(1, 1);
    bad_png[12] = b'X';
    assert_eq!(detect_image_dimensions(&bad_png), None);
    // bottom-up and top-down bitmaps give the same height
    assert_eq!(detect_image_dimensions(&bmp_header(800, -600)), Some((800, 600)));
    assert_eq!(detect_image_dimensions(&bmp_header(800, 600)), Some((800, 600)));
    assert_eq!(detect_image_dimensions(&bmp_header(1, i32::MIN)), Some((1, 0x8000_0000)));
    assert_eq!(detect_image_dimensions(&bmp_header(800, 600)[..25]), None);
    assert_eq!(detect_image_dimensions(&jpeg_header(1024, 768)), Some((1024, 768)));
    // a segment length that runs past the end: nothing found
    assert_eq!(detect_image_dimensions(&[0xFF, 0xD8, 0xFF, 0xE0, 0xFF, 0xFF, 0, 0]), None);
    // TIFF dimensions are not read
    assert_eq!(detect_image_dimensions(&[0x49, 0x49, 0x2A, 0, 8, 0, 0, 0]), None);
    assert_eq!(detect_image_dimensions(&[1, 2, 3, 4, 5]), None);
}

#[test]
fn page_sizes_from_pixels() {
    // 2480 px at 300 DPI = 209.97333 mm; 3508 px = 297.01067 mm
    let a4 = PageSize::from_pixels(2480, 3508, 300);
    assert_eq!(a4.width, 2_099_733);
    assert_eq!(a4.height, 2_970_107);
    // 1 px at 5 px/mm = 0.2 mm
    let p = PageSize::from_pixels_ppm(1, 1, PPM_DEFAULT);
    assert_eq!((p.width, p.height), (2000, 2000));
    // rounded to the nearest unit: 1 px at 3 px/mm = 0.33333 mm
    let q = PageSize::from_pixels_ppm(1, 2, 3);
    assert_eq!((q.width, q.height), (3333, 6667));
    assert_eq!(PageSize::new(5, 7).to_box().to_text(), "0.0000 0.0000 0.0005 0.0007");
}

#[test]
fn box_and_point_text() {
    assert_eq!(StBox::page(2_100_000, 2_970_000).to_text(), "0.0000 0.0000 210.0000 297.0000");
    assert_eq!(StBox::new(12_345, 1, 10_000, 99_999).to_text(), "1.2345 0.0001 1.0000 9.9999");
    assert_eq!(StPos { x: 5, y: 1_234_567_890 }.to_text(), "0.0005 123456.7890");
}

#[test]
fn escaping() {
    assert_eq!(escape_xml_string("a&b<c>d\"e'f"), "a&amp;b&lt;c&gt;d&quot;e&apos;f");
    assert_eq!(escape_xml_string("&amp;"), "&amp;amp;");
    assert_eq!(escape_xml_string("中文 ok"), "中文 ok");
    assert_eq!(escape_xml_string(""), "");
}

#[test]
fn civil_dates() {
    assert_eq!(days_to_ymd(0), (1970, 1, 1));
    assert_eq!(days_to_ymd(-1), (1969, 12, 31));
    assert_eq!(days_to_ymd(11017), (2000, 3, 1));
    assert_eq!(days_to_ymd(19782), (2024, 2, 29));
    assert_eq!(days_to_ymd(19787), (2024, 3, 5));
    assert_eq!(days_to_ymd(-719468), (0, 3, 1));
    assert_eq!(days_to_ymd(-719469), (0, 2, 29));
    assert_eq!(date_of_unix_secs(1_772_755_200), "2026-03-06");
    assert_eq!(date_of_unix_secs(0), "1970-01-01");
    assert_eq!(date_of_unix_secs(86_399), "1970-01-01");
}

#[test]
fn ofd_xml_text() {
    let info = DocInfo {
        doc_id: "id1".into(),
        title: Some("A & B".into()),
        author: None,
        creator: Some("me".into()),
        creator_version: None,
        creation_date: None,
    };
    assert_eq!(
        gen_ofd_xml(&info),
        "<?xml version=\"1.0\" encoding=\"UTF-8\"?>\n\
         <ofd:OFD xmlns:ofd=\"http://www.ofdspec.org/2016\" Version=\"1.2\" DocType=\"OFD\">\n\
         \x20 <ofd:DocBody>\n\
         \x20   <ofd:DocInfo>\n\
         \x20     <ofd:DocID>id1</ofd:DocID>\n\
         \x20     <ofd:Title>A &amp; B</ofd:Title>\n\
         \x20     <ofd:Creator>me</ofd:Creator>\n\
         \x20   </ofd:DocInfo>\n\
         \x20   <ofd:DocRoot>Doc_0/Document.xml</ofd:DocRoot>\n\
         \x20 </ofd:DocBody>\n\
         </ofd:OFD>\n"
    );
    let empty = DocInfo::default();
    assert!(gen_ofd_xml(&empty).contains("<ofd:DocID></ofd:DocID>\n    </ofd:DocInfo>"));
}

#[test]
fn document_xml_text() {
    let pages = vec![
        PageDef { page_id: 1, base_loc: "Pages/Page_0/Content.xml".into() },
        PageDef { page_id: 5, base_loc: "Pages/Page_1/Content.xml".into() },
    ];
    let xml = gen_document_xml(&pages, 8, &StBox::page(2_100_000, 2_970_000));
    assert!(xml.contains("<ofd:MaxUnitID>8</ofd:MaxUnitID>"));
    assert!(xml.contains(
        "<ofd:PhysicalBox>0.0000 0.0000 210.0000 297.0000</ofd:PhysicalBox>\n      \
         <ofd:ApplicationBox>0.0000 0.0000 210.0000 297.0000</ofd:ApplicationBox>"
    ));
    assert!(xml.contains(
        "    <ofd:Page ID=\"1\" BaseLoc=\"Pages/Page_0/Content.xml\"/>\n    \
         <ofd:Page ID=\"5\" BaseLoc=\"Pages/Page_1/Content.xml\"/>\n  </ofd:Pages>"
    ));
}

#[test]
fn resource_xml_text() {
    let medias = vec![MediaDef { id: 2, format: ImageFormat::Bmp, file_name: "Image_0.bmp".into() }];
    let xml = gen_document_res_xml(&medias);
    assert!(xml.contains(
        "  <ofd:MultiMedias>\n    <ofd:MultiMedia ID=\"2\" Type=\"Image\" Format=\"BMP\">\n      \
         <ofd:MediaFile>Image_0.bmp</ofd:MediaFile>\n    </ofd:MultiMedia>\n  </ofd:MultiMedias>\n"
    ));
    assert!(!gen_document_res_xml(&[]).contains("MultiMedias"));
    let fonts = vec![
        FontDef { id: 7, font_name: "宋体<".into(), family_name: Some("Song\"".into()) },
        FontDef { id: 8, font_name: "Arial".into(), family_name: None },
    ];
    let xml = gen_public_res_xml(&fonts);
    assert!(xml.contains(
        "    <ofd:Font ID=\"7\" FontName=\"宋体&lt;\" FamilyName=\"Song&quot;\"/>\n    \
         <ofd:Font ID=\"8\" FontName=\"Arial\"/>\n  </ofd:Fonts>"
    ));
    assert!(!gen_public_res_xml(&[]).contains("Fonts"));
}

#[test]
fn content_xml_text() {
    let img = ImageObject {
        id: 4,
        boundary: StBox::page(1_000_000, 1_500_000),
        resource_id: 2,
        alpha: Some(128),
    };
    let mut line = String::new();
    write_image_object(&mut line, &img, 2);
    assert_eq!(
        line,
        "  <ofd:ImageObject ID=\"4\" Boundary=\"0.0000 0.0000 100.0000 150.0000\" \
         CTM=\"100.0000 0 0 150.0000 0 0\" ResourceID=\"2\" Alpha=\"128\"/>\n"
    );
    let area = StBox::page(1_000_000, 1_500_000);
    let xml = gen_content_xml(3, &[GraphicObject::Image(img)], Some(&area));
    assert!(xml.contains("  <ofd:Area>\n    <ofd:PhysicalBox>0.0000 0.0000 100.0000 150.0000</ofd:PhysicalBox>"));
    assert!(xml.contains("    <ofd:Layer ID=\"3\" Type=\"Body\">\n      <ofd:ImageObject ID=\"4\""));
    assert!(!gen_content_xml(3, &[], None).contains("Area"));
}

#[test]
fn image_source_constructors() {
    let s = ImageSource::new(vec![1, 2], ImageFormat::Bmp, 10, 20);
    assert_eq!((s.bytes.clone(), s.format, s.page_size), (vec![1, 2], ImageFormat::Bmp, PageSize { width: 10, height: 20 }));
    let j = ImageSource::jpeg(vec![], 2480, 3508, 300);
    assert_eq!(j.format, ImageFormat::Jpeg);
    assert_eq!(j.page_size, PageSize { width: 2_099_733, height: 2_970_107 });
    let p = ImageSource::auto_detect_ppm(png_header(10, 20), 2).expect("PNG");
    assert_eq!(p.page_size, PageSize { width: 50_000, height: 100_000 });
    let d = ImageSource::auto_detect(bmp_header(300, -150), 300).expect("BMP");
    assert_eq!(d.format, ImageFormat::Bmp);
    assert_eq!(d.page_size, PageSize { width: 254_000, height: 127_000 });
    // auto_detect_default is auto_detect_ppm at 5 px/mm
    let a = ImageSource::auto_detect_default(png_header(3, 4)).unwrap();
    let b = ImageSource::auto_detect_ppm(png_header(3, 4), 5).unwrap();
    assert_eq!(a.page_size, b.page_size);
    // TIFF: the format is known but not the dimensions
    let tiff = vec![0x49, 0x49, 0x2A, 0, 8, 0, 0, 0];
    assert!(ImageSource::auto_detect(tiff.clone(), 300).is_none());
    let t = ImageSource::auto_detect_mm(tiff, 7, 8).expect("TIFF");
    assert_eq!((t.format, t.page_size), (ImageFormat::Tiff, PageSize { width: 7, height: 8 }));
    assert!(ImageSource::auto_detect_mm(vec![0; 8], 7, 8).is_none());
}

#[test]
fn new_writer_metadata() {
    let w = OfdWriter::new();
    let mut a = ZipArchive::new(Cursor::new(
        OfdWriter::from_images(vec![ImageSource::png_mm(png_header(1, 1), 10_000, 10_000)])
            .build()
            .unwrap(),
    ))
    .unwrap();
    let mut ofd = String::new();
    a.by_name("OFD.xml").unwrap().read_to_string(&mut ofd).unwrap();
    let start = ofd.find("<ofd:DocID>").unwrap() + "<ofd:DocID>".len();
    let end = ofd.find("</ofd:DocID>").unwrap();
    let id = &ofd[start..end];
    assert_eq!(id.len(), 32);
    assert!(id.chars().all(|c| c.is_ascii_digit() || ('a'..='f').contains(&c)));
    assert_eq!(&id[12..13], "4");
    let ds = ofd.find("<ofd:CreationDate>").unwrap() + "<ofd:CreationDate>".len();
    let date = &ofd[ds..ds + 10];
    assert_eq!(date.as_bytes()[4], b'-');
    assert_eq!(date.as_bytes()[7], b'-');
    assert!(date[0..4].parse::<u32>().unwrap() >= 2024);
    assert!(ofd.contains("<ofd:CreatorVersion>0.1.0</ofd:CreatorVersion>"));
    drop(w);
}

#[test]
fn builder_chaining_and_errors() {
    let mut w = OfdWriter::default();
    w.add_image_page(ImageSource::jpeg_mm(vec![], 1, 1))
        .add_image_page(ImageSource::png_mm(vec![9, 9], 1, 1));
    let bytes = w.build().unwrap();
    let mut a = ZipArchive::new(Cursor::new(bytes)).unwrap();
    let names: Vec<String> = (0..a.len()).map(|i| a.by_index(i).unwrap().name().to_string()).collect();
    assert_eq!(
        names,
        vec![
            "OFD.xml",
            "Doc_0/Document.xml",
            "Doc_0/DocumentRes.xml",
            "Doc_0/Pages/Page_0/Content.xml",
            "Doc_0/Res/Image_0.jpg",
            "Doc_0/Pages/Page_1/Content.xml",
            "Doc_0/Res/Image_1.png",
        ]
    );
    let mut empty = Vec::new();
    a.by_name("Doc_0/Res/Image_0.jpg").unwrap().read_to_end(&mut empty).unwrap();
    assert!(empty.is_empty());
    let mut doc = String::new();
    a.by_name("Doc_0/Document.xml").unwrap().read_to_string(&mut doc).unwrap();
    assert!(doc.contains("<ofd:MaxUnitID>8</ofd:MaxUnitID>"));
    assert!(doc.contains("<ofd:Page ID=\"5\" BaseLoc=\"Pages/Page_1/Content.xml\"/>"));
    let mut page1 = String::new();
    a.by_name("Doc_0/Pages/Page_1/Content.xml").unwrap().read_to_string(&mut page1).unwrap();
    assert!(page1.contains("<ofd:Layer ID=\"7\" Type=\"Body\">"));
    assert!(page1.contains("<ofd:ImageObject ID=\"8\" Boundary=\"0.0000 0.0000 0.0001 0.0001\" CTM=\"0.0001 0 0 0.0001 0 0\" ResourceID=\"6\"/>"));
    // same size within 0.01 mm: no area override
    assert!(!page1.contains("ofd:Area"));

    let e = OfdWriter::new().build().unwrap_err();
    assert!(matches!(e, OfdError::NoPages));
    assert_eq!(e.to_text(), "no pages added to OFD writer");
    assert_eq!(OfdError::Zip("x".into()).to_text(), "ZIP error: x");
}

#[test]
fn area_override_threshold() {
    let open = |w: OfdWriter| ZipArchive::new(Cursor::new(w.build().unwrap())).unwrap();
    // 0.01 mm apart: same size; 0.0101 mm apart: different
    let mut a = open(OfdWriter::from_images(vec![
        ImageSource::png_mm(vec![], 2_100_000, 2_970_000),
        ImageSource::png_mm(vec![], 2_100_100, 2_970_000),
        ImageSource::png_mm(vec![], 2_100_000, 2_970_101),
    ]));
    let mut p1 = String::new();
    a.by_name("Doc_0/Pages/Page_1/Content.xml").unwrap().read_to_string(&mut p1).unwrap();
    assert!(!p1.contains("ofd:Area"));
    let mut p2 = String::new();
    a.by_name("Doc_0/Pages/Page_2/Content.xml").unwrap().read_to_string(&mut p2).unwrap();
    assert!(p2.contains("<ofd:PhysicalBox>0.0000 0.0000 210.0000 297.0101</ofd:PhysicalBox>"));
}

#[test]
fn pixel_lengths_round_exact_halves_to_even() {
    // 1 px at 32 px/mm = 0.03125 mm lies halfway: the even 312 is kept;
    // 3 px = 0.09375 mm rounds up to the even 938
    let p = PageSize::from_pixels_ppm(1, 3, 32);
    assert_eq!((p.width, p.height), (312, 938));
    assert_eq!(p.to_box().to_text(), "0.0000 0.0000 0.0312 0.0938");
}

#[test]
fn consecutive_days_are_consecutive_dates() {
    assert_eq!(days_to_ymd(789), (1972, 2, 29));
    assert_eq!(days_to_ymd(790), (1972, 3, 1));
    assert_eq!(days_to_ymd(364), (1970, 12, 31));
    assert_eq!(days_to_ymd(365), (1971, 1, 1));
    assert_eq!(days_to_ymd(58), (1970, 2, 28));
    assert_eq!(days_to_ymd(59), (1970, 3, 1));
}

#[test]
fn extreme_day_counts() {
    // years beyond i32 are cut to their low 32 bits
    assert_eq!(days_to_ymd(i64::MAX - 719468), (-2030435302, 9, 25));
    assert_eq!(days_to_ymd(i64::MIN), (2030437271, 6, 7));
}

#[test]
fn clock_dates() {
    assert_eq!(date_of_clock(None), "1970-01-01");
    assert_eq!(date_of_clock(Some(86_399)), "1970-01-01");
    assert_eq!(date_of_clock(Some(86_400)), "1970-01-02");
    assert_eq!(date_of_clock(Some(1_700_000_000)), "2023-11-14");
}

#[test]
fn escaping_plain_text_and_entities() {
    assert_eq!(escape_xml_string("plain text 123"), "plain text 123");
    assert_eq!(escape_xml_string("a&lt;b"), "a&amp;lt;b");
    assert_eq!(escape_xml_string("<'\">&"), "&lt;&apos;&quot;&gt;&amp;");
}
