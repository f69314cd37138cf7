//! XML generation for OFD document files.
//!
//! Each function produces the XML content for one file in the OFD package;
//! the structure is fixed, so the text is written directly. Each has an
//! open spec function that spells out the text it produces.

use vstd::prelude::*;
use crate::model::document::PageDef;
use crate::model::graphic::{GraphicObject, ImageObject};
use crate::model::ofd::{DocInfo, DocInfoView};
use crate::model::resource::{FontDef, ImageFormat, MediaDef, ofd_format_text};
use crate::text::{decimal, escape_xml, fixed4, push_decimal, push_escaped, push_fixed4, push_repeated, repeat_char};
use crate::types::{StBox, OFD_NAMESPACE, box_text};

verus! {

/// The XML declaration that starts every part.
pub open spec fn xml_decl() -> Seq<char> {
    "<?xml version=\"1.0\" encoding=\"UTF-8\"?>\n"@
}

/// An element that is written only when its value is present; the value is
/// escaped.
pub open spec fn opt_element(open: Seq<char>, value: Option<Seq<char>>, close: Seq<char>) -> Seq<char> {
    match value {
        Some(v) => open + escape_xml(v) + close,
        None => seq![],
    }
}

/// OFD.xml: the entry file, naming the document metadata and root.
pub open spec fn ofd_xml(info: DocInfoView) -> Seq<char> {
    xml_decl() + "<ofd:OFD xmlns:ofd=\""@ + OFD_NAMESPACE@ + "\" Version=\"1.2\" DocType=\"OFD\">\n"@
        + "  <ofd:DocBody>\n"@ + "    <ofd:DocInfo>\n"@ + "      <ofd:DocID>"@ + info.doc_id
        + "</ofd:DocID>\n"@
        + opt_element("      <ofd:Title>"@, info.title, "</ofd:Title>\n"@)
        + opt_element("      <ofd:Author>"@, info.author, "</ofd:Author>\n"@)
        + opt_element("      <ofd:Creator>"@, info.creator, "</ofd:Creator>\n"@)
        + opt_element("      <ofd:CreatorVersion>"@, info.creator_version, "</ofd:CreatorVersion>\n"@)
        + opt_element("      <ofd:CreationDate>"@, info.creation_date, "</ofd:CreationDate>\n"@)
        + "    </ofd:DocInfo>\n"@ + "    <ofd:DocRoot>Doc_0/Document.xml</ofd:DocRoot>\n"@
        + "  </ofd:DocBody>\n"@ + "</ofd:OFD>\n"@
}

fn push_opt_element(s: &mut String, open: &str, value: &Option<String>, close: &str)
    ensures
        final(s)@ == old(s)@ + opt_element(open@, crate::model::ofd::opt_text(*value), close@),
{
    match value {
        Some(v) => {
            s.append(open);
            push_escaped(s, v.as_str());
            s.append(close);
        },
        None => {
            assert(old(s)@ + seq![] =~= old(s)@);
        },
    }
}

/// Generate OFD.xml, the main entry file.
pub fn gen_ofd_xml(doc_info: &DocInfo) -> (xml: String)
    ensures
        xml@ == ofd_xml(doc_info@),
{
    let mut xml = String::new();
    xml.append("<?xml version=\"1.0\" encoding=\"UTF-8\"?>\n");
    xml.append("<ofd:OFD xmlns:ofd=\"");
    xml.append(OFD_NAMESPACE);
    xml.append("\" Version=\"1.2\" DocType=\"OFD\">\n");
    xml.append("  <ofd:DocBody>\n");
    xml.append("    <ofd:DocInfo>\n");
    xml.append("      <ofd:DocID>");
    xml.append(doc_info.doc_id.as_str());
    xml.append("</ofd:DocID>\n");
    push_opt_element(&mut xml, "      <ofd:Title>", &doc_info.title, "</ofd:Title>\n");
    push_opt_element(&mut xml, "      <ofd:Author>", &doc_info.author, "</ofd:Author>\n");
    push_opt_element(&mut xml, "      <ofd:Creator>", &doc_info.creator, "</ofd:Creator>\n");
    push_opt_element(
        &mut xml,
        "      <ofd:CreatorVersion>",
        &doc_info.creator_version,
        "</ofd:CreatorVersion>\n",
    );
    push_opt_element(
        &mut xml,
        "      <ofd:CreationDate>",
        &doc_info.creation_date,
        "</ofd:CreationDate>\n",
    );
    xml.append("    </ofd:DocInfo>\n");
    xml.append("    <ofd:DocRoot>Doc_0/Document.xml</ofd:DocRoot>\n");
    xml.append("  </ofd:DocBody>\n");
    xml.append("</ofd:OFD>\n");
    assert(xml@ =~= ofd_xml(doc_info@));
    xml
}

/// One `<ofd:Page>` reference of Document.xml.
pub open spec fn page_line(page: (u32, Seq<char>)) -> Seq<char> {
    "    <ofd:Page ID=\""@ + decimal(page.0 as nat) + "\" BaseLoc=\""@ + page.1 + "\"/>\n"@
}

/// The page references of Document.xml, in order.
pub open spec fn page_lines(pages: Seq<(u32, Seq<char>)>) -> Seq<char>
    decreases pages.len(),
{
    if pages.len() == 0 {
        seq![]
    } else {
        page_lines(pages.drop_last()) + page_line(pages.last())
    }
}

/// The views of a list of page definitions.
pub open spec fn page_def_views(pages: Seq<PageDef>) -> Seq<(u32, Seq<char>)> {
    pages.map_values(|p: PageDef| p@)
}

/// Document.xml: common data (largest ID, page area, resources) and the
/// page list.
pub open spec fn document_xml(pages: Seq<(u32, Seq<char>)>, max_id: u32, page_area: StBox) -> Seq<char> {
    xml_decl() + "<ofd:Document xmlns:ofd=\""@ + OFD_NAMESPACE@ + "\">\n"@ + "  <ofd:CommonData>\n"@
        + "    <ofd:MaxUnitID>"@ + decimal(max_id as nat) + "</ofd:MaxUnitID>\n"@
        + "    <ofd:PageArea>\n"@ + "      <ofd:PhysicalBox>"@ + box_text(page_area)
        + "</ofd:PhysicalBox>\n"@ + "      <ofd:ApplicationBox>"@ + box_text(page_area)
        + "</ofd:ApplicationBox>\n"@ + "    </ofd:PageArea>\n"@
        + "    <ofd:DocumentRes>DocumentRes.xml</ofd:DocumentRes>\n"@ + "  </ofd:CommonData>\n"@
        + "  <ofd:Pages>\n"@ + page_lines(pages) + "  </ofd:Pages>\n"@ + "</ofd:Document>\n"@
}

/// Generate Document.xml, the document root.
pub fn gen_document_xml(pages: &[PageDef], max_id: u32, page_area: &StBox) -> (xml: String)
    ensures
        xml@ == document_xml(page_def_views(pages@), max_id, *page_area),
{
    let mut xml = String::new();
    xml.append("<?xml version=\"1.0\" encoding=\"UTF-8\"?>\n");
    xml.append("<ofd:Document xmlns:ofd=\"");
    xml.append(OFD_NAMESPACE);
    xml.append("\">\n");
    xml.append("  <ofd:CommonData>\n");
    xml.append("    <ofd:MaxUnitID>");
    push_decimal(&mut xml, max_id as u64);
    xml.append("</ofd:MaxUnitID>\n");
    xml.append("    <ofd:PageArea>\n");
    xml.append("      <ofd:PhysicalBox>");
    page_area.push_text(&mut xml);
    xml.append("</ofd:PhysicalBox>\n");
    xml.append("      <ofd:ApplicationBox>");
    page_area.push_text(&mut xml);
    xml.append("</ofd:ApplicationBox>\n");
    xml.append("    </ofd:PageArea>\n");
    xml.append("    <ofd:DocumentRes>DocumentRes.xml</ofd:DocumentRes>\n");
    xml.append("  </ofd:CommonData>\n");
    xml.append("  <ofd:Pages>\n");
    let ghost head = xml@;
    let ghost views = page_def_views(pages@);
    let mut i: usize = 0;
    while i < pages.len()
        invariant
            i <= pages@.len(),
            views == page_def_views(pages@),
            xml@ == head + page_lines(views.take(i as int)),
        decreases pages@.len() - i,
    {
        let page = &pages[i];
        xml.append("    <ofd:Page ID=\"");
        push_decimal(&mut xml, page.page_id as u64);
        xml.append("\" BaseLoc=\"");
        xml.append(page.base_loc.as_str());
        xml.append("\"/>\n");
        proof {
            assert(views.take(i + 1).drop_last() =~= views.take(i as int));
            assert(views[i as int] == pages@[i as int]@);
        }
        i = i + 1;
        assert(xml@ =~= head + page_lines(views.take(i as int)));
    }
    assert(views.take(pages@.len() as int) =~= views);
    xml.append("  </ofd:Pages>\n");
    xml.append("</ofd:Document>\n");
    assert(xml@ =~= document_xml(views, max_id, *page_area));
    xml
}

/// One `<ofd:MultiMedia>` declaration of DocumentRes.xml.
pub open spec fn media_entry(m: (u32, ImageFormat, Seq<char>)) -> Seq<char> {
    "    <ofd:MultiMedia ID=\""@ + decimal(m.0 as nat) + "\" Type=\"Image\" Format=\""@
        + ofd_format_text(m.1) + "\">\n"@ + "      <ofd:MediaFile>"@ + m.2 + "</ofd:MediaFile>\n"@
        + "    </ofd:MultiMedia>\n"@
}

/// The multimedia declarations, in order.
pub open spec fn media_entries(medias: Seq<(u32, ImageFormat, Seq<char>)>) -> Seq<char>
    decreases medias.len(),
{
    if medias.len() == 0 {
        seq![]
    } else {
        media_entries(medias.drop_last()) + media_entry(medias.last())
    }
}

impl View for MediaDef {
    type V = (u32, ImageFormat, Seq<char>);

    open spec fn view(&self) -> (u32, ImageFormat, Seq<char>) {
        (self.id, self.format, self.file_name@)
    }
}

/// The views of a list of media definitions.
pub open spec fn media_def_views(medias: Seq<MediaDef>) -> Seq<(u32, ImageFormat, Seq<char>)> {
    medias.map_values(|m: MediaDef| m@)
}

/// The opening `<ofd:Res>` line of a resource file.
pub open spec fn res_open() -> Seq<char> {
    "<ofd:Res xmlns:ofd=\""@ + OFD_NAMESPACE@ + "\" BaseLoc=\"Res\">\n"@
}

/// DocumentRes.xml: the multimedia resources; the `MultiMedias` element is
/// written only when there is at least one.
pub open spec fn document_res_xml(medias: Seq<(u32, ImageFormat, Seq<char>)>) -> Seq<char> {
    xml_decl() + res_open() + (if medias.len() > 0 {
        "  <ofd:MultiMedias>\n"@ + media_entries(medias) + "  </ofd:MultiMedias>\n"@
    } else {
        seq![]
    }) + "</ofd:Res>\n"@
}

fn push_res_open(xml: &mut String)
    ensures
        final(xml)@ == old(xml)@ + xml_decl() + res_open(),
{
    xml.append("<?xml version=\"1.0\" encoding=\"UTF-8\"?>\n");
    xml.append("<ofd:Res xmlns:ofd=\"");
    xml.append(OFD_NAMESPACE);
    xml.append("\" BaseLoc=\"Res\">\n");
    assert(xml@ =~= old(xml)@ + xml_decl() + res_open());
}

/// Generate DocumentRes.xml, the multimedia resource declarations.
pub fn gen_document_res_xml(medias: &[MediaDef]) -> (xml: String)
    ensures
        xml@ == document_res_xml(media_def_views(medias@)),
{
    let mut xml = String::new();
    push_res_open(&mut xml);
    let ghost views = media_def_views(medias@);
    if medias.len() > 0 {
        xml.append("  <ofd:MultiMedias>\n");
        let ghost head = xml@;
        let mut i: usize = 0;
        while i < medias.len()
            invariant
                i <= medias@.len(),
                views == media_def_views(medias@),
                xml@ == head + media_entries(views.take(i as int)),
            decreases medias@.len() - i,
        {
            let m = &medias[i];
            xml.append("    <ofd:MultiMedia ID=\"");
            push_decimal(&mut xml, m.id as u64);
            xml.append("\" Type=\"Image\" Format=\"");
            xml.append(m.format.ofd_format());
            xml.append("\">\n");
            xml.append("      <ofd:MediaFile>");
            xml.append(m.file_name.as_str());
            xml.append("</ofd:MediaFile>\n");
            xml.append("    </ofd:MultiMedia>\n");
            proof {
                assert(views.take(i + 1).drop_last() =~= views.take(i as int));
                assert(views[i as int] == medias@[i as int]@);
            }
            i = i + 1;
            assert(xml@ =~= head + media_entries(views.take(i as int)));
        }
        assert(views.take(medias@.len() as int) =~= views);
        xml.append("  </ofd:MultiMedias>\n");
    }
    xml.append("</ofd:Res>\n");
    assert(xml@ =~= document_res_xml(views));
    xml
}

impl View for FontDef {
    type V = (u32, Seq<char>, Option<Seq<char>>);

    open spec fn view(&self) -> (u32, Seq<char>, Option<Seq<char>>) {
        (self.id, self.font_name@, crate::model::ofd::opt_text(self.family_name))
    }
}

/// One `<ofd:Font>` declaration of PublicRes.xml; names are escaped.
pub open spec fn font_entry(f: (u32, Seq<char>, Option<Seq<char>>)) -> Seq<char> {
    "    <ofd:Font ID=\""@ + decimal(f.0 as nat) + "\" FontName=\""@ + escape_xml(f.1) + "\""@
        + family_attr(f.2) + "/>\n"@
}

/// The font declarations, in order.
pub open spec fn font_entries(fonts: Seq<(u32, Seq<char>, Option<Seq<char>>)>) -> Seq<char>
    decreases fonts.len(),
{
    if fonts.len() == 0 {
        seq![]
    } else {
        font_entries(fonts.drop_last()) + font_entry(fonts.last())
    }
}

/// PublicRes.xml: the fonts; the `Fonts` element is written only when there
/// is at least one.
pub open spec fn public_res_xml(fonts: Seq<(u32, Seq<char>, Option<Seq<char>>)>) -> Seq<char> {
    xml_decl() + res_open() + (if fonts.len() > 0 {
        "  <ofd:Fonts>\n"@ + font_entries(fonts) + "  </ofd:Fonts>\n"@
    } else {
        seq![]
    }) + "</ofd:Res>\n"@
}

/// The optional family attribute of a font declaration.
pub open spec fn family_attr(family: Option<Seq<char>>) -> Seq<char> {
    match family {
        Some(f) => " FamilyName=\""@ + escape_xml(f) + "\""@,
        None => seq![],
    }
}

fn push_font_entry(xml: &mut String, font: &FontDef)
    ensures
        final(xml)@ == old(xml)@ + font_entry(font@),
{
    xml.append("    <ofd:Font ID=\"");
    push_decimal(xml, font.id as u64);
    xml.append("\" FontName=\"");
    push_escaped(xml, font.font_name.as_str());
    xml.append("\"");
    let ghost mid = xml@;
    match &font.family_name {
        Some(family) => {
            xml.append(" FamilyName=\"");
            push_escaped(xml, family.as_str());
            xml.append("\"");
        },
        None => {},
    }
    assert(xml@ =~= mid + family_attr(font@.2));
    xml.append("/>\n");
    assert(xml@ =~= old(xml)@ + font_entry(font@));
}

/// Generate PublicRes.xml, the font declarations.
pub fn gen_public_res_xml(fonts: &[FontDef]) -> (xml: String)
    ensures
        xml@ == public_res_xml(fonts@.map_values(|f: FontDef| f@)),
{
    let mut xml = String::new();
    push_res_open(&mut xml);
    let ghost views = fonts@.map_values(|f: FontDef| f@);
    if fonts.len() > 0 {
        xml.append("  <ofd:Fonts>\n");
        let ghost head = xml@;
        let mut i: usize = 0;
        while i < fonts.len()
            invariant
                i <= fonts@.len(),
                views == fonts@.map_values(|f: FontDef| f@),
                xml@ == head + font_entries(views.take(i as int)),
            decreases fonts@.len() - i,
        {
            push_font_entry(&mut xml, &fonts[i]);
            proof {
                assert(views.take(i + 1).drop_last() =~= views.take(i as int));
                assert(views[i as int] == fonts@[i as int]@);
            }
            i = i + 1;
            assert(xml@ =~= head + font_entries(views.take(i as int)));
        }
        assert(views.take(fonts@.len() as int) =~= views);
        xml.append("  </ofd:Fonts>\n");
    }
    xml.append("</ofd:Res>\n");
    assert(xml@ =~= public_res_xml(views));
    xml
}

/// The CTM of an image drawn over its whole boundary: scale the unit square
/// to the boundary's width and height.
pub open spec fn ctm_text(b: StBox) -> Seq<char> {
    fixed4(b.w as nat) + " 0 0 "@ + fixed4(b.h as nat) + " 0 0"@
}

/// One `<ofd:ImageObject>` line, indented by `indent` spaces.
pub open spec fn image_object_text(img: ImageObject, indent: nat) -> Seq<char> {
    repeat_char(' ', indent) + "<ofd:ImageObject ID=\""@ + decimal(img.id as nat) + "\" Boundary=\""@
        + box_text(img.boundary) + "\" CTM=\""@ + ctm_text(img.boundary) + "\" ResourceID=\""@
        + decimal(img.resource_id as nat) + "\""@ + alpha_attr(img.alpha) + "/>\n"@
}

/// The graphic objects of a layer, in order.
pub open spec fn object_lines(objects: Seq<GraphicObject>) -> Seq<char>
    decreases objects.len(),
{
    if objects.len() == 0 {
        seq![]
    } else {
        object_lines(objects.drop_last()) + match objects.last() {
            GraphicObject::Image(img) => image_object_text(img, 6),
        }
    }
}

/// The per-page area override of Content.xml, written only when present.
pub open spec fn area_text(area: Option<StBox>) -> Seq<char> {
    match area {
        Some(b) => "  <ofd:Area>\n"@ + "    <ofd:PhysicalBox>"@ + box_text(b) + "</ofd:PhysicalBox>\n"@
            + "    <ofd:ApplicationBox>"@ + box_text(b) + "</ofd:ApplicationBox>\n"@
            + "  </ofd:Area>\n"@,
        None => seq![],
    }
}

/// Content.xml: an optional area override, then one body layer holding the
/// graphic objects.
pub open spec fn content_xml(layer_id: u32, objects: Seq<GraphicObject>, area: Option<StBox>) -> Seq<char> {
    xml_decl() + "<ofd:Page xmlns:ofd=\""@ + OFD_NAMESPACE@ + "\">\n"@ + area_text(area)
        + "  <ofd:Content>\n"@ + "    <ofd:Layer ID=\""@ + decimal(layer_id as nat)
        + "\" Type=\"Body\">\n"@ + object_lines(objects) + "    </ofd:Layer>\n"@
        + "  </ofd:Content>\n"@ + "</ofd:Page>\n"@
}

fn push_area(xml: &mut String, page_area: Option<&StBox>)
    ensures
        final(xml)@ == old(xml)@ + area_text(
            match page_area {
                Some(b) => Some(*b),
                None => None,
            },
        ),
{
    match page_area {
        Some(b) => {
            xml.append("  <ofd:Area>\n");
            xml.append("    <ofd:PhysicalBox>");
            b.push_text(xml);
            xml.append("</ofd:PhysicalBox>\n");
            xml.append("    <ofd:ApplicationBox>");
            b.push_text(xml);
            xml.append("</ofd:ApplicationBox>\n");
            xml.append("  </ofd:Area>\n");
            assert(xml@ =~= old(xml)@ + area_text(Some(*b)));
        },
        None => {
            assert(xml@ =~= old(xml)@ + area_text(None));
        },
    }
}

/// Generate Content.xml, the page content with one layer of graphic objects.
pub fn gen_content_xml(layer_id: u32, objects: &[GraphicObject], page_area: Option<&StBox>) -> (xml: String)
    ensures
        xml@ == content_xml(
            layer_id,
            objects@,
            match page_area {
                Some(b) => Some(*b),
                None => None,
            },
        ),
{
    let ghost area = match page_area {
        Some(b) => Some(*b),
        None => None::<StBox>,
    };
    let mut xml = String::new();
    xml.append("<?xml version=\"1.0\" encoding=\"UTF-8\"?>\n");
    xml.append("<ofd:Page xmlns:ofd=\"");
    xml.append(OFD_NAMESPACE);
    xml.append("\">\n");
    let ghost top = xml@;
    push_area(&mut xml, page_area);
    xml.append("  <ofd:Content>\n");
    xml.append("    <ofd:Layer ID=\"");
    push_decimal(&mut xml, layer_id as u64);
    xml.append("\" Type=\"Body\">\n");
    let ghost head = xml@;
    assert(top =~= xml_decl() + "<ofd:Page xmlns:ofd=\""@ + OFD_NAMESPACE@ + "\">\n"@);
    assert(head =~= top + area_text(area) + "  <ofd:Content>\n"@ + "    <ofd:Layer ID=\""@
        + decimal(layer_id as nat) + "\" Type=\"Body\">\n"@);
    let mut i: usize = 0;
    while i < objects.len()
        invariant
            i <= objects@.len(),
            xml@ == head + object_lines(objects@.take(i as int)),
        decreases objects@.len() - i,
    {
        match &objects[i] {
            GraphicObject::Image(img) => {
                write_image_object(&mut xml, img, 6);
            },
        }
        proof {
            assert(objects@.take(i + 1).drop_last() =~= objects@.take(i as int));
        }
        i = i + 1;
        assert(xml@ =~= head + object_lines(objects@.take(i as int)));
    }
    assert(objects@.take(objects@.len() as int) =~= objects@);
    xml.append("    </ofd:Layer>\n");
    xml.append("  </ofd:Content>\n");
    xml.append("</ofd:Page>\n");
    assert(xml@ =~= head + object_lines(objects@) + "    </ofd:Layer>\n"@ + "  </ofd:Content>\n"@
        + "</ofd:Page>\n"@);
    assert(xml@ =~= content_xml(layer_id, objects@, area));
    xml
}

/// The optional transparency attribute of an image object.
pub open spec fn alpha_attr(alpha: Option<u8>) -> Seq<char> {
    match alpha {
        Some(a) => " Alpha=\""@ + decimal(a as nat) + "\""@,
        None => seq![],
    }
}

fn push_ctm(xml: &mut String, b: &StBox)
    ensures
        final(xml)@ == old(xml)@ + ctm_text(*b),
{
    push_fixed4(xml, b.w);
    xml.append(" 0 0 ");
    push_fixed4(xml, b.h);
    xml.append(" 0 0");
    assert(xml@ =~= old(xml)@ + ctm_text(*b));
}

fn push_alpha(xml: &mut String, alpha: Option<u8>)
    ensures
        final(xml)@ == old(xml)@ + alpha_attr(alpha),
{
    match alpha {
        Some(a) => {
            xml.append(" Alpha=\"");
            push_decimal(xml, a as u64);
            xml.append("\"");
        },
        None => {},
    }
    assert(xml@ =~= old(xml)@ + alpha_attr(alpha));
}

/// Appends one `<ofd:ImageObject>` line, indented by `indent` spaces.
pub fn write_image_object(xml: &mut String, img: &ImageObject, indent: usize)
    ensures
        final(xml)@ == old(xml)@ + image_object_text(*img, indent as nat),
{
    push_repeated(xml, ' ', indent);
    xml.append("<ofd:ImageObject ID=\"");
    push_decimal(xml, img.id as u64);
    xml.append("\" Boundary=\"");
    img.boundary.push_text(xml);
    xml.append("\" CTM=\"");
    push_ctm(xml, &img.boundary);
    xml.append("\" ResourceID=\"");
    push_decimal(xml, img.resource_id as u64);
    xml.append("\"");
    push_alpha(xml, img.alpha);
    xml.append("/>\n");
    assert(xml@ =~= old(xml)@ + image_object_text(*img, indent as nat));
}

/// Whether `t` occurs in `s` starting at index `p`.
pub open spec fn occurs_at(s: Seq<char>, p: int, t: Seq<char>) -> bool {
    0 <= p && p + t.len() <= s.len() && s.subrange(p, p + t.len()) == t
}

/// `t` occurs in `a + t + b` right after `a`.
proof fn lemma_occurs_in_middle(a: Seq<char>, t: Seq<char>, b: Seq<char>)
    ensures
        occurs_at(a + t + b, a.len() as int, t),
{
    assert((a + t + b).subrange(a.len() as int, (a.len() + t.len()) as int) =~= t);
}

/// What occurs in `s` occurs at the same place in `s + b`, and after `a`
/// in `a + s`.
proof fn lemma_occurs_extend(a: Seq<char>, s: Seq<char>, b: Seq<char>, p: int, t: Seq<char>)
    requires
        occurs_at(s, p, t),
    ensures
        occurs_at(s + b, p, t),
        occurs_at(a + s, a.len() + p, t),
{
    assert((s + b).subrange(p, p + t.len()) =~= s.subrange(p, p + t.len()));
    assert((a + s).subrange(a.len() + p, a.len() + p + t.len()) =~= s.subrange(p, p + t.len()));
}

/// Every piece of metadata OFD.xml carries is escaped: when a title,
/// author, creator, creator version or creation date is given, OFD.xml
/// holds its element line with the XML escape of the value as text (so the
/// text reads back as the value, see `lemma_unescape_escape`).
pub proof fn lemma_ofd_xml_escapes_metadata(info: DocInfoView)
    ensures
        info.title matches Some(v) ==> exists|p: int|
            occurs_at(ofd_xml(info), p, "      <ofd:Title>"@ + escape_xml(v) + "</ofd:Title>\n"@),
        info.author matches Some(v) ==> exists|p: int|
            occurs_at(ofd_xml(info), p, "      <ofd:Author>"@ + escape_xml(v) + "</ofd:Author>\n"@),
        info.creator matches Some(v) ==> exists|p: int|
            occurs_at(ofd_xml(info), p, "      <ofd:Creator>"@ + escape_xml(v) + "</ofd:Creator>\n"@),
        info.creator_version matches Some(v) ==> exists|p: int|
            occurs_at(
                ofd_xml(info),
                p,
                "      <ofd:CreatorVersion>"@ + escape_xml(v) + "</ofd:CreatorVersion>\n"@,
            ),
        info.creation_date matches Some(v) ==> exists|p: int|
            occurs_at(
                ofd_xml(info),
                p,
                "      <ofd:CreationDate>"@ + escape_xml(v) + "</ofd:CreationDate>\n"@,
            ),
{
    let head = xml_decl() + "<ofd:OFD xmlns:ofd=\""@ + OFD_NAMESPACE@ + "\" Version=\"1.2\" DocType=\"OFD\">\n"@
        + "  <ofd:DocBody>\n"@ + "    <ofd:DocInfo>\n"@ + "      <ofd:DocID>"@ + info.doc_id
        + "</ofd:DocID>\n"@;
    let t = opt_element("      <ofd:Title>"@, info.title, "</ofd:Title>\n"@);
    let a = opt_element("      <ofd:Author>"@, info.author, "</ofd:Author>\n"@);
    let c = opt_element("      <ofd:Creator>"@, info.creator, "</ofd:Creator>\n"@);
    let v = opt_element("      <ofd:CreatorVersion>"@, info.creator_version, "</ofd:CreatorVersion>\n"@);
    let d = opt_element("      <ofd:CreationDate>"@, info.creation_date, "</ofd:CreationDate>\n"@);
    let tail = "    </ofd:DocInfo>\n"@ + "    <ofd:DocRoot>Doc_0/Document.xml</ofd:DocRoot>\n"@
        + "  </ofd:DocBody>\n"@ + "</ofd:OFD>\n"@;
    let x = ofd_xml(info);
    assert(x =~= head + t + a + c + v + d + tail);
    if info.title is Some {
        assert(x =~= head + t + (a + c + v + d + tail));
        lemma_occurs_in_middle(head, t, a + c + v + d + tail);
    }
    if info.author is Some {
        assert(x =~= (head + t) + a + (c + v + d + tail));
        lemma_occurs_in_middle(head + t, a, c + v + d + tail);
    }
    if info.creator is Some {
        assert(x =~= (head + t + a) + c + (v + d + tail));
        lemma_occurs_in_middle(head + t + a, c, v + d + tail);
    }
    if info.creator_version is Some {
        assert(x =~= (head + t + a + c) + v + (d + tail));
        lemma_occurs_in_middle(head + t + a + c, v, d + tail);
    }
    if info.creation_date is Some {
        assert(x =~= (head + t + a + c + v) + d + tail);
        lemma_occurs_in_middle(head + t + a + c + v, d, tail);
    }
}

/// Each declaration occurs in the list of declarations, after those before
/// it.
proof fn lemma_media_entries_hold(ms: Seq<(u32, ImageFormat, Seq<char>)>, k: int)
    requires
        0 <= k < ms.len(),
    ensures
        occurs_at(media_entries(ms), media_entries(ms.take(k)).len() as int, media_entry(ms[k])),
    decreases ms.len(),
{
    let init = ms.drop_last();
    if k == ms.len() - 1 {
        assert(init =~= ms.take(k));
        lemma_occurs_in_middle(media_entries(init), media_entry(ms.last()), seq![]);
        assert(media_entries(init) + media_entry(ms.last()) + seq![] =~= media_entries(ms));
    } else {
        lemma_media_entries_hold(init, k);
        assert(init.take(k) =~= ms.take(k));
        assert(init[k] == ms[k]);
        lemma_occurs_extend(seq![], media_entries(init), media_entry(ms.last()), media_entries(ms.take(k)).len() as int, media_entry(ms[k]));
    }
}

/// DocumentRes.xml declares every image it is given: for each `k`, the
/// `MultiMedia` entry of the `k`-th image (its ID, format and file name)
/// occurs in the text.
pub proof fn lemma_document_res_declares_all(ms: Seq<(u32, ImageFormat, Seq<char>)>, k: int)
    requires
        0 <= k < ms.len(),
    ensures
        exists|p: int|
            occurs_at(
                document_res_xml(ms),
                p,
                "    <ofd:MultiMedia ID=\""@ + decimal(ms[k].0 as nat) + "\" Type=\"Image\" Format=\""@
                    + ofd_format_text(ms[k].1) + "\">\n"@ + "      <ofd:MediaFile>"@ + ms[k].2
                    + "</ofd:MediaFile>\n"@ + "    </ofd:MultiMedia>\n"@,
            ),
{
    lemma_media_entries_hold(ms, k);
    let head = xml_decl() + res_open() + "  <ofd:MultiMedias>\n"@;
    let tail = "  </ofd:MultiMedias>\n"@ + "</ofd:Res>\n"@;
    assert(document_res_xml(ms) =~= head + media_entries(ms) + tail);
    let p = media_entries(ms.take(k)).len() as int;
    lemma_occurs_extend(head, media_entries(ms), tail, p, media_entry(ms[k]));
    lemma_occurs_extend(head, media_entries(ms) + tail, seq![], p, media_entry(ms[k]));
    assert(head + (media_entries(ms) + tail) =~= head + media_entries(ms) + tail);
    assert(occurs_at(head + media_entries(ms) + tail, head.len() + p, media_entry(ms[k])));
}

} // verus!
