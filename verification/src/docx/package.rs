//! The fixed parts of a Word package: the document wrapper, the styles,
//! the list numbering, the relationships and the content types.
use vstd::prelude::*;
use crate::text::{ascii_lower, chars_of, decimal, push_decimal, push_str, rfind, rfind_before_exec, string_of, to_ascii_lower};
use crate::converter::lemma_rfind_bounds;
use crate::docx::render::{escape_xml_spec, push_escaped};
use crate::docx::{link_targets, media_names, media_types};
use crate::text::{chars_eq, push_all};

verus! {

/// `word/document.xml` around a body.
pub open spec fn document_wrapper_spec(body: Seq<char>) -> Seq<char> {
    "<?xml version=\"1.0\" encoding=\"UTF-8\" standalone=\"yes\"?>\n<w:document xmlns:w=\"http://schemas.openxmlformats.org/wordprocessingml/2006/main\" xmlns:r=\"http://schemas.openxmlformats.org/officeDocument/2006/relationships\" xmlns:wp=\"http://schemas.openxmlformats.org/drawingml/2006/wordprocessingDrawing\" xmlns:a=\"http://schemas.openxmlformats.org/drawingml/2006/main\" xmlns:pic=\"http://schemas.openxmlformats.org/drawingml/2006/picture\"><w:body>"@ + body + "<w:sectPr><w:pgSz w:w=\"11906\" w:h=\"16838\"/><w:pgMar w:top=\"1134\" w:right=\"1134\" w:bottom=\"1134\" w:left=\"1134\" w:header=\"708\" w:footer=\"708\" w:gutter=\"0\"/></w:sectPr></w:body></w:document>"@
}

/// Wraps body XML into a complete `word/document.xml` (A4 page, margins of
/// 1134 twips).
pub fn document_wrapper(body: &str) -> (r: String)
    ensures
        r@ == document_wrapper_spec(body@),
{
    let mut out: Vec<char> = Vec::new();
    push_str(&mut out, "<?xml version=\"1.0\" encoding=\"UTF-8\" standalone=\"yes\"?>\n<w:document xmlns:w=\"http://schemas.openxmlformats.org/wordprocessingml/2006/main\" xmlns:r=\"http://schemas.openxmlformats.org/officeDocument/2006/relationships\" xmlns:wp=\"http://schemas.openxmlformats.org/drawingml/2006/wordprocessingDrawing\" xmlns:a=\"http://schemas.openxmlformats.org/drawingml/2006/main\" xmlns:pic=\"http://schemas.openxmlformats.org/drawingml/2006/picture\"><w:body>");
    push_str(&mut out, body);
    push_str(&mut out, "<w:sectPr><w:pgSz w:w=\"11906\" w:h=\"16838\"/><w:pgMar w:top=\"1134\" w:right=\"1134\" w:bottom=\"1134\" w:left=\"1134\" w:header=\"708\" w:footer=\"708\" w:gutter=\"0\"/></w:sectPr></w:body></w:document>");
    string_of(&out)
}

/// The package relationships (`_rels/.rels`).
pub open spec fn root_rels_xml_spec() -> Seq<char> {
    "<?xml version=\"1.0\" encoding=\"UTF-8\" standalone=\"yes\"?>\n<Relationships xmlns=\"http://schemas.openxmlformats.org/package/2006/relationships\"><Relationship Id=\"rId1\" Type=\"http://schemas.openxmlformats.org/officeDocument/2006/relationships/officeDocument\" Target=\"word/document.xml\"/><Relationship Id=\"rId2\" Type=\"http://schemas.openxmlformats.org/package/2006/relationships/metadata/core-properties\" Target=\"docProps/core.xml\"/><Relationship Id=\"rId3\" Type=\"http://schemas.openxmlformats.org/officeDocument/2006/relationships/extended-properties\" Target=\"docProps/app.xml\"/></Relationships>"@
}

/// The package relationships (`_rels/.rels`).
pub fn root_rels_xml() -> (r: String)
    ensures
        r@ == root_rels_xml_spec(),
{
    String::from_str("<?xml version=\"1.0\" encoding=\"UTF-8\" standalone=\"yes\"?>\n<Relationships xmlns=\"http://schemas.openxmlformats.org/package/2006/relationships\"><Relationship Id=\"rId1\" Type=\"http://schemas.openxmlformats.org/officeDocument/2006/relationships/officeDocument\" Target=\"word/document.xml\"/><Relationship Id=\"rId2\" Type=\"http://schemas.openxmlformats.org/package/2006/relationships/metadata/core-properties\" Target=\"docProps/core.xml\"/><Relationship Id=\"rId3\" Type=\"http://schemas.openxmlformats.org/officeDocument/2006/relationships/extended-properties\" Target=\"docProps/app.xml\"/></Relationships>")
}

/// The core properties (`docProps/core.xml`).
pub open spec fn core_xml_spec() -> Seq<char> {
    "<?xml version=\"1.0\" encoding=\"UTF-8\" standalone=\"yes\"?>\n<cp:coreProperties xmlns:cp=\"http://schemas.openxmlformats.org/package/2006/metadata/core-properties\" xmlns:dc=\"http://purl.org/dc/elements/1.1/\" xmlns:dcterms=\"http://purl.org/dc/terms/\" xmlns:xsi=\"http://www.w3.org/2001/XMLSchema-instance\"><dc:creator>md2x</dc:creator><cp:lastModifiedBy>md2x</cp:lastModifiedBy></cp:coreProperties>"@
}

/// The core properties (`docProps/core.xml`).
pub fn core_xml() -> (r: String)
    ensures
        r@ == core_xml_spec(),
{
    String::from_str("<?xml version=\"1.0\" encoding=\"UTF-8\" standalone=\"yes\"?>\n<cp:coreProperties xmlns:cp=\"http://schemas.openxmlformats.org/package/2006/metadata/core-properties\" xmlns:dc=\"http://purl.org/dc/elements/1.1/\" xmlns:dcterms=\"http://purl.org/dc/terms/\" xmlns:xsi=\"http://www.w3.org/2001/XMLSchema-instance\"><dc:creator>md2x</dc:creator><cp:lastModifiedBy>md2x</cp:lastModifiedBy></cp:coreProperties>")
}

/// The application properties (`docProps/app.xml`).
pub open spec fn app_xml_spec() -> Seq<char> {
    "<?xml version=\"1.0\" encoding=\"UTF-8\" standalone=\"yes\"?>\n<Properties xmlns=\"http://schemas.openxmlformats.org/officeDocument/2006/extended-properties\" xmlns:vt=\"http://schemas.openxmlformats.org/officeDocument/2006/docPropsVTypes\"><Application>md2x</Application></Properties>"@
}

/// The application properties (`docProps/app.xml`).
pub fn app_xml() -> (r: String)
    ensures
        r@ == app_xml_spec(),
{
    String::from_str("<?xml version=\"1.0\" encoding=\"UTF-8\" standalone=\"yes\"?>\n<Properties xmlns=\"http://schemas.openxmlformats.org/officeDocument/2006/extended-properties\" xmlns:vt=\"http://schemas.openxmlformats.org/officeDocument/2006/docPropsVTypes\"><Application>md2x</Application></Properties>")
}

/// The paragraph style of one heading level.
pub open spec fn heading_style(id: Seq<char>, name: Seq<char>, lvl: Seq<char>, sz: Seq<char>, before: Seq<char>, after: Seq<char>) -> Seq<char> {
    "<w:style w:type=\"paragraph\" w:styleId=\""@ + id + "\"><w:name w:val=\""@ + name + "\"/><w:basedOn w:val=\"Normal\"/><w:next w:val=\"Normal\"/><w:qFormat/><w:uiPriority w:val=\"9\"/><w:pPr><w:keepNext/><w:keepLines/><w:outlineLvl w:val=\""@ + lvl + "\"/><w:spacing w:before=\""@ + before + "\" w:after=\""@ + after + "\"/><w:pBdr><w:bottom w:val=\"single\" w:sz=\"4\" w:space=\"1\" w:color=\"eaecef\"/></w:pBdr></w:pPr><w:rPr><w:b/><w:sz w:val=\""@ + sz + "\"/><w:szCs w:val=\""@ + sz + "\"/></w:rPr></w:style>"@
}

fn push_heading_style(out: &mut Vec<char>, id: &str, name: &str, lvl: &str, sz: &str, before: &str, after: &str)
    ensures
        final(out)@ == old(out)@ + heading_style(id@, name@, lvl@, sz@, before@, after@),
{
    let ghost o = out@;
    push_str(out, "<w:style w:type=\"paragraph\" w:styleId=\"");
    push_str(out, id);
    push_str(out, "\"><w:name w:val=\"");
    push_str(out, name);
    push_str(out, "\"/><w:basedOn w:val=\"Normal\"/><w:next w:val=\"Normal\"/><w:qFormat/><w:uiPriority w:val=\"9\"/><w:pPr><w:keepNext/><w:keepLines/><w:outlineLvl w:val=\"");
    push_str(out, lvl);
    push_str(out, "\"/><w:spacing w:before=\"");
    push_str(out, before);
    push_str(out, "\" w:after=\"");
    push_str(out, after);
    push_str(out, "\"/><w:pBdr><w:bottom w:val=\"single\" w:sz=\"4\" w:space=\"1\" w:color=\"eaecef\"/></w:pBdr></w:pPr><w:rPr><w:b/><w:sz w:val=\"");
    push_str(out, sz);
    push_str(out, "\"/><w:szCs w:val=\"");
    push_str(out, sz);
    push_str(out, "\"/></w:rPr></w:style>");
    assert(out@ =~= o + heading_style(id@, name@, lvl@, sz@, before@, after@));
}

/// The heading styles, levels 1 to 6: outline level, font size, spacing
/// before and after, and a bottom border.
pub open spec fn heading_styles() -> Seq<char> {
    heading_style("Heading1"@, "heading 1"@, "0"@, "45"@, "450"@, "150"@) + heading_style("Heading2"@, "heading 2"@, "1"@, "36"@, "450"@, "150"@) + heading_style("Heading3"@, "heading 3"@, "2"@, "30"@, "420"@, "120"@) + heading_style("Heading4"@, "heading 4"@, "3"@, "26"@, "390"@, "90"@) + heading_style("Heading5"@, "heading 5"@, "4"@, "22"@, "360"@, "90"@) + heading_style("Heading6"@, "heading 6"@, "5"@, "22"@, "360"@, "90"@)
}

/// `word/styles.xml`: document defaults (fonts, size 11pt, line spacing
/// 1.75, space after 240 twips), the normal style and the heading styles.
pub open spec fn styles_xml_spec() -> Seq<char> {
    "<?xml version=\"1.0\" encoding=\"UTF-8\" standalone=\"yes\"?>\n<w:styles xmlns:w=\"http://schemas.openxmlformats.org/wordprocessingml/2006/main\"><w:docDefaults><w:rPrDefault><w:rPr><w:rFonts w:ascii=\"Segoe UI\" w:eastAsia=\"Microsoft YaHei\" w:hAnsi=\"Segoe UI\" w:cs=\"Segoe UI\"/><w:sz w:val=\"22\"/><w:szCs w:val=\"22\"/></w:rPr></w:rPrDefault><w:pPrDefault><w:pPr><w:spacing w:line=\"350\" w:lineRule=\"auto\" w:after=\"240\"/></w:pPr></w:pPrDefault></w:docDefaults><w:style w:type=\"paragraph\" w:default=\"1\" w:styleId=\"Normal\"><w:name w:val=\"Normal\"/><w:qFormat/></w:style>"@ + heading_styles() + "</w:styles>"@
}

/// `word/styles.xml`.
pub fn styles_xml() -> (r: String)
    ensures
        r@ == styles_xml_spec(),
{
    let mut out: Vec<char> = Vec::new();
    push_str(&mut out, "<?xml version=\"1.0\" encoding=\"UTF-8\" standalone=\"yes\"?>\n<w:styles xmlns:w=\"http://schemas.openxmlformats.org/wordprocessingml/2006/main\"><w:docDefaults><w:rPrDefault><w:rPr><w:rFonts w:ascii=\"Segoe UI\" w:eastAsia=\"Microsoft YaHei\" w:hAnsi=\"Segoe UI\" w:cs=\"Segoe UI\"/><w:sz w:val=\"22\"/><w:szCs w:val=\"22\"/></w:rPr></w:rPrDefault><w:pPrDefault><w:pPr><w:spacing w:line=\"350\" w:lineRule=\"auto\" w:after=\"240\"/></w:pPr></w:pPrDefault></w:docDefaults><w:style w:type=\"paragraph\" w:default=\"1\" w:styleId=\"Normal\"><w:name w:val=\"Normal\"/><w:qFormat/></w:style>");
    let ghost h = out@;
    push_heading_style(&mut out, "Heading1", "heading 1", "0", "45", "450", "150");
    push_heading_style(&mut out, "Heading2", "heading 2", "1", "36", "450", "150");
    push_heading_style(&mut out, "Heading3", "heading 3", "2", "30", "420", "120");
    push_heading_style(&mut out, "Heading4", "heading 4", "3", "26", "390", "90");
    push_heading_style(&mut out, "Heading5", "heading 5", "4", "22", "360", "90");
    push_heading_style(&mut out, "Heading6", "heading 6", "5", "22", "360", "90");
    assert(out@ =~= h + heading_styles());
    push_str(&mut out, "</w:styles>");
    string_of(&out)
}

/// One level of a list numbering.
pub open spec fn numbering_level(ilvl: Seq<char>, fmt: Seq<char>, text: Seq<char>, left: Seq<char>) -> Seq<char> {
    "<w:lvl w:ilvl=\""@ + ilvl + "\"><w:start w:val=\"1\"/><w:numFmt w:val=\""@ + fmt + "\"/><w:lvlText w:val=\""@ + text + "\"/><w:lvlJc w:val=\"left\"/><w:pPr><w:ind w:left=\""@ + left + "\" w:hanging=\"240\"/></w:pPr></w:lvl>"@
}

fn push_numbering_level(out: &mut Vec<char>, ilvl: &str, fmt: &str, text: &str, left: &str)
    ensures
        final(out)@ == old(out)@ + numbering_level(ilvl@, fmt@, text@, left@),
{
    let ghost o = out@;
    push_str(out, "<w:lvl w:ilvl=\"");
    push_str(out, ilvl);
    push_str(out, "\"><w:start w:val=\"1\"/><w:numFmt w:val=\"");
    push_str(out, fmt);
    push_str(out, "\"/><w:lvlText w:val=\"");
    push_str(out, text);
    push_str(out, "\"/><w:lvlJc w:val=\"left\"/><w:pPr><w:ind w:left=\"");
    push_str(out, left);
    push_str(out, "\" w:hanging=\"240\"/></w:pPr></w:lvl>");
    assert(out@ =~= o + numbering_level(ilvl@, fmt@, text@, left@));
}

/// The bullet list levels.
pub open spec fn bullet_levels() -> Seq<char> {
    numbering_level("0"@, "bullet"@, "•"@, "480"@) + numbering_level("1"@, "bullet"@, "◦"@, "960"@) + numbering_level("2"@, "bullet"@, "▪"@, "1440"@)
}

/// The numbered list levels.
pub open spec fn decimal_levels() -> Seq<char> {
    numbering_level("0"@, "decimal"@, "%1."@, "480"@) + numbering_level("1"@, "decimal"@, "%2."@, "960"@) + numbering_level("2"@, "decimal"@, "%3."@, "1440"@)
}

/// `word/numbering.xml`: a bullet and a decimal numbering, three levels
/// each.
pub open spec fn numbering_xml_spec() -> Seq<char> {
    "<?xml version=\"1.0\" encoding=\"UTF-8\" standalone=\"yes\"?>\n<w:numbering xmlns:w=\"http://schemas.openxmlformats.org/wordprocessingml/2006/main\"><w:abstractNum w:abstractNumId=\"0\"><w:multiLevelType w:val=\"hybridMultilevel\"/>"@ + bullet_levels() + "</w:abstractNum><w:abstractNum w:abstractNumId=\"1\"><w:multiLevelType w:val=\"hybridMultilevel\"/>"@ + decimal_levels() + "</w:abstractNum><w:num w:numId=\"1\"><w:abstractNumId w:val=\"0\"/></w:num><w:num w:numId=\"2\"><w:abstractNumId w:val=\"1\"/></w:num></w:numbering>"@
}

/// `word/numbering.xml`.
pub fn numbering_xml() -> (r: String)
    ensures
        r@ == numbering_xml_spec(),
{
    let mut out: Vec<char> = Vec::new();
    push_str(&mut out, "<?xml version=\"1.0\" encoding=\"UTF-8\" standalone=\"yes\"?>\n<w:numbering xmlns:w=\"http://schemas.openxmlformats.org/wordprocessingml/2006/main\"><w:abstractNum w:abstractNumId=\"0\"><w:multiLevelType w:val=\"hybridMultilevel\"/>");
    let ghost h1 = out@;
    push_numbering_level(&mut out, "0", "bullet", "•", "480");
    push_numbering_level(&mut out, "1", "bullet", "◦", "960");
    push_numbering_level(&mut out, "2", "bullet", "▪", "1440");
    assert(out@ =~= h1 + bullet_levels());
    push_str(&mut out, "</w:abstractNum><w:abstractNum w:abstractNumId=\"1\"><w:multiLevelType w:val=\"hybridMultilevel\"/>");
    let ghost h2 = out@;
    push_numbering_level(&mut out, "0", "decimal", "%1.", "480");
    push_numbering_level(&mut out, "1", "decimal", "%2.", "960");
    push_numbering_level(&mut out, "2", "decimal", "%3.", "1440");
    assert(out@ =~= h2 + decimal_levels());
    push_str(&mut out, "</w:abstractNum><w:num w:numId=\"1\"><w:abstractNumId w:val=\"0\"/></w:num><w:num w:numId=\"2\"><w:abstractNumId w:val=\"1\"/></w:num></w:numbering>");
    string_of(&out)
}

/// The extension of a media file name: what follows its last `.` (the
/// whole name without one), in ASCII lower case.
pub open spec fn media_ext(name: Seq<char>) -> Seq<char> {
    let e = match rfind(name, seq!['.']) {
        Some(k) => name.skip(k + 1),
        None => name,
    };
    e.map_values(|c: char| ascii_lower(c))
}

/// Media item `i` is the first with its extension.
pub open spec fn first_of_ext(media: Seq<(Seq<char>, Seq<char>)>, i: int) -> bool {
    forall|j: int| 0 <= j < i ==> media_ext(#[trigger] media[j].0) != media_ext(media[i].0)
}

/// A default content type for one extension.
pub open spec fn content_default(ext: Seq<char>, ct: Seq<char>) -> Seq<char> {
    "<Default Extension=\""@ + ext + "\" ContentType=\""@ + ct + "\"/>"@
}

/// The default content types of the first `n` media items: one per
/// extension, from the item where it first occurs.
pub open spec fn content_defaults(media: Seq<(Seq<char>, Seq<char>)>, n: int) -> Seq<char>
    decreases n,
{
    if n <= 0 {
        Seq::empty()
    } else {
        content_defaults(media, n - 1) + if first_of_ext(media, n - 1) {
            content_default(media_ext(media[n - 1].0), media[n - 1].1)
        } else {
            Seq::empty()
        }
    }
}

/// `[Content_Types].xml` for media given as (file name, content type).
pub open spec fn content_types_spec(media: Seq<(Seq<char>, Seq<char>)>) -> Seq<char> {
    "<?xml version=\"1.0\" encoding=\"UTF-8\" standalone=\"yes\"?>\n<Types xmlns=\"http://schemas.openxmlformats.org/package/2006/content-types\"><Default Extension=\"rels\" ContentType=\"application/vnd.openxmlformats-package.relationships+xml\"/><Default Extension=\"xml\" ContentType=\"application/xml\"/>"@ + content_defaults(media, media.len() as int) + "<Override PartName=\"/word/document.xml\" ContentType=\"application/vnd.openxmlformats-officedocument.wordprocessingml.document.main+xml\"/><Override PartName=\"/word/styles.xml\" ContentType=\"application/vnd.openxmlformats-officedocument.wordprocessingml.styles+xml\"/><Override PartName=\"/word/numbering.xml\" ContentType=\"application/vnd.openxmlformats-officedocument.wordprocessingml.numbering+xml\"/><Override PartName=\"/docProps/core.xml\" ContentType=\"application/vnd.openxmlformats-package.core-properties+xml\"/><Override PartName=\"/docProps/app.xml\" ContentType=\"application/vnd.openxmlformats-officedocument.extended-properties+xml\"/></Types>"@
}

/// The relationship of media item `i` (id `rId` and `i + 3`).
pub open spec fn media_rel(i: int, name: Seq<char>) -> Seq<char> {
    "<Relationship Id=\"rId"@ + decimal((i + 3) as nat) + "\" Type=\"http://schemas.openxmlformats.org/officeDocument/2006/relationships/image\" Target=\"media/"@ + name + "\"/>"@
}

/// The relationship of a hyperlink with id `rId` and `id`.
pub open spec fn link_rel(id: int, url: Seq<char>) -> Seq<char> {
    "<Relationship Id=\"rId"@ + decimal(id as nat) + "\" Type=\"http://schemas.openxmlformats.org/officeDocument/2006/relationships/hyperlink\" Target=\""@ + escape_xml_spec(url) + "\" TargetMode=\"External\"/>"@
}

/// The relationships of the first `n` media items.
pub open spec fn media_rels(names: Seq<Seq<char>>, n: int) -> Seq<char>
    decreases n,
{
    if n <= 0 {
        Seq::empty()
    } else {
        media_rels(names, n - 1) + media_rel(n - 1, names[n - 1])
    }
}

/// The relationships of the first `n` hyperlinks.
pub open spec fn link_rels(links: Seq<(int, Seq<char>)>, n: int) -> Seq<char>
    decreases n,
{
    if n <= 0 {
        Seq::empty()
    } else {
        link_rels(links, n - 1) + link_rel(links[n - 1].0, links[n - 1].1)
    }
}

/// `word/_rels/document.xml.rels`: styles, numbering, then each media item
/// and each hyperlink.
pub open spec fn document_rels_spec(names: Seq<Seq<char>>, links: Seq<(int, Seq<char>)>) -> Seq<char> {
    "<?xml version=\"1.0\" encoding=\"UTF-8\" standalone=\"yes\"?>\n<Relationships xmlns=\"http://schemas.openxmlformats.org/package/2006/relationships\"><Relationship Id=\"rId1\" Type=\"http://schemas.openxmlformats.org/officeDocument/2006/relationships/styles\" Target=\"styles.xml\"/><Relationship Id=\"rId2\" Type=\"http://schemas.openxmlformats.org/officeDocument/2006/relationships/numbering\" Target=\"numbering.xml\"/>"@ + media_rels(names, names.len() as int) + link_rels(links, links.len() as int) + "</Relationships>"@
}


/// The extension of a media file name (see `media_ext`).
fn media_ext_exec(name: &Vec<char>) -> (r: Vec<char>)
    ensures
        r@ == media_ext(name@),
{
    let dot = chars_of(".");
    proof {
        reveal_strlit(".");
        assert(dot@ =~= seq!['.']);
        lemma_rfind_bounds(name@, dot@);
    }
    let start = match rfind_before_exec(name, &dot, name.len()) {
        Some(k) => k + 1,
        None => 0,
    };
    let ghost e = name@.skip(start as int);
    assert(rfind(name@, seq!['.']) is None ==> e =~= name@);
    let mut out: Vec<char> = Vec::new();
    let mut i = start;
    while i < name.len()
        invariant
            start <= i <= name@.len(),
            e == name@.skip(start as int),
            out@ == e.take(i - start).map_values(|c: char| ascii_lower(c)),
        decreases name@.len() - i,
    {
        out.push(to_ascii_lower(name[i]));
        assert(e.take(i + 1 - start) =~= e.take(i - start).push(name@[i as int]));
        assert(out@ =~= e.take(i + 1 - start).map_values(|c: char| ascii_lower(c)));
        i = i + 1;
    }
    assert(e.take(name@.len() - start) =~= e);
    out
}

/// `[Content_Types].xml` for the media of a document.
pub fn content_types_xml(media: &Vec<(String, Vec<u8>, String, usize)>) -> (r: String)
    ensures
        r@ == content_types_spec(media_types(media@)),
{
    let ghost mv = media_types(media@);
    let mut out: Vec<char> = Vec::new();
    push_str(&mut out, "<?xml version=\"1.0\" encoding=\"UTF-8\" standalone=\"yes\"?>\n<Types xmlns=\"http://schemas.openxmlformats.org/package/2006/content-types\"><Default Extension=\"rels\" ContentType=\"application/vnd.openxmlformats-package.relationships+xml\"/><Default Extension=\"xml\" ContentType=\"application/xml\"/>");
    let ghost head = out@;
    let mut exts: Vec<Vec<char>> = Vec::new();
    let mut i: usize = 0;
    while i < media.len()
        invariant
            i <= media@.len(),
            mv == media_types(media@),
            mv.len() == media@.len(),
            exts@.len() == i,
            forall|j: int| 0 <= j < i ==> (#[trigger] exts@[j])@ == media_ext(mv[j].0),
            out@ == head + content_defaults(mv, i as int),
        decreases media@.len() - i,
    {
        let name = chars_of(media[i].0.as_str());
        let e = media_ext_exec(&name);
        assert(mv[i as int].0 == media@[i as int].0@);
        let mut first = true;
        let mut j: usize = 0;
        while j < i
            invariant
                j <= i == exts@.len(),
                first == forall|k: int| 0 <= k < j ==> (#[trigger] exts@[k])@ != e@,
            decreases i - j,
        {
            if chars_eq(&exts[j], &e) {
                first = false;
            }
            j = j + 1;
        }
        proof {
            assert(first == first_of_ext(mv, i as int)) by {
                if first {
                    assert forall|k: int| 0 <= k < i implies media_ext(#[trigger] mv[k].0) != media_ext(mv[i as int].0) by {
                        assert(exts@[k]@ != e@);
                    }
                } else {
                    let k = choose|k: int| 0 <= k < i && !((#[trigger] exts@[k])@ != e@);
                    assert(media_ext(mv[k].0) == media_ext(mv[i as int].0));
                }
            }
        }
        let ghost before = out@;
        if first {
            push_str(&mut out, "<Default Extension=\"");
            push_all(&mut out, &e);
            push_str(&mut out, "\" ContentType=\"");
            push_str(&mut out, media[i].2.as_str());
            push_str(&mut out, "\"/>");
            assert(mv[i as int].1 == media@[i as int].2@);
        }
        assert(out@ =~= head + content_defaults(mv, i + 1));
        exts.push(e);
        i = i + 1;
    }
    push_str(&mut out, "<Override PartName=\"/word/document.xml\" ContentType=\"application/vnd.openxmlformats-officedocument.wordprocessingml.document.main+xml\"/><Override PartName=\"/word/styles.xml\" ContentType=\"application/vnd.openxmlformats-officedocument.wordprocessingml.styles+xml\"/><Override PartName=\"/word/numbering.xml\" ContentType=\"application/vnd.openxmlformats-officedocument.wordprocessingml.numbering+xml\"/><Override PartName=\"/docProps/core.xml\" ContentType=\"application/vnd.openxmlformats-package.core-properties+xml\"/><Override PartName=\"/docProps/app.xml\" ContentType=\"application/vnd.openxmlformats-officedocument.extended-properties+xml\"/></Types>");
    string_of(&out)
}

/// `word/_rels/document.xml.rels` for the media and hyperlinks of a
/// document: media item `i` gets id `rId` and `i + 3`.
pub fn document_rels_xml(
    media: &Vec<(String, Vec<u8>, String, usize)>,
    links: &Vec<(usize, String)>,
) -> (r: String)
    requires
        media@.len() + 3 <= u64::MAX,
    ensures
        r@ == document_rels_spec(media_names(media@), link_targets(links@)),
{
    let ghost names = media_names(media@);
    let ghost lv = link_targets(links@);
    let mut out: Vec<char> = Vec::new();
    push_str(&mut out, "<?xml version=\"1.0\" encoding=\"UTF-8\" standalone=\"yes\"?>\n<Relationships xmlns=\"http://schemas.openxmlformats.org/package/2006/relationships\"><Relationship Id=\"rId1\" Type=\"http://schemas.openxmlformats.org/officeDocument/2006/relationships/styles\" Target=\"styles.xml\"/><Relationship Id=\"rId2\" Type=\"http://schemas.openxmlformats.org/officeDocument/2006/relationships/numbering\" Target=\"numbering.xml\"/>");
    let ghost head = out@;
    let mut i: usize = 0;
    while i < media.len()
        invariant
            i <= media@.len(),
            media@.len() + 3 <= u64::MAX,
            names == media_names(media@),
            out@ == head + media_rels(names, i as int),
        decreases media@.len() - i,
    {
        assert(names[i as int] == media@[i as int].0@);
        push_str(&mut out, "<Relationship Id=\"rId");
        push_decimal(&mut out, (i as u64) + 3);
        push_str(&mut out, "\" Type=\"http://schemas.openxmlformats.org/officeDocument/2006/relationships/image\" Target=\"media/");
        push_str(&mut out, media[i].0.as_str());
        push_str(&mut out, "\"/>");
        assert(out@ =~= head + media_rels(names, i + 1));
        i = i + 1;
    }
    let ghost mid = out@;
    let mut k: usize = 0;
    while k < links.len()
        invariant
            k <= links@.len(),
            lv == link_targets(links@),
            out@ == mid + link_rels(lv, k as int),
        decreases links@.len() - k,
    {
        assert(lv[k as int] == (links@[k as int].0 as int, links@[k as int].1@));
        let url = chars_of(links[k].1.as_str());
        push_str(&mut out, "<Relationship Id=\"rId");
        push_decimal(&mut out, links[k].0 as u64);
        push_str(&mut out, "\" Type=\"http://schemas.openxmlformats.org/officeDocument/2006/relationships/hyperlink\" Target=\"");
        push_escaped(&mut out, &url, 0, url.len());
        assert(url@.subrange(0, url@.len() as int) =~= url@);
        push_str(&mut out, "\" TargetMode=\"External\"/>");
        assert(out@ =~= mid + link_rels(lv, k + 1));
        k = k + 1;
    }
    push_str(&mut out, "</Relationships>");
    assert(out@ =~= head + media_rels(names, names.len() as int) + link_rels(lv, lv.len() as int) + "</Relationships>"@);
    string_of(&out)
}

} // verus!
