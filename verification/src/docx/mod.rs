//! Word export: Markdown to an OOXML document, built as text and bytes.
pub mod archive;
pub mod highlight;
pub mod image;
pub mod package;
pub mod render;

use vstd::prelude::*;
use crate::docx::package::{
    app_xml, app_xml_spec, content_types_spec, content_types_xml, core_xml, core_xml_spec,
    document_rels_spec, document_rels_xml, document_wrapper, document_wrapper_spec, numbering_xml,
    numbering_xml_spec, root_rels_xml, root_rels_xml_spec, styles_xml, styles_xml_spec,
};
use crate::docx::render::{link_id, render_body, render_body_xml_with, render_xml_spec, render_xml_with};
use crate::docx::image::{embed_all, embed_docx_images, media_view, resolved};
use crate::images::{FetchedImage, ImageSource};
use crate::markdown::markdown_to_xml;
use crate::front_matter::{strip_front_matter, strip_front_matter_spec};
use crate::mermaid::string_views;
use crate::error::MpeError;
use crate::docx::archive::{
    deflated_len, entry_names, io_error, last_finishes, zip_bytes, zip_entries, zip_finish, zip_healthy, zip_new,
    zip_open, zip_start_file, zip_write, ZipBuilder,
};
use crate::markdown::comrak_xml;

verus! {

/// A Word document ready to be packaged: `word/document.xml`, the embedded
/// media and the hyperlink targets.
pub struct DocxContent {
    /// The text of `word/document.xml`.
    pub document_xml: String,
    /// Embedded media: (file name, bytes, content type, relationship id).
    pub media: Vec<(String, Vec<u8>, String, usize)>,
    /// Hyperlinks: (relationship id, target URL).
    pub links: Vec<(usize, String)>,
}

/// The (file name, content type) pairs of media items.
pub open spec fn media_types(media: Seq<(String, Vec<u8>, String, usize)>) -> Seq<(Seq<char>, Seq<char>)> {
    media.map_values(|m: (String, Vec<u8>, String, usize)| (m.0@, m.2@))
}

/// The file names of media items.
pub open spec fn media_names(media: Seq<(String, Vec<u8>, String, usize)>) -> Seq<Seq<char>> {
    media.map_values(|m: (String, Vec<u8>, String, usize)| m.0@)
}

/// The (id, target) pairs of hyperlinks.
pub open spec fn link_targets(links: Seq<(usize, String)>) -> Seq<(int, Seq<char>)> {
    links.map_values(|l: (usize, String)| (l.0 as int, l.1@))
}

/// Hyperlink targets numbered from relationship id `base` on.
pub open spec fn numbered_links(targets: Seq<Seq<char>>, base: int) -> Seq<(int, Seq<char>)> {
    Seq::new(targets.len(), |k: int| (link_id(base, k), targets[k]))
}

/// Numbers hyperlink targets from relationship id `base` on.
fn number_links(targets: Vec<String>, base: usize) -> (r: Vec<(usize, String)>)
    requires
        base <= usize::MAX / 2,
        targets@.len() * 6 <= usize::MAX,
    ensures
        link_targets(r@) == numbered_links(string_views(targets@), base as int),
{
    let ghost tv = string_views(targets@);
    let mut links: Vec<(usize, String)> = Vec::new();
    let mut k: usize = 0;
    while k < targets.len()
        invariant
            k <= targets@.len(),
            targets@.len() * 6 <= usize::MAX,
            base <= usize::MAX / 2,
            tv == string_views(targets@),
            link_targets(links@) == numbered_links(tv, base as int).take(k as int),
        decreases targets@.len() - k,
    {
        let url = targets[k].clone();
        let ghost before = links@;
        links.push((base + k, url));
        assert(tv[k as int] == targets@[k as int]@);
        assert(link_targets(links@) =~= link_targets(before).push(((base + k) as int, url@)));
        assert(numbered_links(tv, base as int).take(k + 1) =~= numbered_links(tv, base as int).take(k as int).push(
            (link_id(base as int, k as int), tv[k as int]),
        ));
        assert(link_targets(links@) =~= numbered_links(tv, base as int).take(k + 1));
        k = k + 1;
    }
    assert(numbered_links(tv, base as int).take(targets@.len() as int) =~= numbered_links(tv, base as int));
    links
}

/// The Word content of a Markdown document: `word/document.xml` wraps the
/// body that `render_xml_spec` gives for comrak's XML of the text without
/// its front matter; there
/// are no media; the hyperlinks are numbered from id 3 on. It never fails.
/// `md_file` is the document's path, which the rendering does not use.
pub fn markdown_to_docx_content(md: &str, md_file: &str) -> (r: Result<DocxContent, MpeError>)
    ensures
        r matches Ok(c) && c.document_xml@ == document_wrapper_spec(render_xml_spec(comrak_xml(strip_front_matter_spec(md@))).out)
            && c.media@.len() == 0
            && link_targets(c.links@) == numbered_links(render_xml_spec(comrak_xml(strip_front_matter_spec(md@))).links, 3),
{
    let (body, targets) = render_body(strip_front_matter(md));
    let links = number_links(targets, 3);
    Ok(DocxContent { document_xml: document_wrapper(body.as_str()), media: Vec::new(), links })
}

/// The text parts of a Word package, as (part name, XML), in the order in
/// which they are written: content types, package relationships, core and
/// application properties, the document, styles, numbering and the
/// document's relationships.
pub open spec fn docx_parts_spec(c: DocxContent) -> Seq<(Seq<char>, Seq<char>)> {
    seq![
        ("[Content_Types].xml"@, content_types_spec(media_types(c.media@))),
        ("_rels/.rels"@, root_rels_xml_spec()),
        ("docProps/core.xml"@, core_xml_spec()),
        ("docProps/app.xml"@, app_xml_spec()),
        ("word/document.xml"@, c.document_xml@),
        ("word/styles.xml"@, styles_xml_spec()),
        ("word/numbering.xml"@, numbering_xml_spec()),
        ("word/_rels/document.xml.rels"@, document_rels_spec(media_names(c.media@), link_targets(c.links@))),
    ]
}

/// The views of (name, text) pairs.
pub open spec fn pair_views(v: Seq<(String, String)>) -> Seq<(Seq<char>, Seq<char>)> {
    v.map_values(|p: (String, String)| (p.0@, p.1@))
}

/// The text parts of the Word package for `content` (see
/// `docx_parts_spec`); each media item goes in `word/media/` besides.
pub fn docx_parts(content: &DocxContent) -> (r: Vec<(String, String)>)
    requires
        content.media@.len() + 3 <= u64::MAX,
    ensures
        pair_views(r@) == docx_parts_spec(*content),
{
    let mut v: Vec<(String, String)> = Vec::new();
    v.push((String::from_str("[Content_Types].xml"), content_types_xml(&content.media)));
    v.push((String::from_str("_rels/.rels"), root_rels_xml()));
    v.push((String::from_str("docProps/core.xml"), core_xml()));
    v.push((String::from_str("docProps/app.xml"), app_xml()));
    v.push((String::from_str("word/document.xml"), content.document_xml.clone()));
    v.push((String::from_str("word/styles.xml"), styles_xml()));
    v.push((String::from_str("word/numbering.xml"), numbering_xml()));
    v.push((String::from_str("word/_rels/document.xml.rels"), document_rels_xml(&content.media, &content.links)));
    assert(pair_views(v@) =~= docx_parts_spec(*content));
    v
}

/// The package path of a media file.
pub fn media_part_name(name: &str) -> (r: String)
    ensures
        r@ == "word/media/"@ + name@,
{
    let mut out: Vec<char> = Vec::new();
    crate::text::push_str(&mut out, "word/media/");
    crate::text::push_str(&mut out, name);
    crate::text::string_of(&out)
}

/// The zip entries of a Word package: the text parts in UTF-8, then each
/// media item under `word/media/`.
pub open spec fn package_entries(c: DocxContent) -> Seq<(Seq<char>, Seq<u8>)> {
    docx_parts_spec(c).map_values(|p: (Seq<char>, Seq<char>)| (p.0, vstd::utf8::encode_utf8(p.1)))
        + c.media@.map_values(|m: (String, Vec<u8>, String, usize)| ("word/media/"@ + m.0@, m.1@))
}

/// Data that the writer takes in one entry: at most 0xFFFFFFFF bytes,
/// deflated to at most that.
pub open spec fn data_ok(d: Seq<u8>) -> bool {
    d.len() <= 0xFFFF_FFFF && deflated_len(d) <= 0xFFFF_FFFF
}

/// An archive entry the writer takes: a name of at most 65535 bytes in
/// UTF-8 and data that it takes.
pub open spec fn entry_fits(e: (Seq<char>, Seq<u8>)) -> bool {
    vstd::utf8::encode_utf8(e.0).len() <= 65535 && data_ok(e.1)
}

/// Entries that make an archive: distinct names, each entry fitting.
pub open spec fn archive_ok(es: Seq<(Seq<char>, Seq<u8>)>) -> bool {
    &&& forall|a: int, b: int| 0 <= a < b < es.len() ==> (#[trigger] es[a]).0 != (#[trigger] es[b]).0
    &&& forall|a: int| 0 <= a < es.len() ==> entry_fits(#[trigger] es[a])
}

/// Every entry's data is taken by the writer (see `data_ok`).
pub open spec fn data_fits(es: Seq<(Seq<char>, Seq<u8>)>) -> bool {
    forall|a: int| 0 <= a < es.len() ==> data_ok((#[trigger] es[a]).1)
}

proof fn lemma_next_entry_ok(all: Seq<(Seq<char>, Seq<u8>)>, n: int)
    requires
        archive_ok(all),
        0 <= n < all.len(),
    ensures
        entry_fits(all[n]),
        !entry_names(all.take(n)).contains(all[n].0),
{
    if entry_names(all.take(n)).contains(all[n].0) {
        let k = choose|k: int| 0 <= k < entry_names(all.take(n)).len() && entry_names(all.take(n))[k] == all[n].0;
        assert(all[k].0 == all[n].0);
    }
}

/// UTF-8 takes at most four bytes a character.
pub proof fn lemma_utf8_len(s: Seq<char>)
    ensures
        vstd::utf8::encode_utf8(s).len() <= 4 * s.len(),
    decreases s.len(),
{
    if s.len() > 0 {
        lemma_utf8_len(s.drop_first());
    }
}

/// A package without media whose parts' data fit makes an archive: the
/// part names are distinct and short.
pub proof fn lemma_package_ok(c: DocxContent)
    requires
        c.media@.len() == 0,
        data_fits(package_entries(c)),
    ensures
        archive_ok(package_entries(c)),
{
    reveal_strlit("[Content_Types].xml");
    reveal_strlit("_rels/.rels");
    reveal_strlit("docProps/core.xml");
    reveal_strlit("docProps/app.xml");
    reveal_strlit("word/document.xml");
    reveal_strlit("word/styles.xml");
    reveal_strlit("word/numbering.xml");
    reveal_strlit("word/_rels/document.xml.rels");
    let es = package_entries(c);
    let ps = docx_parts_spec(c);
    assert(c.media@.map_values(|m: (String, Vec<u8>, String, usize)| ("word/media/"@ + m.0@, m.1@)) =~= Seq::<(Seq<char>, Seq<u8>)>::empty());
    assert(es.len() == 8);
    assert forall|a: int| 0 <= a < 8 implies es[a].0 == ps[a].0 by {}
    assert(ps[0].0[0] == '[' && ps[1].0[0] == '_');
    assert(ps[2].0[0] == 'd' && ps[3].0[0] == 'd' && ps[2].0[9] == 'c' && ps[3].0[9] == 'a');
    assert(ps[4].0[0] == 'w' && ps[5].0[0] == 'w' && ps[6].0[0] == 'w' && ps[7].0[0] == 'w');
    assert(ps[4].0[5] == 'd' && ps[5].0[5] == 's' && ps[6].0[5] == 'n' && ps[7].0[5] == '_');
    assert forall|a: int| 0 <= a < es.len() implies entry_fits(#[trigger] es[a]) by {
        lemma_utf8_len(es[a].0);
    }
}

/// Adds one entry with its data to a healthy archive; it succeeds when the
/// entry open before can be finished, the entry fits and its name is new.
fn add_entry(z: &mut ZipBuilder, name: &str, data: &[u8]) -> (r: Result<(), MpeError>)
    requires
        zip_healthy(*old(z)),
    ensures
        r is Ok ==> zip_entries(*final(z)) == zip_entries(*old(z)).push((name@, data@)) && zip_open(*final(z))
            && zip_healthy(*final(z)),
        last_finishes(*old(z)) && entry_fits((name@, data@)) && !entry_names(zip_entries(*old(z))).contains(name@)
            ==> r is Ok,
{
    let nb = name.as_bytes();
    if nb.len() > 65535 {
        return Err(MpeError::IoError(io_error(String::from_str("file name too long"))));
    }
    match zip_start_file(z, name) {
        Ok(()) => {},
        Err(e) => return Err(MpeError::IoError(io_error(e))),
    }
    let ghost mid = zip_entries(*z);
    match zip_write(z, data) {
        Ok(()) => {},
        Err(e) => return Err(MpeError::IoError(io_error(e))),
    }
    assert(zip_entries(*z) =~= zip_entries(*old(z)).push((name@, data@)));
    Ok(())
}

/// The bytes of the `.docx` file for `content`: the zip archive of
/// `package_entries`. It succeeds whenever those entries make an archive
/// (distinct names, names within 65535 bytes, data and its deflated form
/// within 0xFFFFFFFF bytes); otherwise it may fail with an I/O error.
pub fn write_docx(content: &DocxContent) -> (r: Result<Vec<u8>, MpeError>)
    requires
        content.media@.len() + 3 <= u64::MAX,
    ensures
        r matches Ok(b) ==> b@ == zip_bytes(package_entries(*content)),
        archive_ok(package_entries(*content)) ==> r is Ok,
{
    let parts = docx_parts(content);
    let ghost pe = docx_parts_spec(*content).map_values(|p: (Seq<char>, Seq<char>)| (p.0, vstd::utf8::encode_utf8(p.1)));
    let ghost me = content.media@.map_values(|m: (String, Vec<u8>, String, usize)| ("word/media/"@ + m.0@, m.1@));
    let ghost all = package_entries(*content);
    assert(all == pe + me);
    let mut z = zip_new();
    let mut i: usize = 0;
    assert(all.take(0) =~= Seq::<(Seq<char>, Seq<u8>)>::empty());
    while i < parts.len()
        invariant
            i <= parts@.len(),
            pair_views(parts@) == docx_parts_spec(*content),
            pe == docx_parts_spec(*content).map_values(|p: (Seq<char>, Seq<char>)| (p.0, vstd::utf8::encode_utf8(p.1))),
            all == pe + me,
            all == package_entries(*content),
            zip_entries(z) == all.take(i as int),
            zip_healthy(z),
            zip_open(z) == (i > 0),
            archive_ok(all) ==> last_finishes(z),
        decreases parts@.len() - i,
    {
        let name = parts[i].0.as_str();
        let text = parts[i].1.as_str();
        assert(pair_views(parts@)[i as int] == (parts@[i as int].0@, parts@[i as int].1@));
        let bytes = text.as_bytes();
        assert(all[i as int] == (name@, bytes@));
        proof {
            if archive_ok(all) {
                lemma_next_entry_ok(all, i as int);
            }
        }
        match add_entry(&mut z, name, bytes) {
            Ok(()) => {},
            Err(e) => return Err(e),
        }
        assert(zip_entries(z) =~= all.take(i + 1));
        proof {
            if archive_ok(all) {
                assert(zip_entries(z).last() == all[i as int]);
            }
        }
        i = i + 1;
    }
    let mut k: usize = 0;
    while k < content.media.len()
        invariant
            k <= content.media@.len(),
            pe.len() == parts@.len(),
            i == parts@.len(),
            me == content.media@.map_values(|m: (String, Vec<u8>, String, usize)| ("word/media/"@ + m.0@, m.1@)),
            all == pe + me,
            all == package_entries(*content),
            zip_entries(z) == all.take(i + k),
            zip_healthy(z),
            zip_open(z) == (i + k > 0),
            archive_ok(all) ==> last_finishes(z),
        decreases content.media@.len() - k,
    {
        let name = media_part_name(content.media[k].0.as_str());
        let data = content.media[k].1.as_slice();
        assert(data@ == content.media@[k as int].1@);
        assert(all[i + k] == (name@, data@));
        proof {
            if archive_ok(all) {
                lemma_next_entry_ok(all, i + k);
            }
        }
        match add_entry(&mut z, name.as_str(), data) {
            Ok(()) => {},
            Err(e) => return Err(e),
        }
        assert(zip_entries(z) =~= all.take(i + k + 1));
        proof {
            if archive_ok(all) {
                assert(zip_entries(z).last() == all[i + k]);
            }
        }
        k = k + 1;
    }
    assert(all.take(i + k) =~= all);
    match zip_finish(z) {
        Ok(b) => Ok(b),
        Err(e) => Err(MpeError::IoError(io_error(e))),
    }
}

/// Markdown to the bytes of a `.docx` file in one step: the archive of the
/// content that `markdown_to_docx_content` builds. It succeeds whenever
/// every part's data and its deflated form are within 0xFFFFFFFF bytes.
pub fn convert_markdown_to_docx(md: &str, md_file: &str) -> (r: Result<Vec<u8>, MpeError>)
    ensures
        exists|c: DocxContent|
            #![trigger package_entries(c)]
            c.document_xml@ == document_wrapper_spec(render_xml_spec(comrak_xml(strip_front_matter_spec(md@))).out)
                && c.media@.len() == 0
                && link_targets(c.links@) == numbered_links(render_xml_spec(comrak_xml(strip_front_matter_spec(md@))).links, 3)
                && (r matches Ok(b) ==> b@ == zip_bytes(package_entries(c)))
                && (data_fits(package_entries(c)) ==> r is Ok),
{
    match markdown_to_docx_content(md, md_file) {
        Ok(c) => {
            proof {
                if data_fits(package_entries(c)) {
                    lemma_package_ok(c);
                }
            }
            let r = write_docx(&c);
            assert(r matches Ok(b) ==> b@ == zip_bytes(package_entries(c)));
            r
        },
        Err(e) => Err(e),
    }
}

/// The Word content of a Markdown document (without its front matter) with
/// its images embedded: each
/// image of the rendering is read with `fetch` (see `resolved`), those
/// whose dimensions are known become media items `image<n>.<ext>` with
/// relationship ids from 3 on (see `embed_all`), and `word/document.xml`
/// wraps the body rendered with them embedded; the hyperlinks are numbered
/// after the media. It never fails.
pub fn markdown_to_docx_content_with_images<F: Fn(&ImageSource) -> Option<FetchedImage>>(
    md: &str,
    md_file: &str,
    fetch: &F,
) -> (r: Result<DocxContent, MpeError>)
    requires
        forall|s: &ImageSource| fetch.requires((s,)),
    ensures
        r matches Ok(c) && exists|gots: Seq<Option<(Seq<u8>, Seq<char>)>>|
            #![trigger embed_all(gots)]
            {
                let x = comrak_xml(strip_front_matter_spec(md@));
                let srcs = render_xml_spec(x).images;
                let m = embed_all(gots).0;
                let base = 3 + m.len() as int;
                let rs = render_xml_with(x, embed_all(gots).1, base);
                &&& gots.len() == srcs.len()
                &&& forall|k: int| 0 <= k < gots.len() ==> resolved(*fetch, srcs[k], #[trigger] gots[k])
                &&& media_view(c.media@) == m
                &&& c.document_xml@ == document_wrapper_spec(rs.out)
                &&& link_targets(c.links@) == numbered_links(rs.links, base)
            },
{
    let xml = markdown_to_xml(strip_front_matter(md));
    let none: Vec<Option<(u64, u64, u64)>> = Vec::new();
    assert(none@ =~= Seq::<Option<(u64, u64, u64)>>::empty());
    let (_, _, srcs) = render_body_xml_with(xml.as_str(), none, 3);
    let (media, infos) = embed_docx_images(&srcs, md_file, fetch);
    let ghost gots = choose|gots: Seq<Option<(Seq<u8>, Seq<char>)>>|
        gots.len() == srcs@.len() && (forall|k: int|
            0 <= k < gots.len() ==> resolved(*fetch, srcs@[k]@, #[trigger] gots[k]))
            && media_view(media@) == embed_all(gots).0 && infos@ == embed_all(gots).1;
    let base = 3 + media.len();
    let ghost iv = infos@;
    let (body, targets, _) = render_body_xml_with(xml.as_str(), infos, base);
    let links = number_links(targets, base);
    let c = DocxContent { document_xml: document_wrapper(body.as_str()), media, links };
    proof {
        let x = comrak_xml(strip_front_matter_spec(md@));
        let srcs_v = render_xml_spec(x).images;
        assert(string_views(srcs@) == srcs_v);
        assert forall|k: int| 0 <= k < gots.len() implies resolved(*fetch, srcs_v[k], #[trigger] gots[k]) by {
            assert(srcs_v[k] == srcs@[k]@);
        }
        assert(media_view(c.media@).len() == c.media@.len());
    }
    Ok(c)
}

} // verus!
