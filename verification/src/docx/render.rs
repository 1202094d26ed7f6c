//! Markdown to Word body XML: the renderer reads the CommonMark XML that the
//! Markdown parser writes and turns its blocks (headings, paragraphs,
//! lists, task lists, block quotes, code blocks, rules and tables) into
//! OOXML paragraphs, runs and tables.
use vstd::prelude::*;
use crate::text::{
    chars_of, decimal, find_from, find_from_exec, is_whitespace, lemma_find_from_bounds, push_all,
    push_decimal, push_str, range_eq_str, string_of,
};
use crate::front_matter::subvec;
use crate::template::word_len;
use crate::mermaid::{string_views, unescape_html, unescape_html_spec};
use crate::markdown::{comrak_xml, markdown_to_xml};
use crate::docx::highlight::{highlight_code, highlight_spec, one_dark_theme, pair_views};

verus! {

/// The XML escape of one character: `&`, `<`, `>` and `"` become entities.
pub open spec fn escape_xml_char(c: char) -> Seq<char> {
    if c == '&' {
        "&amp;"@
    } else if c == '<' {
        "&lt;"@
    } else if c == '>' {
        "&gt;"@
    } else if c == '"' {
        "&quot;"@
    } else {
        seq![c]
    }
}

/// The XML escape of a text.
pub open spec fn escape_xml_spec(s: Seq<char>) -> Seq<char>
    decreases s.len(),
{
    if s.len() == 0 {
        Seq::empty()
    } else {
        escape_xml_spec(s.drop_last()) + escape_xml_char(s.last())
    }
}

/// Appends the XML escape of `v[lo..hi]` to `out`.
pub fn push_escaped(out: &mut Vec<char>, v: &Vec<char>, lo: usize, hi: usize)
    requires
        lo <= hi <= v@.len(),
    ensures
        final(out)@ == old(out)@ + escape_xml_spec(v@.subrange(lo as int, hi as int)),
{
    let ghost o = out@;
    let mut i = lo;
    assert(v@.subrange(lo as int, lo as int) =~= Seq::<char>::empty());
    while i < hi
        invariant
            lo <= i <= hi <= v@.len(),
            out@ == o + escape_xml_spec(v@.subrange(lo as int, i as int)),
        decreases hi - i,
    {
        let c = v[i];
        assert(v@.subrange(lo as int, i + 1).drop_last() =~= v@.subrange(lo as int, i as int));
        if c == '&' {
            push_str(out, "&amp;");
        } else if c == '<' {
            push_str(out, "&lt;");
        } else if c == '>' {
            push_str(out, "&gt;");
        } else if c == '"' {
            push_str(out, "&quot;");
        } else {
            out.push(c);
        }
        assert(out@ =~= o + escape_xml_spec(v@.subrange(lo as int, i + 1)));
        i = i + 1;
    }
}

/// Escapes `&`, `<`, `>` and `"` for XML text and attribute values.
pub fn escape_xml(s: &str) -> (r: String)
    ensures
        r@ == escape_xml_spec(s@),
{
    let v = chars_of(s);
    let mut out: Vec<char> = Vec::new();
    push_escaped(&mut out, &v, 0, v.len());
    assert(v@.subrange(0, v@.len() as int) =~= v@);
    string_of(&out)
}

/// One piece of comrak's CommonMark XML.
pub enum XmlTok {
    /// `<?...?>` or `<!...>`.
    Decl,
    /// `<name ...>`, an element with children: its name and the whole tag.
    Open(Seq<char>, Seq<char>),
    /// `</name>`.
    Close(Seq<char>),
    /// `<name ... />`.
    Empty(Seq<char>),
    /// `<name ... xml:space="preserve">text</name>`, a literal node: its
    /// name, the whole tag and its (still escaped) text.
    Literal(Seq<char>, Seq<char>, Seq<char>),
}

/// The element name at the start of a tag.
pub open spec fn tag_name(tag: Seq<char>) -> Seq<char> {
    tag.take(word_len(tag))
}

/// `s` ends with `p`.
pub open spec fn has_suffix(s: Seq<char>, p: Seq<char>) -> bool {
    s.len() >= p.len() && s.skip(s.len() - p.len()) == p
}

/// The attribute that marks a literal node.
pub open spec fn preserve_attr() -> Seq<char> {
    "xml:space=\"preserve\""@
}

/// The next piece of `x` from `p` on, and where the text after it starts.
pub open spec fn next_tok(x: Seq<char>, p: int) -> Option<(XmlTok, int)> {
    match find_from(x, seq!['<'], p) {
        None => None,
        Some(lt) => match find_from(x, seq!['>'], lt) {
            None => None,
            Some(gt) => {
                let tag = x.subrange(lt + 1, gt);
                if tag.len() > 0 && (tag[0] == '?' || tag[0] == '!') {
                    Some((XmlTok::Decl, gt + 1))
                } else if tag.len() > 0 && tag[0] == '/' {
                    Some((XmlTok::Close(tag.skip(1)), gt + 1))
                } else if tag.len() > 0 && tag.last() == '/' {
                    Some((XmlTok::Empty(tag_name(tag)), gt + 1))
                } else if has_suffix(tag, preserve_attr()) {
                    match find_from(x, "</"@, gt + 1) {
                        None => None,
                        Some(cl) => match find_from(x, seq!['>'], cl) {
                            None => None,
                            Some(cg) => Some((XmlTok::Literal(tag_name(tag), tag, x.subrange(gt + 1, cl)), cg + 1)),
                        },
                    }
                } else {
                    Some((XmlTok::Open(tag_name(tag), tag), gt + 1))
                }
            },
        },
    }
}

pub proof fn lemma_next_tok_bounds(x: Seq<char>, p: int)
    requires
        0 <= p <= x.len(),
    ensures
        next_tok(x, p) matches Some((t, q)) ==> p < q <= x.len(),
{
    reveal_strlit("</");
    lemma_find_from_bounds(x, seq!['<'], p);
    if let Some(lt) = find_from(x, seq!['<'], p) {
        lemma_find_from_bounds(x, seq!['>'], lt);
        if let Some(gt) = find_from(x, seq!['>'], lt) {
            lemma_find_from_bounds(x, "</"@, gt + 1);
            if let Some(cl) = find_from(x, "</"@, gt + 1) {
                lemma_find_from_bounds(x, seq!['>'], cl);
            }
        }
    }
}

/// The value of attribute `name` in a tag (empty when it is missing).
pub open spec fn attr_value(tag: Seq<char>, name: Seq<char>) -> Seq<char> {
    let key = name + "=\""@;
    match find_from(tag, key, 0) {
        None => Seq::empty(),
        Some(k) => match find_from(tag, seq!['"'], k + key.len()) {
            None => Seq::empty(),
            Some(e) => tag.subrange(k + key.len(), e),
        },
    }
}

/// The heading level in a `heading` tag, clamped to 1..6.
pub open spec fn heading_level(tag: Seq<char>) -> int {
    let v = attr_value(tag, "level"@);
    if v.len() > 0 && '1' <= v[0] <= '6' {
        v[0] as int - 48
    } else if v.len() > 0 && '7' <= v[0] <= '9' {
        6
    } else {
        1
    }
}

/// The renderer's state between pieces of XML.
pub struct RenderState {
    /// The body XML written so far.
    pub out: Seq<char>,
    /// The hyperlink targets, in order.
    pub links: Seq<Seq<char>>,
    /// How many elements are open.
    pub depth: int,
    /// 0 outside a block, 1 in a heading, 2 in a paragraph or table cell.
    pub mode: int,
    /// The heading level.
    pub level: int,
    /// A heading's text, or a paragraph's runs.
    pub buf: Seq<char>,
    /// The paragraph has some text or a line break.
    pub has_text: bool,
    /// How many `strong` elements are open.
    pub bold: int,
    /// How many `emph` elements are open.
    pub italic: int,
    /// How many `strikethrough` elements are open.
    pub strike: int,
    /// How many `link` elements are open.
    pub link: int,
    /// The depth at which the open heading or paragraph started.
    pub pdepth: int,
    /// The paragraph properties of the open paragraph.
    pub props: Seq<char>,
    /// The open paragraph is a table cell.
    pub cell: bool,
    /// How many block quotes are open.
    pub quote: int,
    /// The open lists, innermost last: `true` for an ordered one.
    pub lists: Seq<bool>,
    /// A list item was opened and its first paragraph has not started.
    pub fresh: bool,
    /// That item's task mark: 0 none, 1 open, 2 done.
    pub task: int,
    /// For each image in order, what to embed: (relationship id, width,
    /// height in EMU), or nothing.
    pub infos: Seq<Option<(u64, u64, u64)>>,
    /// The image destinations, in order.
    pub images: Seq<Seq<char>>,
    /// How many `image` elements are open.
    pub in_image: int,
    /// The relationship id of the first hyperlink.
    pub link_base: int,
    /// How many rows of the open table have ended (the first is its
    /// header).
    pub rows: int,
    /// The column alignments of the open table, from its header cells.
    pub aligns: Seq<Seq<char>>,
    /// How many cells of the open row have started.
    pub col: int,
    /// The open paragraph holds an embedded image.
    pub centered: bool,
}

/// The state before any XML, with images to embed `infos` and hyperlinks
/// numbered from `link_base`.
pub open spec fn initial_state_with(infos: Seq<Option<(u64, u64, u64)>>, link_base: int) -> RenderState {
    RenderState {
        out: Seq::empty(),
        links: Seq::empty(),
        depth: 0,
        mode: 0,
        level: 1,
        buf: Seq::empty(),
        has_text: false,
        bold: 0,
        italic: 0,
        strike: 0,
        link: 0,
        pdepth: 0,
        props: Seq::empty(),
        cell: false,
        quote: 0,
        lists: Seq::empty(),
        fresh: false,
        task: 0,
        infos: infos,
        images: Seq::empty(),
        in_image: 0,
        link_base: link_base,
        rows: 0,
        aligns: Seq::empty(),
        col: 0,
        centered: false,
    }
}

/// The state before any XML when no image is embedded.
pub open spec fn initial_state() -> RenderState {
    initial_state_with(Seq::empty(), 3)
}

/// The relationship id of the `k`-th hyperlink when they are numbered from
/// `base` (ids 1 and 2 are the styles and the numbering, then the images).
pub open spec fn link_id(base: int, k: int) -> int {
    base + k
}

/// An embedded picture, inline in a run: relationship id `rid`, extent
/// `cx` by `cy` EMU, drawing number `id`.
pub open spec fn drawing_xml(rid: u64, cx: u64, cy: u64, id: int) -> Seq<char> {
    "<w:r><w:drawing><wp:inline distT=\"0\" distB=\"0\" distL=\"0\" distR=\"0\"><wp:extent cx=\""@ + decimal(cx as nat)
        + "\" cy=\""@ + decimal(cy as nat) + "\"/><wp:docPr id=\""@ + decimal(id as nat) + "\" name=\"Picture "@
        + decimal(id as nat)
        + "\"/><a:graphic><a:graphicData uri=\"http://schemas.openxmlformats.org/drawingml/2006/picture\"><pic:pic><pic:nvPicPr><pic:cNvPr id=\""@
        + decimal(id as nat) + "\" name=\"Picture "@ + decimal(id as nat)
        + "\"/><pic:cNvPicPr/></pic:nvPicPr><pic:blipFill><a:blip r:embed=\"rId"@ + decimal(rid as nat)
        + "\"/><a:stretch><a:fillRect/></a:stretch></pic:blipFill><pic:spPr><a:xfrm><a:off x=\"0\" y=\"0\"/><a:ext cx=\""@
        + decimal(cx as nat) + "\" cy=\""@ + decimal(cy as nat)
        + "\"/></a:xfrm><a:prstGeom prst=\"rect\"><a:avLst/></a:prstGeom></pic:spPr></pic:pic></a:graphicData></a:graphic></wp:inline></w:drawing></w:r>"@
}

/// What an image adds to a paragraph: its picture when `info` says to
/// embed it.
pub open spec fn image_xml(info: Option<(u64, u64, u64)>, id: int) -> Seq<char> {
    match info {
        Some((rid, cx, cy)) => drawing_xml(rid, cx, cy, id),
        None => Seq::empty(),
    }
}

/// The embedding of image `k`: its entry of `infos`, if there is one.
pub open spec fn info_at(infos: Seq<Option<(u64, u64, u64)>>, k: int) -> Option<(u64, u64, u64)> {
    if 0 <= k < infos.len() {
        infos[k]
    } else {
        None
    }
}

/// The font of ordinary text.
pub open spec fn text_fonts() -> Seq<char> {
    "<w:rFonts w:ascii=\"Segoe UI\" w:eastAsia=\"Microsoft YaHei\" w:hAnsi=\"Segoe UI\" w:cs=\"Segoe UI\"/>"@
}

/// The font of inline code.
pub open spec fn code_fonts() -> Seq<char> {
    "<w:rFonts w:ascii=\"Consolas\" w:eastAsia=\"Microsoft YaHei\" w:hAnsi=\"Consolas\" w:cs=\"Consolas\"/>"@
}

/// The character properties of a run (`quoted`: in a block quote).
pub open spec fn run_props(code: bool, bold: bool, italic: bool, strike: bool, linked: bool, quoted: bool) -> Seq<char> {
    (if code { code_fonts() } else { text_fonts() })
        + (if bold { "<w:b/>"@ } else { Seq::empty() })
        + (if italic { "<w:i/>"@ } else { Seq::empty() })
        + (if strike { "<w:strike/>"@ } else { Seq::empty() })
        + (if code {
            "<w:color w:val=\"d63384\"/><w:shd w:val=\"clear\" w:color=\"auto\" w:fill=\"f0f0f0\"/><w:sz w:val=\"20\"/><w:szCs w:val=\"20\"/>"@
        } else if linked {
            "<w:color w:val=\"0366d6\"/><w:u w:val=\"single\"/><w:sz w:val=\"22\"/><w:szCs w:val=\"22\"/>"@
        } else if quoted {
            "<w:color w:val=\"6a737d\"/><w:sz w:val=\"22\"/><w:szCs w:val=\"22\"/>"@
        } else {
            "<w:sz w:val=\"22\"/><w:szCs w:val=\"22\"/>"@
        })
}

/// A run of text (`text` is already escaped).
pub open spec fn run_xml(text: Seq<char>, code: bool, bold: bool, italic: bool, strike: bool, linked: bool, quoted: bool) -> Seq<char> {
    "<w:r><w:rPr>"@ + run_props(code, bold, italic, strike, linked, quoted) + "</w:rPr><w:t xml:space=\"preserve\">"@ + text + "</w:t></w:r>"@
}

/// A line break run.
pub open spec fn break_run() -> Seq<char> {
    "<w:r><w:br/></w:r>"@
}

/// The start of a hyperlink with relationship id `rId` and `id`.
pub open spec fn hyperlink_open(id: int) -> Seq<char> {
    "<w:hyperlink r:id=\"rId"@ + decimal(id as nat) + "\" w:history=\"1\">"@
}

/// The spacing before a heading of a level, in twips.
pub open spec fn heading_before(level: int) -> Seq<char> {
    if level <= 2 { "450"@ } else if level == 3 { "420"@ } else if level == 4 { "390"@ } else { "360"@ }
}

/// The spacing after a heading of a level, in twips.
pub open spec fn heading_after(level: int) -> Seq<char> {
    if level <= 2 { "150"@ } else if level == 3 { "120"@ } else { "90"@ }
}

/// A heading paragraph (`text` is already escaped).
pub open spec fn heading_xml(level: int, text: Seq<char>) -> Seq<char> {
    "<w:p><w:pPr><w:pStyle w:val=\"Heading"@ + decimal(level as nat) + "\"/><w:spacing w:before=\""@
        + heading_before(level) + "\" w:after=\""@ + heading_after(level)
        + "\"/></w:pPr><w:r><w:t xml:space=\"preserve\">"@ + text + "</w:t></w:r></w:p>"@
}

/// A paragraph with properties `props` and runs `runs`.
pub open spec fn paragraph_xml(props: Seq<char>, runs: Seq<char>) -> Seq<char> {
    "<w:p><w:pPr>"@ + props + "</w:pPr>"@ + runs + "</w:p>"@
}

/// `n`, at most 8 (Word's deepest list level).
pub open spec fn cap8(n: int) -> int {
    if n > 8 { 8 } else { n }
}

/// The numbering of the first paragraph of an item of the innermost list:
/// bullets (numbering 1) or decimals (numbering 2), at the list's level.
pub open spec fn list_num_xml(lists: Seq<bool>) -> Seq<char> {
    "<w:numPr><w:ilvl w:val=\""@ + decimal(cap8(lists.len() - 1) as nat) + "\"/><w:numId w:val=\""@
        + (if lists.last() { "2"@ } else { "1"@ }) + "\"/></w:numPr>"@
}

/// The left bar and background of a block quote.
pub open spec fn quote_border() -> Seq<char> {
    "<w:pBdr><w:left w:val=\"single\" w:sz=\"24\" w:space=\"8\" w:color=\"dfe2e5\"/></w:pBdr><w:shd w:val=\"clear\" w:color=\"auto\" w:fill=\"fafbfc\"/>"@
}

/// The properties of a body paragraph: line spacing 1.75 and 240 twips
/// after; the first paragraph of a list item is numbered, other paragraphs
/// in lists and quotes are indented (720 twips a list level, 240 a quote
/// level), and paragraphs in quotes get the quote's bar and background.
pub open spec fn block_props(quote: int, lists: Seq<bool>, fresh: bool) -> Seq<char> {
    let numbered = lists.len() > 0 && fresh;
    (if numbered { list_num_xml(lists) } else { Seq::empty() })
        + (if quote > 0 { quote_border() } else { Seq::empty() })
        + "<w:spacing w:line=\"350\" w:lineRule=\"auto\" w:after=\"240\"/>"@
        + (if !numbered && (quote > 0 || lists.len() > 0) {
            "<w:ind w:left=\""@ + decimal((720 * cap8(lists.len() as int) + 240 * cap8(quote)) as nat) + "\"/>"@
        } else {
            Seq::empty()
        })
}

/// The properties of a paragraph in a table cell aligned as `align`
/// (`right`, `center`, else to the left).
pub open spec fn cell_props(align: Seq<char>) -> Seq<char> {
    "<w:spacing w:before=\"60\" w:after=\"60\"/>"@ + if align == "right"@ {
        "<w:jc w:val=\"right\"/>"@
    } else if align == "center"@ {
        "<w:jc w:val=\"center\"/>"@
    } else {
        Seq::empty()
    }
}

/// The cell properties of a header cell: the header shading.
pub open spec fn header_cell_props() -> Seq<char> {
    "<w:tcPr><w:shd w:val=\"clear\" w:color=\"auto\" w:fill=\"f6f8fa\"/></w:tcPr>"@
}

/// The alignment of column `col` by the header's alignments.
pub open spec fn col_align(aligns: Seq<Seq<char>>, col: int) -> Seq<char> {
    if 0 <= col < aligns.len() {
        aligns[col]
    } else {
        Seq::empty()
    }
}

/// What closes the properties of a paragraph that holds an embedded image:
/// it is centred.
pub open spec fn center_props(centered: bool) -> Seq<char> {
    if centered {
        "<w:jc w:val=\"center\"/>"@
    } else {
        Seq::empty()
    }
}

/// The check box that starts a task item's first paragraph.
pub open spec fn task_mark(task: int) -> Seq<char> {
    if task == 2 {
        "<w:r><w:t xml:space=\"preserve\">\u{2611} </w:t></w:r>"@
    } else if task == 1 {
        "<w:r><w:t xml:space=\"preserve\">\u{2610} </w:t></w:r>"@
    } else {
        Seq::empty()
    }
}

/// The start of a table: full width, thin borders `dfe2e5`, cell margins
/// of 120 twips above and below and 180 at the sides.
pub open spec fn table_open() -> Seq<char> {
    "<w:tbl><w:tblPr><w:tblW w:w=\"5000\" w:type=\"pct\"/><w:tblBorders><w:top w:val=\"single\" w:sz=\"4\" w:space=\"0\" w:color=\"dfe2e5\"/><w:left w:val=\"single\" w:sz=\"4\" w:space=\"0\" w:color=\"dfe2e5\"/><w:bottom w:val=\"single\" w:sz=\"4\" w:space=\"0\" w:color=\"dfe2e5\"/><w:right w:val=\"single\" w:sz=\"4\" w:space=\"0\" w:color=\"dfe2e5\"/><w:insideH w:val=\"single\" w:sz=\"4\" w:space=\"0\" w:color=\"dfe2e5\"/><w:insideV w:val=\"single\" w:sz=\"4\" w:space=\"0\" w:color=\"dfe2e5\"/></w:tblBorders><w:tblCellMar><w:top w:w=\"120\" w:type=\"dxa\"/><w:left w:w=\"180\" w:type=\"dxa\"/><w:bottom w:w=\"120\" w:type=\"dxa\"/><w:right w:w=\"180\" w:type=\"dxa\"/></w:tblCellMar></w:tblPr><w:tblGrid/>"@
}

/// A horizontal rule: an empty paragraph with a bottom border.
pub open spec fn rule_xml() -> Seq<char> {
    "<w:p><w:pPr><w:pBdr><w:bottom w:val=\"single\" w:sz=\"4\" w:space=\"1\" w:color=\"eaecef\"/></w:pBdr></w:pPr></w:p>"@
}

/// One character of a code block in a run: a line break ends the text and
/// breaks the line, other characters are escaped.
pub open spec fn code_char(c: char) -> Seq<char> {
    if c == '\n' {
        "</w:t><w:br/><w:t xml:space=\"preserve\">"@
    } else {
        escape_xml_char(c)
    }
}

/// The text of a code block inside its run.
pub open spec fn code_text(s: Seq<char>) -> Seq<char>
    decreases s.len(),
{
    if s.len() == 0 {
        Seq::empty()
    } else {
        code_text(s.drop_last()) + code_char(s.last())
    }
}

/// A code block's text without its final line break.
pub open spec fn code_body(t: Seq<char>) -> Seq<char> {
    if t.len() > 0 && t.last() == '\n' {
        t.drop_last()
    } else {
        t
    }
}

/// The language of a code block: the first word of its `info` attribute.
pub open spec fn info_lang(tag: Seq<char>) -> Seq<char> {
    let info = attr_value(tag, "info"@);
    info.take(word_len(info))
}

/// A highlighted token of a code block: a run in the code font and the
/// token's colour.
pub open spec fn code_run(text: Seq<char>, color: Seq<char>) -> Seq<char> {
    "<w:r><w:rPr>"@ + code_fonts() + "<w:color w:val=\""@ + color
        + "\"/><w:sz w:val=\"20\"/><w:szCs w:val=\"20\"/></w:rPr><w:t xml:space=\"preserve\">"@ + code_text(text)
        + "</w:t></w:r>"@
}

/// The runs of highlighted tokens, in order.
pub open spec fn code_runs(ts: Seq<(Seq<char>, Seq<char>)>) -> Seq<char>
    decreases ts.len(),
{
    if ts.len() == 0 {
        Seq::empty()
    } else {
        code_runs(ts.drop_last()) + code_run(ts.last().0, ts.last().1)
    }
}

/// A code block: one paragraph shaded in the One Dark background
/// (foreground `abb2bf`, line spacing 1.33, 240 twips indents at both
/// sides), holding the runs of its highlighted tokens.
pub open spec fn code_block_xml(runs: Seq<char>) -> Seq<char> {
    "<w:p><w:pPr><w:shd w:val=\"clear\" w:color=\"auto\" w:fill=\"282C34\"/><w:spacing w:line=\"320\" w:lineRule=\"auto\" w:after=\"240\"/><w:ind w:left=\"240\" w:right=\"240\"/><w:rPr><w:color w:val=\"abb2bf\"/></w:rPr></w:pPr>"@
        + runs + "</w:p>"@
}

/// One less, not below zero.
pub open spec fn dec(n: int) -> int {
    if n > 0 { n - 1 } else { 0 }
}

/// The state after a paragraph opens outside any block: a list item's
/// first paragraph is numbered, a task item's starts with its check box.
pub open spec fn open_paragraph(s: RenderState) -> RenderState {
    let t = if s.fresh { s.task } else { 0 };
    RenderState {
        depth: s.depth + 1,
        mode: 2,
        buf: task_mark(t),
        has_text: t != 0,
        bold: 0,
        italic: 0,
        strike: 0,
        link: 0,
        pdepth: s.depth,
        props: block_props(s.quote, s.lists, s.fresh && s.task == 0),
        cell: false,
        fresh: false,
        centered: false,
        ..s
    }
}

/// The state after a table cell opens: a header cell is shaded and bold
/// and gives its column's alignment, a body cell takes its column's.
pub open spec fn open_cell(s: RenderState, tag: Seq<char>) -> RenderState {
    let header = s.rows == 0;
    let align = if header { attr_value(tag, "align"@) } else { col_align(s.aligns, s.col) };
    RenderState {
        depth: s.depth + 1,
        out: s.out + "<w:tc>"@ + if header { header_cell_props() } else { Seq::empty() },
        mode: 2,
        buf: Seq::empty(),
        has_text: false,
        bold: if header { 1 } else { 0 },
        italic: 0,
        strike: 0,
        link: 0,
        pdepth: s.depth,
        props: cell_props(align),
        cell: true,
        centered: false,
        aligns: if header { s.aligns.push(align) } else { s.aligns },
        col: s.col + 1,
        ..s
    }
}

/// The state after an opening tag.
pub open spec fn step_open(s: RenderState, name: Seq<char>, tag: Seq<char>) -> RenderState {
    let s1 = RenderState { depth: s.depth + 1, ..s };
    if s.mode == 0 {
        if name == "heading"@ {
            RenderState {
                mode: 1,
                level: heading_level(tag),
                buf: Seq::empty(),
                has_text: false,
                pdepth: s.depth,
                fresh: false,
                ..s1
            }
        } else if name == "paragraph"@ {
            open_paragraph(s)
        } else if name == "table_cell"@ {
            open_cell(s, tag)
        } else if name == "block_quote"@ {
            RenderState { quote: s.quote + 1, ..s1 }
        } else if name == "list"@ {
            RenderState { lists: s.lists.push(attr_value(tag, "type"@) == "ordered"@), ..s1 }
        } else if name == "item"@ {
            RenderState { fresh: true, task: 0, ..s1 }
        } else if name == "taskitem"@ {
            RenderState { fresh: true, task: if attr_value(tag, "completed"@) == "true"@ { 2 } else { 1 }, ..s1 }
        } else if name == "table"@ {
            RenderState { out: s.out + table_open(), rows: 0, aligns: Seq::empty(), ..s1 }
        } else if name == "table_row"@ {
            RenderState { out: s.out + "<w:tr>"@, col: 0, ..s1 }
        } else {
            s1
        }
    } else if s.mode == 2 {
        if name == "strong"@ {
            RenderState { bold: s.bold + 1, ..s1 }
        } else if name == "emph"@ {
            RenderState { italic: s.italic + 1, ..s1 }
        } else if name == "strikethrough"@ {
            RenderState { strike: s.strike + 1, ..s1 }
        } else if name == "link"@ {
            RenderState {
                buf: s.buf + hyperlink_open(link_id(s.link_base, s.links.len() as int)),
                links: s.links.push(unescape_html_spec(attr_value(tag, "destination"@))),
                link: s.link + 1,
                ..s1
            }
        } else if name == "image"@ {
            let k = s.images.len() as int;
            let info = info_at(s.infos, k);
            RenderState {
                buf: s.buf + image_xml(info, k + 1),
                has_text: s.has_text || info is Some,
                centered: s.centered || info is Some,
                images: s.images.push(unescape_html_spec(attr_value(tag, "destination"@))),
                in_image: s.in_image + 1,
                ..s1
            }
        } else {
            s1
        }
    } else {
        s1
    }
}

/// What finishing a heading (mode 1) or paragraph or table cell (mode 2)
/// writes.
pub open spec fn block_out(
    mode: int,
    level: int,
    cell: bool,
    has_text: bool,
    centered: bool,
    props: Seq<char>,
    buf: Seq<char>,
) -> Seq<char> {
    if mode == 1 {
        heading_xml(level, escape_xml_spec(buf))
    } else if cell {
        paragraph_xml(props, buf) + "</w:tc>"@
    } else if has_text {
        paragraph_xml(props + center_props(centered), buf)
    } else {
        Seq::empty()
    }
}

/// The state after a closing tag: closing a heading, paragraph or table
/// cell writes it (a paragraph outside a table only when it has text);
/// closing a container updates what is open.
pub open spec fn step_close(s: RenderState, name: Seq<char>) -> RenderState {
    let d = dec(s.depth);
    if s.mode != 0 && d == s.pdepth {
        RenderState {
            out: s.out + block_out(s.mode, s.level, s.cell, s.has_text, s.centered, s.props, s.buf),
            depth: d,
            mode: 0,
            buf: Seq::empty(),
            cell: false,
            ..s
        }
    } else if s.mode == 0 {
        if name == "block_quote"@ {
            RenderState { depth: d, quote: dec(s.quote), ..s }
        } else if name == "list"@ {
            RenderState { depth: d, lists: if s.lists.len() > 0 { s.lists.drop_last() } else { s.lists }, ..s }
        } else if name == "item"@ || name == "taskitem"@ {
            RenderState { depth: d, fresh: false, task: 0, ..s }
        } else if name == "table_row"@ {
            RenderState { depth: d, out: s.out + "</w:tr>"@, rows: s.rows + 1, ..s }
        } else if name == "table"@ {
            RenderState { depth: d, out: s.out + "</w:tbl>"@, ..s }
        } else {
            RenderState { depth: d, ..s }
        }
    } else if s.mode == 2 {
        if name == "strong"@ {
            RenderState { depth: d, bold: dec(s.bold), ..s }
        } else if name == "emph"@ {
            RenderState { depth: d, italic: dec(s.italic), ..s }
        } else if name == "strikethrough"@ {
            RenderState { depth: d, strike: dec(s.strike), ..s }
        } else if name == "link"@ {
            RenderState { depth: d, buf: s.buf + "</w:hyperlink>"@, link: dec(s.link), ..s }
        } else if name == "image"@ {
            RenderState { depth: d, in_image: dec(s.in_image), ..s }
        } else {
            RenderState { depth: d, ..s }
        }
    } else {
        RenderState { depth: d, ..s }
    }
}

/// The state after an empty element: soft and hard line breaks.
pub open spec fn step_empty(s: RenderState, name: Seq<char>) -> RenderState {
    if name == "softbreak"@ || name == "linebreak"@ {
        if s.mode == 1 {
            RenderState { buf: s.buf.push('\n'), has_text: true, ..s }
        } else if s.mode == 2 {
            RenderState { buf: s.buf + break_run(), has_text: true, ..s }
        } else {
            s
        }
    } else if name == "thematic_break"@ && s.mode == 0 {
        RenderState { out: s.out + rule_xml(), ..s }
    } else {
        s
    }
}

/// The state after a literal node: text and inline code.
pub open spec fn step_literal(s: RenderState, name: Seq<char>, tag: Seq<char>, raw: Seq<char>) -> RenderState {
    let t = unescape_html_spec(raw);
    if name == "text"@ || name == "code"@ {
        if s.mode == 1 {
            RenderState { buf: s.buf + t, has_text: s.has_text || t.len() > 0, ..s }
        } else if s.mode == 2 && t.len() > 0 && s.in_image == 0 {
            RenderState {
                buf: s.buf + run_xml(
                    escape_xml_spec(t),
                    name == "code"@,
                    s.bold > 0,
                    s.italic > 0,
                    s.strike > 0,
                    s.link > 0,
                    s.quote > 0,
                ),
                has_text: true,
                ..s
            }
        } else {
            s
        }
    } else if name == "code_block"@ && s.mode == 0 {
        RenderState { out: s.out + code_block_xml(code_runs(highlight_spec(one_dark_theme(), Some(info_lang(tag)), code_body(t)))), ..s }
    } else {
        s
    }
}

/// The state after one piece of XML.
pub open spec fn step(s: RenderState, t: XmlTok) -> RenderState {
    match t {
        XmlTok::Decl => s,
        XmlTok::Open(name, tag) => step_open(s, name, tag),
        XmlTok::Close(name) => step_close(s, name),
        XmlTok::Empty(name) => step_empty(s, name),
        XmlTok::Literal(name, tag, raw) => step_literal(s, name, tag, raw),
    }
}

/// The state after the pieces of `x` from `p` on.
pub open spec fn render_from_xml(x: Seq<char>, p: int, s: RenderState) -> RenderState
    decreases x.len() + 1 - p,
{
    if p < 0 || p > x.len() {
        s
    } else {
        match next_tok(x, p) {
            None => s,
            Some((t, q)) => {
                proof {
                    lemma_next_tok_bounds(x, p);
                }
                render_from_xml(x, q, step(s, t))
            },
        }
    }
}

/// The Word rendering of comrak's XML for a document: headings become
/// `HeadingN` paragraphs with their text; paragraphs become paragraphs of
/// runs (bold, italic, struck through, inline code, hyperlinks, line
/// breaks), numbered or indented in lists, barred in block quotes, with a
/// check box in task items; code blocks become shaded paragraphs of
/// highlighted runs, thematic breaks rules, and tables Word tables of one
/// paragraph a cell (the header row in bold). No image is embedded here
/// (see `render_xml_with`); HTML and footnote references are left out.
pub open spec fn render_xml_spec(x: Seq<char>) -> RenderState {
    render_from_xml(x, 0, initial_state())
}

/// The Word rendering of comrak's XML (see `render_xml_spec`) with the
/// images of `infos` embedded in their paragraphs (their alternative text
/// left out) and hyperlinks numbered from `link_base`.
pub open spec fn render_xml_with(x: Seq<char>, infos: Seq<Option<(u64, u64, u64)>>, link_base: int) -> RenderState {
    render_from_xml(x, 0, initial_state_with(infos, link_base))
}

/// A piece of XML found in a text, by index ranges into it.
pub enum TokAt {
    Decl,
    /// Name range and tag range.
    Open(usize, usize, usize, usize),
    /// Name range.
    Close(usize, usize),
    /// Name range.
    Empty(usize, usize),
    /// Name range, tag range and text range.
    Literal(usize, usize, usize, usize, usize, usize),
}

/// The piece that `t` marks in `x`.
pub open spec fn tok_of(x: Seq<char>, t: TokAt) -> XmlTok {
    match t {
        TokAt::Decl => XmlTok::Decl,
        TokAt::Open(a, b, c, d) => XmlTok::Open(x.subrange(a as int, b as int), x.subrange(c as int, d as int)),
        TokAt::Close(a, b) => XmlTok::Close(x.subrange(a as int, b as int)),
        TokAt::Empty(a, b) => XmlTok::Empty(x.subrange(a as int, b as int)),
        TokAt::Literal(a, b, g, h, c, d) => XmlTok::Literal(
            x.subrange(a as int, b as int),
            x.subrange(g as int, h as int),
            x.subrange(c as int, d as int),
        ),
    }
}

/// The ranges of `t` lie in `x` between `p` and `q`, and an opening tag
/// takes at least its name and two brackets.
pub open spec fn tok_within(x: Seq<char>, t: TokAt, p: int, q: int) -> bool {
    match t {
        TokAt::Decl => true,
        TokAt::Open(a, b, c, d) => p <= a <= b <= q && p <= c <= d <= q && b - a + 2 <= q - p,
        TokAt::Close(a, b) => p <= a <= b <= q,
        TokAt::Empty(a, b) => p <= a <= b <= q,
        TokAt::Literal(a, b, g, h, c, d) => p <= a <= b <= q && p <= g <= h <= q && p <= c <= d <= q,
    }
}

/// The end of the element name that starts at `lo` (see `tag_name`).
fn name_end(x: &Vec<char>, lo: usize, hi: usize) -> (e: usize)
    requires
        lo <= hi <= x@.len(),
    ensures
        lo <= e <= hi,
        x@.subrange(lo as int, e as int) == tag_name(x@.subrange(lo as int, hi as int)),
{
    let ghost t = x@.subrange(lo as int, hi as int);
    let mut e = lo;
    while e < hi && !is_whitespace(x[e])
        invariant
            lo <= e <= hi <= x@.len(),
            t == x@.subrange(lo as int, hi as int),
            word_len(t) == (e - lo) + word_len(x@.subrange(e as int, hi as int)),
        decreases hi - e,
    {
        assert(x@.subrange(e as int, hi as int).drop_first() =~= x@.subrange(e + 1, hi as int));
        e = e + 1;
    }
    assert(t.take(word_len(t)) =~= x@.subrange(lo as int, e as int));
    e
}

/// The next piece of XML from `p` on (see `next_tok`).
fn next_tok_exec(x: &Vec<char>, p: usize) -> (r: Option<(TokAt, usize)>)
    requires
        p <= x@.len(),
    ensures
        r matches Some((t, q)) ==> p < q <= x@.len() && tok_within(x@, t, p as int, q as int)
            && next_tok(x@, p as int) == Some((tok_of(x@, t), q as int)),
        r is None ==> next_tok(x@, p as int) is None,
{
    let lts = chars_of("<");
    let gts = chars_of(">");
    let cls = chars_of("</");
    let pres = chars_of("xml:space=\"preserve\"");
    proof {
        reveal_strlit("<");
        reveal_strlit(">");
        reveal_strlit("</");
        assert(lts@ =~= seq!['<']);
        assert(gts@ =~= seq!['>']);
        assert(pres@ == preserve_attr());
        lemma_find_from_bounds(x@, lts@, p as int);
    }
    let n = x.len();
    let lt = match find_from_exec(x, &lts, p) {
        Some(v) => v,
        None => return None,
    };
    proof {
        lemma_find_from_bounds(x@, gts@, lt as int);
        assert(x@.subrange(lt as int, lt + 1)[0] == x@[lt as int]);
        assert(x@[lt as int] == '<');
    }
    let gt = match find_from_exec(x, &gts, lt) {
        Some(v) => v,
        None => return None,
    };
    assert(x@.subrange(gt as int, gt + 1)[0] == x@[gt as int]);
    assert(x@[gt as int] == '>');
    let tl = lt + 1;
    let ghost tag = x@.subrange(tl as int, gt as int);
    if gt > tl && (x[tl] == '?' || x[tl] == '!') {
        return Some((TokAt::Decl, gt + 1));
    }
    if gt > tl && x[tl] == '/' {
        assert(tag.skip(1) =~= x@.subrange(tl + 1, gt as int));
        return Some((TokAt::Close(tl + 1, gt), gt + 1));
    }
    if gt > tl && x[gt - 1] == '/' {
        let e = name_end(x, tl, gt);
        return Some((TokAt::Empty(tl, e), gt + 1));
    }
    let pl = pres.len();
    if gt - tl >= pl && crate::text::matches_at_exec(x, &pres, gt - pl) {
        assert(tag.skip(tag.len() - pl) =~= x@.subrange(gt - pl, gt as int));
        let e = name_end(x, tl, gt);
        proof {
            lemma_find_from_bounds(x@, cls@, gt + 1);
        }
        let cl = match find_from_exec(x, &cls, gt + 1) {
            Some(v) => v,
            None => return None,
        };
        proof {
            lemma_find_from_bounds(x@, gts@, cl as int);
        }
        let cg = match find_from_exec(x, &gts, cl) {
            Some(v) => v,
            None => return None,
        };
        return Some((TokAt::Literal(tl, e, tl, gt, gt + 1, cl), cg + 1));
    }
    proof {
        if has_suffix(tag, preserve_attr()) {
            assert(tag.skip(tag.len() - pl) =~= x@.subrange(gt - pl, gt as int));
        }
    }
    let e = name_end(x, tl, gt);
    Some((TokAt::Open(tl, e, tl, gt), gt + 1))
}

/// The value of attribute `name` in `tag` (see `attr_value`).
fn attr_exec(tag: &Vec<char>, name: &str) -> (r: Vec<char>)
    ensures
        r@ == attr_value(tag@, name@),
{
    let mut key = chars_of(name);
    key.push('=');
    key.push('"');
    proof {
        reveal_strlit("=\"");
        assert(key@ =~= name@ + "=\""@);
    }
    let q = chars_of("\"");
    proof {
        reveal_strlit("\"");
        assert(q@ =~= seq!['"']);
        lemma_find_from_bounds(tag@, key@, 0);
    }
    match find_from_exec(tag, &key, 0) {
        None => Vec::new(),
        Some(k) => {
            let n = tag.len();
            let v = k + key.len();
            proof {
                lemma_find_from_bounds(tag@, q@, v as int);
            }
            match find_from_exec(tag, &q, v) {
                None => Vec::new(),
                Some(e) => subvec(tag, v, e),
            }
        },
    }
}

/// The renderer's state, as it runs.
struct Renderer {
    out: Vec<char>,
    links: Vec<String>,
    depth: usize,
    mode: u8,
    level: usize,
    buf: Vec<char>,
    has_text: bool,
    bold: usize,
    italic: usize,
    strike: usize,
    link: usize,
    pdepth: usize,
    props: Vec<char>,
    cell: bool,
    quote: usize,
    lists: Vec<bool>,
    fresh: bool,
    task: u8,
    infos: Vec<Option<(u64, u64, u64)>>,
    images: Vec<String>,
    in_image: usize,
    link_base: usize,
    rows: usize,
    aligns: Vec<String>,
    col: usize,
    centered: bool,
}

impl View for Renderer {
    type V = RenderState;

    closed spec fn view(&self) -> RenderState {
        RenderState {
            out: self.out@,
            links: string_views(self.links@),
            depth: self.depth as int,
            mode: self.mode as int,
            level: self.level as int,
            buf: self.buf@,
            has_text: self.has_text,
            bold: self.bold as int,
            italic: self.italic as int,
            strike: self.strike as int,
            link: self.link as int,
            pdepth: self.pdepth as int,
            props: self.props@,
            cell: self.cell,
            quote: self.quote as int,
            lists: self.lists@,
            fresh: self.fresh,
            task: self.task as int,
            infos: self.infos@,
            images: string_views(self.images@),
            in_image: self.in_image as int,
            link_base: self.link_base as int,
            rows: self.rows as int,
            aligns: string_views(self.aligns@),
            col: self.col as int,
            centered: self.centered,
        }
    }
}

impl Renderer {
    /// Every count is at most `p`.
    spec fn bounded(&self, p: int) -> bool {
        &&& self.depth <= p
        &&& self.bold <= p
        &&& self.italic <= p
        &&& self.strike <= p
        &&& self.link <= p
        &&& (self.links@.len() + self.images@.len()) * 6 <= p
        &&& self.in_image <= p
        &&& self.link_base <= usize::MAX / 2
        &&& self.rows <= p
        &&& self.col <= p
        &&& self.level <= 6
        &&& self.quote <= p
        &&& self.task <= 2
    }
}

fn new_renderer(infos: Vec<Option<(u64, u64, u64)>>, link_base: usize) -> (r: Renderer)
    requires
        link_base <= usize::MAX / 2,
    ensures
        r@ == initial_state_with(infos@, link_base as int),
        r.bounded(0),
{
    let r = Renderer {
        out: Vec::new(),
        links: Vec::new(),
        depth: 0,
        mode: 0,
        level: 1,
        buf: Vec::new(),
        has_text: false,
        bold: 0,
        italic: 0,
        strike: 0,
        link: 0,
        pdepth: 0,
        props: Vec::new(),
        cell: false,
        quote: 0,
        lists: Vec::new(),
        fresh: false,
        task: 0,
        infos: infos,
        images: Vec::new(),
        in_image: 0,
        link_base: link_base,
        rows: 0,
        aligns: Vec::new(),
        col: 0,
        centered: false,
    };
    assert(string_views(r.aligns@) =~= Seq::<Seq<char>>::empty());
    assert(string_views(r.links@) =~= Seq::<Seq<char>>::empty());
    assert(string_views(r.images@) =~= Seq::<Seq<char>>::empty());
    r
}

/// The heading level of a tag (see `heading_level`).
fn heading_level_exec(tag: &Vec<char>) -> (r: usize)
    ensures
        r == heading_level(tag@),
        1 <= r <= 6,
{
    let v = attr_exec(tag, "level");
    if v.len() > 0 && '1' <= v[0] && v[0] <= '6' {
        (v[0] as u32 - 48) as usize
    } else if v.len() > 0 && '7' <= v[0] && v[0] <= '9' {
        6
    } else {
        1
    }
}

/// Appends the properties of a body paragraph (see `block_props`).
fn push_block_props(out: &mut Vec<char>, quote: usize, lists: &Vec<bool>, fresh: bool)
    ensures
        final(out)@ == old(out)@ + block_props(quote as int, lists@, fresh),
{
    let ghost o = out@;
    let numbered = lists.len() > 0 && fresh;
    if numbered {
        push_str(out, "<w:numPr><w:ilvl w:val=\"");
        let l = lists.len() - 1;
        let c: u64 = if l > 8 { 8 } else { l as u64 };
        push_decimal(out, c);
        push_str(out, "\"/><w:numId w:val=\"");
        if lists[lists.len() - 1] {
            push_str(out, "2");
        } else {
            push_str(out, "1");
        }
        push_str(out, "\"/></w:numPr>");
    }
    let ghost o1 = out@;
    if quote > 0 {
        push_str(out, "<w:pBdr><w:left w:val=\"single\" w:sz=\"24\" w:space=\"8\" w:color=\"dfe2e5\"/></w:pBdr><w:shd w:val=\"clear\" w:color=\"auto\" w:fill=\"fafbfc\"/>");
    }
    let ghost o2 = out@;
    push_str(out, "<w:spacing w:line=\"350\" w:lineRule=\"auto\" w:after=\"240\"/>");
    let ghost o3 = out@;
    if !numbered && (quote > 0 || lists.len() > 0) {
        let lc: u64 = if lists.len() > 8 { 8 } else { lists.len() as u64 };
        let qc: u64 = if quote > 8 { 8 } else { quote as u64 };
        push_str(out, "<w:ind w:left=\"");
        push_decimal(out, 720 * lc + 240 * qc);
        push_str(out, "\"/>");
    }
    assert(o1 =~= o + (if numbered { list_num_xml(lists@) } else { Seq::empty() }));
    assert(o2 =~= o1 + (if quote > 0 { quote_border() } else { Seq::empty() }));
    assert(out@ =~= o + block_props(quote as int, lists@, fresh));
}

/// Appends the check box of a task item (see `task_mark`).
fn push_task_mark(out: &mut Vec<char>, task: u8)
    ensures
        final(out)@ == old(out)@ + task_mark(task as int),
{
    if task == 2 {
        push_str(out, "<w:r><w:t xml:space=\"preserve\">\u{2611} </w:t></w:r>");
    } else if task == 1 {
        push_str(out, "<w:r><w:t xml:space=\"preserve\">\u{2610} </w:t></w:r>");
    } else {
        assert(out@ =~= old(out)@ + task_mark(task as int));
    }
}

/// The value of attribute `name` of the tag `x[c..d]` equals `v`.
fn attr_is(x: &Vec<char>, c: usize, d: usize, name: &str, v: &str) -> (r: bool)
    requires
        c <= d <= x@.len(),
    ensures
        r == (attr_value(x@.subrange(c as int, d as int), name@) == v@),
{
    let t = subvec(x, c, d);
    let a = attr_exec(&t, name);
    let n = a.len();
    assert(a@.subrange(0, n as int) =~= a@);
    range_eq_str(&a, 0, n, v)
}

/// Appends an embedded picture (see `drawing_xml`).
fn push_drawing(out: &mut Vec<char>, rid: u64, cx: u64, cy: u64, id: u64)
    ensures
        final(out)@ == old(out)@ + drawing_xml(rid, cx, cy, id as int),
{
    let ghost o = out@;
    push_str(out, "<w:r><w:drawing><wp:inline distT=\"0\" distB=\"0\" distL=\"0\" distR=\"0\"><wp:extent cx=\"");
    push_decimal(out, cx);
    push_str(out, "\" cy=\"");
    push_decimal(out, cy);
    push_str(out, "\"/><wp:docPr id=\"");
    push_decimal(out, id);
    push_str(out, "\" name=\"Picture ");
    push_decimal(out, id);
    push_str(out, "\"/><a:graphic><a:graphicData uri=\"http://schemas.openxmlformats.org/drawingml/2006/picture\"><pic:pic><pic:nvPicPr><pic:cNvPr id=\"");
    push_decimal(out, id);
    push_str(out, "\" name=\"Picture ");
    push_decimal(out, id);
    push_str(out, "\"/><pic:cNvPicPr/></pic:nvPicPr><pic:blipFill><a:blip r:embed=\"rId");
    push_decimal(out, rid);
    push_str(out, "\"/><a:stretch><a:fillRect/></a:stretch></pic:blipFill><pic:spPr><a:xfrm><a:off x=\"0\" y=\"0\"/><a:ext cx=\"");
    push_decimal(out, cx);
    push_str(out, "\" cy=\"");
    push_decimal(out, cy);
    push_str(out, "\"/></a:xfrm><a:prstGeom prst=\"rect\"><a:avLst/></a:prstGeom></pic:spPr></pic:pic></a:graphicData></a:graphic></wp:inline></w:drawing></w:r>");
    assert(out@ =~= o + drawing_xml(rid, cx, cy, id as int));
}

/// Opens a paragraph (see `open_paragraph`).
fn apply_open_paragraph(st: &mut Renderer)
    requires
        old(st).mode == 0,
        old(st).depth < usize::MAX,
    ensures
        final(st)@ == open_paragraph(old(st)@),
        final(st).depth == old(st).depth + 1,
        final(st).links@.len() == old(st).links@.len(),
        final(st).images@.len() == old(st).images@.len(),
        final(st).quote == old(st).quote,
        final(st).rows == old(st).rows,
        final(st).col == old(st).col,
        final(st).in_image == old(st).in_image,
        final(st).link_base == old(st).link_base,
        final(st).level == old(st).level,
        final(st).task == old(st).task,
        final(st).bold == 0 && final(st).italic == 0 && final(st).strike == 0 && final(st).link == 0,
{
    let depth = st.depth;
    st.depth = depth + 1;
    let t: u8 = if st.fresh { st.task } else { 0 };
    let mut buf = Vec::new();
    push_task_mark(&mut buf, t);
    assert(buf@ =~= task_mark(t as int));
    let mut props = Vec::new();
    let numbered = st.fresh && st.task == 0;
    push_block_props(&mut props, st.quote, &st.lists, numbered);
    assert(props@ =~= block_props(st.quote as int, st.lists@, st.fresh && st.task == 0));
    st.mode = 2;
    st.buf = buf;
    st.has_text = t != 0;
    st.bold = 0;
    st.italic = 0;
    st.strike = 0;
    st.link = 0;
    st.pdepth = depth;
    st.props = props;
    st.cell = false;
    st.fresh = false;
    st.centered = false;
}

/// Opens a table cell (see `open_cell`).
fn apply_open_cell(st: &mut Renderer, x: &Vec<char>, c: usize, d: usize)
    requires
        old(st).mode == 0,
        old(st).depth < usize::MAX,
        old(st).col < usize::MAX,
        c <= d <= x@.len(),
    ensures
        final(st)@ == open_cell(old(st)@, x@.subrange(c as int, d as int)),
        final(st).depth == old(st).depth + 1,
        final(st).links@.len() == old(st).links@.len(),
        final(st).images@.len() == old(st).images@.len(),
        final(st).quote == old(st).quote,
        final(st).rows == old(st).rows,
        final(st).col == old(st).col + 1,
        final(st).in_image == old(st).in_image,
        final(st).link_base == old(st).link_base,
        final(st).level == old(st).level,
        final(st).task == old(st).task,
        final(st).bold <= 1 && final(st).italic == 0 && final(st).strike == 0 && final(st).link == 0,
{
    let depth = st.depth;
    st.depth = depth + 1;
    let header = st.rows == 0;
    push_str(&mut st.out, "<w:tc>");
    if header {
        push_str(&mut st.out, "<w:tcPr><w:shd w:val=\"clear\" w:color=\"auto\" w:fill=\"f6f8fa\"/></w:tcPr>");
    }
    let align: Vec<char> = if header {
        let t = subvec(x, c, d);
        attr_exec(&t, "align")
    } else if st.col < st.aligns.len() {
        chars_of(st.aligns[st.col].as_str())
    } else {
        Vec::new()
    };
    assert(align@ == (if header {
        attr_value(x@.subrange(c as int, d as int), "align"@)
    } else {
        col_align(string_views(st.aligns@), st.col as int)
    }));
    let mut props = Vec::new();
    push_str(&mut props, "<w:spacing w:before=\"60\" w:after=\"60\"/>");
    let na = align.len();
    assert(align@.subrange(0, na as int) =~= align@);
    if range_eq_str(&align, 0, na, "right") {
        push_str(&mut props, "<w:jc w:val=\"right\"/>");
    } else if range_eq_str(&align, 0, na, "center") {
        push_str(&mut props, "<w:jc w:val=\"center\"/>");
    }
    assert(props@ =~= cell_props(align@));
    if header {
        let ghost old_aligns = st.aligns@;
        st.aligns.push(string_of(&align));
        assert(string_views(st.aligns@) =~= string_views(old_aligns).push(align@));
    }
    st.col = st.col + 1;
    st.centered = false;
    st.mode = 2;
    st.buf = Vec::new();
    st.has_text = false;
    st.bold = if st.rows == 0 { 1 } else { 0 };
    st.italic = 0;
    st.strike = 0;
    st.link = 0;
    st.pdepth = depth;
    st.props = props;
    st.cell = true;
}

/// Applies an opening tag.
fn apply_open(st: &mut Renderer, x: &Vec<char>, a: usize, b: usize, c: usize, d: usize, p: usize, q: usize)
    requires
        a <= b <= x@.len(),
        c <= d <= x@.len(),
        p < q <= x@.len(),
        b - a + 2 <= q - p,
        old(st).bounded(p as int),
    ensures
        final(st)@ == step_open(old(st)@, x@.subrange(a as int, b as int), x@.subrange(c as int, d as int)),
        final(st).bounded(q as int),
{
    let ghost name = x@.subrange(a as int, b as int);
    let ghost tag = x@.subrange(c as int, d as int);
    let depth = st.depth;
    st.depth = depth + 1;
    if st.mode == 0 {
        if range_eq_str(x, a, b, "heading") {
            let t = subvec(x, c, d);
            st.mode = 1;
            st.level = heading_level_exec(&t);
            st.buf = Vec::new();
            st.has_text = false;
            st.pdepth = depth;
            st.fresh = false;
        } else if range_eq_str(x, a, b, "paragraph") {
            st.depth = depth;
            apply_open_paragraph(st);
        } else if range_eq_str(x, a, b, "table_cell") {
            st.depth = depth;
            apply_open_cell(st, x, c, d);
        } else if range_eq_str(x, a, b, "block_quote") {
            st.quote = st.quote + 1;
        } else if range_eq_str(x, a, b, "list") {
            let ordered = attr_is(x, c, d, "type", "ordered");
            st.lists.push(ordered);
        } else if range_eq_str(x, a, b, "item") {
            st.fresh = true;
            st.task = 0;
        } else if range_eq_str(x, a, b, "taskitem") {
            let done = attr_is(x, c, d, "completed", "true");
            st.task = if done { 2 } else { 1 };
            st.fresh = true;
        } else if range_eq_str(x, a, b, "table") {
            st.rows = 0;
            st.aligns = Vec::new();
            assert(string_views(st.aligns@) =~= Seq::<Seq<char>>::empty());
            push_str(&mut st.out, "<w:tbl><w:tblPr><w:tblW w:w=\"5000\" w:type=\"pct\"/><w:tblBorders><w:top w:val=\"single\" w:sz=\"4\" w:space=\"0\" w:color=\"dfe2e5\"/><w:left w:val=\"single\" w:sz=\"4\" w:space=\"0\" w:color=\"dfe2e5\"/><w:bottom w:val=\"single\" w:sz=\"4\" w:space=\"0\" w:color=\"dfe2e5\"/><w:right w:val=\"single\" w:sz=\"4\" w:space=\"0\" w:color=\"dfe2e5\"/><w:insideH w:val=\"single\" w:sz=\"4\" w:space=\"0\" w:color=\"dfe2e5\"/><w:insideV w:val=\"single\" w:sz=\"4\" w:space=\"0\" w:color=\"dfe2e5\"/></w:tblBorders><w:tblCellMar><w:top w:w=\"120\" w:type=\"dxa\"/><w:left w:w=\"180\" w:type=\"dxa\"/><w:bottom w:w=\"120\" w:type=\"dxa\"/><w:right w:w=\"180\" w:type=\"dxa\"/></w:tblCellMar></w:tblPr><w:tblGrid/>");
        } else if range_eq_str(x, a, b, "table_row") {
            push_str(&mut st.out, "<w:tr>");
            st.col = 0;
        }
    } else if st.mode == 2 {
        if range_eq_str(x, a, b, "strong") {
            st.bold = st.bold + 1;
        } else if range_eq_str(x, a, b, "emph") {
            st.italic = st.italic + 1;
        } else if range_eq_str(x, a, b, "strikethrough") {
            st.strike = st.strike + 1;
        } else if range_eq_str(x, a, b, "link") {
            proof {
                reveal_strlit("link");
                assert(x@.subrange(a as int, b as int) == "link"@);
                assert(x@.subrange(a as int, b as int).len() == 4);
                assert(b - a == 4);
            }
            let id: usize = st.link_base + st.links.len();
            let ghost b0 = st.buf@;
            push_str(&mut st.buf, "<w:hyperlink r:id=\"rId");
            push_decimal(&mut st.buf, id as u64);
            push_str(&mut st.buf, "\" w:history=\"1\">");
            assert(st.buf@ =~= b0 + hyperlink_open(link_id(old(st).link_base as int, string_views(old(st).links@).len() as int)));
            let t = subvec(x, c, d);
            let dest = attr_exec(&t, "destination");
            let url = unescape_html(string_of(&dest).as_str());
            let ghost old_links = st.links@;
            st.links.push(url);
            assert(string_views(st.links@) =~= string_views(old_links).push(url@));
            st.link = st.link + 1;
        } else if range_eq_str(x, a, b, "image") {
            proof {
                reveal_strlit("image");
                assert(x@.subrange(a as int, b as int) == "image"@);
                assert(x@.subrange(a as int, b as int).len() == 5);
                assert(b - a == 5);
            }
            let k = st.images.len();
            let info: Option<(u64, u64, u64)> = if k < st.infos.len() {
                st.infos[k]
            } else {
                None
            };
            assert(info == info_at(st.infos@, k as int));
            match info {
                Some((rid, cx, cy)) => {
                    push_drawing(&mut st.buf, rid, cx, cy, (k + 1) as u64);
                    st.has_text = true;
                    st.centered = true;
                },
                None => {
                    assert(st.buf@ =~= old(st).buf@ + image_xml(info, k + 1));
                },
            }
            let t = subvec(x, c, d);
            let dest = attr_exec(&t, "destination");
            let url = unescape_html(string_of(&dest).as_str());
            let ghost old_images = st.images@;
            st.images.push(url);
            assert(string_views(st.images@) =~= string_views(old_images).push(url@));
            st.in_image = st.in_image + 1;
        }
    }
}

/// Appends what finishing a block writes (see `block_out`).
fn flush_block(
    out: &mut Vec<char>,
    mode: u8,
    level: usize,
    cell: bool,
    has_text: bool,
    centered: bool,
    props: &Vec<char>,
    buf: &Vec<char>,
)
    requires
        level <= 6,
    ensures
        final(out)@ == old(out)@ + block_out(mode as int, level as int, cell, has_text, centered, props@, buf@),
{
    let ghost o = out@;
    if mode == 1 {
        push_str(out, "<w:p><w:pPr><w:pStyle w:val=\"Heading");
        push_decimal(out, level as u64);
        push_str(out, "\"/><w:spacing w:before=\"");
        if level <= 2 {
            push_str(out, "450");
        } else if level == 3 {
            push_str(out, "420");
        } else if level == 4 {
            push_str(out, "390");
        } else {
            push_str(out, "360");
        }
        push_str(out, "\" w:after=\"");
        if level <= 2 {
            push_str(out, "150");
        } else if level == 3 {
            push_str(out, "120");
        } else {
            push_str(out, "90");
        }
        push_str(out, "\"/></w:pPr><w:r><w:t xml:space=\"preserve\">");
        let n = buf.len();
        let bv = subvec(buf, 0, n);
        assert(buf@.subrange(0, n as int) =~= buf@);
        push_escaped(out, &bv, 0, n);
        assert(bv@.subrange(0, n as int) =~= bv@);
        push_str(out, "</w:t></w:r></w:p>");
        assert(out@ =~= o + heading_xml(level as int, escape_xml_spec(buf@)));
    } else if cell {
        push_str(out, "<w:p><w:pPr>");
        push_all(out, props);
        push_str(out, "</w:pPr>");
        push_all(out, buf);
        push_str(out, "</w:p>");
        assert(out@ =~= o + paragraph_xml(props@, buf@));
        push_str(out, "</w:tc>");
    } else if has_text {
        push_str(out, "<w:p><w:pPr>");
        push_all(out, props);
        if centered {
            push_str(out, "<w:jc w:val=\"center\"/>");
        }
        push_str(out, "</w:pPr>");
        push_all(out, buf);
        push_str(out, "</w:p>");
        assert(out@ =~= o + paragraph_xml(props@ + center_props(centered), buf@));
    }
    assert(out@ =~= o + block_out(mode as int, level as int, cell, has_text, centered, props@, buf@));
}

/// Applies a closing tag.
#[verifier::spinoff_prover]
#[verifier::rlimit(40)]
fn apply_close(st: &mut Renderer, x: &Vec<char>, a: usize, b: usize, p: usize, q: usize)
    requires
        a <= b <= x@.len(),
        p < q,
        old(st).bounded(p as int),
    ensures
        final(st)@ == step_close(old(st)@, x@.subrange(a as int, b as int)),
        final(st).bounded(q as int),
{
    let d: usize = if st.depth > 0 {
        st.depth - 1
    } else {
        0
    };
    if st.mode != 0 && d == st.pdepth {
        flush_block(&mut st.out, st.mode, st.level, st.cell, st.has_text, st.centered, &st.props, &st.buf);
        st.depth = d;
        st.mode = 0;
        st.buf = Vec::new();
        st.cell = false;
    } else if st.mode == 0 {
        st.depth = d;
        if range_eq_str(x, a, b, "block_quote") {
            st.quote = if st.quote > 0 { st.quote - 1 } else { 0 };
        } else if range_eq_str(x, a, b, "list") {
            if st.lists.len() > 0 {
                st.lists.pop();
            }
        } else if range_eq_str(x, a, b, "item") || range_eq_str(x, a, b, "taskitem") {
            st.fresh = false;
            st.task = 0;
        } else if range_eq_str(x, a, b, "table_row") {
            push_str(&mut st.out, "</w:tr>");
            st.rows = st.rows + 1;
        } else if range_eq_str(x, a, b, "table") {
            push_str(&mut st.out, "</w:tbl>");
        }
    } else if st.mode == 2 {
        st.depth = d;
        if range_eq_str(x, a, b, "strong") {
            st.bold = if st.bold > 0 { st.bold - 1 } else { 0 };
        } else if range_eq_str(x, a, b, "emph") {
            st.italic = if st.italic > 0 { st.italic - 1 } else { 0 };
        } else if range_eq_str(x, a, b, "strikethrough") {
            st.strike = if st.strike > 0 { st.strike - 1 } else { 0 };
        } else if range_eq_str(x, a, b, "link") {
            push_str(&mut st.buf, "</w:hyperlink>");
            st.link = if st.link > 0 { st.link - 1 } else { 0 };
        } else if range_eq_str(x, a, b, "image") {
            st.in_image = if st.in_image > 0 { st.in_image - 1 } else { 0 };
        }
    } else {
        st.depth = d;
    }
}

/// Applies an empty element.
fn apply_empty(st: &mut Renderer, x: &Vec<char>, a: usize, b: usize)
    requires
        a <= b <= x@.len(),
    ensures
        final(st)@ == step_empty(old(st)@, x@.subrange(a as int, b as int)),
        final(st).bounded(old(st).depth as int) == old(st).bounded(old(st).depth as int),
        final(st).depth == old(st).depth,
        final(st).bold == old(st).bold,
        final(st).italic == old(st).italic,
        final(st).strike == old(st).strike,
        final(st).link == old(st).link,
        final(st).links@.len() == old(st).links@.len(),
        final(st).level == old(st).level,
        final(st).quote == old(st).quote,
        final(st).task == old(st).task,
        final(st).images@.len() == old(st).images@.len(),
        final(st).in_image == old(st).in_image,
        final(st).link_base == old(st).link_base,
        final(st).rows == old(st).rows,
        final(st).col == old(st).col,
{
    if range_eq_str(x, a, b, "softbreak") || range_eq_str(x, a, b, "linebreak") {
        if st.mode == 1 {
            st.buf.push('\n');
            st.has_text = true;
        } else if st.mode == 2 {
            push_str(&mut st.buf, "<w:r><w:br/></w:r>");
            st.has_text = true;
        }
    } else if range_eq_str(x, a, b, "thematic_break") && st.mode == 0 {
        push_str(&mut st.out, "<w:p><w:pPr><w:pBdr><w:bottom w:val=\"single\" w:sz=\"4\" w:space=\"1\" w:color=\"eaecef\"/></w:pBdr></w:pPr></w:p>");
    }
}

/// Appends the code-block form (see `code_text`) of `v[lo..hi]` to `out`.
fn push_code_text(out: &mut Vec<char>, v: &Vec<char>, lo: usize, hi: usize)
    requires
        lo <= hi <= v@.len(),
    ensures
        final(out)@ == old(out)@ + code_text(v@.subrange(lo as int, hi as int)),
{
    let ghost o = out@;
    let mut i = lo;
    assert(v@.subrange(lo as int, lo as int) =~= Seq::<char>::empty());
    while i < hi
        invariant
            lo <= i <= hi <= v@.len(),
            out@ == o + code_text(v@.subrange(lo as int, i as int)),
        decreases hi - i,
    {
        let c = v[i];
        assert(v@.subrange(lo as int, i + 1).drop_last() =~= v@.subrange(lo as int, i as int));
        if c == '\n' {
            push_str(out, "</w:t><w:br/><w:t xml:space=\"preserve\">");
        } else if c == '&' {
            push_str(out, "&amp;");
        } else if c == '<' {
            push_str(out, "&lt;");
        } else if c == '>' {
            push_str(out, "&gt;");
        } else if c == '"' {
            push_str(out, "&quot;");
        } else {
            out.push(c);
        }
        assert(out@ =~= o + code_text(v@.subrange(lo as int, i + 1)));
        i = i + 1;
    }
}

/// Appends the character properties of a run.
fn push_run_props(out: &mut Vec<char>, code: bool, bold: bool, italic: bool, strike: bool, linked: bool, quoted: bool)
    ensures
        final(out)@ == old(out)@ + run_props(code, bold, italic, strike, linked, quoted),
{
    let ghost o = out@;
    if code {
        push_str(out, "<w:rFonts w:ascii=\"Consolas\" w:eastAsia=\"Microsoft YaHei\" w:hAnsi=\"Consolas\" w:cs=\"Consolas\"/>");
    } else {
        push_str(out, "<w:rFonts w:ascii=\"Segoe UI\" w:eastAsia=\"Microsoft YaHei\" w:hAnsi=\"Segoe UI\" w:cs=\"Segoe UI\"/>");
    }
    let ghost o1 = out@;
    if bold {
        push_str(out, "<w:b/>");
    }
    let ghost o2 = out@;
    if italic {
        push_str(out, "<w:i/>");
    }
    let ghost o3 = out@;
    if strike {
        push_str(out, "<w:strike/>");
    }
    let ghost o4 = out@;
    if code {
        push_str(out, "<w:color w:val=\"d63384\"/><w:shd w:val=\"clear\" w:color=\"auto\" w:fill=\"f0f0f0\"/><w:sz w:val=\"20\"/><w:szCs w:val=\"20\"/>");
    } else if linked {
        push_str(out, "<w:color w:val=\"0366d6\"/><w:u w:val=\"single\"/><w:sz w:val=\"22\"/><w:szCs w:val=\"22\"/>");
    } else if quoted {
        push_str(out, "<w:color w:val=\"6a737d\"/><w:sz w:val=\"22\"/><w:szCs w:val=\"22\"/>");
    } else {
        push_str(out, "<w:sz w:val=\"22\"/><w:szCs w:val=\"22\"/>");
    }
    assert(o2 =~= o1 + (if bold { "<w:b/>"@ } else { Seq::empty() }));
    assert(o3 =~= o2 + (if italic { "<w:i/>"@ } else { Seq::empty() }));
    assert(o4 =~= o3 + (if strike { "<w:strike/>"@ } else { Seq::empty() }));
    assert(out@ =~= o + run_props(code, bold, italic, strike, linked, quoted));
}

/// Appends a run of `t` (escaped) with these properties.
fn push_run(out: &mut Vec<char>, t: &Vec<char>, code: bool, bold: bool, italic: bool, strike: bool, linked: bool, quoted: bool)
    ensures
        final(out)@ == old(out)@ + run_xml(escape_xml_spec(t@), code, bold, italic, strike, linked, quoted),
{
    let ghost o = out@;
    push_str(out, "<w:r><w:rPr>");
    push_run_props(out, code, bold, italic, strike, linked, quoted);
    push_str(out, "</w:rPr><w:t xml:space=\"preserve\">");
    push_escaped(out, t, 0, t.len());
    assert(t@.subrange(0, t@.len() as int) =~= t@);
    push_str(out, "</w:t></w:r>");
    assert(out@ =~= o + run_xml(escape_xml_spec(t@), code, bold, italic, strike, linked, quoted));
}

/// Applies a literal node.
fn apply_literal(st: &mut Renderer, x: &Vec<char>, a: usize, b: usize, g: usize, h: usize, c: usize, d: usize)
    requires
        a <= b <= x@.len(),
        g <= h <= x@.len(),
        c <= d <= x@.len(),
    ensures
        final(st)@ == step_literal(
            old(st)@,
            x@.subrange(a as int, b as int),
            x@.subrange(g as int, h as int),
            x@.subrange(c as int, d as int),
        ),
        final(st).depth == old(st).depth,
        final(st).bold == old(st).bold,
        final(st).italic == old(st).italic,
        final(st).strike == old(st).strike,
        final(st).link == old(st).link,
        final(st).links@.len() == old(st).links@.len(),
        final(st).level == old(st).level,
        final(st).quote == old(st).quote,
        final(st).task == old(st).task,
        final(st).images@.len() == old(st).images@.len(),
        final(st).in_image == old(st).in_image,
        final(st).link_base == old(st).link_base,
        final(st).rows == old(st).rows,
        final(st).col == old(st).col,
{
    let is_text = range_eq_str(x, a, b, "text");
    let is_code = range_eq_str(x, a, b, "code");
    if is_text || is_code {
        let raw = subvec(x, c, d);
        let t = chars_of(unescape_html(string_of(&raw).as_str()).as_str());
        if st.mode == 1 {
            push_all(&mut st.buf, &t);
            st.has_text = st.has_text || t.len() > 0;
        } else if st.mode == 2 && t.len() > 0 && st.in_image == 0 {
            let (bold, italic, strike, linked) = (st.bold > 0, st.italic > 0, st.strike > 0, st.link > 0);
            let quoted = st.quote > 0;
            push_run(&mut st.buf, &t, is_code, bold, italic, strike, linked, quoted);
            st.has_text = true;
        }
    } else if range_eq_str(x, a, b, "code_block") && st.mode == 0 {
        let raw = subvec(x, c, d);
        let t = chars_of(unescape_html(string_of(&raw).as_str()).as_str());
        let n = t.len();
        let hi = if n > 0 && t[n - 1] == '\n' { n - 1 } else { n };
        assert(t@.subrange(0, hi as int) =~= code_body(t@));
        let body = string_of(&subvec(&t, 0, hi));
        let tg = subvec(x, g, h);
        let info = attr_exec(&tg, "info");
        let we = name_end(&info, 0, info.len());
        assert(info@.subrange(0, info@.len() as int) =~= info@);
        let lang = string_of(&subvec(&info, 0, we));
        let toks = highlight_code(Some(lang.as_str()), body.as_str());
        let ghost o = st.out@;
        push_str(&mut st.out, "<w:p><w:pPr><w:shd w:val=\"clear\" w:color=\"auto\" w:fill=\"282C34\"/><w:spacing w:line=\"320\" w:lineRule=\"auto\" w:after=\"240\"/><w:ind w:left=\"240\" w:right=\"240\"/><w:rPr><w:color w:val=\"abb2bf\"/></w:rPr></w:pPr>");
        push_code_runs(&mut st.out, &toks);
        push_str(&mut st.out, "</w:p>");
        assert(st.out@ =~= o + code_block_xml(code_runs(pair_views(toks@))));
    }
}

/// Appends the runs of highlighted tokens (see `code_runs`).
pub fn push_code_runs(out: &mut Vec<char>, toks: &Vec<(String, String)>)
    ensures
        final(out)@ == old(out)@ + code_runs(pair_views(toks@)),
{
    let ghost o = out@;
    let ghost tv = pair_views(toks@);
    let mut i: usize = 0;
    assert(tv.take(0) =~= Seq::<(Seq<char>, Seq<char>)>::empty());
    while i < toks.len()
        invariant
            i <= toks@.len(),
            tv == pair_views(toks@),
            out@ == o + code_runs(tv.take(i as int)),
        decreases toks@.len() - i,
    {
        let ghost before = out@;
        assert(tv.take(i + 1).drop_last() =~= tv.take(i as int));
        assert(tv[i as int] == (toks@[i as int].0@, toks@[i as int].1@));
        let text = chars_of(toks[i].0.as_str());
        push_str(out, "<w:r><w:rPr>");
        push_str(out, "<w:rFonts w:ascii=\"Consolas\" w:eastAsia=\"Microsoft YaHei\" w:hAnsi=\"Consolas\" w:cs=\"Consolas\"/>");
        push_str(out, "<w:color w:val=\"");
        push_str(out, toks[i].1.as_str());
        push_str(out, "\"/><w:sz w:val=\"20\"/><w:szCs w:val=\"20\"/></w:rPr><w:t xml:space=\"preserve\">");
        push_code_text(out, &text, 0, text.len());
        assert(text@.subrange(0, text@.len() as int) =~= text@);
        push_str(out, "</w:t></w:r>");
        assert(out@ =~= before + code_run(tv[i as int].0, tv[i as int].1));
        assert(out@ =~= o + code_runs(tv.take(i + 1)));
        i = i + 1;
    }
    assert(tv.take(toks@.len() as int) =~= tv);
}

/// Renders comrak's XML for a document to Word body XML and its hyperlink
/// targets (see `render_xml_spec`).
pub fn render_body_xml(xml: &str) -> (r: (String, Vec<String>))
    ensures
        r.0@ == render_xml_spec(xml@).out,
        string_views(r.1@) == render_xml_spec(xml@).links,
        r.1@.len() * 6 <= usize::MAX,
{
    let none: Vec<Option<(u64, u64, u64)>> = Vec::new();
    assert(none@ =~= Seq::<Option<(u64, u64, u64)>>::empty());
    let (out, links, _) = render_body_xml_with(xml, none, 3);
    (out, links)
}

/// Renders comrak's XML for a document with the images of `infos` embedded
/// and hyperlinks numbered from `link_base` (see `render_xml_with`): the
/// body XML, the hyperlink targets and the image destinations.
pub fn render_body_xml_with(xml: &str, infos: Vec<Option<(u64, u64, u64)>>, link_base: usize) -> (r: (
    String,
    Vec<String>,
    Vec<String>,
))
    requires
        link_base <= usize::MAX / 2,
    ensures
        r.0@ == render_xml_with(xml@, infos@, link_base as int).out,
        string_views(r.1@) == render_xml_with(xml@, infos@, link_base as int).links,
        string_views(r.2@) == render_xml_with(xml@, infos@, link_base as int).images,
        (r.1@.len() + r.2@.len()) * 6 <= usize::MAX,
{
    let ghost iv = infos@;
    let x = chars_of(xml);
    let n = x.len();
    let mut st = new_renderer(infos, link_base);
    let mut p: usize = 0;
    loop
        invariant
            p <= n == x@.len(),
            x@ == xml@,
            st.bounded(p as int),
            render_from_xml(x@, p as int, st@) == render_xml_with(x@, iv, link_base as int),
            iv == infos@,
        decreases n - p,
    {
        proof {
            lemma_next_tok_bounds(x@, p as int);
        }
        match next_tok_exec(&x, p) {
            None => {
                return (string_of(&st.out), st.links, st.images);
            },
            Some((t, q)) => {
                match t {
                    TokAt::Decl => {},
                    TokAt::Open(a, b, c, d) => {
                        apply_open(&mut st, &x, a, b, c, d, p, q);
                    },
                    TokAt::Close(a, b) => {
                        apply_close(&mut st, &x, a, b, p, q);
                    },
                    TokAt::Empty(a, b) => {
                        apply_empty(&mut st, &x, a, b);
                    },
                    TokAt::Literal(a, b, g, h, c, d) => {
                        apply_literal(&mut st, &x, a, b, g, h, c, d);
                    },
                }
                p = q;
            },
        }
    }
}

/// The Word body of a Markdown document and its hyperlink targets: comrak's
/// XML for it, rendered by `render_body_xml`.
pub fn render_body(md: &str) -> (r: (String, Vec<String>))
    ensures
        r.0@ == render_xml_spec(comrak_xml(md@)).out,
        string_views(r.1@) == render_xml_spec(comrak_xml(md@)).links,
        r.1@.len() * 6 <= usize::MAX,
{
    let xml = markdown_to_xml(md);
    render_body_xml(xml.as_str())
}

/// Escaped text holds no `<`, `>` or `"`.
pub proof fn lemma_escape_xml_safe(s: Seq<char>)
    ensures
        forall|i: int| 0 <= i < escape_xml_spec(s).len() ==> {
            let c = #[trigger] escape_xml_spec(s)[i];
            c != '<' && c != '>' && c != '"'
        },
    decreases s.len(),
{
    reveal_strlit("&amp;");
    reveal_strlit("&lt;");
    reveal_strlit("&gt;");
    reveal_strlit("&quot;");
    if s.len() > 0 {
        lemma_escape_xml_safe(s.drop_last());
        let a = escape_xml_spec(s.drop_last());
        let b = escape_xml_char(s.last());
        assert forall|i: int| 0 <= i < (a + b).len() implies {
            let c = #[trigger] (a + b)[i];
            c != '<' && c != '>' && c != '"'
        } by {
            if i >= a.len() {
                assert((a + b)[i] == b[i - a.len()]);
            } else {
                assert((a + b)[i] == a[i]);
            }
        }
    }
}

/// Emphasis covers only what it encloses: in a paragraph outside any
/// emphasis, the text inside `<emph>` becomes an italic run and the text
/// after its `</emph>` a run that is not italic, both otherwise styled as
/// the paragraph is at that point.
pub proof fn lemma_emph_scope(s: RenderState, tag: Seq<char>, g1: Seq<char>, t1: Seq<char>, g2: Seq<char>, t2: Seq<char>)
    requires
        s.mode == 2,
        s.italic == 0,
        s.in_image == 0,
        s.depth >= 0,
        s.depth != s.pdepth,
        unescape_html_spec(t1).len() > 0,
        unescape_html_spec(t2).len() > 0,
    ensures
        ({
            let s1 = step(s, XmlTok::Open("emph"@, tag));
            let s2 = step(s1, XmlTok::Literal("text"@, g1, t1));
            let s3 = step(s2, XmlTok::Close("emph"@));
            let s4 = step(s3, XmlTok::Literal("text"@, g2, t2));
            &&& s4.buf == s.buf + run_xml(
                escape_xml_spec(unescape_html_spec(t1)),
                false,
                s.bold > 0,
                true,
                s.strike > 0,
                s.link > 0,
                s.quote > 0,
            ) + run_xml(
                escape_xml_spec(unescape_html_spec(t2)),
                false,
                s.bold > 0,
                false,
                s.strike > 0,
                s.link > 0,
                s.quote > 0,
            )
            &&& s4.italic == 0
            &&& s4.mode == 2
        }),
{
    reveal_strlit("emph");
    reveal_strlit("strong");
    reveal_strlit("strikethrough");
    reveal_strlit("link");
    reveal_strlit("image");
    reveal_strlit("text");
    reveal_strlit("code");
    assert("emph"@ != "strong"@) by {
        assert("emph"@.len() != "strong"@.len());
    }
    assert("emph"@ != "strikethrough"@) by {
        assert("emph"@.len() != "strikethrough"@.len());
    }
    assert("emph"@ != "link"@) by {
        assert("emph"@[0] != "link"@[0]);
    }
    assert("emph"@ != "image"@) by {
        assert("emph"@[0] != "image"@[0]);
    }
    assert("text"@ != "code"@) by {
        assert("text"@[0] != "code"@[0]);
    }
    let s1 = step(s, XmlTok::Open("emph"@, tag));
    let s2 = step(s1, XmlTok::Literal("text"@, g1, t1));
    let s3 = step(s2, XmlTok::Close("emph"@));
    let s4 = step(s3, XmlTok::Literal("text"@, g2, t2));
    assert(s1.italic == 1 && s1.mode == 2 && s1.depth == s.depth + 1 && s1.pdepth == s.pdepth);
    assert(s2.italic == 1 && s2.mode == 2 && s2.depth == s.depth + 1 && s2.pdepth == s.pdepth);
    assert(dec(s2.depth) == s.depth);
    assert(s3 == step_close(s2, "emph"@));
    assert(s3.italic == 0 && s3.depth == s.depth);
}

} // verus!
