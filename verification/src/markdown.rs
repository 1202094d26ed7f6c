//! The Markdown parser: calls into comrak, with the options this project
//! renders with (tables, task lists, strikethrough, footnotes, smart
//! punctuation, hard line breaks).
use vstd::prelude::*;

verus! {

/// The HTML that comrak renders for a Markdown text with the table, task
/// list, strikethrough and footnote extensions, smart punctuation and hard
/// breaks each switched on or off as given.
pub uninterp spec fn comrak_html_with(
    md: Seq<char>,
    table: bool,
    tasklist: bool,
    strikethrough: bool,
    footnotes: bool,
    smart: bool,
    hardbreaks: bool,
) -> Seq<char>;

/// The CommonMark XML that comrak writes for a Markdown text with these
/// options (see `comrak_html_with`).
pub uninterp spec fn comrak_xml_with(
    md: Seq<char>,
    table: bool,
    tasklist: bool,
    strikethrough: bool,
    footnotes: bool,
    smart: bool,
    hardbreaks: bool,
) -> Seq<char>;

/// The HTML of a Markdown text with this project's options: every one of
/// them switched on.
pub open spec fn comrak_html(md: Seq<char>) -> Seq<char> {
    comrak_html_with(md, true, true, true, true, true, true)
}

/// The CommonMark XML of a Markdown text with this project's options.
pub open spec fn comrak_xml(md: Seq<char>) -> Seq<char> {
    comrak_xml_with(md, true, true, true, true, true, true)
}

/// `comrak::markdown_to_html` with `comrak::Options` whose
/// `extension.table`, `extension.tasklist`, `extension.strikethrough`,
/// `extension.footnotes`, `parse.smart` and `render.hardbreaks` are the
/// flags given, the rest default. Its result depends on its arguments
/// alone and is named `comrak_html_with`.
#[verifier::external_body]
fn comrak_to_html(
    md: &str,
    table: bool,
    tasklist: bool,
    strikethrough: bool,
    footnotes: bool,
    smart: bool,
    hardbreaks: bool,
) -> (r: String)
    ensures
        r@ == comrak_html_with(md@, table, tasklist, strikethrough, footnotes, smart, hardbreaks),
{
    let mut options = comrak::Options::default();
    options.extension.table = table;
    options.extension.tasklist = tasklist;
    options.extension.strikethrough = strikethrough;
    options.extension.footnotes = footnotes;
    options.parse.smart = smart;
    options.render.hardbreaks = hardbreaks;
    comrak::markdown_to_html(md, &options)
}

/// `comrak::markdown_to_commonmark_xml` with options as for
/// `comrak_to_html`. Its result depends on its arguments alone and is
/// named `comrak_xml_with`.
#[verifier::external_body]
fn comrak_to_xml(
    md: &str,
    table: bool,
    tasklist: bool,
    strikethrough: bool,
    footnotes: bool,
    smart: bool,
    hardbreaks: bool,
) -> (r: String)
    ensures
        r@ == comrak_xml_with(md@, table, tasklist, strikethrough, footnotes, smart, hardbreaks),
{
    let mut options = comrak::Options::default();
    options.extension.table = table;
    options.extension.tasklist = tasklist;
    options.extension.strikethrough = strikethrough;
    options.extension.footnotes = footnotes;
    options.parse.smart = smart;
    options.render.hardbreaks = hardbreaks;
    comrak::markdown_to_commonmark_xml(md, &options)
}

/// Markdown to HTML with this project's options: tables, task lists,
/// strikethrough, footnotes, smart punctuation and hard line breaks.
pub(crate) fn markdown_to_html(md: &str) -> (r: String)
    ensures
        r@ == comrak_html(md@),
{
    comrak_to_html(md, true, true, true, true, true, true)
}

/// Markdown to CommonMark XML with this project's options.
pub(crate) fn markdown_to_xml(md: &str) -> (r: String)
    ensures
        r@ == comrak_xml(md@),
{
    comrak_to_xml(md, true, true, true, true, true, true)
}

} // verus!
