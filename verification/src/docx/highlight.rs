//! Code highlighting for Word code blocks: syntect tokenizes and colours
//! the code with a TextMate theme (One Dark by default); the tokens become
//! (text, `RRGGBB`) pairs.
use vstd::prelude::*;

verus! {

/// The tokens that syntect gives for `code`, highlighted line by line with
/// the syntax named `syntax` under the TextMate theme `theme`: (text,
/// foreground colour) in order. `None` when the theme does not parse, no
/// syntax has that name or a line fails to highlight.
pub uninterp spec fn syntect_tokens(
    theme: Seq<char>,
    syntax: Seq<char>,
    code: Seq<char>,
) -> Option<Seq<(Seq<char>, (u8, u8, u8))>>;

/// The name of the default syntax that `lang` is a token of, if any.
pub uninterp spec fn syntect_syntax_by_token(lang: Seq<char>) -> Option<Seq<char>>;

/// The name of the default syntax that `lang` is a file extension of, if
/// any.
pub uninterp spec fn syntect_syntax_by_extension(lang: Seq<char>) -> Option<Seq<char>>;

/// The views of tokens.
pub open spec fn token_views(v: Seq<(String, (u8, u8, u8))>) -> Seq<(Seq<char>, (u8, u8, u8))> {
    v.map_values(|t: (String, (u8, u8, u8))| (t.0@, t.1))
}

/// The view of an optional language.
pub open spec fn lang_view(lang: Option<&str>) -> Option<Seq<char>> {
    match lang {
        Some(l) => Some(l@),
        None => None,
    }
}

/// The view of an optional name.
pub open spec fn name_view(n: Option<String>) -> Option<Seq<char>> {
    match n {
        Some(s) => Some(s@),
        None => None,
    }
}

/// `SyntaxSet::load_defaults_newlines` and `find_syntax_by_token`: the
/// name of the syntax found. Its result is named `syntect_syntax_by_token`.
#[verifier::external_body]
fn syntax_by_token(lang: &str) -> (r: Option<String>)
    ensures
        name_view(r) == syntect_syntax_by_token(lang@),
{
    syntect::parsing::SyntaxSet::load_defaults_newlines().find_syntax_by_token(lang).map(|s| s.name.clone())
}

/// `SyntaxSet::load_defaults_newlines` and `find_syntax_by_extension`: the
/// name of the syntax found. Its result is named
/// `syntect_syntax_by_extension`.
#[verifier::external_body]
fn syntax_by_extension(lang: &str) -> (r: Option<String>)
    ensures
        name_view(r) == syntect_syntax_by_extension(lang@),
{
    syntect::parsing::SyntaxSet::load_defaults_newlines().find_syntax_by_extension(lang).map(|s| s.name.clone())
}

/// syntect on one code block: `SyntaxSet::load_defaults_newlines`,
/// `ThemeSet::load_from_reader` on the theme text, `find_syntax_by_name`
/// and `HighlightLines::highlight_line` over `LinesWithEndings`, whose
/// state runs from line to line. Its result is named `syntect_tokens`.
#[verifier::external_body]
fn syntect_highlight(theme: &str, syntax: &str, code: &str) -> (r: Option<Vec<(String, (u8, u8, u8))>>)
    ensures
        r matches Some(v) ==> syntect_tokens(theme@, syntax@, code@) == Some(token_views(v@)),
        r is None ==> syntect_tokens(theme@, syntax@, code@) is None,
{
    let ss = syntect::parsing::SyntaxSet::load_defaults_newlines();
    let th = syntect::highlighting::ThemeSet::load_from_reader(&mut std::io::Cursor::new(theme)).ok()?;
    let syn = ss.find_syntax_by_name(syntax)?;
    let mut h = syntect::easy::HighlightLines::new(syn, &th);
    let mut out = Vec::new();
    for line in syntect::util::LinesWithEndings::from(code) {
        for (st, t) in h.highlight_line(line, &ss).ok()? {
            out.push((t.to_string(), (st.foreground.r, st.foreground.g, st.foreground.b)));
        }
    }
    Some(out)
}

/// The syntax a code block is highlighted with: for a language that is
/// given and not empty, the syntax it is a token of, else the one it is an
/// extension of; otherwise plain text.
pub open spec fn chosen_syntax(lang: Option<Seq<char>>) -> Seq<char> {
    match lang {
        Some(l) => if l.len() > 0 {
            match syntect_syntax_by_token(l) {
                Some(n) => n,
                None => match syntect_syntax_by_extension(l) {
                    Some(n) => n,
                    None => "Plain Text"@,
                },
            }
        } else {
            "Plain Text"@
        },
        None => "Plain Text"@,
    }
}

/// The syntax for a code block (see `chosen_syntax`).
pub fn choose_syntax(lang: Option<&str>) -> (r: String)
    ensures
        r@ == chosen_syntax(lang_view(lang)),
{
    match lang {
        Some(l) => if l.unicode_len() > 0 {
            match syntax_by_token(l) {
                Some(n) => n,
                None => match syntax_by_extension(l) {
                    Some(n) => n,
                    None => String::from_str("Plain Text"),
                },
            }
        } else {
            String::from_str("Plain Text")
        },
        None => String::from_str("Plain Text"),
    }
}

/// An upper-case hexadecimal digit.
pub open spec fn hex_upper(d: int) -> char {
    if d < 10 {
        (48 + d) as char
    } else {
        (55 + d) as char
    }
}

/// A byte as two upper-case hexadecimal digits.
pub open spec fn hex_byte(b: u8) -> Seq<char> {
    seq![hex_upper(b as int / 16), hex_upper(b as int % 16)]
}

/// A colour as `RRGGBB`.
pub open spec fn color_hex(c: (u8, u8, u8)) -> Seq<char> {
    hex_byte(c.0) + hex_byte(c.1) + hex_byte(c.2)
}

/// The tokens with text, each with its colour as `RRGGBB`.
pub open spec fn colored_tokens(ts: Seq<(Seq<char>, (u8, u8, u8))>) -> Seq<(Seq<char>, Seq<char>)>
    decreases ts.len(),
{
    if ts.len() == 0 {
        Seq::empty()
    } else {
        colored_tokens(ts.drop_last()) + if ts.last().0.len() > 0 {
            seq![(ts.last().0, color_hex(ts.last().1))]
        } else {
            Seq::empty()
        }
    }
}

/// The highlighting of a code block with the syntax `chosen_syntax` gives
/// for its language: the tokens with text and their colours, or the whole
/// code in the default colour `abb2bf` when syntect gives nothing.
pub open spec fn highlight_spec(theme: Seq<char>, lang: Option<Seq<char>>, code: Seq<char>) -> Seq<(Seq<char>, Seq<char>)> {
    match syntect_tokens(theme, chosen_syntax(lang), code) {
        Some(ts) => colored_tokens(ts),
        None => seq![(code, "abb2bf"@)],
    }
}

/// The views of (text, colour) pairs.
pub open spec fn pair_views(v: Seq<(String, String)>) -> Seq<(Seq<char>, Seq<char>)> {
    v.map_values(|p: (String, String)| (p.0@, p.1@))
}

fn hex_digit_exec(d: u8) -> (c: char)
    requires
        d < 16,
    ensures
        c == hex_upper(d as int),
{
    if d < 10 {
        (d + 48) as char
    } else {
        (d + 55) as char
    }
}

fn color_hex_exec(c: (u8, u8, u8)) -> (r: String)
    ensures
        r@ == color_hex(c),
{
    let mut out: Vec<char> = Vec::new();
    out.push(hex_digit_exec(c.0 / 16));
    out.push(hex_digit_exec(c.0 % 16));
    out.push(hex_digit_exec(c.1 / 16));
    out.push(hex_digit_exec(c.1 % 16));
    out.push(hex_digit_exec(c.2 / 16));
    out.push(hex_digit_exec(c.2 % 16));
    assert(out@ =~= color_hex(c));
    crate::text::string_of(&out)
}

/// The One Dark colour theme (as in atom-one-dark), in TextMate form:
/// default `ABB2BF` on `282C34`; comments `5C6370`, keywords and the
/// function keyword `C678DD`, strings `98C379`, numbers and constants
/// `D19A66`, functions `61AEEE`, types, `storage.type` and variables
/// `E06C75`, operators and escapes `56B6C2`.
pub open spec fn one_dark_theme() -> Seq<char> {
    "<?xml version=\"1.0\" encoding=\"UTF-8\"?><plist version=\"1.0\"><dict><key>name</key><string>One Dark</string><key>settings</key><array><dict><key>settings</key><dict><key>background</key><string>#282C34</string><key>foreground</key><string>#ABB2BF</string></dict></dict><dict><key>name</key><string>Comment</string><key>scope</key><string>comment, punctuation.definition.comment</string><key>settings</key><dict><key>foreground</key><string>#5C6370</string></dict></dict><dict><key>name</key><string>Keyword</string><key>scope</key><string>keyword, storage.modifier, keyword.control</string><key>settings</key><dict><key>foreground</key><string>#C678DD</string></dict></dict><dict><key>name</key><string>Operator</string><key>scope</key><string>keyword.operator</string><key>settings</key><dict><key>foreground</key><string>#56B6C2</string></dict></dict><dict><key>name</key><string>String</string><key>scope</key><string>string, string.quoted, markup.inline.raw</string><key>settings</key><dict><key>foreground</key><string>#98C379</string></dict></dict><dict><key>name</key><string>Number</string><key>scope</key><string>constant.numeric, constant.language, constant.character, constant.other, entity.other.attribute-name</string><key>settings</key><dict><key>foreground</key><string>#D19A66</string></dict></dict><dict><key>name</key><string>Function</string><key>scope</key><string>entity.name.function, support.function, meta.function-call</string><key>settings</key><dict><key>foreground</key><string>#61AEEE</string></dict></dict><dict><key>name</key><string>Type</string><key>scope</key><string>storage, storage.type, entity.name.type, entity.name.class, entity.other.inherited-class, support.type, support.class</string><key>settings</key><dict><key>foreground</key><string>#E06C75</string></dict></dict><dict><key>name</key><string>Variable</string><key>scope</key><string>variable, variable.parameter, entity.name.tag, meta.tag</string><key>settings</key><dict><key>foreground</key><string>#E06C75</string></dict></dict><dict><key>name</key><string>Function keyword</string><key>scope</key><string>storage.type.function, keyword.declaration.function</string><key>settings</key><dict><key>foreground</key><string>#C678DD</string></dict></dict><dict><key>name</key><string>Escape</string><key>scope</key><string>constant.character.escape, string.regexp</string><key>settings</key><dict><key>foreground</key><string>#56B6C2</string></dict></dict></array></dict></plist>"@
}

/// The One Dark theme text (see `one_dark_theme`).
pub fn one_dark() -> (r: &'static str)
    ensures
        r@ == one_dark_theme(),
{
    "<?xml version=\"1.0\" encoding=\"UTF-8\"?><plist version=\"1.0\"><dict><key>name</key><string>One Dark</string><key>settings</key><array><dict><key>settings</key><dict><key>background</key><string>#282C34</string><key>foreground</key><string>#ABB2BF</string></dict></dict><dict><key>name</key><string>Comment</string><key>scope</key><string>comment, punctuation.definition.comment</string><key>settings</key><dict><key>foreground</key><string>#5C6370</string></dict></dict><dict><key>name</key><string>Keyword</string><key>scope</key><string>keyword, storage.modifier, keyword.control</string><key>settings</key><dict><key>foreground</key><string>#C678DD</string></dict></dict><dict><key>name</key><string>Operator</string><key>scope</key><string>keyword.operator</string><key>settings</key><dict><key>foreground</key><string>#56B6C2</string></dict></dict><dict><key>name</key><string>String</string><key>scope</key><string>string, string.quoted, markup.inline.raw</string><key>settings</key><dict><key>foreground</key><string>#98C379</string></dict></dict><dict><key>name</key><string>Number</string><key>scope</key><string>constant.numeric, constant.language, constant.character, constant.other, entity.other.attribute-name</string><key>settings</key><dict><key>foreground</key><string>#D19A66</string></dict></dict><dict><key>name</key><string>Function</string><key>scope</key><string>entity.name.function, support.function, meta.function-call</string><key>settings</key><dict><key>foreground</key><string>#61AEEE</string></dict></dict><dict><key>name</key><string>Type</string><key>scope</key><string>storage, storage.type, entity.name.type, entity.name.class, entity.other.inherited-class, support.type, support.class</string><key>settings</key><dict><key>foreground</key><string>#E06C75</string></dict></dict><dict><key>name</key><string>Variable</string><key>scope</key><string>variable, variable.parameter, entity.name.tag, meta.tag</string><key>settings</key><dict><key>foreground</key><string>#E06C75</string></dict></dict><dict><key>name</key><string>Function keyword</string><key>scope</key><string>storage.type.function, keyword.declaration.function</string><key>settings</key><dict><key>foreground</key><string>#C678DD</string></dict></dict><dict><key>name</key><string>Escape</string><key>scope</key><string>constant.character.escape, string.regexp</string><key>settings</key><dict><key>foreground</key><string>#56B6C2</string></dict></dict></array></dict></plist>"
}

/// Highlights a code block for a Word document with the One Dark theme
/// (see `highlight_spec`): (text, colour as upper-case `RRGGBB`) pairs in
/// order.
pub fn highlight_code(lang: Option<&str>, code: &str) -> (r: Vec<(String, String)>)
    ensures
        pair_views(r@) == highlight_spec(one_dark_theme(), lang_view(lang), code@),
{
    highlight_with_theme(one_dark(), lang, code)
}

/// Highlights a code block under the TextMate theme `theme` (see
/// `highlight_spec`): (text, colour as upper-case `RRGGBB`) pairs in order.
pub fn highlight_with_theme(theme: &str, lang: Option<&str>, code: &str) -> (r: Vec<(String, String)>)
    ensures
        pair_views(r@) == highlight_spec(theme@, lang_view(lang), code@),
{
    let syntax = choose_syntax(lang);
    match syntect_highlight(theme, syntax.as_str(), code) {
        None => {
            let mut v: Vec<(String, String)> = Vec::new();
            v.push((String::from_str(code), String::from_str("abb2bf")));
            assert(pair_views(v@) =~= seq![(code@, "abb2bf"@)]);
            v
        },
        Some(toks) => {
            let ghost tv = token_views(toks@);
            let mut out: Vec<(String, String)> = Vec::new();
            let mut i: usize = 0;
            assert(tv.take(0) =~= Seq::<(Seq<char>, (u8, u8, u8))>::empty());
            while i < toks.len()
                invariant
                    i <= toks@.len(),
                    tv == token_views(toks@),
                    pair_views(out@) == colored_tokens(tv.take(i as int)),
                decreases toks@.len() - i,
            {
                let ghost before = out@;
                assert(tv.take(i + 1).drop_last() =~= tv.take(i as int));
                assert(tv[i as int] == (toks@[i as int].0@, toks@[i as int].1));
                if toks[i].0.as_str().unicode_len() > 0 {
                    let hex = color_hex_exec(toks[i].1);
                    out.push((toks[i].0.clone(), hex));
                    assert(pair_views(out@) =~= pair_views(before).push((tv[i as int].0, color_hex(tv[i as int].1))));
                } else {
                    assert(pair_views(out@) =~= pair_views(before));
                }
                assert(pair_views(out@) =~= colored_tokens(tv.take(i + 1)));
                i = i + 1;
            }
            assert(tv.take(toks@.len() as int) =~= tv);
            out
        },
    }
}

} // verus!
