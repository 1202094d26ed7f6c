# md2x-core

Converts Markdown to a self-contained HTML page (printed to PDF or PNG by a
headless browser) or to a Word document, with every step of the text
processing verified by Verus.

## Layout

- `src/` — the verified library:
  - `front_matter`, `metadata` — YAML-style front matter and its entries;
  - `links` — wrapping link destinations that contain spaces in `<>`;
  - `converter` — Markdown to HTML (comrak), task-list cleanup, base64,
    content types of image files;
  - `images` — embedding `<img>` sources as `data:` URIs, given a fetcher;
  - `mermaid` — finding diagram code blocks, restoring their source,
    the browser page that renders them, and splicing the SVG back in;
  - `template` — the table of contents, heading anchors, the metadata card
    and the page template;
  - `docx` — Word export: body rendering from comrak's CommonMark XML
    (headings, paragraphs with inline styles and hyperlinks, bullet and
    numbered lists, task lists, block quotes, code blocks highlighted in
    One Dark, rules, tables, embedded images read through a fetcher),
    package parts, the zip archive (built in memory);
  - `markdown`, `unicode`, `text` — the calls into comrak and std and the
    character-sequence helpers everything else is specified with;
  - `error`, `preview` — the error type and the desktop preview's decisions
    (file change, cache reuse, PDF data);
- `tests/` — tests run against the compiled library.
- `app/` — the `md2x` command: file and network I/O and the browser.

The page template and its assets (`mpe.html`, `assets/*.css`, `assets/*.js`,
`assets/mermaid.min.js`) are read at run time from the directory named by
`MD2X_TEMPLATES` (or `templates` beside the executable).
