# i18n_md_email_templates

Render localized transactional emails from markdown-authored copy: per-locale string
catalogs with per-key fallback, single-pass `{{token}}` substitution, HTML escaping of
interpolated values, markdown to HTML and to plaintext, and CSS inlining.

The library under `src/` is written in Verus; each public function carries a contract
over a mathematical model (character sequences and finite maps), and the laws of the
library stand as proof functions beside the code they are about:

- `text` — character vectors, `String` building, whitespace trimming.
- `escape` — `html_escape` and the markup-freedom of escaped text.
- `vars` — `Vars`, the runtime values keyed by token name.
- `substitute` — `substitute` and its single-pass laws.
- `markdown` — `markdown_to_html` and `markdown_to_text` over pulldown-cmark.
- `css` — `inline_css` over css-inline.
- `catalog` — `Catalog` and its `Json` value model.
- `render` — `render`, `EmailTemplate`, `Cta`, `RenderedEmail`.

`app/` turns `serde_json` values into the catalog's `Json` model.
