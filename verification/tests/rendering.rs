use i18n_md_email_templates::{
    html_escape, inline_css, markdown_to_html, markdown_to_text, render, substitute, Cta,
    EmailTemplate, Vars,
};

use i18n_md_email_templates::markdown::{
    gfm_options, md_tag_of, MdTag, ENABLE_GFM, ENABLE_STRIKETHROUGH, ENABLE_TABLES,
};
use pulldown_cmark::Options;

const LAYOUT: &str =
    "<html><body><h1>{{title}}</h1>{{content}}<footer>{{footer}}</footer></body></html>";

fn vars(pairs: &[(&str, &str)]) -> Vars {
    let mut v = Vars::new();
    for (k, val) in pairs {
        v.insert(k, val.to_string());
    }
    v
}

#[test]
fn markdown_renders_to_html() {
    let html = markdown_to_html("**bold** and a [link](https://example.com)");
    assert!(html.contains("<strong>bold</strong>"));
    assert!(html.contains("href=\"https://example.com\""));
}

#[test]
fn substitute_replaces_known_tokens_only() {
    let v = vars(&[("name", "Ada")]);
    assert_eq!(
        substitute("Hi {{name}}, {{unknown}}", &v),
        "Hi Ada, {{unknown}}"
    );
}

#[test]
fn substitute_does_not_rescan_inserted_values() {
    // A value containing another token must not trigger a second substitution.
    let v = vars(&[("a", "{{b}}"), ("b", "SECRET")]);
    assert_eq!(substitute("{{a}}", &v), "{{b}}");
}

#[test]
fn render_escapes_values_in_html_but_not_in_text() {
    let tmpl = EmailTemplate {
        layout: LAYOUT,
        subject: "Hi {{name}}",
        body_md: "Welcome **{{name}}**",
        cta: None,
        footer_md: None,
    };
    let rendered = render(&tmpl, &vars(&[("name", "<script>"), ("title", "T")]));

    // Subject keeps the raw value.
    assert_eq!(rendered.subject, "Hi <script>");
    // HTML body escapes the interpolated value.
    assert!(rendered
        .html_body
        .contains("Welcome <strong>&lt;script&gt;</strong>"));
    assert!(!rendered.html_body.contains("<script>"));
    // Text body keeps the raw value.
    assert!(rendered.text_body.contains("Welcome **<script>**"));
}

#[test]
fn render_appends_cta_to_both_bodies() {
    let tmpl = EmailTemplate {
        layout: LAYOUT,
        subject: "S",
        body_md: "Body",
        cta: Some(Cta {
            label: "Accept Invite".to_string(),
            url: "https://example.com/i?t=a&b".to_string(),
        }),
        footer_md: Some("Expires soon"),
    };
    let rendered = render(&tmpl, &vars(&[("title", "T")]));

    // HTML CTA is a styled button with an escaped href, plus the layout/footer slots filled.
    assert!(rendered
        .html_body
        .contains("<a class=\"btn\" href=\"https://example.com/i?t=a&amp;b\">Accept Invite</a>"));
    assert!(rendered.html_body.contains("<footer><p>Expires soon</p>"));
    assert!(!rendered.html_body.contains("{{content}}"));
    assert!(!rendered.html_body.contains("{{footer}}"));

    // Text CTA is "label: url" with the raw url, and the footer is appended.
    assert!(rendered
        .text_body
        .contains("Accept Invite: https://example.com/i?t=a&b"));
    assert!(rendered.text_body.contains("Expires soon"));
}

#[test]
fn html_escape_covers_all_five() {
    assert_eq!(html_escape("&<>\"'"), "&amp;&lt;&gt;&quot;&#39;");
}

#[test]
fn html_escape_leaves_plain_text_alone() {
    assert_eq!(html_escape("plain text, ünïcode"), "plain text, ünïcode");
    assert_eq!(html_escape(""), "");
}

#[test]
fn html_escape_output_has_no_markup_characters() {
    let escaped = html_escape("<a href=\"x\" title='y'>&</a>");
    assert_eq!(
        escaped,
        "&lt;a href=&quot;x&quot; title=&#39;y&#39;&gt;&amp;&lt;/a&gt;"
    );
    assert!(!escaped.contains('<') && !escaped.contains('>'));
    assert!(!escaped.contains('"') && !escaped.contains('\''));
}

#[test]
fn html_escape_distributes_over_concatenation() {
    assert_eq!(
        html_escape("a<b&c"),
        format!("{}{}", html_escape("a<b"), html_escape("&c"))
    );
}

#[test]
fn substitute_trims_the_token_name() {
    let v = vars(&[("name", "Ada")]);
    assert_eq!(substitute("Hi {{ name }}!", &v), "Hi Ada!");
    assert_eq!(substitute("Hi {{\tname\n}}!", &v), "Hi Ada!");
}

#[test]
fn substitute_without_values_keeps_the_template() {
    let v = Vars::new();
    let t = "Dear {{name}}, see {{ link }} and {{unclosed";
    assert_eq!(substitute(t, &v), t);
}

#[test]
fn substitute_plain_text_is_unchanged() {
    let v = vars(&[("x", "1")]);
    assert_eq!(substitute("no placeholders { here } }}", &v), "no placeholders { here } }}");
}

#[test]
fn substitute_unclosed_token_is_left_in_place() {
    let v = vars(&[("name", "Ada")]);
    assert_eq!(substitute("Hi {{name", &v), "Hi {{name");
}

#[test]
fn substitute_known_token_goes_on_after_the_value() {
    let v = vars(&[("a", "{{a}}"), ("b", "B")]);
    assert_eq!(substitute("x{{a}}y{{b}}z", &v), "x{{a}}yBz");
}

#[test]
fn substitute_unknown_token_resumes_after_its_braces() {
    // `{{zz {{b}}`: the first key `zz {{b` is unknown, so scanning resumes after the
    // first `{{` and finds `{{b}}`.
    let v = vars(&[("b", "B")]);
    assert_eq!(substitute("{{zz {{b}}", &v), "{{zz B");
}

#[test]
fn substitute_empty_key() {
    let v = vars(&[("", "E")]);
    assert_eq!(substitute("[{{}}][{{  }}]", &v), "[E][E]");
}

#[test]
fn vars_insert_replaces_and_get_reads() {
    let mut v = Vars::new();
    assert_eq!(v.get("k"), None);
    v.insert("k", "one".to_string());
    v.insert("k", "two".to_string());
    v.insert("other", "x".to_string());
    assert_eq!(v.get("k"), Some("two".to_string()));
    assert_eq!(v.get("other"), Some("x".to_string()));
    assert_eq!(v.get("missing"), None);
}

#[test]
fn vars_escaped_escapes_every_value() {
    let v = vars(&[("a", "<b>"), ("c", "plain")]);
    let e = v.escaped();
    assert_eq!(e.get("a"), Some("&lt;b&gt;".to_string()));
    assert_eq!(e.get("c"), Some("plain".to_string()));
}

#[test]
fn markdown_to_text_drops_markup_and_separates_blocks() {
    let md = "# Title\n\nPara with **bold** and a [link](https://example.com).\n\n- a\n- b\n";
    assert_eq!(
        markdown_to_text(md),
        "Title\n\nPara with bold and a link.\n\n- a\n- b"
    );
}

#[test]
fn markdown_to_text_collapses_newline_runs() {
    let md = "```\na\n\n\n\nb\n```\n";
    let text = markdown_to_text(md);
    assert_eq!(text, "a\n\nb");
    assert!(!text.contains("\n\n\n"));
}

#[test]
fn markdown_to_text_keeps_placeholders_and_breaks() {
    let md = "Hello {{name}},\nsee `code`";
    assert_eq!(markdown_to_text(md), "Hello {{name}},\nsee code");
}

#[test]
fn markdown_to_text_is_trimmed() {
    let text = markdown_to_text("\n\n   para   \n\n");
    assert_eq!(text, "para");
    assert_eq!(markdown_to_text(""), "");
}

#[test]
fn render_without_cta_or_footer_leaves_slots_empty() {
    let tmpl = EmailTemplate {
        layout: LAYOUT,
        subject: "S",
        body_md: "Body",
        cta: None,
        footer_md: None,
    };
    let rendered = render(&tmpl, &vars(&[("title", "T")]));
    assert_eq!(
        rendered.html_body,
        "<html><body><h1>T</h1><p>Body</p>\n<footer></footer></body></html>"
    );
    assert_eq!(rendered.text_body, "Body");
    assert_eq!(rendered.subject, "S");
}

#[test]
fn render_values_cannot_collide_with_layout_slots() {
    let tmpl = EmailTemplate {
        layout: LAYOUT,
        subject: "{{title}}",
        body_md: "Body",
        cta: None,
        footer_md: Some("Bye"),
    };
    let rendered = render(
        &tmpl,
        &vars(&[("title", "{{content}}"), ("content", "EVIL"), ("footer", "EVIL")]),
    );
    assert_eq!(
        rendered.html_body,
        "<html><body><h1>{{content}}</h1><p>Body</p>\n<footer><p>Bye</p>\n</footer></body></html>"
    );
    assert!(!rendered.html_body.contains("EVIL"));
    assert_eq!(rendered.subject, "{{content}}");
    assert_eq!(rendered.text_body, "Body\n\nBye");
}

#[test]
fn render_exact_bodies_with_cta() {
    let tmpl = EmailTemplate {
        layout: "{{content}}|{{footer}}",
        subject: "S",
        body_md: "Hi {{who}}",
        cta: Some(Cta { label: "Go <now>".to_string(), url: "u\"1".to_string() }),
        footer_md: None,
    };
    let rendered = render(&tmpl, &vars(&[("who", "A&B")]));
    assert_eq!(
        rendered.html_body,
        "<p>Hi A&amp;B</p>\n\n<div class=\"btn-wrap\"><a class=\"btn\" href=\"u&quot;1\">Go &lt;now&gt;</a></div>\n<p class=\"link-fallback\">u&quot;1</p>|"
    );
    assert_eq!(rendered.text_body, "Hi A&B\n\nGo <now>: u\"1");
}

#[test]
fn inline_css_moves_styles_onto_elements() {
    let html = "<html><head><style>p { color: red; }</style></head><body><p>x</p></body></html>";
    let out = match inline_css(html) {
        Ok(s) => s,
        Err(_) => panic!("inlining failed"),
    };
    assert!(out.contains("<p style=\"color: red;\">x</p>"), "{}", out);
    assert!(!out.contains("<style>"));
}

#[test]
fn gfm_options_are_the_parser_flags() {
    assert_eq!(ENABLE_TABLES, Options::ENABLE_TABLES.bits());
    assert_eq!(ENABLE_STRIKETHROUGH, Options::ENABLE_STRIKETHROUGH.bits());
    assert_eq!(ENABLE_GFM, Options::ENABLE_GFM.bits());
    let expected = Options::ENABLE_STRIKETHROUGH | Options::ENABLE_TABLES | Options::ENABLE_GFM;
    assert_eq!(gfm_options(), expected.bits());
}

#[test]
fn markdown_html_uses_gfm_extensions() {
    let html = markdown_to_html("~~gone~~\n\n| a |\n|---|\n| b |\n");
    assert!(html.contains("<del>gone</del>"), "{}", html);
    assert!(html.contains("<table>"), "{}", html);
}

#[test]
fn md_tag_of_reads_the_element_kind() {
    assert!(matches!(md_tag_of(&"Item".to_string()), MdTag::Item));
    assert!(matches!(md_tag_of(&"Heading(H2)".to_string()), MdTag::Heading));
    assert!(matches!(md_tag_of(&"CodeBlock".to_string()), MdTag::CodeBlock));
    assert!(matches!(md_tag_of(&"List(None)".to_string()), MdTag::List));
    assert!(matches!(md_tag_of(&"Heading { level: H1 }".to_string()), MdTag::Heading));
    assert!(matches!(md_tag_of(&"Nothing".to_string()), MdTag::Unrecognized));
}

#[test]
fn markdown_to_text_drops_inline_html_math_and_rules() {
    let md = "Hi <b>there</b>\n\n---\n\nEnd";
    assert_eq!(markdown_to_text(md), "Hi there\n\nEnd");
}

#[test]
fn markdown_to_text_code_block_and_heading_levels() {
    let md = "## Sub\n\n```rust\nlet x = 1;\n```\n\n1. one\n2. two";
    assert_eq!(markdown_to_text(md), "Sub\n\nlet x = 1;\n\n- one\n- two");
}

#[test]
fn substitute_token_law_on_concrete_values() {
    let v = vars(&[("x", "{{zz}}")]);
    // Unknown token kept as it stands; known one replaced and not rescanned.
    assert_eq!(substitute("a{{zz}}b{{ x }}c{{zz}}", &v), "a{{zz}}b{{zz}}c{{zz}}");
}

#[test]
fn substitute_trims_unicode_white_space() {
    let v = vars(&[("name", "Ada")]);
    assert_eq!(substitute("{{\u{3000}name\u{85}\u{a0}}}", &v), "Ada");
    // A zero-width space is not white space, so the name differs.
    assert_eq!(substitute("{{\u{200b}name}}", &v), "{{\u{200b}name}}");
}
