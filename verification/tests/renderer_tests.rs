use delta_html::attributes::{AttrValue, AttributesMap};
use delta_html::op::{Content, Op};
use delta_html::renderer::{render_html, LineVisitor, OpVistorCtx};

fn text_insert(s: &str) -> Op {
    Op::insert(Content::Text(String::from(s)), None)
}

fn attr_insert(s: &str, pairs: Vec<(&str, AttrValue)>) -> Op {
    let mut m = AttributesMap::new();
    for (k, v) in pairs {
        m.insert(String::from(k), v);
    }
    Op::insert(Content::Text(String::from(s)), Some(m))
}

#[test]
fn test_simple_text_rendering() {
    let ops = vec![text_insert("Hello, World!")];
    let result = render_html(ops);
    assert_eq!(result, "<p>Hello, World!</p>");
}

#[test]
fn test_multiline_text_rendering() {
    let ops = vec![text_insert("First line\nSecond line\nThird line")];
    let result = render_html(ops);
    assert_eq!(result, "<p>First line</p><p>Second line</p><p>Third line</p>");
}

#[test]
fn test_bold_text_rendering() {
    let ops = vec![attr_insert("Bold text", vec![("bold", AttrValue::Bool(true))])];
    let result = render_html(ops);
    assert_eq!(result, "<p><b>Bold text</b></p>");
}

#[test]
fn test_italic_text_rendering() {
    let ops = vec![attr_insert("Italic text", vec![("italic", AttrValue::Bool(true))])];
    let result = render_html(ops);
    assert_eq!(result, "<p><em>Italic text</em></p>");
}

#[test]
fn test_underline_text_rendering() {
    let ops = vec![attr_insert(
        "Underlined text",
        vec![("underline", AttrValue::Bool(true))],
    )];
    let result = render_html(ops);
    assert_eq!(result, "<p><u>Underlined text</u></p>");
}

#[test]
fn test_strike_text_rendering() {
    let ops = vec![attr_insert("Struck text", vec![("strike", AttrValue::Bool(true))])];
    let result = render_html(ops);
    assert_eq!(result, "<p><s>Struck text</s></p>");
}

#[test]
fn test_all_flags_nest_in_fixed_order() {
    // Declaration order of the flags must not matter: strike is
    // outermost, then underline, italic, bold innermost.
    let ops = vec![attr_insert(
        "x",
        vec![
            ("bold", AttrValue::Bool(true)),
            ("strike", AttrValue::Bool(true)),
            ("italic", AttrValue::Bool(true)),
            ("underline", AttrValue::Bool(true)),
        ],
    )];
    let result = render_html(ops);
    assert_eq!(result, "<p><s><u><em><b>x</b></em></u></s></p>");
}

#[test]
fn test_non_boolean_flag_is_off() {
    let ops = vec![attr_insert("x", vec![("bold", AttrValue::UInt(1))])];
    let result = render_html(ops);
    assert_eq!(result, "<p>x</p>");
}

#[test]
fn test_mixed_inline_runs_share_a_paragraph() {
    let ops = vec![
        text_insert("Plain "),
        attr_insert("bold", vec![("bold", AttrValue::Bool(true))]),
        text_insert(" more\n"),
    ];
    let result = render_html(ops);
    assert_eq!(result, "<p>Plain <b>bold</b> more</p>");
}

#[test]
fn test_header_rendering() {
    let ops = vec![
        attr_insert("Title\n", vec![("header", AttrValue::UInt(2))]),
        text_insert("Body\n"),
    ];
    let result = render_html(ops);
    // The header consumes exactly its own line; the next line is
    // dispatched normally.
    assert_eq!(result, "<h2>Title</h2><p>Body</p>");
}

#[test]
fn test_header_level_above_six_clamps() {
    let ops = vec![attr_insert("Deep\n", vec![("header", AttrValue::UInt(9))])];
    let result = render_html(ops);
    assert_eq!(result, "<h6>Deep</h6>");
}

#[test]
fn test_header_non_numeric_falls_back_to_paragraph() {
    let ops = vec![attr_insert(
        "Not a header\n",
        vec![("header", AttrValue::Text(String::from("two")))],
    )];
    let result = render_html(ops);
    assert_eq!(result, "<p>Not a header</p>");
}

#[test]
fn test_bullet_list_drops_opening_line() {
    // Regression pin: the line whose list attribute opens the
    // container is consumed by the detection check and not rendered as
    // an item; only the following list lines become items.
    let list = AttrValue::Text(String::from("bullet"));
    let ops = vec![
        attr_insert("First item\n", vec![("list", list.clone())]),
        attr_insert("Second item\n", vec![("list", list.clone())]),
        attr_insert("Third item\n", vec![("list", list)]),
    ];
    let result = render_html(ops);
    assert_eq!(result, "<ul><li>Second item</li><li>Third item</li></ul>");
}

#[test]
fn test_ordered_list_renders_as_unordered_container() {
    let list = AttrValue::Text(String::from("ordered"));
    let ops = vec![
        attr_insert("a\n", vec![("list", list.clone())]),
        attr_insert("b\n", vec![("list", list)]),
    ];
    let result = render_html(ops);
    assert_eq!(result, "<ul><li>b</li></ul>");
}

#[test]
fn test_list_ends_at_first_plain_line() {
    let list = AttrValue::Text(String::from("bullet"));
    let ops = vec![
        attr_insert("a\n", vec![("list", list.clone())]),
        attr_insert("b\n", vec![("list", list)]),
        text_insert("after\n"),
    ];
    let result = render_html(ops);
    // The ending line is not consumed by the list handler; it is
    // re-dispatched and becomes a paragraph.
    assert_eq!(result, "<ul><li>b</li></ul><p>after</p>");
}

#[test]
fn test_unrecognized_list_value_falls_back_to_paragraph() {
    let ops = vec![attr_insert(
        "Should be paragraph\n",
        vec![("list", AttrValue::Text(String::from("invalid")))],
    )];
    let result = render_html(ops);
    assert_eq!(result, "<p>Should be paragraph</p>");
}

#[test]
fn test_empty_delta() {
    let result = render_html(Vec::new());
    assert_eq!(result, "");
}

#[test]
fn test_single_newline() {
    let ops = vec![text_insert("\n")];
    let result = render_html(ops);
    assert_eq!(result, "<p></p>");
}

#[test]
fn test_multiple_empty_lines() {
    let ops = vec![text_insert("\n\n\n")];
    let result = render_html(ops);
    assert_eq!(result, "<p></p><p></p><p></p>");
}

#[test]
fn test_retain_delete_and_embed_are_skipped() {
    let mut embed: serde_json::Map<String, serde_json::Value> = serde_json::Map::new();
    embed.insert(String::from("image"), serde_json::Value::from("x.png"));
    let ops = vec![
        Op::retain(4, None),
        text_insert("kept\n"),
        Op::delete(2),
        Op::insert(Content::Embed(serde_json::Value::Object(embed)), None),
    ];
    let result = render_html(ops);
    assert_eq!(result, "<p>kept</p>");
}

#[test]
fn test_rendering_is_idempotent() {
    let ops = vec![
        attr_insert("Title\n", vec![("header", AttrValue::UInt(1))]),
        text_insert("Body with "),
        attr_insert("style", vec![("italic", AttrValue::Bool(true))]),
        text_insert("\nTrailing"),
    ];
    let first = render_html(ops.clone());
    let second = render_html(ops);
    assert_eq!(first, second);
}

#[test]
fn test_visitor_segments_and_inline_buffer() {
    let ops = vec![text_insert("Hello\nWorld")];
    let mut ctx = OpVistorCtx::new(ops);
    match ctx.current() {
        Some(LineVisitor::NewLine { text, .. }) => assert_eq!(text, "Hello"),
        _ => panic!("expected a line segment"),
    }
    // current() caches: a repeated call does not advance.
    match ctx.current() {
        Some(LineVisitor::NewLine { text, .. }) => assert_eq!(text, "Hello"),
        _ => panic!("expected the cached line segment"),
    }
    match ctx.next() {
        Some(LineVisitor::Inline { text, .. }) => assert_eq!(text, "World"),
        _ => panic!("expected an inline segment"),
    }
    assert!(ctx.next().is_none());

    assert!(!ctx.has_inline());
    ctx.append_inline("<b>");
    ctx.append_inline("test");
    ctx.append_inline("</b>");
    assert!(ctx.has_inline());
    let mut out = String::new();
    ctx.flush_inline(&mut out);
    assert_eq!(out, "<b>test</b>");
    assert!(!ctx.has_inline());
    let mut out2 = String::new();
    ctx.flush_inline(&mut out2);
    assert_eq!(out2, "");
}
