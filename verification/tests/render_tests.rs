use webx::dom::{Node, NodeChild};
use webx::page::{LogLevel, Page, WidgetKind};
use webx::render::{build_body, scan_head};
use webx::style::RuleStore;

fn el(tag: &str, classes: &[&str], children: Vec<NodeChild>) -> Node {
    Node {
        tag: tag.to_string(),
        attributes: Vec::new(),
        classes: classes.iter().map(|s| s.to_string()).collect(),
        children,
    }
}

fn el_attr(tag: &str, attrs: &[(&str, &str)], children: Vec<NodeChild>) -> Node {
    Node {
        tag: tag.to_string(),
        attributes: attrs.iter().map(|(k, v)| (k.to_string(), v.to_string())).collect(),
        classes: Vec::new(),
        children,
    }
}

fn text(t: &str) -> NodeChild {
    NodeChild::Text(t.to_string())
}

fn child(n: Node) -> NodeChild {
    NodeChild::Element(n)
}

fn build(body: Node) -> Page {
    let mut page = Page::new();
    build_body(&mut page, &RuleStore::new(), &body);
    page
}

#[test]
fn unordered_list_produces_bulleted_rows_in_order() {
    // End to end: <ul><li>a</li><li>b</li></ul> with no stylesheet gives two
    // rows labeled "• a" and "• b", in that order.
    let body = el(
        "body",
        &[],
        vec![child(el("ul", &[], vec![
            child(el("li", &[], vec![text("a")])),
            child(el("li", &[], vec![text("b")])),
        ]))],
    );
    let page = build(body);
    // root, list, row, lead, item, row, lead, item
    assert_eq!(page.widgets.len(), 8);
    assert_eq!(page.widgets[3].text, "\u{2022} ");
    assert_eq!(page.widgets[4].text, "a");
    assert_eq!(page.widgets[6].text, "\u{2022} ");
    assert_eq!(page.widgets[7].text, "b");
    let first_row = format!("{}{}", page.widgets[3].text, page.widgets[4].text);
    let second_row = format!("{}{}", page.widgets[6].text, page.widgets[7].text);
    assert_eq!(first_row, "\u{2022} a");
    assert_eq!(second_row, "\u{2022} b");
    assert!(page.widgets[4].parent == page.widgets[3].parent);
}

#[test]
fn ordered_list_numbers_rows_from_one() {
    let body = el(
        "body",
        &[],
        vec![child(el("ol", &[], vec![
            child(el("li", &[], vec![text("first")])),
            child(el("li", &[], vec![text("second")])),
        ]))],
    );
    let page = build(body);
    assert_eq!(page.widgets[3].text, "1. ");
    assert_eq!(page.widgets[6].text, "2. ");
}

#[test]
fn ordered_list_ordinals_skip_everything_but_items() {
    // The one-based ordinal counts the li rows alone: a comment before the
    // first item and a text run between items leave the numbering at 1, 2.
    let body = el(
        "body",
        &[],
        vec![child(el("ol", &[], vec![
            NodeChild::Comment("lead-in".to_string()),
            child(el("li", &[], vec![text("first")])),
            text("\n"),
            child(el("li", &[], vec![text("second")])),
        ]))],
    );
    let page = build(body);
    // root, list, row, lead, item, row, lead, item
    assert_eq!(page.widgets.len(), 8);
    assert_eq!(page.widgets[3].text, "1. ");
    assert_eq!(page.widgets[4].text, "first");
    assert_eq!(page.widgets[6].text, "2. ");
    assert_eq!(page.widgets[7].text, "second");
}

#[test]
fn unordered_list_skips_and_logs_strays() {
    let body = el(
        "body",
        &[],
        vec![child(el("ul", &[], vec![
            NodeChild::Comment("noise".to_string()),
            child(el("li", &[], vec![text("a")])),
            child(el("p", &[], vec![text("stray")])),
            child(el("li", &[], vec![text("b")])),
        ]))],
    );
    let page = build(body);
    // Only the two li items become rows; the stray paragraph is logged.
    assert_eq!(page.records.len(), 3);
    assert!(page.log.iter().any(|e| e.message.contains("Expected li")));
    let first = page.records[1].handle;
    let second = page.records[2].handle;
    assert_eq!(page.widgets[first].text, "a");
    assert_eq!(page.widgets[second].text, "b");
}

#[test]
fn builds_are_deterministic() {
    // Determinism: identical markup and stylesheet give the identical
    // registry order, count and resolved property sets, twice over.
    let body = el(
        "body",
        &[],
        vec![
            child(el("h1", &["title"], vec![text("Hello")])),
            child(el("p", &["x"], vec![text("world")])),
        ],
    );
    let mut store = RuleStore::new();
    assert!(store.add_sheet(".x {\ncolor: teal;\n}\n"));
    let mut one = Page::new();
    build_body(&mut one, &store, &body);
    let mut two = Page::new();
    build_body(&mut two, &store, &body);
    assert_eq!(one, two);
}

#[test]
fn registry_keeps_insertion_order_and_classes() {
    let body = el(
        "body",
        &[],
        vec![
            child(el("h1", &["first"], vec![text("one")])),
            child(el("button", &["second"], vec![text("two")])),
        ],
    );
    let page = build(body);
    assert_eq!(page.records.len(), 2);
    assert_eq!(page.records[0].classes, vec!["first".to_string()]);
    assert_eq!(page.records[1].classes, vec!["second".to_string()]);
    assert!(page.records[0].handle < page.records[1].handle);
}

#[test]
fn div_registers_before_its_children() {
    let body = el(
        "body",
        &[],
        vec![child(el("div", &["outer"], vec![child(el(
            "button",
            &["inner"],
            vec![text("hi")],
        ))]))],
    );
    let page = build(body);
    assert_eq!(page.records[0].classes, vec!["outer".to_string()]);
    assert_eq!(page.records[1].classes, vec!["inner".to_string()]);
    let div_idx = page.records[0].handle;
    let button_idx = page.records[1].handle;
    assert_eq!(page.widgets[button_idx].parent, Some(div_idx));
}

#[test]
fn paragraph_collects_text_and_inline_anchor() {
    let body = el(
        "body",
        &[],
        vec![child(el("p", &[], vec![
            text("read "),
            child(el_attr("a", &[("href", "buss://docs.web")], vec![text("this")])),
        ]))],
    );
    let page = build(body);
    // root, paragraph row, text label, link
    assert_eq!(page.widgets.len(), 4);
    assert!(matches!(page.widgets[2].kind, WidgetKind::Label));
    assert_eq!(page.widgets[2].text, "read ");
    assert!(matches!(page.widgets[3].kind, WidgetKind::Link));
    assert_eq!(page.widgets[3].href, "buss://docs.web");
    assert_eq!(page.widgets[3].text, "this");
}

#[test]
fn anchor_without_href_is_logged_and_skipped() {
    let body = el("body", &[], vec![child(el("a", &[], vec![text("dead")]))]);
    let page = build(body);
    assert_eq!(page.widgets.len(), 1);
    assert!(page.records.is_empty());
    assert!(page.log.iter().any(|e| e.message.contains("href")));
}

#[test]
fn unknown_tag_is_logged_and_siblings_continue() {
    let body = el(
        "body",
        &[],
        vec![
            child(el("blink", &[], vec![])),
            child(el("button", &["b"], vec![text("still here")])),
        ],
    );
    let page = build(body);
    assert!(page.log.iter().any(|e| e.message == "Unknown element: blink"));
    assert_eq!(page.records.len(), 1);
    assert_eq!(page.widgets[page.records[0].handle].text, "still here");
}

#[test]
fn inline_image_with_invalid_base64_logs_error_and_stays_empty() {
    // A data: image whose payload is not base64 yields the empty
    // placeholder image and an error log entry, not a crash.
    let body = el(
        "body",
        &[],
        vec![child(el_attr("img", &[("src", "data:image/png;base64,!!!!")], vec![]))],
    );
    let page = build(body);
    assert_eq!(page.records.len(), 1);
    let img = &page.widgets[page.records[0].handle];
    assert!(matches!(img.kind, WidgetKind::Image));
    assert!(img.image.is_empty());
    assert!(!img.pending_fetch);
    assert!(page.log.iter().any(
        |e| matches!(e.level, LogLevel::Error) && e.message.contains("decode"),
    ));
}

#[test]
fn inline_image_with_valid_base64_decodes() {
    let body = el(
        "body",
        &[],
        vec![child(el_attr("img", &[("src", "data:text/plain;base64,aGk=")], vec![]))],
    );
    let page = build(body);
    let img = &page.widgets[page.records[0].handle];
    assert_eq!(img.image, vec![b'h', b'i']);
    assert!(page.log.is_empty());
}

#[test]
fn remote_image_waits_for_the_fetch_layer() {
    let body = el(
        "body",
        &[],
        vec![child(el_attr("img", &[("src", "https://pics.example/cat.png")], vec![]))],
    );
    let page = build(body);
    let img = &page.widgets[page.records[0].handle];
    assert!(img.pending_fetch);
    assert_eq!(img.source, "https://pics.example/cat.png");
}

#[test]
fn select_collects_option_texts() {
    let body = el(
        "body",
        &[],
        vec![child(el("select", &[], vec![
            child(el("option", &[], vec![text("red")])),
            child(el("option", &[], vec![text("blue")])),
        ]))],
    );
    let page = build(body);
    let select = &page.widgets[page.records[0].handle];
    assert_eq!(select.options, vec!["red".to_string(), "blue".to_string()]);
}

#[test]
fn only_text_inputs_render() {
    let body = el(
        "body",
        &[],
        vec![
            child(el_attr("input", &[("type", "checkbox")], vec![])),
            child(el_attr("input", &[("placeholder", "name")], vec![])),
        ],
    );
    let page = build(body);
    assert_eq!(page.records.len(), 1);
    let input = &page.widgets[page.records[0].handle];
    assert!(matches!(input.kind, WidgetKind::TextInput));
    assert_eq!(input.placeholder, "name");
}

#[test]
fn styling_is_applied_at_build_time() {
    let mut store = RuleStore::new();
    assert!(store.add_sheet("p {\ncolor: red;\n}\n.warn {\ncolor: yellow;\nopacity: 0.5;\n}\n"));
    let body = el("body", &[], vec![child(el("p", &["warn"], vec![text("hi")]))]);
    let mut page = Page::new();
    build_body(&mut page, &store, &body);
    let label = &page.widgets[page.records[0].handle];
    assert_eq!(label.props.color, "yellow");
    assert_eq!(label.opacity, 500);
}

#[test]
fn template_binder_reads_placeholders() {
    let body = el(
        "body",
        &[],
        vec![child(el("button", &["b"], vec![text("Hello { name } and {city}!")]))],
    );
    let mut page = build(body);
    page.bind_templates();
    assert_eq!(
        page.records[0].tied_variables,
        vec!["name".to_string(), "city".to_string()],
    );
}

#[test]
fn head_pass_collects_title_sheets_icons_and_first_script() {
    let head = el(
        "head",
        &[],
        vec![
            child(el("title", &[], vec![text("My page")])),
            child(el_attr("link", &[("href", "styles.css")], vec![])),
            child(el_attr("link", &[("href", "icon.png")], vec![])),
            child(el_attr("script", &[("src", "main.lua")], vec![])),
            child(el_attr("script", &[("src", "late.lua")], vec![])),
            child(el("meta", &[], vec![])),
        ],
    );
    let mut page = Page::new();
    let plan = scan_head(&mut page, &head);
    assert_eq!(plan.title, Some("My page".to_string()));
    assert_eq!(plan.stylesheets, vec!["styles.css".to_string()]);
    assert_eq!(plan.icons, vec!["icon.png".to_string()]);
    assert_eq!(plan.script_src, Some("main.lua".to_string()));
    assert!(page.log.iter().any(|e| e.message.contains("meta")));
}
