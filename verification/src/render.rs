//! Render tree builder: walks the parsed document depth-first, maps each
//! supported tag to one UI primitive, applies resolved styling, attaches the
//! primitive to its parent container and records it in the element registry.
//!
//! Every primitive is appended to the arena in creation order; an element is
//! registered in pre-order, before its children.  Children attach directly
//! to their parent container.  An unknown tag, or a required attribute that
//! is missing, is logged and skipped; the siblings are still processed.

use vstd::prelude::*;

use crate::dom::{
    first_text, lemma_forest_member_size, spec_attr, spec_first_text, spec_forest_size,
    spec_tree_size, Node, NodeChild,
};
use crate::page::{
    ElementRecord, LogEntryModel, LogLevel, Page, PageModel, RecordModel, Widget, WidgetKind,
    WidgetModel,
};
use crate::resource::{resolve_image_data, spec_image_data, ImageData, ImageDataModel};
use crate::style::{spec_resolve, RuleStore};
use crate::text::{clone_strings, format_usize, spec_numeral, str_eq};

verus! {

/// A freshly created primitive: styled, visible, attached to its parent,
/// with no content yet.
pub open spec fn spec_widget_base(
    kind: WidgetKind,
    tag: Seq<char>,
    classes: Seq<Seq<char>>,
    rules: Seq<crate::parser::RuleModel>,
    parent: int,
) -> WidgetModel {
    WidgetModel {
        kind,
        tag,
        classes,
        text: Seq::empty(),
        href: Seq::empty(),
        source: Seq::empty(),
        image: Seq::empty(),
        pending_fetch: false,
        options: Seq::empty(),
        placeholder: Seq::empty(),
        visible: true,
        opacity: spec_resolve(rules, tag, classes).opacity,
        props: spec_resolve(rules, tag, classes),
        parent: Some(parent),
        detached: false,
        handlers: Seq::empty(),
    }
}

/// The page with one more primitive.
pub open spec fn spec_add_widget(p: PageModel, w: WidgetModel) -> PageModel {
    PageModel { widgets: p.widgets.push(w), ..p }
}

/// The page with one more primitive, registered: the registry entry carries
/// the primitive's class list and arena index.
pub open spec fn spec_add_registered(p: PageModel, w: WidgetModel) -> PageModel {
    PageModel {
        widgets: p.widgets.push(w),
        records: p.records.push(
            RecordModel {
                classes: w.classes,
                handle: p.widgets.len() as int,
                tied_variables: Seq::empty(),
            },
        ),
        ..p
    }
}

/// The page with one more diagnostics entry.
pub open spec fn spec_add_log(p: PageModel, level: LogLevel, message: Seq<char>) -> PageModel {
    PageModel { log: p.log.push(LogEntryModel { level, message }), ..p }
}

/// The heading tags.
pub open spec fn spec_is_heading(tag: Seq<char>) -> bool {
    tag == "h1"@ || tag == "h2"@ || tag == "h3"@ || tag == "h4"@ || tag == "h5"@ || tag == "h6"@
}

/// The option texts of a choice list, in order.
pub open spec fn spec_select_options(cs: Seq<NodeChild>) -> Seq<Seq<char>>
    decreases cs.len(),
{
    if cs.len() == 0 {
        Seq::empty()
    } else {
        let rest = spec_select_options(cs.skip(1));
        match cs[0] {
            NodeChild::Element(el) => if el.tag@ == "option"@ {
                seq![spec_first_text(el.children@)] + rest
            } else {
                rest
            },
            _ => rest,
        }
    }
}

/// An anchor: a link primitive labeled from the first text child, pointed
/// at the `href` attribute; without that attribute the anchor is logged and
/// skipped.
pub open spec fn spec_render_anchor(
    p: PageModel,
    rules: Seq<crate::parser::RuleModel>,
    parent: int,
    n: Node,
) -> PageModel {
    match spec_attr(n.attributes@, "href"@) {
        None => spec_add_log(p, LogLevel::Info, "<a> tag must have a href attribute"@),
        Some(href) => spec_add_registered(
            p,
            WidgetModel {
                text: spec_first_text(n.children@),
                href,
                ..spec_widget_base(
                    WidgetKind::Link,
                    n.tag@,
                    n.classes.deep_view(),
                    rules,
                    parent,
                )
            },
        ),
    }
}

/// The lead label text of one list row: a bullet, or the one-based ordinal.
pub open spec fn spec_lead_text(ordered: bool, k: nat) -> Seq<char> {
    if ordered {
        spec_numeral(k) + ". "@
    } else {
        "\u{2022} "@
    }
}

/// The list rows: each `li` child becomes a row holding a generated lead
/// label and the item's text, the item label registered; anything else in
/// the list is logged and skipped, or vanishes when it is no element.  `k`
/// is the one-based ordinal of the next item, counting `li` rows alone.
pub open spec fn spec_render_list_items(
    p: PageModel,
    rules: Seq<crate::parser::RuleModel>,
    list_idx: int,
    ordered: bool,
    cs: Seq<NodeChild>,
    k: nat,
) -> PageModel
    decreases cs.len(),
{
    if cs.len() == 0 {
        p
    } else {
        let stepped = match cs[0] {
            NodeChild::Element(el) => if el.tag@ == "li"@ {
                let row_idx = p.widgets.len() as int;
                let p1 = spec_add_widget(
                    p,
                    spec_widget_base(
                        WidgetKind::Container,
                        el.tag@,
                        Seq::empty(),
                        rules,
                        list_idx,
                    ),
                );
                let p2 = spec_add_widget(
                    p1,
                    WidgetModel {
                        text: spec_lead_text(ordered, k),
                        ..spec_widget_base(
                            WidgetKind::Label,
                            el.tag@,
                            seq!["lead"@],
                            rules,
                            row_idx,
                        )
                    },
                );
                let p3 = spec_add_registered(
                    p2,
                    WidgetModel {
                        text: spec_first_text(el.children@),
                        ..spec_widget_base(
                            WidgetKind::Label,
                            el.tag@,
                            el.classes.deep_view(),
                            rules,
                            row_idx,
                        )
                    },
                );
                (p3, k + 1)
            } else {
                (spec_add_log(p, LogLevel::Info, "Expected li inside ul/ol"@), k)
            },
            _ => (p, k),
        };
        spec_render_list_items(stepped.0, rules, list_idx, ordered, cs.skip(1), stepped.1)
    }
}

/// The children of a paragraph: text runs become labels in the paragraph's
/// row, nested anchors become links in the row, any other element renders
/// as a block beside the paragraph, and comments vanish.
pub open spec fn spec_render_paragraph_items(
    p: PageModel,
    rules: Seq<crate::parser::RuleModel>,
    row_idx: int,
    outer: int,
    tag: Seq<char>,
    classes: Seq<Seq<char>>,
    cs: Seq<NodeChild>,
) -> PageModel
    decreases cs, 0nat,
{
    if cs.len() == 0 {
        p
    } else {
        let p1 = match cs[0] {
            NodeChild::Text(t) => spec_add_registered(
                p,
                WidgetModel {
                    text: t@,
                    ..spec_widget_base(WidgetKind::Label, tag, classes, rules, row_idx)
                },
            ),
            NodeChild::Element(el) => if el.tag@ == "a"@ {
                spec_render_anchor(p, rules, row_idx, el)
            } else {
                spec_render_node(p, rules, outer, el)
            },
            NodeChild::Comment(_) => p,
        };
        spec_render_paragraph_items(p1, rules, row_idx, outer, tag, classes, cs.skip(1))
    }
}

/// The element children of a container, rendered in order; text and
/// comments between them vanish.
pub open spec fn spec_render_elem_children(
    p: PageModel,
    rules: Seq<crate::parser::RuleModel>,
    parent: int,
    cs: Seq<NodeChild>,
) -> PageModel
    decreases cs, 0nat,
{
    if cs.len() == 0 {
        p
    } else {
        let p1 = match cs[0] {
            NodeChild::Element(el) => spec_render_node(p, rules, parent, el),
            _ => p,
        };
        spec_render_elem_children(p1, rules, parent, cs.skip(1))
    }
}

/// One element rendered under its parent container: the tag dispatch of the
/// render tree builder.
pub open spec fn spec_render_node(
    p: PageModel,
    rules: Seq<crate::parser::RuleModel>,
    parent: int,
    n: Node,
) -> PageModel
    decreases n, 1nat,
{
    let tag = n.tag@;
    let classes = n.classes.deep_view();
    if tag == "div"@ {
        let idx = p.widgets.len() as int;
        let p1 = spec_add_registered(
            p,
            spec_widget_base(WidgetKind::Container, tag, classes, rules, parent),
        );
        spec_render_elem_children(p1, rules, idx, n.children@)
    } else if spec_is_heading(tag) {
        if n.children@.len() > 0 {
            match n.children@[0] {
                NodeChild::Text(t) => spec_add_registered(
                    p,
                    WidgetModel {
                        text: t@,
                        ..spec_widget_base(WidgetKind::Label, tag, classes, rules, parent)
                    },
                ),
                NodeChild::Element(el) => spec_render_node(p, rules, parent, el),
                NodeChild::Comment(_) => p,
            }
        } else {
            p
        }
    } else if tag == "p"@ {
        let row_idx = p.widgets.len() as int;
        let p1 = spec_add_widget(
            p,
            spec_widget_base(WidgetKind::Container, tag, classes, rules, parent),
        );
        if n.children@.len() == 0 {
            spec_add_registered(
                p1,
                spec_widget_base(WidgetKind::Label, tag, classes, rules, row_idx),
            )
        } else {
            spec_render_paragraph_items(p1, rules, row_idx, parent, tag, classes, n.children@)
        }
    } else if tag == "a"@ {
        spec_render_anchor(p, rules, parent, n)
    } else if tag == "ul"@ || tag == "ol"@ {
        let idx = p.widgets.len() as int;
        let p1 = spec_add_registered(
            p,
            spec_widget_base(WidgetKind::List, tag, classes, rules, parent),
        );
        spec_render_list_items(p1, rules, idx, tag == "ol"@, n.children@, 1)
    } else if tag == "hr"@ {
        spec_add_registered(p, spec_widget_base(WidgetKind::Divider, tag, classes, rules, parent))
    } else if tag == "img"@ {
        match spec_attr(n.attributes@, "src"@) {
            None => spec_add_log(p, LogLevel::Info, "<img> tag must have a src attribute"@),
            Some(src) => {
                let (data, malformed) = spec_image_data(src);
                let w = match data {
                    ImageDataModel::Inline(bytes) => WidgetModel {
                        source: src,
                        image: bytes,
                        ..spec_widget_base(WidgetKind::Image, tag, classes, rules, parent)
                    },
                    ImageDataModel::Fetched(u) => WidgetModel {
                        source: u,
                        pending_fetch: true,
                        ..spec_widget_base(WidgetKind::Image, tag, classes, rules, parent)
                    },
                };
                let p1 = spec_add_registered(p, w);
                if malformed {
                    spec_add_log(p1, LogLevel::Error, "Failed to decode image data"@)
                } else {
                    p1
                }
            },
        }
    } else if tag == "video"@ || tag == "audio"@ {
        match spec_attr(n.attributes@, "src"@) {
            None => spec_add_log(
                p,
                LogLevel::Info,
                if tag == "video"@ {
                    "<video> tag must have a src attribute"@
                } else {
                    "<audio> tag must have a src attribute"@
                },
            ),
            Some(src) => spec_add_registered(
                p,
                WidgetModel {
                    source: src,
                    ..spec_widget_base(WidgetKind::Media, tag, classes, rules, parent)
                },
            ),
        }
    } else if tag == "input"@ {
        let input_type = match spec_attr(n.attributes@, "type"@) {
            None => "text"@,
            Some(t) => t,
        };
        if input_type == "text"@ {
            let placeholder = match spec_attr(n.attributes@, "placeholder"@) {
                None => Seq::empty(),
                Some(v) => v,
            };
            spec_add_registered(
                p,
                WidgetModel {
                    placeholder,
                    ..spec_widget_base(WidgetKind::TextInput, tag, classes, rules, parent)
                },
            )
        } else {
            p
        }
    } else if tag == "select"@ {
        spec_add_registered(
            p,
            WidgetModel {
                options: spec_select_options(n.children@),
                ..spec_widget_base(WidgetKind::Select, tag, classes, rules, parent)
            },
        )
    } else if tag == "textarea"@ {
        spec_add_registered(
            p,
            WidgetModel {
                text: spec_first_text(n.children@),
                ..spec_widget_base(WidgetKind::TextArea, tag, classes, rules, parent)
            },
        )
    } else if tag == "button"@ {
        spec_add_registered(
            p,
            WidgetModel {
                text: spec_first_text(n.children@),
                ..spec_widget_base(WidgetKind::Button, tag, classes, rules, parent)
            },
        )
    } else {
        spec_add_log(p, LogLevel::Info, "Unknown element: "@ + tag)
    }
}

/// The whole body rendered onto a page: a root container for the body, the
/// body's element children under it.
pub open spec fn spec_build_body(
    p: PageModel,
    rules: Seq<crate::parser::RuleModel>,
    body: Node,
) -> PageModel {
    let root = p.widgets.len() as int;
    let p1 = PageModel {
        widgets: p.widgets.push(
            WidgetModel {
                parent: None,
                ..spec_widget_base(WidgetKind::Container, "body"@, seq!["body"@], rules, 0)
            },
        ),
        ..p
    };
    spec_render_elem_children(p1, rules, root, body.children@)
}

/// Determinism: identical markup and stylesheet input produce identical
/// results across repeated builds — the same arena, the same registry order
/// and count, the same resolved property sets.  The page a build yields is
/// a function of the starting page, the rules and the body alone, so two
/// builds from the same inputs agree exactly.
pub proof fn lemma_build_deterministic(
    p: PageModel,
    rules: Seq<crate::parser::RuleModel>,
    body: Node,
    r1: PageModel,
    r2: PageModel,
)
    requires
        r1 == spec_build_body(p, rules, body),
        r2 == spec_build_body(p, rules, body),
    ensures
        r1 == r2,
{
}

/// Appends one primitive to the arena and returns its index.
fn add_widget(page: &mut Page, w: Widget) -> (idx: usize)
    ensures
        final(page)@ == spec_add_widget(old(page)@, w@),
        idx as int == old(page)@.widgets.len(),
{
    let ghost before = page@;
    let idx = page.widgets.len();
    page.widgets.push(w);
    proof {
        assert(page@.widgets.len() == before.widgets.len() + 1);
        assert(forall|t: int|
            0 <= t < before.widgets.len() ==> page@.widgets[t] == before.widgets[t]);
        assert(page@.widgets[before.widgets.len() as int] == w@);
        assert(page@.widgets =~= before.widgets.push(w@));
        assert(page@.records =~= before.records);
        assert(page@.log =~= before.log);
        assert(page@ =~= spec_add_widget(before, w@));
    }
    idx
}

/// Appends one primitive and registers it: the new registry entry carries
/// the primitive's class list and arena index.
fn add_registered(page: &mut Page, w: Widget) -> (idx: usize)
    ensures
        final(page)@ == spec_add_registered(old(page)@, w@),
        idx as int == old(page)@.widgets.len(),
{
    let ghost before = page@;
    let classes = clone_strings(&w.classes);
    let ghost wv = w@;
    let idx = add_widget(page, w);
    let ghost mid = page@;
    let record = ElementRecord { classes, handle: idx, tied_variables: Vec::new() };
    proof {
        assert(record@.classes == wv.classes);
        assert(record@.tied_variables =~= Seq::<Seq<char>>::empty());
        assert(record@ =~= (RecordModel {
            classes: wv.classes,
            handle: before.widgets.len() as int,
            tied_variables: Seq::empty(),
        }));
    }
    page.records.push(record);
    proof {
        assert(page@.records.len() == mid.records.len() + 1);
        assert(forall|t: int|
            0 <= t < mid.records.len() ==> page@.records[t] == mid.records[t]);
        assert(page@.records[mid.records.len() as int] == record@);
        assert(page@.records =~= before.records.push(
            RecordModel {
                classes: wv.classes,
                handle: before.widgets.len() as int,
                tied_variables: Seq::empty(),
            },
        ));
        assert(page@.widgets =~= mid.widgets);
        assert(page@.log =~= before.log);
        assert(page@ =~= spec_add_registered(before, wv));
    }
    idx
}

/// Appends one diagnostics entry.
fn add_log(page: &mut Page, level: LogLevel, message: String)
    ensures
        final(page)@ == spec_add_log(old(page)@, level, message@),
{
    let ghost before = page@;
    page.log_message(level, message);
    proof {
        assert(page@ =~= spec_add_log(before, level, message@));
    }
}

/// Creates one styled, visible, empty primitive under a parent container.
fn make_widget(
    kind: WidgetKind,
    tag: &str,
    classes: &Vec<String>,
    store: &RuleStore,
    parent: usize,
) -> (w: Widget)
    ensures
        w@ == spec_widget_base(kind, tag@, classes.deep_view(), store@, parent as int),
{
    let props = store.resolve(tag, classes);
    let opacity = props.opacity;
    let w = Widget {
        kind,
        tag: tag.to_owned(),
        classes: clone_strings(classes),
        text: String::new(),
        href: String::new(),
        source: String::new(),
        image: Vec::new(),
        pending_fetch: false,
        options: Vec::new(),
        placeholder: String::new(),
        visible: true,
        opacity,
        props,
        parent: Some(parent),
        detached: false,
        handlers: Vec::new(),
    };
    proof {
        assert(w@.image =~= Seq::<u8>::empty());
        assert(w@.options =~= Seq::<Seq<char>>::empty());
        assert(w@.handlers =~= Seq::<(crate::page::Event, u64)>::empty());
        assert(w@ =~= spec_widget_base(kind, tag@, classes.deep_view(), store@, parent as int));
    }
    w
}

/// The option texts of a choice list, in order.
fn select_options(children: &Vec<NodeChild>) -> (r: Vec<String>)
    ensures
        r.deep_view() == spec_select_options(children@),
{
    let ghost cs = children@;
    let mut r: Vec<String> = Vec::new();
    let mut i: usize = 0;
    proof {
        assert(cs.skip(0) =~= cs);
        assert(r.deep_view() =~= Seq::<Seq<char>>::empty());
    }
    while i < children.len()
        invariant
            i <= children.len(),
            cs == children@,
            spec_select_options(cs) =~= r.deep_view() + spec_select_options(cs.skip(i as int)),
        decreases children.len() - i,
    {
        proof {
            assert(cs.skip(i as int)[0] == cs[i as int]);
            assert(cs.skip(i as int).skip(1) =~= cs.skip(i as int + 1));
        }
        match &children[i] {
            NodeChild::Element(el) => {
                if str_eq(el.tag.as_str(), "option") {
                    let text = first_text(&el.children);
                    let ghost r_before = r.deep_view();
                    proof {
                        assert(r@.len() == r_before.len());
                    }
                    r.push(text);
                    proof {
                        assert(r.deep_view().len() == r_before.len() + 1);
                        assert(forall|t: int|
                            0 <= t < r_before.len() ==> r.deep_view()[t] == r_before[t]);
                        assert(r.deep_view()[r_before.len() as int] == spec_first_text(
                            el.children@,
                        ));
                        assert(r.deep_view() =~= r_before.push(spec_first_text(el.children@)));
                        assert(r.deep_view() + spec_select_options(cs.skip(i as int + 1)) =~= (
                        r_before + spec_select_options(cs.skip(i as int))));
                    }
                }
            },
            _ => {},
        }
        i = i + 1;
    }
    proof {
        assert(cs.skip(children.len() as int) =~= Seq::<NodeChild>::empty());
        assert(r.deep_view() =~= spec_select_options(cs));
    }
    r
}

/// Renders an anchor: a link primitive labeled from its first text child,
/// pointed at its `href` attribute; without one it is logged and skipped.
fn render_anchor(page: &mut Page, store: &RuleStore, parent: usize, n: &Node)
    ensures
        final(page)@ == spec_render_anchor(old(page)@, store@, parent as int, *n),
{
    let href = match n.get_attribute("href") {
        None => {
            add_log(
                page,
                LogLevel::Info,
                String::from_str("<a> tag must have a href attribute"),
            );
            return ;
        },
        Some(h) => h.clone(),
    };
    let mut w = make_widget(WidgetKind::Link, n.tag.as_str(), &n.classes, store, parent);
    w.text = first_text(&n.children);
    w.href = href;
    proof {
        assert(w@ =~= (WidgetModel {
            text: spec_first_text(n.children@),
            href: w@.href,
            ..spec_widget_base(
                WidgetKind::Link,
                n.tag@,
                n.classes.deep_view(),
                store@,
                parent as int,
            )
        }));
    }
    let _ = add_registered(page, w);
}

/// Renders one element under its parent container: the tag dispatch of the
/// render tree builder.
pub fn render_node(page: &mut Page, store: &RuleStore, parent: usize, n: &Node)
    ensures
        final(page)@ == spec_render_node(old(page)@, store@, parent as int, *n),
    decreases spec_tree_size(*n), 0nat,
{
    let ghost p0 = page@;
    let ghost rules = store@;
    let ghost target = spec_render_node(p0, rules, parent as int, *n);
    let tag = n.tag.as_str();
    if str_eq(tag, "div") {
        let w = make_widget(WidgetKind::Container, tag, &n.classes, store, parent);
        let idx = add_registered(page, w);
        proof {
            assert(target == spec_render_elem_children(page@, rules, idx as int, n.children@));
        }
        render_elem_children(page, store, idx, &n.children);
    } else if str_eq(tag, "h1") || str_eq(tag, "h2") || str_eq(tag, "h3") || str_eq(tag, "h4")
        || str_eq(tag, "h5") || str_eq(tag, "h6") {
        if n.children.len() > 0 {
            match &n.children[0] {
                NodeChild::Text(t) => {
                    let mut w = make_widget(WidgetKind::Label, tag, &n.classes, store, parent);
                    w.text = t.clone();
                    proof {
                        assert(w@ =~= (WidgetModel {
                            text: t@,
                            ..spec_widget_base(
                                WidgetKind::Label,
                                n.tag@,
                                n.classes.deep_view(),
                                rules,
                                parent as int,
                            )
                        }));
                    }
                    let _ = add_registered(page, w);
                },
                NodeChild::Element(el) => {
                    proof {
                        lemma_forest_member_size(n.children@, 0);
                        assert(n.children@[0] == NodeChild::Element(*el));
                        assert(crate::dom::spec_child_size(n.children@[0]) == spec_tree_size(
                            *el,
                        ));
                        assert(spec_tree_size(*el) < spec_tree_size(*n));
                    }
                    render_node(page, store, parent, el);
                },
                NodeChild::Comment(_) => {},
            }
        }
    } else if str_eq(tag, "p") {
        let w_row = make_widget(WidgetKind::Container, tag, &n.classes, store, parent);
        let row_idx = add_widget(page, w_row);
        if n.children.len() == 0 {
            let w = make_widget(WidgetKind::Label, tag, &n.classes, store, row_idx);
            let _ = add_registered(page, w);
        } else {
            let ghost cs = n.children@;
            let mut i: usize = 0;
            proof {
                assert(cs.skip(0) =~= cs);
            }
            while i < n.children.len()
                invariant
                    i <= n.children.len(),
                    cs == n.children@,
                    tag@ == n.tag@,
                    spec_forest_size(cs) < spec_tree_size(*n),
                    rules == store@,
                    target == spec_render_paragraph_items(
                        page@,
                        rules,
                        row_idx as int,
                        parent as int,
                        n.tag@,
                        n.classes.deep_view(),
                        cs.skip(i as int),
                    ),
                decreases n.children.len() - i,
            {
                proof {
                    assert(cs.skip(i as int)[0] == cs[i as int]);
                    assert(cs.skip(i as int).skip(1) =~= cs.skip(i as int + 1));
                }
                match &n.children[i] {
                    NodeChild::Text(t) => {
                        let mut w = make_widget(
                            WidgetKind::Label,
                            tag,
                            &n.classes,
                            store,
                            row_idx,
                        );
                        w.text = t.clone();
                        proof {
                            assert(w@ =~= (WidgetModel {
                                text: t@,
                                ..spec_widget_base(
                                    WidgetKind::Label,
                                    n.tag@,
                                    n.classes.deep_view(),
                                    rules,
                                    row_idx as int,
                                )
                            }));
                        }
                        let _ = add_registered(page, w);
                    },
                    NodeChild::Element(el) => {
                        if str_eq(el.tag.as_str(), "a") {
                            render_anchor(page, store, row_idx, el);
                        } else {
                            proof {
                                lemma_forest_member_size(cs, i as int);
                                assert(cs[i as int] == NodeChild::Element(*el));
                                assert(crate::dom::spec_child_size(cs[i as int])
                                    == spec_tree_size(*el));
                                assert(spec_tree_size(*el) < spec_tree_size(*n));
                            }
                            render_node(page, store, parent, el);
                        }
                    },
                    NodeChild::Comment(_) => {},
                }
                i = i + 1;
            }
            proof {
                assert(cs.skip(n.children.len() as int) =~= Seq::<NodeChild>::empty());
            }
        }
    } else if str_eq(tag, "a") {
        render_anchor(page, store, parent, n);
    } else if str_eq(tag, "ul") || str_eq(tag, "ol") {
        let ordered = str_eq(tag, "ol");
        let w = make_widget(WidgetKind::List, tag, &n.classes, store, parent);
        let idx = add_registered(page, w);
        let ghost cs = n.children@;
        let mut i: usize = 0;
        let mut items_done: usize = 0;
        proof {
            assert(cs.skip(0) =~= cs);
            assert(target == spec_render_list_items(page@, rules, idx as int, ordered, cs, 1));
        }
        while i < n.children.len()
            invariant
                i <= n.children.len(),
                items_done <= i,
                cs == n.children@,
                rules == store@,
                target == spec_render_list_items(
                    page@,
                    rules,
                    idx as int,
                    ordered,
                    cs.skip(i as int),
                    items_done as nat + 1,
                ),
            decreases n.children.len() - i,
        {
            proof {
                assert(cs.skip(i as int)[0] == cs[i as int]);
                assert(cs.skip(i as int).skip(1) =~= cs.skip(i as int + 1));
            }
            match &n.children[i] {
                NodeChild::Element(el) => {
                    if str_eq(el.tag.as_str(), "li") {
                        let no_classes: Vec<String> = Vec::new();
                        proof {
                            assert(no_classes.deep_view() =~= Seq::<Seq<char>>::empty());
                        }
                        let row = make_widget(
                            WidgetKind::Container,
                            el.tag.as_str(),
                            &no_classes,
                            store,
                            idx,
                        );
                        let row_idx = add_widget(page, row);
                        let mut lead_classes: Vec<String> = Vec::new();
                        lead_classes.push(String::from_str("lead"));
                        proof {
                            assert(lead_classes.deep_view() =~= seq!["lead"@]);
                        }
                        let mut lead = make_widget(
                            WidgetKind::Label,
                            el.tag.as_str(),
                            &lead_classes,
                            store,
                            row_idx,
                        );
                        lead.text = if ordered {
                            let mut s = format_usize(items_done + 1);
                            s.append(". ");
                            proof {
                                assert(s@ == spec_lead_text(true, items_done as nat + 1));
                            }
                            s
                        } else {
                            String::from_str("\u{2022} ")
                        };
                        proof {
                            assert(lead@ =~= (WidgetModel {
                                text: spec_lead_text(ordered, items_done as nat + 1),
                                ..spec_widget_base(
                                    WidgetKind::Label,
                                    el.tag@,
                                    seq!["lead"@],
                                    rules,
                                    row_idx as int,
                                )
                            }));
                        }
                        let _ = add_widget(page, lead);
                        let mut item = make_widget(
                            WidgetKind::Label,
                            el.tag.as_str(),
                            &el.classes,
                            store,
                            row_idx,
                        );
                        item.text = first_text(&el.children);
                        proof {
                            assert(item@ =~= (WidgetModel {
                                text: spec_first_text(el.children@),
                                ..spec_widget_base(
                                    WidgetKind::Label,
                                    el.tag@,
                                    el.classes.deep_view(),
                                    rules,
                                    row_idx as int,
                                )
                            }));
                        }
                        let _ = add_registered(page, item);
                        items_done = items_done + 1;
                    } else {
                        add_log(
                            page,
                            LogLevel::Info,
                            String::from_str("Expected li inside ul/ol"),
                        );
                    }
                },
                _ => {},
            }
            i = i + 1;
        }
        proof {
            assert(cs.skip(n.children.len() as int) =~= Seq::<NodeChild>::empty());
        }
    } else if str_eq(tag, "hr") {
        let w = make_widget(WidgetKind::Divider, tag, &n.classes, store, parent);
        let _ = add_registered(page, w);
    } else if str_eq(tag, "img") {
        match n.get_attribute("src") {
            None => {
                add_log(
                    page,
                    LogLevel::Info,
                    String::from_str("<img> tag must have a src attribute"),
                );
            },
            Some(src) => {
                let src_text = src.clone();
                let ghost srcv = src_text@;
                let ghost dm = spec_image_data(src_text@);
                let (data, malformed) = resolve_image_data(src_text.as_str());
                let mut w = make_widget(WidgetKind::Image, tag, &n.classes, store, parent);
                match data {
                    ImageData::Inline(bytes) => {
                        w.source = src_text;
                        w.image = bytes;
                    },
                    ImageData::Fetched(u) => {
                        w.source = u;
                        w.pending_fetch = true;
                    },
                }
                proof {
                    match dm.0 {
                        ImageDataModel::Inline(bytes) => {
                            assert(w@ =~= (WidgetModel {
                                source: srcv,
                                image: bytes,
                                ..spec_widget_base(
                                    WidgetKind::Image,
                                    n.tag@,
                                    n.classes.deep_view(),
                                    rules,
                                    parent as int,
                                )
                            }));
                        },
                        ImageDataModel::Fetched(u) => {
                            assert(w@ =~= (WidgetModel {
                                source: u,
                                pending_fetch: true,
                                ..spec_widget_base(
                                    WidgetKind::Image,
                                    n.tag@,
                                    n.classes.deep_view(),
                                    rules,
                                    parent as int,
                                )
                            }));
                        },
                    }
                }
                let _ = add_registered(page, w);
                if malformed {
                    add_log(
                        page,
                        LogLevel::Error,
                        String::from_str("Failed to decode image data"),
                    );
                }
            },
        }
    } else if str_eq(tag, "video") || str_eq(tag, "audio") {
        match n.get_attribute("src") {
            None => {
                let message = if str_eq(tag, "video") {
                    String::from_str("<video> tag must have a src attribute")
                } else {
                    String::from_str("<audio> tag must have a src attribute")
                };
                add_log(page, LogLevel::Info, message);
            },
            Some(src) => {
                let src_text = src.clone();
                let mut w = make_widget(WidgetKind::Media, tag, &n.classes, store, parent);
                w.source = src_text;
                let _ = add_registered(page, w);
            },
        }
    } else if str_eq(tag, "input") {
        let is_text = match n.get_attribute("type") {
            None => true,
            Some(t) => str_eq(t.as_str(), "text"),
        };
        if is_text {
            let placeholder = match n.get_attribute("placeholder") {
                None => String::new(),
                Some(v) => v.clone(),
            };
            let mut w = make_widget(WidgetKind::TextInput, tag, &n.classes, store, parent);
            w.placeholder = placeholder;
            let _ = add_registered(page, w);
        }
    } else if str_eq(tag, "select") {
        let options = select_options(&n.children);
        let mut w = make_widget(WidgetKind::Select, tag, &n.classes, store, parent);
        w.options = options;
        let _ = add_registered(page, w);
    } else if str_eq(tag, "textarea") {
        let mut w = make_widget(WidgetKind::TextArea, tag, &n.classes, store, parent);
        w.text = first_text(&n.children);
        let _ = add_registered(page, w);
    } else if str_eq(tag, "button") {
        let mut w = make_widget(WidgetKind::Button, tag, &n.classes, store, parent);
        w.text = first_text(&n.children);
        let _ = add_registered(page, w);
    } else {
        let mut message = String::from_str("Unknown element: ");
        message.append(tag);
        add_log(page, LogLevel::Info, message);
    }
    proof {
        assert(page@ == target);
    }
}

/// Renders the element children of a container, in order; text and
/// comments between them vanish.
pub fn render_elem_children(
    page: &mut Page,
    store: &RuleStore,
    parent: usize,
    children: &Vec<NodeChild>,
)
    ensures
        final(page)@ == spec_render_elem_children(
            old(page)@,
            store@,
            parent as int,
            children@,
        ),
    decreases spec_forest_size(children@), 1nat,
{
    let ghost cs = children@;
    let ghost rules = store@;
    let ghost target = spec_render_elem_children(page@, rules, parent as int, cs);
    let mut i: usize = 0;
    proof {
        assert(cs.skip(0) =~= cs);
    }
    while i < children.len()
        invariant
            i <= children.len(),
            cs == children@,
            rules == store@,
            target == spec_render_elem_children(page@, rules, parent as int, cs.skip(i as int)),
        decreases children.len() - i,
    {
        proof {
            assert(cs.skip(i as int)[0] == cs[i as int]);
            assert(cs.skip(i as int).skip(1) =~= cs.skip(i as int + 1));
        }
        match &children[i] {
            NodeChild::Element(el) => {
                proof {
                    lemma_forest_member_size(cs, i as int);
                    assert(cs[i as int] == NodeChild::Element(*el));
                    assert(crate::dom::spec_child_size(cs[i as int]) == spec_tree_size(*el));
                }
                render_node(page, store, parent, el);
            },
            _ => {},
        }
        i = i + 1;
    }
    proof {
        assert(cs.skip(children.len() as int) =~= Seq::<NodeChild>::empty());
    }
}

/// Builds the whole body onto a page: a root container for the body, the
/// body's element children under it, every primitive styled and the
/// supported ones registered.
pub fn build_body(page: &mut Page, store: &RuleStore, body: &Node)
    ensures
        final(page)@ == spec_build_body(old(page)@, store@, *body),
{
    let mut body_classes: Vec<String> = Vec::new();
    body_classes.push(String::from_str("body"));
    proof {
        assert(body_classes.deep_view() =~= seq!["body"@]);
    }
    let mut w = make_widget(WidgetKind::Container, "body", &body_classes, store, 0);
    w.parent = None;
    let root = add_widget(page, w);
    render_elem_children(page, store, root, &body.children);
}

/// What the head pass decides: the document's display label, the icon and
/// stylesheet references to fetch, and the first script's address, whose
/// evaluation is deferred until the body tree is complete.
pub struct HeadPlan {
    pub title: Option<String>,
    pub icons: Vec<String>,
    pub stylesheets: Vec<String>,
    pub script_src: Option<String>,
}

/// Mathematical model of a [`HeadPlan`].
#[verifier::ext_equal]
pub struct HeadPlanModel {
    pub title: Option<Seq<char>>,
    pub icons: Seq<Seq<char>>,
    pub stylesheets: Seq<Seq<char>>,
    pub script_src: Option<Seq<char>>,
}

impl View for HeadPlan {
    type V = HeadPlanModel;

    open spec fn view(&self) -> HeadPlanModel {
        HeadPlanModel {
            title: match &self.title {
                None => None,
                Some(t) => Some(t@),
            },
            icons: self.icons.deep_view(),
            stylesheets: self.stylesheets.deep_view(),
            script_src: match &self.script_src {
                None => None,
                Some(s) => Some(s@),
            },
        }
    }
}

/// The empty head plan.
pub open spec fn spec_head_plan_empty() -> HeadPlanModel {
    HeadPlanModel { title: None, icons: Seq::empty(), stylesheets: Seq::empty(), script_src: None }
}

/// One head element processed: `title` sets the display label (the last
/// one wins); `link` queues an icon (by its `.png` or `.jpg` extension) or
/// a stylesheet; the first `script` with a `src` is recorded; anything else
/// is logged.
pub open spec fn spec_scan_one(p: PageModel, plan: HeadPlanModel, el: Node) -> (
    PageModel,
    HeadPlanModel,
) {
    if el.tag@ == "title"@ {
        (p, HeadPlanModel { title: Some(spec_first_text(el.children@)), ..plan })
    } else if el.tag@ == "link"@ {
        match spec_attr(el.attributes@, "href"@) {
            None => (p, plan),
            Some(href) => if crate::text::spec_ends_with(href, ".png"@)
                || crate::text::spec_ends_with(href, ".jpg"@) {
                (p, HeadPlanModel { icons: plan.icons.push(href), ..plan })
            } else {
                (p, HeadPlanModel { stylesheets: plan.stylesheets.push(href), ..plan })
            },
        }
    } else if el.tag@ == "script"@ {
        if plan.script_src is None {
            match spec_attr(el.attributes@, "src"@) {
                None => (p, plan),
                Some(src) => (p, HeadPlanModel { script_src: Some(src), ..plan }),
            }
        } else {
            (p, plan)
        }
    } else {
        (spec_add_log(p, LogLevel::Info, "Unknown head element: "@ + el.tag@), plan)
    }
}

/// The head's element children processed in order.
pub open spec fn spec_scan_children(
    p: PageModel,
    plan: HeadPlanModel,
    cs: Seq<NodeChild>,
) -> (PageModel, HeadPlanModel)
    decreases cs.len(),
{
    if cs.len() == 0 {
        (p, plan)
    } else {
        let (p1, plan1) = match cs[0] {
            NodeChild::Element(el) => spec_scan_one(p, plan, el),
            _ => (p, plan),
        };
        spec_scan_children(p1, plan1, cs.skip(1))
    }
}

/// The head pass: walks the head's children and decides what the shell
/// must fetch and show, logging unknown head elements onto the page.
pub fn scan_head(page: &mut Page, head: &Node) -> (plan: HeadPlan)
    ensures
        (final(page)@, plan@) == spec_scan_children(
            old(page)@,
            spec_head_plan_empty(),
            head.children@,
        ),
{
    let mut plan = HeadPlan {
        title: None,
        icons: Vec::new(),
        stylesheets: Vec::new(),
        script_src: None,
    };
    proof {
        assert(plan@ =~= spec_head_plan_empty());
        assert(head.children@.skip(0) =~= head.children@);
    }
    let ghost cs = head.children@;
    let ghost target = spec_scan_children(page@, plan@, cs);
    let mut i: usize = 0;
    while i < head.children.len()
        invariant
            i <= head.children.len(),
            cs == head.children@,
            target == spec_scan_children(page@, plan@, cs.skip(i as int)),
        decreases head.children.len() - i,
    {
        proof {
            assert(cs.skip(i as int)[0] == cs[i as int]);
            assert(cs.skip(i as int).skip(1) =~= cs.skip(i as int + 1));
        }
        match &head.children[i] {
            NodeChild::Element(el) => {
                let tag = el.tag.as_str();
                if str_eq(tag, "title") {
                    plan.title = Some(first_text(&el.children));
                } else if str_eq(tag, "link") {
                    match el.get_attribute("href") {
                        None => {},
                        Some(href) => {
                            let href = href.clone();
                            let ghost hrefv = href@;
                            let is_icon = crate::text::ends_with(href.as_str(), ".png")
                                || crate::text::ends_with(href.as_str(), ".jpg");
                            if is_icon {
                                let ghost icons0 = plan.icons.deep_view();
                                proof {
                                    assert(plan.icons@.len() == icons0.len());
                                }
                                plan.icons.push(href);
                                proof {
                                    assert(forall|t: int|
                                        0 <= t < icons0.len() ==> plan.icons.deep_view()[t]
                                            == icons0[t]);
                                    assert(plan.icons.deep_view()[icons0.len() as int] == hrefv);
                                    assert(plan.icons.deep_view() =~= icons0.push(hrefv));
                                }
                            } else {
                                let ghost sheets0 = plan.stylesheets.deep_view();
                                proof {
                                    assert(plan.stylesheets@.len() == sheets0.len());
                                }
                                plan.stylesheets.push(href);
                                proof {
                                    assert(forall|t: int|
                                        0 <= t < sheets0.len() ==> plan.stylesheets.deep_view()[t]
                                            == sheets0[t]);
                                    assert(plan.stylesheets.deep_view()[sheets0.len() as int]
                                        == hrefv);
                                    assert(plan.stylesheets.deep_view() =~= sheets0.push(hrefv));
                                }
                            }
                        },
                    }
                } else if str_eq(tag, "script") {
                    if plan.script_src.is_none() {
                        match el.get_attribute("src") {
                            None => {},
                            Some(src) => {
                                plan.script_src = Some(src.clone());
                            },
                        }
                    }
                } else {
                    let mut message = String::from_str("Unknown head element: ");
                    message.append(tag);
                    add_log(page, LogLevel::Info, message);
                }
            },
            _ => {},
        }
        i = i + 1;
    }
    proof {
        assert(cs.skip(head.children.len() as int) =~= Seq::<NodeChild>::empty());
    }
    plan
}

} // verus!
