use webx::dom::{Node, NodeChild};
use webx::page::{Event, LogLevel, Page};
use webx::render::build_body;
use webx::resource::Route;
use webx::script::{
    link_activation, parse_query, plan_fetch, resolve_module, FetchMethod, FetchPlanError,
    LinkAction, TimeoutOutcome, TimerSet,
};
use webx::style::RuleStore;

fn el(tag: &str, classes: &[&str], children: Vec<NodeChild>) -> Node {
    Node {
        tag: tag.to_string(),
        attributes: Vec::new(),
        classes: classes.iter().map(|s| s.to_string()).collect(),
        children,
    }
}

fn text(t: &str) -> NodeChild {
    NodeChild::Text(t.to_string())
}

fn child(n: Node) -> NodeChild {
    NodeChild::Element(n)
}

fn button_page() -> Page {
    let body = el("body", &[], vec![child(el("button", &["b"], vec![text("Hi")]))]);
    let mut page = Page::new();
    build_body(&mut page, &RuleStore::new(), &body);
    page
}

#[test]
fn lookup_on_missing_class_errs_single_and_empties_multi() {
    // get("x") on a class nothing carries raises a lookup error;
    // get("x", true) on the same input returns an empty collection.
    let page = button_page();
    assert!(page.lookup_single("x").is_err());
    assert!(page.lookup_all("x").is_empty());
}

#[test]
fn lookup_finds_first_match_in_registry_order() {
    let body = el(
        "body",
        &[],
        vec![
            child(el("button", &["b"], vec![text("one")])),
            child(el("button", &["b"], vec![text("two")])),
        ],
    );
    let mut page = Page::new();
    build_body(&mut page, &RuleStore::new(), &body);
    let single = page.lookup_single("b").unwrap();
    assert_eq!(single, 0);
    let all = page.lookup_all("b");
    assert_eq!(all, vec![0, 1]);
    let h = page.records[0].handle;
    assert_eq!(page.widgets[h].text, "one");
}

#[test]
fn click_handler_fires_and_print_reaches_the_log() {
    // End to end: a button with a click handler, a simulated activation,
    // and the handler's print lands in the log with "clicked" in it.
    let mut page = button_page();
    let entry = page.lookup_single("b").unwrap();
    let handle = page.records[entry].handle;
    page.register_handler(handle, Event::Click, 7);
    let fired = page.activate(handle, Event::Click);
    assert_eq!(fired, vec![7]);
    for _ in fired {
        page.script_print("clicked".to_string());
    }
    assert!(page.log.iter().any(
        |e| matches!(e.level, LogLevel::Script) && e.message.contains("clicked"),
    ));
}

#[test]
fn unsupported_event_warns_and_registers_nothing() {
    let mut page = button_page();
    let handle = page.records[0].handle;
    page.register_handler(handle, Event::Submit, 9);
    assert!(page.activate(handle, Event::Submit).is_empty());
    assert!(page.log.iter().any(|e| matches!(e.level, LogLevel::Warning)));
}

#[test]
fn content_and_visibility_ops_work_on_supporting_kinds() {
    let mut page = button_page();
    let handle = page.records[0].handle;
    assert_eq!(page.get_content(handle), "Hi");
    page.set_content(handle, "Bye".to_string());
    assert_eq!(page.get_content(handle), "Bye");
    page.set_visible(handle, false);
    assert!(!page.widgets[handle].visible);
    page.set_opacity(handle, 250);
    assert_eq!(page.get_opacity(handle), 250);
    assert_eq!(page.element_name(handle), "button");
}

#[test]
fn unsupported_op_warns_and_returns_neutral_value() {
    let mut page = button_page();
    let handle = page.records[0].handle;
    let before = page.widgets[handle].text.clone();
    let href = page.get_href(handle);
    assert_eq!(href, "");
    assert!(page.log.iter().any(|e| e.message.contains("get_href")));
    page.set_href(handle, "nowhere".to_string());
    assert_eq!(page.widgets[handle].text, before);
}

#[test]
fn containers_take_fresh_markup() {
    let body = el("body", &[], vec![child(el("div", &["box"], vec![]))]);
    let mut page = Page::new();
    let store = RuleStore::new();
    build_body(&mut page, &store, &body);
    let div = page.records[0].handle;
    page.append_html(div, &vec![child(el("button", &["late"], vec![text("new")]))], &store);
    let late = page.lookup_single("late").unwrap();
    let h = page.records[late].handle;
    assert_eq!(page.widgets[h].text, "new");
    assert_eq!(page.widgets[h].parent, Some(div));
}

#[test]
fn replacing_a_subtree_detaches_the_old_children() {
    let body = el(
        "body",
        &[],
        vec![child(el("div", &["box"], vec![child(el(
            "button",
            &["old"],
            vec![text("old")],
        ))]))],
    );
    let mut page = Page::new();
    let store = RuleStore::new();
    build_body(&mut page, &store, &body);
    let div = page.records[0].handle;
    let old_button = page.records[1].handle;
    page.set_inner_html(div, &vec![child(el("button", &["new"], vec![text("new")]))], &store);
    assert!(page.widgets[old_button].detached);
    let fresh = page.lookup_single("new").unwrap();
    let h = page.records[fresh].handle;
    assert!(!page.widgets[h].detached);
    assert_eq!(page.widgets[h].parent, Some(div));
}

#[test]
fn markup_on_a_non_container_warns() {
    let mut page = button_page();
    let handle = page.records[0].handle;
    let widgets_before = page.widgets.len();
    page.append_html(handle, &vec![text("x")], &RuleStore::new());
    assert_eq!(page.widgets.len(), widgets_before);
    assert!(page.log.iter().any(|e| e.message.contains("child markup")));
}

#[test]
fn zero_delay_runs_before_control_returns() {
    // set_timeout(f, 0): the effects of f are observable before the call
    // hands control back, and no timer is recorded.
    let mut timers = TimerSet::new();
    let mut effects: Vec<&str> = Vec::new();
    match timers.set_timeout(0) {
        TimeoutOutcome::RunNow => effects.push("ran f"),
        TimeoutOutcome::Scheduled(_) => panic!("a zero delay must run at once"),
    }
    effects.push("set_timeout returned");
    assert_eq!(effects, vec!["ran f", "set_timeout returned"]);
    assert!(timers.drain().is_empty());
}

#[test]
fn positive_delays_are_recorded_and_cancellable() {
    let mut timers = TimerSet::new();
    let first = match timers.set_timeout(30) {
        TimeoutOutcome::Scheduled(id) => id,
        TimeoutOutcome::RunNow => panic!("a positive delay must be scheduled"),
    };
    let second = match timers.set_timeout(40) {
        TimeoutOutcome::Scheduled(id) => id,
        TimeoutOutcome::RunNow => panic!("a positive delay must be scheduled"),
    };
    assert_ne!(first, second);
    assert!(timers.clear_timeout(first));
    assert!(!timers.clear_timeout(first));
    assert_eq!(timers.drain(), vec![second]);
    assert!(timers.drain().is_empty());
}

#[test]
fn query_parameters_parse_after_the_first_question_mark() {
    let pairs = parse_query("buss://site.web?a=1&b=two&broken&c=3");
    assert_eq!(
        pairs,
        vec![
            ("a".to_string(), "1".to_string()),
            ("b".to_string(), "two".to_string()),
            ("c".to_string(), "3".to_string()),
        ],
    );
    assert!(parse_query("buss://site.web").is_empty());
}

#[test]
fn internal_links_navigate_inside_the_client() {
    assert_eq!(
        link_activation("buss://docs.web/page"),
        LinkAction::Internal("docs.web/page".to_string()),
    );
    assert_eq!(link_activation("https://example.com"), LinkAction::Native);
}

#[test]
fn fetch_plans_demand_url_method_and_headers() {
    assert_eq!(plan_fetch(None, None, false, None), Err(FetchPlanError::MissingUrl));
    assert_eq!(
        plan_fetch(Some("u".to_string()), None, false, None),
        Err(FetchPlanError::MissingMethod),
    );
    assert_eq!(
        plan_fetch(Some("u".to_string()), Some("GET".to_string()), false, None),
        Err(FetchPlanError::MissingHeaders),
    );
    let plan = plan_fetch(Some("u".to_string()), Some("POST".to_string()), true, None).unwrap();
    assert_eq!(plan.method, FetchMethod::Post);
    assert_eq!(plan.url, "u");
    assert_eq!(plan.body, "{}");
    let err = plan_fetch(Some("u".to_string()), Some("PATCH".to_string()), true, None);
    assert_eq!(err, Err(FetchPlanError::UnsupportedMethod("PATCH".to_string())));
}

#[test]
fn module_targets_resolve_absolutely_and_relatively() {
    assert_eq!(
        resolve_module("https://h.example/dir/main.lua", "https://other.example/lib.lua"),
        Route::Remote("https://other.example/lib.lua".to_string()),
    );
    assert_eq!(
        resolve_module("https://h.example/dir/main.lua", "lib.lua"),
        Route::Remote("https://h.example/dir/lib.lua".to_string()),
    );
    assert_eq!(
        resolve_module("https://h.example/dir/main.lua", "file:///opt/lib.lua"),
        Route::LocalFile("/opt/lib.lua".to_string()),
    );
    assert_eq!(
        resolve_module("https://h.example/x.lua", "https://github.com/user/repo/blob/lib.lua"),
        Route::Remote("https://raw.githubusercontent.com/user/repo/main/lib.lua".to_string()),
    );
}
