use webx::style::RuleStore;

fn store(sheet: &str) -> RuleStore {
    let mut s = RuleStore::new();
    assert!(s.add_sheet(sheet));
    s
}

#[test]
fn class_overrides_tag_rule() {
    // Cascade: the class declaration is applied after the tag declaration,
    // so the class wins on conflict.
    let s = store("p {\ncolor: red;\n}\n.warn {\ncolor: yellow;\n}\n");
    let props = s.resolve("p", &vec!["warn".to_string()]);
    assert_eq!(props.color, "yellow");
}

#[test]
fn later_class_wins_in_authored_order() {
    let s = store(".a {\ncolor: red;\n}\n.b {\ncolor: blue;\n}\n");
    let props = s.resolve("p", &vec!["a".to_string(), "b".to_string()]);
    assert_eq!(props.color, "blue");
    let props = s.resolve("p", &vec!["b".to_string(), "a".to_string()]);
    assert_eq!(props.color, "red");
}

#[test]
fn defaults_hold_without_matching_rules() {
    let s = RuleStore::new();
    let props = s.resolve("p", &Vec::new());
    assert_eq!(props.color, "#ffffff");
    assert_eq!(props.background_color, "transparent");
    assert_eq!(props.font_family, "Noto Sans");
    assert_eq!(props.font_weight, "normal");
    assert_eq!(props.font_size, 11);
    assert_eq!(props.direction, "row");
    assert_eq!(props.gap, 0);
    assert_eq!(props.opacity, 1000);
    assert_eq!(props.margin_top, 0);
    assert_eq!(props.border_style, "none");
}

#[test]
fn body_and_form_tags_carry_their_own_defaults() {
    let s = RuleStore::new();
    let body = s.resolve("body", &Vec::new());
    assert_eq!(body.direction, "column");
    assert_eq!(body.gap, 10);
    let input = s.resolve("input", &Vec::new());
    assert_eq!(input.padding, 5);
    assert_eq!(input.border_style, "solid");
    assert_eq!(input.border_color, "#616161");
    assert_eq!(input.border_width, 1);
    assert_eq!(input.border_radius, 12);
    let area = s.resolve("textarea", &Vec::new());
    assert_eq!(area.width, 400);
    assert_eq!(area.height, 100);
    let anchor = s.resolve("a", &Vec::new());
    assert_eq!(anchor.color, "#67B7D1");
}

#[test]
fn heading_defaults_scale_and_rules_override_them() {
    let s = RuleStore::new();
    assert_eq!(s.resolve("h1", &Vec::new()).font_size, 24);
    assert_eq!(s.resolve("h2", &Vec::new()).font_size, 22);
    assert_eq!(s.resolve("h3", &Vec::new()).font_size, 20);
    assert_eq!(s.resolve("h4", &Vec::new()).font_size, 18);
    assert_eq!(s.resolve("h5", &Vec::new()).font_size, 16);
    assert_eq!(s.resolve("h6", &Vec::new()).font_size, 14);
    let s = store("h1 {\nfont-size: 40px;\n}\n");
    assert_eq!(s.resolve("h1", &Vec::new()).font_size, 40);
}

#[test]
fn numeric_values_drop_units_and_fall_back_on_garbage() {
    let s = store("p {\nmargin-top: 12px;\nmargin-bottom: -3;\nwidth: 7pt;\nheight: abc;\n}\n");
    let props = s.resolve("p", &Vec::new());
    assert_eq!(props.margin_top, 12);
    assert_eq!(props.margin_bottom, -3);
    assert_eq!(props.width, 7);
    assert_eq!(props.height, 0);
}

#[test]
fn opacity_reads_thousandths_and_saturates() {
    let s = store("p {\nopacity: 0.5;\n}\n");
    assert_eq!(s.resolve("p", &Vec::new()).opacity, 500);
    let s = store("p {\nopacity: .25;\n}\n");
    assert_eq!(s.resolve("p", &Vec::new()).opacity, 250);
    let s = store("p {\nopacity: 2;\n}\n");
    assert_eq!(s.resolve("p", &Vec::new()).opacity, 1000);
    let s = store("p {\nopacity: 0;\n}\n");
    assert_eq!(s.resolve("p", &Vec::new()).opacity, 0);
    let s = store("p {\nopacity: cloudy;\n}\n");
    assert_eq!(s.resolve("p", &Vec::new()).opacity, 1000);
}

#[test]
fn duplicate_selectors_merge_property_by_property() {
    let s = store("p {\ncolor: red;\ngap: 3;\n}\np {\ncolor: green;\n}\n");
    let props = s.resolve("p", &Vec::new());
    assert_eq!(props.color, "green");
    assert_eq!(props.gap, 3);
}

#[test]
fn malformed_sheet_keeps_previous_rules() {
    let mut s = RuleStore::new();
    assert!(s.add_sheet("p {\ncolor: red;\n}\n"));
    assert!(!s.add_sheet("}\n"));
    assert_eq!(s.resolve("p", &Vec::new()).color, "red");
}

#[test]
fn reset_drops_every_rule() {
    let mut s = store("p {\ncolor: red;\n}\n");
    s.reset();
    assert_eq!(s.resolve("p", &Vec::new()).color, "#ffffff");
}
