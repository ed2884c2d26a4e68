use webx::parser::parse;

#[test]
fn parses_one_rule() {
    let sheet = "p {\ncolor: red;\n}\n";
    let rules = parse(sheet).unwrap();
    assert_eq!(rules.len(), 1);
    assert_eq!(rules[0].selector, "p");
    assert_eq!(rules[0].properties.len(), 1);
    assert_eq!(rules[0].properties[0].0, "color");
    assert_eq!(rules[0].properties[0].1, "red");
}

#[test]
fn parses_two_rules_in_order() {
    let sheet = "p {\ncolor: red;\n}\n.warn {\ncolor: yellow;\n}\n";
    let rules = parse(sheet).unwrap();
    assert_eq!(rules.len(), 2);
    assert_eq!(rules[0].selector, "p");
    assert_eq!(rules[1].selector, ".warn");
    assert_eq!(rules[1].properties[0].1, "yellow");
}

#[test]
fn splits_comma_selectors() {
    let sheet = "h1, h2 {\nfont-weight: bold;\n}\n";
    let rules = parse(sheet).unwrap();
    assert_eq!(rules.len(), 2);
    assert_eq!(rules[0].selector, "h1");
    assert_eq!(rules[1].selector, "h2");
    assert_eq!(rules[0].properties, rules[1].properties);
}

#[test]
fn keeps_declarations_in_authored_order() {
    let sheet = "p {\ncolor: red;\ncolor: blue;\ngap: 4;\n}\n";
    let rules = parse(sheet).unwrap();
    assert_eq!(rules[0].properties.len(), 3);
    assert_eq!(rules[0].properties[0].1, "red");
    assert_eq!(rules[0].properties[1].1, "blue");
    assert_eq!(rules[0].properties[2].0, "gap");
}

#[test]
fn skips_blank_and_comment_lines() {
    let sheet = "\n/* the palette */\np {\n\ncolor: red;\n}\n";
    let rules = parse(sheet).unwrap();
    assert_eq!(rules.len(), 1);
    assert_eq!(rules[0].properties.len(), 1);
}

#[test]
fn closing_brace_without_open_is_an_error() {
    assert!(parse("}\n").is_err());
}

#[test]
fn declaration_without_exactly_one_colon_is_an_error() {
    assert!(parse("p {\ncolor red\n}\n").is_err());
    assert!(parse("p {\ncolor: 12:30;\n}\n").is_err());
}

#[test]
fn unclosed_rule_set_is_an_error() {
    assert!(parse("p {\ncolor: red;\n").is_err());
}

#[test]
fn stray_declaration_outside_blocks_is_dropped() {
    let rules = parse("color: red;\np {\ngap: 1;\n}\n").unwrap();
    assert_eq!(rules.len(), 1);
    assert_eq!(rules[0].properties.len(), 1);
    assert_eq!(rules[0].properties[0].0, "gap");
}

#[test]
fn empty_sheet_parses_to_no_rules() {
    let rules = parse("").unwrap();
    assert!(rules.is_empty());
}

#[test]
fn strips_trailing_semicolons_and_spaces() {
    let rules = parse("p {\n  color :  red ;; \n}\n").unwrap();
    assert_eq!(rules[0].properties[0].0, "color");
    assert_eq!(rules[0].properties[0].1, "red");
}
