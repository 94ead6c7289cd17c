use nested_template::{NestedTemplate, ParseError};

#[test]
fn test_render() {
    let mut parent = NestedTemplate::new("<!DOCTYPE html><body>{first_child}</body>");
    let mut first_child =
        NestedTemplate::new("<div>This is a test</div><script>{second_child}</script>");
    let second_child = NestedTemplate::new("second_child");

    first_child.add_sub_template("second_child", second_child);
    parent.add_sub_template("first_child", first_child);
    assert_eq!(
        parent.render().unwrap(),
        "<!DOCTYPE html><body><div>This is a test</div><script>second_child</script></body>"
    );
}

#[test]
fn composition_with_short_child() {
    let mut root = NestedTemplate::new("<!DOCTYPE html><body>{first_child}</body>");
    let mut child = NestedTemplate::new("<div>X</div><script>{second_child}</script>");
    child.add_sub_template("second_child", NestedTemplate::new("second_child"));
    root.add_sub_template("first_child", child);
    assert_eq!(
        root.render().unwrap(),
        "<!DOCTYPE html><body><div>X</div><script>second_child</script></body>"
    );
}

#[test]
fn plain_body_renders_unchanged() {
    let t = NestedTemplate::new("just text, no placeholders");
    assert_eq!(t.render().unwrap(), "just text, no placeholders");
    assert_eq!(NestedTemplate::new("").render().unwrap(), "");
}

#[test]
fn missing_child_fails_with_its_name() {
    let t = NestedTemplate::new("a {foo} b");
    match t.render() {
        Err(ParseError::MissingTemplate(name)) => assert_eq!(name, "foo"),
        other => panic!("unexpected result: {:?}", other),
    }
}

#[test]
fn trimmed_name_finds_child() {
    let mut t = NestedTemplate::new("[{ template }]");
    t.add_sub_template("template", NestedTemplate::new("ok"));
    assert_eq!(t.render().unwrap(), "[ok]");
}

#[test]
fn empty_placeholder_uses_child_named_empty() {
    let mut t = NestedTemplate::new("<{}>");
    t.add_sub_template("", NestedTemplate::new("empty"));
    assert_eq!(t.render().unwrap(), "<empty>");
}

#[test]
fn last_added_child_wins() {
    let mut t = NestedTemplate::new("{x}");
    t.add_sub_template("x", NestedTemplate::new("first"));
    t.add_sub_template("y", NestedTemplate::new("other"));
    t.add_sub_template("x", NestedTemplate::new("second"));
    assert_eq!(t.render().unwrap(), "second");
}

#[test]
fn escapes_render_as_single_braces() {
    let mut t = NestedTemplate::new("{{{v}}}");
    t.add_sub_template("v", NestedTemplate::new("1"));
    // "{{" first, then "{v}}}" splits at "}}" into "{v" and "}".
    assert!(matches!(t.render(), Err(ParseError::MissingCloseBrace(0))));
    let mut u = NestedTemplate::new("a{{b}}c {v}");
    u.add_sub_template("v", NestedTemplate::new("1"));
    assert_eq!(u.render().unwrap(), "a{b}c 1");
}

#[test]
fn child_errors_propagate() {
    let mut t = NestedTemplate::new("ok {bad}");
    t.add_sub_template("bad", NestedTemplate::new("x }"));
    assert!(matches!(t.render(), Err(ParseError::MissingOpenBrace(2))));
    let mut u = NestedTemplate::new("{a}{b}");
    u.add_sub_template("a", NestedTemplate::new("{missing}"));
    match u.render() {
        Err(ParseError::MissingTemplate(name)) => assert_eq!(name, "missing"),
        other => panic!("unexpected result: {:?}", other),
    }
}

#[test]
fn body_parse_error_comes_before_lookup() {
    let t = NestedTemplate::new("{foo} {");
    assert!(matches!(t.render(), Err(ParseError::MissingCloseBrace(1))));
}
