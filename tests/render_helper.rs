use nested_template::{render_helper, ParseError};

#[test]
fn test_render_helper_missing_open() {
    match render_helper("something }") {
        Ok(_) => panic!("render_helper did not catch missing \"{{\""),
        Err(ParseError::MissingOpenBrace(_)) => (),
        _ => panic!("render_helper caught wrong error"),
    }
}

#[test]
fn test_render_helper_missing_close() {
    match render_helper("something {") {
        Ok(_) => panic!("render_helper did not catch missing \"}}\""),
        Err(ParseError::MissingCloseBrace(_)) => (),
        _ => panic!("render_helper caught wrong error"),
    }
}

#[test]
fn test_render_helper_success() {
    let val = render_helper("This is a {successful} test of the {helper_function}").unwrap();
    assert_eq!(
        val,
        vec![
            (false, "This is a ".to_string()),
            (true, "successful".to_string()),
            (false, " test of the ".to_string()),
            (true, "helper_function".to_string()),
            (false, String::new())
        ]
    );
}

#[test]
fn test_template_inside_template() {
    match render_helper("{ {something} }") {
        Ok(_) => panic!("render_helper allowed template inside another template"),
        _ => (),
    }
}

#[test]
fn test_empty_template_with_helper() {
    assert_eq!(
        render_helper("{}").unwrap(),
        vec![
            (false, String::new()),
            (true, String::new()),
            (false, String::new())
        ]
    );
}

#[test]
fn test_escape_with_for_helper() {
    assert_eq!(
        render_helper("this should {{ be escaped }}").unwrap(),
        vec![
            (false, "this should ".to_string()),
            (false, "{".to_string()),
            (false, " be escaped ".to_string()),
            (false, "}".to_string()),
            (false, String::new())
        ]
    );
}

#[test]
fn test_render_helper() {
    let template_str = "{ template }{other_template} not template {{}}";
    assert_eq!(
        render_helper(template_str).unwrap(),
        vec![
            (false, String::new()),
            (true, "template".to_string()),
            (false, String::new()),
            (true, "other_template".to_string()),
            (false, " not template ".to_string()),
            (false, "{".to_string()),
            (false, String::new()),
            (false, "}".to_string()),
            (false, String::new()),
        ]
    );
}

#[test]
fn plain_text_is_one_literal() {
    assert_eq!(
        render_helper("no braces here").unwrap(),
        vec![(false, "no braces here".to_string())]
    );
    assert_eq!(render_helper("").unwrap(), vec![(false, String::new())]);
}

#[test]
fn escaped_open_brace_alone() {
    assert_eq!(
        render_helper("{{").unwrap(),
        vec![(false, String::new()), (false, "{".to_string()), (false, String::new())]
    );
}

#[test]
fn escaped_close_brace_alone() {
    assert_eq!(
        render_helper("}}").unwrap(),
        vec![(false, String::new()), (false, "}".to_string()), (false, String::new())]
    );
}

#[test]
fn open_escape_is_handled_before_close_escape() {
    let segs = render_helper("a{{b}}c").unwrap();
    assert_eq!(
        segs,
        vec![
            (false, "a".to_string()),
            (false, "{".to_string()),
            (false, "b".to_string()),
            (false, "}".to_string()),
            (false, "c".to_string()),
        ]
    );
    let joined: String = segs.iter().map(|s| s.1.as_str()).collect();
    assert_eq!(joined, "a{b}c");
}

#[test]
fn missing_close_reports_byte_offset() {
    assert!(matches!(render_helper("ab{"), Err(ParseError::MissingCloseBrace(2))));
    assert!(matches!(render_helper("é{"), Err(ParseError::MissingCloseBrace(2))));
}

#[test]
fn missing_open_reports_byte_offset() {
    assert!(matches!(render_helper("something }"), Err(ParseError::MissingOpenBrace(10))));
    assert!(matches!(render_helper("日}"), Err(ParseError::MissingOpenBrace(3))));
}

#[test]
fn close_before_open_is_missing_open() {
    assert!(matches!(render_helper("x}{y"), Err(ParseError::MissingOpenBrace(1))));
}

#[test]
fn offsets_are_relative_to_the_scanned_piece() {
    // After the escape, the scan restarts on "xy}".
    assert!(matches!(render_helper("ab{{xy}"), Err(ParseError::MissingOpenBrace(2))));
    // After the placeholder, the scan restarts on "z{".
    assert!(matches!(render_helper("{a}z{"), Err(ParseError::MissingCloseBrace(1))));
}

#[test]
fn placeholder_names_are_trimmed() {
    assert_eq!(
        render_helper("{  name\t}").unwrap(),
        vec![(false, String::new()), (true, "name".to_string()), (false, String::new())]
    );
}

#[test]
fn nested_braces_give_a_name_with_a_brace_or_fail() {
    assert!(matches!(render_helper("{ {a}"), Ok(_)));
    assert_eq!(render_helper("{ {a}").unwrap()[1], (true, "{a".to_string()));
    assert!(matches!(render_helper("{ {something} }"), Err(ParseError::MissingOpenBrace(1))));
}
