use string_wrap::format::StringFormat;
use string_wrap::rewrite::rewrite_string;
use string_wrap::shape::{Config, Indent, Shape};
use string_wrap::splitter::{SnippetState, StringSplitter};
use string_wrap::url::safe_break_after_url;

#[test]
fn issue343() {
    let config = Default::default();
    let fmt = StringFormat::new(Shape::legacy(2, Indent::empty()), &config);
    rewrite_string("eq_", &fmt, 2);
}

#[test]
fn big_whitespace_with_snippet_state_iterator() {
    let config: Config = Default::default();
    let fmt = StringFormat::new(Shape::legacy(27, Indent::empty()), &config);

    let text = "Neque in sem.            Pellentesque tellus augue.";
    let mut snippter_state = StringSplitter::from_format(text, &fmt, 27).unwrap();
    assert_eq!(
        Some(SnippetState::LineEnd("Neque in sem.            ", 25)),
        snippter_state.next()
    );
    assert_eq!(
        Some(SnippetState::EndOfInput("Pellentesque tellus augue.")),
        snippter_state.next()
    );
    assert_eq!(None, snippter_state.next());
}

#[test]
fn newline_in_candidate_line() {
    let mut config: Config = Default::default();
    config.set_max_width(27);
    let fmt = StringFormat::new(Shape::legacy(25, Indent::empty()), &config);
    let string = "Nulla\nconsequat erat at massa. Vivamus id mi.";
    let rewritten_string = rewrite_string(string, &fmt, 27);
    assert_eq!(
        rewritten_string,
        Some("\"Nulla\nconsequat erat at massa. \\\n Vivamus id mi.\"".to_string())
    );
}

#[test]
fn newline_in_candidate_line_with_snippet_state_iterator() {
    let mut config: Config = Default::default();
    config.set_max_width(27);
    let fmt = StringFormat::new(Shape::legacy(25, Indent::empty()), &config);

    let text = "Nulla\nconsequat erat at massa. Vivamus id mi.";
    let mut snippter_state = StringSplitter::from_format(text, &fmt, 27).unwrap();
    assert_eq!(
        Some(SnippetState::EndWithLineFeed("Nulla\n", 6)),
        snippter_state.next()
    );
    assert_eq!(
        Some(SnippetState::LineEnd("consequat erat at massa. ", 31)),
        snippter_state.next()
    );
    assert_eq!(
        Some(SnippetState::EndOfInput("Vivamus id mi.")),
        snippter_state.next()
    );
    assert_eq!(None, snippter_state.next());
}

#[test]
fn last_line_fit_with_trailing_whitespaces() {
    let string = "Vivamus id mi.  ";
    let config: Config = Default::default();
    let mut fmt = StringFormat::new(Shape::legacy(25, Indent::empty()), &config);

    fmt.trim_end = true;
    let rewritten_string = rewrite_string(string, &fmt, 25);
    assert_eq!(rewritten_string, Some("\"Vivamus id mi.\"".to_string()));

    fmt.trim_end = false; // default value of trim_end
    let rewritten_string = rewrite_string(string, &fmt, 25);
    assert_eq!(rewritten_string, Some("\"Vivamus id mi.  \"".to_string()));
}

#[test]
fn last_line_fit_with_newline() {
    let string = "Vivamus id mi.\nVivamus id mi.";
    let config: Config = Default::default();
    let fmt = StringFormat {
        opener: "",
        closer: "",
        line_start: "// ",
        line_end: "",
        shape: Shape::legacy(100, Indent::from_width(4)),
        trim_end: true,
        config: &config,
    };

    let rewritten_string = rewrite_string(string, &fmt, 100);
    assert_eq!(
        rewritten_string,
        Some("Vivamus id mi.\n    // Vivamus id mi.".to_string())
    );
}

#[test]
fn overflow_in_non_string_content() {
    let comment = "Aenean metus.\nVestibulum ac lacus. Vivamus porttitor";
    let config: Config = Default::default();
    let fmt = StringFormat {
        opener: "",
        closer: "",
        line_start: "// ",
        line_end: "",
        shape: Shape::legacy(30, Indent::from_width(8)),
        trim_end: true,
        config: &config,
    };

    assert_eq!(
        rewrite_string(comment, &fmt, 30),
        Some(
            "Aenean metus.\n        // Vestibulum ac lacus. Vivamus\n        // porttitor"
                .to_string()
        )
    );
}

#[test]
fn overflow_in_non_string_content_with_line_end() {
    let comment = "Aenean metus.\nVestibulum ac lacus. Vivamus porttitor";
    let config: Config = Default::default();
    let fmt = StringFormat {
        opener: "",
        closer: "",
        line_start: "// ",
        line_end: "@",
        shape: Shape::legacy(30, Indent::from_width(8)),
        trim_end: true,
        config: &config,
    };

    assert_eq!(
        rewrite_string(comment, &fmt, 30),
        Some(
            "Aenean metus.\n        // Vestibulum ac lacus. Vivamus@\n        // porttitor"
                .to_string()
        )
    );
}

#[test]
fn blank_line_with_non_empty_line_start() {
    let config: Config = Default::default();
    let mut fmt = StringFormat {
        opener: "",
        closer: "",
        line_start: "// ",
        line_end: "",
        shape: Shape::legacy(30, Indent::from_width(4)),
        trim_end: true,
        config: &config,
    };

    let comment = "Aenean metus. Vestibulum\n\nac lacus. Vivamus porttitor";
    assert_eq!(
        rewrite_string(comment, &fmt, 30),
        Some("Aenean metus. Vestibulum\n    //\n    // ac lacus. Vivamus porttitor".to_string())
    );

    fmt.shape = Shape::legacy(18, Indent::from_width(4));
    let comment = "Aenean\n\nmetus. Vestibulum ac lacus. Vivamus porttitor";
    assert_eq!(
        rewrite_string(comment, &fmt, 18),
        Some(
            r#"Aenean
    //
    // metus. Vestibulum
    // ac lacus. Vivamus
    // porttitor"#
                .to_string()
        )
    );
}

#[test]
fn retain_blank_lines() {
    let config: Config = Default::default();
    let fmt = StringFormat {
        opener: "",
        closer: "",
        line_start: "// ",
        line_end: "",
        shape: Shape::legacy(20, Indent::from_width(4)),
        trim_end: true,
        config: &config,
    };

    let comment = "Aenean\n\nmetus. Vestibulum ac lacus.\n\n";
    assert_eq!(
        rewrite_string(comment, &fmt, 20),
        Some(
            "Aenean\n    //\n    // metus. Vestibulum ac\n    // lacus.\n    //\n".to_string()
        )
    );

    let comment = "Aenean\n\nmetus. Vestibulum ac lacus.\n";
    assert_eq!(
        rewrite_string(comment, &fmt, 20),
        Some("Aenean\n    //\n    // metus. Vestibulum ac\n    // lacus.\n".to_string())
    );

    let comment = "Aenean\n        \nmetus. Vestibulum ac lacus.";
    assert_eq!(
        rewrite_string(comment, &fmt, 20),
        Some("Aenean\n    //\n    // metus. Vestibulum ac\n    // lacus.".to_string())
    );
}

#[test]
fn boundary_on_edge() {
    let config: Config = Default::default();
    let mut fmt = StringFormat {
        opener: "",
        closer: "",
        line_start: "// ",
        line_end: "",
        shape: Shape::legacy(13, Indent::from_width(4)),
        trim_end: true,
        config: &config,
    };

    let comment = "Aenean metus. Vestibulum ac lacus.";
    assert_eq!(
        rewrite_string(comment, &fmt, 13),
        Some("Aenean metus.\n    // Vestibulum ac\n    // lacus.".to_string())
    );

    fmt.trim_end = false;
    let comment = "Vestibulum ac lacus.";
    // with a width of 13 and a line end of "" we have a max of 13 columns to fill
    // because we can't trim the end, we should treat all whitespace as significant
    assert_eq!(
        rewrite_string(comment, &fmt, 13),
        Some("Vestibulum \n    // ac lacus.".to_string())
    );

    fmt.trim_end = true;
    fmt.line_end = "\\";
    let comment = "Vestibulum ac lacus.";
    // with a width of 13 and a line end of "\\" we have a max of 11 columns to fill
    // here's we're allowed to trim whitespace
    assert_eq!(
        rewrite_string(comment, &fmt, 13),
        Some("Vestibulum\\\n    // ac lacus.".to_string())
    );
}

#[test]
fn detect_urls() {
    let string = "aaa http://example.org something";
    assert_eq!(safe_break_after_url(string), Some(23));
    assert!(string[..23].ends_with("http://example.org "));

    let string = "https://example.org something";
    assert_eq!(safe_break_after_url(string), Some(20));
    assert!(string[..20].ends_with("https://example.org "));

    let string = "aaa ftp://example.org something";
    assert_eq!(safe_break_after_url(string), Some(22));
    assert!(string[..22].ends_with("ftp://example.org "));

    let string = "aaa file://example.org something";
    assert_eq!(safe_break_after_url(string), Some(23));
    assert!(string[..23].ends_with("file://example.org "));

    let string = "aaa http not an url";
    assert_eq!(safe_break_after_url(string), None);

    let string = "aaa file://example.org";
    assert_eq!(safe_break_after_url(string), Some(22));
    assert!(string[..22].ends_with("file://example.org"));

    let string =
        "우리 모두가 만들어가는 자유 백과사전 http://ko.wikipedia.org/wiki/위키백과:대문";
    assert_eq!(safe_break_after_url(string), Some(101));
    assert!(string[..101].ends_with("http://ko.wikipedia.org/wiki/위키백과:대문"));
}
