use string_wrap::comments::{key_and_value, significant_comment, significant_comments};
use string_wrap::markdown::{
    collect_events_until_fmt_options_update, indent_code, marker_of, rewritten_or_kept,
    updated_markers, BlockEvent, CodeBlockFormatter, MarkerEvent, Markers, Rewrite,
};
use string_wrap::paths::{is_file_skip, is_subpath};

fn path(components: &[&str]) -> Vec<String> {
    components.iter().map(|c| c.to_string()).collect()
}

#[test]
fn subpath_is_a_run_of_components() {
    let whole = path(&["tests", "target", "issue-4794", "a.rs"]);
    assert!(is_subpath(&whole, &path(&["target", "issue-4794"])));
    assert!(is_subpath(&whole, &path(&["tests"])));
    assert!(is_subpath(&whole, &path(&["a.rs"])));
    assert!(is_subpath(&whole, &whole));
    assert!(!is_subpath(&whole, &path(&["tests", "issue-4794"])));
    assert!(!is_subpath(&whole, &path(&["b.rs"])));
    assert!(!is_subpath(&whole, &path(&["issue"])));
}

#[test]
fn subpath_at_the_edges() {
    let whole = path(&["tests", "target", "a.rs"]);
    // Where the path ends in the middle of the subpath, what is there counts.
    assert!(is_subpath(&whole, &path(&["a.rs", "b"])));
    assert!(!is_subpath(&whole, &path(&["b", "a.rs"])));
    // Nothing stands in an empty path; the empty subpath stands in any other.
    assert!(is_subpath(&whole, &path(&[])));
    assert!(!is_subpath(&path(&[]), &path(&[])));
    assert!(!is_subpath(&path(&[]), &path(&["a.rs"])));
}

#[test]
fn files_are_skipped_by_subpath() {
    let whole = path(&["tests", "target", "issue-4794", "a.rs"]);
    let skip_list = vec![path(&["source", "a.rs"]), path(&["issue-4794"])];
    assert!(is_file_skip(&whole, &skip_list));
    assert!(!is_file_skip(&whole, &vec![path(&["source", "a.rs"])]));
    assert!(!is_file_skip(&whole, &vec![]));
}

#[test]
fn significant_comments_are_read() {
    assert_eq!(
        significant_comment("// rustfmt-max_width: 80"),
        Some(("max_width".to_string(), "80".to_string()))
    );
    assert_eq!(
        significant_comment("  //rustfmt-reorder_imports:true and more"),
        Some(("reorder_imports".to_string(), "true".to_string()))
    );
    assert_eq!(significant_comment("// max_width: 80"), None);
    assert_eq!(significant_comment("fn main() {} // rustfmt-a: b"), None);
    assert_eq!(significant_comment("// rustfmt-max_width:"), None);
    assert_eq!(significant_comment(""), None);
}

#[test]
fn settings_are_read_line_by_line() {
    let lines = vec![
        "// rustfmt-max_width: 80".to_string(),
        "".to_string(),
        "fn main() {}".to_string(),
        "    // rustfmt-hard_tabs: true".to_string(),
        "// rustfmt-max_width: 90".to_string(),
    ];
    assert_eq!(
        significant_comments(&lines),
        vec![
            ("max_width".to_string(), "80".to_string()),
            ("hard_tabs".to_string(), "true".to_string()),
            ("max_width".to_string(), "90".to_string()),
        ]
    );
    assert_eq!(significant_comments(&vec![]), vec![]);
}

#[test]
fn event_is_kept_where_rewriting_gives_nothing() {
    assert_eq!(rewritten_or_kept(Some("formatted"), "code"), "formatted");
    assert_eq!(rewritten_or_kept(None, "code"), "code");
}

#[test]
fn key_and_value_are_the_two_groups() {
    let text = |s: &str| Some(s.to_string());
    assert_eq!(
        key_and_value(vec![text("// rustfmt-a: b"), text("a"), text("b")]),
        Some(("a".to_string(), "b".to_string()))
    );
    assert_eq!(key_and_value(vec![text("x"), None, text("b")]), None);
    assert_eq!(key_and_value(vec![text("x"), text("a"), None]), None);
    assert_eq!(key_and_value(vec![text("x"), text("a")]), None);
    assert_eq!(
        key_and_value(vec![text("x"), text("a"), text("b"), text("c")]),
        None
    );
}

#[test]
fn fenced_code_is_formatted_if_its_attributes_say_so() {
    let mut formatter = CodeBlockFormatter::new();
    assert_eq!(formatter.next(BlockEvent::Text, false), Rewrite::Keep);
    assert_eq!(
        formatter.next(BlockEvent::FencedStart { formattable: true }, false),
        Rewrite::Keep
    );
    assert!(formatter.format_code_block);
    assert_eq!(formatter.next(BlockEvent::Text, false), Rewrite::FormatCode);
    assert_eq!(formatter.next(BlockEvent::FencedEnd, false), Rewrite::Keep);
    assert!(!formatter.format_code_block);
    assert_eq!(formatter.next(BlockEvent::Text, false), Rewrite::Keep);

    assert_eq!(
        formatter.next(BlockEvent::FencedStart { formattable: false }, false),
        Rewrite::Keep
    );
    assert_eq!(formatter.next(BlockEvent::Text, false), Rewrite::Keep);
    assert_eq!(formatter.next(BlockEvent::FencedEnd, false), Rewrite::Keep);
    assert_eq!(formatter, CodeBlockFormatter::new());
}

#[test]
fn indented_code_becomes_a_paragraph() {
    let mut formatter = CodeBlockFormatter::new();
    assert_eq!(
        formatter.next(BlockEvent::IndentedEnd, false),
        Rewrite::Keep
    );
    assert_eq!(
        formatter.next(BlockEvent::IndentedStart, false),
        Rewrite::StartParagraph
    );
    assert!(formatter.indented_code_block);
    assert_eq!(
        formatter.next(BlockEvent::Text, false),
        Rewrite::IndentCode { last: false }
    );
    assert_eq!(formatter.next(BlockEvent::Other, false), Rewrite::Keep);
    assert_eq!(
        formatter.next(BlockEvent::Text, true),
        Rewrite::IndentCode { last: true }
    );
    assert_eq!(
        formatter.next(BlockEvent::IndentedEnd, false),
        Rewrite::EndParagraph
    );
    assert_eq!(formatter, CodeBlockFormatter::new());
}

#[test]
fn formatting_goes_before_indenting() {
    let mut formatter = CodeBlockFormatter {
        format_code_block: true,
        indented_code_block: true,
    };
    assert_eq!(formatter.next(BlockEvent::Text, true), Rewrite::FormatCode);
}

#[test]
fn indented_code_gets_its_indentation_back() {
    assert_eq!(indent_code("fn main() {}\n", false), "    fn main() {}\n");
    assert_eq!(indent_code("fn main() {}\n", true), "    fn main() {}");
    assert_eq!(indent_code("", true), "    ");
}

#[test]
fn marker_is_the_first_character() {
    assert_eq!(marker_of("- item"), '-');
    assert_eq!(marker_of("_emphasis_"), '_');
    assert_eq!(marker_of(""), '*');
}

#[test]
fn markers_change_with_the_document() {
    let markers = Markers {
        list_token: '*',
        emphasis_token: '*',
    };
    assert_eq!(updated_markers(MarkerEvent::ListStart('*'), markers), None);
    assert_eq!(updated_markers(MarkerEvent::Other, markers), None);
    assert_eq!(
        updated_markers(MarkerEvent::ListStart('+'), markers),
        Some(Markers {
            list_token: '+',
            emphasis_token: '*'
        })
    );
    assert_eq!(
        updated_markers(MarkerEvent::EmphasisStart('_'), markers),
        Some(Markers {
            list_token: '*',
            emphasis_token: '_'
        })
    );
}

#[test]
fn events_are_collected_up_to_a_change_of_markers() {
    let markers = Markers {
        list_token: '*',
        emphasis_token: '*',
    };
    let events = vec![
        MarkerEvent::Other,
        MarkerEvent::ListStart('*'),
        MarkerEvent::EmphasisStart('*'),
        MarkerEvent::ListStart('-'),
        MarkerEvent::EmphasisStart('_'),
    ];
    assert_eq!(
        collect_events_until_fmt_options_update(&events, markers),
        (
            3,
            Some(Markers {
                list_token: '-',
                emphasis_token: '*'
            })
        )
    );
    assert_eq!(
        collect_events_until_fmt_options_update(&events[..3], markers),
        (3, None)
    );
    assert_eq!(
        collect_events_until_fmt_options_update(&events[3..], markers),
        (
            0,
            Some(Markers {
                list_token: '-',
                emphasis_token: '*'
            })
        )
    );
    assert_eq!(collect_events_until_fmt_options_update(&[], markers), (0, None));
}
