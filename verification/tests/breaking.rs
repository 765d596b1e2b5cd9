use string_wrap::breaks::{
    alternative_punctuation_breaks, fits_budget, is_break_accepted, is_punctuation,
    is_punctuation_break_at, is_whitespace, line_break_opportunities, BreakKind,
};
use string_wrap::format::StringFormat;
use string_wrap::shape::{Config, Indent, Shape};
use string_wrap::splitter::{fallback_break, scanner_break, SnippetState, StringSplitter};
use string_wrap::rewrite::rewrite_string;
use unicode_width::UnicodeWidthStr;
use string_wrap::url::{
    contains_url, find_url, first_break_at_or_after, first_url, safe_break_after_url,
};

fn plain(width: usize, trim_end: bool, config: &Config) -> StringFormat<'_> {
    StringFormat {
        opener: "",
        closer: "",
        line_start: "",
        line_end: "",
        shape: Shape::legacy(width, Indent::empty()),
        trim_end,
        config,
    }
}

fn lines_of<'a>(mut splitter: StringSplitter<'a>) -> Vec<SnippetState<'a>> {
    let mut lines = Vec::new();
    while let Some(line) = splitter.next() {
        lines.push(line);
    }
    lines
}

#[test]
fn scanner_follows_the_line_breaking_algorithm() {
    assert_eq!(
        line_break_opportunities("a b \nc", 10, false),
        vec![
            (2, BreakKind::Allowed),
            (5, BreakKind::Mandatory),
            (6, BreakKind::Mandatory)
        ]
    );
    assert_eq!(
        line_break_opportunities("Hello world!", 20, false),
        vec![(6, BreakKind::Allowed), (12, BreakKind::Mandatory)]
    );
}

#[test]
fn scanner_drops_what_is_over_the_budget() {
    assert_eq!(
        line_break_opportunities("Hello world!", 11, false),
        vec![(6, BreakKind::Allowed)]
    );
    assert_eq!(line_break_opportunities("Hello world!", 5, false), vec![]);
}

#[test]
fn scanner_counts_columns_not_bytes() {
    // Each of the three letters takes two columns and three bytes.
    let text = "\u{4e2d}\u{6587}\u{5b57} ab";
    assert_eq!(
        line_break_opportunities(text, 6, false),
        vec![(3, BreakKind::Allowed), (6, BreakKind::Allowed)]
    );
    assert_eq!(
        line_break_opportunities(text, 7, false),
        vec![
            (3, BreakKind::Allowed),
            (6, BreakKind::Allowed),
            (10, BreakKind::Allowed)
        ]
    );
}

#[test]
fn a_space_that_is_trimmed_may_stand_over_the_budget() {
    assert_eq!(
        line_break_opportunities("abcd efgh", 4, true),
        vec![(5, BreakKind::Allowed)]
    );
    assert_eq!(line_break_opportunities("abcd efgh", 4, false), vec![]);
    assert_eq!(line_break_opportunities("abcd  efgh", 4, true), vec![]);
}

#[test]
fn budget_rule_on_plain_numbers() {
    assert!(fits_budget(4, 4, false, false));
    assert!(!fits_budget(5, 4, false, true));
    assert!(!fits_budget(5, 4, true, false));
    assert!(fits_budget(5, 4, true, true));
    assert!(!fits_budget(6, 4, true, true));
    assert!(fits_budget(usize::MAX, usize::MAX, true, true));
    assert!(!fits_budget(1, 0, false, true));
}

#[test]
fn scanner_never_breaks_behind_a_backslash() {
    // The end of the text is a break opportunity, but not behind a backslash.
    assert_eq!(
        line_break_opportunities("abc", 10, false),
        vec![(3, BreakKind::Mandatory)]
    );
    assert_eq!(line_break_opportunities("abc\\", 10, false), vec![]);
    assert!(!is_break_accepted("abc\\ def", 4, 10, false));
    assert!(is_break_accepted("abc\\ def", 5, 10, false));
    assert!(!is_break_accepted("abc\\\\\\def", 6, 10, false));
}

#[test]
fn scanner_breaks_behind_an_escaped_backslash() {
    assert_eq!(
        line_break_opportunities("abc\\\\", 10, false),
        vec![(5, BreakKind::Mandatory)]
    );
    assert!(is_break_accepted("abc\\\\def", 5, 10, false));
}

#[test]
fn scanner_never_breaks_behind_a_dash() {
    assert_eq!(
        line_break_opportunities("ab-cd", 10, false),
        vec![(5, BreakKind::Mandatory)]
    );
    assert!(!is_break_accepted("ab-cd", 3, 10, false));
    // U+2014, an em dash of three bytes.
    assert!(!is_break_accepted("ab\u{2014}cd", 5, 10, false));
}

#[test]
fn every_dash_refuses_a_break() {
    let dashes = [
        '\u{2d}', '\u{58a}', '\u{5be}', '\u{1400}', '\u{1806}', '\u{2010}', '\u{2011}',
        '\u{2012}', '\u{2013}', '\u{2014}', '\u{2015}', '\u{2e17}', '\u{2e1a}', '\u{2e3a}',
        '\u{2e3b}', '\u{2e40}', '\u{301c}', '\u{3030}', '\u{30a0}', '\u{fe31}', '\u{fe32}',
        '\u{fe58}', '\u{fe63}', '\u{ff0d}',
    ];
    for dash in dashes {
        let text = format!("ab{}cd", dash);
        assert!(!is_break_accepted(&text, 2 + dash.len_utf8(), 10, false), "{:?}", dash);
    }
    // Neither the low line nor the minus sign is a dash.
    for other in ['_', '\u{2212}', '\u{2016}', '\u{200f}'] {
        let text = format!("ab{}cd", other);
        assert!(is_break_accepted(&text, 2 + other.len_utf8(), 10, false), "{:?}", other);
    }
}

#[test]
fn every_space_separator_may_stand_over_the_budget() {
    let spaces = [
        '\u{20}', '\u{a0}', '\u{1680}', '\u{2000}', '\u{2001}', '\u{2002}', '\u{2003}',
        '\u{2004}', '\u{2005}', '\u{2006}', '\u{2007}', '\u{2008}', '\u{2009}', '\u{200a}',
        '\u{202f}', '\u{205f}', '\u{3000}',
    ];
    for space in spaces {
        let text = format!("ab{}cd", space);
        let pos = 2 + space.len_utf8();
        let width = UnicodeWidthStr::width(&text[..pos]);
        assert!(is_break_accepted(&text, pos, width - 1, true), "{:?}", space);
        assert!(!is_break_accepted(&text, pos, width - 1, false), "{:?}", space);
        assert!(!is_break_accepted(&text, pos, width - 2, true), "{:?}", space);
        assert!(is_break_accepted(&text, pos, width, false), "{:?}", space);
    }
    // A line separator and a letter are no space separators.
    for other in ['\u{2028}', '\u{200b}', 'x', '\u{1681}'] {
        let text = format!("ab{}cd", other);
        let pos = 2 + other.len_utf8();
        let width = UnicodeWidthStr::width(&text[..pos]);
        if width > 0 {
            assert!(!is_break_accepted(&text, pos, width - 1, true), "{:?}", other);
        }
        assert!(is_break_accepted(&text, pos, width, true), "{:?}", other);
    }
}

#[test]
fn a_break_has_to_lie_between_characters() {
    let text = "\u{4e2d}\u{6587}";
    assert!(!is_break_accepted(text, 0, 10, false));
    assert!(!is_break_accepted(text, 1, 10, false));
    assert!(is_break_accepted(text, 3, 10, false));
    assert!(is_break_accepted(text, 6, 10, false));
    assert!(!is_break_accepted(text, 7, 10, false));
}

#[test]
fn punctuation_is_told_from_other_graphemes() {
    assert!(is_punctuation("!"));
    assert!(is_punctuation("!?"));
    assert!(is_punctuation("\\"));
    assert!(is_punctuation(""));
    assert!(!is_punctuation("a"));
    assert!(!is_punctuation("!a"));
    assert!(!is_punctuation("-"));
    assert!(!is_punctuation("("));
}

#[test]
fn white_space_is_told_from_other_graphemes() {
    assert!(is_whitespace(" "));
    assert!(is_whitespace(" \t\n"));
    assert!(is_whitespace("\u{3000}"));
    assert!(is_whitespace(""));
    assert!(!is_whitespace("a"));
    assert!(!is_whitespace(" a"));
}

#[test]
fn finder_breaks_behind_punctuation() {
    assert_eq!(alternative_punctuation_breaks("ab!cd", 9, false), vec![3]);
    assert_eq!(
        alternative_punctuation_breaks("a.b.c", 9, false),
        vec![2, 4]
    );
    assert_eq!(alternative_punctuation_breaks("a.b.c", 3, false), vec![2]);
    assert_eq!(alternative_punctuation_breaks("abcd", 9, false), vec![]);
    assert_eq!(alternative_punctuation_breaks("", 9, false), vec![]);
    assert_eq!(alternative_punctuation_breaks("!", 9, false), vec![]);
}

#[test]
fn finder_keeps_punctuation_together() {
    assert_eq!(alternative_punctuation_breaks("ab!!cd", 9, false), vec![4]);
    assert_eq!(alternative_punctuation_breaks("ab?!", 9, false), vec![]);
}

#[test]
fn finder_breaks_before_white_space_only_if_it_is_trimmed() {
    assert_eq!(alternative_punctuation_breaks("ab! cd", 9, false), vec![]);
    assert_eq!(alternative_punctuation_breaks("ab! cd", 9, true), vec![3]);
}

#[test]
fn finder_takes_graphemes_not_characters() {
    // "e" with a combining acute accent is one grapheme of three bytes.
    let text = "!e\u{301}!x";
    assert_eq!(alternative_punctuation_breaks(text, 9, false), vec![1, 5]);
    let starts = vec![0, 1, 4, 5];
    assert!(is_punctuation_break_at(text, &starts, 0, 9, false));
    assert!(!is_punctuation_break_at(text, &starts, 1, 9, false));
    assert!(is_punctuation_break_at(text, &starts, 2, 9, false));
    assert!(!is_punctuation_break_at(text, &starts, 3, 9, false));
    // The accent takes no column: the line up to the second break takes three.
    assert!(is_punctuation_break_at(text, &starts, 2, 3, false));
    assert!(!is_punctuation_break_at(text, &starts, 2, 2, false));
    // Starts that do not lie between characters offer nothing.
    assert!(!is_punctuation_break_at(text, &vec![0, 1, 3, 5], 0, 9, false));
}

#[test]
fn first_mandatory_break_wins() {
    let breaks = vec![
        (2, BreakKind::Allowed),
        (5, BreakKind::Mandatory),
        (7, BreakKind::Allowed),
        (9, BreakKind::Mandatory),
    ];
    assert_eq!(scanner_break(&breaks), Some(5));
}

#[test]
fn last_allowed_break_wins_without_a_mandatory_one() {
    let breaks = vec![
        (2, BreakKind::Allowed),
        (5, BreakKind::Allowed),
        (7, BreakKind::Allowed),
    ];
    assert_eq!(scanner_break(&breaks), Some(7));
    assert_eq!(scanner_break(&vec![]), None);
    assert_eq!(scanner_break(&vec![(0, BreakKind::Allowed)]), None);
}

#[test]
fn fallback_is_the_last_punctuation_or_the_end() {
    assert_eq!(fallback_break(&vec![2, 4], 9), 4);
    assert_eq!(fallback_break(&vec![], 9), 9);
}

#[test]
fn text_without_break_is_handed_out_whole() {
    let config = Config::default();
    let fmt = plain(5, false, &config);
    let splitter = StringSplitter::from_format("abcdefghijkl", &fmt, 5).unwrap();
    assert_eq!(
        lines_of(splitter),
        vec![SnippetState::EndOfInput("abcdefghijkl")]
    );
}

#[test]
fn punctuation_is_used_when_nothing_else_is_there() {
    let config = Config::default();
    let fmt = plain(8, false, &config);
    let splitter =
        StringSplitter::from_format("Placerat_felis._Mauris", &fmt, 8).unwrap();
    assert_eq!(
        lines_of(splitter),
        vec![SnippetState::EndOfInput("Placerat_felis._Mauris")]
    );
    let fmt = plain(16, false, &config);
    let splitter =
        StringSplitter::from_format("Placerat_felis._Mauris", &fmt, 16).unwrap();
    assert_eq!(
        lines_of(splitter),
        vec![
            SnippetState::LineEnd("Placerat_felis.", 15),
            SnippetState::EndOfInput("_Mauris")
        ]
    );
}

#[test]
fn budget_changes_with_the_kind_of_line() {
    let mut config = Config::default();
    config.set_max_width(12);
    // The first line has 8 - 1 + 1 columns, a line behind a line feed of the
    // text 12, a line behind a break 6.
    let fmt = plain(8, false, &config);
    let text = "aa bb cc\naa bb cc dd ee ff gg";
    let splitter = StringSplitter::from_format(text, &fmt, 6).unwrap();
    assert_eq!(
        lines_of(splitter),
        vec![
            SnippetState::EndWithLineFeed("aa bb cc\n", 9),
            SnippetState::LineEnd("aa bb cc dd ", 21),
            SnippetState::LineEnd("ee ff ", 27),
            SnippetState::EndOfInput("gg"),
        ]
    );
    let fmt = plain(7, false, &config);
    let mut splitter = StringSplitter::from_format(text, &fmt, 6).unwrap();
    assert_eq!(splitter.next(), Some(SnippetState::LineEnd("aa bb ", 6)));
}

#[test]
fn indented_budget_follows_a_line_feed_when_lines_cannot_start_bare() {
    let mut config = Config::default();
    config.set_max_width(12);
    let fmt = StringFormat {
        opener: "",
        closer: "",
        line_start: "//",
        line_end: "",
        shape: Shape::legacy(8, Indent::empty()),
        trim_end: false,
        config: &config,
    };
    let text = "aa\naa bb cc dd";
    let mut splitter = StringSplitter::from_format(text, &fmt, 6).unwrap();
    assert!(!splitter.is_bareline_ok());
    assert_eq!(
        splitter.next(),
        Some(SnippetState::EndWithLineFeed("aa\n", 3))
    );
    // With 12 columns the rest of the text would fit; with 8 it does not.
    assert_eq!(splitter.next(), Some(SnippetState::LineEnd("aa bb ", 9)));
    assert_eq!(splitter.next(), Some(SnippetState::EndOfInput("cc dd")));
}

#[test]
fn trimmed_line_feed_is_its_own_state() {
    let config = Config::default();
    let fmt = plain(20, true, &config);
    let splitter = StringSplitter::from_format("ab  \ncd  ", &fmt, 20).unwrap();
    assert_eq!(
        lines_of(splitter),
        vec![
            SnippetState::RemovedSignificantLineFeed("ab", 5),
            SnippetState::EndOfInput("cd")
        ]
    );
}

#[test]
fn update_reads_as_far_as_it_is_told() {
    let config = Config::default();
    let fmt = plain(20, true, &config);
    let mut splitter = StringSplitter::from_format("ab   cd", &fmt, 20).unwrap();
    assert_eq!(splitter.update(4), SnippetState::LineEnd("ab", 4));
    assert_eq!(splitter.update(3), SnippetState::EndOfInput(" cd"));
    assert_eq!(splitter.next(), None);
}

#[test]
fn url_markers_are_found() {
    assert!(contains_url("see https://example.org"));
    assert!(contains_url("http://example.org"));
    assert!(contains_url("x ftp://example.org y"));
    assert!(contains_url("file:///tmp/x"));
    assert!(!contains_url("aaa http not an url"));
    assert!(!contains_url("mailto://x"));
    assert!(!contains_url("http:/"));
    assert!(!contains_url(""));
}

#[test]
fn safe_break_goes_by_the_first_marker() {
    // A `://` behind another scheme starts no URL.
    assert_eq!(safe_break_after_url("x://y http://z.org w"), Some(19));
    assert_eq!(safe_break_after_url("no url here"), None);
    assert_eq!(safe_break_after_url("x://y z"), None);
    // The marker that stands first counts, whichever it is.
    assert_eq!(safe_break_after_url("ftp://a b https://c d"), Some(8));
    assert_eq!(safe_break_after_url("file://a"), Some(8));
}

#[test]
fn first_url_is_found() {
    assert_eq!(find_url("aaa http://example.org something"), Some(4));
    assert_eq!(find_url("x://y https://z.org w"), Some(6));
    assert_eq!(find_url("\u{4e2d} ftp://a http://b"), Some(4));
    assert_eq!(find_url("aaa http not an url"), None);
    assert_eq!(
        first_url("aaa http://example.org something"),
        Some((4, 23))
    );
    assert_eq!(first_url("aaa file://example.org"), Some((4, 22)));
    assert_eq!(first_url("aaa"), None);
}

#[test]
fn first_break_behind_a_position() {
    let breaks = vec![(2, false), (5, false), (9, true)];
    assert_eq!(first_break_at_or_after("ab cd efgh", &breaks, 0), Some(2));
    assert_eq!(first_break_at_or_after("ab cd efgh", &breaks, 3), Some(5));
    assert_eq!(first_break_at_or_after("ab cd efgh", &breaks, 5), Some(5));
    assert_eq!(first_break_at_or_after("ab cd efgh", &breaks, 10), None);
    // A position inside a character is passed over.
    assert_eq!(
        first_break_at_or_after("\u{4e2d}\u{6587}", &vec![(1, false), (3, false)], 1),
        Some(3)
    );
}

#[test]
fn first_url_is_not_broken() {
    let config = Config::default();
    let fmt = plain(10, false, &config);
    let text = "aaa http://example.org/some/long-path.html bbb ccc";
    let splitter = StringSplitter::from_format(text, &fmt, 10).unwrap();
    assert_eq!(
        lines_of(splitter),
        vec![
            SnippetState::LineEnd("aaa ", 4),
            SnippetState::LineEnd("http://example.org/some/long-path.html ", 43),
            SnippetState::EndOfInput("bbb ccc")
        ]
    );
}

#[test]
fn break_before_a_url_stays() {
    let config = Config::default();
    let fmt = plain(12, false, &config);
    let text = "aaa bbb http://example.org/some/long/path something";
    let splitter = StringSplitter::from_format(text, &fmt, 12).unwrap();
    assert_eq!(
        lines_of(splitter),
        vec![
            SnippetState::LineEnd("aaa bbb ", 8),
            SnippetState::LineEnd("http://example.org/some/long/path ", 42),
            SnippetState::EndOfInput("something")
        ]
    );
    assert_eq!(
        rewrite_string(text, &fmt, 12),
        Some("aaa bbb \nhttp://example.org/some/long/path \nsomething".to_string())
    );
}

#[test]
fn url_behind_another_separator_is_not_broken() {
    let config = Config::default();
    let fmt = plain(16, false, &config);
    let text = "x://y http://z.org/aaaa bb";
    let splitter = StringSplitter::from_format(text, &fmt, 16).unwrap();
    assert_eq!(
        lines_of(splitter),
        vec![
            SnippetState::LineEnd("x://y http://z.org/aaaa ", 24),
            SnippetState::EndOfInput("bb")
        ]
    );
}

#[test]
fn update_moves_only_a_break_inside_the_url() {
    let config = Config::default();
    let fmt = plain(40, false, &config);
    let text = "aaa http://example.org something";
    // before the URL, and at its first byte
    let mut splitter = StringSplitter::from_format(text, &fmt, 40).unwrap();
    assert_eq!(splitter.update(4), SnippetState::LineEnd("aaa ", 4));
    // the rest starts with the URL: a break inside it is moved behind it
    assert_eq!(
        splitter.update(7),
        SnippetState::LineEnd("http://example.org ", 23)
    );
    // inside the URL
    let mut splitter = StringSplitter::from_format(text, &fmt, 40).unwrap();
    assert_eq!(
        splitter.update(5),
        SnippetState::LineEnd("aaa http://example.org ", 23)
    );
    // behind the URL
    let mut splitter = StringSplitter::from_format(text, &fmt, 40).unwrap();
    assert_eq!(
        splitter.update(23),
        SnippetState::LineEnd("aaa http://example.org ", 23)
    );
    let mut splitter = StringSplitter::from_format(text, &fmt, 40).unwrap();
    assert_eq!(
        splitter.update(28),
        SnippetState::LineEnd("aaa http://example.org somet", 28)
    );
}

#[test]
fn url_at_the_end_is_not_broken() {
    let config = Config::default();
    let fmt = plain(10, true, &config);
    let text = "aaa http://example.org/some/long-path.html";
    let splitter = StringSplitter::from_format(text, &fmt, 10).unwrap();
    assert_eq!(
        lines_of(splitter),
        vec![
            SnippetState::LineEnd("aaa", 4),
            SnippetState::EndOfInput("http://example.org/some/long-path.html")
        ]
    );
}
