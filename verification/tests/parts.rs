use file_find::entry::{path_le, sort_entries, DirectoryEntry};
use file_find::palette::{style_named, Colour, Style};
use file_find::pattern::{
    compile_pattern, pattern_matches, PatternFailure, PatternRole, SearchCriteria,
};
use file_find::report::{EntryFailure, LineMatch, TraversalResult};
use file_find::scan::{scan_lines, scan_text};
use file_find::text::{base_name, chars_of, split_lines};

#[test]
fn chars_of_keeps_every_character() {
    assert_eq!(chars_of("a/é\n"), vec!['a', '/', 'é', '\n']);
    assert_eq!(chars_of(""), Vec::<char>::new());
}

#[test]
fn base_name_is_what_follows_the_last_separator() {
    assert_eq!(base_name("./sub/b.txt"), "b.txt");
    assert_eq!(base_name("plain"), "plain");
    assert_eq!(base_name("/rooted"), "rooted");
    assert_eq!(base_name("dir/"), "");
    assert_eq!(base_name(""), "");
    assert_eq!(base_name("a/ü/ñ.txt"), "ñ.txt");
}

#[test]
fn split_lines_strips_terminators() {
    assert_eq!(split_lines("hello world\nfoo bar\n"), vec!["hello world", "foo bar"]);
    assert_eq!(split_lines("one\r\ntwo\r\n"), vec!["one", "two"]);
    assert_eq!(split_lines("last line open"), vec!["last line open"]);
    assert_eq!(split_lines("a\n\nb"), vec!["a", "", "b"]);
}

#[test]
fn split_lines_edge_cases() {
    assert_eq!(split_lines(""), Vec::<String>::new());
    assert_eq!(split_lines("\n"), vec![""]);
    assert_eq!(split_lines("\r\n"), vec![""]);
    assert_eq!(split_lines("bare\rreturn\n"), vec!["bare\rreturn"]);
    assert_eq!(split_lines("open\r"), vec!["open\r"]);
    assert_eq!(split_lines("x\r\r\n"), vec!["x\r"]);
}

#[test]
fn split_lines_agrees_with_std() {
    for text in ["", "a", "a\n", "\n\n", "a\r\nb\rc\n\r", "é\nü\r\n", "\r", "x\n\r\ny"] {
        let expected: Vec<String> = text.lines().map(|l| l.to_string()).collect();
        assert_eq!(split_lines(text), expected, "{:?}", text);
    }
}

#[test]
fn path_le_is_the_order_of_str() {
    assert!(path_le("", ""));
    assert!(path_le("", "a"));
    assert!(!path_le("a", ""));
    assert!(path_le("a", "a"));
    assert!(path_le("a", "ab"));
    assert!(!path_le("ab", "a"));
    assert!(path_le("Z", "a"));
    assert!(!path_le("b", "a"));
    for a in ["", "a", "ab", "b", "é", "z", "日本", "a/b", "a.b"] {
        for b in ["", "a", "ab", "b", "é", "z", "日本", "a/b", "a.b"] {
            assert_eq!(path_le(a, b), a <= b, "{:?} {:?}", a, b);
        }
    }
}

fn entry(path: &str, is_directory: bool) -> DirectoryEntry {
    DirectoryEntry { path: path.to_string(), is_directory }
}

#[test]
fn sort_entries_orders_by_path() {
    let sorted = sort_entries(vec![
        entry("./c", false),
        entry("./a", true),
        entry("./b", false),
        entry("./A", false),
    ]);
    assert_eq!(
        sorted,
        vec![entry("./A", false), entry("./a", true), entry("./b", false), entry("./c", false)]
    );
    assert_eq!(sort_entries(vec![]), vec![]);
}

#[test]
fn sort_entries_keeps_equal_paths_in_their_order() {
    let sorted = sort_entries(vec![entry("x", true), entry("a", false), entry("x", false)]);
    assert_eq!(sorted, vec![entry("a", false), entry("x", true), entry("x", false)]);
}

#[test]
fn pattern_matches_anywhere_in_the_text() {
    let pattern = compile_pattern("o b").unwrap();
    assert!(pattern_matches(&pattern, "foo bar"));
    assert!(!pattern_matches(&pattern, "hello world"));
    assert!(!pattern_matches(&pattern, "o b".trim_end_matches('b')));
    let anchored = compile_pattern(r"^notes\.txt$").unwrap();
    assert!(pattern_matches(&anchored, "notes.txt"));
    assert!(!pattern_matches(&anchored, "notes_txt"));
}

#[test]
fn malformed_pattern_is_a_syntax_failure() {
    match compile_pattern("foo(bar") {
        Err(PatternFailure::Syntax(message)) => assert!(!message.is_empty()),
        other => panic!("{:?}", other),
    }
}

#[test]
fn oversized_pattern_is_too_large() {
    match compile_pattern(r"\w{1000}\w{1000}\w{1000}") {
        Err(PatternFailure::TooLarge(limit)) => assert!(limit > 0),
        other => panic!("{:?}", other),
    }
}

#[test]
fn criteria_report_which_pattern_failed() {
    let error = SearchCriteria::compile("(", Some("fine")).unwrap_err();
    assert_eq!(error.role, PatternRole::Filename);
    let error = SearchCriteria::compile("fine", Some("[")).unwrap_err();
    assert_eq!(error.role, PatternRole::Content);
    let error = SearchCriteria::compile("(", Some("[")).unwrap_err();
    assert_eq!(error.role, PatternRole::Filename);
    assert!(matches!(error.failure, PatternFailure::Syntax(_)));
}

#[test]
fn criteria_hold_a_content_pattern_when_one_is_given() {
    assert!(SearchCriteria::compile("a", None).unwrap().content_pattern.is_none());
    let criteria = SearchCriteria::compile("a", Some("b")).unwrap();
    assert_eq!(criteria.filename_pattern.as_str(), "a");
    assert_eq!(criteria.content_pattern.unwrap().as_str(), "b");
}

#[test]
fn from_compiled_puts_the_filename_failure_first() {
    let ok = compile_pattern("a");
    let bad = compile_pattern("(");
    let failure = bad.clone().unwrap_err();
    let error = SearchCriteria::from_compiled(bad.clone(), Some(ok.clone())).unwrap_err();
    assert_eq!((error.role, error.failure), (PatternRole::Filename, failure.clone()));
    let error = SearchCriteria::from_compiled(ok.clone(), Some(bad.clone())).unwrap_err();
    assert_eq!((error.role, error.failure), (PatternRole::Content, failure.clone()));
    let error = SearchCriteria::from_compiled(bad.clone(), None).unwrap_err();
    assert_eq!(error.role, PatternRole::Filename);
    assert!(SearchCriteria::from_compiled(ok.clone(), None).is_ok());
    assert!(SearchCriteria::from_compiled(ok.clone(), Some(ok)).is_ok());
}

#[test]
fn selects_looks_at_the_base_name() {
    let criteria = SearchCriteria::compile(r"^b\.txt$", None).unwrap();
    assert!(criteria.selects("./sub/b.txt"));
    assert!(criteria.selects("b.txt"));
    assert!(!criteria.selects("./b.txt/other"));
    assert!(!criteria.selects("./sub/ab.txt"));
}

#[test]
fn scan_lines_numbers_from_one() {
    let pattern = compile_pattern("o").unwrap();
    let lines = vec!["one".to_string(), "x".to_string(), "two".to_string()];
    assert_eq!(
        scan_lines("p", &lines, &pattern),
        vec![
            LineMatch { file_path: "p".to_string(), line_number: 1, line_text: "one".to_string() },
            LineMatch { file_path: "p".to_string(), line_number: 3, line_text: "two".to_string() },
        ]
    );
    assert_eq!(scan_lines("p", &vec![], &pattern), vec![]);
}

#[test]
fn scan_text_splits_and_scans() {
    let pattern = compile_pattern("^foo").unwrap();
    assert_eq!(
        scan_text("n", "hello world\r\nfoo bar\r\n", &pattern),
        Ok(vec![LineMatch {
            file_path: "n".to_string(),
            line_number: 2,
            line_text: "foo bar".to_string(),
        }])
    );
    assert_eq!(scan_text("n", "nothing here", &pattern), Ok(vec![]));
    assert_eq!(scan_text("n", "", &pattern), Err(EntryFailure::EmptyFile));
}

#[test]
fn merge_ors_the_flag_and_appends_the_lines() {
    let line = |n: u32| LineMatch {
        file_path: "f".to_string(),
        line_number: n,
        line_text: "t".to_string(),
    };
    let mut first = TraversalResult::new();
    assert!(!first.any_filename_matched);
    assert_eq!(first.line_matches, vec![]);
    first.line_matches.push(line(1));
    first.merge(TraversalResult { any_filename_matched: true, line_matches: vec![line(2)] });
    assert!(first.any_filename_matched);
    assert_eq!(first.line_matches, vec![line(1), line(2)]);
    first.merge(TraversalResult::new());
    assert!(first.any_filename_matched);
    assert_eq!(first.line_matches, vec![line(1), line(2)]);
    let mut none = TraversalResult::new();
    none.merge(TraversalResult::new());
    assert!(!none.any_filename_matched);
}

#[test]
fn styles_go_by_name() {
    let line = |colour| Style { colour, ends_line: true };
    assert_eq!(style_named("green"), line(Colour::Green));
    assert_eq!(style_named("red"), line(Colour::Red));
    assert_eq!(style_named("cyan"), line(Colour::Cyan));
    assert_eq!(style_named("purple"), line(Colour::Purple));
    assert_eq!(style_named("blue"), line(Colour::Blue));
    assert_eq!(style_named("yellow"), line(Colour::Yellow));
    assert_eq!(style_named("flush_green"), Style { colour: Colour::Green, ends_line: false });
}

#[test]
fn unknown_style_is_a_yellow_line() {
    let yellow = Style { colour: Colour::Yellow, ends_line: true };
    assert_eq!(style_named("orange"), yellow);
    assert_eq!(style_named(""), yellow);
    assert_eq!(style_named("Green"), yellow);
    assert_eq!(style_named("green "), yellow);
}

#[test]
fn compiled_pattern_is_made_from_the_string_given() {
    for source in ["a+b", r".*\.txt$", "", "^foo bar$", r"\d{3}-é"] {
        let pattern = compile_pattern(source).unwrap();
        assert_eq!(pattern.as_str(), source);
    }
    let criteria = SearchCriteria::compile(r"notes\.txt", Some("foo")).unwrap();
    assert_eq!(criteria.filename_pattern.as_str(), r"notes\.txt");
    assert_eq!(criteria.content_pattern.unwrap().as_str(), "foo");
}
