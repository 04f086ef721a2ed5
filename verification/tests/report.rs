use sway_analyzer::ast::Span;
use sway_analyzer::report::{Error, Finding, Project, Report, Severity, SourceFile};
use sway_analyzer::span_map::SpanMap;
use sway_analyzer::text::{insert_name, text_is};

fn project(path: &str, source: &str) -> Project {
    Project::new(vec![SourceFile { path: path.to_string(), source: source.as_bytes().to_vec() }])
}

#[test]
fn severity_is_ordered_from_low_to_critical() {
    assert!(Severity::Low < Severity::Medium);
    assert!(Severity::Medium < Severity::High);
    assert!(Severity::High < Severity::Critical);
    assert_eq!(Severity::Low.rank(), 0);
    assert_eq!(Severity::Medium.rank(), 1);
    assert_eq!(Severity::High.rank(), 2);
    assert_eq!(Severity::Critical.rank(), 3);
}

#[test]
fn report_keeps_findings_in_the_order_added() {
    let mut report = Report::new();
    assert!(report.entries.is_empty());
    report.add_entry("a.sw", 3, Severity::Low, "first".to_string());
    report.add_entry("b.sw", 1, Severity::Critical, "second".to_string());
    assert_eq!(
        report.entries,
        vec![
            Finding {
                path: "a.sw".to_string(),
                line: 3,
                severity: Severity::Low,
                message: "first".to_string(),
            },
            Finding {
                path: "b.sw".to_string(),
                line: 1,
                severity: Severity::Critical,
                message: "second".to_string(),
            },
        ]
    );
}

#[test]
fn span_to_line_counts_line_breaks_before_the_span() {
    let project = project("main.sw", "one\ntwo\n\nfour");
    assert_eq!(project.span_to_line("main.sw", &Span { start: 0, end: 3 }), Ok(1));
    assert_eq!(project.span_to_line("main.sw", &Span { start: 3, end: 4 }), Ok(1));
    assert_eq!(project.span_to_line("main.sw", &Span { start: 4, end: 7 }), Ok(2));
    assert_eq!(project.span_to_line("main.sw", &Span { start: 8, end: 8 }), Ok(3));
    assert_eq!(project.span_to_line("main.sw", &Span { start: 9, end: 13 }), Ok(4));
    assert_eq!(project.span_to_line("main.sw", &Span { start: 13, end: 13 }), Ok(4));
}

#[test]
fn span_to_line_of_an_empty_source() {
    let project = project("empty.sw", "");
    assert_eq!(project.span_to_line("empty.sw", &Span { start: 0, end: 0 }), Ok(1));
}

#[test]
fn span_to_line_fails_for_a_span_outside_the_file() {
    let project = project("main.sw", "one\ntwo");
    assert_eq!(
        project.span_to_line("main.sw", &Span { start: 5, end: 8 }),
        Err(Error::LineNotFound { path: "main.sw".to_string(), offset: 5 })
    );
    assert_eq!(
        project.span_to_line("main.sw", &Span { start: 6, end: 5 }),
        Err(Error::LineNotFound { path: "main.sw".to_string(), offset: 6 })
    );
    assert_eq!(
        project.span_to_line("main.sw", &Span { start: usize::MAX, end: usize::MAX }),
        Err(Error::LineNotFound { path: "main.sw".to_string(), offset: usize::MAX })
    );
}

#[test]
fn span_to_line_fails_for_an_unknown_file() {
    let project = project("main.sw", "one\ntwo");
    assert_eq!(
        project.span_to_line("other.sw", &Span { start: 0, end: 1 }),
        Err(Error::FileNotFound { path: "other.sw".to_string() })
    );
}

#[test]
fn span_to_line_uses_the_first_file_of_a_path() {
    let project = Project::new(vec![
        SourceFile { path: "a.sw".to_string(), source: b"x".to_vec() },
        SourceFile { path: "b.sw".to_string(), source: b"\n\ny".to_vec() },
        SourceFile { path: "b.sw".to_string(), source: b"y".to_vec() },
    ]);
    assert_eq!(project.span_to_line("b.sw", &Span { start: 2, end: 3 }), Ok(3));
}

#[test]
fn text_is_compares_whole_texts() {
    assert!(text_is(&"storage".to_string(), "storage"));
    assert!(!text_is(&"storage".to_string(), "storag"));
    assert!(!text_is(&"storage".to_string(), "Storage"));
    assert!(text_is(&String::new(), ""));
}

#[test]
fn insert_name_keeps_names_ascending_and_single() {
    let mut names: Vec<String> = Vec::new();
    insert_name(&mut names, "owner".to_string());
    insert_name(&mut names, "balance".to_string());
    insert_name(&mut names, "total".to_string());
    insert_name(&mut names, "owner".to_string());
    insert_name(&mut names, "admin".to_string());
    assert_eq!(names, vec!["admin", "balance", "owner", "total"]);
}

#[test]
fn insert_name_orders_by_code_point_and_prefix() {
    let mut names: Vec<String> = Vec::new();
    insert_name(&mut names, "ab".to_string());
    insert_name(&mut names, "abc".to_string());
    insert_name(&mut names, "a".to_string());
    insert_name(&mut names, "B".to_string());
    insert_name(&mut names, "_x".to_string());
    insert_name(&mut names, "é".to_string());
    insert_name(&mut names, "".to_string());
    assert_eq!(names, vec!["", "B", "_x", "a", "ab", "abc", "é"]);
}

#[test]
fn span_map_finds_what_was_inserted() {
    let mut map: SpanMap<u8> = SpanMap::new();
    let first = Span { start: 0, end: 4 };
    let second = Span { start: 0, end: 5 };
    assert_eq!(map.find(first), None);
    assert_eq!(map.find_or_insert(first, 1), 0);
    assert_eq!(map.find_or_insert(second, 2), 1);
    assert_eq!(map.find_or_insert(first, 3), 0);
    assert_eq!(map.find(second), Some(1));
    assert_eq!(map.entries, vec![(first, 1), (second, 2)]);
}
