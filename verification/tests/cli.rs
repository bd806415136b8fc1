use ts_borrow_checker::cli::{
    exit_status, human_line, is_ignored_directory_name, is_source_extension, json_escape,
    json_line, parse_options, summarize, summary_line, usage, warning_line, warns_no_contracts,
    OutputFormat, Summary,
};
use ts_borrow_checker::{analyze_report, AnalysisReport, Diagnostic};

fn args(list: &[&str]) -> Vec<String> {
    list.iter().map(|s| s.to_string()).collect()
}

fn error_of(list: &[&str]) -> String {
    match parse_options(args(list)) {
        Ok(_) => panic!("expected an error"),
        Err(e) => e,
    }
}

#[test]
fn parses_check_with_formats_and_output() {
    let o = parse_options(args(&["check", "src"])).unwrap();
    assert_eq!(o.path, "src");
    assert_eq!(o.format, OutputFormat::Human);
    assert!(o.output.is_none());

    let o = parse_options(args(&["check", "src", "--format", "json"])).unwrap();
    assert_eq!(o.format, OutputFormat::Json);

    let o = parse_options(args(&["check", "src", "--format=html", "--output=r.html"])).unwrap();
    assert_eq!(o.format, OutputFormat::Html);
    assert_eq!(o.output.as_deref(), Some("r.html"));

    let o = parse_options(args(&["check", "src", "--output", "x.html", "--format", "html"])).unwrap();
    assert_eq!(o.output.as_deref(), Some("x.html"));

    let o = parse_options(args(&["check", "src", "--format=--format=json"])).unwrap();
    assert_eq!(o.format, OutputFormat::Json);
}

#[test]
fn refuses_bad_invocations() {
    assert_eq!(error_of(&[]), "a file or directory path is required");
    assert_eq!(error_of(&["check"]), "a file or directory path is required");
    assert_eq!(error_of(&["check", "--format"]), "a file or directory path is required");
    assert_eq!(error_of(&["--help"]), usage());
    assert_eq!(error_of(&["-h"]), usage());
    assert_eq!(error_of(&["lint", "src"]), "unknown command: lint");
    assert_eq!(error_of(&["check", "src", "--format"]), "--format requires human, json, or html");
    assert_eq!(error_of(&["check", "src", "--format", "xml"]), "unsupported output format: xml");
    assert_eq!(error_of(&["check", "src", "--output"]), "--output requires a file path");
    assert_eq!(error_of(&["check", "src", "--verbose"]), "unknown argument: --verbose");
    assert_eq!(error_of(&["check", "src", "-h"]), usage());
    assert_eq!(
        error_of(&["check", "src", "--format", "html"]),
        "--format html requires --output <report.html>"
    );
    assert_eq!(
        error_of(&["check", "src", "--output", "r.html"]),
        "--output is only supported with --format html"
    );
}

#[test]
fn source_and_ignored_names() {
    for e in ["ts", "tsx", "js", "jsx"] {
        assert!(is_source_extension(e));
    }
    for e in ["rs", "TS", "mjs", ""] {
        assert!(!is_source_extension(e));
    }
    for d in [".git", "node_modules", "target"] {
        assert!(is_ignored_directory_name(d));
    }
    assert!(!is_ignored_directory_name("src"));
}

#[test]
fn json_escaping() {
    assert_eq!(json_escape("a\"b\\c\nd\re\tf"), "a\\\"b\\\\c\\nd\\re\\tf");
    assert_eq!(json_escape("\u{1}\u{1f}\u{7f}\u{9f}"), "\\u0001\\u001f\\u007f\\u009f");
    assert_eq!(json_escape("plain é"), "plain é");
}

#[test]
fn diagnostic_lines() {
    let d = Diagnostic {
        code: "E0382",
        line: 12,
        column: 3,
        message: "use of moved value: `a\"b`".to_owned(),
    };
    assert_eq!(
        human_line("src/a.ts", &d),
        "src/a.ts:12:3: error[E0382]: use of moved value: `a\"b`"
    );
    assert_eq!(
        json_line("src/\"a\".ts", &d),
        "{\"file\":\"src/\\\"a\\\".ts\",\"code\":\"E0382\",\"line\":12,\"column\":3,\"message\":\"use of moved value: `a\\\"b`\"}"
    );
}

#[test]
fn successful_check_prints_an_explicit_summary() {
    let report = analyze_report("const v: Owned<V> = make();\nmove(v);\n");
    let summary = summarize(&vec![report]).unwrap();
    assert_eq!(exit_status(&summary), 0);
    let line = summary_line(OutputFormat::Human, &summary);
    assert!(line.contains("ok: checked"));
    assert!(line.contains("no ownership violations found"));
    assert!(line.contains("ownership contract(s)"));
    assert_eq!(
        line,
        "ok: checked 1 source file(s); analyzed 1 ownership contract(s) and 0 borrow(s); no ownership violations found"
    );
    assert!(!warns_no_contracts(&summary));
}

#[test]
fn unannotated_code_warns_instead_of_implying_full_coverage() {
    let report = analyze_report("function add(a, b) {\n  return a + b;\n}\n");
    let summary = summarize(&vec![report]).unwrap();
    assert_eq!(exit_status(&summary), 0);
    assert!(summary_line(OutputFormat::Human, &summary).contains("analyzed 0 ownership contract(s)"));
    assert!(warns_no_contracts(&summary));
    let warning = warning_line(summary.files, false);
    assert!(warning.contains("found no ownership contracts"));
    assert_eq!(
        warning,
        "warning: checked 1 source file(s), but found no ownership contracts; add Owned<T>, Resource<T>, @owned, or @resource"
    );
    assert!(warning_line(3, true).starts_with("::warning title=No ownership contracts::checked 3 source file(s)"));
}

#[test]
fn failing_check_returns_a_ci_failure_status() {
    let failing = analyze_report("const r: Resource<R> = open();\n");
    let clean = analyze_report("const v: Owned<V> = make();\n");
    let summary = summarize(&vec![failing, clean]).unwrap();
    assert_eq!(summary.files, 2);
    assert_eq!(summary.diagnostics, 1);
    assert_eq!(summary.tracked_owners, 2);
    assert_eq!(exit_status(&summary), 1);
    assert_eq!(
        summary_line(OutputFormat::Human, &summary),
        "error: checked 2 source file(s); found 1 ownership violation(s) across 2 ownership contract(s) and 0 borrow(s)"
    );
    assert_eq!(
        summary_line(OutputFormat::Json, &summary),
        "{\"status\":\"violations\",\"files\":2,\"diagnostics\":1,\"trackedOwners\":2,\"trackedBorrows\":0}"
    );
    assert_eq!(
        summary_line(OutputFormat::Html, &summary),
        "html report: checked 2 source file(s); found 1 ownership violation(s)"
    );
}

#[test]
fn clean_summaries_in_every_format() {
    let s = Summary {
        files: 4,
        diagnostics: 0,
        tracked_owners: 7,
        tracked_borrows: 10,
    };
    assert_eq!(
        summary_line(OutputFormat::Json, &s),
        "{\"status\":\"ok\",\"files\":4,\"diagnostics\":0,\"trackedOwners\":7,\"trackedBorrows\":10}"
    );
    assert_eq!(
        summary_line(OutputFormat::Html, &s),
        "html report: checked 4 source file(s); no ownership violations found"
    );
}

#[test]
fn summarize_refuses_overflowing_totals() {
    let big = AnalysisReport {
        diagnostics: Vec::new(),
        tracked_owners: usize::MAX,
        tracked_borrows: 0,
    };
    let one = AnalysisReport {
        diagnostics: Vec::new(),
        tracked_owners: 1,
        tracked_borrows: 0,
    };
    assert!(summarize(&vec![big, one]).is_none());
    assert_eq!(summarize(&vec![]).unwrap().files, 0);
}

#[test]
fn json_escaping_reads_back_and_leaves_no_control_character() {
    let original = "q\"b\\s\nn\rr\tt\u{1}\u{7f}é";
    let escaped = json_escape(original);
    assert!(!escaped.chars().any(char::is_control));
    let mut decoded = String::new();
    let mut chars = escaped.chars();
    while let Some(c) = chars.next() {
        assert_ne!(c, '"');
        if c != '\\' {
            decoded.push(c);
            continue;
        }
        match chars.next().unwrap() {
            '"' => decoded.push('"'),
            '\\' => decoded.push('\\'),
            'n' => decoded.push('\n'),
            'r' => decoded.push('\r'),
            't' => decoded.push('\t'),
            'u' => {
                let hex: String = chars.by_ref().take(4).collect();
                let value = u32::from_str_radix(&hex, 16).unwrap();
                decoded.push(char::from_u32(value).unwrap());
            }
            other => panic!("unexpected escape {other}"),
        }
    }
    assert_eq!(decoded, original);
}
