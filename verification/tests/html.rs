use ts_borrow_checker::html::{escape_html, render, HtmlFile, HtmlReport};
use ts_borrow_checker::Diagnostic;

#[test]
fn report_navigates_files_and_escapes_untrusted_content() {
    let diagnostics = vec![Diagnostic {
        code: "TSB002",
        line: 1,
        column: 1,
        message: "bad & disposed <value>".to_owned(),
    }];
    let files = vec![HtmlFile {
        path: "src/<unsafe>.ts",
        source: "<script>alert('x')</script>",
        diagnostics: &diagnostics,
    }];
    let rendered = render(&HtmlReport {
        files: &files,
        tracked_owners: 1,
        tracked_borrows: 0,
    });

    assert!(rendered.contains("href=\"#file-0\""));
    assert!(rendered.contains("src/&lt;unsafe&gt;.ts"));
    assert!(rendered.contains("bad &amp; disposed &lt;value&gt;"));
    assert!(rendered.contains("&lt;script&gt;alert(&#39;x&#39;)&lt;/script&gt;"));
    assert!(!rendered.contains("<script>alert('x')</script>"));
}

#[test]
fn escaping_replaces_every_markup_character() {
    assert_eq!(
        escape_html("a&b<c>d\"e'f"),
        "a&amp;b&lt;c&gt;d&quot;e&#39;f"
    );
    assert_eq!(escape_html("plain text ü"), "plain text ü");
    assert_eq!(escape_html(""), "");
}

#[test]
fn clean_report_says_passed_and_counts() {
    let files = vec![HtmlFile {
        path: "a.ts",
        source: "const x = 1;\n",
        diagnostics: &[],
    }];
    let rendered = render(&HtmlReport {
        files: &files,
        tracked_owners: 12,
        tracked_borrows: 305,
    });
    assert!(rendered.starts_with("<!doctype html>"));
    assert!(rendered.ends_with("</html>\n"));
    assert!(rendered.contains("<h1>Passed</h1>"));
    assert!(rendered.contains("<span class=\"status passed\">Passed</span>"));
    assert!(rendered.contains("<div><strong>1</strong><span>files</span></div>"));
    assert!(rendered.contains("<div><strong>0</strong><span>diagnostics</span></div>"));
    assert!(rendered.contains("<div><strong>12</strong><span>ownership contracts</span></div>"));
    assert!(rendered.contains("<div><strong>305</strong><span>borrows</span></div>"));
    assert!(rendered.contains("<li data-nav=\"0\"><a href=\"#file-0\"><span>a.ts</span><b>0</b></a></li>\n"));
    assert!(rendered.contains(
        "<section class=\"file\" id=\"file-0\" data-file=\"0\" data-search=\"a.ts \"><header><div><p class=\"eyebrow\">File</p><h2>a.ts</h2></div><span>0 diagnostic(s)</span></header>\n<p class=\"clean\">No ownership violations found in this file.</p></section>\n"
    ));
}

#[test]
fn diagnostic_shows_code_location_and_nearby_lines() {
    let diagnostics = vec![Diagnostic {
        code: "E0382",
        line: 4,
        column: 1,
        message: "use of moved value: `value`".to_owned(),
    }];
    let source = "one\ntwo\nthree\nfour\nfive\nsix\n";
    let files = vec![HtmlFile {
        path: "Dir/File.TS",
        source,
        diagnostics: &diagnostics,
    }];
    let rendered = render(&HtmlReport {
        files: &files,
        tracked_owners: 1,
        tracked_borrows: 0,
    });
    assert!(rendered.contains("<h1>Violations found</h1>"));
    assert!(rendered.contains("<span class=\"status failed\">Violations found</span>"));
    assert!(rendered.contains("data-search=\"dir/file.ts e0382 use of moved value: `value`\""));
    assert!(rendered.contains(
        "<article class=\"diagnostic\" id=\"file-0-diagnostic-0\"><div class=\"diagnostic-heading\"><code>E0382</code><span>line 4, column 1</span></div><h3>use of moved value: `value`</h3><pre aria-label=\"Source context\"><code>"
    ));
    let rows = "<span class=\"line\"><span class=\"line-number\">2</span><span>two</span></span>\n\
<span class=\"line\"><span class=\"line-number\">3</span><span>three</span></span>\n\
<span class=\"line target\"><span class=\"line-number\">4</span><span>four</span></span>\n\
<span class=\"line\"><span class=\"line-number\">5</span><span>five</span></span>\n\
</code></pre></article>\n";
    assert!(rendered.contains(rows));
    assert!(!rendered.contains("<span>one</span>"));
    assert!(!rendered.contains("<span>six</span>"));
}

#[test]
fn snippet_is_empty_past_the_end_of_the_source() {
    let diagnostics = vec![Diagnostic {
        code: "TSB001",
        line: 10,
        column: 3,
        message: "m".to_owned(),
    }];
    let files = vec![HtmlFile {
        path: "p.ts",
        source: "a\nb\n",
        diagnostics: &diagnostics,
    }];
    let rendered = render(&HtmlReport {
        files: &files,
        tracked_owners: 0,
        tracked_borrows: 0,
    });
    assert!(rendered.contains("<h3>m</h3><pre aria-label=\"Source context\"><code></code></pre></article>\n"));
}

#[test]
fn escaped_text_reads_back_to_the_original() {
    let original = "if (a < b && c > d) { say(\"it's\"); } &amp;";
    let escaped = escape_html(original);
    let mut rest = escaped.as_str();
    let mut decoded = String::new();
    while let Some(c) = rest.chars().next() {
        if c == '&' {
            let references = [("&amp;", '&'), ("&lt;", '<'), ("&gt;", '>'), ("&quot;", '"'), ("&#39;", '\'')];
            let (reference, plain) = references
                .iter()
                .find(|(reference, _)| rest.starts_with(reference))
                .expect("every & starts a character reference");
            decoded.push(*plain);
            rest = &rest[reference.len()..];
        } else {
            decoded.push(c);
            rest = &rest[c.len_utf8()..];
        }
    }
    assert_eq!(decoded, original);
    assert_ne!(escape_html("a&b"), "a&b");
}

#[test]
fn diagnostic_on_an_empty_source_has_no_snippet() {
    let diagnostics = vec![Diagnostic {
        code: "TSB001",
        line: usize::MAX,
        column: 1,
        message: "m".to_string(),
    }];
    let files = [HtmlFile {
        path: "empty.ts",
        source: "",
        diagnostics: &diagnostics,
    }];
    let html = render(&HtmlReport {
        files: &files,
        tracked_owners: 0,
        tracked_borrows: 0,
    });
    assert!(html.contains(&format!("line {}, column 1", usize::MAX)));
    assert!(!html.contains("Source context"));
}

#[test]
fn markup_does_not_depend_on_untrusted_text() {
    let plain = vec![Diagnostic {
        code: "TSB002",
        line: 2,
        column: 1,
        message: "use of disposed value: `a`".to_string(),
    }];
    let hostile = vec![Diagnostic {
        code: "<b>",
        line: 2,
        column: 9,
        message: "</article><script>x>y</script>".to_string(),
    }];
    let first = [HtmlFile {
        path: "a.ts",
        source: "one\ntwo\nthree\n",
        diagnostics: &plain,
    }];
    let second = [HtmlFile {
        path: "<img src=x onerror=alert(1)>.ts",
        source: "<a>\n<b>\n<c>\n",
        diagnostics: &hostile,
    }];
    let a = render(&HtmlReport {
        files: &first,
        tracked_owners: 1,
        tracked_borrows: 0,
    });
    let b = render(&HtmlReport {
        files: &second,
        tracked_owners: 7,
        tracked_borrows: 3,
    });
    let count = |html: &str, c: char| html.chars().filter(|&x| x == c).count();
    assert_eq!(count(&a, '<'), count(&b, '<'));
    assert_eq!(count(&a, '>'), count(&b, '>'));
}
