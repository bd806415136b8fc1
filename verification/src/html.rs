//! Self-contained HTML reports for ownership analysis results.
//!
//! Rendering is pure: the report is a function of the files, their sources and
//! diagnostics, and the counts. Every path, code, message and source fragment
//! is HTML-escaped.

use vstd::prelude::*;
use crate::report::{diagnostics_view, Diagnostic, DiagnosticView};
use crate::scan::{count_char, lemma_count_char_append};
use crate::text::{chars_of, decimal, digit, lines, push_decimal, split_lines, starts_with, views};

verus! {

broadcast use vstd::string::group_string_axioms;

/// One analyzed file: its path as displayed, its source text and its diagnostics.
pub struct HtmlFile<'a> {
    pub path: &'a str,
    pub source: &'a str,
    pub diagnostics: &'a [Diagnostic],
}

/// The files of a report with the counts of ownership contracts and borrows.
pub struct HtmlReport<'a> {
    pub files: &'a [HtmlFile<'a>],
    pub tracked_owners: usize,
    pub tracked_borrows: usize,
}

/// A file of a report as values.
pub struct FileView {
    pub path: Seq<char>,
    pub source: Seq<char>,
    pub diagnostics: Seq<DiagnosticView>,
}

impl<'a> View for HtmlFile<'a> {
    type V = FileView;

    open spec fn view(&self) -> FileView {
        FileView {
            path: self.path@,
            source: self.source@,
            diagnostics: diagnostics_view(self.diagnostics@),
        }
    }
}

/// The views of a sequence of files.
pub open spec fn files_view<'a>(files: Seq<HtmlFile<'a>>) -> Seq<FileView> {
    Seq::new(files.len(), |i: int| files[i]@)
}

/// The lower-case form of a text, as `str::to_lowercase` computes it with the
/// Unicode case mappings.
pub uninterp spec fn lowercase(s: Seq<char>) -> Seq<char>;

/// Calls `str::to_lowercase`; the result is `lowercase` of the argument.
///
/// What `lowercase` is on given text (the Unicode lower-case mapping) is left
/// unsaid; only that the result depends on the text alone is stated.
#[verifier::external_body]
fn to_lowercase(s: &str) -> (r: String)
    ensures
        r@ == lowercase(s@),
{
    s.to_lowercase()
}

// ---------------------------------------------------------------------------
// Fixed pieces of the document
// ---------------------------------------------------------------------------

pub const TOPBAR_OPEN: &'static str = "<header class=\"topbar\"><div><p class=\"eyebrow\">tsborrow analysis</p><h1>";
pub const TOPBAR_STATUS: &'static str = "</h1></div><span class=\"status ";
pub const TAG_END: &'static str = "\">";
pub const TOPBAR_CLOSE: &'static str = "</span></header>\n";
pub const METRICS_FILES: &'static str = "<section class=\"metrics\" aria-label=\"Analysis summary\"><div><strong>";
pub const METRICS_DIAGNOSTICS: &'static str = "</strong><span>files</span></div><div><strong>";
pub const METRICS_OWNERS: &'static str = "</strong><span>diagnostics</span></div><div><strong>";
pub const METRICS_BORROWS: &'static str = "</strong><span>ownership contracts</span></div><div><strong>";
pub const METRICS_CLOSE: &'static str = "</strong><span>borrows</span></div></section>\n";
pub const NAV_OPEN: &'static str = "<div class=\"layout\"><aside><label for=\"file-filter\">Filter files</label><input id=\"file-filter\" type=\"search\" placeholder=\"Type a path or diagnostic\"><nav aria-label=\"Analyzed files\"><ul>\n";
pub const NAV_ITEM_OPEN: &'static str = "<li data-nav=\"";
pub const NAV_ITEM_LINK: &'static str = "\"><a href=\"#file-";
pub const NAV_ITEM_PATH: &'static str = "\"><span>";
pub const NAV_ITEM_COUNT: &'static str = "</span><b>";
pub const NAV_ITEM_CLOSE: &'static str = "</b></a></li>\n";
pub const NAV_CLOSE: &'static str = "</ul></nav></aside><main>\n";
pub const MAIN_CLOSE: &'static str = "</main></div>";
pub const FILE_OPEN: &'static str = "<section class=\"file\" id=\"file-";
pub const FILE_DATA: &'static str = "\" data-file=\"";
pub const FILE_SEARCH: &'static str = "\" data-search=\"";
pub const FILE_TITLE: &'static str = "\"><header><div><p class=\"eyebrow\">File</p><h2>";
pub const FILE_COUNT: &'static str = "</h2></div><span>";
pub const FILE_HEADER_CLOSE: &'static str = " diagnostic(s)</span></header>\n";
pub const FILE_CLEAN: &'static str = "<p class=\"clean\">No ownership violations found in this file.</p>";
pub const FILE_CLOSE: &'static str = "</section>\n";
pub const ARTICLE_OPEN: &'static str = "<article class=\"diagnostic\" id=\"file-";
pub const ARTICLE_INDEX: &'static str = "-diagnostic-";
pub const ARTICLE_CODE: &'static str = "\"><div class=\"diagnostic-heading\"><code>";
pub const ARTICLE_LINE: &'static str = "</code><span>line ";
pub const ARTICLE_COLUMN: &'static str = ", column ";
pub const ARTICLE_TITLE: &'static str = "</span></div><h3>";
pub const ARTICLE_TITLE_CLOSE: &'static str = "</h3>";
pub const ARTICLE_CLOSE: &'static str = "</article>\n";
pub const SNIPPET_OPEN: &'static str = "<pre aria-label=\"Source context\"><code>";
pub const SNIPPET_CLOSE: &'static str = "</code></pre>";
pub const ROW_OPEN: &'static str = "<span class=\"";
pub const ROW_TARGET: &'static str = "line target";
pub const ROW_PLAIN: &'static str = "line";
pub const ROW_NUMBER: &'static str = "\"><span class=\"line-number\">";
pub const ROW_TEXT: &'static str = "</span><span>";
pub const ROW_CLOSE: &'static str = "</span></span>\n";
pub const STATUS_PASSED: &'static str = "Passed";
pub const STATUS_FAILED: &'static str = "Violations found";
pub const CLASS_PASSED: &'static str = "passed";
pub const CLASS_FAILED: &'static str = "failed";

// ---------------------------------------------------------------------------
// Specification
// ---------------------------------------------------------------------------

/// The escaped form of one character: `&`, `<`, `>`, `"` and `'` become
/// character references; every other character stands for itself.
pub open spec fn escape_char(c: char) -> Seq<char> {
    if c == '&' {
        seq!['&', 'a', 'm', 'p', ';']
    } else if c == '<' {
        seq!['&', 'l', 't', ';']
    } else if c == '>' {
        seq!['&', 'g', 't', ';']
    } else if c == '"' {
        seq!['&', 'q', 'u', 'o', 't', ';']
    } else if c == '\'' {
        seq!['&', '#', '3', '9', ';']
    } else {
        seq![c]
    }
}

/// The HTML-escaped form of a text.
pub open spec fn escape(s: Seq<char>) -> Seq<char>
    decreases s.len(),
{
    if s.len() == 0 {
        seq![]
    } else {
        escape(s.drop_last()) + escape_char(s.last())
    }
}

/// One source line of a snippet: its number and escaped text, marked when it
/// is the diagnostic's line.
pub open spec fn snippet_row(line_number: int, target: int, text: Seq<char>) -> Seq<char> {
    ROW_OPEN@ + (if line_number == target {
        ROW_TARGET@
    } else {
        ROW_PLAIN@
    }) + ROW_NUMBER@ + decimal(line_number as nat) + ROW_TEXT@ + escape(text) + ROW_CLOSE@
}

/// The rows for line numbers `start` through `end`.
pub open spec fn snippet_rows(ls: Seq<Seq<char>>, target: int, start: int, end: int) -> Seq<char>
    decreases end - start + 1,
{
    if end < start {
        seq![]
    } else {
        snippet_rows(ls, target, start, end - 1) + snippet_row(end, target, ls[end - 1])
    }
}

/// The source lines around a diagnostic's line: up to two before and one after.
pub open spec fn snippet(source: Seq<char>, target: int) -> Seq<char> {
    let ls = lines(source);
    if ls.len() == 0 || target == 0 {
        seq![]
    } else {
        let start = if target - 2 > 1 {
            target - 2
        } else {
            1
        };
        let end = if target + 1 < ls.len() {
            target + 1
        } else {
            ls.len() as int
        };
        SNIPPET_OPEN@ + snippet_rows(ls, target, start, end) + SNIPPET_CLOSE@
    }
}

/// One diagnostic: its code, location, message and source context.
pub open spec fn diagnostic_article(
    file_index: int,
    diagnostic_index: int,
    source: Seq<char>,
    d: DiagnosticView,
) -> Seq<char> {
    ARTICLE_OPEN@ + decimal(file_index as nat) + ARTICLE_INDEX@ + decimal(diagnostic_index as nat)
        + ARTICLE_CODE@ + escape(d.code) + ARTICLE_LINE@ + decimal(d.line as nat) + ARTICLE_COLUMN@
        + decimal(d.column as nat) + ARTICLE_TITLE@ + escape(d.message) + ARTICLE_TITLE_CLOSE@
        + snippet(source, d.line) + ARTICLE_CLOSE@
}

/// The articles for the first `n` diagnostics of a file.
pub open spec fn diagnostic_articles(
    file_index: int,
    source: Seq<char>,
    ds: Seq<DiagnosticView>,
    n: int,
) -> Seq<char>
    decreases n,
{
    if n <= 0 {
        seq![]
    } else {
        diagnostic_articles(file_index, source, ds, n - 1) + diagnostic_article(
            file_index,
            n - 1,
            source,
            ds[n - 1],
        )
    }
}

/// The searchable text of one diagnostic: its code and message.
pub open spec fn search_part(d: DiagnosticView) -> Seq<char> {
    d.code + seq![' '] + d.message
}

/// The searchable texts of the diagnostics, separated by spaces.
pub open spec fn search_parts(ds: Seq<DiagnosticView>) -> Seq<char>
    decreases ds.len(),
{
    if ds.len() == 0 {
        seq![]
    } else if ds.len() == 1 {
        search_part(ds[0])
    } else {
        search_parts(ds.drop_last()) + seq![' '] + search_part(ds.last())
    }
}

/// What the filter matches a file by: its path, then its diagnostics.
pub open spec fn search_text(f: FileView) -> Seq<char> {
    f.path + seq![' '] + search_parts(f.diagnostics)
}

/// A file's section, with the lower-cased search text given.
pub open spec fn file_section_with(file_index: int, f: FileView, search: Seq<char>) -> Seq<char> {
    FILE_OPEN@ + decimal(file_index as nat) + FILE_DATA@ + decimal(file_index as nat) + FILE_SEARCH@
        + escape(search) + FILE_TITLE@ + escape(f.path) + FILE_COUNT@ + decimal(
        f.diagnostics.len(),
    ) + FILE_HEADER_CLOSE@ + (if f.diagnostics.len() == 0 {
        FILE_CLEAN@
    } else {
        diagnostic_articles(file_index, f.source, f.diagnostics, f.diagnostics.len() as int)
    }) + FILE_CLOSE@
}

/// A file's section: heading, diagnostic count, and each diagnostic or a clean note.
pub open spec fn file_section(file_index: int, f: FileView) -> Seq<char> {
    file_section_with(file_index, f, lowercase(search_text(f)))
}

/// The sidebar link to a file.
pub open spec fn nav_item(index: int, f: FileView) -> Seq<char> {
    NAV_ITEM_OPEN@ + decimal(index as nat) + NAV_ITEM_LINK@ + decimal(index as nat)
        + NAV_ITEM_PATH@ + escape(f.path) + NAV_ITEM_COUNT@ + decimal(f.diagnostics.len())
        + NAV_ITEM_CLOSE@
}

pub open spec fn nav_items(files: Seq<FileView>, n: int) -> Seq<char>
    decreases n,
{
    if n <= 0 {
        seq![]
    } else {
        nav_items(files, n - 1) + nav_item(n - 1, files[n - 1])
    }
}

pub open spec fn file_sections(files: Seq<FileView>, n: int) -> Seq<char>
    decreases n,
{
    if n <= 0 {
        seq![]
    } else {
        file_sections(files, n - 1) + file_section(n - 1, files[n - 1])
    }
}

/// The number of diagnostics in the first `n` files.
pub open spec fn diagnostic_total(files: Seq<FileView>, n: int) -> nat
    decreases n,
{
    if n <= 0 {
        0
    } else {
        diagnostic_total(files, n - 1) + files[n - 1].diagnostics.len()
    }
}

/// The whole report.
pub open spec fn report_html(files: Seq<FileView>, tracked_owners: nat, tracked_borrows: nat) -> Seq<
    char,
> {
    let total = diagnostic_total(files, files.len() as int);
    let status = if total == 0 {
        STATUS_PASSED@
    } else {
        STATUS_FAILED@
    };
    let status_class = if total == 0 {
        CLASS_PASSED@
    } else {
        CLASS_FAILED@
    };
    HEADER@ + TOPBAR_OPEN@ + status + TOPBAR_STATUS@ + status_class + TAG_END@ + status
        + TOPBAR_CLOSE@ + METRICS_FILES@ + decimal(files.len()) + METRICS_DIAGNOSTICS@ + decimal(total)
        + METRICS_OWNERS@ + decimal(tracked_owners) + METRICS_BORROWS@ + decimal(tracked_borrows)
        + METRICS_CLOSE@ + NAV_OPEN@ + nav_items(files, files.len() as int) + NAV_CLOSE@
        + file_sections(files, files.len() as int) + MAIN_CLOSE@ + FOOTER@
}

/// Escaped text holds no character that could open a tag or end an attribute
/// value: no `<`, `>`, `"` or `'`.
pub proof fn law_escaped_text_has_no_markup(s: Seq<char>)
    ensures
        forall|i: int|
            0 <= i < escape(s).len() ==> {
                let c = #[trigger] escape(s)[i];
                c != '<' && c != '>' && c != '"' && c != '\''
            },
    decreases s.len(),
{
    if s.len() > 0 {
        law_escaped_text_has_no_markup(s.drop_last());
        let a = escape(s.drop_last());
        let b = escape_char(s.last());
        assert forall|i: int| 0 <= i < (a + b).len() implies {
            let c = #[trigger] (a + b)[i];
            c != '<' && c != '>' && c != '"' && c != '\''
        } by {
            if i >= a.len() {
                assert((a + b)[i] == b[i - a.len()]);
            }
        }
    }
}

/// A character that escaping replaces by a character reference.
pub open spec fn is_special(c: char) -> bool {
    c == '&' || c == '<' || c == '>' || c == '"' || c == '\''
}

/// Reads the five character references back, from left to right; every other
/// character stands for itself.
pub open spec fn unescape(t: Seq<char>) -> Seq<char>
    decreases t.len(),
{
    if t.len() == 0 {
        seq![]
    } else if starts_with(t, escape_char('&')) {
        seq!['&'] + unescape(t.skip(5))
    } else if starts_with(t, escape_char('<')) {
        seq!['<'] + unescape(t.skip(4))
    } else if starts_with(t, escape_char('>')) {
        seq!['>'] + unescape(t.skip(4))
    } else if starts_with(t, escape_char('"')) {
        seq!['"'] + unescape(t.skip(6))
    } else if starts_with(t, escape_char('\'')) {
        seq!['\''] + unescape(t.skip(5))
    } else {
        seq![t[0]] + unescape(t.skip(1))
    }
}

/// One of the five character references starts at position `i` of `t`.
pub open spec fn reference_at(t: Seq<char>, i: int) -> bool {
    let rest = t.skip(i);
    ||| starts_with(rest, escape_char('&'))
    ||| starts_with(rest, escape_char('<'))
    ||| starts_with(rest, escape_char('>'))
    ||| starts_with(rest, escape_char('"'))
    ||| starts_with(rest, escape_char('\''))
}

proof fn lemma_escape_append(a: Seq<char>, b: Seq<char>)
    ensures
        escape(a + b) == escape(a) + escape(b),
    decreases b.len(),
{
    if b.len() == 0 {
        assert(a + b =~= a);
        assert(escape(a) + seq![] =~= escape(a));
    } else {
        lemma_escape_append(a, b.drop_last());
        assert((a + b).drop_last() =~= a + b.drop_last());
        assert((a + b).last() == b.last());
        assert(escape(a) + escape(b.drop_last()) + escape_char(b.last()) =~= escape(a) + (escape(
            b.drop_last(),
        ) + escape_char(b.last())));
    }
}

proof fn lemma_escape_first(s: Seq<char>)
    requires
        s.len() > 0,
    ensures
        escape(s) == escape_char(s[0]) + escape(s.skip(1)),
{
    let one = seq![s[0]];
    assert(one + s.skip(1) =~= s);
    lemma_escape_append(one, s.skip(1));
    assert(one.drop_last() =~= Seq::<char>::empty());
    assert(escape(Seq::<char>::empty()) =~= Seq::<char>::empty());
    assert(one.last() == s[0]);
    assert(escape(one) =~= escape_char(s[0]));
}

proof fn lemma_unescape_char(c: char, rest: Seq<char>)
    ensures
        unescape(escape_char(c) + rest) == seq![c] + unescape(rest),
{
    let e = escape_char(c);
    let t = e + rest;
    assert(t.skip(e.len() as int) =~= rest);
    assert(t.take(e.len() as int) =~= e);
    assert(t[0] == e[0]);
    if e.len() > 1 {
        assert(t[1] == e[1]);
    }
    let amp = escape_char('&');
    let lt = escape_char('<');
    let gt = escape_char('>');
    let quot = escape_char('"');
    if !is_special(c) {
        assert(t[0] == c);
        assert(t.take(5) =~= amp ==> t.take(5)[0] == '&');
        assert(t.take(4) =~= lt ==> t.take(4)[0] == '&');
        assert(t.take(4) =~= gt ==> t.take(4)[0] == '&');
        assert(t.take(6) =~= quot ==> t.take(6)[0] == '&');
        assert(t.take(5) =~= escape_char('\'') ==> t.take(5)[0] == '&');
    } else if c != '&' {
        assert(t.take(5) =~= amp ==> t.take(5)[1] == 'a');
        if c != '<' {
            assert(t.take(4) =~= lt ==> t.take(4)[1] == 'l');
            if c != '>' {
                assert(t.take(4) =~= gt ==> t.take(4)[1] == 'g');
                if c != '"' {
                    assert(t.take(6) =~= quot ==> t.take(6)[1] == 'q');
                }
            }
        }
    }
}

/// Reading the character references back gives the text that was escaped.
pub proof fn law_unescape_inverts_escape(s: Seq<char>)
    ensures
        unescape(escape(s)) == s,
    decreases s.len(),
{
    if s.len() == 0 {
        assert(escape(s) =~= Seq::<char>::empty());
    } else {
        lemma_escape_first(s);
        law_unescape_inverts_escape(s.skip(1));
        lemma_unescape_char(s[0], escape(s.skip(1)));
        assert(seq![s[0]] + s.skip(1) =~= s);
    }
}

proof fn lemma_starts_with_extend(x: Seq<char>, y: Seq<char>, p: Seq<char>)
    requires
        starts_with(x, p),
    ensures
        starts_with(x + y, p),
{
    assert((x + y).take(p.len() as int) =~= x.take(p.len() as int));
}

/// Every `&` in escaped text starts one of the five character references.
pub proof fn law_escaped_ampersand_starts_reference(s: Seq<char>)
    ensures
        forall|i: int|
            0 <= i < escape(s).len() && escape(s)[i] == '&' ==> #[trigger] reference_at(escape(s), i),
    decreases s.len(),
{
    if s.len() > 0 {
        law_escaped_ampersand_starts_reference(s.drop_last());
        let a = escape(s.drop_last());
        let b = escape_char(s.last());
        let t = a + b;
        assert(escape(s) == t);
        assert forall|i: int| 0 <= i < t.len() && t[i] == '&' implies #[trigger] reference_at(t, i) by {
            if i < a.len() {
                assert(reference_at(a, i));
                assert(t.skip(i) =~= a.skip(i) + b);
                let ai = a.skip(i);
                if starts_with(ai, escape_char('&')) {
                    lemma_starts_with_extend(ai, b, escape_char('&'));
                } else if starts_with(ai, escape_char('<')) {
                    lemma_starts_with_extend(ai, b, escape_char('<'));
                } else if starts_with(ai, escape_char('>')) {
                    lemma_starts_with_extend(ai, b, escape_char('>'));
                } else if starts_with(ai, escape_char('"')) {
                    lemma_starts_with_extend(ai, b, escape_char('"'));
                } else {
                    lemma_starts_with_extend(ai, b, escape_char('\''));
                }
            } else {
                assert(t[i] == b[i - a.len()]);
                assert(i == a.len());
                assert(t.skip(i) =~= b);
                assert(b.take(b.len() as int) =~= b);
            }
        }
    }
}

proof fn lemma_escape_len(s: Seq<char>)
    ensures
        escape(s).len() >= s.len(),
        (exists|i: int| 0 <= i < s.len() && is_special(#[trigger] s[i])) ==> escape(s).len() > s.len(),
    decreases s.len(),
{
    if s.len() > 0 {
        lemma_escape_len(s.drop_last());
        if exists|i: int| 0 <= i < s.len() && is_special(#[trigger] s[i]) {
            let i = choose|i: int| 0 <= i < s.len() && is_special(#[trigger] s[i]);
            if i < s.len() - 1 {
                assert(is_special(s.drop_last()[i]));
            }
        }
    }
}

/// Escaping leaves a text unchanged exactly when the text holds none of `&`,
/// `<`, `>`, `"` and `'`.
pub proof fn law_escape_unchanged_iff_plain(s: Seq<char>)
    ensures
        escape(s) == s <==> forall|i: int| 0 <= i < s.len() ==> !is_special(#[trigger] s[i]),
{
    lemma_escape_len(s);
    if forall|i: int| 0 <= i < s.len() ==> !is_special(#[trigger] s[i]) {
        law_plain_text_escapes_to_itself(s);
    }
}

// ---------------------------------------------------------------------------
// Markup comes from the template alone
// ---------------------------------------------------------------------------

/// Two files look alike to the template: as many source lines, and as many
/// diagnostics, on the same lines.
pub open spec fn same_file_shape(a: FileView, b: FileView) -> bool {
    &&& lines(a.source).len() == lines(b.source).len()
    &&& a.diagnostics.len() == b.diagnostics.len()
    &&& forall|j: int| 0 <= j < a.diagnostics.len() ==> (#[trigger] a.diagnostics[j]).line
        == b.diagnostics[j].line
}

/// Two lists of files that look alike to the template, file by file.
pub open spec fn same_shape(a: Seq<FileView>, b: Seq<FileView>) -> bool {
    a.len() == b.len() && forall|i: int| 0 <= i < a.len() ==> same_file_shape(#[trigger] a[i], b[i])
}

broadcast proof fn lemma_count_concat(a: Seq<char>, b: Seq<char>, c: char)
    ensures
        #[trigger] count_char(a + b, c) == count_char(a, c) + count_char(b, c),
{
    lemma_count_char_append(a, b, c);
}

proof fn lemma_count_absent(s: Seq<char>, c: char)
    requires
        forall|i: int| 0 <= i < s.len() ==> s[i] != c,
    ensures
        count_char(s, c) == 0,
    decreases s.len(),
{
    if s.len() > 0 {
        lemma_count_absent(s.drop_last(), c);
    }
}

broadcast proof fn lemma_count_escape(s: Seq<char>, c: char)
    requires
        c == '<' || c == '>',
    ensures
        #[trigger] count_char(escape(s), c) == 0,
{
    law_escaped_text_has_no_markup(s);
    lemma_count_absent(escape(s), c);
}

broadcast proof fn lemma_count_decimal(n: nat, c: char)
    requires
        c == '<' || c == '>',
    ensures
        #[trigger] count_char(decimal(n), c) == 0,
    decreases n,
{
    if n >= 10 {
        lemma_count_decimal(n / 10, c);
        assert(decimal(n).drop_last() =~= decimal(n / 10));
        assert(decimal(n).last() == digit(n % 10));
        assert(digit(n % 10) != c);
    } else {
        assert(decimal(n).drop_last() =~= Seq::<char>::empty());
        assert(decimal(n).last() == digit(n));
        assert(digit(n) != c);
        assert(count_char(Seq::<char>::empty(), c) == 0);
    }
}

proof fn lemma_rows_markup(
    ls1: Seq<Seq<char>>,
    ls2: Seq<Seq<char>>,
    target: int,
    start: int,
    end: int,
    c: char,
)
    requires
        c == '<' || c == '>',
    ensures
        count_char(snippet_rows(ls1, target, start, end), c) == count_char(
            snippet_rows(ls2, target, start, end),
            c,
        ),
    decreases end - start + 1,
{
    broadcast use lemma_count_concat, lemma_count_escape, lemma_count_decimal;

    if end >= start {
        lemma_rows_markup(ls1, ls2, target, start, end - 1, c);
    }
}

proof fn lemma_articles_markup(
    file_index: int,
    s1: Seq<char>,
    s2: Seq<char>,
    ds1: Seq<DiagnosticView>,
    ds2: Seq<DiagnosticView>,
    n: int,
    c: char,
)
    requires
        c == '<' || c == '>',
        lines(s1).len() == lines(s2).len(),
        n <= ds1.len(),
        n <= ds2.len(),
        forall|j: int| 0 <= j < n ==> (#[trigger] ds1[j]).line == ds2[j].line,
    ensures
        count_char(diagnostic_articles(file_index, s1, ds1, n), c) == count_char(
            diagnostic_articles(file_index, s2, ds2, n),
            c,
        ),
    decreases n,
{
    broadcast use lemma_count_concat, lemma_count_escape, lemma_count_decimal;

    if n > 0 {
        lemma_articles_markup(file_index, s1, s2, ds1, ds2, n - 1, c);
        let d1 = ds1[n - 1];
        let d2 = ds2[n - 1];
        assert(d1.line == d2.line);
        let l1 = lines(s1);
        let l2 = lines(s2);
        if l1.len() != 0 && d1.line != 0 {
            let start = if d1.line - 2 > 1 {
                d1.line - 2
            } else {
                1
            };
            let end = if d1.line + 1 < l1.len() {
                d1.line + 1
            } else {
                l1.len() as int
            };
            lemma_rows_markup(l1, l2, d1.line, start, end, c);
        }
    }
}

proof fn lemma_sections_markup(fs1: Seq<FileView>, fs2: Seq<FileView>, n: int, c: char)
    requires
        c == '<' || c == '>',
        same_shape(fs1, fs2),
        n <= fs1.len(),
    ensures
        count_char(file_sections(fs1, n), c) == count_char(file_sections(fs2, n), c),
        count_char(nav_items(fs1, n), c) == count_char(nav_items(fs2, n), c),
        diagnostic_total(fs1, n) == diagnostic_total(fs2, n),
    decreases n,
{
    broadcast use lemma_count_concat, lemma_count_escape, lemma_count_decimal;

    if n > 0 {
        lemma_sections_markup(fs1, fs2, n - 1, c);
        let f1 = fs1[n - 1];
        let f2 = fs2[n - 1];
        assert(same_file_shape(f1, f2));
        lemma_articles_markup(
            n - 1,
            f1.source,
            f2.source,
            f1.diagnostics,
            f2.diagnostics,
            f1.diagnostics.len() as int,
            c,
        );
    }
}

/// The markup of a report does not depend on untrusted text: two reports
/// whose files have as many source lines and as many diagnostics, on the same
/// lines, hold equally many `<` and equally many `>`, whatever their paths,
/// sources, codes, messages and counts.
pub proof fn law_markup_comes_from_the_template(
    fs1: Seq<FileView>,
    fs2: Seq<FileView>,
    owners1: nat,
    borrows1: nat,
    owners2: nat,
    borrows2: nat,
)
    requires
        same_shape(fs1, fs2),
    ensures
        count_char(report_html(fs1, owners1, borrows1), '<') == count_char(
            report_html(fs2, owners2, borrows2),
            '<',
        ),
        count_char(report_html(fs1, owners1, borrows1), '>') == count_char(
            report_html(fs2, owners2, borrows2),
            '>',
        ),
{
    broadcast use lemma_count_concat, lemma_count_escape, lemma_count_decimal;

    lemma_sections_markup(fs1, fs2, fs1.len() as int, '<');
    lemma_sections_markup(fs1, fs2, fs1.len() as int, '>');
}

// ---------------------------------------------------------------------------
// The diagnostics metric
// ---------------------------------------------------------------------------

/// The metric cell that shows the number of diagnostics.
pub open spec fn diagnostics_metric(total: nat) -> Seq<char> {
    METRICS_DIAGNOSTICS@ + decimal(total) + METRICS_OWNERS@
}

proof fn lemma_total_prefix(fs: Seq<FileView>, f: FileView, n: int)
    requires
        n <= fs.len(),
    ensures
        diagnostic_total(fs.push(f), n) == diagnostic_total(fs, n),
    decreases n,
{
    if n > 0 {
        lemma_total_prefix(fs, f, n - 1);
        assert(fs.push(f)[n - 1] == fs[n - 1]);
    }
}

/// The diagnostics metric adds up the files: with no files it is zero,
/// appending a file with `k` diagnostics raises it by `k`, and the report
/// shows that number in its diagnostics metric.
#[verifier::spinoff_prover]
#[verifier::rlimit(60)]
pub proof fn law_diagnostic_total_adds_up(
    fs: Seq<FileView>,
    f: FileView,
    tracked_owners: nat,
    tracked_borrows: nat,
)
    ensures
        diagnostic_total(Seq::<FileView>::empty(), 0) == 0,
        diagnostic_total(fs.push(f), fs.len() + 1int) == diagnostic_total(fs, fs.len() as int)
            + f.diagnostics.len(),
        crate::text::contains(
            report_html(fs, tracked_owners, tracked_borrows),
            diagnostics_metric(diagnostic_total(fs, fs.len() as int)),
        ),
{
    lemma_total_prefix(fs, f, fs.len() as int);
    assert(fs.push(f)[fs.len() as int] == f);
    let total = diagnostic_total(fs, fs.len() as int);
    let status = if total == 0 {
        STATUS_PASSED@
    } else {
        STATUS_FAILED@
    };
    let status_class = if total == 0 {
        CLASS_PASSED@
    } else {
        CLASS_FAILED@
    };
    let head = HEADER@ + TOPBAR_OPEN@ + status + TOPBAR_STATUS@ + status_class + TAG_END@ + status
        + TOPBAR_CLOSE@ + METRICS_FILES@ + decimal(fs.len());
    let m = diagnostics_metric(total);
    let tail = decimal(tracked_owners) + METRICS_BORROWS@ + decimal(tracked_borrows)
        + METRICS_CLOSE@ + NAV_OPEN@ + nav_items(fs, fs.len() as int) + NAV_CLOSE@
        + file_sections(fs, fs.len() as int) + MAIN_CLOSE@ + FOOTER@;
    let r = report_html(fs, tracked_owners, tracked_borrows);
    assert(r =~= head + m + tail);
    assert((head + m + tail).subrange(head.len() as int, (head.len() + m.len()) as int) =~= m);
    assert(crate::text::occurs_at(r, m, head.len() as int));
    crate::text::lemma_find_from_least(r, m, 0);
}

/// Text without `&`, `<`, `>`, `"` and `'` is its own escaped form.
pub proof fn law_plain_text_escapes_to_itself(s: Seq<char>)
    requires
        forall|i: int|
            0 <= i < s.len() ==> {
                let c = #[trigger] s[i];
                c != '&' && c != '<' && c != '>' && c != '"' && c != '\''
            },
    ensures
        escape(s) == s,
    decreases s.len(),
{
    if s.len() > 0 {
        law_plain_text_escapes_to_itself(s.drop_last());
        assert(s.drop_last().push(s.last()) =~= s);
        let c = s[s.len() - 1];
        assert(c != '&' && c != '<' && c != '>' && c != '"' && c != '\'');
        assert(escape_char(s.last()) == seq![s.last()]);
        assert(s.drop_last() + seq![s.last()] =~= s);
    }
}

// ---------------------------------------------------------------------------
// Implementation
// ---------------------------------------------------------------------------

/// Appends the escaped form of one character.
fn push_escaped_char(s: &mut String, c: char)
    ensures
        final(s)@ == old(s)@ + escape_char(c),
{
    if c == '&' {
        s.push('&');
        s.push('a');
        s.push('m');
        s.push('p');
        s.push(';');
    } else if c == '<' {
        s.push('&');
        s.push('l');
        s.push('t');
        s.push(';');
    } else if c == '>' {
        s.push('&');
        s.push('g');
        s.push('t');
        s.push(';');
    } else if c == '"' {
        s.push('&');
        s.push('q');
        s.push('u');
        s.push('o');
        s.push('t');
        s.push(';');
    } else if c == '\'' {
        s.push('&');
        s.push('#');
        s.push('3');
        s.push('9');
        s.push(';');
    } else {
        s.push(c);
    }
    assert(s@ =~= old(s)@ + escape_char(c));
}

/// Appends the escaped form of a text.
fn push_escaped(s: &mut String, value: &Vec<char>)
    ensures
        final(s)@ == old(s)@ + escape(value@),
{
    let mut i: usize = 0;
    assert(value@.take(0) =~= Seq::<char>::empty());
    assert(old(s)@ + escape(value@.take(0)) =~= old(s)@);
    while i < value.len()
        invariant
            i <= value.len(),
            s@ == old(s)@ + escape(value@.take(i as int)),
        decreases value.len() - i,
    {
        push_escaped_char(s, value[i]);
        assert(value@.take(i + 1).drop_last() =~= value@.take(i as int));
        assert(s@ =~= old(s)@ + escape(value@.take(i + 1)));
        i += 1;
    }
    assert(value@.take(i as int) =~= value@);
}

/// The HTML-escaped form of a text.
pub fn escape_html(value: &str) -> (r: String)
    ensures
        r@ == escape(value@),
{
    let chars = chars_of(value);
    let mut r = String::new();
    push_escaped(&mut r, &chars);
    assert(r@ =~= escape(value@));
    r
}

fn push_str(s: &mut String, piece: &str)
    ensures
        final(s)@ == old(s)@ + piece@,
{
    s.append(piece);
}

#[verifier::spinoff_prover]
#[verifier::rlimit(60)]
fn render_snippet(html: &mut String, source: &str, target_line: usize)
    requires
        lines(source@).len() > 0 ==> target_line < usize::MAX,
    ensures
        final(html)@ == old(html)@ + snippet(source@, target_line as int),
{
    let text = chars_of(source);
    let ls = split_lines(&text);
    let ghost lv = views(ls@);
    if ls.len() == 0 || target_line == 0 {
        assert(old(html)@ + seq![] =~= old(html)@);
        return;
    }
    let start = if target_line > 3 {
        target_line - 2
    } else {
        1
    };
    let end = if target_line < ls.len() - 1 {
        target_line + 1
    } else {
        ls.len()
    };
    push_str(html, SNIPPET_OPEN);
    let ghost opened = html@;
    assert(snippet_rows(lv, target_line as int, start as int, start - 1) =~= seq![]);
    assert(opened + seq![] =~= opened);
    if start <= end {
        let count = end - start + 1;
        let mut offset: usize = 0;
        while offset < count
            invariant
                1 <= start <= end <= ls.len(),
                count == end - start + 1,
                offset <= count,
                lv == views(ls@),
                html@ == opened + snippet_rows(
                    lv,
                    target_line as int,
                    start as int,
                    start + offset - 1,
                ),
            decreases count - offset,
        {
            let k = start + offset;
            let ghost before = html@;
            push_str(html, ROW_OPEN);
            if k == target_line {
                push_str(html, ROW_TARGET);
            } else {
                push_str(html, ROW_PLAIN);
            }
            push_str(html, ROW_NUMBER);
            push_decimal(html, k);
            push_str(html, ROW_TEXT);
            push_escaped(html, &ls[k - 1]);
            push_str(html, ROW_CLOSE);
            assert(lv[k - 1] == ls@[k - 1]@);
            assert(html@ =~= before + snippet_row(k as int, target_line as int, lv[k - 1]));
            offset += 1;
        }
    }
    push_str(html, SNIPPET_CLOSE);
    assert(lv == lines(source@));
    assert(html@ =~= old(html)@ + snippet(source@, target_line as int));
}

fn render_diagnostic(
    html: &mut String,
    file_index: usize,
    diagnostic_index: usize,
    source: &str,
    d: &Diagnostic,
)
    requires
        lines(source@).len() > 0 ==> d.line < usize::MAX,
    ensures
        final(html)@ == old(html)@ + diagnostic_article(
            file_index as int,
            diagnostic_index as int,
            source@,
            d@,
        ),
{
    push_str(html, ARTICLE_OPEN);
    push_decimal(html, file_index);
    push_str(html, ARTICLE_INDEX);
    push_decimal(html, diagnostic_index);
    push_str(html, ARTICLE_CODE);
    let code = escape_html(d.code);
    push_str(html, code.as_str());
    push_str(html, ARTICLE_LINE);
    push_decimal(html, d.line);
    push_str(html, ARTICLE_COLUMN);
    push_decimal(html, d.column);
    push_str(html, ARTICLE_TITLE);
    let message = escape_html(d.message.as_str());
    push_str(html, message.as_str());
    push_str(html, ARTICLE_TITLE_CLOSE);
    render_snippet(html, source, d.line);
    push_str(html, ARTICLE_CLOSE);
    assert(html@ =~= old(html)@ + diagnostic_article(
        file_index as int,
        diagnostic_index as int,
        source@,
        d@,
    ));
}

fn render_diagnostics(html: &mut String, file_index: usize, file: &HtmlFile)
    requires
        lines(file.source@).len() > 0 ==> forall|j: int|
            0 <= j < file.diagnostics@.len() ==> (#[trigger] file.diagnostics@[j]).line < usize::MAX,
    ensures
        final(html)@ == old(html)@ + diagnostic_articles(
            file_index as int,
            file@.source,
            file@.diagnostics,
            file@.diagnostics.len() as int,
        ),
{
    let ghost f = file@;
    let ghost head = html@;
    let n = file.diagnostics.len();
    let mut j: usize = 0;
    assert(head + seq![] =~= head);
    while j < n
        invariant
            n == file.diagnostics@.len(),
            f == file@,
            j <= n,
            lines(file.source@).len() > 0 ==> forall|k: int|
                0 <= k < file.diagnostics@.len() ==> (#[trigger] file.diagnostics@[k]).line
                    < usize::MAX,
            html@ == head + diagnostic_articles(file_index as int, f.source, f.diagnostics, j as int),
        decreases n - j,
    {
        render_diagnostic(html, file_index, j, file.source, &file.diagnostics[j]);
        assert(f.diagnostics[j as int] == file.diagnostics@[j as int]@);
        assert(html@ =~= head + diagnostic_articles(
            file_index as int,
            f.source,
            f.diagnostics,
            j + 1,
        ));
        j += 1;
    }
}

/// Renders a file's section, given the lower-cased search text of the file.
#[verifier::rlimit(30)]
pub fn render_file_with_search(html: &mut String, file_index: usize, file: &HtmlFile, search: &str)
    requires
        lines(file.source@).len() > 0 ==> forall|j: int|
            0 <= j < file.diagnostics@.len() ==> (#[trigger] file.diagnostics@[j]).line < usize::MAX,
    ensures
        final(html)@ == old(html)@ + file_section_with(file_index as int, file@, search@),
{
    let ghost f = file@;
    push_str(html, FILE_OPEN);
    push_decimal(html, file_index);
    push_str(html, FILE_DATA);
    push_decimal(html, file_index);
    push_str(html, FILE_SEARCH);
    let escaped_search = escape_html(search);
    push_str(html, escaped_search.as_str());
    push_str(html, FILE_TITLE);
    let escaped_path = escape_html(file.path);
    push_str(html, escaped_path.as_str());
    push_str(html, FILE_COUNT);
    push_decimal(html, file.diagnostics.len());
    push_str(html, FILE_HEADER_CLOSE);
    if file.diagnostics.len() == 0 {
        push_str(html, FILE_CLEAN);
    } else {
        render_diagnostics(html, file_index, file);
    }
    push_str(html, FILE_CLOSE);
    assert(html@ =~= old(html)@ + file_section_with(file_index as int, file@, search@));
}

/// The searchable text of a file: its path, then each diagnostic's code and message.
fn search_text_exec(file: &HtmlFile) -> (r: String)
    ensures
        r@ == search_text(file@),
{
    let ghost f = file@;
    let mut r = String::new();
    push_str(&mut r, file.path);
    r.push(' ');
    let ghost head = r@;
    let n = file.diagnostics.len();
    let mut j: usize = 0;
    assert(f.diagnostics.take(0) =~= Seq::<DiagnosticView>::empty());
    assert(head + seq![] =~= head);
    while j < n
        invariant
            n == file.diagnostics@.len(),
            f == file@,
            j <= n,
            r@ == head + search_parts(f.diagnostics.take(j as int)),
        decreases n - j,
    {
        if j > 0 {
            r.push(' ');
        }
        let d = &file.diagnostics[j];
        push_str(&mut r, d.code);
        r.push(' ');
        push_str(&mut r, d.message.as_str());
        proof {
            let ds = f.diagnostics.take(j + 1);
            assert(ds.drop_last() =~= f.diagnostics.take(j as int));
            assert(ds.last() == d@);
            if j == 0 {
                assert(search_parts(ds) == search_part(ds[0]));
            }
        }
        assert(r@ =~= head + search_parts(f.diagnostics.take(j + 1)));
        j += 1;
    }
    assert(f.diagnostics.take(n as int) =~= f.diagnostics);
    r
}

fn render_file(html: &mut String, file_index: usize, file: &HtmlFile)
    requires
        lines(file.source@).len() > 0 ==> forall|j: int|
            0 <= j < file.diagnostics@.len() ==> (#[trigger] file.diagnostics@[j]).line < usize::MAX,
    ensures
        final(html)@ == old(html)@ + file_section(file_index as int, file@),
{
    let searchable = search_text_exec(file);
    let lowered = to_lowercase(searchable.as_str());
    render_file_with_search(html, file_index, file, lowered.as_str());
}

proof fn lemma_diagnostic_total_mono(files: Seq<FileView>, n: int, m: int)
    requires
        n <= m,
    ensures
        diagnostic_total(files, n) <= diagnostic_total(files, m),
    decreases m - n,
{
    if n < m {
        lemma_diagnostic_total_mono(files, n, m - 1);
    }
}

/// Renders the report as one self-contained HTML document.
pub fn render(report: &HtmlReport) -> (html: String)
    requires
        diagnostic_total(files_view(report.files@), report.files@.len() as int) <= usize::MAX,
        forall|i: int, j: int|
            0 <= i < report.files@.len() && lines(report.files@[i].source@).len() > 0 && 0 <= j
                < report.files@[i].diagnostics@.len() ==> (#[trigger] report.files@[i].diagnostics@[j]).line
                < usize::MAX,
    ensures
        html@ == report_html(
            files_view(report.files@),
            report.tracked_owners as nat,
            report.tracked_borrows as nat,
        ),
{
    let ghost fs = files_view(report.files@);
    let n = report.files.len();
    let mut total: usize = 0;
    let mut i: usize = 0;
    while i < n
        invariant
            n == report.files@.len(),
            fs == files_view(report.files@),
            i <= n,
            total == diagnostic_total(fs, i as int),
            diagnostic_total(fs, n as int) <= usize::MAX,
        decreases n - i,
    {
        proof {
            lemma_diagnostic_total_mono(fs, i + 1, n as int);
            assert(fs[i as int].diagnostics.len() == report.files@[i as int].diagnostics@.len());
        }
        total = total + report.files[i].diagnostics.len();
        i += 1;
    }
    let mut html = String::new();
    push_str(&mut html, HEADER);
    let (status, status_class) = if total == 0 {
        (STATUS_PASSED, CLASS_PASSED)
    } else {
        (STATUS_FAILED, CLASS_FAILED)
    };
    push_str(&mut html, TOPBAR_OPEN);
    push_str(&mut html, status);
    push_str(&mut html, TOPBAR_STATUS);
    push_str(&mut html, status_class);
    push_str(&mut html, TAG_END);
    push_str(&mut html, status);
    push_str(&mut html, TOPBAR_CLOSE);
    push_str(&mut html, METRICS_FILES);
    push_decimal(&mut html, n);
    push_str(&mut html, METRICS_DIAGNOSTICS);
    push_decimal(&mut html, total);
    push_str(&mut html, METRICS_OWNERS);
    push_decimal(&mut html, report.tracked_owners);
    push_str(&mut html, METRICS_BORROWS);
    push_decimal(&mut html, report.tracked_borrows);
    push_str(&mut html, METRICS_CLOSE);
    push_str(&mut html, NAV_OPEN);
    let ghost head = html@;
    let mut i: usize = 0;
    assert(head + seq![] =~= head);
    while i < n
        invariant
            n == report.files@.len(),
            fs == files_view(report.files@),
            i <= n,
            html@ == head + nav_items(fs, i as int),
        decreases n - i,
    {
        let file = &report.files[i];
        push_str(&mut html, NAV_ITEM_OPEN);
        push_decimal(&mut html, i);
        push_str(&mut html, NAV_ITEM_LINK);
        push_decimal(&mut html, i);
        push_str(&mut html, NAV_ITEM_PATH);
        let path = escape_html(file.path);
        push_str(&mut html, path.as_str());
        push_str(&mut html, NAV_ITEM_COUNT);
        push_decimal(&mut html, file.diagnostics.len());
        push_str(&mut html, NAV_ITEM_CLOSE);
        assert(fs[i as int] == file@);
        assert(html@ =~= head + nav_items(fs, i + 1));
        i += 1;
    }
    push_str(&mut html, NAV_CLOSE);
    let ghost middle = html@;
    let mut i: usize = 0;
    assert(middle + seq![] =~= middle);
    while i < n
        invariant
            n == report.files@.len(),
            fs == files_view(report.files@),
            i <= n,
            forall|a: int, b: int|
                0 <= a < report.files@.len() && lines(report.files@[a].source@).len() > 0 && 0 <= b
                    < report.files@[a].diagnostics@.len()
                    ==> (#[trigger] report.files@[a].diagnostics@[b]).line < usize::MAX,
            html@ == middle + file_sections(fs, i as int),
        decreases n - i,
    {
        let file = &report.files[i];
        render_file(&mut html, i, file);
        assert(fs[i as int] == file@);
        assert(html@ =~= middle + file_sections(fs, i + 1));
        i += 1;
    }
    push_str(&mut html, MAIN_CLOSE);
    push_str(&mut html, FOOTER);
    assert(html@ =~= report_html(
        fs,
        report.tracked_owners as nat,
        report.tracked_borrows as nat,
    ));
    html
}

/// The document head: metadata, the content security policy and the styles.
pub const HEADER: &'static str = r#"<!doctype html>
<html lang="en">
<head>
<meta charset="utf-8">
<meta name="viewport" content="width=device-width, initial-scale=1">
<meta http-equiv="Content-Security-Policy" content="default-src 'none'; style-src 'unsafe-inline'; script-src 'unsafe-inline'">
<title>tsborrow analysis report</title>
<style>
:root { color-scheme: dark; --bg:#0b1020; --panel:#121a2d; --line:#28334d; --text:#eef2ff; --muted:#9ba8c7; --accent:#7dd3fc; --danger:#fb7185; --success:#4ade80; }
* { box-sizing:border-box; }
html { scroll-behavior:smooth; }
body { margin:0; background:var(--bg); color:var(--text); font:15px/1.55 ui-sans-serif,system-ui,-apple-system,BlinkMacSystemFont,"Segoe UI",sans-serif; }
.topbar { display:flex; justify-content:space-between; align-items:center; gap:24px; padding:28px clamp(20px,4vw,56px); border-bottom:1px solid var(--line); background:linear-gradient(135deg,#111a32,#0b1020); }
h1,h2,h3,p { margin-top:0; }
h1 { margin-bottom:0; font-size:clamp(28px,4vw,44px); }
.eyebrow { margin-bottom:4px; color:var(--accent); font-size:12px; font-weight:800; letter-spacing:.13em; text-transform:uppercase; }
.status { padding:8px 14px; border:1px solid; border-radius:999px; font-weight:800; }
.status.passed { color:var(--success); } .status.failed { color:var(--danger); }
.metrics { display:grid; grid-template-columns:repeat(4,minmax(0,1fr)); gap:1px; background:var(--line); border-bottom:1px solid var(--line); }
.metrics div { display:flex; flex-direction:column; padding:18px clamp(16px,3vw,40px); background:var(--panel); }
.metrics strong { font-size:24px; } .metrics span { color:var(--muted); }
.layout { display:grid; grid-template-columns:minmax(240px,320px) minmax(0,1fr); min-height:calc(100vh - 190px); }
aside { position:sticky; top:0; align-self:start; max-height:100vh; overflow:auto; padding:24px; border-right:1px solid var(--line); }
aside label { display:block; margin-bottom:8px; font-weight:700; }
input { width:100%; margin-bottom:18px; padding:10px 12px; border:1px solid var(--line); border-radius:8px; background:#080d19; color:var(--text); }
nav ul { margin:0; padding:0; list-style:none; }
nav li { margin-bottom:4px; }
nav a { display:flex; justify-content:space-between; gap:10px; padding:9px 10px; border-radius:7px; color:var(--muted); text-decoration:none; overflow-wrap:anywhere; }
nav a:hover,nav a:focus { background:var(--panel); color:var(--text); }
nav b { min-width:24px; color:var(--accent); text-align:right; }
main { min-width:0; padding:28px clamp(20px,4vw,56px) 80px; }
.file { margin-bottom:28px; scroll-margin-top:18px; }
.file>header { display:flex; justify-content:space-between; gap:20px; align-items:end; padding-bottom:14px; border-bottom:1px solid var(--line); }
.file h2 { margin-bottom:0; font:700 20px/1.4 ui-monospace,SFMono-Regular,Consolas,monospace; overflow-wrap:anywhere; }
.file>header>span,.diagnostic-heading span { color:var(--muted); white-space:nowrap; }
.clean { margin-top:14px; padding:16px; border-left:3px solid var(--success); background:var(--panel); color:var(--muted); }
.diagnostic { margin-top:16px; padding:18px; border:1px solid var(--line); border-left:3px solid var(--danger); border-radius:8px; background:var(--panel); }
.diagnostic-heading { display:flex; justify-content:space-between; gap:12px; }
.diagnostic-heading code { color:var(--danger); font-weight:800; }
.diagnostic h3 { margin:10px 0 14px; font-size:16px; }
pre { margin:0; padding:12px 0; overflow:auto; border:1px solid var(--line); border-radius:6px; background:#070b14; }
.line { display:grid; grid-template-columns:52px minmax(max-content,1fr); min-height:24px; padding:0 14px 0 0; }
.line.target { background:#3b1722; color:#fff; }
.line-number { padding-right:14px; color:#64748b; text-align:right; user-select:none; }
[hidden] { display:none !important; }
@media (max-width:760px) { .metrics { grid-template-columns:repeat(2,1fr); } .layout { display:block; } aside { position:static; max-height:none; border-right:0; border-bottom:1px solid var(--line); } }
</style>
</head>
<body>
"#;

/// The filter script and the end of the document.
pub const FOOTER: &'static str = r#"
<script>
const filter=document.querySelector('#file-filter');
filter.addEventListener('input',()=>{
  const query=filter.value.trim().toLowerCase();
  document.querySelectorAll('[data-file]').forEach(section=>{
    const visible=!query||section.dataset.search.includes(query);
    section.hidden=!visible;
    const nav=document.querySelector(`[data-nav="${section.dataset.file}"]`);
    if(nav) nav.hidden=!visible;
  });
});
</script>
</body>
</html>
"#;


} // verus!
