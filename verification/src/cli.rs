//! The command line's decisions: reading the arguments, which files count as
//! sources, the lines written for each diagnostic and for the summary, and the
//! exit status. Reading files and writing output happen around these.

use vstd::prelude::*;
use crate::report::{push_chars, AnalysisReport, Diagnostic};
use crate::text::{chars_eq, chars_of, decimal, push_decimal, starts_with, starts_with_exec};

verus! {

broadcast use vstd::string::group_string_axioms;

/// How results are written.
#[derive(Clone, Copy, Debug, PartialEq, Eq, Structural)]
pub enum OutputFormat {
    Human,
    Json,
    Html,
}

/// What the command line asks for: the path to check, the format, and the
/// HTML report's path.
pub struct Options {
    pub path: String,
    pub format: OutputFormat,
    pub output: Option<String>,
}

/// Options as values.
pub struct OptionsView {
    pub path: Seq<char>,
    pub format: OutputFormat,
    pub output: Option<Seq<char>>,
}

impl View for Options {
    type V = OptionsView;

    open spec fn view(&self) -> OptionsView {
        OptionsView {
            path: self.path@,
            format: self.format,
            output: match self.output {
                Some(o) => Some(o@),
                None => None,
            },
        }
    }
}

pub const USAGE: &'static str = "usage: tsborrow check <path> [--format human|json|html] [--output report.html]";

/// The usage text.
pub fn usage() -> (u: &'static str)
    ensures
        u@ == USAGE@,
{
    USAGE
}

/// The texts of a list of strings.
pub open spec fn string_views(v: Seq<String>) -> Seq<Seq<char>> {
    Seq::new(v.len(), |i: int| v[i]@)
}

/// The format a `--format` value names.
pub open spec fn format_of(value: Seq<char>) -> Result<OutputFormat, Seq<char>> {
    if value == "human"@ {
        Ok(OutputFormat::Human)
    } else if value == "json"@ {
        Ok(OutputFormat::Json)
    } else if value == "html"@ {
        Ok(OutputFormat::Html)
    } else {
        Err("unsupported output format: "@ + value)
    }
}

/// `s` without every leading repetition of `p`.
pub open spec fn strip_prefixes(s: Seq<char>, p: Seq<char>) -> Seq<char>
    decreases s.len(),
{
    if p.len() > 0 && starts_with(s, p) {
        strip_prefixes(s.skip(p.len() as int), p)
    } else {
        s
    }
}

/// The flags from position `i` on, read left to right onto the format and output so far.
pub open spec fn parse_flags(
    args: Seq<Seq<char>>,
    i: int,
    format: OutputFormat,
    output: Option<Seq<char>>,
) -> Result<(OutputFormat, Option<Seq<char>>), Seq<char>>
    decreases args.len() - i,
{
    if i < 0 || i >= args.len() {
        Ok((format, output))
    } else {
        let a = args[i];
        if a == "--format"@ {
            if i + 1 >= args.len() {
                Err("--format requires human, json, or html"@)
            } else {
                match format_of(args[i + 1]) {
                    Ok(f) => parse_flags(args, i + 2, f, output),
                    Err(e) => Err(e),
                }
            }
        } else if a == "--output"@ {
            if i + 1 >= args.len() {
                Err("--output requires a file path"@)
            } else {
                parse_flags(args, i + 2, format, Some(args[i + 1]))
            }
        } else if starts_with(a, "--format="@) {
            match format_of(strip_prefixes(a, "--format="@)) {
                Ok(f) => parse_flags(args, i + 1, f, output),
                Err(e) => Err(e),
            }
        } else if starts_with(a, "--output="@) {
            parse_flags(args, i + 1, format, Some(strip_prefixes(a, "--output="@)))
        } else if a == "--help"@ || a == "-h"@ {
            Err(USAGE@)
        } else {
            Err("unknown argument: "@ + a)
        }
    }
}

/// The options that the arguments (after the program name) ask for, or the
/// message that refuses them.
pub open spec fn options_of(args: Seq<Seq<char>>) -> Result<OptionsView, Seq<char>> {
    let command = if args.len() == 0 {
        "check"@
    } else {
        args[0]
    };
    if command == "--help"@ || command == "-h"@ {
        Err(USAGE@)
    } else if command != "check"@ {
        Err("unknown command: "@ + command)
    } else if args.len() < 2 || starts_with(args[1], seq!['-']) {
        Err("a file or directory path is required"@)
    } else {
        finish_options(args[1], parse_flags(args, 2, OutputFormat::Human, None))
    }
}

/// The options for the path and the flags read, unless the flags were refused
/// or the format and the output do not go together.
pub open spec fn finish_options(
    path: Seq<char>,
    flags: Result<(OutputFormat, Option<Seq<char>>), Seq<char>>,
) -> Result<OptionsView, Seq<char>> {
    match flags {
        Err(e) => Err(e),
        Ok((format, output)) => if format == OutputFormat::Html && output is None {
            Err("--format html requires --output <report.html>"@)
        } else if format != OutputFormat::Html && output is Some {
            Err("--output is only supported with --format html"@)
        } else {
            Ok(OptionsView { path, format, output })
        },
    }
}

/// An HTML report always comes with its output path, and an output path only
/// with an HTML report.
pub proof fn law_output_goes_with_html(args: Seq<Seq<char>>)
    ensures
        options_of(args) matches Ok(o) ==> (o.format == OutputFormat::Html <==> o.output is Some),
{
}

fn string_from_chars(chars: &Vec<char>) -> (s: String)
    ensures
        s@ == chars@,
{
    let mut s = String::new();
    push_chars(&mut s, chars);
    assert(s@ =~= chars@);
    s
}

fn message_with(before: &str, value: &Vec<char>) -> (s: String)
    ensures
        s@ == before@ + value@,
{
    let mut s = String::new();
    s.append(before);
    push_chars(&mut s, value);
    s
}

fn literal(text: &str) -> (s: String)
    ensures
        s@ == text@,
{
    let mut s = String::new();
    s.append(text);
    assert(s@ =~= text@);
    s
}

/// The format a `--format` value names.
pub fn parse_format(value: &Vec<char>) -> (r: Result<OutputFormat, String>)
    ensures
        r matches Ok(f) ==> format_of(value@) == Ok::<OutputFormat, Seq<char>>(f),
        r matches Err(e) ==> format_of(value@) == Err::<OutputFormat, Seq<char>>(e@),
{
    if chars_eq(value, &chars_of("human")) {
        Ok(OutputFormat::Human)
    } else if chars_eq(value, &chars_of("json")) {
        Ok(OutputFormat::Json)
    } else if chars_eq(value, &chars_of("html")) {
        Ok(OutputFormat::Html)
    } else {
        Err(message_with("unsupported output format: ", value))
    }
}

fn strip_prefixes_exec(s: &Vec<char>, p: &Vec<char>) -> (r: Vec<char>)
    requires
        p.len() > 0,
    ensures
        r@ == strip_prefixes(s@, p@),
{
    let mut i: usize = 0;
    assert(s@.skip(0) =~= s@);
    while i <= s.len() && p.len() <= s.len() - i && crate::text::occurs_at_exec(s, p, i)
        invariant
            p.len() > 0,
            i <= s.len(),
            strip_prefixes(s@, p@) == strip_prefixes(s@.skip(i as int), p@),
        decreases s.len() - i,
    {
        proof {
            let t = s@.skip(i as int);
            assert(t.take(p@.len() as int) =~= s@.subrange(i as int, i + p@.len()));
            assert(t.skip(p@.len() as int) =~= s@.skip(i + p@.len()));
        }
        i = i + p.len();
    }
    proof {
        let t = s@.skip(i as int);
        if p@.len() <= t.len() && starts_with(t, p@) {
            assert(t.take(p@.len() as int) =~= s@.subrange(i as int, i + p@.len()));
        }
    }
    let r = crate::text::slice_chars(s, i, s.len());
    assert(r@ =~= s@.skip(i as int));
    r
}

/// Reads the arguments that follow the program name.
pub fn parse_options(arguments: Vec<String>) -> (r: Result<Options, String>)
    ensures
        r matches Ok(o) ==> options_of(string_views(arguments@)) == Ok::<OptionsView, Seq<char>>(
            o@,
        ),
        r matches Err(e) ==> options_of(string_views(arguments@)) == Err::<OptionsView, Seq<char>>(
            e@,
        ),
{
    let ghost args = string_views(arguments@);
    let n = arguments.len();
    let command = if n == 0 {
        chars_of("check")
    } else {
        chars_of(arguments[0].as_str())
    };
    if chars_eq(&command, &chars_of("--help")) || chars_eq(&command, &chars_of("-h")) {
        return Err(literal(USAGE));
    }
    if !chars_eq(&command, &chars_of("check")) {
        return Err(message_with("unknown command: ", &command));
    }
    if n < 2 {
        return Err(literal("a file or directory path is required"));
    }
    let path = chars_of(arguments[1].as_str());
    let dash = vec!['-'];
    assert(dash@ =~= seq!['-']);
    if starts_with_exec(&path, &dash) {
        return Err(literal("a file or directory path is required"));
    }
    let mut format = OutputFormat::Human;
    let mut output: Option<Vec<char>> = None;
    let mut i: usize = 2;
    while i < n
        invariant
            n == arguments.len(),
            args == string_views(arguments@),
            2 <= i,
            options_of(args) == finish_options(
                args[1],
                parse_flags(args, 2, OutputFormat::Human, None),
            ),
            parse_flags(args, 2, OutputFormat::Human, None) == parse_flags(
                args,
                i as int,
                format,
                match output {
                    Some(v) => Some(v@),
                    None => None,
                },
            ),
        decreases n - i,
    {
        let argument = chars_of(arguments[i].as_str());
        assert(args[i as int] == argument@);
        if chars_eq(&argument, &chars_of("--format")) {
            if i + 1 >= n {
                return Err(literal("--format requires human, json, or html"));
            }
            let value = chars_of(arguments[i + 1].as_str());
            assert(args[i + 1] == value@);
            match parse_format(&value) {
                Ok(f) => {
                    format = f;
                },
                Err(e) => {
                    return Err(e);
                },
            }
            i = i + 2;
        } else if chars_eq(&argument, &chars_of("--output")) {
            if i + 1 >= n {
                return Err(literal("--output requires a file path"));
            }
            let value = chars_of(arguments[i + 1].as_str());
            assert(args[i + 1] == value@);
            output = Some(value);
            i = i + 2;
        } else if starts_with_exec(&argument, &chars_of("--format=")) {
            let prefix = chars_of("--format=");
            proof {
                reveal_strlit("--format=");
            }
            let value = strip_prefixes_exec(&argument, &prefix);
            match parse_format(&value) {
                Ok(f) => {
                    format = f;
                },
                Err(e) => {
                    return Err(e);
                },
            }
            i = i + 1;
        } else if starts_with_exec(&argument, &chars_of("--output=")) {
            let prefix = chars_of("--output=");
            proof {
                reveal_strlit("--output=");
            }
            let value = strip_prefixes_exec(&argument, &prefix);
            output = Some(value);
            i = i + 1;
        } else if chars_eq(&argument, &chars_of("--help")) || chars_eq(&argument, &chars_of("-h")) {
            return Err(literal(USAGE));
        } else {
            return Err(message_with("unknown argument: ", &argument));
        }
    }
    if format == OutputFormat::Html && output.is_none() {
        return Err(literal("--format html requires --output <report.html>"));
    }
    if format != OutputFormat::Html && output.is_some() {
        return Err(literal("--output is only supported with --format html"));
    }
    let output = match output {
        Some(v) => Some(string_from_chars(&v)),
        None => None,
    };
    Ok(Options { path: string_from_chars(&path), format, output })
}

// ---------------------------------------------------------------------------
// Sources
// ---------------------------------------------------------------------------

/// A file with this extension is analyzed: `ts`, `tsx`, `js` or `jsx`.
pub open spec fn is_source_extension_spec(extension: Seq<char>) -> bool {
    extension == "ts"@ || extension == "tsx"@ || extension == "js"@ || extension == "jsx"@
}

/// A directory with this name is skipped: `.git`, `node_modules` or `target`.
pub open spec fn is_ignored_directory_name_spec(name: Seq<char>) -> bool {
    name == ".git"@ || name == "node_modules"@ || name == "target"@
}

pub fn is_source_extension(extension: &str) -> (r: bool)
    ensures
        r == is_source_extension_spec(extension@),
{
    let e = chars_of(extension);
    chars_eq(&e, &chars_of("ts")) || chars_eq(&e, &chars_of("tsx")) || chars_eq(&e, &chars_of("js"))
        || chars_eq(&e, &chars_of("jsx"))
}

pub fn is_ignored_directory_name(name: &str) -> (r: bool)
    ensures
        r == is_ignored_directory_name_spec(name@),
{
    let n = chars_of(name);
    chars_eq(&n, &chars_of(".git")) || chars_eq(&n, &chars_of("node_modules")) || chars_eq(
        &n,
        &chars_of("target"),
    )
}

// ---------------------------------------------------------------------------
// Output lines
// ---------------------------------------------------------------------------

/// A control character (Unicode general category Cc).
pub open spec fn is_control(c: char) -> bool {
    (c as u32) <= 0x1f || (0x7f <= (c as u32) && (c as u32) <= 0x9f)
}

pub open spec fn hex_digit(d: nat) -> char {
    if d < 10 {
        crate::text::digit(d)
    } else if d == 10 {
        'a'
    } else if d == 11 {
        'b'
    } else if d == 12 {
        'c'
    } else if d == 13 {
        'd'
    } else if d == 14 {
        'e'
    } else {
        'f'
    }
}

/// One character inside a JSON string: quote, backslash, newline, carriage
/// return and tab are escaped by name, other control characters as `\u` and
/// four lower-case hex digits.
pub open spec fn json_escape_char(c: char) -> Seq<char> {
    if c == '"' {
        seq!['\\', '"']
    } else if c == '\\' {
        seq!['\\', '\\']
    } else if c == '\n' {
        seq!['\\', 'n']
    } else if c == '\r' {
        seq!['\\', 'r']
    } else if c == '\t' {
        seq!['\\', 't']
    } else if is_control(c) {
        let v = (c as u32) as nat;
        seq![
            '\\',
            'u',
            hex_digit(v / 4096 % 16),
            hex_digit(v / 256 % 16),
            hex_digit(v / 16 % 16),
            hex_digit(v % 16),
        ]
    } else {
        seq![c]
    }
}

/// A text escaped for use inside a JSON string.
pub open spec fn json_escape_spec(s: Seq<char>) -> Seq<char>
    decreases s.len(),
{
    if s.len() == 0 {
        seq![]
    } else {
        json_escape_spec(s.drop_last()) + json_escape_char(s.last())
    }
}

fn hex_digit_char(d: u32) -> (c: char)
    requires
        d < 16,
    ensures
        c == hex_digit(d as nat),
{
    if d < 10 {
        crate::text::digit_char(d as usize)
    } else if d == 10 {
        'a'
    } else if d == 11 {
        'b'
    } else if d == 12 {
        'c'
    } else if d == 13 {
        'd'
    } else if d == 14 {
        'e'
    } else {
        'f'
    }
}

fn push_json_escaped_char(s: &mut String, c: char)
    ensures
        final(s)@ == old(s)@ + json_escape_char(c),
{
    let v = c as u32;
    if c == '"' {
        s.push('\\');
        s.push('"');
    } else if c == '\\' {
        s.push('\\');
        s.push('\\');
    } else if c == '\n' {
        s.push('\\');
        s.push('n');
    } else if c == '\r' {
        s.push('\\');
        s.push('r');
    } else if c == '\t' {
        s.push('\\');
        s.push('t');
    } else if v <= 0x1f || (0x7f <= v && v <= 0x9f) {
        s.push('\\');
        s.push('u');
        s.push(hex_digit_char(v / 4096 % 16));
        s.push(hex_digit_char(v / 256 % 16));
        s.push(hex_digit_char(v / 16 % 16));
        s.push(hex_digit_char(v % 16));
    } else {
        s.push(c);
    }
    assert(s@ =~= old(s)@ + json_escape_char(c));
}

fn push_json_escaped(s: &mut String, value: &str)
    ensures
        final(s)@ == old(s)@ + json_escape_spec(value@),
{
    let chars = chars_of(value);
    let mut i: usize = 0;
    assert(chars@.take(0) =~= Seq::<char>::empty());
    assert(old(s)@ + json_escape_spec(chars@.take(0)) =~= old(s)@);
    while i < chars.len()
        invariant
            i <= chars.len(),
            s@ == old(s)@ + json_escape_spec(chars@.take(i as int)),
        decreases chars.len() - i,
    {
        push_json_escaped_char(s, chars[i]);
        assert(chars@.take(i + 1).drop_last() =~= chars@.take(i as int));
        assert(s@ =~= old(s)@ + json_escape_spec(chars@.take(i + 1)));
        i += 1;
    }
    assert(chars@.take(i as int) =~= chars@);
}

/// A text escaped for use inside a JSON string.
pub fn json_escape(value: &str) -> (r: String)
    ensures
        r@ == json_escape_spec(value@),
{
    let mut r = String::new();
    push_json_escaped(&mut r, value);
    assert(r@ =~= json_escape_spec(value@));
    r
}

/// The value of a hexadecimal digit, `-1` for any other character.
pub open spec fn hex_value(c: char) -> int {
    if '0' <= c && c <= '9' {
        c as int - '0' as int
    } else if 'a' <= c && c <= 'f' {
        c as int - 'a' as int + 10
    } else if 'A' <= c && c <= 'F' {
        c as int - 'A' as int + 10
    } else {
        -1
    }
}

/// Four hexadecimal digits start at position `i` of `t`.
pub open spec fn hex4_at(t: Seq<char>, i: int) -> bool {
    i + 4 <= t.len() && hex_value(t[i]) >= 0 && hex_value(t[i + 1]) >= 0 && hex_value(t[i + 2]) >= 0
        && hex_value(t[i + 3]) >= 0
}

/// The number written by the four hexadecimal digits at position `i` of `t`.
pub open spec fn hex4_value(t: Seq<char>, i: int) -> int {
    ((hex_value(t[i]) * 16 + hex_value(t[i + 1])) * 16 + hex_value(t[i + 2])) * 16 + hex_value(
        t[i + 3],
    )
}

/// The characters that JSON writes after a backslash, with the one they stand for.
pub open spec fn json_short_escape(e: char) -> Option<char> {
    if e == '"' {
        Some('"')
    } else if e == '\\' {
        Some('\\')
    } else if e == '/' {
        Some('/')
    } else if e == 'b' {
        Some('\x08')
    } else if e == 'f' {
        Some('\x0c')
    } else if e == 'n' {
        Some('\n')
    } else if e == 'r' {
        Some('\r')
    } else if e == 't' {
        Some('\t')
    } else {
        None
    }
}

/// `t` is the text between the quotes of a JSON string literal: no bare `"`,
/// no bare backslash, no character below U+0020, and only valid escapes.
pub open spec fn json_string_body(t: Seq<char>) -> bool
    decreases t.len(),
{
    if t.len() == 0 {
        true
    } else if t[0] == '\\' {
        if t.len() >= 2 && json_short_escape(t[1]) is Some {
            json_string_body(t.skip(2))
        } else if t.len() >= 2 && t[1] == 'u' && hex4_at(t, 2) {
            json_string_body(t.skip(6))
        } else {
            false
        }
    } else if t[0] == '"' || (t[0] as u32) < 0x20 {
        false
    } else {
        json_string_body(t.skip(1))
    }
}

/// The text that a JSON string body stands for.
pub open spec fn json_decode(t: Seq<char>) -> Seq<char>
    decreases t.len(),
{
    if t.len() == 0 {
        seq![]
    } else if t[0] == '\\' && t.len() >= 2 && json_short_escape(t[1]) is Some {
        seq![json_short_escape(t[1])->0] + json_decode(t.skip(2))
    } else if t[0] == '\\' && t.len() >= 2 && t[1] == 'u' && hex4_at(t, 2) {
        seq![hex4_value(t, 2) as char] + json_decode(t.skip(6))
    } else {
        seq![t[0]] + json_decode(t.skip(1))
    }
}

proof fn lemma_json_escape_append(a: Seq<char>, b: Seq<char>)
    ensures
        json_escape_spec(a + b) == json_escape_spec(a) + json_escape_spec(b),
    decreases b.len(),
{
    if b.len() == 0 {
        assert(a + b =~= a);
        assert(json_escape_spec(a) + seq![] =~= json_escape_spec(a));
    } else {
        lemma_json_escape_append(a, b.drop_last());
        assert((a + b).drop_last() =~= a + b.drop_last());
        assert((a + b).last() == b.last());
        assert(json_escape_spec(a) + json_escape_spec(b.drop_last()) + json_escape_char(b.last())
            =~= json_escape_spec(a) + (json_escape_spec(b.drop_last()) + json_escape_char(
            b.last(),
        )));
    }
}

proof fn lemma_json_escape_first(s: Seq<char>)
    requires
        s.len() > 0,
    ensures
        json_escape_spec(s) == json_escape_char(s[0]) + json_escape_spec(s.skip(1)),
{
    let one = seq![s[0]];
    assert(one + s.skip(1) =~= s);
    lemma_json_escape_append(one, s.skip(1));
    assert(one.drop_last() =~= Seq::<char>::empty());
    assert(json_escape_spec(Seq::<char>::empty()) =~= Seq::<char>::empty());
    assert(one.last() == s[0]);
    assert(json_escape_spec(one) =~= json_escape_char(s[0]));
}

proof fn lemma_hex_digit_value(d: nat)
    requires
        d < 16,
    ensures
        hex_value(hex_digit(d)) == d,
{
}

proof fn lemma_json_char(c: char, rest: Seq<char>)
    ensures
        json_string_body(json_escape_char(c) + rest) == json_string_body(rest),
        json_decode(json_escape_char(c) + rest) == seq![c] + json_decode(rest),
{
    let e = json_escape_char(c);
    let t = e + rest;
    assert(t.skip(e.len() as int) =~= rest);
    assert(t[0] == e[0]);
    if e.len() > 1 {
        assert(t[1] == e[1]);
    }
    if c != '"' && c != '\\' && c != '\n' && c != '\r' && c != '\t' && is_control(c) {
        let v = (c as u32) as nat;
        assert(v < 0xa0);
        assert(v / 4096 % 16 == 0);
        assert(v / 256 % 16 == 0);
        lemma_hex_digit_value(0);
        lemma_hex_digit_value(v / 16 % 16);
        lemma_hex_digit_value(v % 16);
        assert(t[2] == e[2] && t[3] == e[3] && t[4] == e[4] && t[5] == e[5]);
        assert(hex4_at(t, 2));
        assert(v == (v / 16 % 16) * 16 + v % 16);
        assert(hex4_value(t, 2) == v);
        assert((v as char) == c);
    }
}

/// Escaping a text for JSON gives a valid JSON string body that stands for the
/// text, and leaves no control character in it.
pub proof fn law_json_escape_round_trip(s: Seq<char>)
    ensures
        json_string_body(json_escape_spec(s)),
        json_decode(json_escape_spec(s)) == s,
        forall|i: int|
            0 <= i < json_escape_spec(s).len() ==> !is_control(#[trigger] json_escape_spec(s)[i]),
    decreases s.len(),
{
    if s.len() == 0 {
        assert(json_escape_spec(s) =~= Seq::<char>::empty());
    } else {
        lemma_json_escape_first(s);
        law_json_escape_round_trip(s.skip(1));
        lemma_json_char(s[0], json_escape_spec(s.skip(1)));
        assert(seq![s[0]] + s.skip(1) =~= s);
        let e = json_escape_char(s[0]);
        let r = json_escape_spec(s.skip(1));
        assert forall|i: int| 0 <= i < (e + r).len() implies !is_control(#[trigger] (e + r)[i]) by {
            if i >= e.len() {
                assert((e + r)[i] == r[i - e.len()]);
            } else if s[0] != '"' && s[0] != '\\' && s[0] != '\n' && s[0] != '\r' && s[0]
                != '\t' && is_control(s[0]) {
                let v = (s[0] as u32) as nat;
                lemma_hex_digit_value(v / 4096 % 16);
                lemma_hex_digit_value(v / 256 % 16);
                lemma_hex_digit_value(v / 16 % 16);
                lemma_hex_digit_value(v % 16);
            }
        }
    }
}

/// The human-readable line for one diagnostic: `path:line:column: error[CODE]: message`.
pub open spec fn human_line_spec(path: Seq<char>, d: crate::report::DiagnosticView) -> Seq<char> {
    path + ":"@ + decimal(d.line as nat) + ":"@ + decimal(d.column as nat) + ": error["@ + d.code
        + "]: "@ + d.message
}

/// The JSON Lines object for one diagnostic.
pub open spec fn json_line_spec(path: Seq<char>, d: crate::report::DiagnosticView) -> Seq<char> {
    "{\"file\":\""@ + json_escape_spec(path) + "\",\"code\":\""@ + d.code + "\",\"line\":"@
        + decimal(d.line as nat) + ",\"column\":"@ + decimal(d.column as nat) + ",\"message\":\""@
        + json_escape_spec(d.message) + "\"}"@
}

pub fn human_line(path: &str, d: &Diagnostic) -> (r: String)
    ensures
        r@ == human_line_spec(path@, d@),
{
    let mut r = String::new();
    r.append(path);
    r.append(":");
    push_decimal(&mut r, d.line);
    r.append(":");
    push_decimal(&mut r, d.column);
    r.append(": error[");
    r.append(d.code);
    r.append("]: ");
    r.append(d.message.as_str());
    assert(r@ =~= human_line_spec(path@, d@));
    r
}

pub fn json_line(path: &str, d: &Diagnostic) -> (r: String)
    ensures
        r@ == json_line_spec(path@, d@),
{
    let mut r = String::new();
    r.append("{\"file\":\"");
    push_json_escaped(&mut r, path);
    r.append("\",\"code\":\"");
    r.append(d.code);
    r.append("\",\"line\":");
    push_decimal(&mut r, d.line);
    r.append(",\"column\":");
    push_decimal(&mut r, d.column);
    r.append(",\"message\":\"");
    push_json_escaped(&mut r, d.message.as_str());
    r.append("\"}");
    assert(r@ =~= json_line_spec(path@, d@));
    r
}

// ---------------------------------------------------------------------------
// Summary
// ---------------------------------------------------------------------------

/// The totals over all checked files.
pub struct Summary {
    pub files: usize,
    pub diagnostics: usize,
    pub tracked_owners: usize,
    pub tracked_borrows: usize,
}

/// The totals of the first `n` reports: diagnostics, owners, borrows.
pub open spec fn totals(reports: Seq<AnalysisReport>, n: int) -> (nat, nat, nat)
    decreases n,
{
    if n <= 0 {
        (0, 0, 0)
    } else {
        let (d, o, b) = totals(reports, n - 1);
        let r = reports[n - 1];
        (
            d + r.diagnostics@.len(),
            o + r.tracked_owners as nat,
            b + r.tracked_borrows as nat,
        )
    }
}

proof fn lemma_totals_mono(reports: Seq<AnalysisReport>, n: int, m: int)
    requires
        n <= m,
    ensures
        totals(reports, n).0 <= totals(reports, m).0,
        totals(reports, n).1 <= totals(reports, m).1,
        totals(reports, n).2 <= totals(reports, m).2,
    decreases m - n,
{
    if n < m {
        lemma_totals_mono(reports, n, m - 1);
    }
}

/// The totals over the reports of all checked files, or `None` when a total
/// does not fit in a `usize`.
proof fn lemma_totals_prefix(reports: Seq<AnalysisReport>, r: AnalysisReport, n: int)
    requires
        n <= reports.len(),
    ensures
        totals(reports.push(r), n) == totals(reports, n),
    decreases n,
{
    if n > 0 {
        lemma_totals_prefix(reports, r, n - 1);
        assert(reports.push(r)[n - 1] == reports[n - 1]);
    }
}

/// The summary adds up the reports: with no reports every total is zero, and
/// appending a report adds its diagnostics, owners and borrows to the totals.
pub proof fn law_totals_add_up(reports: Seq<AnalysisReport>, r: AnalysisReport)
    ensures
        totals(Seq::<AnalysisReport>::empty(), 0) == (0nat, 0nat, 0nat),
        totals(reports.push(r), reports.len() + 1int).0 == totals(reports, reports.len() as int).0
            + r.diagnostics@.len(),
        totals(reports.push(r), reports.len() + 1int).1 == totals(reports, reports.len() as int).1
            + r.tracked_owners,
        totals(reports.push(r), reports.len() + 1int).2 == totals(reports, reports.len() as int).2
            + r.tracked_borrows,
{
    lemma_totals_prefix(reports, r, reports.len() as int);
    assert(reports.push(r)[reports.len() as int] == r);
}

pub fn summarize(reports: &Vec<AnalysisReport>) -> (r: Option<Summary>)
    ensures
        ({
            let (d, o, b) = totals(reports@, reports@.len() as int);
            r matches Some(s) ==> s.files == reports@.len() && s.diagnostics == d
                && s.tracked_owners == o && s.tracked_borrows == b
        }),
        ({
            let (d, o, b) = totals(reports@, reports@.len() as int);
            r is None <==> (d > usize::MAX || o > usize::MAX || b > usize::MAX)
        }),
{
    let ghost all = totals(reports@, reports@.len() as int);
    let mut diagnostics: usize = 0;
    let mut owners: usize = 0;
    let mut borrows: usize = 0;
    let mut i: usize = 0;
    while i < reports.len()
        invariant
            i <= reports.len(),
            all == totals(reports@, reports@.len() as int),
            (diagnostics as nat, owners as nat, borrows as nat) == totals(reports@, i as int),
        decreases reports.len() - i,
    {
        proof {
            lemma_totals_mono(reports@, i + 1, reports@.len() as int);
        }
        let r = &reports[i];
        match diagnostics.checked_add(r.diagnostics.len()) {
            Some(v) => {
                diagnostics = v;
            },
            None => {
                return None;
            },
        }
        match owners.checked_add(r.tracked_owners) {
            Some(v) => {
                owners = v;
            },
            None => {
                return None;
            },
        }
        match borrows.checked_add(r.tracked_borrows) {
            Some(v) => {
                borrows = v;
            },
            None => {
                return None;
            },
        }
        i += 1;
    }
    Some(
        Summary { files: reports.len(), diagnostics, tracked_owners: owners, tracked_borrows: borrows },
    )
}

/// The process exit status after a completed analysis: 1 when violations were found, else 0.
pub fn exit_status(s: &Summary) -> (code: i32)
    ensures
        code == (if s.diagnostics > 0 {
            1i32
        } else {
            0i32
        }),
{
    if s.diagnostics > 0 {
        1
    } else {
        0
    }
}

/// A clean analysis that found no ownership contract is warned about.
pub fn warns_no_contracts(s: &Summary) -> (w: bool)
    ensures
        w == (s.diagnostics == 0 && s.tracked_owners == 0),
{
    s.diagnostics == 0 && s.tracked_owners == 0
}

/// The final line: the outcome with the totals, in the chosen format.
pub open spec fn summary_line_spec(format: OutputFormat, s: Summary) -> Seq<char> {
    let f = decimal(s.files as nat);
    let d = decimal(s.diagnostics as nat);
    let o = decimal(s.tracked_owners as nat);
    let b = decimal(s.tracked_borrows as nat);
    if s.diagnostics > 0 {
        match format {
            OutputFormat::Human => "error: checked "@ + f + " source file(s); found "@ + d
                + " ownership violation(s) across "@ + o + " ownership contract(s) and "@ + b
                + " borrow(s)"@,
            OutputFormat::Json => "{\"status\":\"violations\",\"files\":"@ + f + ",\"diagnostics\":"@
                + d + ",\"trackedOwners\":"@ + o + ",\"trackedBorrows\":"@ + b + "}"@,
            OutputFormat::Html => "html report: checked "@ + f + " source file(s); found "@ + d
                + " ownership violation(s)"@,
        }
    } else {
        match format {
            OutputFormat::Human => "ok: checked "@ + f + " source file(s); analyzed "@ + o
                + " ownership contract(s) and "@ + b
                + " borrow(s); no ownership violations found"@,
            OutputFormat::Json => "{\"status\":\"ok\",\"files\":"@ + f + ",\"diagnostics\":0"@
                + ",\"trackedOwners\":"@ + o + ",\"trackedBorrows\":"@ + b + "}"@,
            OutputFormat::Html => "html report: checked "@ + f
                + " source file(s); no ownership violations found"@,
        }
    }
}

pub fn summary_line(format: OutputFormat, s: &Summary) -> (r: String)
    ensures
        r@ == summary_line_spec(format, *s),
{
    let mut r = String::new();
    if s.diagnostics > 0 {
        match format {
            OutputFormat::Human => {
                r.append("error: checked ");
                push_decimal(&mut r, s.files);
                r.append(" source file(s); found ");
                push_decimal(&mut r, s.diagnostics);
                r.append(" ownership violation(s) across ");
                push_decimal(&mut r, s.tracked_owners);
                r.append(" ownership contract(s) and ");
                push_decimal(&mut r, s.tracked_borrows);
                r.append(" borrow(s)");
            },
            OutputFormat::Json => {
                r.append("{\"status\":\"violations\",\"files\":");
                push_decimal(&mut r, s.files);
                r.append(",\"diagnostics\":");
                push_decimal(&mut r, s.diagnostics);
                r.append(",\"trackedOwners\":");
                push_decimal(&mut r, s.tracked_owners);
                r.append(",\"trackedBorrows\":");
                push_decimal(&mut r, s.tracked_borrows);
                r.append("}");
            },
            OutputFormat::Html => {
                r.append("html report: checked ");
                push_decimal(&mut r, s.files);
                r.append(" source file(s); found ");
                push_decimal(&mut r, s.diagnostics);
                r.append(" ownership violation(s)");
            },
        }
    } else {
        match format {
            OutputFormat::Human => {
                r.append("ok: checked ");
                push_decimal(&mut r, s.files);
                r.append(" source file(s); analyzed ");
                push_decimal(&mut r, s.tracked_owners);
                r.append(" ownership contract(s) and ");
                push_decimal(&mut r, s.tracked_borrows);
                r.append(" borrow(s); no ownership violations found");
            },
            OutputFormat::Json => {
                r.append("{\"status\":\"ok\",\"files\":");
                push_decimal(&mut r, s.files);
                r.append(",\"diagnostics\":0");
                r.append(",\"trackedOwners\":");
                push_decimal(&mut r, s.tracked_owners);
                r.append(",\"trackedBorrows\":");
                push_decimal(&mut r, s.tracked_borrows);
                r.append("}");
            },
            OutputFormat::Html => {
                r.append("html report: checked ");
                push_decimal(&mut r, s.files);
                r.append(" source file(s); no ownership violations found");
            },
        }
    }
    assert(r@ =~= summary_line_spec(format, *s));
    r
}

/// The warning for a clean analysis without ownership contracts, as a GitHub
/// Actions annotation or as a plain warning.
pub open spec fn warning_line_spec(file_count: nat, github_actions: bool) -> Seq<char> {
    (if github_actions {
        "::warning title=No ownership contracts::"@
    } else {
        "warning: "@
    }) + "checked "@ + decimal(file_count)
        + " source file(s), but found no ownership contracts; add Owned<T>, Resource<T>, @owned, or @resource"@
}

pub fn warning_line(file_count: usize, github_actions: bool) -> (r: String)
    ensures
        r@ == warning_line_spec(file_count as nat, github_actions),
{
    let mut r = String::new();
    if github_actions {
        r.append("::warning title=No ownership contracts::");
    } else {
        r.append("warning: ");
    }
    r.append("checked ");
    push_decimal(&mut r, file_count);
    r.append(
        " source file(s), but found no ownership contracts; add Owned<T>, Resource<T>, @owned, or @resource",
    );
    assert(r@ =~= warning_line_spec(file_count as nat, github_actions));
    r
}

} // verus!
