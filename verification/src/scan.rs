//! The line scanner: how one line of code is read as an ownership declaration,
//! a borrow, an explicit operation, a use of a place, or a change of block nesting.

use vstd::prelude::*;
use crate::text::{
    chars_eq, chars_of, contains, contains_exec, find, find_exec, find_from, find_from_exec,
    is_ident_char, is_identifier_char, is_ws, is_ws_char, lemma_find_from_bounds,
    lemma_find_from_is, lemma_utf8_width_append, occurs_at, prefix_width, slice_chars,
    starts_with, starts_with_exec, trim, trim_end, trim_exec, trim_start, trim_start_exec,
    utf8_width,
};

verus! {

broadcast use vstd::string::group_string_axioms;

/// How a declared value must be released.
#[derive(Clone, Copy, Debug, PartialEq, Eq, Structural)]
pub enum OwnerKind {
    /// A value under move semantics (`Owned<T>`, `@owned`).
    Owned,
    /// A value that must also be disposed (`Resource<T>`, `@resource`).
    Resource,
}

/// The access that a borrow grants.
#[derive(Clone, Copy, Debug, PartialEq, Eq, Structural)]
pub enum BorrowKind {
    Shared,
    Mutable,
}

/// A block opened by a line: a loop body, a conditional branch, or any other block.
#[derive(Clone, Copy, Debug, PartialEq, Eq, Structural)]
pub enum Context {
    Block,
    Conditional,
    Loop,
}

// ---------------------------------------------------------------------------
// Specification
// ---------------------------------------------------------------------------

/// The line without anything from its first `//` on.
pub open spec fn strip_line_comment(line: Seq<char>) -> Seq<char> {
    match find(line, seq!['/', '/']) {
        Some(i) => line.take(i),
        None => line,
    }
}

/// The code that the analysis reads from a source line.
pub open spec fn code_of(line: Seq<char>) -> Seq<char> {
    trim(strip_line_comment(line))
}

/// A place: identifiers joined by single dots, such as `a` or `a.b.c`.
pub open spec fn is_place(v: Seq<char>) -> bool {
    &&& v.len() > 0
    &&& forall|i: int| 0 <= i < v.len() ==> is_ident_char(#[trigger] v[i]) || v[i] == '.'
    &&& v[0] != '.'
    &&& v.last() != '.'
    &&& forall|i: int| 0 <= i < v.len() - 1 ==> !(#[trigger] v[i] == '.' && v[i + 1] == '.')
}

/// The owner of a place: its part before the first dot.
pub open spec fn base_owner(place: Seq<char>) -> Seq<char> {
    match find(place, seq!['.']) {
        Some(i) => place.take(i),
        None => place,
    }
}

/// The place passed to the first call `function(...)` in `code`, if the text
/// between the parentheses, trimmed, is a place.
pub open spec fn call_argument(code: Seq<char>, function: Seq<char>) -> Option<Seq<char>> {
    let needle = function.push('(');
    match find(code, needle) {
        None => None,
        Some(q) => {
            let tail = code.skip(q + needle.len());
            match find(tail, seq![')']) {
                None => None,
                Some(e) => {
                    let argument = trim(tail.take(e));
                    if is_place(argument) {
                        Some(argument)
                    } else {
                        None
                    }
                },
            }
        },
    }
}

/// The occurrence of `p` at `q` is not glued to identifier characters on either side.
pub open spec fn bounded_at(t: Seq<char>, p: Seq<char>, q: int) -> bool {
    &&& !(q > 0 && is_ident_char(t[q - 1]))
    &&& !(q + p.len() < t.len() && is_ident_char(t[q + p.len()]))
}

/// Among the non-overlapping occurrences of `p` in `t` found left to right from
/// `from` (an empty `p` occurs at every position), the first one that stands alone.
pub open spec fn first_bounded_match(t: Seq<char>, p: Seq<char>, from: int) -> Option<int>
    decreases t.len() + 1 - from,
{
    match find_from(t, p, from) {
        None => None,
        Some(q) => {
            proof {
                lemma_find_from_bounds(t, p, from);
            }
            if bounded_at(t, p, q) {
                Some(q)
            } else if p.len() == 0 {
                first_bounded_match(t, p, q + 1)
            } else {
                first_bounded_match(t, p, q + p.len())
            }
        },
    }
}

/// `name` occurs in `text` as a whole identifier.
pub open spec fn contains_identifier(text: Seq<char>, name: Seq<char>) -> bool {
    first_bounded_match(text, name, 0) is Some
}

/// The end of the run of identifier characters and dots that starts at `i`.
pub open spec fn place_run_end(t: Seq<char>, i: int) -> int
    decreases t.len() - i,
{
    if 0 <= i < t.len() && (t[i] == '.' || is_ident_char(t[i])) {
        place_run_end(t, i + 1)
    } else {
        i
    }
}

/// The place through which `code` uses `owner`: the first standalone occurrence
/// of `owner`, extended by the dotted path that follows it.
pub open spec fn used_place(code: Seq<char>, owner: Seq<char>) -> Option<Seq<char>> {
    match first_bounded_match(code, owner, 0) {
        Some(q) => Some(code.subrange(q, place_run_end(code, q + owner.len()))),
        None => None,
    }
}

/// One place is the other, or lies inside it.
pub open spec fn places_overlap(moved: Seq<char>, used: Seq<char>) -> bool {
    ||| moved == used
    ||| (moved.len() < used.len() && starts_with(used, moved) && used[moved.len() as int] == '.')
    ||| (used.len() < moved.len() && starts_with(moved, used) && moved[used.len() as int] == '.')
}

/// The 1-based byte column of the first occurrence of `identifier` in the
/// source line, or 1 when it does not occur.
pub open spec fn identifier_column(source_line: Seq<char>, identifier: Seq<char>) -> int {
    match find(source_line, identifier) {
        Some(k) => utf8_width(source_line.take(k)) + 1int,
        None => 1,
    }
}

/// The end of the run of non-whitespace characters that starts at `i`.
pub open spec fn word_end(s: Seq<char>, i: int) -> int
    decreases s.len() - i,
{
    if 0 <= i < s.len() && !is_ws(s[i]) {
        word_end(s, i + 1)
    } else {
        i
    }
}

/// The start of the run of non-whitespace characters that ends at `i`.
pub open spec fn word_start(s: Seq<char>, i: int) -> int
    decreases i,
{
    if 0 < i <= s.len() && !is_ws(s[i - 1]) {
        word_start(s, i - 1)
    } else {
        i
    }
}

/// The first whitespace-separated word of `s`.
pub open spec fn first_word(s: Seq<char>) -> Option<Seq<char>> {
    let t = trim_start(s);
    if t.len() == 0 {
        None
    } else {
        Some(t.take(word_end(t, 0)))
    }
}

/// What follows the first whitespace-separated word of `s`.
pub open spec fn after_first_word(s: Seq<char>) -> Seq<char> {
    let t = trim_start(s);
    t.skip(word_end(t, 0))
}

/// The second whitespace-separated word of `s`.
pub open spec fn second_word(s: Seq<char>) -> Option<Seq<char>> {
    first_word(after_first_word(s))
}

/// The last whitespace-separated word of `s`.
pub open spec fn last_word(s: Seq<char>) -> Option<Seq<char>> {
    let t = trim_end(s);
    if t.len() == 0 {
        None
    } else {
        Some(t.skip(word_start(t, t.len() as int)))
    }
}

/// `s` without any of the character `c` at its end.
pub open spec fn trim_end_char(s: Seq<char>, c: char) -> Seq<char>
    decreases s.len(),
{
    if s.len() > 0 && s.last() == c {
        trim_end_char(s.drop_last(), c)
    } else {
        s
    }
}

/// The part of `s` before the first `c` (all of `s` without one).
pub open spec fn before_char(s: Seq<char>, c: char) -> Seq<char> {
    match find(s, seq![c]) {
        Some(i) => s.take(i),
        None => s,
    }
}

/// The kind that a declaration line states, or the pending JSDoc marker.
pub open spec fn declared_kind(code: Seq<char>, marker: Option<OwnerKind>) -> Option<OwnerKind> {
    if contains(code, "Resource<"@) {
        Some(OwnerKind::Resource)
    } else if contains(code, "Owned<"@) {
        Some(OwnerKind::Owned)
    } else {
        marker
    }
}

/// A `let`, `const` or `var` declaration of an owned value or resource: the
/// declared name (the second word, up to a type annotation) and its kind.
pub open spec fn owned_declaration(code: Seq<char>, marker: Option<OwnerKind>) -> Option<
    (Seq<char>, OwnerKind),
> {
    match declared_kind(code, marker) {
        None => None,
        Some(kind) => if !(starts_with(code, "let "@) || starts_with(code, "const "@) || starts_with(
            code,
            "var "@,
        )) {
            None
        } else {
            match second_word(code) {
                None => None,
                Some(w) => Some((before_char(trim_end_char(w, ':'), ':'), kind)),
            }
        },
    }
}

/// A binding `name = ... borrowMut(place)` or `name = ... borrow(place)`: the
/// bound name, the borrowed place and the kind of borrow.
pub open spec fn borrow_declaration(code: Seq<char>) -> Option<(Seq<char>, Seq<char>, BorrowKind)> {
    match find(code, seq!['=']) {
        None => None,
        Some(e) => match last_word(code.take(e)) {
            None => None,
            Some(w) => {
                let binding = trim_end_char(w, ':');
                let rest = code.skip(e + 1);
                match call_argument(rest, "borrowMut"@) {
                    Some(owner) => Some((binding, owner, BorrowKind::Mutable)),
                    None => match call_argument(rest, "borrow"@) {
                        Some(owner) => Some((binding, owner, BorrowKind::Shared)),
                        None => None,
                    },
                }
            },
        },
    }
}

/// The line opens a `for` or `while` loop.
pub open spec fn is_loop_header(code: Seq<char>) -> bool {
    let t = trim_start(code);
    ||| starts_with(t, "for ("@)
    ||| starts_with(t, "for("@)
    ||| starts_with(t, "while ("@)
    ||| starts_with(t, "while("@)
}

/// The line opens an `if`, `else` or `switch` branch, once the braces that
/// close blocks at its start are passed over (as in `} else {`).
pub open spec fn is_conditional_header(code: Seq<char>) -> bool {
    let t = after_closes(code);
    ||| starts_with(t, "if ("@)
    ||| starts_with(t, "if("@)
    ||| starts_with(t, "else"@)
    ||| starts_with(t, "switch ("@)
}

/// The number of times `c` occurs in `s`.
pub open spec fn count_char(s: Seq<char>, c: char) -> nat
    decreases s.len(),
{
    if s.len() == 0 {
        0
    } else {
        count_char(s.drop_last(), c) + if s.last() == c {
            1nat
        } else {
            0nat
        }
    }
}

/// The length of the prefix of `s` made of whitespace and `}`.
pub open spec fn closing_prefix_len(s: Seq<char>, i: int) -> int
    decreases s.len() - i,
{
    if 0 <= i < s.len() && (is_ws(s[i]) || s[i] == '}') {
        closing_prefix_len(s, i + 1)
    } else {
        i
    }
}

/// The line from its first character that is neither whitespace nor `}`.
pub open spec fn after_closes(code: Seq<char>) -> Seq<char> {
    code.subrange(closing_prefix_len(code, 0), code.len() as int)
}

/// The braces that close blocks at the start of the line.
pub open spec fn leading_closes(code: Seq<char>) -> nat {
    count_char(code.take(closing_prefix_len(code, 0)), '}')
}

/// The blocks that the line leaves open: `{` not matched by a later `}` on the line.
pub open spec fn net_opens(code: Seq<char>) -> nat {
    let opens = count_char(code, '{');
    let closes = count_char(code, '}');
    let later_closes = closes - leading_closes(code);
    if opens > later_closes {
        (opens - later_closes) as nat
    } else {
        0
    }
}

/// The block stack after a line: the blocks it closes at its start are left,
/// and each block it leaves open is entered; the first of these is a loop body
/// or a conditional branch when the line is a loop or conditional header.
pub open spec fn update_contexts(code: Seq<char>, contexts: Seq<Context>) -> Seq<Context> {
    let closing = leading_closes(code);
    let kept = if contexts.len() > closing {
        contexts.take(contexts.len() - closing)
    } else {
        seq![]
    };
    let n = net_opens(code);
    let first = if is_loop_header(code) {
        Context::Loop
    } else if is_conditional_header(code) {
        Context::Conditional
    } else {
        Context::Block
    };
    kept + Seq::new(n, |i: int| if i == 0 { first } else { Context::Block })
}

// ---------------------------------------------------------------------------
// Implementation
// ---------------------------------------------------------------------------

/// A copy of the characters of `v`.
pub fn copy_chars(v: &Vec<char>) -> (r: Vec<char>)
    ensures
        r@ == v@,
{
    let r = slice_chars(v, 0, v.len());
    assert(r@ =~= v@);
    r
}

pub fn strip_line_comment_exec(line: &Vec<char>) -> (r: Vec<char>)
    ensures
        r@ == strip_line_comment(line@),
{
    let pattern = vec!['/', '/'];
    assert(pattern@ =~= seq!['/', '/']);
    match find_exec(line, &pattern) {
        Some(i) => {
            let r = slice_chars(line, 0, i);
            assert(r@ =~= line@.take(i as int));
            r
        },
        None => copy_chars(line),
    }
}

pub fn code_of_exec(line: &Vec<char>) -> (r: Vec<char>)
    ensures
        r@ == code_of(line@),
{
    let stripped = strip_line_comment_exec(line);
    trim_exec(&stripped)
}

pub fn is_place_exec(v: &Vec<char>) -> (r: bool)
    ensures
        r == is_place(v@),
{
    let n = v.len();
    if n == 0 {
        return false;
    }
    if v[0] == '.' || v[n - 1] == '.' {
        return false;
    }
    let mut i: usize = 0;
    while i < n
        invariant
            n == v.len(),
            i <= n,
            forall|j: int| 0 <= j < i ==> is_ident_char(#[trigger] v@[j]) || v@[j] == '.',
            forall|j: int| 0 <= j < i && j < n - 1 ==> !(#[trigger] v@[j] == '.' && v@[j + 1] == '.'),
        decreases n - i,
    {
        let c = v[i];
        if !(is_identifier_char(c) || c == '.') {
            return false;
        }
        if i + 1 < n && c == '.' && v[i + 1] == '.' {
            return false;
        }
        i += 1;
    }
    true
}

pub fn base_owner_exec(place: &Vec<char>) -> (r: Vec<char>)
    ensures
        r@ == base_owner(place@),
{
    let dot = vec!['.'];
    assert(dot@ =~= seq!['.']);
    match find_exec(place, &dot) {
        Some(i) => {
            let r = slice_chars(place, 0, i);
            assert(r@ =~= place@.take(i as int));
            r
        },
        None => copy_chars(place),
    }
}

/// The place passed to the first call `function(...)` in `code`.
pub fn call_argument_exec(code: &Vec<char>, function: &str) -> (r: Option<Vec<char>>)
    ensures
        r matches Some(a) ==> call_argument(code@, function@) == Some(a@),
        r is None ==> call_argument(code@, function@) is None,
{
    let mut needle = chars_of(function);
    needle.push('(');
    match find_exec(code, &needle) {
        None => None,
        Some(q) => {
            let start = q + needle.len();
            let tail = slice_chars(code, start, code.len());
            assert(tail@ =~= code@.skip(start as int));
            let close = vec![')'];
            assert(close@ =~= seq![')']);
            match find_exec(&tail, &close) {
                None => None,
                Some(e) => {
                    let inside = slice_chars(&tail, 0, e);
                    assert(inside@ =~= tail@.take(e as int));
                    let argument = trim_exec(&inside);
                    if is_place_exec(&argument) {
                        Some(argument)
                    } else {
                        None
                    }
                },
            }
        },
    }
}

pub fn bounded_at_exec(t: &Vec<char>, p: &Vec<char>, q: usize) -> (r: bool)
    requires
        q + p.len() <= t.len(),
    ensures
        r == bounded_at(t@, p@, q as int),
{
    let before_ok = q == 0 || !is_identifier_char(t[q - 1]);
    let after = q + p.len();
    let after_ok = after >= t.len() || !is_identifier_char(t[after]);
    before_ok && after_ok
}

/// The first standalone occurrence of `p` in `t`, as `first_bounded_match` states it.
pub fn first_bounded_match_exec(t: &Vec<char>, p: &Vec<char>) -> (r: Option<usize>)
    ensures
        r matches Some(q) ==> first_bounded_match(t@, p@, 0) == Some(q as int),
        r is None ==> first_bounded_match(t@, p@, 0) is None,
        r matches Some(q) ==> q + p.len() <= t.len(),
{
    let mut from: usize = 0;
    while from <= t.len()
        invariant
            first_bounded_match(t@, p@, 0) == first_bounded_match(t@, p@, from as int),
        decreases t.len() + 1 - from,
    {
        match find_from_exec(t, p, from) {
            None => {
                return None;
            },
            Some(q) => {
                if bounded_at_exec(t, p, q) {
                    return Some(q);
                }
                if p.len() == 0 {
                    if q == t.len() {
                        assert(find_from(t@, p@, q + 1) is None);
                        assert(first_bounded_match(t@, p@, q + 1) is None);
                        return None;
                    }
                    from = q + 1;
                } else {
                    from = q + p.len();
                }
            },
        }
    }
    proof {
        lemma_find_from_bounds(t@, p@, from as int);
    }
    None
}

pub fn contains_identifier_exec(text: &Vec<char>, name: &Vec<char>) -> (r: bool)
    ensures
        r == contains_identifier(text@, name@),
{
    first_bounded_match_exec(text, name).is_some()
}

pub fn place_run_end_exec(t: &Vec<char>, i: usize) -> (e: usize)
    requires
        i <= t.len(),
    ensures
        e as int == place_run_end(t@, i as int),
        i <= e <= t.len(),
{
    let mut e = i;
    while e < t.len() && (t[e] == '.' || is_identifier_char(t[e]))
        invariant
            i <= e <= t.len(),
            place_run_end(t@, i as int) == place_run_end(t@, e as int),
        decreases t.len() - e,
    {
        e += 1;
    }
    e
}

pub fn used_place_exec(code: &Vec<char>, owner: &Vec<char>) -> (r: Option<Vec<char>>)
    ensures
        r matches Some(u) ==> used_place(code@, owner@) == Some(u@),
        r is None ==> used_place(code@, owner@) is None,
{
    match first_bounded_match_exec(code, owner) {
        Some(q) => {
            let end = place_run_end_exec(code, q + owner.len());
            Some(slice_chars(code, q, end))
        },
        None => None,
    }
}

pub fn places_overlap_exec(moved: &Vec<char>, used: &Vec<char>) -> (r: bool)
    ensures
        r == places_overlap(moved@, used@),
{
    if chars_eq(moved, used) {
        return true;
    }
    if moved.len() < used.len() && starts_with_exec(used, moved) && used[moved.len()] == '.' {
        return true;
    }
    used.len() < moved.len() && starts_with_exec(moved, used) && moved[used.len()] == '.'
}

/// The 1-based byte column of `identifier` in the source line, or 1.
pub fn identifier_column_exec(source_line: &Vec<char>, identifier: &Vec<char>) -> (c: usize)
    requires
        utf8_width(source_line@) <= usize::MAX,
    ensures
        c as int == identifier_column(source_line@, identifier@),
        c >= 1,
{
    match find_exec(source_line, identifier) {
        Some(k) => {
            proof {
                let s = source_line@;
                lemma_utf8_width_append(s.take(k as int), s.skip(k as int));
                assert(s.take(k as int) + s.skip(k as int) =~= s);
                if identifier@.len() == 0 {
                    assert(occurs_at(s, identifier@, 0)) by {
                        assert(s.subrange(0, 0) =~= identifier@);
                    }
                    lemma_find_from_is(s, identifier@, 0, 0);
                } else {
                    let r = s.skip(k as int);
                    assert(r =~= r.drop_last().push(r.last()));
                }
            }
            prefix_width(source_line, k) + 1
        },
        None => 1,
    }
}

pub fn word_end_exec(s: &Vec<char>, i: usize) -> (e: usize)
    requires
        i <= s.len(),
    ensures
        e as int == word_end(s@, i as int),
        i <= e <= s.len(),
{
    let mut e = i;
    while e < s.len() && !is_ws_char(s[e])
        invariant
            i <= e <= s.len(),
            word_end(s@, i as int) == word_end(s@, e as int),
        decreases s.len() - e,
    {
        e += 1;
    }
    e
}

pub fn word_start_exec(s: &Vec<char>, i: usize) -> (b: usize)
    requires
        i <= s.len(),
    ensures
        b as int == word_start(s@, i as int),
        b <= i,
{
    let mut b = i;
    while b > 0 && !is_ws_char(s[b - 1])
        invariant
            b <= i <= s.len(),
            word_start(s@, i as int) == word_start(s@, b as int),
        decreases b,
    {
        b -= 1;
    }
    b
}

pub fn first_word_exec(s: &Vec<char>) -> (r: Option<Vec<char>>)
    ensures
        r matches Some(w) ==> first_word(s@) == Some(w@),
        r is None ==> first_word(s@) is None,
{
    let t = trim_start_exec(s);
    if t.len() == 0 {
        None
    } else {
        let e = word_end_exec(&t, 0);
        let w = slice_chars(&t, 0, e);
        assert(w@ =~= t@.take(e as int));
        Some(w)
    }
}

pub fn second_word_exec(s: &Vec<char>) -> (r: Option<Vec<char>>)
    ensures
        r matches Some(w) ==> second_word(s@) == Some(w@),
        r is None ==> second_word(s@) is None,
{
    let t = trim_start_exec(s);
    let e = word_end_exec(&t, 0);
    let rest = slice_chars(&t, e, t.len());
    assert(rest@ =~= t@.skip(e as int));
    first_word_exec(&rest)
}

pub fn last_word_exec(s: &Vec<char>) -> (r: Option<Vec<char>>)
    ensures
        r matches Some(w) ==> last_word(s@) == Some(w@),
        r is None ==> last_word(s@) is None,
{
    let end = crate::text::trailing_ws_start(s);
    let t = slice_chars(s, 0, end);
    if t.len() == 0 {
        None
    } else {
        let b = word_start_exec(&t, t.len());
        let w = slice_chars(&t, b, t.len());
        assert(w@ =~= t@.skip(b as int));
        Some(w)
    }
}

pub fn trim_end_char_exec(s: &Vec<char>, c: char) -> (r: Vec<char>)
    ensures
        r@ == trim_end_char(s@, c),
{
    let mut i = s.len();
    assert(s@.take(i as int) =~= s@);
    while i > 0 && s[i - 1] == c
        invariant
            i <= s.len(),
            trim_end_char(s@, c) == trim_end_char(s@.take(i as int), c),
        decreases i,
    {
        assert(s@.take(i as int).drop_last() =~= s@.take(i - 1));
        i -= 1;
    }
    let r = slice_chars(s, 0, i);
    assert(r@ =~= s@.take(i as int));
    r
}

pub fn before_char_exec(s: &Vec<char>, c: char) -> (r: Vec<char>)
    ensures
        r@ == before_char(s@, c),
{
    let pattern = vec![c];
    assert(pattern@ =~= seq![c]);
    match find_exec(s, &pattern) {
        Some(i) => {
            let r = slice_chars(s, 0, i);
            assert(r@ =~= s@.take(i as int));
            r
        },
        None => copy_chars(s),
    }
}

pub fn owned_declaration_exec(code: &Vec<char>, marker: Option<OwnerKind>) -> (r: Option<
    (Vec<char>, OwnerKind),
>)
    ensures
        r matches Some((name, kind)) ==> owned_declaration(code@, marker) == Some((name@, kind)),
        r is None ==> owned_declaration(code@, marker) is None,
{
    let kind = if contains_exec(code, &chars_of("Resource<")) {
        OwnerKind::Resource
    } else if contains_exec(code, &chars_of("Owned<")) {
        OwnerKind::Owned
    } else {
        match marker {
            Some(k) => k,
            None => {
                return None;
            },
        }
    };
    if !(starts_with_exec(code, &chars_of("let ")) || starts_with_exec(code, &chars_of("const "))
        || starts_with_exec(code, &chars_of("var "))) {
        return None;
    }
    match second_word_exec(code) {
        None => None,
        Some(w) => {
            let trimmed = trim_end_char_exec(&w, ':');
            let name = before_char_exec(&trimmed, ':');
            Some((name, kind))
        },
    }
}

pub fn borrow_declaration_exec(code: &Vec<char>) -> (r: Option<(Vec<char>, Vec<char>, BorrowKind)>)
    ensures
        r matches Some((binding, owner, kind)) ==> borrow_declaration(code@) == Some(
            (binding@, owner@, kind),
        ),
        r is None ==> borrow_declaration(code@) is None,
{
    let equals = vec!['='];
    assert(equals@ =~= seq!['=']);
    let e = match find_exec(code, &equals) {
        Some(e) => e,
        None => {
            return None;
        },
    };
    let before = slice_chars(code, 0, e);
    assert(before@ =~= code@.take(e as int));
    let w = match last_word_exec(&before) {
        Some(w) => w,
        None => {
            return None;
        },
    };
    let binding = trim_end_char_exec(&w, ':');
    let rest = slice_chars(code, e + 1, code.len());
    assert(rest@ =~= code@.skip(e + 1));
    match call_argument_exec(&rest, "borrowMut") {
        Some(owner) => Some((binding, owner, BorrowKind::Mutable)),
        None => match call_argument_exec(&rest, "borrow") {
            Some(owner) => Some((binding, owner, BorrowKind::Shared)),
            None => None,
        },
    }
}

pub fn is_loop_header_exec(code: &Vec<char>) -> (r: bool)
    ensures
        r == is_loop_header(code@),
{
    let t = trim_start_exec(code);
    starts_with_exec(&t, &chars_of("for (")) || starts_with_exec(&t, &chars_of("for("))
        || starts_with_exec(&t, &chars_of("while (")) || starts_with_exec(&t, &chars_of("while("))
}

pub fn is_conditional_header_exec(code: &Vec<char>) -> (r: bool)
    ensures
        r == is_conditional_header(code@),
{
    let k = closing_prefix_len_exec(code);
    let t = slice_chars(code, k, code.len());
    starts_with_exec(&t, &chars_of("if (")) || starts_with_exec(&t, &chars_of("if("))
        || starts_with_exec(&t, &chars_of("else")) || starts_with_exec(&t, &chars_of("switch ("))
}

pub fn count_char_exec(s: &Vec<char>, c: char) -> (n: usize)
    ensures
        n == count_char(s@, c),
{
    let mut n: usize = 0;
    let mut i: usize = 0;
    while i < s.len()
        invariant
            i <= s.len(),
            n == count_char(s@.take(i as int), c),
            n <= i,
        decreases s.len() - i,
    {
        assert(s@.take(i + 1).drop_last() =~= s@.take(i as int));
        if s[i] == c {
            n += 1;
        }
        i += 1;
    }
    assert(s@.take(i as int) =~= s@);
    n
}

pub proof fn lemma_count_char_append(a: Seq<char>, b: Seq<char>, c: char)
    ensures
        count_char(a + b, c) == count_char(a, c) + count_char(b, c),
    decreases b.len(),
{
    if b.len() == 0 {
        assert(a + b =~= a);
    } else {
        lemma_count_char_append(a, b.drop_last(), c);
        assert((a + b).drop_last() =~= a + b.drop_last());
    }
}

/// Where the whitespace and `}` at the start of the line end.
pub fn closing_prefix_len_exec(code: &Vec<char>) -> (i: usize)
    ensures
        i == closing_prefix_len(code@, 0),
        i <= code.len(),
{
    let mut i: usize = 0;
    while i < code.len() && (is_ws_char(code[i]) || code[i] == '}')
        invariant
            i <= code.len(),
            closing_prefix_len(code@, 0) == closing_prefix_len(code@, i as int),
        decreases code.len() - i,
    {
        i += 1;
    }
    i
}

pub fn leading_closes_exec(code: &Vec<char>) -> (n: usize)
    ensures
        n == leading_closes(code@),
        n <= count_char(code@, '}'),
{
    let i = closing_prefix_len_exec(code);
    let prefix = slice_chars(code, 0, i);
    assert(prefix@ =~= code@.take(i as int));
    proof {
        lemma_count_char_append(code@.take(i as int), code@.skip(i as int), '}');
        assert(code@.take(i as int) + code@.skip(i as int) =~= code@);
    }
    count_char_exec(&prefix, '}')
}

pub fn update_contexts_exec(code: &Vec<char>, contexts: &mut Vec<Context>)
    ensures
        final(contexts)@ == update_contexts(code@, old(contexts)@),
{
    let closing = leading_closes_exec(code);
    let mut k: usize = 0;
    while k < closing
        invariant
            k <= closing,
            closing == leading_closes(code@),
            contexts@ == (if old(contexts)@.len() > k {
                old(contexts)@.take(old(contexts)@.len() - k)
            } else {
                seq![]
            }),
        decreases closing - k,
    {
        if contexts.len() > 0 {
            contexts.pop();
        }
        k += 1;
    }
    let opens = count_char_exec(code, '{');
    let closes = count_char_exec(code, '}');
    let later = closes - closing;
    let net = if opens > later {
        opens - later
    } else {
        0
    };
    let first = if is_loop_header_exec(code) {
        Context::Loop
    } else if is_conditional_header_exec(code) {
        Context::Conditional
    } else {
        Context::Block
    };
    let ghost kept = contexts@;
    let mut j: usize = 0;
    while j < net
        invariant
            j <= net,
            net == net_opens(code@),
            first == (if is_loop_header(code@) {
                Context::Loop
            } else if is_conditional_header(code@) {
                Context::Conditional
            } else {
                Context::Block
            }),
            contexts@ == kept + Seq::new(
                j as nat,
                |i: int|
                    if i == 0 {
                        first
                    } else {
                        Context::Block
                    },
            ),
        decreases net - j,
    {
        let context = if j == 0 {
            first
        } else {
            Context::Block
        };
        contexts.push(context);
        j += 1;
    }
    assert(contexts@ =~= update_contexts(code@, old(contexts)@));
}

} // verus!
