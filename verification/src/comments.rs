//! A trailing `//` comment changes nothing: the code read from a line, the
//! columns reported on it, and so the whole analysis stay the same.

use vstd::prelude::*;
use crate::analysis::{
    analysis, borrow_use_diagnostics, code_lines, owner_use_diagnostics, run, step, AnalysisState,
    Borrows, Owners,
};
use crate::borrows::borrow_table;
use crate::text::{
    find, find_from, is_ws, lemma_find_from_bounds, lemma_find_from_is, lemma_find_from_least,
    lines, occurs_at, trim, trim_end, trim_start,
};
use crate::scan::{
    after_first_word, before_char, borrow_declaration, call_argument, code_of, first_bounded_match,
    first_word, identifier_column, owned_declaration, place_run_end, second_word,
    strip_line_comment, trim_end_char, used_place, word_end, OwnerKind,
};

verus! {

/// `x` occurs somewhere in `t`.
pub open spec fn occurs_in(t: Seq<char>, x: Seq<char>) -> bool {
    exists|a: int| occurs_at(t, x, a)
}

/// A comment appended to a line: a space, `//`, then any text.
pub open spec fn comment(text: Seq<char>) -> Seq<char> {
    seq![' ', '/', '/'] + text
}

proof fn lemma_occurs_trans(t: Seq<char>, c: Seq<char>, x: Seq<char>)
    requires
        occurs_in(t, c),
        occurs_in(c, x),
    ensures
        occurs_in(t, x),
{
    let a = choose|a: int| occurs_at(t, c, a);
    let q = choose|q: int| occurs_at(c, x, q);
    assert(t.subrange(a + q, a + q + x.len()) =~= c.subrange(q, q + x.len()));
    assert(occurs_at(t, x, a + q));
}

proof fn lemma_subrange_occurs(t: Seq<char>, lo: int, hi: int)
    requires
        0 <= lo <= hi <= t.len(),
    ensures
        occurs_in(t, t.subrange(lo, hi)),
{
    assert(occurs_at(t, t.subrange(lo, hi), lo));
}

proof fn lemma_trim_start_occurs(s: Seq<char>)
    ensures
        occurs_in(s, trim_start(s)),
    decreases s.len(),
{
    if s.len() > 0 && is_ws(s[0]) {
        lemma_trim_start_occurs(s.drop_first());
        lemma_subrange_occurs(s, 1, s.len() as int);
        assert(s.drop_first() =~= s.subrange(1, s.len() as int));
        lemma_occurs_trans(s, s.drop_first(), trim_start(s.drop_first()));
    } else {
        lemma_subrange_occurs(s, 0, s.len() as int);
        assert(s.subrange(0, s.len() as int) =~= s);
    }
}

proof fn lemma_trim_end_occurs(s: Seq<char>)
    ensures
        occurs_in(s, trim_end(s)),
    decreases s.len(),
{
    if s.len() > 0 && is_ws(s.last()) {
        lemma_trim_end_occurs(s.drop_last());
        lemma_subrange_occurs(s, 0, s.len() - 1);
        assert(s.drop_last() =~= s.subrange(0, s.len() - 1));
        lemma_occurs_trans(s, s.drop_last(), trim_end(s.drop_last()));
    } else {
        lemma_subrange_occurs(s, 0, s.len() as int);
        assert(s.subrange(0, s.len() as int) =~= s);
    }
}

proof fn lemma_trim_occurs(s: Seq<char>)
    ensures
        occurs_in(s, trim(s)),
{
    lemma_trim_start_occurs(s);
    lemma_trim_end_occurs(trim_start(s));
    lemma_occurs_trans(s, trim_start(s), trim(s));
}

/// The code of a line is a piece of the line.
proof fn lemma_code_occurs(l: Seq<char>)
    ensures
        occurs_in(l, code_of(l)),
{
    let s = strip_line_comment(l);
    match find(l, seq!['/', '/']) {
        Some(i) => {
            lemma_find_from_least(l, seq!['/', '/'], 0);
            lemma_subrange_occurs(l, 0, i);
            assert(s =~= l.subrange(0, i));
        },
        None => {
            lemma_subrange_occurs(l, 0, l.len() as int);
            assert(s =~= l.subrange(0, l.len() as int));
        },
    }
    lemma_trim_occurs(s);
    lemma_occurs_trans(l, s, code_of(l));
}

/// The first occurrence of `x` in a line stays the first after text is appended.
proof fn lemma_find_extend(l: Seq<char>, y: Seq<char>, x: Seq<char>)
    requires
        find(l, x) is Some,
    ensures
        find(l + y, x) == find(l, x),
{
    let k = find(l, x)->0;
    lemma_find_from_least(l, x, 0);
    assert((l + y).subrange(k, k + x.len()) =~= l.subrange(k, k + x.len()));
    assert forall|j: int| 0 <= j < k implies !occurs_at(l + y, x, j) by {
        if occurs_at(l + y, x, j) {
            assert((l + y).subrange(j, j + x.len()) =~= l.subrange(j, j + x.len()));
            assert(occurs_at(l, x, j));
        }
    }
    lemma_find_from_is(l + y, x, 0, k);
}

proof fn lemma_find_some(t: Seq<char>, x: Seq<char>)
    requires
        occurs_in(t, x),
    ensures
        find(t, x) is Some,
{
    lemma_find_from_least(t, x, 0);
    let a = choose|a: int| occurs_at(t, x, a);
    assert(occurs_at(t, x, a));
}

/// A column is unchanged by appended text when the identifier occurs in the
/// code of the line.
pub proof fn lemma_column_extend(l: Seq<char>, y: Seq<char>, x: Seq<char>)
    requires
        occurs_in(code_of(l), x),
    ensures
        identifier_column(l + y, x) == identifier_column(l, x),
{
    lemma_code_occurs(l);
    lemma_occurs_trans(l, code_of(l), x);
    lemma_find_some(l, x);
    lemma_find_extend(l, y, x);
    let k = find(l, x)->0;
    lemma_find_from_least(l, x, 0);
    assert((l + y).take(k) =~= l.take(k));
}

proof fn lemma_trim_start_space(s: Seq<char>)
    ensures
        trim_start(s + seq![' ']) == (if trim_start(s).len() == 0 {
            Seq::<char>::empty()
        } else {
            trim_start(s) + seq![' ']
        }),
    decreases s.len(),
{
    let t = s + seq![' '];
    assert(trim_start(Seq::<char>::empty()) =~= Seq::<char>::empty());
    if s.len() == 0 {
        assert(t.drop_first() =~= Seq::<char>::empty());
        assert(is_ws(' '));
        assert(t[0] == ' ');
    } else {
        assert(t[0] == s[0]);
    }
    if s.len() > 0 && is_ws(s[0]) {
        lemma_trim_start_space(s.drop_first());
        assert(t.drop_first() =~= s.drop_first() + seq![' ']);
    }
}

proof fn lemma_trim_space(s: Seq<char>)
    ensures
        trim(s + seq![' ']) == trim(s),
{
    lemma_trim_start_space(s);
    let u = trim_start(s);
    assert(is_ws(' '));
    if u.len() > 0 {
        assert((u + seq![' ']).drop_last() =~= u);
    }
}

/// A trailing comment leaves the code of a line unchanged.
pub proof fn lemma_code_of_comment(l: Seq<char>, text: Seq<char>)
    ensures
        code_of(l + comment(text)) == code_of(l),
{
    let y = comment(text);
    let slashes = seq!['/', '/'];
    match find(l, slashes) {
        Some(q) => {
            lemma_find_extend(l, y, slashes);
            lemma_find_from_least(l, slashes, 0);
            assert((l + y).take(q) =~= l.take(q));
        },
        None => {
            let t = l + y;
            let n = l.len() as int;
            lemma_find_from_least(l, slashes, 0);
            assert(y[0] == ' ' && y[1] == '/' && y[2] == '/');
            assert(t[n] == y[0] && t[n + 1] == y[1] && t[n + 2] == y[2]);
            assert(t.subrange(n + 1, n + 3) =~= slashes);
            assert forall|j: int| 0 <= j < n + 1 implies !occurs_at(t, slashes, j) by {
                if occurs_at(t, slashes, j) {
                    if j + 2 <= n {
                        assert(t.subrange(j, j + 2) =~= l.subrange(j, j + 2));
                        assert(occurs_at(l, slashes, j));
                    } else {
                        assert(t.subrange(j, j + 2)[n - j] == ' ');
                    }
                }
            }
            lemma_find_from_is(t, slashes, 0, n + 1);
            assert(t.take(n + 1) =~= l + seq![' ']);
            lemma_trim_space(l);
        },
    }
}

// ---------------------------------------------------------------------------
// What a line names is a piece of its code
// ---------------------------------------------------------------------------

proof fn lemma_whole_occurs(t: Seq<char>)
    ensures
        occurs_in(t, t),
{
    assert(t.subrange(0, t.len() as int) =~= t);
    assert(occurs_at(t, t, 0));
}

proof fn lemma_prefix_occurs(t: Seq<char>, n: int)
    requires
        0 <= n <= t.len(),
    ensures
        occurs_in(t, t.take(n)),
{
    lemma_subrange_occurs(t, 0, n);
    assert(t.take(n) =~= t.subrange(0, n));
}

proof fn lemma_suffix_occurs(t: Seq<char>, n: int)
    requires
        0 <= n <= t.len(),
    ensures
        occurs_in(t, t.skip(n)),
{
    lemma_subrange_occurs(t, n, t.len() as int);
    assert(t.skip(n) =~= t.subrange(n, t.len() as int));
}

proof fn lemma_word_end_bounds(s: Seq<char>, i: int)
    requires
        0 <= i <= s.len(),
    ensures
        i <= word_end(s, i) <= s.len(),
    decreases s.len() - i,
{
    if i < s.len() && !is_ws(s[i]) {
        lemma_word_end_bounds(s, i + 1);
    }
}

proof fn lemma_place_run_end_bounds(s: Seq<char>, i: int)
    requires
        0 <= i <= s.len(),
    ensures
        i <= place_run_end(s, i) <= s.len(),
    decreases s.len() - i,
{
    if i < s.len() && (s[i] == '.' || crate::text::is_ident_char(s[i])) {
        lemma_place_run_end_bounds(s, i + 1);
    }
}

proof fn lemma_trim_end_char_occurs(s: Seq<char>, c: char)
    ensures
        occurs_in(s, trim_end_char(s, c)),
    decreases s.len(),
{
    if s.len() > 0 && s.last() == c {
        lemma_trim_end_char_occurs(s.drop_last(), c);
        lemma_prefix_occurs(s, s.len() - 1);
        assert(s.drop_last() =~= s.take(s.len() - 1));
        lemma_occurs_trans(s, s.drop_last(), trim_end_char(s.drop_last(), c));
    } else {
        lemma_whole_occurs(s);
    }
}

proof fn lemma_before_char_occurs(s: Seq<char>, c: char)
    ensures
        occurs_in(s, before_char(s, c)),
{
    match find(s, seq![c]) {
        Some(i) => {
            lemma_find_from_bounds(s, seq![c], 0);
            lemma_prefix_occurs(s, i);
        },
        None => lemma_whole_occurs(s),
    }
}

proof fn lemma_first_word_occurs(s: Seq<char>)
    ensures
        first_word(s) matches Some(w) ==> occurs_in(s, w),
{
    let t = trim_start(s);
    lemma_trim_start_occurs(s);
    if t.len() > 0 {
        lemma_word_end_bounds(t, 0);
        lemma_prefix_occurs(t, word_end(t, 0));
        lemma_occurs_trans(s, t, t.take(word_end(t, 0)));
    }
}

proof fn lemma_after_first_word_occurs(s: Seq<char>)
    ensures
        occurs_in(s, after_first_word(s)),
{
    let t = trim_start(s);
    lemma_trim_start_occurs(s);
    lemma_word_end_bounds(t, 0);
    lemma_suffix_occurs(t, word_end(t, 0));
    lemma_occurs_trans(s, t, t.skip(word_end(t, 0)));
}

/// The name that an ownership declaration declares is written in its code.
pub proof fn lemma_declared_name_occurs(code: Seq<char>, marker: Option<OwnerKind>)
    ensures
        owned_declaration(code, marker) matches Some((name, _)) ==> occurs_in(code, name),
{
    if owned_declaration(code, marker) is Some {
        let a = after_first_word(code);
        lemma_after_first_word_occurs(code);
        lemma_first_word_occurs(a);
        let w = second_word(code)->0;
        lemma_occurs_trans(code, a, w);
        let v = trim_end_char(w, ':');
        lemma_trim_end_char_occurs(w, ':');
        lemma_occurs_trans(code, w, v);
        lemma_before_char_occurs(v, ':');
        lemma_occurs_trans(code, v, before_char(v, ':'));
    }
}

/// The place passed to a call is written in the code.
pub proof fn lemma_call_argument_occurs(code: Seq<char>, function: Seq<char>)
    ensures
        call_argument(code, function) matches Some(arg) ==> occurs_in(code, arg),
{
    let needle = function.push('(');
    if call_argument(code, function) is Some {
        lemma_find_from_bounds(code, needle, 0);
        let q = find(code, needle)->0;
        let tail = code.skip(q + needle.len());
        lemma_suffix_occurs(code, q + needle.len());
        lemma_find_from_bounds(tail, seq![')'], 0);
        let e = find(tail, seq![')'])->0;
        lemma_prefix_occurs(tail, e);
        lemma_occurs_trans(code, tail, tail.take(e));
        lemma_trim_occurs(tail.take(e));
        lemma_occurs_trans(code, tail.take(e), trim(tail.take(e)));
    }
}

/// The place that a borrow declaration borrows is written in its code.
pub proof fn lemma_borrowed_place_occurs(code: Seq<char>)
    ensures
        borrow_declaration(code) matches Some((_, owner, _)) ==> occurs_in(code, owner),
{
    if borrow_declaration(code) is Some {
        lemma_find_from_bounds(code, seq!['='], 0);
        let e = find(code, seq!['='])->0;
        let rest = code.skip(e + 1);
        lemma_suffix_occurs(code, e + 1);
        lemma_call_argument_occurs(rest, "borrowMut"@);
        lemma_call_argument_occurs(rest, "borrow"@);
        let (_, owner, _) = borrow_declaration(code)->0;
        lemma_occurs_trans(code, rest, owner);
    }
}

proof fn lemma_bounded_match_occurs(t: Seq<char>, p: Seq<char>, from: int)
    ensures
        first_bounded_match(t, p, from) matches Some(q) ==> occurs_at(t, p, q),
    decreases t.len() + 1 - from,
{
    lemma_find_from_bounds(t, p, from);
    match find_from(t, p, from) {
        None => {},
        Some(q) => {
            if !crate::scan::bounded_at(t, p, q) {
                if p.len() == 0 {
                    lemma_bounded_match_occurs(t, p, q + 1);
                } else {
                    lemma_bounded_match_occurs(t, p, q + p.len());
                }
            }
        },
    }
}

/// A name that the code mentions as a whole identifier is written in it.
pub proof fn lemma_identifier_occurs(code: Seq<char>, name: Seq<char>)
    ensures
        first_bounded_match(code, name, 0) is Some ==> occurs_in(code, name),
{
    lemma_bounded_match_occurs(code, name, 0);
    if first_bounded_match(code, name, 0) is Some {
        assert(occurs_at(code, name, first_bounded_match(code, name, 0)->0));
    }
}

/// The place through which the code uses an owner is written in it.
pub proof fn lemma_used_place_occurs(code: Seq<char>, owner: Seq<char>)
    ensures
        used_place(code, owner) matches Some(u) ==> occurs_in(code, u),
{
    lemma_bounded_match_occurs(code, owner, 0);
    if first_bounded_match(code, owner, 0) is Some {
        let q = first_bounded_match(code, owner, 0)->0;
        lemma_place_run_end_bounds(code, q + owner.len());
        lemma_subrange_occurs(code, q, place_run_end(code, q + owner.len()));
    }
}

// ---------------------------------------------------------------------------
// The analysis ignores trailing comments
// ---------------------------------------------------------------------------

proof fn lemma_owner_uses_extend(
    l: Seq<char>,
    y: Seq<char>,
    line: int,
    owners: Owners,
    borrows: Borrows,
)
    ensures
        owner_use_diagnostics(code_of(l), l + y, line, owners, borrows) == owner_use_diagnostics(
            code_of(l),
            l,
            line,
            owners,
            borrows,
        ),
    decreases owners.len(),
{
    if owners.len() > 0 {
        lemma_owner_uses_extend(l, y, line, owners.drop_last(), borrows);
        let name = owners.last().0;
        lemma_used_place_occurs(code_of(l), name);
        if let Some(u) = used_place(code_of(l), name) {
            lemma_column_extend(l, y, u);
        }
    }
}

proof fn lemma_borrow_uses_extend(
    l: Seq<char>,
    y: Seq<char>,
    line: int,
    owners: Owners,
    borrows: Borrows,
)
    ensures
        borrow_use_diagnostics(code_of(l), l + y, line, owners, borrows) == borrow_use_diagnostics(
            code_of(l),
            l,
            line,
            owners,
            borrows,
        ),
    decreases borrows.len(),
{
    if borrows.len() > 0 {
        lemma_borrow_uses_extend(l, y, line, owners, borrows.drop_last());
        let name = borrows.last().0;
        lemma_identifier_occurs(code_of(l), name);
        if first_bounded_match(code_of(l), name, 0) is Some {
            lemma_column_extend(l, y, name);
        }
    }
}

proof fn lemma_step_extend(st: AnalysisState, borrows: Borrows, l: Seq<char>, y: Seq<char>, line: int)
    ensures
        step(st, borrows, code_of(l), l + y, line) == step(st, borrows, code_of(l), l, line),
{
    let code = code_of(l);
    lemma_declared_name_occurs(code, st.pending);
    if let Some((name, _)) = owned_declaration(code, st.pending) {
        lemma_column_extend(l, y, name);
    }
    lemma_owner_uses_extend(l, y, line, st.owners, borrows);
    lemma_borrow_uses_extend(l, y, line, st.owners, borrows);
    lemma_borrowed_place_occurs(code);
    if let Some((_, owner, _)) = borrow_declaration(code) {
        lemma_column_extend(l, y, owner);
    }
    lemma_call_argument_occurs(code, "move"@);
    if let Some(place) = call_argument(code, "move"@) {
        lemma_column_extend(l, y, place);
    }
    lemma_call_argument_occurs(code, "dispose"@);
    if let Some(place) = call_argument(code, "dispose"@) {
        lemma_column_extend(l, y, place);
    }
}

proof fn lemma_run_extend(
    borrows: Borrows,
    codes: Seq<Seq<char>>,
    srcs: Seq<Seq<char>>,
    k: int,
    y: Seq<char>,
    n: int,
)
    requires
        0 <= k < srcs.len(),
        n <= srcs.len(),
        codes[k] == code_of(srcs[k]),
    ensures
        run(borrows, codes, srcs.update(k, srcs[k] + y), n) == run(borrows, codes, srcs, n),
    decreases n,
{
    if n > 0 {
        lemma_run_extend(borrows, codes, srcs, k, y, n - 1);
        if n - 1 == k {
            lemma_step_extend(run(borrows, codes, srcs, n - 1), borrows, srcs[k], y, n);
        }
    }
}

/// A trailing `//` comment changes nothing: a text whose lines are those of
/// another text, but for one line that has a comment appended, has the same
/// analysis.
pub proof fn law_trailing_comment_changes_nothing(
    s1: Seq<char>,
    s2: Seq<char>,
    k: int,
    text: Seq<char>,
)
    requires
        0 <= k < lines(s1).len(),
        lines(s2) == lines(s1).update(k, lines(s1)[k] + comment(text)),
    ensures
        analysis(s2) == analysis(s1),
{
    let ls1 = lines(s1);
    let ls2 = lines(s2);
    let codes = code_lines(ls1);
    lemma_code_of_comment(ls1[k], text);
    assert(code_lines(ls2) =~= codes);
    let borrows = borrow_table(codes, codes.len() as int);
    lemma_run_extend(borrows, codes, ls1, k, comment(text), codes.len() as int);
}

} // verus!
