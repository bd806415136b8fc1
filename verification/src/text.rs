//! Character-level text model: searching, trimming, splitting into lines, and
//! UTF-8 widths, each stated over `Seq<char>` and implemented on `Vec<char>`.

use vstd::prelude::*;

verus! {

broadcast use vstd::string::group_string_axioms;

/// Unicode `White_Space`, the set that `char::is_whitespace` accepts.
pub open spec fn is_ws(c: char) -> bool {
    let v = c as u32;
    ||| 0x09 <= v <= 0x0d
    ||| v == 0x20
    ||| v == 0x85
    ||| v == 0xa0
    ||| v == 0x1680
    ||| 0x2000 <= v <= 0x200a
    ||| v == 0x2028
    ||| v == 0x2029
    ||| v == 0x202f
    ||| v == 0x205f
    ||| v == 0x3000
}

/// Characters that may appear in an identifier: ASCII letters and digits, `_` and `$`.
pub open spec fn is_ident_char(c: char) -> bool {
    ||| ('a' <= c && c <= 'z')
    ||| ('A' <= c && c <= 'Z')
    ||| ('0' <= c && c <= '9')
    ||| c == '_'
    ||| c == '$'
}

/// `p` occurs in `t` starting at position `i`.
pub open spec fn occurs_at(t: Seq<char>, p: Seq<char>, i: int) -> bool {
    0 <= i && i + p.len() <= t.len() && t.subrange(i, i + p.len()) == p
}

/// The first position at or after `from` where `p` occurs in `t`.
pub open spec fn find_from(t: Seq<char>, p: Seq<char>, from: int) -> Option<int>
    decreases t.len() + 1 - from,
{
    if from < 0 || from + p.len() > t.len() {
        None
    } else if occurs_at(t, p, from) {
        Some(from)
    } else {
        find_from(t, p, from + 1)
    }
}

/// The first position where `p` occurs in `t`.
pub open spec fn find(t: Seq<char>, p: Seq<char>) -> Option<int> {
    find_from(t, p, 0)
}

pub open spec fn contains(t: Seq<char>, p: Seq<char>) -> bool {
    find(t, p) is Some
}

pub open spec fn starts_with(t: Seq<char>, p: Seq<char>) -> bool {
    p.len() <= t.len() && t.take(p.len() as int) == p
}

/// `s` without its leading whitespace.
pub open spec fn trim_start(s: Seq<char>) -> Seq<char>
    decreases s.len(),
{
    if s.len() > 0 && is_ws(s[0]) {
        trim_start(s.drop_first())
    } else {
        s
    }
}

/// `s` without its trailing whitespace.
pub open spec fn trim_end(s: Seq<char>) -> Seq<char>
    decreases s.len(),
{
    if s.len() > 0 && is_ws(s.last()) {
        trim_end(s.drop_last())
    } else {
        s
    }
}

/// `s` without leading and trailing whitespace.
pub open spec fn trim(s: Seq<char>) -> Seq<char> {
    trim_end(trim_start(s))
}

/// `s` without one trailing carriage return.
pub open spec fn strip_cr(s: Seq<char>) -> Seq<char> {
    if s.len() > 0 && s.last() == '\r' {
        s.drop_last()
    } else {
        s
    }
}

/// The lines of `s`: split after each `\n`, which is dropped together with a
/// `\r` just before it; a last piece without `\n` keeps any `\r`, and an empty
/// text, or the empty rest after a final `\n`, adds no line.
pub open spec fn lines(s: Seq<char>) -> Seq<Seq<char>>
    decreases s.len(),
{
    if s.len() == 0 {
        seq![]
    } else {
        match find(s, seq!['\n']) {
            Some(i) => {
                proof {
                    lemma_find_from_bounds(s, seq!['\n'], 0);
                }
                seq![strip_cr(s.take(i))] + lines(s.skip(i + 1))
            },
            None => seq![s],
        }
    }
}

/// The number of bytes that UTF-8 uses for `c`.
pub open spec fn char_width(c: char) -> nat {
    let v = c as u32;
    if v < 0x80 {
        1
    } else if v < 0x800 {
        2
    } else if v < 0x10000 {
        3
    } else {
        4
    }
}

/// The number of bytes that UTF-8 uses for `s`.
pub open spec fn utf8_width(s: Seq<char>) -> nat
    decreases s.len(),
{
    if s.len() == 0 {
        0
    } else {
        utf8_width(s.drop_last()) + char_width(s.last())
    }
}

pub proof fn lemma_find_from_bounds(t: Seq<char>, p: Seq<char>, from: int)
    ensures
        find_from(t, p, from) matches Some(q) ==> from <= q && occurs_at(t, p, q) && q + p.len()
            <= t.len(),
    decreases t.len() + 1 - from,
{
    if from < 0 || from + p.len() > t.len() {
    } else if occurs_at(t, p, from) {
    } else {
        lemma_find_from_bounds(t, p, from + 1);
    }
}

/// `find_from` returns the least occurrence at or after `from`, and `None`
/// exactly when there is none.
pub proof fn lemma_find_from_least(t: Seq<char>, p: Seq<char>, from: int)
    requires
        0 <= from,
    ensures
        find_from(t, p, from) matches Some(q) ==> from <= q && occurs_at(t, p, q) && forall|j: int|
            from <= j < q ==> !occurs_at(t, p, j),
        find_from(t, p, from) is None ==> forall|j: int| from <= j ==> !occurs_at(t, p, j),
    decreases t.len() + 1 - from,
{
    if from + p.len() > t.len() {
    } else if occurs_at(t, p, from) {
    } else {
        lemma_find_from_least(t, p, from + 1);
    }
}

/// The least occurrence at or after `from` is what `find_from` returns.
pub proof fn lemma_find_from_is(t: Seq<char>, p: Seq<char>, from: int, q: int)
    requires
        0 <= from <= q,
        occurs_at(t, p, q),
        forall|j: int| from <= j < q ==> !occurs_at(t, p, j),
    ensures
        find_from(t, p, from) == Some(q),
    decreases q - from,
{
    if from < q {
        lemma_find_from_is(t, p, from + 1, q);
    }
}

/// With no occurrence at or after `from`, `find_from` gives `None`.
pub proof fn lemma_find_from_none(t: Seq<char>, p: Seq<char>, from: int)
    requires
        0 <= from,
        forall|j: int| from <= j ==> !occurs_at(t, p, j),
    ensures
        find_from(t, p, from) is None,
    decreases t.len() + 1 - from,
{
    if from + p.len() > t.len() {
    } else {
        lemma_find_from_none(t, p, from + 1);
    }
}

pub proof fn lemma_utf8_width_append(a: Seq<char>, b: Seq<char>)
    ensures
        utf8_width(a + b) == utf8_width(a) + utf8_width(b),
    decreases b.len(),
{
    if b.len() == 0 {
        assert(a + b =~= a);
    } else {
        lemma_utf8_width_append(a, b.drop_last());
        assert((a + b).drop_last() =~= a + b.drop_last());
    }
}

/// A character's width is the length of its UTF-8 encoding.
proof fn lemma_char_width_encoding(c: char)
    ensures
        char_width(c) == vstd::utf8::encode_scalar(c as u32).len(),
{
    let v = c as u32;
    let e = vstd::utf8::encode_scalar(v);
    if v < 0x80 {
        assert(vstd::utf8::has_width_1_encoding(v));
        assert(e.len() == 1);
    } else if v < 0x800 {
        assert(vstd::utf8::has_width_2_encoding(v));
        assert(e.len() == 2);
    } else if v < 0x10000 {
        assert(!(0xD800 <= v <= 0xDFFF));
        assert(vstd::utf8::has_width_3_encoding(v));
        assert(e.len() == 3);
    } else {
        assert(e.len() == 4);
    }
}

/// The width of a text is the length of its UTF-8 encoding.
pub proof fn lemma_utf8_width_encoding(s: Seq<char>)
    ensures
        utf8_width(s) == vstd::utf8::encode_utf8(s).len(),
    decreases s.len(),
{
    if s.len() > 0 {
        lemma_utf8_width_encoding(s.drop_first());
        lemma_char_width_encoding(s[0]);
        lemma_utf8_width_append(seq![s[0]], s.drop_first());
        let one = seq![s[0]];
        assert(one + s.drop_first() =~= s);
        assert(one.drop_last() =~= Seq::<char>::empty());
        assert(utf8_width(Seq::<char>::empty()) == 0);
        assert(one.last() == s[0]);
        assert(utf8_width(one) == char_width(s[0]));
        assert(vstd::utf8::encode_utf8(s).len() == vstd::utf8::encode_scalar(s[0] as u32).len()
            + vstd::utf8::encode_utf8(s.drop_first()).len());
    }
}

/// The width of a string slice, read from its bytes.
pub fn utf8_width_of(s: &str) -> (n: usize)
    ensures
        n == utf8_width(s@),
{
    let n = s.as_bytes().len();
    proof {
        lemma_utf8_width_encoding(s@);
    }
    n
}

/// A piece of a text is no wider than the text.
pub proof fn lemma_utf8_width_subrange(s: Seq<char>, lo: int, hi: int)
    requires
        0 <= lo <= hi <= s.len(),
    ensures
        utf8_width(s.subrange(lo, hi)) <= utf8_width(s),
        lo < hi ==> utf8_width(s.subrange(lo, hi)) >= 1,
{
    lemma_utf8_width_append(s.subrange(0, lo), s.subrange(lo, hi));
    lemma_utf8_width_append(s.subrange(0, lo) + s.subrange(lo, hi), s.subrange(hi, s.len() as int));
    assert(s.subrange(0, lo) + s.subrange(lo, hi) + s.subrange(hi, s.len() as int) =~= s);
    if lo < hi {
        let m = s.subrange(lo, hi);
        assert(m =~= m.drop_last().push(m.last()));
    }
}

pub open spec fn digit(d: nat) -> char {
    if d == 0 {
        '0'
    } else if d == 1 {
        '1'
    } else if d == 2 {
        '2'
    } else if d == 3 {
        '3'
    } else if d == 4 {
        '4'
    } else if d == 5 {
        '5'
    } else if d == 6 {
        '6'
    } else if d == 7 {
        '7'
    } else if d == 8 {
        '8'
    } else {
        '9'
    }
}

/// The decimal numeral of `n`.
pub open spec fn decimal(n: nat) -> Seq<char>
    decreases n,
{
    if n < 10 {
        seq![digit(n)]
    } else {
        decimal(n / 10).push(digit(n % 10))
    }
}

pub fn digit_char(d: usize) -> (c: char)
    requires
        d < 10,
    ensures
        c == digit(d as nat),
{
    if d == 0 {
        '0'
    } else if d == 1 {
        '1'
    } else if d == 2 {
        '2'
    } else if d == 3 {
        '3'
    } else if d == 4 {
        '4'
    } else if d == 5 {
        '5'
    } else if d == 6 {
        '6'
    } else if d == 7 {
        '7'
    } else if d == 8 {
        '8'
    } else {
        '9'
    }
}

/// Appends the decimal numeral of `n`.
pub fn push_decimal(s: &mut String, n: usize)
    ensures
        final(s)@ == old(s)@ + decimal(n as nat),
    decreases n,
{
    if n >= 10 {
        push_decimal(s, n / 10);
    }
    s.push(digit_char(n % 10));
    assert(s@ =~= old(s)@ + decimal(n as nat));
}

/// The characters of a string slice, in order.
pub fn chars_of(s: &str) -> (v: Vec<char>)
    ensures
        v@ == s@,
{
    let mut v: Vec<char> = Vec::new();
    for c in it: s.chars()
        invariant
            v@ == it.seq().take(it.index()),
    {
        v.push(c);
    }
    v
}

pub fn is_ws_char(c: char) -> (b: bool)
    ensures
        b == is_ws(c),
{
    let v = c as u32;
    (0x09 <= v && v <= 0x0d) || v == 0x20 || v == 0x85 || v == 0xa0 || v == 0x1680 || (0x2000 <= v
        && v <= 0x200a) || v == 0x2028 || v == 0x2029 || v == 0x202f || v == 0x205f || v == 0x3000
}

pub fn is_identifier_char(c: char) -> (b: bool)
    ensures
        b == is_ident_char(c),
{
    ('a' <= c && c <= 'z') || ('A' <= c && c <= 'Z') || ('0' <= c && c <= '9') || c == '_' || c
        == '$'
}

/// The characters of `s` from `lo` up to `hi`.
pub fn slice_chars(s: &Vec<char>, lo: usize, hi: usize) -> (v: Vec<char>)
    requires
        lo <= hi <= s.len(),
    ensures
        v@ == s@.subrange(lo as int, hi as int),
{
    let mut v: Vec<char> = Vec::new();
    let mut i = lo;
    while i < hi
        invariant
            lo <= i <= hi <= s.len(),
            v@ == s@.subrange(lo as int, i as int),
        decreases hi - i,
    {
        v.push(s[i]);
        i += 1;
    }
    v
}

pub fn chars_eq(a: &Vec<char>, b: &Vec<char>) -> (r: bool)
    ensures
        r == (a@ == b@),
{
    if a.len() != b.len() {
        return false;
    }
    let mut i: usize = 0;
    while i < a.len()
        invariant
            a.len() == b.len(),
            i <= a.len(),
            forall|j: int| 0 <= j < i ==> a@[j] == b@[j],
        decreases a.len() - i,
    {
        if a[i] != b[i] {
            return false;
        }
        i += 1;
    }
    assert(a@ =~= b@);
    true
}

/// Whether `p` occurs in `t` at position `i`.
pub fn occurs_at_exec(t: &Vec<char>, p: &Vec<char>, i: usize) -> (r: bool)
    ensures
        r == occurs_at(t@, p@, i as int),
{
    if i > t.len() || p.len() > t.len() - i {
        return false;
    }
    let mut j: usize = 0;
    while j < p.len()
        invariant
            i + p.len() <= t.len(),
            j <= p.len(),
            forall|k: int| 0 <= k < j ==> t@[i + k] == p@[k],
        decreases p.len() - j,
    {
        if t[i + j] != p[j] {
            assert(t@.subrange(i as int, i + p.len())[j as int] != p@[j as int]);
            return false;
        }
        j += 1;
    }
    assert(t@.subrange(i as int, i + p.len()) =~= p@);
    true
}

/// The first position at or after `from` where `p` occurs in `t`.
pub fn find_from_exec(t: &Vec<char>, p: &Vec<char>, from: usize) -> (r: Option<usize>)
    ensures
        r matches Some(q) ==> find_from(t@, p@, from as int) == Some(q as int),
        r is None ==> find_from(t@, p@, from as int) is None,
        r matches Some(q) ==> from <= q && q + p.len() <= t.len(),
{
    proof {
        lemma_find_from_bounds(t@, p@, from as int);
    }
    if from > t.len() || p.len() > t.len() - from {
        return None;
    }
    let mut i = from;
    while i <= t.len() - p.len()
        invariant
            from <= i <= t.len(),
            p.len() <= t.len(),
            find_from(t@, p@, from as int) == find_from(t@, p@, i as int),
        decreases t.len() - i,
    {
        if occurs_at_exec(t, p, i) {
            return Some(i);
        }
        assert(p@.len() == 0 ==> t@.subrange(i as int, i as int) =~= p@);
        i += 1;
    }
    None
}

/// The first position where `p` occurs in `t`.
pub fn find_exec(t: &Vec<char>, p: &Vec<char>) -> (r: Option<usize>)
    ensures
        r matches Some(q) ==> find(t@, p@) == Some(q as int),
        r is None ==> find(t@, p@) is None,
        r matches Some(q) ==> q + p.len() <= t.len(),
{
    find_from_exec(t, p, 0)
}

pub fn contains_exec(t: &Vec<char>, p: &Vec<char>) -> (r: bool)
    ensures
        r == contains(t@, p@),
{
    find_exec(t, p).is_some()
}

pub fn starts_with_exec(t: &Vec<char>, p: &Vec<char>) -> (r: bool)
    ensures
        r == starts_with(t@, p@),
{
    let r = occurs_at_exec(t, p, 0);
    proof {
        if p@.len() <= t@.len() {
            assert(t@.take(p@.len() as int) =~= t@.subrange(0, p@.len() as int));
        }
    }
    r
}

proof fn lemma_trim_start_skip(s: Seq<char>, i: int)
    requires
        0 <= i <= s.len(),
        forall|j: int| 0 <= j < i ==> is_ws(s[j]),
    ensures
        trim_start(s) == trim_start(s.skip(i)),
    decreases i,
{
    if i > 0 {
        assert(is_ws(s[0]));
        assert(s.drop_first().skip(i - 1) =~= s.skip(i));
        lemma_trim_start_skip(s.drop_first(), i - 1);
    } else {
        assert(s.skip(0) =~= s);
    }
}

proof fn lemma_trim_end_take(s: Seq<char>, i: int)
    requires
        0 <= i <= s.len(),
        forall|j: int| i <= j < s.len() ==> is_ws(s[j]),
    ensures
        trim_end(s) == trim_end(s.take(i)),
    decreases s.len() - i,
{
    if i < s.len() {
        assert(s.drop_last().take(i) =~= s.take(i));
        lemma_trim_end_take(s.drop_last(), i);
    } else {
        assert(s.take(i) =~= s);
    }
}

/// The position of the first character of `s` that is not whitespace (or its length).
pub fn leading_ws_end(s: &Vec<char>) -> (i: usize)
    ensures
        i <= s.len(),
        trim_start(s@) == s@.skip(i as int),
        forall|j: int| 0 <= j < i ==> is_ws(s@[j]),
        i < s.len() ==> !is_ws(s@[i as int]),
{
    let mut i: usize = 0;
    while i < s.len() && is_ws_char(s[i])
        invariant
            i <= s.len(),
            forall|j: int| 0 <= j < i ==> is_ws(s@[j]),
        decreases s.len() - i,
    {
        i += 1;
    }
    proof {
        lemma_trim_start_skip(s@, i as int);
    }
    i
}

/// The position just after the last character of `s` that is not whitespace (or 0).
pub fn trailing_ws_start(s: &Vec<char>) -> (i: usize)
    ensures
        i <= s.len(),
        trim_end(s@) == s@.take(i as int),
        forall|j: int| i <= j < s.len() ==> is_ws(s@[j]),
        i > 0 ==> !is_ws(s@[i - 1]),
{
    let mut i: usize = s.len();
    while i > 0 && is_ws_char(s[i - 1])
        invariant
            i <= s.len(),
            forall|j: int| i <= j < s.len() ==> is_ws(s@[j]),
        decreases i,
    {
        i -= 1;
    }
    proof {
        lemma_trim_end_take(s@, i as int);
    }
    i
}

pub fn trim_start_exec(s: &Vec<char>) -> (v: Vec<char>)
    ensures
        v@ == trim_start(s@),
{
    let i = leading_ws_end(s);
    proof {
        assert(s@.skip(i as int) =~= s@.subrange(i as int, s@.len() as int));
    }
    slice_chars(s, i, s.len())
}

pub fn trim_exec(s: &Vec<char>) -> (v: Vec<char>)
    ensures
        v@ == trim(s@),
{
    let t = trim_start_exec(s);
    let j = trailing_ws_start(&t);
    slice_chars(&t, 0, j)
}

proof fn lemma_find_single_prefix(cur: Seq<char>, c: char, rest: Seq<char>)
    requires
        forall|j: int| 0 <= j < cur.len() ==> cur[j] != '\n',
        c == '\n',
    ensures
        find(cur.push(c) + rest, seq!['\n']) == Some(cur.len() as int),
{
    let t = cur.push(c) + rest;
    let p = seq!['\n'];
    assert forall|j: int| 0 <= j < cur.len() implies !occurs_at(t, p, j) by {
        assert(t.subrange(j, j + 1)[0] == cur[j]);
    }
    assert(t.subrange(cur.len() as int, cur.len() + 1int) =~= p);
    lemma_find_from_is(t, p, 0, cur.len() as int);
}

proof fn lemma_find_no_newline(t: Seq<char>)
    requires
        forall|j: int| 0 <= j < t.len() ==> t[j] != '\n',
    ensures
        find(t, seq!['\n']) is None,
{
    let p = seq!['\n'];
    assert forall|j: int| 0 <= j implies !occurs_at(t, p, j) by {
        if 0 <= j && j + 1 <= t.len() {
            assert(t.subrange(j, j + 1)[0] == t[j]);
        }
    }
    lemma_find_from_none(t, p, 0);
}

/// The texts held by a vector of character vectors.
pub open spec fn views(v: Seq<Vec<char>>) -> Seq<Seq<char>> {
    Seq::new(v.len(), |i: int| v[i]@)
}

/// The lines of `s`, as `lines` states them.
pub fn split_lines(s: &Vec<char>) -> (out: Vec<Vec<char>>)
    ensures
        views(out@) == lines(s@),
{
    let mut out: Vec<Vec<char>> = Vec::new();
    let mut cur: Vec<char> = Vec::new();
    let mut i: usize = 0;
    assert(cur@ + s@.skip(0) =~= s@);
    assert(views(out@) + lines(s@) =~= lines(s@));
    while i < s.len()
        invariant
            i <= s.len(),
            forall|j: int| 0 <= j < cur@.len() ==> cur@[j] != '\n',
            views(out@) + lines(cur@ + s@.skip(i as int)) == lines(s@),
        decreases s.len() - i,
    {
        let c = s[i];
        let ghost rest = s@.skip(i + 1);
        assert(s@.skip(i as int) =~= seq![c] + rest);
        assert(cur@ + s@.skip(i as int) =~= cur@.push(c) + rest);
        if c == '\n' {
            proof {
                let t = cur@.push(c) + rest;
                lemma_find_single_prefix(cur@, c, rest);
                assert(t.take(cur@.len() as int) =~= cur@);
                assert(t.skip(cur@.len() + 1int) =~= rest);
                assert(lines(t) == seq![strip_cr(cur@)] + lines(rest));
            }
            let line = if cur.len() > 0 && cur[cur.len() - 1] == '\r' {
                let n = cur.len() - 1;
                slice_chars(&cur, 0, n)
            } else {
                cur
            };
            proof {
                assert(cur@.len() > 0 ==> cur@.drop_last() =~= cur@.subrange(0, cur@.len() - 1));
            }
            let ghost old_out = views(out@);
            let ghost line_view = line@;
            out.push(line);
            assert(line_view == strip_cr(cur@));
            assert(views(out@) =~= old_out.push(strip_cr(cur@)));
            assert(views(out@) + lines(rest) =~= old_out + (seq![strip_cr(cur@)] + lines(rest)));
            cur = Vec::new();
            assert(cur@ + rest =~= rest);
        } else {
            cur.push(c);
        }
        i += 1;
    }
    assert(s@.skip(i as int) =~= Seq::<char>::empty());
    assert(cur@ + s@.skip(i as int) =~= cur@);
    if cur.len() > 0 {
        proof {
            lemma_find_no_newline(cur@);
        }
        let ghost old_out = views(out@);
        out.push(cur);
        assert(views(out@) =~= old_out + lines(cur@));
    } else {
        assert(views(out@) =~= views(out@) + lines(cur@));
    }
    out
}

pub fn char_width_exec(c: char) -> (w: usize)
    ensures
        w == char_width(c),
{
    let v = c as u32;
    if v < 0x80 {
        1
    } else if v < 0x800 {
        2
    } else if v < 0x10000 {
        3
    } else {
        4
    }
}

/// The UTF-8 width of the first `k` characters of `s`.
pub fn prefix_width(s: &Vec<char>, k: usize) -> (w: usize)
    requires
        k <= s.len(),
        utf8_width(s@) <= usize::MAX,
    ensures
        w == utf8_width(s@.take(k as int)),
{
    let mut w: usize = 0;
    let mut i: usize = 0;
    while i < k
        invariant
            i <= k <= s.len(),
            utf8_width(s@) <= usize::MAX,
            w == utf8_width(s@.take(i as int)),
        decreases k - i,
    {
        proof {
            assert(s@.take(i + 1).drop_last() =~= s@.take(i as int));
            lemma_utf8_width_subrange(s@, 0, i + 1);
            assert(s@.take(i + 1) =~= s@.subrange(0, i + 1));
        }
        w = w + char_width_exec(s[i]);
        i += 1;
    }
    w
}

} // verus!
