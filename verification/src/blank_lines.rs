//! An inserted empty line changes nothing but line numbers: every diagnostic
//! after it moves down by one line, and the rest of the report is unchanged.

use vstd::prelude::*;
use crate::table::{lower_bound, table_get, table_insert};
use crate::text::lines;
use crate::borrows::{
    borrow_record, borrow_table, first_end, has_active, has_active_kind, is_active_at, last_mention,
    BorrowModel,
};
use crate::analysis::{
    analysis, code_lines, initial_state, run, step, AnalysisState, borrow_use, borrow_use_diagnostics, dispose_effect, leak_diagnostics, move_effect,
    new_borrow_diagnostics, owner_use, owner_use_diagnostics, Borrows, OwnerModel, OwnerState, Owners,
};
use crate::report::{DiagnosticView, ReportView};
use crate::scan::{base_owner, BorrowKind, Context};

verus! {

// ---------------------------------------------------------------------------
// Tables whose values are all changed by one function
// ---------------------------------------------------------------------------

/// The table with `f` applied to every value.
pub open spec fn map_values<V>(t: Seq<(Seq<char>, V)>, f: spec_fn(V) -> V) -> Seq<(Seq<char>, V)> {
    Seq::new(t.len(), |i: int| (t[i].0, f(t[i].1)))
}

proof fn lemma_lower_bound_map<V>(t: Seq<(Seq<char>, V)>, f: spec_fn(V) -> V, k: Seq<char>)
    ensures
        lower_bound(map_values(t, f), k) == lower_bound(t, k),
    decreases t.len(),
{
    if t.len() > 0 {
        assert(map_values(t, f).drop_first() =~= map_values(t.drop_first(), f));
        lemma_lower_bound_map(t.drop_first(), f, k);
    }
}

proof fn lemma_table_get_map<V>(t: Seq<(Seq<char>, V)>, f: spec_fn(V) -> V, k: Seq<char>)
    ensures
        table_get(map_values(t, f), k) == (match table_get(t, k) {
            Some(v) => Some(f(v)),
            None => None,
        }),
{
    lemma_lower_bound_map(t, f, k);
    crate::table::lemma_lower_bound_range(t, k);
}

proof fn lemma_table_insert_map<V>(t: Seq<(Seq<char>, V)>, f: spec_fn(V) -> V, k: Seq<char>, v: V)
    ensures
        table_insert(map_values(t, f), k, f(v)) == map_values(table_insert(t, k, v), f),
{
    lemma_lower_bound_map(t, f, k);
    crate::table::lemma_lower_bound_range(t, k);
    let i = lower_bound(t, k);
    let m = map_values(t, f);
    if i < t.len() && t[i].0 == k {
        assert(m[i].0 == k);
        assert(m.update(i, (k, f(v))) =~= map_values(t.update(i, (k, v)), f));
    } else {
        assert(!(i < m.len() && m[i].0 == k));
        assert(m.insert(i, (k, f(v))) =~= map_values(t.insert(i, (k, v)), f));
    }
}

// ---------------------------------------------------------------------------
// Line numbers after an empty line inserted after line `k`
// ---------------------------------------------------------------------------

/// Line `x` of the text, numbered after an empty line is inserted after line `k`.
pub open spec fn sh(k: int, x: int) -> int {
    if x <= k {
        x
    } else {
        x + 1
    }
}

pub open spec fn shift_borrow(k: int, b: BorrowModel) -> BorrowModel {
    BorrowModel {
        created: sh(k, b.created),
        last_use: sh(k, b.last_use),
        ended: match b.ended {
            Some(e) => Some(sh(k, e)),
            None => None,
        },
        ..b
    }
}

pub open spec fn shift_owner(k: int, o: OwnerModel) -> OwnerModel {
    OwnerModel { line: sh(k, o.line), ..o }
}

pub open spec fn shift_diag(k: int, d: DiagnosticView) -> DiagnosticView {
    DiagnosticView { line: sh(k, d.line), ..d }
}

pub open spec fn borrow_shifter(k: int) -> spec_fn(BorrowModel) -> BorrowModel {
    |b: BorrowModel| shift_borrow(k, b)
}

pub open spec fn owner_shifter(k: int) -> spec_fn(OwnerModel) -> OwnerModel {
    |o: OwnerModel| shift_owner(k, o)
}

/// The diagnostics with their lines renumbered.
pub open spec fn shift_diags(k: int, ds: Seq<DiagnosticView>) -> Seq<DiagnosticView> {
    Seq::new(ds.len(), |i: int| shift_diag(k, ds[i]))
}

pub open spec fn shift_borrows(k: int, t: Borrows) -> Borrows {
    map_values(t, borrow_shifter(k))
}

pub open spec fn shift_owners(k: int, t: Owners) -> Owners {
    map_values(t, owner_shifter(k))
}

proof fn lemma_shift_diags_concat(k: int, a: Seq<DiagnosticView>, b: Seq<DiagnosticView>)
    ensures
        shift_diags(k, a + b) == shift_diags(k, a) + shift_diags(k, b),
{
    assert(shift_diags(k, a + b) =~= shift_diags(k, a) + shift_diags(k, b));
}

proof fn lemma_shift_diags_small(k: int, d: DiagnosticView)
    ensures
        shift_diags(k, seq![]) == Seq::<DiagnosticView>::empty(),
        shift_diags(k, seq![d]) == seq![shift_diag(k, d)],
{
    assert(shift_diags(k, seq![]) =~= Seq::<DiagnosticView>::empty());
    assert(shift_diags(k, seq![d]) =~= seq![shift_diag(k, d)]);
}

proof fn lemma_active_shift(k: int, b: BorrowModel, line: int)
    ensures
        is_active_at(shift_borrow(k, b), sh(k, line)) == is_active_at(b, line),
{
}

proof fn lemma_has_active_shift(k: int, t: Borrows, owner: Seq<char>, line: int)
    ensures
        has_active(shift_borrows(k, t), owner, sh(k, line)) == has_active(t, owner, line),
        forall|kind: BorrowKind|
            #[trigger] has_active_kind(shift_borrows(k, t), owner, sh(k, line), kind)
                == has_active_kind(t, owner, line, kind),
{
    let m = shift_borrows(k, t);
    assert forall|i: int| 0 <= i < t.len() implies #[trigger] m[i].1 == shift_borrow(k, t[i].1)
        && is_active_at(m[i].1, sh(k, line)) == is_active_at(t[i].1, line) by {
        lemma_active_shift(k, t[i].1, line);
    }
    if has_active(t, owner, line) {
        let i = choose|i: int|
            0 <= i < t.len() && (#[trigger] t[i]).1.owner == owner && is_active_at(t[i].1, line);
        assert(m[i].1.owner == owner);
    }
    if has_active(m, owner, sh(k, line)) {
        let i = choose|i: int|
            0 <= i < m.len() && (#[trigger] m[i]).1.owner == owner && is_active_at(
                m[i].1,
                sh(k, line),
            );
        assert(t[i].1.owner == owner);
    }
    assert forall|kind: BorrowKind|
        #[trigger] has_active_kind(m, owner, sh(k, line), kind) == has_active_kind(
            t,
            owner,
            line,
            kind,
        ) by {
        if has_active_kind(t, owner, line, kind) {
            let i = choose|i: int|
                0 <= i < t.len() && (#[trigger] t[i]).1.owner == owner && t[i].1.kind == kind
                    && is_active_at(t[i].1, line);
            assert(m[i].1.owner == owner);
        }
        if has_active_kind(m, owner, sh(k, line), kind) {
            let i = choose|i: int|
                0 <= i < m.len() && (#[trigger] m[i]).1.owner == owner && m[i].1.kind == kind
                    && is_active_at(m[i].1, sh(k, line));
            assert(t[i].1.owner == owner);
        }
    }
}

proof fn lemma_new_borrow_shift(
    k: int,
    src: Seq<char>,
    line: int,
    arg: Seq<char>,
    kind: BorrowKind,
    owners: Owners,
    borrows: Borrows,
)
    ensures
        new_borrow_diagnostics(
            src,
            sh(k, line),
            arg,
            kind,
            shift_owners(k, owners),
            shift_borrows(k, borrows),
        ) == shift_diags(k, new_borrow_diagnostics(src, line, arg, kind, owners, borrows)),
{
    let base = base_owner(arg);
    lemma_table_get_map(owners, owner_shifter(k), base);
    lemma_has_active_shift(k, borrows, base, line);
    assert(has_active_kind(shift_borrows(k, borrows), base, sh(k, line), BorrowKind::Mutable)
        == has_active_kind(borrows, base, line, BorrowKind::Mutable));
    assert(has_active_kind(shift_borrows(k, borrows), base, sh(k, line), BorrowKind::Shared)
        == has_active_kind(borrows, base, line, BorrowKind::Shared));
    let d = new_borrow_diagnostics(src, line, arg, kind, owners, borrows);
    assert(shift_diags(k, d) =~= new_borrow_diagnostics(
        src,
        sh(k, line),
        arg,
        kind,
        shift_owners(k, owners),
        shift_borrows(k, borrows),
    ));
}

proof fn lemma_move_shift(
    k: int,
    src: Seq<char>,
    line: int,
    place: Seq<char>,
    owners: Owners,
    borrows: Borrows,
    contexts: Seq<Context>,
)
    ensures
        move_effect(src, sh(k, line), place, shift_owners(k, owners), shift_borrows(k, borrows), contexts)
            == (
            shift_owners(k, move_effect(src, line, place, owners, borrows, contexts).0),
            shift_diags(k, move_effect(src, line, place, owners, borrows, contexts).1),
        ),
{
    let base = base_owner(place);
    lemma_table_get_map(owners, owner_shifter(k), base);
    lemma_has_active_shift(k, borrows, base, line);
    let r = move_effect(src, line, place, owners, borrows, contexts);
    let r2 = move_effect(
        src,
        sh(k, line),
        place,
        shift_owners(k, owners),
        shift_borrows(k, borrows),
        contexts,
    );
    if let Some(o) = crate::table::table_get(owners, base) {
        lemma_table_insert_map(owners, owner_shifter(k), base, OwnerModel { maybe_moved: true, ..o });
        lemma_table_insert_map(
            owners,
            owner_shifter(k),
            base,
            OwnerModel { state: OwnerState::Moved, ..o },
        );
        lemma_table_insert_map(
            owners,
            owner_shifter(k),
            base,
            OwnerModel { moved: table_insert(o.moved, place, ()), ..o },
        );
    }
    assert(r2.1 =~= shift_diags(k, r.1));
}

proof fn lemma_dispose_shift(
    k: int,
    src: Seq<char>,
    line: int,
    place: Seq<char>,
    owners: Owners,
    borrows: Borrows,
)
    ensures
        dispose_effect(src, sh(k, line), place, shift_owners(k, owners), shift_borrows(k, borrows))
            == (
            shift_owners(k, dispose_effect(src, line, place, owners, borrows).0),
            shift_diags(k, dispose_effect(src, line, place, owners, borrows).1),
        ),
{
    let base = base_owner(place);
    lemma_table_get_map(owners, owner_shifter(k), base);
    lemma_has_active_shift(k, borrows, base, line);
    let r = dispose_effect(src, line, place, owners, borrows);
    let r2 = dispose_effect(src, sh(k, line), place, shift_owners(k, owners), shift_borrows(k, borrows));
    if let Some(o) = crate::table::table_get(owners, base) {
        lemma_table_insert_map(
            owners,
            owner_shifter(k),
            base,
            OwnerModel { state: OwnerState::Disposed, ..o },
        );
    }
    assert(r2.1 =~= shift_diags(k, r.1));
}

proof fn lemma_owner_uses_shift(
    k: int,
    code: Seq<char>,
    src: Seq<char>,
    line: int,
    owners: Owners,
    borrows: Borrows,
)
    ensures
        owner_use_diagnostics(code, src, sh(k, line), shift_owners(k, owners), shift_borrows(k, borrows))
            == shift_diags(k, owner_use_diagnostics(code, src, line, owners, borrows)),
    decreases owners.len(),
{
    let m = shift_owners(k, owners);
    if owners.len() == 0 {
        lemma_shift_diags_small(k, DiagnosticView { code: seq![], line: 0, column: 0, message: seq![] });
    } else {
        lemma_owner_uses_shift(k, code, src, line, owners.drop_last(), borrows);
        assert(m.drop_last() =~= shift_owners(k, owners.drop_last()));
        let (name, o) = owners.last();
        assert(m.last() == (name, shift_owner(k, o)));
        lemma_has_active_shift(k, borrows, name, line);
        let d = owner_use(code, src, line, name, o, borrows);
        let d2 = owner_use(code, src, sh(k, line), name, shift_owner(k, o), shift_borrows(k, borrows));
        assert(has_active_kind(shift_borrows(k, borrows), name, sh(k, line), BorrowKind::Mutable)
            == has_active_kind(borrows, name, line, BorrowKind::Mutable));
        assert(d2 =~= shift_diags(k, d));
        lemma_shift_diags_concat(k, owner_use_diagnostics(code, src, line, owners.drop_last(), borrows), d);
    }
}

proof fn lemma_borrow_uses_shift(
    k: int,
    code: Seq<char>,
    src: Seq<char>,
    line: int,
    owners: Owners,
    borrows: Borrows,
)
    ensures
        borrow_use_diagnostics(code, src, sh(k, line), shift_owners(k, owners), shift_borrows(k, borrows))
            == shift_diags(k, borrow_use_diagnostics(code, src, line, owners, borrows)),
    decreases borrows.len(),
{
    let m = shift_borrows(k, borrows);
    if borrows.len() == 0 {
        lemma_shift_diags_small(k, DiagnosticView { code: seq![], line: 0, column: 0, message: seq![] });
    } else {
        lemma_borrow_uses_shift(k, code, src, line, owners, borrows.drop_last());
        assert(m.drop_last() =~= shift_borrows(k, borrows.drop_last()));
        let (name, b) = borrows.last();
        assert(m.last() == (name, shift_borrow(k, b)));
        lemma_table_get_map(owners, owner_shifter(k), b.owner);
        let d = borrow_use(code, src, line, owners, name, b);
        let d2 = borrow_use(code, src, sh(k, line), shift_owners(k, owners), name, shift_borrow(k, b));
        assert(d2 =~= shift_diags(k, d));
        lemma_shift_diags_concat(k, borrow_use_diagnostics(code, src, line, owners, borrows.drop_last()), d);
    }
}

proof fn lemma_leaks_shift(k: int, owners: Owners)
    ensures
        leak_diagnostics(shift_owners(k, owners)) == shift_diags(k, leak_diagnostics(owners)),
    decreases owners.len(),
{
    let m = shift_owners(k, owners);
    if owners.len() == 0 {
        lemma_shift_diags_small(k, DiagnosticView { code: seq![], line: 0, column: 0, message: seq![] });
    } else {
        lemma_leaks_shift(k, owners.drop_last());
        assert(m.drop_last() =~= shift_owners(k, owners.drop_last()));
        let (name, o) = owners.last();
        assert(m.last() == (name, shift_owner(k, o)));
        let d = leak_diagnostics(owners);
        assert(leak_diagnostics(m) =~= shift_diags(k, d));
    }
}

/// The state with every line number renumbered.
pub open spec fn shift_state(k: int, st: AnalysisState) -> AnalysisState {
    AnalysisState {
        owners: shift_owners(k, st.owners),
        diagnostics: shift_diags(k, st.diagnostics),
        ..st
    }
}

proof fn lemma_step_shift(
    k: int,
    st: AnalysisState,
    borrows: Borrows,
    code: Seq<char>,
    src: Seq<char>,
    line: int,
)
    ensures
        step(shift_state(k, st), shift_borrows(k, borrows), code, src, sh(k, line)) == shift_state(
            k,
            step(st, borrows, code, src, line),
        ),
{
    let s2 = shift_state(k, st);
    let b2 = shift_borrows(k, borrows);
    let l2 = sh(k, line);
    if let Some((name, kind)) = crate::scan::owned_declaration(code, st.pending) {
        let o = OwnerModel {
            kind,
            state: OwnerState::Available,
            line,
            column: crate::scan::identifier_column(src, name),
            maybe_moved: false,
            moved: seq![],
        };
        lemma_table_insert_map(st.owners, owner_shifter(k), name, o);
    }
    lemma_borrow_uses_shift(k, code, src, line, st.owners, borrows);
    let bu = borrow_use_diagnostics(code, src, line, st.owners, borrows);
    lemma_shift_diags_concat(k, st.diagnostics, bu);
    let d = st.diagnostics + bu;
    if let Some((_name, owner_arg, kind)) = crate::scan::borrow_declaration(code) {
        lemma_new_borrow_shift(k, src, line, owner_arg, kind, st.owners, borrows);
        lemma_shift_diags_concat(
            k,
            d,
            new_borrow_diagnostics(src, line, owner_arg, kind, st.owners, borrows),
        );
    }
    if let Some(place) = crate::scan::call_argument(code, "move"@) {
        lemma_move_shift(k, src, line, place, st.owners, borrows, st.contexts);
        lemma_shift_diags_concat(k, d, move_effect(src, line, place, st.owners, borrows, st.contexts).1);
    }
    if let Some(place) = crate::scan::call_argument(code, "dispose"@) {
        lemma_dispose_shift(k, src, line, place, st.owners, borrows);
        lemma_shift_diags_concat(k, d, dispose_effect(src, line, place, st.owners, borrows).1);
    }
    lemma_owner_uses_shift(k, code, src, line, st.owners, borrows);
    lemma_shift_diags_concat(k, d, owner_use_diagnostics(code, src, line, st.owners, borrows));
}

/// An empty line leaves the state of the walk as it is.
proof fn lemma_step_empty(st: AnalysisState, borrows: Borrows, src: Seq<char>, line: int)
    ensures
        step(st, borrows, seq![], src, line) == st,
{
    reveal_strlit("@resource");
    reveal_strlit("@owned");
    assert(crate::text::find_from(seq![], "@resource"@, 0) is None);
    assert(crate::text::find_from(seq![], "@owned"@, 0) is None);
}

// ---------------------------------------------------------------------------
// The borrow table
// ---------------------------------------------------------------------------

/// The code lines with an empty one inserted at index `k`.
pub open spec fn with_blank(codes: Seq<Seq<char>>, k: int) -> Seq<Seq<char>> {
    codes.insert(k, Seq::<char>::empty())
}

/// Every borrow that the lines declare has a name.
pub open spec fn borrows_named(codes: Seq<Seq<char>>) -> bool {
    forall|i: int|
        0 <= i < codes.len() ==> (#[trigger] crate::scan::borrow_declaration(codes[i]) matches Some(
            (name, _, _),
        ) ==> name.len() > 0)
}

proof fn lemma_empty_line_names_nothing(name: Seq<char>)
    requires
        name.len() > 0,
    ensures
        !crate::scan::contains_identifier(Seq::<char>::empty(), name),
        crate::scan::call_argument(Seq::<char>::empty(), "endBorrow"@) is None,
        crate::scan::borrow_declaration(Seq::<char>::empty()) is None,
{
    reveal_strlit("endBorrow");
    assert(crate::text::find_from(Seq::<char>::empty(), "endBorrow"@.push('('), 0) is None);
    assert(crate::text::find_from(Seq::<char>::empty(), seq!['='], 0) is None);
}

proof fn lemma_empty_declares_nothing()
    ensures
        crate::scan::borrow_declaration(Seq::<char>::empty()) is None,
{
    assert(crate::text::find_from(Seq::<char>::empty(), seq!['='], 0) is None);
}

/// Where line index `i` of the text goes once the empty line is inserted at `k`.
pub open spec fn at(k: int, i: int) -> int {
    if i < k {
        i
    } else {
        i + 1
    }
}

proof fn lemma_last_mention_shift(
    codes: Seq<Seq<char>>,
    k: int,
    name: Seq<char>,
    i: int,
    e: int,
)
    requires
        0 <= k <= codes.len(),
        0 <= i < codes.len(),
        i + 1 <= e <= codes.len(),
        name.len() > 0,
    ensures
        last_mention(with_blank(codes, k), name, at(k, i), sh(k, e)) == sh(
            k,
            last_mention(codes, name, i, e),
        ),
    decreases e - i,
{
    let c2 = with_blank(codes, k);
    let i2 = at(k, i);
    lemma_empty_line_names_nothing(name);
    if e > i + 1 {
        lemma_last_mention_shift(codes, k, name, i, e - 1);
        if e <= k {
            assert(c2[e - 1] == codes[e - 1]);
        } else {
            assert(c2[e] == codes[e - 1]);
            if e - 1 == k {
                assert(c2[k] == Seq::<char>::empty());
                assert(last_mention(c2, name, i2, k + 1) == last_mention(c2, name, i2, k));
            }
        }
    }
}

proof fn lemma_first_end_shift(codes: Seq<Seq<char>>, k: int, name: Seq<char>, i: int, e: int)
    requires
        0 <= k <= codes.len(),
        0 <= i < codes.len(),
        i + 1 <= e <= codes.len(),
        name.len() > 0,
    ensures
        first_end(with_blank(codes, k), name, at(k, i), sh(k, e)) == (match first_end(
            codes,
            name,
            i,
            e,
        ) {
            Some(x) => Some(sh(k, x)),
            None => None,
        }),
    decreases e - i,
{
    let c2 = with_blank(codes, k);
    let i2 = at(k, i);
    lemma_empty_line_names_nothing(name);
    if e > i + 1 {
        lemma_first_end_shift(codes, k, name, i, e - 1);
        if e <= k {
            assert(c2[e - 1] == codes[e - 1]);
        } else {
            assert(c2[e] == codes[e - 1]);
            if e - 1 == k {
                assert(c2[k] == Seq::<char>::empty());
                assert(first_end(c2, name, i2, k + 1) == first_end(c2, name, i2, k));
            }
        }
    }
}

/// The record of a line, with its line numbers renumbered.
pub open spec fn shift_record(k: int, r: Option<(Seq<char>, BorrowModel)>) -> Option<
    (Seq<char>, BorrowModel),
> {
    match r {
        Some((name, b)) => Some((name, shift_borrow(k, b))),
        None => None,
    }
}

proof fn lemma_record_shift(codes: Seq<Seq<char>>, k: int, i: int)
    requires
        0 <= k <= codes.len(),
        0 <= i < codes.len(),
        borrows_named(codes),
    ensures
        borrow_record(with_blank(codes, k), at(k, i)) == shift_record(k, borrow_record(codes, i)),
{
    let c2 = with_blank(codes, k);
    let n = codes.len() as int;
    assert(c2[at(k, i)] == codes[i]);
    if let Some((name, _, _)) = crate::scan::borrow_declaration(codes[i]) {
        assert(name.len() > 0);
        lemma_empty_line_names_nothing(name);
        lemma_last_mention_shift(codes, k, name, i, n);
        lemma_first_end_shift(codes, k, name, i, n);
        if k == n {
            assert(c2[n] == Seq::<char>::empty());
            assert(last_mention(c2, name, at(k, i), n + 1) == last_mention(c2, name, at(k, i), n));
            assert(first_end(c2, name, at(k, i), n + 1) == first_end(c2, name, at(k, i), n));
        }
    }
}

proof fn lemma_table_shift(codes: Seq<Seq<char>>, k: int, n: int)
    requires
        0 <= k <= codes.len(),
        0 <= n <= codes.len(),
        borrows_named(codes),
    ensures
        borrow_table(with_blank(codes, k), sh(k, n)) == shift_borrows(k, borrow_table(codes, n)),
    decreases n,
{
    let c2 = with_blank(codes, k);
    if n == 0 {
        assert(shift_borrows(k, Seq::<(Seq<char>, BorrowModel)>::empty()) =~= Seq::<
            (Seq<char>, BorrowModel),
        >::empty());
    } else {
        lemma_table_shift(codes, k, n - 1);
        lemma_record_shift(codes, k, n - 1);
        if let Some((name, b)) = borrow_record(codes, n - 1) {
            lemma_table_insert_map(borrow_table(codes, n - 1), borrow_shifter(k), name, b);
        }
        if n - 1 == k {
            assert(c2[k] == Seq::<char>::empty());
            lemma_empty_declares_nothing();
            assert(borrow_table(c2, k + 1) == borrow_table(c2, k));
        }
    }
}

proof fn lemma_whole_table_shift(codes: Seq<Seq<char>>, k: int)
    requires
        0 <= k <= codes.len(),
        borrows_named(codes),
    ensures
        borrow_table(with_blank(codes, k), codes.len() + 1int) == shift_borrows(
            k,
            borrow_table(codes, codes.len() as int),
        ),
{
    let c2 = with_blank(codes, k);
    let n = codes.len() as int;
    lemma_table_shift(codes, k, n);
    if k == n {
        assert(c2[n] == Seq::<char>::empty());
        lemma_empty_declares_nothing();
        assert(borrow_table(c2, n + 1) == borrow_table(c2, n));
    }
}

// ---------------------------------------------------------------------------
// The walk and the report
// ---------------------------------------------------------------------------

proof fn lemma_run_shift(
    borrows: Borrows,
    codes: Seq<Seq<char>>,
    srcs: Seq<Seq<char>>,
    k: int,
    n: int,
)
    requires
        0 <= k <= codes.len(),
        codes.len() == srcs.len(),
        0 <= n <= codes.len(),
    ensures
        run(shift_borrows(k, borrows), with_blank(codes, k), with_blank(srcs, k), sh(k, n))
            == shift_state(k, run(borrows, codes, srcs, n)),
    decreases n,
{
    let b2 = shift_borrows(k, borrows);
    let c2 = with_blank(codes, k);
    let s2 = with_blank(srcs, k);
    if n == 0 {
        assert(shift_owners(k, Seq::<(Seq<char>, OwnerModel)>::empty()) =~= Seq::<
            (Seq<char>, OwnerModel),
        >::empty());
        assert(shift_diags(k, Seq::<DiagnosticView>::empty()) =~= Seq::<DiagnosticView>::empty());
        assert(shift_state(k, initial_state()) == initial_state());
    } else {
        lemma_run_shift(borrows, codes, srcs, k, n - 1);
        let before = run(borrows, codes, srcs, n - 1);
        lemma_step_shift(k, before, borrows, codes[n - 1], srcs[n - 1], n);
        if n <= k {
            assert(c2[n - 1] == codes[n - 1] && s2[n - 1] == srcs[n - 1]);
        } else {
            assert(c2[n] == codes[n - 1] && s2[n] == srcs[n - 1]);
            if n - 1 == k {
                assert(c2[k] == Seq::<char>::empty());
                lemma_step_empty(run(b2, c2, s2, k), b2, s2[k], k + 1);
                assert(run(b2, c2, s2, k + 1) == run(b2, c2, s2, k));
            }
        }
    }
}

/// An inserted empty line only renumbers: a text whose lines are those of
/// another with an empty line inserted at index `k` gets the same diagnostics,
/// in the same order, those after the empty line one line further down, and
/// the same counts, provided that every borrow the text declares has a name.
pub proof fn law_blank_line_only_renumbers(s1: Seq<char>, s2: Seq<char>, k: int)
    requires
        0 <= k <= lines(s1).len(),
        lines(s2) == lines(s1).insert(k, Seq::<char>::empty()),
        borrows_named(code_lines(lines(s1))),
    ensures
        analysis(s2) == (ReportView {
            diagnostics: shift_diags(k, analysis(s1).diagnostics),
            ..analysis(s1)
        }),
{
    let ls1 = lines(s1);
    let ls2 = lines(s2);
    let codes = code_lines(ls1);
    let n = codes.len() as int;
    assert(crate::scan::code_of(Seq::<char>::empty()) =~= Seq::<char>::empty()) by {
        assert(crate::text::find_from(Seq::<char>::empty(), seq!['/', '/'], 0) is None);
    }
    assert(code_lines(ls2) =~= with_blank(codes, k));
    assert(ls2 =~= with_blank(ls1, k));
    let b1 = borrow_table(codes, n);
    lemma_whole_table_shift(codes, k);
    lemma_run_shift(b1, codes, ls1, k, n);
    let st1 = run(b1, codes, ls1, n);
    let b2 = shift_borrows(k, b1);
    let c2 = with_blank(codes, k);
    if k == n {
        assert(c2[n] == Seq::<char>::empty());
        lemma_step_empty(run(b2, c2, ls2, n), b2, ls2[n], n + 1);
    }
    assert(run(b2, c2, ls2, n + 1) == shift_state(k, st1));
    lemma_leaks_shift(k, st1.owners);
    lemma_shift_diags_concat(k, st1.diagnostics, leak_diagnostics(st1.owners));
}

} // verus!
