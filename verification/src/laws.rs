//! Properties of the analysis as a whole: one entry per owner and per borrow,
//! diagnostics that point into the text, released owners that stay released,
//! moves that invalidate, borrows that end, leaks that are exactly the
//! resources left available, and texts without ownership contracts that get
//! no diagnostic.

use vstd::prelude::*;
use crate::analysis::{
    analysis, borrow_use, borrow_use_diagnostics, code_lines, dispose_effect, leak_diagnostics,
    move_effect, new_borrow_diagnostics, owner_use, owner_use_diagnostics, run, step,
    AnalysisState, Borrows, OwnerModel, OwnerState, Owners,
};
use crate::borrows::{borrow_table, BorrowModel};
use crate::report::DiagnosticView;
use crate::scan::{base_owner, owned_declaration, OwnerKind};
use crate::table::{
    lemma_lower_bound_split, lemma_table_insert, lower_bound, strictly_sorted,
    table_get, table_insert,
};
use crate::text::{contains, lines};

verus! {

// ---------------------------------------------------------------------------
// Each name once
// ---------------------------------------------------------------------------

proof fn lemma_step_sorted(st: AnalysisState, borrows: Borrows, code: Seq<char>, src: Seq<char>, line: int)
    requires
        strictly_sorted(st.owners),
    ensures
        strictly_sorted(step(st, borrows, code, src, line).owners),
{
    lemma_owner_insert_sorted_any(st.owners);
}

/// Inserting any owner keeps the owner table sorted.
proof fn lemma_owner_insert_sorted_any(t: Owners)
    requires
        strictly_sorted(t),
    ensures
        forall|k: Seq<char>, v: OwnerModel| #[trigger] strictly_sorted(table_insert(t, k, v)),
{
    assert forall|k: Seq<char>, v: OwnerModel| #[trigger] strictly_sorted(table_insert(t, k, v)) by {
        lemma_table_insert(t, k, v);
    }
}

proof fn lemma_run_sorted(borrows: Borrows, codes: Seq<Seq<char>>, srcs: Seq<Seq<char>>, n: int)
    ensures
        strictly_sorted(run(borrows, codes, srcs, n).owners),
    decreases n,
{
    if n > 0 {
        lemma_run_sorted(borrows, codes, srcs, n - 1);
        lemma_step_sorted(run(borrows, codes, srcs, n - 1), borrows, codes[n - 1], srcs[n - 1], n);
    }
}

proof fn lemma_borrow_table_sorted(codes: Seq<Seq<char>>, n: int)
    ensures
        strictly_sorted(borrow_table(codes, n)),
    decreases n,
{
    if n > 0 {
        lemma_borrow_table_sorted(codes, n - 1);
        match crate::borrows::borrow_record(codes, n - 1) {
            Some((name, b)) => lemma_table_insert(borrow_table(codes, n - 1), name, b),
            None => {},
        }
    }
}

/// Every declared owner and every borrow is kept once, under its name, in key
/// order; so `tracked_owners` and `tracked_borrows` count distinct declared names.
pub proof fn law_each_name_tracked_once(source: Seq<char>)
    ensures
        ({
            let ls = lines(source);
            let codes = code_lines(ls);
            let borrows = borrow_table(codes, codes.len() as int);
            let st = run(borrows, codes, ls, codes.len() as int);
            &&& strictly_sorted(st.owners)
            &&& strictly_sorted(borrows)
            &&& analysis(source).tracked_owners == st.owners.len()
            &&& analysis(source).tracked_borrows == borrows.len()
        }),
{
    let ls = lines(source);
    let codes = code_lines(ls);
    let borrows = borrow_table(codes, codes.len() as int);
    lemma_run_sorted(borrows, codes, ls, codes.len() as int);
    lemma_borrow_table_sorted(codes, codes.len() as int);
}

// ---------------------------------------------------------------------------
// Diagnostics point into the text
// ---------------------------------------------------------------------------

/// Every diagnostic lies on a line from `lo` to `hi` and has a column of at least 1.
pub open spec fn located(ds: Seq<DiagnosticView>, lo: int, hi: int) -> bool {
    forall|i: int| 0 <= i < ds.len() ==> lo <= (#[trigger] ds[i]).line <= hi && ds[i].column >= 1
}

/// Every owner was declared on a line from 1 to `n`, at a column of at least 1.
pub open spec fn owners_located(owners: Owners, n: int) -> bool {
    forall|i: int| 0 <= i < owners.len() ==> 1 <= (#[trigger] owners[i]).1.line <= n && owners[i].1.column >= 1
}

pub open spec fn owner_located(o: OwnerModel, n: int) -> bool {
    1 <= o.line <= n && o.column >= 1
}

proof fn lemma_located_append(a: Seq<DiagnosticView>, b: Seq<DiagnosticView>, lo: int, hi: int)
    requires
        located(a, lo, hi),
        located(b, lo, hi),
    ensures
        located(a + b, lo, hi),
{
    assert forall|i: int| 0 <= i < (a + b).len() implies lo <= (#[trigger] (a + b)[i]).line <= hi
        && (a + b)[i].column >= 1 by {
        if i >= a.len() {
            assert((a + b)[i] == b[i - a.len()]);
        }
    }
}

proof fn lemma_get_located(t: Owners, k: Seq<char>, n: int)
    requires
        owners_located(t, n),
    ensures
        table_get(t, k) matches Some(o) ==> owner_located(o, n),
{
    lemma_lower_bound_split(t, k);
    let i = lower_bound(t, k);
    if i < t.len() && t[i].0 == k {
        assert(owner_located(t[i].1, n));
    }
}

proof fn lemma_insert_located(t: Owners, k: Seq<char>, v: OwnerModel, n: int)
    requires
        owners_located(t, n),
        owner_located(v, n),
    ensures
        owners_located(table_insert(t, k, v), n),
{
    lemma_lower_bound_split(t, k);
    let i = lower_bound(t, k);
    let r = table_insert(t, k, v);
    assert forall|j: int| 0 <= j < r.len() implies 1 <= (#[trigger] r[j]).1.line <= n
        && r[j].1.column >= 1 by {
        if i < t.len() && t[i].0 == k {
            if j != i {
                assert(r[j] == t[j]);
            }
        } else {
            if j < i {
                assert(r[j] == t[j]);
            } else if j > i {
                assert(r[j] == t[j - 1]);
            }
        }
    }
}

proof fn lemma_effects_located(
    src: Seq<char>,
    line: int,
    place: Seq<char>,
    owners: Owners,
    borrows: Borrows,
    contexts: Seq<crate::scan::Context>,
)
    requires
        line >= 1,
        owners_located(owners, line),
    ensures
        located(move_effect(src, line, place, owners, borrows, contexts).1, line, line),
        owners_located(move_effect(src, line, place, owners, borrows, contexts).0, line),
        located(dispose_effect(src, line, place, owners, borrows).1, line, line),
        owners_located(dispose_effect(src, line, place, owners, borrows).0, line),
{
    let base = base_owner(place);
    lemma_get_located(owners, base, line);
    match table_get(owners, base) {
        Some(o) => {
            lemma_insert_located(owners, base, OwnerModel { maybe_moved: true, ..o }, line);
            lemma_insert_located(owners, base, OwnerModel { state: OwnerState::Moved, ..o }, line);
            lemma_insert_located(owners, base, OwnerModel { state: OwnerState::Disposed, ..o }, line);
            lemma_insert_located(
                owners,
                base,
                OwnerModel { moved: table_insert(o.moved, place, ()), ..o },
                line,
            );
        },
        None => {},
    }
}

proof fn lemma_owner_uses_located(
    code: Seq<char>,
    src: Seq<char>,
    line: int,
    owners: Owners,
    borrows: Borrows,
)
    ensures
        located(owner_use_diagnostics(code, src, line, owners, borrows), line, line),
    decreases owners.len(),
{
    if owners.len() > 0 {
        lemma_owner_uses_located(code, src, line, owners.drop_last(), borrows);
        let d = owner_use(code, src, line, owners.last().0, owners.last().1, borrows);
        assert(located(d, line, line));
        lemma_located_append(
            owner_use_diagnostics(code, src, line, owners.drop_last(), borrows),
            d,
            line,
            line,
        );
    }
}

proof fn lemma_borrow_uses_located(
    code: Seq<char>,
    src: Seq<char>,
    line: int,
    owners: Owners,
    borrows: Borrows,
)
    ensures
        located(borrow_use_diagnostics(code, src, line, owners, borrows), line, line),
    decreases borrows.len(),
{
    if borrows.len() > 0 {
        lemma_borrow_uses_located(code, src, line, owners, borrows.drop_last());
        let d = borrow_use(code, src, line, owners, borrows.last().0, borrows.last().1);
        assert(located(d, line, line));
        lemma_located_append(
            borrow_use_diagnostics(code, src, line, owners, borrows.drop_last()),
            d,
            line,
            line,
        );
    }
}

proof fn lemma_located_widen(ds: Seq<DiagnosticView>, lo: int, hi: int, lo2: int, hi2: int)
    requires
        located(ds, lo, hi),
        lo2 <= lo,
        hi <= hi2,
    ensures
        located(ds, lo2, hi2),
{
}

proof fn lemma_step_located(st: AnalysisState, borrows: Borrows, code: Seq<char>, src: Seq<char>, line: int)
    requires
        line >= 1,
        located(st.diagnostics, 1, line - 1),
        owners_located(st.owners, line - 1),
    ensures
        located(step(st, borrows, code, src, line).diagnostics, 1, line),
        owners_located(step(st, borrows, code, src, line).owners, line),
{
    let next = step(st, borrows, code, src, line);
    lemma_located_widen(st.diagnostics, 1, line - 1, 1, line);
    assert(owners_located(st.owners, line));
    if !contains(code, "@resource"@) && !contains(code, "@owned"@) && code.len() > 0 {
        match owned_declaration(code, st.pending) {
            Some((name, kind)) => {
                lemma_insert_located(
                    st.owners,
                    name,
                    OwnerModel {
                        kind,
                        state: OwnerState::Available,
                        line,
                        column: crate::scan::identifier_column(src, name),
                        maybe_moved: false,
                        moved: seq![],
                    },
                    line,
                );
            },
            None => {
                let bd = borrow_use_diagnostics(code, src, line, st.owners, borrows);
                lemma_borrow_uses_located(code, src, line, st.owners, borrows);
                lemma_located_widen(bd, line, line, 1, line);
                lemma_located_append(st.diagnostics, bd, 1, line);
                let d = st.diagnostics + bd;
                match crate::scan::borrow_declaration(code) {
                    Some((_name, owner_arg, kind)) => {
                        let nd = new_borrow_diagnostics(src, line, owner_arg, kind, st.owners, borrows);
                        assert(located(nd, line, line));
                        lemma_located_widen(nd, line, line, 1, line);
                        lemma_located_append(d, nd, 1, line);
                    },
                    None => {
                        match crate::scan::call_argument(code, "move"@) {
                            Some(place) => {
                                lemma_effects_located(src, line, place, st.owners, borrows, st.contexts);
                                let found = move_effect(src, line, place, st.owners, borrows, st.contexts).1;
                                lemma_located_widen(found, line, line, 1, line);
                                lemma_located_append(d, found, 1, line);
                            },
                            None => {},
                        }
                        match crate::scan::call_argument(code, "dispose"@) {
                            Some(place) => {
                                lemma_effects_located(src, line, place, st.owners, borrows, st.contexts);
                                let found = dispose_effect(src, line, place, st.owners, borrows).1;
                                lemma_located_widen(found, line, line, 1, line);
                                lemma_located_append(d, found, 1, line);
                            },
                            None => {},
                        }
                        let od = owner_use_diagnostics(code, src, line, st.owners, borrows);
                        lemma_owner_uses_located(code, src, line, st.owners, borrows);
                        lemma_located_widen(od, line, line, 1, line);
                        lemma_located_append(d, od, 1, line);
                    },
                }
            },
        }
    }
}

proof fn lemma_run_located(borrows: Borrows, codes: Seq<Seq<char>>, srcs: Seq<Seq<char>>, n: int)
    requires
        n >= 0,
    ensures
        located(run(borrows, codes, srcs, n).diagnostics, 1, n),
        owners_located(run(borrows, codes, srcs, n).owners, n),
    decreases n,
{
    if n > 0 {
        lemma_run_located(borrows, codes, srcs, n - 1);
        lemma_step_located(run(borrows, codes, srcs, n - 1), borrows, codes[n - 1], srcs[n - 1], n);
    }
}

proof fn lemma_leaks_located(owners: Owners, n: int)
    requires
        owners_located(owners, n),
    ensures
        located(leak_diagnostics(owners), 1, n),
    decreases owners.len(),
{
    if owners.len() > 0 {
        let rest = owners.drop_last();
        assert(owners_located(rest, n)) by {
            assert forall|i: int| 0 <= i < rest.len() implies 1 <= (#[trigger] rest[i]).1.line <= n
                && rest[i].1.column >= 1 by {
                assert(rest[i] == owners[i]);
            }
        }
        lemma_leaks_located(rest, n);
        assert(owner_located(owners[owners.len() - 1].1, n));
        let (name, o) = owners.last();
        let d = if o.kind == crate::scan::OwnerKind::Resource && o.state == OwnerState::Available {
            seq![
                crate::report::diag(
                    "TSB001"@,
                    o.line,
                    o.column,
                    crate::report::msg(
                        "resource may leave scope without being disposed: `"@,
                        name,
                        "`"@,
                    ),
                ),
            ]
        } else {
            seq![]
        };
        assert(located(d, 1, n));
        lemma_located_append(leak_diagnostics(rest), d, 1, n);
    }
}

/// Every diagnostic points into the analyzed text: its line is between 1 and
/// the number of lines, and its column is at least 1.
pub proof fn law_diagnostics_point_into_the_text(source: Seq<char>)
    ensures
        located(analysis(source).diagnostics, 1, lines(source).len() as int),
{
    let ls = lines(source);
    let codes = code_lines(ls);
    let borrows = borrow_table(codes, codes.len() as int);
    let n = codes.len() as int;
    lemma_run_located(borrows, codes, ls, n);
    let st = run(borrows, codes, ls, n);
    lemma_leaks_located(st.owners, n);
    lemma_located_append(st.diagnostics, leak_diagnostics(st.owners), 1, n);
}

// ---------------------------------------------------------------------------
// Released owners stay released
// ---------------------------------------------------------------------------

/// The line declares `name` anew: a code line, not a JSDoc marker, whose
/// declaration names `name`.
pub open spec fn redeclares(st: AnalysisState, code: Seq<char>, name: Seq<char>) -> bool {
    &&& !contains(code, "@resource"@)
    &&& !contains(code, "@owned"@)
    &&& code.len() > 0
    &&& owned_declaration(code, st.pending) matches Some((m, _)) && m == name
}

proof fn lemma_effects_keep_released(
    src: Seq<char>,
    line: int,
    place: Seq<char>,
    owners: Owners,
    borrows: Borrows,
    contexts: Seq<crate::scan::Context>,
    name: Seq<char>,
)
    requires
        strictly_sorted(owners),
        table_get(owners, name) matches Some(o) && o.state != OwnerState::Available,
    ensures
        table_get(move_effect(src, line, place, owners, borrows, contexts).0, name) == table_get(
            owners,
            name,
        ),
        table_get(dispose_effect(src, line, place, owners, borrows).0, name) == table_get(
            owners,
            name,
        ),
{
    let base = base_owner(place);
    match table_get(owners, base) {
        Some(o) => {
            if base != name {
                lemma_table_insert(owners, base, OwnerModel { maybe_moved: true, ..o });
                lemma_table_insert(owners, base, OwnerModel { state: OwnerState::Moved, ..o });
                lemma_table_insert(owners, base, OwnerModel { state: OwnerState::Disposed, ..o });
                lemma_table_insert(
                    owners,
                    base,
                    OwnerModel { moved: table_insert(o.moved, place, ()), ..o },
                );
            }
        },
        None => {},
    }
}

/// A moved or disposed owner keeps its state on every line that does not
/// declare it anew: no later move, dispose, borrow or use makes it available again.
pub proof fn law_released_owner_stays_released(
    st: AnalysisState,
    borrows: Borrows,
    code: Seq<char>,
    source_line: Seq<char>,
    line: int,
    name: Seq<char>,
)
    requires
        strictly_sorted(st.owners),
        table_get(st.owners, name) matches Some(o) && o.state != OwnerState::Available,
        !redeclares(st, code, name),
    ensures
        table_get(step(st, borrows, code, source_line, line).owners, name) == table_get(
            st.owners,
            name,
        ),
{
    if !contains(code, "@resource"@) && !contains(code, "@owned"@) && code.len() > 0 {
        match owned_declaration(code, st.pending) {
            Some((m, kind)) => {
                lemma_table_insert(
                    st.owners,
                    m,
                    OwnerModel {
                        kind,
                        state: OwnerState::Available,
                        line,
                        column: crate::scan::identifier_column(source_line, m),
                        maybe_moved: false,
                        moved: seq![],
                    },
                );
            },
            None => {
                match crate::scan::call_argument(code, "move"@) {
                    Some(place) => lemma_effects_keep_released(
                        source_line,
                        line,
                        place,
                        st.owners,
                        borrows,
                        st.contexts,
                        name,
                    ),
                    None => {},
                }
                match crate::scan::call_argument(code, "dispose"@) {
                    Some(place) => lemma_effects_keep_released(
                        source_line,
                        line,
                        place,
                        st.owners,
                        borrows,
                        st.contexts,
                        name,
                    ),
                    None => {},
                }
            },
        }
    }
}

// ---------------------------------------------------------------------------
// Moves and borrows
// ---------------------------------------------------------------------------

/// `move(name)` of an available, unborrowed owner outside any loop body and
/// any conditional branch makes it moved; a later line that uses it is then reported as a use
/// of a moved value.
pub proof fn law_move_invalidates_owner(
    st: AnalysisState,
    borrows: Borrows,
    code: Seq<char>,
    source_line: Seq<char>,
    line: int,
    name: Seq<char>,
)
    requires
        strictly_sorted(st.owners),
        table_get(st.owners, name) matches Some(o) && o.state == OwnerState::Available,
        !contains(code, "@resource"@),
        !contains(code, "@owned"@),
        code.len() > 0,
        owned_declaration(code, st.pending) is None,
        crate::scan::borrow_declaration(code) is None,
        crate::scan::call_argument(code, "endBorrow"@) is None,
        crate::scan::call_argument(code, "move"@) == Some(name),
        base_owner(name) == name,
        !crate::borrows::has_active(borrows, name, line),
        !st.contexts.contains(crate::scan::Context::Conditional),
        !st.contexts.contains(crate::scan::Context::Loop),
    ensures
        table_get(step(st, borrows, code, source_line, line).owners, name) matches Some(o2)
            && o2.state == OwnerState::Moved,
        forall|later: Seq<char>, later_line: Seq<char>, n: int, b: Borrows|
            #![trigger owner_use(later, later_line, n, name, table_get(step(st, borrows, code, source_line, line).owners, name)->0, b)]
            crate::scan::used_place(later, name) is Some ==> owner_use(
                later,
                later_line,
                n,
                name,
                table_get(step(st, borrows, code, source_line, line).owners, name)->0,
                b,
            ) == seq![
                crate::report::diag(
                    "E0382"@,
                    n,
                    crate::scan::identifier_column(
                        later_line,
                        crate::scan::used_place(later, name)->0,
                    ),
                    crate::report::msg("use of moved value: `"@, name, "`"@),
                ),
            ],
{
    let o = table_get(st.owners, name)->0;
    lemma_table_insert(st.owners, name, OwnerModel { state: OwnerState::Moved, ..o });
}

/// A borrow is live only after its declaration and up to its last use, and
/// not after the line that ends it with `endBorrow`.
pub proof fn law_borrow_ends_at_last_use(b: BorrowModel, line: int)
    ensures
        line > b.last_use ==> !crate::borrows::is_active_at(b, line),
        b.ended matches Some(e) && line > e ==> !crate::borrows::is_active_at(b, line),
        line <= b.created ==> !crate::borrows::is_active_at(b, line),
{
}

/// Shared borrows may overlap: a shared borrow of an available owner is
/// reported only when a mutable borrow of it is live.
pub proof fn law_shared_borrows_overlap(
    source_line: Seq<char>,
    line: int,
    owner_arg: Seq<char>,
    owners: Owners,
    borrows: Borrows,
)
    requires
        table_get(owners, base_owner(owner_arg)) matches Some(o) && o.state == OwnerState::Available,
        !crate::borrows::has_active_kind(
            borrows,
            base_owner(owner_arg),
            line,
            crate::scan::BorrowKind::Mutable,
        ),
    ensures
        new_borrow_diagnostics(
            source_line,
            line,
            owner_arg,
            crate::scan::BorrowKind::Shared,
            owners,
            borrows,
        ) == Seq::<DiagnosticView>::empty(),
{
}

/// A mutable borrow is unique: requesting one while any borrow of the same
/// available owner is live is reported.
pub proof fn law_mutable_borrow_is_unique(
    source_line: Seq<char>,
    line: int,
    owner_arg: Seq<char>,
    owners: Owners,
    borrows: Borrows,
)
    requires
        table_get(owners, base_owner(owner_arg)) matches Some(o) && o.state == OwnerState::Available,
        crate::borrows::has_active(borrows, base_owner(owner_arg), line),
    ensures
        new_borrow_diagnostics(
            source_line,
            line,
            owner_arg,
            crate::scan::BorrowKind::Mutable,
            owners,
            borrows,
        ).len() == 1,
{
    let base = base_owner(owner_arg);
    let i = choose|i: int|
        0 <= i < borrows.len() && (#[trigger] borrows[i]).1.owner == base
            && crate::borrows::is_active_at(borrows[i].1, line);
    match borrows[i].1.kind {
        crate::scan::BorrowKind::Mutable => assert(crate::borrows::has_active_kind(
            borrows,
            base,
            line,
            crate::scan::BorrowKind::Mutable,
        )),
        crate::scan::BorrowKind::Shared => assert(crate::borrows::has_active_kind(
            borrows,
            base,
            line,
            crate::scan::BorrowKind::Shared,
        )),
    }
}

/// `dispose(name)` of an available, unborrowed owner makes it disposed.
pub proof fn law_dispose_releases_owner(
    st: AnalysisState,
    borrows: Borrows,
    code: Seq<char>,
    source_line: Seq<char>,
    line: int,
    name: Seq<char>,
)
    requires
        strictly_sorted(st.owners),
        table_get(st.owners, name) matches Some(o) && o.state == OwnerState::Available,
        !contains(code, "@resource"@),
        !contains(code, "@owned"@),
        code.len() > 0,
        owned_declaration(code, st.pending) is None,
        crate::scan::borrow_declaration(code) is None,
        crate::scan::call_argument(code, "endBorrow"@) is None,
        crate::scan::call_argument(code, "move"@) is None,
        crate::scan::call_argument(code, "dispose"@) == Some(name),
        base_owner(name) == name,
        !crate::borrows::has_active(borrows, name, line),
    ensures
        table_get(step(st, borrows, code, source_line, line).owners, name) matches Some(o2)
            && o2.state == OwnerState::Disposed,
{
    let o = table_get(st.owners, name)->0;
    lemma_table_insert(st.owners, name, OwnerModel { state: OwnerState::Disposed, ..o });
}

/// The leak diagnostic that an owner would get.
pub open spec fn leak_of(entry: (Seq<char>, OwnerModel)) -> Option<DiagnosticView> {
    let (name, o) = entry;
    if o.kind == crate::scan::OwnerKind::Resource && o.state == OwnerState::Available {
        Some(
            crate::report::diag(
                "TSB001"@,
                o.line,
                o.column,
                crate::report::msg("resource may leave scope without being disposed: `"@, name, "`"@),
            ),
        )
    } else {
        None
    }
}

/// Exactly the resources still available at the end are reported as leaks,
/// in name order; an owned value, or a resource that was disposed or moved,
/// is not.
pub proof fn law_only_available_resources_leak(owners: Owners)
    ensures
        leak_diagnostics(owners) == owners.filter_map(|e: (Seq<char>, OwnerModel)| leak_of(e)),
    decreases owners.len(),
{
    if owners.len() > 0 {
        law_only_available_resources_leak(owners.drop_last());
        let f = |e: (Seq<char>, OwnerModel)| leak_of(e);
        assert(owners.filter_map(f) == match f(owners.last()) {
            Some(d) => owners.drop_last().filter_map(f) + seq![d],
            None => owners.drop_last().filter_map(f),
        });
        match leak_of(owners.last()) {
            Some(_) => {},
            None => {
                assert(leak_diagnostics(owners.drop_last()) + seq![] =~= leak_diagnostics(
                    owners.drop_last(),
                ));
            },
        }
    }
}

// ---------------------------------------------------------------------------
// Texts without ownership contracts
// ---------------------------------------------------------------------------

proof fn lemma_borrow_uses_untracked(code: Seq<char>, src: Seq<char>, line: int, borrows: Borrows)
    ensures
        borrow_use_diagnostics(code, src, line, seq![], borrows) == Seq::<DiagnosticView>::empty(),
    decreases borrows.len(),
{
    if borrows.len() > 0 {
        lemma_borrow_uses_untracked(code, src, line, borrows.drop_last());
        let d = borrow_use(code, src, line, seq![], borrows.last().0, borrows.last().1);
        assert(table_get(Seq::<(Seq<char>, OwnerModel)>::empty(), borrows.last().1.owner) is None);
        assert(d == Seq::<DiagnosticView>::empty());
        assert(Seq::<DiagnosticView>::empty() + Seq::<DiagnosticView>::empty() =~= Seq::<
            DiagnosticView,
        >::empty());
    }
}

proof fn lemma_run_untracked(borrows: Borrows, codes: Seq<Seq<char>>, srcs: Seq<Seq<char>>, n: int)
    requires
        n <= codes.len(),
        forall|k: int, p: Option<OwnerKind>|
            0 <= k < codes.len() ==> #[trigger] owned_declaration(codes[k], p) is None,
    ensures
        run(borrows, codes, srcs, n).owners == Seq::<(Seq<char>, OwnerModel)>::empty(),
        run(borrows, codes, srcs, n).diagnostics == Seq::<DiagnosticView>::empty(),
    decreases n,
{
    if n > 0 {
        lemma_run_untracked(borrows, codes, srcs, n - 1);
        let st = run(borrows, codes, srcs, n - 1);
        let code = codes[n - 1];
        let src = srcs[n - 1];
        let none: Seq<DiagnosticView> = Seq::empty();
        assert(owned_declaration(code, st.pending) is None);
        lemma_borrow_uses_untracked(code, src, n, borrows);
        assert(none + none =~= none);
        assert(forall|k: Seq<char>| #[trigger] table_get(st.owners, k) is None);
        assert(owner_use_diagnostics(code, src, n, st.owners, borrows) == none);
    }
}

/// A text that declares no owner (no line holds an ownership declaration,
/// whatever marker precedes it) tracks no owner and gets no diagnostic.
pub proof fn law_no_contract_no_diagnostic(source: Seq<char>)
    requires
        forall|k: int, p: Option<OwnerKind>|
            0 <= k < code_lines(lines(source)).len() ==> #[trigger] owned_declaration(
                code_lines(lines(source))[k],
                p,
            ) is None,
    ensures
        analysis(source).diagnostics == Seq::<DiagnosticView>::empty(),
        analysis(source).tracked_owners == 0,
{
    let ls = lines(source);
    let codes = code_lines(ls);
    let borrows = borrow_table(codes, codes.len() as int);
    lemma_run_untracked(borrows, codes, ls, codes.len() as int);
    let none: Seq<DiagnosticView> = Seq::empty();
    assert(leak_diagnostics(Seq::<(Seq<char>, OwnerModel)>::empty()) == none);
    assert(none + none =~= none);
}

// ---------------------------------------------------------------------------
// What a move, a borrow or a dispose of a released owner reports
// ---------------------------------------------------------------------------

/// The line is neither a marker, empty, nor an ownership declaration.
pub open spec fn ordinary_line(st: AnalysisState, code: Seq<char>) -> bool {
    &&& !contains(code, "@resource"@)
    &&& !contains(code, "@owned"@)
    &&& code.len() > 0
    &&& owned_declaration(code, st.pending) is None
}

/// The single diagnostic `code: message` with `name` quoted in it, at the
/// column where `at` first occurs in the source line.
pub open spec fn one_report(
    code: Seq<char>,
    line: int,
    source_line: Seq<char>,
    at: Seq<char>,
    before: Seq<char>,
    name: Seq<char>,
) -> Seq<DiagnosticView> {
    seq![
        crate::report::diag(
            code,
            line,
            crate::scan::identifier_column(source_line, at),
            crate::report::msg(before, name, "`"@),
        ),
    ]
}

/// Moving a value that was already moved is reported: outside a loop body and
/// while its owner is not borrowed, `move(place)` adds exactly one diagnostic
/// after those for ended borrows, E0382 "use of moved value", and no owner changes.
pub proof fn law_move_of_moved_value_is_reported(
    st: AnalysisState,
    borrows: Borrows,
    code: Seq<char>,
    source_line: Seq<char>,
    line: int,
    place: Seq<char>,
)
    requires
        ordinary_line(st, code),
        crate::scan::borrow_declaration(code) is None,
        crate::scan::call_argument(code, "endBorrow"@) is None,
        crate::scan::call_argument(code, "move"@) == Some(place),
        table_get(st.owners, base_owner(place)) matches Some(o) && o.state == OwnerState::Moved,
        !crate::borrows::has_active(borrows, base_owner(place), line),
        !st.contexts.contains(crate::scan::Context::Loop),
    ensures
        step(st, borrows, code, source_line, line).owners == st.owners,
        step(st, borrows, code, source_line, line).diagnostics == st.diagnostics
            + borrow_use_diagnostics(code, source_line, line, st.owners, borrows) + one_report(
            "E0382"@,
            line,
            source_line,
            place,
            "use of moved value: `"@,
            place,
        ),
{
}

/// Moving a disposed value is reported as a use after disposal (TSB002).
pub proof fn law_move_of_disposed_value_is_reported(
    st: AnalysisState,
    borrows: Borrows,
    code: Seq<char>,
    source_line: Seq<char>,
    line: int,
    place: Seq<char>,
)
    requires
        ordinary_line(st, code),
        crate::scan::borrow_declaration(code) is None,
        crate::scan::call_argument(code, "endBorrow"@) is None,
        crate::scan::call_argument(code, "move"@) == Some(place),
        table_get(st.owners, base_owner(place)) matches Some(o) && o.state == OwnerState::Disposed,
        !crate::borrows::has_active(borrows, base_owner(place), line),
        !st.contexts.contains(crate::scan::Context::Loop),
    ensures
        step(st, borrows, code, source_line, line).owners == st.owners,
        step(st, borrows, code, source_line, line).diagnostics == st.diagnostics
            + borrow_use_diagnostics(code, source_line, line, st.owners, borrows) + one_report(
            "TSB002"@,
            line,
            source_line,
            place,
            "use of disposed value: `"@,
            place,
        ),
{
}

/// A move or a dispose of a borrowed owner is refused (E0505) and changes no owner.
pub proof fn law_release_while_borrowed_is_refused(
    st: AnalysisState,
    borrows: Borrows,
    code: Seq<char>,
    source_line: Seq<char>,
    line: int,
    place: Seq<char>,
)
    requires
        ordinary_line(st, code),
        crate::scan::borrow_declaration(code) is None,
        crate::scan::call_argument(code, "endBorrow"@) is None,
        table_get(st.owners, base_owner(place)) is Some,
        crate::borrows::has_active(borrows, base_owner(place), line),
    ensures
        crate::scan::call_argument(code, "move"@) == Some(place) && !st.contexts.contains(
            crate::scan::Context::Loop,
        ) ==> {
            &&& step(st, borrows, code, source_line, line).owners == st.owners
            &&& step(st, borrows, code, source_line, line).diagnostics == st.diagnostics
                + borrow_use_diagnostics(code, source_line, line, st.owners, borrows) + seq![
                crate::report::diag(
                    "E0505"@,
                    line,
                    crate::scan::identifier_column(source_line, place),
                    crate::report::msg("cannot move `"@, place, "` because it is borrowed"@),
                ),
            ]
        },
        crate::scan::call_argument(code, "move"@) is None && crate::scan::call_argument(
            code,
            "dispose"@,
        ) == Some(place) ==> {
            &&& step(st, borrows, code, source_line, line).owners == st.owners
            &&& step(st, borrows, code, source_line, line).diagnostics == st.diagnostics
                + borrow_use_diagnostics(code, source_line, line, st.owners, borrows) + seq![
                crate::report::diag(
                    "E0505"@,
                    line,
                    crate::scan::identifier_column(source_line, place),
                    crate::report::msg("cannot dispose `"@, place, "` because it is borrowed"@),
                ),
            ]
        },
{
}

/// Borrowing a value that was moved is reported: `borrow(place)` or
/// `borrowMut(place)` of a moved owner adds exactly one diagnostic after those
/// for ended borrows, E0382 "use of moved value", whatever borrows are live,
/// and changes no owner.
pub proof fn law_borrow_of_moved_value_is_reported(
    st: AnalysisState,
    borrows: Borrows,
    code: Seq<char>,
    source_line: Seq<char>,
    line: int,
)
    requires
        ordinary_line(st, code),
        crate::scan::borrow_declaration(code) matches Some((_name, owner_arg, _kind)) && table_get(
            st.owners,
            base_owner(owner_arg),
        ) matches Some(o) && o.state == OwnerState::Moved,
    ensures
        ({
            let (_name, owner_arg, _kind) = crate::scan::borrow_declaration(code)->0;
            &&& step(st, borrows, code, source_line, line).owners == st.owners
            &&& step(st, borrows, code, source_line, line).diagnostics == st.diagnostics
                + borrow_use_diagnostics(code, source_line, line, st.owners, borrows) + one_report(
                "E0382"@,
                line,
                source_line,
                owner_arg,
                "use of moved value: `"@,
                base_owner(owner_arg),
            )
        }),
{
}

/// Borrowing a disposed value is reported as a use after disposal (TSB002).
pub proof fn law_borrow_of_disposed_value_is_reported(
    st: AnalysisState,
    borrows: Borrows,
    code: Seq<char>,
    source_line: Seq<char>,
    line: int,
)
    requires
        ordinary_line(st, code),
        crate::scan::borrow_declaration(code) matches Some((_name, owner_arg, _kind)) && table_get(
            st.owners,
            base_owner(owner_arg),
        ) matches Some(o) && o.state == OwnerState::Disposed,
    ensures
        ({
            let (_name, owner_arg, _kind) = crate::scan::borrow_declaration(code)->0;
            &&& step(st, borrows, code, source_line, line).owners == st.owners
            &&& step(st, borrows, code, source_line, line).diagnostics == st.diagnostics
                + borrow_use_diagnostics(code, source_line, line, st.owners, borrows) + one_report(
                "TSB002"@,
                line,
                source_line,
                owner_arg,
                "use of disposed value: `"@,
                base_owner(owner_arg),
            )
        }),
{
}

/// Disposing a value that was moved is reported: `dispose(place)` of an
/// unborrowed moved owner adds exactly one diagnostic after those for ended
/// borrows, E0382 "use of moved value", and the owner stays moved.
pub proof fn law_dispose_of_moved_value_is_reported(
    st: AnalysisState,
    borrows: Borrows,
    code: Seq<char>,
    source_line: Seq<char>,
    line: int,
    place: Seq<char>,
)
    requires
        ordinary_line(st, code),
        crate::scan::borrow_declaration(code) is None,
        crate::scan::call_argument(code, "endBorrow"@) is None,
        crate::scan::call_argument(code, "move"@) is None,
        crate::scan::call_argument(code, "dispose"@) == Some(place),
        table_get(st.owners, base_owner(place)) matches Some(o) && o.state == OwnerState::Moved,
        !crate::borrows::has_active(borrows, base_owner(place), line),
    ensures
        step(st, borrows, code, source_line, line).owners == st.owners,
        table_get(step(st, borrows, code, source_line, line).owners, base_owner(place)) matches Some(
            o2,
        ) && o2.state == OwnerState::Moved,
        step(st, borrows, code, source_line, line).diagnostics == st.diagnostics
            + borrow_use_diagnostics(code, source_line, line, st.owners, borrows) + one_report(
            "E0382"@,
            line,
            source_line,
            place,
            "use of moved value: `"@,
            place,
        ),
{
}

/// Disposing a value twice is reported (TSB003) and it stays disposed.
pub proof fn law_double_dispose_is_reported(
    st: AnalysisState,
    borrows: Borrows,
    code: Seq<char>,
    source_line: Seq<char>,
    line: int,
    place: Seq<char>,
)
    requires
        ordinary_line(st, code),
        crate::scan::borrow_declaration(code) is None,
        crate::scan::call_argument(code, "endBorrow"@) is None,
        crate::scan::call_argument(code, "move"@) is None,
        crate::scan::call_argument(code, "dispose"@) == Some(place),
        table_get(st.owners, base_owner(place)) matches Some(o) && o.state == OwnerState::Disposed,
        !crate::borrows::has_active(borrows, base_owner(place), line),
    ensures
        step(st, borrows, code, source_line, line).owners == st.owners,
        step(st, borrows, code, source_line, line).diagnostics == st.diagnostics
            + borrow_use_diagnostics(code, source_line, line, st.owners, borrows) + one_report(
            "TSB003"@,
            line,
            source_line,
            place,
            "value disposed more than once: `"@,
            place,
        ),
{
}

// ---------------------------------------------------------------------------
// Borrow conflicts, uses, and conditional or partial moves
// ---------------------------------------------------------------------------

/// A borrow request of an available owner: a second mutable borrow is E0499;
/// a mutable borrow while only shared ones are live, or a shared one while a
/// mutable one is live, is E0502; otherwise nothing is reported.
pub proof fn law_borrow_conflicts(
    source_line: Seq<char>,
    line: int,
    owner_arg: Seq<char>,
    owners: Owners,
    borrows: Borrows,
)
    requires
        table_get(owners, base_owner(owner_arg)) matches Some(o) && o.state == OwnerState::Available,
    ensures
        ({
            let base = base_owner(owner_arg);
            let mutable = crate::borrows::has_active_kind(
                borrows,
                base,
                line,
                crate::scan::BorrowKind::Mutable,
            );
            let shared = crate::borrows::has_active_kind(
                borrows,
                base,
                line,
                crate::scan::BorrowKind::Shared,
            );
            let mutable_request = new_borrow_diagnostics(
                source_line,
                line,
                owner_arg,
                crate::scan::BorrowKind::Mutable,
                owners,
                borrows,
            );
            let shared_request = new_borrow_diagnostics(
                source_line,
                line,
                owner_arg,
                crate::scan::BorrowKind::Shared,
                owners,
                borrows,
            );
            &&& mutable ==> mutable_request == seq![
                crate::report::diag(
                    "E0499"@,
                    line,
                    crate::scan::identifier_column(source_line, owner_arg),
                    crate::report::msg(
                        "cannot borrow `"@,
                        base,
                        "` as mutable more than once at a time"@,
                    ),
                ),
            ]
            &&& !mutable && shared ==> mutable_request == seq![
                crate::report::diag(
                    "E0502"@,
                    line,
                    crate::scan::identifier_column(source_line, owner_arg),
                    crate::report::msg(
                        "cannot borrow `"@,
                        base,
                        "` as mutable because it is also borrowed as shared"@,
                    ),
                ),
            ]
            &&& !mutable && !shared ==> mutable_request == Seq::<DiagnosticView>::empty()
            &&& mutable ==> shared_request == seq![
                crate::report::diag(
                    "E0502"@,
                    line,
                    crate::scan::identifier_column(source_line, owner_arg),
                    crate::report::msg(
                        "cannot borrow `"@,
                        base,
                        "` as shared because it is also borrowed as mutable"@,
                    ),
                ),
            ]
            &&& !mutable ==> shared_request == Seq::<DiagnosticView>::empty()
        }),
{
}

/// A line that uses an owner: a disposed owner is reported as TSB002, a
/// possibly moved one as E0382 "use of possibly moved value", and an
/// available one, not moved in any part, while mutably borrowed, as E0503.
pub proof fn law_owner_use_reports(
    code: Seq<char>,
    source_line: Seq<char>,
    line: int,
    name: Seq<char>,
    o: OwnerModel,
    borrows: Borrows,
)
    requires
        crate::scan::used_place(code, name) is Some,
    ensures
        ({
            let used = crate::scan::used_place(code, name)->0;
            let d = owner_use(code, source_line, line, name, o, borrows);
            &&& o.state == OwnerState::Disposed ==> d == one_report(
                "TSB002"@,
                line,
                source_line,
                used,
                "use of disposed value: `"@,
                name,
            )
            &&& o.state == OwnerState::Available && o.maybe_moved ==> d == one_report(
                "E0382"@,
                line,
                source_line,
                used,
                "use of possibly moved value: `"@,
                name,
            )
            &&& o.state == OwnerState::Available && !o.maybe_moved && o.moved.len() == 0
                && crate::borrows::has_active_kind(
                borrows,
                name,
                line,
                crate::scan::BorrowKind::Mutable,
            ) ==> d == seq![
                crate::report::diag(
                    "E0503"@,
                    line,
                    crate::scan::identifier_column(source_line, used),
                    crate::report::msg("cannot use `"@, name, "` because it is mutably borrowed"@),
                ),
            ]
            &&& o.state == OwnerState::Available && !o.maybe_moved && o.moved.len() == 0
                && !crate::borrows::has_active_kind(
                borrows,
                name,
                line,
                crate::scan::BorrowKind::Mutable,
            ) ==> d == Seq::<DiagnosticView>::empty()
        }),
{
}

/// A line that mentions a borrow of a declared owner after the line that
/// ended it, other than to end it again, is reported as TSB005.
pub proof fn law_use_of_ended_borrow_is_reported(
    code: Seq<char>,
    source_line: Seq<char>,
    line: int,
    owners: Owners,
    name: Seq<char>,
    b: BorrowModel,
)
    requires
        table_get(owners, b.owner) is Some,
        crate::scan::contains_identifier(code, name),
        crate::scan::call_argument(code, "endBorrow"@) != Some(name),
        b.ended matches Some(e) && line > e,
        line > b.created,
    ensures
        borrow_use(code, source_line, line, owners, name, b) == one_report(
            "TSB005"@,
            line,
            source_line,
            name,
            "use of ended borrow: `"@,
            name,
        ),
{
}

/// `move(name)` of an available, unborrowed owner inside a conditional branch
/// (and no loop) marks it possibly moved and leaves its state available; a
/// move of a place inside it records that place as moved out. Neither is reported.
pub proof fn law_conditional_and_partial_moves(
    source_line: Seq<char>,
    line: int,
    place: Seq<char>,
    owners: Owners,
    borrows: Borrows,
    contexts: Seq<crate::scan::Context>,
)
    requires
        strictly_sorted(owners),
        table_get(owners, base_owner(place)) matches Some(o) && o.state == OwnerState::Available,
        !crate::borrows::has_active(borrows, base_owner(place), line),
        !contexts.contains(crate::scan::Context::Loop),
    ensures
        ({
            let base = base_owner(place);
            let o = table_get(owners, base)->0;
            let (after, found) = move_effect(source_line, line, place, owners, borrows, contexts);
            &&& found == Seq::<DiagnosticView>::empty()
            &&& place == base && contexts.contains(crate::scan::Context::Conditional) ==> table_get(
                after,
                base,
            ) == Some(OwnerModel { maybe_moved: true, ..o })
            &&& place != base ==> table_get(after, base) == Some(
                OwnerModel { moved: table_insert(o.moved, place, ()), ..o },
            )
        }),
{
    let base = base_owner(place);
    let o = table_get(owners, base)->0;
    lemma_table_insert(owners, base, OwnerModel { maybe_moved: true, ..o });
    lemma_table_insert(owners, base, OwnerModel { moved: table_insert(o.moved, place, ()), ..o });
}

} // verus!
