//! The ownership analysis: a walk over the lines of a source text that tracks
//! each declared owner (available, moved, partially or possibly moved,
//! disposed), checks borrows against the precomputed borrow lifetimes, and
//! reports resources that are never released.
//!
//! Ownership is opt-in through `Owned<T>` / `Resource<T>` TypeScript types or an
//! immediately preceding `@owned` / `@resource` JSDoc marker in JavaScript.

use vstd::prelude::*;
use crate::borrows::{
    active_borrows, borrow_table, collect_borrows, has_active, has_active_kind, Borrow, BorrowModel,
};
use crate::report::{
    diag, diagnostic, diagnostics_view, msg, push_diagnostic, AnalysisReport, Diagnostic,
    DiagnosticView, ReportView,
};
use crate::scan::{
    base_owner, base_owner_exec, borrow_declaration, borrow_declaration_exec, call_argument,
    call_argument_exec, code_of, code_of_exec, contains_identifier, contains_identifier_exec,
    identifier_column, identifier_column_exec, owned_declaration, owned_declaration_exec,
    places_overlap, places_overlap_exec, update_contexts, update_contexts_exec, used_place,
    used_place_exec, BorrowKind, Context, OwnerKind,
};
use crate::table::{
    table_find, table_get, table_insert, table_insert_exec, table_view,
    Entry,
};
use crate::text::{
    chars_eq, chars_of, contains, contains_exec, lemma_find_from_bounds, lemma_utf8_width_subrange,
    lines, split_lines, utf8_width, utf8_width_of, views,
};

verus! {

broadcast use vstd::string::group_string_axioms;

/// Where a declared value stands.
#[derive(Clone, Copy, Debug, PartialEq, Eq, Structural)]
pub enum OwnerState {
    Available,
    Moved,
    Disposed,
}

/// What the analysis knows of one declared owner.
pub struct OwnerModel {
    pub kind: OwnerKind,
    pub state: OwnerState,
    /// The line and byte column of the declaration.
    pub line: int,
    pub column: int,
    /// Moved inside a conditional branch.
    pub maybe_moved: bool,
    /// The places inside the owner that were moved out, in key order.
    pub moved: Seq<(Seq<char>, ())>,
}

/// An owner, as the analysis keeps it under its name.
pub struct Owner {
    pub kind: OwnerKind,
    pub state: OwnerState,
    pub declaration_line: usize,
    pub declaration_column: usize,
    pub maybe_moved: bool,
    pub moved_places: Vec<Entry<()>>,
}

impl View for Owner {
    type V = OwnerModel;

    open spec fn view(&self) -> OwnerModel {
        OwnerModel {
            kind: self.kind,
            state: self.state,
            line: self.declaration_line as int,
            column: self.declaration_column as int,
            maybe_moved: self.maybe_moved,
            moved: table_view(self.moved_places@),
        }
    }
}

/// The state of the walk after some lines.
pub struct AnalysisState {
    /// The declared owners, in key order.
    pub owners: Seq<(Seq<char>, OwnerModel)>,
    /// The diagnostics so far, in the order found.
    pub diagnostics: Seq<DiagnosticView>,
    /// A JSDoc ownership marker waiting for its declaration.
    pub pending: Option<OwnerKind>,
    /// The blocks entered and not yet left.
    pub contexts: Seq<Context>,
}

pub open spec fn initial_state() -> AnalysisState {
    AnalysisState { owners: seq![], diagnostics: seq![], pending: None, contexts: seq![] }
}

pub type Owners = Seq<(Seq<char>, OwnerModel)>;

pub type Borrows = Seq<(Seq<char>, BorrowModel)>;

/// The diagnostics for a new borrow of `owner_arg` on this line: borrowing a
/// moved or disposed owner, a second mutable borrow, or a shared and a mutable
/// borrow live at once.
pub open spec fn new_borrow_diagnostics(
    source_line: Seq<char>,
    line: int,
    owner_arg: Seq<char>,
    requested: BorrowKind,
    owners: Owners,
    borrows: Borrows,
) -> Seq<DiagnosticView> {
    let base = base_owner(owner_arg);
    match table_get(owners, base) {
        None => seq![],
        Some(o) => {
            let column = identifier_column(source_line, owner_arg);
            match o.state {
                OwnerState::Moved => seq![
                    diag("E0382"@, line, column, msg("use of moved value: `"@, base, "`"@)),
                ],
                OwnerState::Disposed => seq![
                    diag("TSB002"@, line, column, msg("use of disposed value: `"@, base, "`"@)),
                ],
                OwnerState::Available => {
                    let has_mutable = has_active_kind(borrows, base, line, BorrowKind::Mutable);
                    let has_shared = has_active_kind(borrows, base, line, BorrowKind::Shared);
                    if requested == BorrowKind::Mutable && has_mutable {
                        seq![
                            diag(
                                "E0499"@,
                                line,
                                column,
                                msg(
                                    "cannot borrow `"@,
                                    base,
                                    "` as mutable more than once at a time"@,
                                ),
                            ),
                        ]
                    } else if requested == BorrowKind::Mutable && has_shared {
                        seq![
                            diag(
                                "E0502"@,
                                line,
                                column,
                                msg(
                                    "cannot borrow `"@,
                                    base,
                                    "` as mutable because it is also borrowed as shared"@,
                                ),
                            ),
                        ]
                    } else if requested == BorrowKind::Shared && has_mutable {
                        seq![
                            diag(
                                "E0502"@,
                                line,
                                column,
                                msg(
                                    "cannot borrow `"@,
                                    base,
                                    "` as shared because it is also borrowed as mutable"@,
                                ),
                            ),
                        ]
                    } else {
                        seq![]
                    }
                },
            }
        },
    }
}

/// `move(place)`: inside a loop body it is left alone (the line scanner cannot
/// tell how often it runs); elsewhere it is refused while the owner is
/// borrowed; otherwise a moved or disposed owner is reported, a whole owner
/// becomes moved (possibly moved inside a conditional branch), and a place
/// inside it is recorded as moved out.
pub open spec fn move_effect(
    source_line: Seq<char>,
    line: int,
    place: Seq<char>,
    owners: Owners,
    borrows: Borrows,
    contexts: Seq<Context>,
) -> (Owners, Seq<DiagnosticView>) {
    let base = base_owner(place);
    match table_get(owners, base) {
        None => (owners, seq![]),
        Some(o) => {
            let column = identifier_column(source_line, place);
            if contexts.contains(Context::Loop) {
                (owners, seq![])
            } else if has_active(borrows, base, line) {
                (
                    owners,
                    seq![
                        diag(
                            "E0505"@,
                            line,
                            column,
                            msg("cannot move `"@, place, "` because it is borrowed"@),
                        ),
                    ],
                )
            } else {
                match o.state {
                    OwnerState::Moved => (
                        owners,
                        seq![diag("E0382"@, line, column, msg("use of moved value: `"@, place, "`"@))],
                    ),
                    OwnerState::Disposed => (
                        owners,
                        seq![
                            diag(
                                "TSB002"@,
                                line,
                                column,
                                msg("use of disposed value: `"@, place, "`"@),
                            ),
                        ],
                    ),
                    OwnerState::Available => if place == base {
                        if contexts.contains(Context::Conditional) {
                            (table_insert(owners, base, OwnerModel { maybe_moved: true, ..o }), seq![])
                        } else {
                            (
                                table_insert(owners, base, OwnerModel { state: OwnerState::Moved, ..o }),
                                seq![],
                            )
                        }
                    } else {
                        (
                            table_insert(
                                owners,
                                base,
                                OwnerModel { moved: table_insert(o.moved, place, ()), ..o },
                            ),
                            seq![],
                        )
                    },
                }
            }
        },
    }
}

/// `dispose(place)`: refused while the owner is borrowed; otherwise an
/// available owner becomes disposed, and a moved or disposed one is reported.
pub open spec fn dispose_effect(
    source_line: Seq<char>,
    line: int,
    place: Seq<char>,
    owners: Owners,
    borrows: Borrows,
) -> (Owners, Seq<DiagnosticView>) {
    let base = base_owner(place);
    match table_get(owners, base) {
        None => (owners, seq![]),
        Some(o) => {
            let column = identifier_column(source_line, place);
            if has_active(borrows, base, line) {
                (
                    owners,
                    seq![
                        diag(
                            "E0505"@,
                            line,
                            column,
                            msg("cannot dispose `"@, place, "` because it is borrowed"@),
                        ),
                    ],
                )
            } else {
                match o.state {
                    OwnerState::Available => (
                        table_insert(owners, base, OwnerModel { state: OwnerState::Disposed, ..o }),
                        seq![],
                    ),
                    OwnerState::Moved => (
                        owners,
                        seq![diag("E0382"@, line, column, msg("use of moved value: `"@, place, "`"@))],
                    ),
                    OwnerState::Disposed => (
                        owners,
                        seq![
                            diag(
                                "TSB003"@,
                                line,
                                column,
                                msg("value disposed more than once: `"@, place, "`"@),
                            ),
                        ],
                    ),
                }
            }
        },
    }
}

/// The first moved-out place, in key order, that overlaps `used`.
pub open spec fn first_overlap(moved: Seq<(Seq<char>, ())>, used: Seq<char>) -> Option<Seq<char>>
    decreases moved.len(),
{
    if moved.len() == 0 {
        None
    } else if places_overlap(moved[0].0, used) {
        Some(moved[0].0)
    } else {
        first_overlap(moved.drop_first(), used)
    }
}

/// The diagnostic, if any, for a line that uses owner `name`.
pub open spec fn owner_use(
    code: Seq<char>,
    source_line: Seq<char>,
    line: int,
    name: Seq<char>,
    o: OwnerModel,
    borrows: Borrows,
) -> Seq<DiagnosticView> {
    match used_place(code, name) {
        None => seq![],
        Some(used) => {
            let column = identifier_column(source_line, used);
            if o.state == OwnerState::Moved {
                seq![diag("E0382"@, line, column, msg("use of moved value: `"@, name, "`"@))]
            } else if o.state == OwnerState::Disposed {
                seq![diag("TSB002"@, line, column, msg("use of disposed value: `"@, name, "`"@))]
            } else if o.maybe_moved {
                seq![diag("E0382"@, line, column, msg("use of possibly moved value: `"@, name, "`"@))]
            } else if used == name && o.moved.len() > 0 {
                seq![
                    diag("E0382"@, line, column, msg("use of partially moved value: `"@, name, "`"@)),
                ]
            } else {
                match first_overlap(o.moved, used) {
                    Some(m) => seq![
                        diag("E0382"@, line, column, msg("use of moved value: `"@, m, "`"@)),
                    ],
                    None => if has_active_kind(borrows, name, line, BorrowKind::Mutable) {
                        seq![
                            diag(
                                "E0503"@,
                                line,
                                column,
                                msg("cannot use `"@, name, "` because it is mutably borrowed"@),
                            ),
                        ]
                    } else {
                        seq![]
                    },
                }
            }
        },
    }
}

/// The diagnostics for the uses of owners on a line, owners in key order.
pub open spec fn owner_use_diagnostics(
    code: Seq<char>,
    source_line: Seq<char>,
    line: int,
    owners: Owners,
    borrows: Borrows,
) -> Seq<DiagnosticView>
    decreases owners.len(),
{
    if owners.len() == 0 {
        seq![]
    } else {
        owner_use_diagnostics(code, source_line, line, owners.drop_last(), borrows) + owner_use(
            code,
            source_line,
            line,
            owners.last().0,
            owners.last().1,
            borrows,
        )
    }
}

/// The diagnostic, if any, for a line that mentions borrow `name` after the
/// line that ended it. Only borrows of owners with an ownership contract are
/// checked.
pub open spec fn borrow_use(
    code: Seq<char>,
    source_line: Seq<char>,
    line: int,
    owners: Owners,
    name: Seq<char>,
    b: BorrowModel,
) -> Seq<DiagnosticView> {
    if line <= b.created || table_get(owners, b.owner) is None || !contains_identifier(code, name) || call_argument(code, "endBorrow"@)
        == Some(name) {
        seq![]
    } else {
        match b.ended {
            Some(e) => if line > e {
                seq![
                    diag(
                        "TSB005"@,
                        line,
                        identifier_column(source_line, name),
                        msg("use of ended borrow: `"@, name, "`"@),
                    ),
                ]
            } else {
                seq![]
            },
            None => seq![],
        }
    }
}

/// The diagnostics for the borrows that a line mentions, borrows in key order.
pub open spec fn borrow_use_diagnostics(
    code: Seq<char>,
    source_line: Seq<char>,
    line: int,
    owners: Owners,
    borrows: Borrows,
) -> Seq<DiagnosticView>
    decreases borrows.len(),
{
    if borrows.len() == 0 {
        seq![]
    } else {
        borrow_use_diagnostics(code, source_line, line, owners, borrows.drop_last()) + borrow_use(
            code,
            source_line,
            line,
            owners,
            borrows.last().0,
            borrows.last().1,
        )
    }
}

/// One line of the walk. A JSDoc marker waits for the next code line; an
/// ownership declaration (re)declares its owner; any other line first has its
/// borrow uses checked and then is one of: a borrow declaration, an
/// `endBorrow`, a `move`, a `dispose`, or an ordinary line whose uses of owners
/// are checked. Every line but markers and empty lines updates the block stack.
pub open spec fn step(
    st: AnalysisState,
    borrows: Borrows,
    code: Seq<char>,
    source_line: Seq<char>,
    line: int,
) -> AnalysisState {
    if contains(code, "@resource"@) {
        AnalysisState { pending: Some(OwnerKind::Resource), ..st }
    } else if contains(code, "@owned"@) {
        AnalysisState { pending: Some(OwnerKind::Owned), ..st }
    } else if code.len() == 0 {
        st
    } else {
        let contexts = update_contexts(code, st.contexts);
        match owned_declaration(code, st.pending) {
            Some((name, kind)) => AnalysisState {
                owners: table_insert(
                    st.owners,
                    name,
                    OwnerModel {
                        kind,
                        state: OwnerState::Available,
                        line,
                        column: identifier_column(source_line, name),
                        maybe_moved: false,
                        moved: seq![],
                    },
                ),
                pending: None,
                contexts,
                ..st
            },
            None => {
                let d = st.diagnostics + borrow_use_diagnostics(
                    code,
                    source_line,
                    line,
                    st.owners,
                    borrows,
                );
                match borrow_declaration(code) {
                    Some((_name, owner_arg, kind)) => AnalysisState {
                        diagnostics: d + new_borrow_diagnostics(
                            source_line,
                            line,
                            owner_arg,
                            kind,
                            st.owners,
                            borrows,
                        ),
                        pending: None,
                        contexts,
                        ..st
                    },
                    None => if call_argument(code, "endBorrow"@) is Some {
                        AnalysisState { diagnostics: d, pending: None, contexts, ..st }
                    } else {
                        match call_argument(code, "move"@) {
                            Some(place) => {
                                let (owners, found) = move_effect(
                                    source_line,
                                    line,
                                    place,
                                    st.owners,
                                    borrows,
                                    st.contexts,
                                );
                                AnalysisState {
                                    owners,
                                    diagnostics: d + found,
                                    pending: None,
                                    contexts,
                                }
                            },
                            None => match call_argument(code, "dispose"@) {
                                Some(place) => {
                                    let (owners, found) = dispose_effect(
                                        source_line,
                                        line,
                                        place,
                                        st.owners,
                                        borrows,
                                    );
                                    AnalysisState {
                                        owners,
                                        diagnostics: d + found,
                                        pending: None,
                                        contexts,
                                    }
                                },
                                None => AnalysisState {
                                    diagnostics: d + owner_use_diagnostics(
                                        code,
                                        source_line,
                                        line,
                                        st.owners,
                                        borrows,
                                    ),
                                    pending: None,
                                    contexts,
                                    ..st
                                },
                            },
                        }
                    },
                }
            },
        }
    }
}

/// The state after the first `n` lines.
pub open spec fn run(
    borrows: Borrows,
    codes: Seq<Seq<char>>,
    source_lines: Seq<Seq<char>>,
    n: int,
) -> AnalysisState
    decreases n,
{
    if n <= 0 {
        initial_state()
    } else {
        step(run(borrows, codes, source_lines, n - 1), borrows, codes[n - 1], source_lines[n - 1], n)
    }
}

/// A resource still available at the end leaves scope without being disposed.
pub open spec fn leak_diagnostics(owners: Owners) -> Seq<DiagnosticView>
    decreases owners.len(),
{
    if owners.len() == 0 {
        seq![]
    } else {
        let (name, o) = owners.last();
        leak_diagnostics(owners.drop_last()) + if o.kind == OwnerKind::Resource && o.state
            == OwnerState::Available {
            seq![
                diag(
                    "TSB001"@,
                    o.line,
                    o.column,
                    msg("resource may leave scope without being disposed: `"@, name, "`"@),
                ),
            ]
        } else {
            seq![]
        }
    }
}

/// The code read from each source line.
pub open spec fn code_lines(source_lines: Seq<Seq<char>>) -> Seq<Seq<char>> {
    Seq::new(source_lines.len(), |i: int| code_of(source_lines[i]))
}

/// The analysis of a source text: the diagnostics of the walk over its lines,
/// then the resources that leave scope, with the number of owners and borrows declared.
pub open spec fn analysis(source: Seq<char>) -> ReportView {
    let source_lines = lines(source);
    let codes = code_lines(source_lines);
    let borrows = borrow_table(codes, codes.len() as int);
    let st = run(borrows, codes, source_lines, codes.len() as int);
    ReportView {
        diagnostics: st.diagnostics + leak_diagnostics(st.owners),
        tracked_owners: st.owners.len() as int,
        tracked_borrows: borrows.len() as int,
    }
}

// ---------------------------------------------------------------------------
// Implementation
// ---------------------------------------------------------------------------

proof fn lemma_append_empty(d: Seq<DiagnosticView>)
    ensures
        d + seq![] == d,
{
    assert(d + seq![] =~= d);
}

proof fn lemma_append_assoc(a: Seq<DiagnosticView>, b: Seq<DiagnosticView>, c: Seq<DiagnosticView>)
    ensures
        a + b + c == a + (b + c),
{
    assert(a + b + c =~= a + (b + c));
}

/// The entry found for `k` is what `table_get` returns.
proof fn lemma_found_get<V>(t: Seq<(Seq<char>, V)>, k: Seq<char>, i: int)
    requires
        0 <= i < t.len(),
        i == crate::table::lower_bound(t, k),
        t[i].0 == k,
    ensures
        table_get(t, k) == Some(t[i].1),
        forall|v: V| table_insert(t, k, v) == t.update(i, (k, v)),
{
}

/// Puts the owner `o` back at `idx` under `key`.
fn put_owner(owners: &mut Vec<Entry<Owner>>, idx: usize, key: Vec<char>, o: Owner)
    requires
        idx <= old(owners).len(),
    ensures
        final(owners)@ == old(owners)@.insert(idx as int, Entry { key, value: o }),
{
    owners.insert(idx, Entry { key, value: o });
}

fn contains_context(contexts: &Vec<Context>, c: Context) -> (r: bool)
    ensures
        r == contexts@.contains(c),
{
    let mut i: usize = 0;
    while i < contexts.len()
        invariant
            i <= contexts.len(),
            forall|j: int| 0 <= j < i ==> contexts@[j] != c,
        decreases contexts.len() - i,
    {
        if contexts[i] == c {
            return true;
        }
        i += 1;
    }
    false
}

fn check_new_borrow(
    source_line: &Vec<char>,
    line: usize,
    owner_arg: &Vec<char>,
    requested: BorrowKind,
    owners: &Vec<Entry<Owner>>,
    borrows: &Vec<Entry<Borrow>>,
    diagnostics: &mut Vec<Diagnostic>,
)
    requires
        utf8_width(source_line@) <= usize::MAX,
    ensures
        diagnostics_view(final(diagnostics)@) == diagnostics_view(old(diagnostics)@)
            + new_borrow_diagnostics(
            source_line@,
            line as int,
            owner_arg@,
            requested,
            table_view(owners@),
            table_view(borrows@),
        ),
{
    proof {
        lemma_append_empty(diagnostics_view(diagnostics@));
    }
    let base = base_owner_exec(owner_arg);
    let idx = match table_find(owners, &base) {
        Some(i) => i,
        None => {
            return;
        },
    };
    proof {
        lemma_found_get(table_view(owners@), base@, idx as int);
    }
    let column = identifier_column_exec(source_line, owner_arg);
    match owners[idx].value.state {
        OwnerState::Moved => {
            push_diagnostic(
                diagnostics,
                diagnostic("E0382", line, column, "use of moved value: `", &base, "`"),
            );
        },
        OwnerState::Disposed => {
            push_diagnostic(
                diagnostics,
                diagnostic("TSB002", line, column, "use of disposed value: `", &base, "`"),
            );
        },
        OwnerState::Available => {
            let (_any, has_shared, has_mutable) = active_borrows(borrows, &base, line);
            if requested == BorrowKind::Mutable && has_mutable {
                push_diagnostic(
                    diagnostics,
                    diagnostic(
                        "E0499",
                        line,
                        column,
                        "cannot borrow `",
                        &base,
                        "` as mutable more than once at a time",
                    ),
                );
            } else if requested == BorrowKind::Mutable && has_shared {
                push_diagnostic(
                    diagnostics,
                    diagnostic(
                        "E0502",
                        line,
                        column,
                        "cannot borrow `",
                        &base,
                        "` as mutable because it is also borrowed as shared",
                    ),
                );
            } else if requested == BorrowKind::Shared && has_mutable {
                push_diagnostic(
                    diagnostics,
                    diagnostic(
                        "E0502",
                        line,
                        column,
                        "cannot borrow `",
                        &base,
                        "` as shared because it is also borrowed as mutable",
                    ),
                );
            }
        },
    }
}

fn check_move(
    source_line: &Vec<char>,
    line: usize,
    place: &Vec<char>,
    owners: &mut Vec<Entry<Owner>>,
    borrows: &Vec<Entry<Borrow>>,
    contexts: &Vec<Context>,
    diagnostics: &mut Vec<Diagnostic>,
)
    requires
        utf8_width(source_line@) <= usize::MAX,
    ensures
        table_view(final(owners)@) == move_effect(
            source_line@,
            line as int,
            place@,
            table_view(old(owners)@),
            table_view(borrows@),
            contexts@,
        ).0,
        diagnostics_view(final(diagnostics)@) == diagnostics_view(old(diagnostics)@) + move_effect(
            source_line@,
            line as int,
            place@,
            table_view(old(owners)@),
            table_view(borrows@),
            contexts@,
        ).1,
{
    proof {
        lemma_append_empty(diagnostics_view(diagnostics@));
    }
    let base = base_owner_exec(place);
    let idx = match table_find(owners, &base) {
        Some(i) => i,
        None => {
            return;
        },
    };
    proof {
        lemma_found_get(table_view(owners@), base@, idx as int);
    }
    let column = identifier_column_exec(source_line, place);
    if contains_context(contexts, Context::Loop) {
        return;
    }
    let (any, _shared, _mutable) = active_borrows(borrows, &base, line);
    if any {
        push_diagnostic(
            diagnostics,
            diagnostic("E0505", line, column, "cannot move `", place, "` because it is borrowed"),
        );
        return;
    }
    match owners[idx].value.state {
        OwnerState::Moved => {
            push_diagnostic(
                diagnostics,
                diagnostic("E0382", line, column, "use of moved value: `", place, "`"),
            );
        },
        OwnerState::Disposed => {
            push_diagnostic(
                diagnostics,
                diagnostic("TSB002", line, column, "use of disposed value: `", place, "`"),
            );
        },
        OwnerState::Available => {
            let Entry { key, value: mut o } = owners.remove(idx);
            if chars_eq(place, &base) {
                if contains_context(contexts, Context::Conditional) {
                    o.maybe_moved = true;
                } else {
                    o.state = OwnerState::Moved;
                }
            } else {
                table_insert_exec(&mut o.moved_places, crate::scan::copy_chars(place), ());
            }
            let ghost new_view = o@;
            put_owner(owners, idx, key, o);
            assert(table_view(owners@) =~= table_view(old(owners)@).update(
                idx as int,
                (base@, new_view),
            ));
        },
    }
}

fn check_dispose(
    source_line: &Vec<char>,
    line: usize,
    place: &Vec<char>,
    owners: &mut Vec<Entry<Owner>>,
    borrows: &Vec<Entry<Borrow>>,
    diagnostics: &mut Vec<Diagnostic>,
)
    requires
        utf8_width(source_line@) <= usize::MAX,
    ensures
        table_view(final(owners)@) == dispose_effect(
            source_line@,
            line as int,
            place@,
            table_view(old(owners)@),
            table_view(borrows@),
        ).0,
        diagnostics_view(final(diagnostics)@) == diagnostics_view(old(diagnostics)@)
            + dispose_effect(
            source_line@,
            line as int,
            place@,
            table_view(old(owners)@),
            table_view(borrows@),
        ).1,
{
    proof {
        lemma_append_empty(diagnostics_view(diagnostics@));
    }
    let base = base_owner_exec(place);
    let idx = match table_find(owners, &base) {
        Some(i) => i,
        None => {
            return;
        },
    };
    proof {
        lemma_found_get(table_view(owners@), base@, idx as int);
    }
    let column = identifier_column_exec(source_line, place);
    let (any, _shared, _mutable) = active_borrows(borrows, &base, line);
    if any {
        push_diagnostic(
            diagnostics,
            diagnostic("E0505", line, column, "cannot dispose `", place, "` because it is borrowed"),
        );
        return;
    }
    match owners[idx].value.state {
        OwnerState::Available => {
            let Entry { key, value: mut o } = owners.remove(idx);
            o.state = OwnerState::Disposed;
            let ghost new_view = o@;
            put_owner(owners, idx, key, o);
            assert(table_view(owners@) =~= table_view(old(owners)@).update(
                idx as int,
                (base@, new_view),
            ));
        },
        OwnerState::Moved => {
            push_diagnostic(
                diagnostics,
                diagnostic("E0382", line, column, "use of moved value: `", place, "`"),
            );
        },
        OwnerState::Disposed => {
            push_diagnostic(
                diagnostics,
                diagnostic("TSB003", line, column, "value disposed more than once: `", place, "`"),
            );
        },
    }
}

/// The position of the first moved-out place that overlaps `used`.
fn first_overlap_exec(moved: &Vec<Entry<()>>, used: &Vec<char>) -> (r: Option<usize>)
    ensures
        r matches Some(i) ==> i < moved.len() && first_overlap(table_view(moved@), used@) == Some(
            moved@[i as int].key@,
        ),
        r is None ==> first_overlap(table_view(moved@), used@) is None,
{
    let ghost t = table_view(moved@);
    let mut i: usize = 0;
    assert(t.skip(0) =~= t);
    while i < moved.len()
        invariant
            i <= moved.len(),
            t == table_view(moved@),
            first_overlap(t, used@) == first_overlap(t.skip(i as int), used@),
        decreases moved.len() - i,
    {
        assert(t.skip(i as int)[0] == t[i as int]);
        if places_overlap_exec(&moved[i].key, used) {
            return Some(i);
        }
        assert(t.skip(i as int).drop_first() =~= t.skip(i + 1));
        i += 1;
    }
    None
}

fn owner_use_exec(
    code: &Vec<char>,
    source_line: &Vec<char>,
    line: usize,
    name: &Vec<char>,
    o: &Owner,
    borrows: &Vec<Entry<Borrow>>,
    diagnostics: &mut Vec<Diagnostic>,
)
    requires
        utf8_width(source_line@) <= usize::MAX,
    ensures
        diagnostics_view(final(diagnostics)@) == diagnostics_view(old(diagnostics)@) + owner_use(
            code@,
            source_line@,
            line as int,
            name@,
            o@,
            table_view(borrows@),
        ),
{
    proof {
        lemma_append_empty(diagnostics_view(diagnostics@));
    }
    let used = match used_place_exec(code, name) {
        Some(u) => u,
        None => {
            return;
        },
    };
    let column = identifier_column_exec(source_line, &used);
    if o.state == OwnerState::Moved {
        push_diagnostic(
            diagnostics,
            diagnostic("E0382", line, column, "use of moved value: `", name, "`"),
        );
    } else if o.state == OwnerState::Disposed {
        push_diagnostic(
            diagnostics,
            diagnostic("TSB002", line, column, "use of disposed value: `", name, "`"),
        );
    } else if o.maybe_moved {
        push_diagnostic(
            diagnostics,
            diagnostic("E0382", line, column, "use of possibly moved value: `", name, "`"),
        );
    } else if chars_eq(&used, name) && o.moved_places.len() > 0 {
        push_diagnostic(
            diagnostics,
            diagnostic("E0382", line, column, "use of partially moved value: `", name, "`"),
        );
    } else {
        match first_overlap_exec(&o.moved_places, &used) {
            Some(i) => {
                push_diagnostic(
                    diagnostics,
                    diagnostic(
                        "E0382",
                        line,
                        column,
                        "use of moved value: `",
                        &o.moved_places[i].key,
                        "`",
                    ),
                );
            },
            None => {
                let (_any, _shared, has_mutable) = active_borrows(borrows, name, line);
                if has_mutable {
                    push_diagnostic(
                        diagnostics,
                        diagnostic(
                            "E0503",
                            line,
                            column,
                            "cannot use `",
                            name,
                            "` because it is mutably borrowed",
                        ),
                    );
                }
            },
        }
    }
}

fn check_owner_uses(
    code: &Vec<char>,
    source_line: &Vec<char>,
    line: usize,
    owners: &Vec<Entry<Owner>>,
    borrows: &Vec<Entry<Borrow>>,
    diagnostics: &mut Vec<Diagnostic>,
)
    requires
        utf8_width(source_line@) <= usize::MAX,
    ensures
        diagnostics_view(final(diagnostics)@) == diagnostics_view(old(diagnostics)@)
            + owner_use_diagnostics(
            code@,
            source_line@,
            line as int,
            table_view(owners@),
            table_view(borrows@),
        ),
{
    let ghost t = table_view(owners@);
    let ghost start = diagnostics_view(diagnostics@);
    let mut i: usize = 0;
    assert(t.take(0) =~= Seq::<(Seq<char>, OwnerModel)>::empty());
    assert(start + seq![] =~= start);
    while i < owners.len()
        invariant
            i <= owners.len(),
            t == table_view(owners@),
            utf8_width(source_line@) <= usize::MAX,
            diagnostics_view(diagnostics@) == start + owner_use_diagnostics(
                code@,
                source_line@,
                line as int,
                t.take(i as int),
                table_view(borrows@),
            ),
        decreases owners.len() - i,
    {
        owner_use_exec(code, source_line, line, &owners[i].key, &owners[i].value, borrows, diagnostics);
        proof {
            assert(t.take(i + 1).drop_last() =~= t.take(i as int));
            assert(t.take(i + 1).last() == t[i as int]);
            lemma_append_assoc(
                start,
                owner_use_diagnostics(code@, source_line@, line as int, t.take(i as int), table_view(borrows@)),
                owner_use(code@, source_line@, line as int, t[i as int].0, t[i as int].1, table_view(borrows@)),
            );
        }
        i += 1;
    }
    assert(t.take(i as int) =~= t);
}

fn borrow_use_exec(
    code: &Vec<char>,
    source_line: &Vec<char>,
    line: usize,
    owners: &Vec<Entry<Owner>>,
    name: &Vec<char>,
    b: &Borrow,
    diagnostics: &mut Vec<Diagnostic>,
)
    requires
        utf8_width(source_line@) <= usize::MAX,
    ensures
        diagnostics_view(final(diagnostics)@) == diagnostics_view(old(diagnostics)@) + borrow_use(
            code@,
            source_line@,
            line as int,
            table_view(owners@),
            name@,
            b@,
        ),
{
    proof {
        lemma_append_empty(diagnostics_view(diagnostics@));
    }
    if line <= b.created_line || table_find(owners, &b.owner).is_none()
        || !contains_identifier_exec(code, name) {
        return;
    }
    match call_argument_exec(code, "endBorrow") {
        Some(argument) => {
            if chars_eq(&argument, name) {
                return;
            }
        },
        None => {},
    }
    match b.ended_line {
        Some(e) => {
            if line > e {
                let column = identifier_column_exec(source_line, name);
                push_diagnostic(
                    diagnostics,
                    diagnostic("TSB005", line, column, "use of ended borrow: `", name, "`"),
                );
            }
        },
        None => {},
    }
}

fn check_borrow_uses(
    code: &Vec<char>,
    source_line: &Vec<char>,
    line: usize,
    owners: &Vec<Entry<Owner>>,
    borrows: &Vec<Entry<Borrow>>,
    diagnostics: &mut Vec<Diagnostic>,
)
    requires
        utf8_width(source_line@) <= usize::MAX,
    ensures
        diagnostics_view(final(diagnostics)@) == diagnostics_view(old(diagnostics)@)
            + borrow_use_diagnostics(
            code@,
            source_line@,
            line as int,
            table_view(owners@),
            table_view(borrows@),
        ),
{
    let ghost t = table_view(borrows@);
    let ghost start = diagnostics_view(diagnostics@);
    let mut i: usize = 0;
    assert(t.take(0) =~= Seq::<(Seq<char>, BorrowModel)>::empty());
    assert(start + seq![] =~= start);
    while i < borrows.len()
        invariant
            i <= borrows.len(),
            t == table_view(borrows@),
            utf8_width(source_line@) <= usize::MAX,
            diagnostics_view(diagnostics@) == start + borrow_use_diagnostics(
                code@,
                source_line@,
                line as int,
                table_view(owners@),
                t.take(i as int),
            ),
        decreases borrows.len() - i,
    {
        borrow_use_exec(
            code,
            source_line,
            line,
            owners,
            &borrows[i].key,
            &borrows[i].value,
            diagnostics,
        );
        proof {
            assert(t.take(i + 1).drop_last() =~= t.take(i as int));
            assert(t.take(i + 1).last() == t[i as int]);
            lemma_append_assoc(
                start,
                borrow_use_diagnostics(
                    code@,
                    source_line@,
                    line as int,
                    table_view(owners@),
                    t.take(i as int),
                ),
                borrow_use(
                    code@,
                    source_line@,
                    line as int,
                    table_view(owners@),
                    t[i as int].0,
                    t[i as int].1,
                ),
            );
        }
        i += 1;
    }
    assert(t.take(i as int) =~= t);
}

/// The walk's state while it runs.
pub struct Analyzer {
    pub owners: Vec<Entry<Owner>>,
    pub diagnostics: Vec<Diagnostic>,
    pub pending: Option<OwnerKind>,
    pub contexts: Vec<Context>,
}

impl View for Analyzer {
    type V = AnalysisState;

    open spec fn view(&self) -> AnalysisState {
        AnalysisState {
            owners: table_view(self.owners@),
            diagnostics: diagnostics_view(self.diagnostics@),
            pending: self.pending,
            contexts: self.contexts@,
        }
    }
}

/// One line of the walk, as `step` states it.
fn analyze_line(
    st: &mut Analyzer,
    borrows: &Vec<Entry<Borrow>>,
    code: &Vec<char>,
    source_line: &Vec<char>,
    line: usize,
)
    requires
        utf8_width(source_line@) <= usize::MAX,
    ensures
        final(st)@ == step(old(st)@, table_view(borrows@), code@, source_line@, line as int),
{
    if contains_exec(code, &chars_of("@resource")) {
        st.pending = Some(OwnerKind::Resource);
        return;
    }
    if contains_exec(code, &chars_of("@owned")) {
        st.pending = Some(OwnerKind::Owned);
        return;
    }
    if code.len() == 0 {
        return;
    }
    match owned_declaration_exec(code, st.pending) {
        Some((name, kind)) => {
            let column = identifier_column_exec(source_line, &name);
            let owner = Owner {
                kind,
                state: OwnerState::Available,
                declaration_line: line,
                declaration_column: column,
                maybe_moved: false,
                moved_places: Vec::new(),
            };
            assert(owner@.moved =~= seq![]);
            table_insert_exec(&mut st.owners, name, owner);
            st.pending = None;
            update_contexts_exec(code, &mut st.contexts);
            return;
        },
        None => {},
    }
    st.pending = None;
    check_borrow_uses(code, source_line, line, &st.owners, borrows, &mut st.diagnostics);
    match borrow_declaration_exec(code) {
        Some((_name, owner_arg, kind)) => {
            check_new_borrow(
                source_line,
                line,
                &owner_arg,
                kind,
                &st.owners,
                borrows,
                &mut st.diagnostics,
            );
            update_contexts_exec(code, &mut st.contexts);
            return;
        },
        None => {},
    }
    if call_argument_exec(code, "endBorrow").is_some() {
        update_contexts_exec(code, &mut st.contexts);
        return;
    }
    match call_argument_exec(code, "move") {
        Some(place) => {
            check_move(
                source_line,
                line,
                &place,
                &mut st.owners,
                borrows,
                &st.contexts,
                &mut st.diagnostics,
            );
            update_contexts_exec(code, &mut st.contexts);
            return;
        },
        None => {},
    }
    match call_argument_exec(code, "dispose") {
        Some(place) => {
            check_dispose(source_line, line, &place, &mut st.owners, borrows, &mut st.diagnostics);
            update_contexts_exec(code, &mut st.contexts);
            return;
        },
        None => {},
    }
    check_owner_uses(code, source_line, line, &st.owners, borrows, &mut st.diagnostics);
    update_contexts_exec(code, &mut st.contexts);
}

/// No line of a text is wider than the text.
pub proof fn lemma_lines_width(s: Seq<char>)
    ensures
        forall|k: int| 0 <= k < lines(s).len() ==> utf8_width(#[trigger] lines(s)[k]) <= utf8_width(s),
    decreases s.len(),
{
    if s.len() > 0 {
        let nl = seq!['\n'];
        match crate::text::find(s, nl) {
            Some(i) => {
                lemma_find_from_bounds(s, nl, 0);
                let rest = s.skip(i + 1);
                lemma_lines_width(rest);
                lemma_utf8_width_subrange(s, i + 1, s.len() as int);
                assert(rest =~= s.subrange(i + 1, s.len() as int));
                let first = s.take(i);
                assert(first =~= s.subrange(0, i));
                lemma_utf8_width_subrange(s, 0, i);
                if first.len() > 0 {
                    lemma_utf8_width_subrange(first, 0, first.len() - 1);
                    assert(first.drop_last() =~= first.subrange(0, first.len() - 1));
                }
                assert forall|k: int| 0 <= k < lines(s).len() implies utf8_width(
                    #[trigger] lines(s)[k],
                ) <= utf8_width(s) by {
                    if k > 0 {
                        assert(lines(s)[k] == lines(rest)[k - 1]);
                    }
                }
            },
            None => {},
        }
    }
}

/// Analyze source and return diagnostics together with adoption statistics.
///
/// The statistics let CI distinguish a clean analysis from a source tree that
/// has not declared any ownership contracts yet.
pub fn analyze_report(source: &str) -> (report: AnalysisReport)
    ensures
        report@ == analysis(source@),
{
    // The text is in memory, so its width fits in a `usize`; every column
    // computed below is bounded by it.
    let _width = utf8_width_of(source);
    let text = chars_of(source);
    let source_lines = split_lines(&text);
    let ghost ss = views(source_lines@);
    let ghost cs = code_lines(ss);
    proof {
        lemma_lines_width(source@);
    }
    let n = source_lines.len();
    let mut codes: Vec<Vec<char>> = Vec::new();
    let mut i: usize = 0;
    while i < n
        invariant
            n == source_lines.len(),
            ss == views(source_lines@),
            cs == code_lines(ss),
            i <= n,
            codes.len() == i,
            cs.len() == n,
            views(codes@) == cs.take(i as int),
        decreases n - i,
    {
        let code = code_of_exec(&source_lines[i]);
        assert(ss[i as int] == source_lines@[i as int]@);
        assert(cs[i as int] == code@);
        let ghost before = codes@;
        let ghost code_view = code@;
        codes.push(code);
        assert(codes@[i as int]@ == code_view);
        assert forall|k: int| 0 <= k < i + 1 implies #[trigger] views(codes@)[k] == cs.take(i + 1)[k] by {
            if k < i {
                assert(views(before)[k] == cs.take(i as int)[k]);
            }
        }
        assert(views(codes@) =~= cs.take(i + 1));
        i += 1;
    }
    assert(cs.take(n as int) =~= cs);
    let borrows = collect_borrows(&codes);
    let ghost bs = table_view(borrows@);
    let mut st = Analyzer {
        owners: Vec::new(),
        diagnostics: Vec::new(),
        pending: None,
        contexts: Vec::new(),
    };
    assert(st@ =~= initial_state()) by {
        assert(st@.owners =~= seq![]);
        assert(st@.diagnostics =~= seq![]);
        assert(st@.contexts =~= seq![]);
    }
    let mut i: usize = 0;
    while i < n
        invariant
            n == source_lines.len(),
            n == codes.len(),
            ss == views(source_lines@),
            cs == views(codes@),
            ss == lines(source@),
            cs == code_lines(ss),
            bs == table_view(borrows@),
            forall|k: int| 0 <= k < ss.len() ==> utf8_width(#[trigger] ss[k]) <= utf8_width(source@),
            utf8_width(source@) <= usize::MAX,
            i <= n,
            st@ == run(bs, cs, ss, i as int),
        decreases n - i,
    {
        assert(ss[i as int] == source_lines@[i as int]@);
        analyze_line(&mut st, &borrows, &codes[i], &source_lines[i], i + 1);
        i += 1;
    }
    let ghost walked = st@;
    let mut diagnostics = st.diagnostics;
    let owners = st.owners;
    let ghost t = table_view(owners@);
    let mut j: usize = 0;
    assert(t.take(0) =~= Seq::<(Seq<char>, OwnerModel)>::empty());
    assert(walked.diagnostics + seq![] =~= walked.diagnostics);
    while j < owners.len()
        invariant
            j <= owners.len(),
            t == table_view(owners@),
            diagnostics_view(diagnostics@) == walked.diagnostics + leak_diagnostics(t.take(j as int)),
        decreases owners.len() - j,
    {
        let e = &owners[j];
        proof {
            assert(t.take(j + 1).drop_last() =~= t.take(j as int));
            assert(t.take(j + 1).last() == t[j as int]);
        }
        if e.value.kind == OwnerKind::Resource && e.value.state == OwnerState::Available {
            push_diagnostic(
                &mut diagnostics,
                diagnostic(
                    "TSB001",
                    e.value.declaration_line,
                    e.value.declaration_column,
                    "resource may leave scope without being disposed: `",
                    &e.key,
                    "`",
                ),
            );
            proof {
                lemma_append_assoc(
                    walked.diagnostics,
                    leak_diagnostics(t.take(j as int)),
                    leak_diagnostics(t.take(j + 1)).subrange(
                        leak_diagnostics(t.take(j as int)).len() as int,
                        leak_diagnostics(t.take(j + 1)).len() as int,
                    ),
                );
            }
            assert(diagnostics_view(diagnostics@) =~= walked.diagnostics + leak_diagnostics(
                t.take(j + 1),
            ));
        } else {
            assert(leak_diagnostics(t.take(j + 1)) =~= leak_diagnostics(t.take(j as int)));
        }
        j += 1;
    }
    assert(t.take(j as int) =~= t);
    AnalysisReport { diagnostics, tracked_owners: owners.len(), tracked_borrows: borrows.len() }
}

/// Analyze one JavaScript or TypeScript source file.
///
/// Ownership is opt-in through `Owned<T>` / `Resource<T>` TypeScript types or an
/// immediately preceding `@owned` / `@resource` JSDoc marker in JavaScript.
pub fn analyze(source: &str) -> (diagnostics: Vec<Diagnostic>)
    ensures
        diagnostics_view(diagnostics@) == analysis(source@).diagnostics,
{
    analyze_report(source).diagnostics
}

} // verus!
