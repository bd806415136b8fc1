//! Borrow lifetimes: each borrow is collected before the analysis walks the
//! lines, with the line of its last use and of its explicit end, so that a
//! borrow is live from its declaration up to its last use (non-lexically).

use vstd::prelude::*;
use crate::scan::{
    base_owner, base_owner_exec, borrow_declaration, borrow_declaration_exec, call_argument,
    call_argument_exec, contains_identifier, contains_identifier_exec, BorrowKind,
};
use crate::table::{table_insert, table_insert_exec, table_view, Entry};
use crate::text::{chars_eq, views};

verus! {

/// What the analysis knows of one borrow.
pub struct BorrowModel {
    /// The owner borrowed from (the base of the borrowed place).
    pub owner: Seq<char>,
    pub kind: BorrowKind,
    /// The line that declares the borrow.
    pub created: int,
    /// The last line that mentions the borrow (its declaration when no later line does).
    pub last_use: int,
    /// The first later line that ends it with `endBorrow(name)`.
    pub ended: Option<int>,
}

/// A borrow, as the analysis keeps it under the borrow's name.
pub struct Borrow {
    pub owner: Vec<char>,
    pub kind: BorrowKind,
    pub created_line: usize,
    pub last_use_line: usize,
    pub ended_line: Option<usize>,
}

impl View for Borrow {
    type V = BorrowModel;

    open spec fn view(&self) -> BorrowModel {
        BorrowModel {
            owner: self.owner@,
            kind: self.kind,
            created: self.created_line as int,
            last_use: self.last_use_line as int,
            ended: match self.ended_line {
                Some(e) => Some(e as int),
                None => None,
            },
        }
    }
}

/// The line number of the last line among those after line `i + 1` and
/// before line `end + 1` (0-based indices `i + 1 .. end`) that mentions `name`
/// as an identifier, or `i + 1` when none does.
pub open spec fn last_mention(codes: Seq<Seq<char>>, name: Seq<char>, i: int, end: int) -> int
    decreases end - i,
{
    if end <= i + 1 {
        i + 1
    } else if contains_identifier(codes[end - 1], name) {
        end
    } else {
        last_mention(codes, name, i, end - 1)
    }
}

/// The line number of the first line among indices `i + 1 .. end` whose
/// `endBorrow(...)` call names `name`.
pub open spec fn first_end(codes: Seq<Seq<char>>, name: Seq<char>, i: int, end: int) -> Option<int>
    decreases end - i,
{
    if end <= i + 1 {
        None
    } else {
        match first_end(codes, name, i, end - 1) {
            Some(x) => Some(x),
            None => if call_argument(codes[end - 1], "endBorrow"@) == Some(name) {
                Some(end)
            } else {
                None
            },
        }
    }
}

/// The borrow that line `i` (0-based) declares, under its name.
pub open spec fn borrow_record(codes: Seq<Seq<char>>, i: int) -> Option<(Seq<char>, BorrowModel)> {
    match borrow_declaration(codes[i]) {
        Some((name, owner, kind)) => Some(
            (
                name,
                BorrowModel {
                    owner: base_owner(owner),
                    kind,
                    created: i + 1,
                    last_use: last_mention(codes, name, i, codes.len() as int),
                    ended: first_end(codes, name, i, codes.len() as int),
                },
            ),
        ),
        None => None,
    }
}

/// The borrows declared by the first `n` lines; a later declaration of a name
/// replaces an earlier one.
pub open spec fn borrow_table(codes: Seq<Seq<char>>, n: int) -> Seq<(Seq<char>, BorrowModel)>
    decreases n,
{
    if n <= 0 {
        seq![]
    } else {
        let t = borrow_table(codes, n - 1);
        match borrow_record(codes, n - 1) {
            Some((name, b)) => table_insert(t, name, b),
            None => t,
        }
    }
}

/// The borrow is live at `line`: after its declaration, up to its last use,
/// and not after the line that ends it.
pub open spec fn is_active_at(b: BorrowModel, line: int) -> bool {
    let until = match b.ended {
        Some(e) => if e < b.last_use {
            e
        } else {
            b.last_use
        },
        None => b.last_use,
    };
    b.created < line <= until
}

/// Some borrow of `owner` is live at `line`.
pub open spec fn has_active(borrows: Seq<(Seq<char>, BorrowModel)>, owner: Seq<char>, line: int) -> bool {
    exists|i: int|
        0 <= i < borrows.len() && (#[trigger] borrows[i]).1.owner == owner && is_active_at(
            borrows[i].1,
            line,
        )
}

/// Some borrow of `owner` of the given kind is live at `line`.
pub open spec fn has_active_kind(
    borrows: Seq<(Seq<char>, BorrowModel)>,
    owner: Seq<char>,
    line: int,
    kind: BorrowKind,
) -> bool {
    exists|i: int|
        0 <= i < borrows.len() && (#[trigger] borrows[i]).1.owner == owner && borrows[i].1.kind
            == kind && is_active_at(borrows[i].1, line)
}

pub fn is_active_at_exec(b: &Borrow, line: usize) -> (r: bool)
    ensures
        r == is_active_at(b@, line as int),
{
    let until = match b.ended_line {
        Some(e) => if e < b.last_use_line {
            e
        } else {
            b.last_use_line
        },
        None => b.last_use_line,
    };
    b.created_line < line && line <= until
}

/// Which kinds of borrows of `owner` are live at `line`: any, shared, mutable.
pub fn active_borrows(borrows: &Vec<Entry<Borrow>>, owner: &Vec<char>, line: usize) -> (r: (
    bool,
    bool,
    bool,
))
    ensures
        r.0 == has_active(table_view(borrows@), owner@, line as int),
        r.1 == has_active_kind(table_view(borrows@), owner@, line as int, BorrowKind::Shared),
        r.2 == has_active_kind(table_view(borrows@), owner@, line as int, BorrowKind::Mutable),
{
    let ghost t = table_view(borrows@);
    let mut any = false;
    let mut shared = false;
    let mut mutable = false;
    let mut i: usize = 0;
    while i < borrows.len()
        invariant
            i <= borrows.len(),
            t == table_view(borrows@),
            any == exists|j: int|
                0 <= j < i && (#[trigger] t[j]).1.owner == owner@ && is_active_at(t[j].1, line as int),
            shared == exists|j: int|
                0 <= j < i && (#[trigger] t[j]).1.owner == owner@ && t[j].1.kind == BorrowKind::Shared
                    && is_active_at(t[j].1, line as int),
            mutable == exists|j: int|
                0 <= j < i && (#[trigger] t[j]).1.owner == owner@ && t[j].1.kind
                    == BorrowKind::Mutable && is_active_at(t[j].1, line as int),
        decreases borrows.len() - i,
    {
        let b = &borrows[i].value;
        assert(t[i as int].1 == b@);
        if chars_eq(&b.owner, owner) && is_active_at_exec(b, line) {
            any = true;
            match b.kind {
                BorrowKind::Shared => {
                    shared = true;
                },
                BorrowKind::Mutable => {
                    mutable = true;
                },
            }
        }
        i += 1;
    }
    (any, shared, mutable)
}

/// The borrows that the code lines declare, keyed by name.
pub fn collect_borrows(codes: &Vec<Vec<char>>) -> (t: Vec<Entry<Borrow>>)
    ensures
        table_view(t@) == borrow_table(views(codes@), codes.len() as int),
{
    let ghost cs = views(codes@);
    let n = codes.len();
    let mut t: Vec<Entry<Borrow>> = Vec::new();
    let mut i: usize = 0;
    while i < n
        invariant
            n == codes.len(),
            cs == views(codes@),
            i <= n,
            table_view(t@) == borrow_table(cs, i as int),
        decreases n - i,
    {
        match borrow_declaration_exec(&codes[i]) {
            Some((name, owner, kind)) => {
                let created_line = i + 1;
                let mut last_use_line = created_line;
                let mut ended_line: Option<usize> = None;
                let mut j = i + 1;
                while j < n
                    invariant
                        n == codes.len(),
                        cs == views(codes@),
                        i < j <= n,
                        last_use_line as int == last_mention(cs, name@, i as int, j as int),
                        ended_line matches Some(e) ==> first_end(cs, name@, i as int, j as int)
                            == Some(e as int),
                        ended_line is None ==> first_end(cs, name@, i as int, j as int) is None,
                    decreases n - j,
                {
                    if contains_identifier_exec(&codes[j], &name) {
                        last_use_line = j + 1;
                    }
                    if ended_line.is_none() {
                        match call_argument_exec(&codes[j], "endBorrow") {
                            Some(argument) => {
                                if chars_eq(&argument, &name) {
                                    ended_line = Some(j + 1);
                                }
                            },
                            None => {},
                        }
                    }
                    j += 1;
                }
                let base = base_owner_exec(&owner);
                table_insert_exec(
                    &mut t,
                    name,
                    Borrow { owner: base, kind, created_line, last_use_line, ended_line },
                );
            },
            None => {},
        }
        i += 1;
    }
    t
}

} // verus!
