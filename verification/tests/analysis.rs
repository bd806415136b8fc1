use ts_borrow_checker::{analyze, analyze_report, Diagnostic};

fn render(diagnostics: Vec<Diagnostic>) -> Vec<String> {
    diagnostics
        .into_iter()
        .map(|d| format!("{}:{}:{}: {}", d.code, d.line, d.column, d.message))
        .collect()
}

#[test]
fn use_after_move_is_reported() {
    let source = "const value: Owned<Value> = create();\nconst moved = move(value);\nvalue.read();\n";
    assert_eq!(
        render(analyze(source)),
        vec!["E0382:3:1: use of moved value: `value`"]
    );
}

#[test]
fn double_dispose_of_jsdoc_resource() {
    let source = "/** @resource */\nconst handle = open();\ndispose(handle);\ndispose(handle);\n";
    assert_eq!(
        render(analyze(source)),
        vec!["TSB003:4:9: value disposed more than once: `handle`"]
    );
}

#[test]
fn undisposed_resource_leaks() {
    let source = "const file: Resource<FileHandle> = openFile(\"report.txt\");\nconst reader = borrow(file);\nreader.read();\n";
    let report = analyze_report(source);
    assert_eq!(
        render(report.diagnostics),
        vec!["TSB001:1:7: resource may leave scope without being disposed: `file`"]
    );
    assert_eq!(report.tracked_owners, 1);
    assert_eq!(report.tracked_borrows, 1);
}

#[test]
fn valid_ownership_is_clean() {
    let source = "const file: Resource<FileHandle> = openFile(\"report.txt\");\n\
const reader = borrow(file);       // shared borrow\n\
reader.read();                     // borrow ends at its last use\n\
const writer = borrowMut(file);    // unique mutable borrow\n\
writer.write(\"complete\");\n\
endBorrow(writer);                 // optional explicit early end\n\
dispose(file);                     // resource obligation satisfied\n";
    let report = analyze_report(source);
    assert!(report.diagnostics.is_empty(), "{:?}", report.diagnostics);
    assert_eq!(report.tracked_owners, 1);
    assert_eq!(report.tracked_borrows, 2);
}

#[test]
fn second_mutable_borrow_conflicts() {
    let source = "const data: Owned<Data> = create();\nconst a = borrowMut(data);\nconst b = borrowMut(data);\na.write();\nb.write();\n";
    assert_eq!(
        render(analyze(source)),
        vec!["E0499:3:21: cannot borrow `data` as mutable more than once at a time"]
    );
}

#[test]
fn shared_and_mutable_borrows_conflict_both_ways() {
    let source = "const data: Owned<Data> = create();\nconst a = borrow(data);\nconst b = borrowMut(data);\na.read();\nconst c = borrow(data);\nb.write();\n";
    assert_eq!(
        render(analyze(source)),
        vec![
            "E0502:3:21: cannot borrow `data` as mutable because it is also borrowed as shared",
            "E0502:5:18: cannot borrow `data` as shared because it is also borrowed as mutable",
        ]
    );
}

#[test]
fn dispose_while_borrowed_is_refused() {
    let source = "const conn: Resource<Conn> = connect();\nconst view = borrow(conn);\ndispose(conn);\nview.read();\n";
    assert_eq!(
        render(analyze(source)),
        vec![
            "E0505:3:9: cannot dispose `conn` because it is borrowed",
            "TSB001:1:7: resource may leave scope without being disposed: `conn`",
        ]
    );
}

#[test]
fn move_while_borrowed_is_refused() {
    let source = "const v: Owned<V> = make();\nconst r = borrow(v);\nmove(v);\nr.read();\n";
    assert_eq!(
        render(analyze(source)),
        vec!["E0505:3:3: cannot move `v` because it is borrowed"]
    );
}

#[test]
fn use_of_ended_borrow() {
    let source = "const v: Owned<V> = make();\nconst r = borrow(v);\nendBorrow(r);\nr.read();\n";
    assert_eq!(
        render(analyze(source)),
        vec!["TSB005:4:1: use of ended borrow: `r`"]
    );
}

#[test]
fn use_during_mutable_borrow() {
    let source = "const v: Owned<V> = make();\nconst w = borrowMut(v);\nv.read();\nw.write();\n";
    assert_eq!(
        render(analyze(source)),
        vec!["E0503:3:1: cannot use `v` because it is mutably borrowed"]
    );
}

#[test]
fn conditional_move_makes_later_use_possibly_moved() {
    let source = "const v: Owned<V> = make();\nif (cond) {\n  move(v);\n}\nv.use();\n";
    assert_eq!(
        render(analyze(source)),
        vec!["E0382:5:1: use of possibly moved value: `v`"]
    );
}

#[test]
fn partial_moves() {
    let source = "const obj: Owned<Obj> = make();\nmove(obj.field);\nobj.field.x;\nobj.other;\nobj;\n";
    assert_eq!(
        render(analyze(source)),
        vec![
            "E0382:3:1: use of moved value: `obj.field`",
            "E0382:5:1: use of partially moved value: `obj`",
        ]
    );
}

#[test]
fn use_after_dispose_and_move_after_dispose() {
    let source = "const r: Resource<R> = open();\ndispose(r);\nr.read();\nmove(r);\n";
    assert_eq!(
        render(analyze(source)),
        vec![
            "TSB002:3:1: use of disposed value: `r`",
            "TSB002:4:6: use of disposed value: `r`",
        ]
    );
}

#[test]
fn columns_count_utf8_bytes() {
    let source = "const v: Owned<V> = make();\nmove(v);\n\u{e9}; v.read();\n";
    assert_eq!(
        render(analyze(source)),
        vec!["E0382:3:5: use of moved value: `v`"]
    );
}

#[test]
fn owners_are_reported_in_name_order() {
    let source = "const b: Resource<B> = open();\nconst a: Resource<A> = open();\n";
    assert_eq!(
        render(analyze(source)),
        vec![
            "TSB001:2:7: resource may leave scope without being disposed: `a`",
            "TSB001:1:7: resource may leave scope without being disposed: `b`",
        ]
    );
}

#[test]
fn unannotated_code_tracks_nothing() {
    let report = analyze_report("function f(x) {\n  return x + 1;\n}\n");
    assert!(report.diagnostics.is_empty());
    assert_eq!(report.tracked_owners, 0);
    assert_eq!(report.tracked_borrows, 0);
}

#[test]
fn empty_source() {
    let report = analyze_report("");
    assert!(report.diagnostics.is_empty());
    assert_eq!(report.tracked_owners, 0);
    assert_eq!(report.tracked_borrows, 0);
}

#[test]
fn returned_and_awaited_borrows_are_not_errors() {
    let source = "async function f() {\n  const v: Owned<V> = make();\n  const r = borrow(v);\n  await tick();\n  list.forEach(() => r.read());\n  return r;\n}\n";
    let report = analyze_report(source);
    assert!(report.diagnostics.is_empty(), "{:?}", report.diagnostics);
    assert_eq!(report.tracked_owners, 1);
    assert_eq!(report.tracked_borrows, 1);
}

#[test]
fn move_inside_loop_is_not_an_error() {
    let source = "const v: Owned<V> = make();\nfor (const x of xs) {\n  consume(move(v));\n}\n";
    assert!(analyze(source).is_empty());
}

#[test]
fn move_inside_loop_leaves_the_owner_available() {
    let source = "const v: Resource<V> = open();\nwhile (more) {\n  move(v);\n}\nv.read();\n";
    assert_eq!(
        render(analyze(source)),
        vec!["TSB001:1:7: resource may leave scope without being disposed: `v`"]
    );
}

#[test]
fn else_branch_move_is_conditional() {
    let source = "const v: Owned<V> = make();\nif (a) {\n  other();\n} else {\n  move(v);\n}\nv.use();\n";
    assert_eq!(
        render(analyze(source)),
        vec!["E0382:7:1: use of possibly moved value: `v`"]
    );
}

#[test]
fn else_branch_move_of_a_resource_still_leaks() {
    let source = "const f: Resource<F> = open();\nif (a) {\n  other();\n} else {\n  move(f);\n}\n";
    assert_eq!(
        render(analyze(source)),
        vec!["TSB001:1:7: resource may leave scope without being disposed: `f`"]
    );
}

#[test]
fn borrows_without_contracts_are_not_checked() {
    let source = "const r = borrow(x);\nendBorrow(r);\nr.read();\n";
    let report = analyze_report(source);
    assert!(report.diagnostics.is_empty(), "{:?}", report.diagnostics);
    assert_eq!(report.tracked_owners, 0);
    assert_eq!(report.tracked_borrows, 1);
}

#[test]
fn comments_and_crlf_are_ignored() {
    let source = "const v: Owned<V> = make(); // move(v)\r\n// v.read();\r\nmove(v);\r\nv.read(); // later\r\n";
    assert_eq!(
        render(analyze(source)),
        vec!["E0382:4:1: use of moved value: `v`"]
    );
}

#[test]
fn jsdoc_owned_marker_applies_to_next_declaration_only() {
    let source = "/** @owned */\nlet item = make();\nlet other = make();\nmove(item);\nmove(other);\nitem.read();\nother.read();\n";
    assert_eq!(
        render(analyze(source)),
        vec!["E0382:6:1: use of moved value: `item`"]
    );
}

#[test]
fn redeclaration_starts_a_fresh_owner_and_names_are_counted_once() {
    let source = "const r: Resource<R> = open();\ndispose(r);\nr.read();\nconst r: Resource<R> = open();\nr.read();\n";
    let report = analyze_report(source);
    assert_eq!(
        render(report.diagnostics),
        vec![
            "TSB002:3:1: use of disposed value: `r`",
            "TSB001:4:7: resource may leave scope without being disposed: `r`",
        ]
    );
    assert_eq!(report.tracked_owners, 1);
}

#[test]
fn released_owner_stays_released() {
    let source = "const r: Resource<R> = open();\ndispose(r);\nconst v = borrow(r);\nmove(r);\ndispose(r);\n";
    assert_eq!(
        render(analyze(source)),
        vec![
            "TSB002:3:13: use of disposed value: `r`",
            "TSB002:4:6: use of disposed value: `r`",
            "TSB003:5:9: value disposed more than once: `r`",
        ]
    );
}

#[test]
fn shared_borrows_may_overlap() {
    let source = "const v: Owned<V> = make();\nconst a = borrow(v);\nconst b = borrow(v);\na.read();\nb.read();\n";
    let report = analyze_report(source);
    assert!(report.diagnostics.is_empty(), "{:?}", report.diagnostics);
    assert_eq!(report.tracked_borrows, 2);
}

#[test]
fn borrow_names_are_counted_once() {
    let source = "const v: Owned<V> = make();\nconst a = borrow(v);\na.read();\nconst a = borrow(v);\na.read();\n";
    let report = analyze_report(source);
    assert!(report.diagnostics.is_empty(), "{:?}", report.diagnostics);
    assert_eq!(report.tracked_borrows, 1);
}

#[test]
fn ended_borrow_allows_a_move() {
    let source = "const v: Owned<V> = make();\nconst w = borrowMut(v);\nendBorrow(w);\nmove(v);\nw.write();\n";
    assert_eq!(
        render(analyze(source)),
        vec!["TSB005:5:1: use of ended borrow: `w`"]
    );
}

#[test]
fn every_diagnostic_points_into_the_text() {
    let source = "const a: Resource<A> = open();\nmove(a);\nmove(a);\na.x;\n\nconst b: Resource<B> = open();\n";
    let diagnostics = analyze(source);
    let line_count = source.lines().count();
    assert!(!diagnostics.is_empty());
    for d in &diagnostics {
        assert!(d.line >= 1 && d.line <= line_count, "{:?}", d);
        assert!(d.column >= 1, "{:?}", d);
    }
}

#[test]
fn trailing_comments_change_nothing() {
    let plain = "const f: Resource<F> = open();\nconst r = borrow(f);\nmove(f);\nr.read();\n";
    let commented = "const f: Resource<F> = open(); // opened here\nconst r = borrow(f); // move(f)\nmove(f); // f.x\nr.read(); // done\n";
    let a = analyze_report(plain);
    let b = analyze_report(commented);
    assert!(!a.diagnostics.is_empty());
    assert_eq!(a.diagnostics, b.diagnostics);
    assert_eq!(a.tracked_owners, b.tracked_owners);
    assert_eq!(a.tracked_borrows, b.tracked_borrows);
}

#[test]
fn an_empty_line_only_moves_later_diagnostics_down() {
    let before = "const f: Resource<F> = open();\nconst g: Resource<G> = open();\ndispose(g);\ng.read();\n";
    let after = "const f: Resource<F> = open();\n\nconst g: Resource<G> = open();\ndispose(g);\ng.read();\n";
    assert_eq!(
        render(analyze(before)),
        vec![
            "TSB002:4:1: use of disposed value: `g`",
            "TSB001:1:7: resource may leave scope without being disposed: `f`",
        ]
    );
    assert_eq!(
        render(analyze(after)),
        vec![
            "TSB002:5:1: use of disposed value: `g`",
            "TSB001:1:7: resource may leave scope without being disposed: `f`",
        ]
    );
    let a = analyze_report(before);
    let b = analyze_report(after);
    assert_eq!(a.tracked_owners, b.tracked_owners);
    assert_eq!(a.tracked_borrows, b.tracked_borrows);
}
