use ion_binary_rs::symbol_table::{SharedTable, SymbolContext};

fn text(s: &str) -> String {
    s.to_string()
}

#[test]
fn system_symbols_have_their_ids() {
    let context = SymbolContext::new();
    let expected = [
        "$ion",
        "$ion_1_0",
        "$ion_symbol_table",
        "name",
        "version",
        "imports",
        "symbols",
        "max_id",
        "$ion_shared_symbol_table",
    ];
    assert_eq!(context.resolve(0), None);
    for (i, name) in expected.iter().enumerate() {
        assert_eq!(context.resolve(i as u64 + 1), Some(text(name)));
    }
    assert_eq!(context.resolve(10), None);
    assert_eq!(context.resolve(u64::MAX), None);
}

#[test]
fn local_symbols_follow_the_greatest_id() {
    let mut context = SymbolContext::new();
    context.add_local(Some(text("a")));
    context.add_local(Some(text("b")));
    assert_eq!(context.resolve(10), Some(text("a")));
    assert_eq!(context.resolve(11), Some(text("b")));
    assert_eq!(context.resolve(12), None);

    context.add_local(None);
    context.add_local(Some(text("d")));
    assert_eq!(context.resolve(10), Some(text("a")));
    assert_eq!(context.resolve(11), Some(text("b")));
    assert_eq!(context.resolve(12), None);
    assert_eq!(context.resolve(13), Some(text("d")));
    assert_eq!(context.resolve(14), None);
    assert_eq!(context.resolve(4), Some(text("name")));
}

#[test]
fn new_symbols_follow_the_previous_greatest_id() {
    let mut context = SymbolContext::new();
    assert_eq!(context.max_id(), Some(9));
    context.add_import(&text("unknown"), 3, Some(17));
    context.add_local(Some(text("first")));
    let n = context.max_id().unwrap();
    assert_eq!(n, 27);
    let before: Vec<Option<String>> = (0..=n).map(|id| context.resolve(id)).collect();
    context.add_local(Some(text("a")));
    context.add_local(Some(text("b")));
    assert_eq!(context.resolve(n + 1), Some(text("a")));
    assert_eq!(context.resolve(n + 2), Some(text("b")));
    assert_eq!(context.resolve(n + 3), None);
    assert_eq!(context.max_id(), Some(n + 2));
    let after: Vec<Option<String>> = (0..=n).map(|id| context.resolve(id)).collect();
    assert_eq!(before, after);
}

#[test]
fn imports_reserve_their_ids() {
    let mut context = SymbolContext::new();
    context.add_import(&text("unknown"), 1, Some(5));
    context.add_local(Some(text("x")));
    for id in 10..15 {
        assert_eq!(context.resolve(id), None);
    }
    assert_eq!(context.resolve(15), Some(text("x")));
    assert_eq!(context.resolve(16), None);

    context.add_import(&text("unknown"), 1, None);
    assert_eq!(context.resolve(15), Some(text("x")));
}

#[test]
fn imports_of_known_tables_have_texts() {
    let mut context = SymbolContext::new();
    context.add_shared_table(SharedTable {
        name: text("colours"),
        version: 2,
        symbols: vec![text("red"), text("green"), text("blue")],
    });
    context.add_import(&text("colours"), 2, Some(2));
    context.add_import(&text("colours"), 1, Some(2));
    context.add_import(&text("colours"), 2, None);
    context.add_import(&text("colours"), 2, Some(4));
    context.add_local(Some(text("local")));
    assert_eq!(context.resolve(10), Some(text("red")));
    assert_eq!(context.resolve(11), Some(text("green")));
    assert_eq!(context.resolve(12), None);
    assert_eq!(context.resolve(13), None);
    assert_eq!(context.resolve(14), Some(text("red")));
    assert_eq!(context.resolve(15), Some(text("green")));
    assert_eq!(context.resolve(16), Some(text("blue")));
    assert_eq!(context.resolve(17), Some(text("red")));
    assert_eq!(context.resolve(19), Some(text("blue")));
    assert_eq!(context.resolve(20), None);
    assert_eq!(context.resolve(21), Some(text("local")));
    assert_eq!(context.resolve(22), None);
}

#[test]
fn reset_keeps_only_the_system_symbols() {
    let mut context = SymbolContext::new();
    context.add_import(&text("unknown"), 1, Some(3));
    context.add_local(Some(text("a")));
    let copy = context.clone();
    context.reset();
    assert_eq!(context.resolve(13), None);
    assert_eq!(context.resolve(3), Some(text("$ion_symbol_table")));
    assert_eq!(copy.resolve(13), Some(text("a")));
    context.add_local(Some(text("b")));
    assert_eq!(context.resolve(10), Some(text("b")));
}

#[test]
fn huge_imports_do_not_overflow() {
    let mut context = SymbolContext::new();
    context.add_import(&text("a"), 1, Some(u64::MAX));
    context.add_import(&text("b"), 1, Some(u64::MAX));
    context.add_local(Some(text("x")));
    assert_eq!(context.resolve(u64::MAX), None);
    assert_eq!(context.resolve(10), None);
    assert_eq!(context.max_id(), None);
}
