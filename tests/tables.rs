use booltable::eval::{generate_truth, EvalError};
use booltable::parser::parse_expression;
use booltable::session::{truth_table, TableError};
use booltable::table::build_initial_table;

fn text(v: &Vec<char>) -> String {
    v.iter().collect()
}

#[test]
fn or_of_two_symbols() {
    let table = truth_table("a+b").unwrap();
    assert_eq!(table.store.symbols, vec!['a', 'b']);
    assert_eq!(text(&table.store.columns[0]), "0011");
    assert_eq!(text(&table.store.columns[1]), "0101");
    assert_eq!(text(&table.result), "0111");
}

#[test]
fn and_of_two_symbols() {
    let table = truth_table("a.b").unwrap();
    assert_eq!(text(&table.store.columns[0]), "0011");
    assert_eq!(text(&table.store.columns[1]), "0101");
    assert_eq!(text(&table.result), "0001");
}

#[test]
fn negated_single_symbol() {
    let table = truth_table("!a").unwrap();
    assert_eq!(text(&table.store.columns[0]), "01");
    assert_eq!(text(&table.result), "10");
}

#[test]
fn parenthesised_or_then_and() {
    let table = truth_table("(a+b).c").unwrap();
    assert_eq!(table.store.symbols, vec!['a', 'b', 'c']);
    assert_eq!(text(&table.store.columns[0]), "00001111");
    assert_eq!(text(&table.store.columns[1]), "00110011");
    assert_eq!(text(&table.store.columns[2]), "01010101");
    assert_eq!(text(&table.result), "00010101");
}

#[test]
fn negated_group_of_and() {
    let table = truth_table("!(c.d)").unwrap();
    assert_eq!(table.store.symbols, vec!['c', 'd']);
    assert_eq!(text(&table.result), "1110");
}

#[test]
fn right_nested_chain() {
    // a + (b . c)
    let table = truth_table("a+b.c").unwrap();
    assert_eq!(text(&table.result), "00011111");
}

#[test]
fn memo_records_every_sub_expression() {
    let table = truth_table("(a+b).!c").unwrap();
    let memo: Vec<(String, String)> =
        table.store.memo.iter().map(|(k, c)| (text(k), text(c))).collect();
    let expected: Vec<(String, String)> = vec![
        ("a", "00001111"),
        ("b", "00110011"),
        ("(a+b)", "00111111"),
        ("!c", "10101010"),
        ("((a+b).!c)", "00101010"),
    ]
    .into_iter()
    .map(|(k, c)| (k.to_string(), c.to_string()))
    .collect();
    assert_eq!(memo, expected);
    assert_eq!(text(&table.result), "00101010");
}

#[test]
fn evaluating_twice_gives_the_same_column() {
    let tree = parse_expression("!(a+b).c").unwrap();
    let mut store = build_initial_table(&vec!['a', 'b', 'c']);
    let first = generate_truth(&tree, &mut store).unwrap();
    let second = generate_truth(&tree, &mut store).unwrap();
    assert_eq!(first, second);
    assert_eq!(text(&first), "01000000");
}

#[test]
fn unknown_symbol_is_reported() {
    let tree = parse_expression("a+z").unwrap();
    let mut store = build_initial_table(&vec!['a']);
    assert_eq!(generate_truth(&tree, &mut store), Err(EvalError::UnknownSymbol('z')));
    assert_eq!(store.memo.len(), 1);
}

#[test]
fn malformed_expression_is_rejected() {
    assert!(matches!(truth_table("(a+b"), Err(TableError::Parse(_))));
    assert!(matches!(truth_table(""), Err(TableError::Parse(_))));
    assert!(matches!(truth_table("a+"), Err(TableError::Parse(_))));
}

#[test]
fn too_many_symbols_are_rejected() {
    let names: Vec<String> =
        "abcdefghijklmnopqrstuvwxyzABCDEF".chars().map(|c| c.to_string()).collect();
    let expression = names.join("+");
    assert_eq!(truth_table(&expression).err(), Some(TableError::TooManySymbols(32)));
}
