use booltable::column::{compute, evaluate_node};
use booltable::table::{binary_string, build_initial_table};

fn text(v: &Vec<char>) -> String {
    v.iter().collect()
}

fn chars(s: &str) -> Vec<char> {
    s.chars().collect()
}

#[test]
fn compute_and_or_truth_table() {
    assert_eq!(compute('1', '1', '.'), '1');
    assert_eq!(compute('1', '0', '.'), '0');
    assert_eq!(compute('0', '1', '.'), '0');
    assert_eq!(compute('0', '0', '.'), '0');
    assert_eq!(compute('0', '0', '+'), '0');
    assert_eq!(compute('1', '0', '+'), '1');
    assert_eq!(compute('0', '1', '+'), '1');
    assert_eq!(compute('1', '1', '+'), '1');
}

#[test]
fn compute_not_and_unknown_operator() {
    assert_eq!(compute('1', '1', '!'), '0');
    assert_eq!(compute('0', '1', '!'), '1');
    assert_eq!(compute('1', '1', '?'), '0');
}

#[test]
fn evaluate_node_applies_operator_at_every_position() {
    let a = chars("0011");
    let b = chars("0101");
    assert_eq!(text(&evaluate_node(&a, '+', &b, None)), "0111");
    assert_eq!(text(&evaluate_node(&a, '.', &b, None)), "0001");
    assert_eq!(text(&evaluate_node(&a, '!', &a, Some(true))), "1100");
}

#[test]
fn complement_twice_gives_column_back() {
    let c = chars("01101001");
    let once = evaluate_node(&c, '!', &c, Some(true));
    assert_eq!(text(&once), "10010110");
    let twice = evaluate_node(&once, '!', &once, Some(true));
    assert_eq!(twice, c);
}

#[test]
fn evaluate_node_on_empty_columns() {
    let e: Vec<char> = Vec::new();
    assert!(evaluate_node(&e, '+', &e, None).is_empty());
}

#[test]
fn binary_string_minimal_digits() {
    assert_eq!(binary_string(0, None), vec![0]);
    assert_eq!(binary_string(1, None), vec![1]);
    assert_eq!(binary_string(5, None), vec![1, 0, 1]);
    assert_eq!(binary_string(8, None), vec![1, 0, 0, 0]);
}

#[test]
fn binary_string_padded() {
    assert_eq!(binary_string(5, Some(5)), vec![0, 0, 1, 0, 1]);
    assert_eq!(binary_string(0, Some(3)), vec![0, 0, 0]);
    assert_eq!(binary_string(3, Some(2)), vec![1, 1]);
    assert_eq!(binary_string(u32::MAX, Some(32)), vec![1; 32]);
}

#[test]
fn table_of_two_symbols() {
    let store = build_initial_table(&vec!['a', 'b']);
    assert_eq!(store.symbols, vec!['a', 'b']);
    assert_eq!(store.columns.len(), 2);
    assert_eq!(text(&store.columns[0]), "0011");
    assert_eq!(text(&store.columns[1]), "0101");
    assert!(store.memo.is_empty());
}

#[test]
fn table_columns_have_two_to_the_n_rows() {
    for n in 0..6usize {
        let tokens: Vec<char> = "abcdef".chars().take(n).collect();
        let store = build_initial_table(&tokens);
        assert_eq!(store.columns.len(), n);
        for col in &store.columns {
            assert_eq!(col.len(), 1 << n);
        }
    }
}

#[test]
fn table_rows_match_binary_expansion() {
    let tokens = vec!['p', 'q', 'r'];
    let store = build_initial_table(&tokens);
    for i in 0..8u32 {
        let digits = binary_string(i, Some(3));
        let mut value = 0u32;
        for j in 0..3 {
            let expected = if digits[j] == 1 { '1' } else { '0' };
            assert_eq!(store.columns[j][i as usize], expected);
            value = value * 2 + digits[j];
        }
        assert_eq!(value, i);
    }
    assert_eq!(text(&store.columns[0]), "00001111");
    assert_eq!(text(&store.columns[1]), "00110011");
    assert_eq!(text(&store.columns[2]), "01010101");
}

#[test]
fn table_of_no_symbols() {
    let store = build_initial_table(&Vec::new());
    assert!(store.symbols.is_empty());
    assert!(store.columns.is_empty());
}
