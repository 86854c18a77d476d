//! Evaluating an expression tree column by column, with a memo of every
//! sub-expression's column under its canonical text.
use vstd::prelude::*;
use crate::column::{combine, complement, is_bitstring, evaluate_node, lemma_combine_positions};
use crate::parser::{Node, NodeKind};
use crate::table::Store;

verus! {

/// Why a tree could not be evaluated against a store.
#[derive(Debug, PartialEq, Eq, Clone, Copy)]
pub enum EvalError {
    /// A leaf names a symbol that the store has no column for.
    UnknownSymbol(char),
}

/// The canonical text of a sub-expression: a leaf is its symbol, after `!`
/// when negated; a binary node is `(left operator right)`, after `!` when
/// its result is complemented.
pub open spec fn canonical(t: NodeKind) -> Seq<char>
    decreases t,
{
    match t {
        NodeKind::Leaf { symbol, negated } => if negated {
            seq!['!', symbol]
        } else {
            seq![symbol]
        },
        NodeKind::TreeNode(n) => {
            let body = seq!['('] + canonical(n.left) + seq![n.operator] + canonical(n.right) + seq![
                ')',
            ];
            if n.not {
                seq!['!'] + body
            } else {
                body
            }
        },
    }
}

/// The column of a sub-expression, given the symbols and their base
/// columns, or the first symbol, in evaluation order, that has no column.
pub open spec fn tree_column(t: NodeKind, symbols: Seq<char>, columns: Seq<Seq<char>>) -> Result<
    Seq<char>,
    char,
>
    decreases t,
{
    match t {
        NodeKind::Leaf { symbol, negated } => if symbols.contains(symbol) {
            let c = columns[symbols.index_of(symbol)];
            Ok(
                if negated {
                    complement(c)
                } else {
                    c
                },
            )
        } else {
            Err(symbol)
        },
        NodeKind::TreeNode(n) => match tree_column(n.left, symbols, columns) {
            Err(s) => Err(s),
            Ok(a) => match tree_column(n.right, symbols, columns) {
                Err(s) => Err(s),
                Ok(b) => {
                    let raw = combine(a, b, n.operator);
                    Ok(
                        if n.not {
                            complement(raw)
                        } else {
                            raw
                        },
                    )
                },
            },
        },
    }
}

/// The memo entries that evaluating `t` records, in post order: each
/// sub-expression's canonical text with its column.
pub open spec fn tree_memo(t: NodeKind, symbols: Seq<char>, columns: Seq<Seq<char>>) -> Seq<
    (Seq<char>, Seq<char>),
>
    decreases t,
{
    let own = match tree_column(t, symbols, columns) {
        Ok(c) => seq![(canonical(t), c)],
        Err(_) => Seq::empty(),
    };
    match t {
        NodeKind::Leaf { .. } => own,
        NodeKind::TreeNode(n) => tree_memo(n.left, symbols, columns) + tree_memo(
            n.right,
            symbols,
            columns,
        ) + own,
    }
}

/// The canonical text of a leaf.
fn leaf_str(symbol: char, negated: bool) -> (r: Vec<char>)
    ensures
        r@ == canonical(NodeKind::Leaf { symbol, negated }),
{
    let mut out: Vec<char> = Vec::new();
    if negated {
        out.push('!');
    }
    out.push(symbol);
    assert(out@ =~= canonical(NodeKind::Leaf { symbol, negated }));
    out
}

/// The canonical text of a sub-expression.
pub fn build_kind_str(kind: &NodeKind) -> (r: Vec<char>)
    ensures
        r@ == canonical(*kind),
    decreases kind,
{
    match kind {
        NodeKind::Leaf { symbol, negated } => leaf_str(*symbol, *negated),
        NodeKind::TreeNode(n) => build_node_str(n),
    }
}

/// The canonical text of a binary node: `(left operator right)`, after `!`
/// when its result is complemented.
pub fn build_node_str(node: &Node) -> (r: Vec<char>)
    ensures
        r@ == canonical(NodeKind::TreeNode(Box::new(*node))),
    decreases node,
{
    let mut out: Vec<char> = Vec::new();
    if node.not {
        out.push('!');
    }
    out.push('(');
    let mut left = build_kind_str(&node.left);
    out.append(&mut left);
    out.push(node.operator);
    let mut right = build_kind_str(&node.right);
    out.append(&mut right);
    out.push(')');
    assert(out@ =~= canonical(NodeKind::TreeNode(Box::new(*node))));
    out
}

/// The position of `c` among the store's symbols.
fn find_symbol(symbols: &Vec<char>, c: char) -> (r: Option<usize>)
    requires
        symbols@.no_duplicates(),
    ensures
        match r {
            Some(j) => j < symbols@.len() && symbols@[j as int] == c && symbols@.contains(c)
                && symbols@.index_of(c) == j,
            None => !symbols@.contains(c),
        },
{
    let mut i: usize = 0;
    while i < symbols.len()
        invariant
            symbols@.no_duplicates(),
            i <= symbols@.len(),
            forall|k: int| 0 <= k < i ==> symbols@[k] != c,
        decreases symbols@.len() - i,
    {
        if symbols[i] == c {
            assert(symbols@[i as int] == c);
            assert(symbols@.contains(c));
            let ghost k = symbols@.index_of(c);
            assert(0 <= k < symbols@.len() && symbols@[k] == c);
            assert(k == i);
            return Some(i);
        }
        i = i + 1;
    }
    None
}

/// Evaluates a sub-expression against the store's base columns and returns
/// its column, recording every sub-expression's column in the memo under
/// its canonical text, children before parents.
///
/// Fails with the first symbol, in evaluation order, that has no base
/// column; the memo then keeps what was recorded before the failure.
pub fn generate_truth(kind: &NodeKind, store: &mut Store) -> (r: Result<Vec<char>, EvalError>)
    requires
        exists|rows: nat| old(store).wf(rows),
    ensures
        final(store).symbols@ == old(store).symbols@,
        final(store).columns@ == old(store).columns@,
        match tree_column(*kind, old(store).symbols@, old(store).columns_view()) {
            Ok(c) => r matches Ok(v) && v@ == c && final(store).memo_view() == old(
                store,
            ).memo_view() + tree_memo(*kind, old(store).symbols@, old(store).columns_view()),
            Err(s) => r == Err::<Vec<char>, EvalError>(EvalError::UnknownSymbol(s))
                && old(store).memo_view().is_prefix_of(final(store).memo_view()),
        },
    decreases kind,
{
    let ghost rows = choose|rows: nat| old(store).wf(rows);
    proof {
        lemma_column_shape(*kind, old(store), rows);
    }
    match kind {
        NodeKind::Leaf { symbol, negated } => {
            match find_symbol(&store.symbols, *symbol) {
                None => Err(EvalError::UnknownSymbol(*symbol)),
                Some(j) => {
                    let base = store.columns[j].clone();
                    assert(base@ == store.columns_view()[j as int]);
                    let col = if *negated {
                        evaluate_node(&base, '!', &base, Some(true))
                    } else {
                        base
                    };
                    let key = leaf_str(*symbol, *negated);
                    let ghost before = store.memo_view();
                    store.memo.push((key, col.clone()));
                    assert(store.memo_view() =~= before.push((key@, col@)));
                    assert(tree_memo(*kind, store.symbols@, store.columns_view()) =~= seq![
                        (key@, col@),
                    ]);
                    assert(store.memo_view() =~= before + tree_memo(
                        *kind,
                        store.symbols@,
                        store.columns_view(),
                    ));
                    Ok(col)
                },
            }
        },
        NodeKind::TreeNode(n) => {
            proof {
                lemma_column_shape(n.left, old(store), rows);
                lemma_column_shape(n.right, old(store), rows);
            }
            let a = match generate_truth(&n.left, store) {
                Err(e) => {
                    return Err(e);
                },
                Ok(a) => a,
            };
            assert(store.wf(rows));
            let b = match generate_truth(&n.right, store) {
                Err(e) => {
                    return Err(e);
                },
                Ok(b) => b,
            };
            let raw = evaluate_node(&a, n.operator, &b, None);
            let col = if n.not {
                evaluate_node(&raw, '!', &raw, Some(true))
            } else {
                raw
            };
            let key = build_node_str(n);
            let ghost before = store.memo_view();
            store.memo.push((key, col.clone()));
            assert(store.memo_view() =~= before.push((key@, col@)));
            assert(store.memo_view() =~= old(store).memo_view() + tree_memo(
                *kind,
                store.symbols@,
                store.columns_view(),
            ));
            Ok(col)
        },
    }
}

/// Every column that a tree evaluates to has one position per row and
/// holds only `'0'` and `'1'`.
pub proof fn lemma_column_shape(t: NodeKind, store: &Store, rows: nat)
    requires
        store.wf(rows),
    ensures
        tree_column(t, store.symbols@, store.columns_view()) matches Ok(c) ==> c.len() == rows
            && is_bitstring(c),
    decreases t,
{
    match t {
        NodeKind::Leaf { symbol, negated } => {
            if store.symbols@.contains(symbol) {
                let j = store.symbols@.index_of(symbol);
                assert(store.columns_view()[j] == store.columns@[j]@);
            }
        },
        NodeKind::TreeNode(n) => {
            lemma_column_shape(n.left, store, rows);
            lemma_column_shape(n.right, store, rows);
            let syms = store.symbols@;
            let cols = store.columns_view();
            if let Ok(a) = tree_column(n.left, syms, cols) {
                if let Ok(b) = tree_column(n.right, syms, cols) {
                    lemma_combine_positions(a, b, n.operator);
                }
            }
        },
    }
}

/// Evaluation depends on the symbols and base columns alone: evaluating a
/// tree again, against the store that an earlier evaluation left behind,
/// gives the same column.
pub proof fn lemma_evaluation_idempotent(t: NodeKind, first: &Store, second: &Store)
    requires
        second.symbols@ == first.symbols@,
        second.columns@ == first.columns@,
    ensures
        tree_column(t, second.symbols@, second.columns_view()) == tree_column(
            t,
            first.symbols@,
            first.columns_view(),
        ),
{
}

} // verus!
