//! One request: from the text of an expression to its whole truth table.
use vstd::prelude::*;
use vstd::arithmetic::power2::pow2;
use crate::eval::{tree_column, tree_memo, generate_truth, EvalError};
use crate::parser::{expr_at, operand_at, negate_spec, parse_expression, parse_text, NodeKind, ParseError};
use crate::symbols::{distinct_symbols, lemma_distinct_symbols, lexer};
use crate::table::{build_initial_table, base_column, Store};

verus! {

/// Why no truth table was built for a text.
#[derive(Debug, PartialEq, Eq, Clone, Copy)]
pub enum TableError {
    /// The text is not an expression.
    Parse(ParseError),
    /// The expression names more symbols than a table can have rows for;
    /// the count is given.
    TooManySymbols(usize),
    /// Evaluation met a symbol without a base column; parsing and collecting
    /// the same text rule this out.
    Eval(EvalError),
}

/// The most symbols a table is built for: `2^31` rows.
pub const MAX_SYMBOLS: usize = 31;

/// The truth table of one expression: the store holds the symbols, their
/// base columns and the memo of every sub-expression; `result` is the
/// column of the whole expression.
pub struct TruthTable {
    pub store: Store,
    pub tree: NodeKind,
    pub result: Vec<char>,
}

/// Every leaf of `t` names a symbol of `symbols`.
pub open spec fn leaves_within(t: NodeKind, symbols: Seq<char>) -> bool
    decreases t,
{
    match t {
        NodeKind::Leaf { symbol, .. } => symbols.contains(symbol),
        NodeKind::TreeNode(n) => leaves_within(n.left, symbols) && leaves_within(n.right, symbols),
    }
}

/// A tree whose leaves all name known symbols evaluates without error.
pub proof fn lemma_known_leaves_evaluate(t: NodeKind, symbols: Seq<char>, columns: Seq<Seq<char>>)
    requires
        leaves_within(t, symbols),
    ensures
        tree_column(t, symbols, columns) is Ok,
    decreases t,
{
    if let NodeKind::TreeNode(n) = t {
        lemma_known_leaves_evaluate(n.left, symbols, columns);
        lemma_known_leaves_evaluate(n.right, symbols, columns);
    }
}

proof fn lemma_operand_leaves(s: Seq<char>, i: int)
    ensures
        operand_at(s, i) matches Ok((t, _)) ==> leaves_within(t, distinct_symbols(s)),
    decreases s.len() - i, 0int,
{
    lemma_distinct_symbols(s);
    let neg = 0 <= i < s.len() && s[i] == '!';
    let j = if neg {
        i + 1
    } else {
        i
    };
    if 0 <= j < s.len() && s[j] == '(' {
        lemma_expr_leaves(s, j + 1);
        if let Ok((t, _)) = expr_at(s, j + 1) {
            match t {
                NodeKind::Leaf { .. } => {},
                NodeKind::TreeNode(n) => {
                    assert(negate_spec(t) matches NodeKind::TreeNode(m) && m.left == n.left
                        && m.right == n.right);
                },
            }
        }
    }
}

proof fn lemma_expr_leaves(s: Seq<char>, i: int)
    ensures
        expr_at(s, i) matches Ok((t, _)) ==> leaves_within(t, distinct_symbols(s)),
    decreases s.len() - i, 1int,
{
    lemma_operand_leaves(s, i);
    if let Ok((_, j)) = operand_at(s, i) {
        if i <= j < s.len() {
            lemma_expr_leaves(s, j + 1);
        }
    }
}

/// Every symbol that a parsed expression names is among the symbols
/// collected from its text.
pub proof fn lemma_parsed_leaves_collected(s: Seq<char>)
    ensures
        parse_text(s) matches Ok(t) ==> leaves_within(t, distinct_symbols(s)),
{
    lemma_expr_leaves(s, 0);
}

/// Builds the truth table of an expression: parses it, collects its
/// symbols, builds their base columns and evaluates the tree against them.
///
/// Fails when the text is not an expression, and otherwise when it names
/// more than `MAX_SYMBOLS` symbols.
pub fn truth_table(expression: &str) -> (r: Result<TruthTable, TableError>)
    ensures
        match parse_text(expression@) {
            Err(e) => r == Err::<TruthTable, TableError>(TableError::Parse(e)),
            Ok(t) => {
                let syms = distinct_symbols(expression@);
                if syms.len() > MAX_SYMBOLS {
                    r == Err::<TruthTable, TableError>(TableError::TooManySymbols(syms.len() as usize))
                } else {
                    r matches Ok(table) && table.tree == t && table.store.symbols@ == syms
                        && table.store.columns@.len() == syms.len() && (forall|j: int|
                        0 <= j < syms.len() ==> #[trigger] table.store.columns@[j]@ == base_column(
                            syms.len(),
                            j as nat,
                        )) && tree_column(t, syms, table.store.columns_view()) == Ok::<
                        Seq<char>,
                        char,
                    >(table.result@) && table.store.memo_view() == tree_memo(
                        t,
                        syms,
                        table.store.columns_view(),
                    )
                }
            },
        },
{
    let tree = match parse_expression(expression) {
        Err(e) => {
            return Err(TableError::Parse(e));
        },
        Ok(t) => t,
    };
    let dict = lexer(expression);
    if dict.tokens.len() > MAX_SYMBOLS {
        return Err(TableError::TooManySymbols(dict.tokens.len()));
    }
    let mut store = build_initial_table(&dict.tokens);
    proof {
        lemma_parsed_leaves_collected(expression@);
        lemma_known_leaves_evaluate(tree, store.symbols@, store.columns_view());
        assert(store.memo_view() =~= Seq::empty());
    }
    let ghost before = store;
    match generate_truth(&tree, &mut store) {
        Ok(result) => {
            assert(store.columns_view() == before.columns_view());
            Ok(TruthTable { store, tree, result })
        },
        Err(e) => Err(TableError::Eval(e)),
    }
}

} // verus!
