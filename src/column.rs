//! Bitstring columns and the positionwise boolean operators on them.
use vstd::prelude::*;

verus! {

/// The truth value that a column character stands for.
pub open spec fn is_true(c: char) -> bool {
    c == '1'
}

/// The character that stands for a truth value.
pub open spec fn bit_char(b: bool) -> char {
    if b {
        '1'
    } else {
        '0'
    }
}

/// A column character is `'0'` or `'1'`.
pub open spec fn is_bit(c: char) -> bool {
    c == '0' || c == '1'
}

/// Every character of the column is `'0'` or `'1'`.
pub open spec fn is_bitstring(c: Seq<char>) -> bool {
    forall|i: int| 0 <= i < c.len() ==> is_bit(#[trigger] c[i])
}

/// One position of a column operation: `'+'` is OR, `'.'` is AND and `'!'`
/// negates `a`; any other operator yields false.
pub open spec fn compute_spec(a: char, b: char, operator: char) -> char {
    let x = is_true(a);
    let y = is_true(b);
    bit_char(
        if operator == '+' {
            x || y
        } else if operator == '.' {
            x && y
        } else if operator == '!' {
            !x
        } else {
            false
        },
    )
}

/// Applies `operator` at every position of two columns.
pub open spec fn combine(a: Seq<char>, b: Seq<char>, operator: char) -> Seq<char> {
    Seq::new(a.len(), |i: int| compute_spec(a[i], b[i], operator))
}

/// The column with every truth value swapped.
pub open spec fn complement(a: Seq<char>) -> Seq<char> {
    combine(a, a, '!')
}

/// Evaluates one position: `'1'` is true, every other character is false.
pub fn compute(a: char, b: char, operator: char) -> (r: char)
    ensures
        r == compute_spec(a, b, operator),
{
    let x = a == '1';
    let y = b == '1';
    let result = match operator {
        '+' => x || y,
        '.' => x && y,
        '!' => !x,
        _ => false,
    };
    if result {
        '1'
    } else {
        '0'
    }
}

/// Applies an operator at every position of two columns of equal length.
///
/// With `not` set the result is the complement of `a` and `b` is ignored;
/// otherwise `operator` (`'+'` or `'.'`) joins `a[i]` and `b[i]` at each
/// position `i`.
pub fn evaluate_node(a: &Vec<char>, operator: char, b: &Vec<char>, not: Option<bool>) -> (r: Vec<
    char,
>)
    requires
        a@.len() == b@.len(),
    ensures
        not is Some ==> r@ == complement(a@),
        not is None ==> r@ == combine(a@, b@, operator),
{
    let op = match not {
        Some(_) => '!',
        None => operator,
    };
    let mut result: Vec<char> = Vec::new();
    let mut idx: usize = 0;
    while idx < a.len()
        invariant
            a@.len() == b@.len(),
            idx <= a@.len(),
            result@.len() == idx,
            forall|i: int| 0 <= i < idx ==> result@[i] == compute_spec(a@[i], b@[i], op),
        decreases a@.len() - idx,
    {
        let c = if op == '!' {
            compute(a[idx], a[idx], op)
        } else {
            compute(a[idx], b[idx], op)
        };
        result.push(c);
        idx = idx + 1;
    }
    proof {
        if not is Some {
            assert(result@ =~= complement(a@));
        } else {
            assert(result@ =~= combine(a@, b@, operator));
        }
    }
    result
}

/// Complementing a bitstring twice gives it back.
pub proof fn lemma_complement_involutive(c: Seq<char>)
    requires
        is_bitstring(c),
    ensures
        complement(complement(c)) == c,
{
    assert(complement(complement(c)) =~= c);
}

/// The boolean operators follow their truth tables on every pair of bits:
/// AND is true only when both are, OR only when either is, and NOT swaps.
pub proof fn lemma_truth_tables(a: char, b: char)
    requires
        is_bit(a),
        is_bit(b),
    ensures
        compute_spec(a, b, '.') == bit_char(a == '1' && b == '1'),
        compute_spec(a, b, '+') == bit_char(a == '1' || b == '1'),
        compute_spec(a, b, '!') == bit_char(a == '0'),
        is_bit(compute_spec(a, b, '.')),
        is_bit(compute_spec(a, b, '+')),
{
}

/// A positionwise operation on two bitstrings of equal length is a
/// bitstring of that length whose every position follows the operator's
/// truth table.
pub proof fn lemma_combine_positions(a: Seq<char>, b: Seq<char>, operator: char)
    requires
        is_bitstring(a),
        is_bitstring(b),
        a.len() == b.len(),
    ensures
        combine(a, b, operator).len() == a.len(),
        is_bitstring(combine(a, b, operator)),
        forall|i: int|
            0 <= i < a.len() ==> #[trigger] combine(a, b, operator)[i] == compute_spec(
                a[i],
                b[i],
                operator,
            ),
{
}

} // verus!
