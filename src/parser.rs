//! The expression tree and the recursive-descent parser that builds it.
//!
//! Grammar, read left to right with no operator precedence:
//!
//! ```text
//! expr    := operand (operator expr)?
//! operand := '!'? (symbol | '(' expr ')')
//! operator := '+' | '.'
//! ```
//!
//! A chain of operators nests to the right: `a+b.c` is `a + (b . c)`.
//! A `!` applies to the operand that follows it and to nothing else: on a
//! symbol it marks the leaf as negated, on a parenthesised group it flips the
//! group's own negation flag, so `!(!a)` is the leaf `a` again.
use vstd::prelude::*;
use crate::symbols::{is_symbol, is_symbol_char, chars_of};

verus! {

/// A binary node: `left operator right`, complemented when `not` is set.
/// The operator is `'+'` (OR) or `'.'` (AND).
#[derive(Debug, PartialEq, Eq)]
pub struct Node {
    pub left: NodeKind,
    pub operator: char,
    pub right: NodeKind,
    pub not: bool,
}

/// A sub-expression: a binary node, or a symbol that may be negated.
#[derive(Debug, PartialEq, Eq)]
pub enum NodeKind {
    TreeNode(Box<Node>),
    Leaf { symbol: char, negated: bool },
}

/// Why an expression could not be parsed; `position` counts characters from
/// the start of the text.
#[derive(Debug, PartialEq, Eq, Clone, Copy)]
pub enum ParseError {
    /// The text ended where an operand or a closing parenthesis was due.
    UnexpectedEnd { position: usize },
    /// `found` stands where an operand, an operator, a closing parenthesis
    /// or the end of the text was due.
    UnexpectedChar { position: usize, found: char },
}

/// The binary operators.
pub open spec fn is_op_char(c: char) -> bool {
    c == '+' || c == '.'
}

/// The same sub-expression with its outermost negation flipped.
pub open spec fn negate_spec(t: NodeKind) -> NodeKind {
    match t {
        NodeKind::Leaf { symbol, negated } => NodeKind::Leaf { symbol, negated: !negated },
        NodeKind::TreeNode(n) => NodeKind::TreeNode(
            Box::new(Node { left: n.left, operator: n.operator, right: n.right, not: !n.not }),
        ),
    }
}

/// Parses an operand starting at position `i` of `s`: the tree and the
/// position just past it, or the first error.
pub open spec fn operand_at(s: Seq<char>, i: int) -> Result<(NodeKind, int), ParseError>
    decreases s.len() - i, 0int,
{
    let neg = 0 <= i < s.len() && s[i] == '!';
    let j = if neg {
        i + 1
    } else {
        i
    };
    if j < 0 || j >= s.len() {
        Err(ParseError::UnexpectedEnd { position: j as usize })
    } else if is_symbol_char(s[j]) {
        Ok((NodeKind::Leaf { symbol: s[j], negated: neg }, j + 1))
    } else if s[j] == '(' {
        match expr_at(s, j + 1) {
            Err(e) => Err(e),
            Ok((t, k)) => if k < 0 || k >= s.len() {
                Err(ParseError::UnexpectedEnd { position: k as usize })
            } else if s[k] == ')' {
                Ok(
                    (
                        if neg {
                            negate_spec(t)
                        } else {
                            t
                        },
                        k + 1,
                    ),
                )
            } else {
                Err(ParseError::UnexpectedChar { position: k as usize, found: s[k] })
            },
        }
    } else {
        Err(ParseError::UnexpectedChar { position: j as usize, found: s[j] })
    }
}

/// Parses an expression starting at position `i` of `s`: an operand,
/// followed, where an operator comes next, by that operator and the
/// expression after it as the right operand.
pub open spec fn expr_at(s: Seq<char>, i: int) -> Result<(NodeKind, int), ParseError>
    decreases s.len() - i, 1int,
{
    match operand_at(s, i) {
        Err(e) => Err(e),
        Ok((left, j)) => if i <= j < s.len() && is_op_char(s[j]) {
            match expr_at(s, j + 1) {
                Err(e) => Err(e),
                Ok((right, k)) => Ok(
                    (
                        NodeKind::TreeNode(
                            Box::new(Node { left, operator: s[j], right, not: false }),
                        ),
                        k,
                    ),
                ),
            }
        } else {
            Ok((left, j))
        },
    }
}

/// Parses the whole of `s` from position `i` on: an expression that the
/// end of the text follows.
pub open spec fn parse_at(s: Seq<char>, i: int) -> Result<NodeKind, ParseError> {
    match expr_at(s, i) {
        Err(e) => Err(e),
        Ok((t, k)) => if 0 <= k < s.len() {
            Err(ParseError::UnexpectedChar { position: k as usize, found: s[k] })
        } else {
            Ok(t)
        },
    }
}

/// Parses the whole text of an expression.
pub open spec fn parse_text(s: Seq<char>) -> Result<NodeKind, ParseError> {
    parse_at(s, 0)
}

/// A cursor over the characters of an expression.
pub struct TokenStream {
    pub tokens: Vec<char>,
    pub pos: usize,
}

impl TokenStream {
    /// The cursor stands within the text or just past its end.
    pub open spec fn wf(&self) -> bool {
        self.pos <= self.tokens@.len()
    }

    /// A cursor at the start of `tokens`.
    pub fn new(tokens: &str) -> (r: Self)
        ensures
            r.tokens@ == tokens@,
            r.pos == 0,
            r.wf(),
    {
        TokenStream { tokens: chars_of(tokens), pos: 0 }
    }

    /// The character under the cursor, if the text has not ended.
    pub fn peek(&self) -> (r: Option<char>)
        requires
            self.wf(),
        ensures
            self.pos < self.tokens@.len() ==> r == Some(self.tokens@[self.pos as int]),
            self.pos == self.tokens@.len() ==> r is None,
    {
        if self.pos < self.tokens.len() {
            Some(self.tokens[self.pos])
        } else {
            None
        }
    }

    /// Takes the character under the cursor and moves past it; at the end of
    /// the text returns `None` and stays.
    pub fn consume(&mut self) -> (r: Option<char>)
        requires
            old(self).wf(),
        ensures
            final(self).wf(),
            final(self).tokens@ == old(self).tokens@,
            old(self).pos < old(self).tokens@.len() ==> r == Some(
                old(self).tokens@[old(self).pos as int],
            ) && final(self).pos == old(self).pos + 1,
            old(self).pos == old(self).tokens@.len() ==> r is None && final(self).pos == old(
                self,
            ).pos,
    {
        if self.pos < self.tokens.len() {
            let c = self.tokens[self.pos];
            self.pos = self.pos + 1;
            Some(c)
        } else {
            None
        }
    }
}

/// Whether `c` is a binary operator: `'+'` (OR) or `'.'` (AND).
pub fn is_op(c: char) -> (r: bool)
    ensures
        r == is_op_char(c),
{
    c == '+' || c == '.'
}

/// Flips the outermost negation of a sub-expression.
pub fn negate(t: NodeKind) -> (r: NodeKind)
    ensures
        r == negate_spec(t),
{
    match t {
        NodeKind::Leaf { symbol, negated } => NodeKind::Leaf { symbol, negated: !negated },
        NodeKind::TreeNode(n) => {
            let Node { left, operator, right, not } = *n;
            NodeKind::TreeNode(Box::new(Node { left, operator, right, not: !not }))
        },
    }
}

fn parse_operand(stream: &mut TokenStream) -> (r: Result<NodeKind, ParseError>)
    requires
        old(stream).wf(),
    ensures
        final(stream).wf(),
        final(stream).tokens@ == old(stream).tokens@,
        old(stream).pos <= final(stream).pos,
        match operand_at(old(stream).tokens@, old(stream).pos as int) {
            Ok((t, k)) => r == Ok::<NodeKind, ParseError>(t) && final(stream).pos == k,
            Err(e) => r == Err::<NodeKind, ParseError>(e),
        },
    decreases old(stream).tokens@.len() - old(stream).pos, 0int,
{
    let mut neg = false;
    if stream.peek() == Some('!') {
        stream.consume();
        neg = true;
    }
    let at = stream.pos;
    match stream.consume() {
        None => Err(ParseError::UnexpectedEnd { position: at }),
        Some(c) => {
            if is_symbol(c) {
                Ok(NodeKind::Leaf { symbol: c, negated: neg })
            } else if c == '(' {
                match parse_expr(stream) {
                    Err(e) => Err(e),
                    Ok(inner) => {
                        let close = stream.pos;
                        match stream.consume() {
                            None => Err(ParseError::UnexpectedEnd { position: close }),
                            Some(d) => {
                                if d == ')' {
                                    if neg {
                                        Ok(negate(inner))
                                    } else {
                                        Ok(inner)
                                    }
                                } else {
                                    Err(ParseError::UnexpectedChar { position: close, found: d })
                                }
                            },
                        }
                    },
                }
            } else {
                Err(ParseError::UnexpectedChar { position: at, found: c })
            }
        },
    }
}

fn parse_expr(stream: &mut TokenStream) -> (r: Result<NodeKind, ParseError>)
    requires
        old(stream).wf(),
    ensures
        final(stream).wf(),
        final(stream).tokens@ == old(stream).tokens@,
        old(stream).pos <= final(stream).pos,
        match expr_at(old(stream).tokens@, old(stream).pos as int) {
            Ok((t, k)) => r == Ok::<NodeKind, ParseError>(t) && final(stream).pos == k,
            Err(e) => r == Err::<NodeKind, ParseError>(e),
        },
    decreases old(stream).tokens@.len() - old(stream).pos, 1int,
{
    let left = match parse_operand(stream) {
        Err(e) => {
            return Err(e);
        },
        Ok(t) => t,
    };
    match stream.peek() {
        Some(op) => {
            if is_op(op) {
                stream.consume();
                match parse_expr(stream) {
                    Err(e) => Err(e),
                    Ok(right) => Ok(
                        NodeKind::TreeNode(Box::new(Node { left, operator: op, right, not: false })),
                    ),
                }
            } else {
                Ok(left)
            }
        },
        None => Ok(left),
    }
}

/// Parses the rest of the stream as one expression, which must reach the
/// end of the text.
pub fn parse(stream: &mut TokenStream) -> (r: Result<NodeKind, ParseError>)
    requires
        old(stream).wf(),
    ensures
        final(stream).wf(),
        final(stream).tokens@ == old(stream).tokens@,
        r == parse_at(old(stream).tokens@, old(stream).pos as int),
{
    match parse_expr(stream) {
        Err(e) => Err(e),
        Ok(t) => match stream.peek() {
            Some(c) => Err(ParseError::UnexpectedChar { position: stream.pos, found: c }),
            None => Ok(t),
        },
    }
}

/// Parses the text of an expression.
pub fn parse_expression(text: &str) -> (r: Result<NodeKind, ParseError>)
    ensures
        r == parse_text(text@),
{
    let mut stream = TokenStream::new(text);
    parse(&mut stream)
}

} // verus!
