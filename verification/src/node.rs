//! The expression compiler's syntax tree.
//!
//! The grammar is a number followed by any run of `+ number` or
//! `- number`, folded into a left-leaning tree. Evaluation wraps around,
//! as the machine the generated code runs on does.

use crate::token::Punctuation;
use crate::token::tok_types;
use crate::token::Token;
use crate::token::TokenType;
use crate::Binary;
use vstd::prelude::*;
use vstd::wrapping::i32_specs;

verus! {

/// What the expression parser can reject: a missing number or the end of
/// the tokens.
#[derive(Debug, PartialEq, Eq, Structural, Clone, Copy)]
pub enum NError {
    ExpectedNumber,
    Eof,
}

/// The syntax tree of an expression.
#[derive(Debug)]
pub enum Node {
    Add { lhs: Box<Node>, rhs: Box<Node> },
    Sub { lhs: Box<Node>, rhs: Box<Node> },
    Number(i32),
}

/// The value a tree evaluates to, with the machine's wrap-around.
pub open spec fn spec_eval(n: Node) -> Binary
    decreases n,
{
    match n {
        Node::Number(v) => v,
        Node::Add { lhs, rhs } => i32_specs::wrapping_add(spec_eval(*lhs), spec_eval(*rhs)),
        Node::Sub { lhs, rhs } => i32_specs::wrapping_sub(spec_eval(*lhs), spec_eval(*rhs)),
    }
}

/// The value and end of the operator-number run that continues an
/// expression, folding left from `acc`.
pub open spec fn spec_expr_tail(ts: Seq<TokenType>, pos: int, acc: Binary) -> Option<(Binary, int)>
    decreases ts.len() - pos,
{
    if pos < ts.len() && (ts[pos] == TokenType::Punctuation(Punctuation::Plus) || ts[pos]
        == TokenType::Punctuation(Punctuation::Minus)) {
        if pos + 1 < ts.len() && ts[pos + 1] matches TokenType::Number(_) {
            let m = ts[pos + 1]->Number_0;
            let acc2 = if ts[pos] == TokenType::Punctuation(Punctuation::Plus) {
                i32_specs::wrapping_add(acc, m)
            } else {
                i32_specs::wrapping_sub(acc, m)
            };
            spec_expr_tail(ts, pos + 2, acc2)
        } else {
            None
        }
    } else {
        Some((acc, pos))
    }
}

/// The tree the grammar builds for the tokens `ts[pos..end]`: a
/// left-leaning spine whose right children are the numbers, in token
/// order, under the operators between them.
pub open spec fn is_left_spine(ts: Seq<TokenType>, pos: int, end: int, n: Node) -> bool
    decreases n,
{
    match n {
        Node::Number(v) => end == pos + 1 && 0 <= pos < ts.len() && ts[pos]
            == TokenType::Number(v),
        Node::Add { lhs, rhs } => pos + 3 <= end <= ts.len() && ts[end - 2]
            == TokenType::Punctuation(Punctuation::Plus) && (*rhs matches Node::Number(m) && ts[end
            - 1] == TokenType::Number(m)) && is_left_spine(ts, pos, end - 2, *lhs),
        Node::Sub { lhs, rhs } => pos + 3 <= end <= ts.len() && ts[end - 2]
            == TokenType::Punctuation(Punctuation::Minus) && (*rhs matches Node::Number(m)
            && ts[end - 1] == TokenType::Number(m)) && is_left_spine(ts, pos, end - 2, *lhs),
    }
}

/// The value and end of the expression starting at `pos`: a number, then
/// a left fold over the following operators.
pub open spec fn spec_expr(ts: Seq<TokenType>, pos: int) -> Option<(Binary, int)> {
    if pos < ts.len() && ts[pos] matches TokenType::Number(_) {
        spec_expr_tail(ts, pos + 1, ts[pos]->Number_0)
    } else {
        None
    }
}

/// Take the number at the cursor, or say why there is none.
pub fn expect_number(tokens: &Vec<Token>, pos: &mut usize) -> (r: Result<i32, NError>)
    requires
        *old(pos) <= tokens@.len(),
    ensures
        *old(pos) == tokens@.len() ==> r == Err::<i32, NError>(NError::Eof) && *final(pos) == *old(
            pos,
        ),
        *old(pos) < tokens@.len() ==> (tokens@[*old(pos) as int].token_type
            matches TokenType::Number(n) ==> r == Ok::<i32, NError>(n) && *final(pos) == *old(pos)
            + 1),
        *old(pos) < tokens@.len() && !(tokens@[*old(pos) as int].token_type
            matches TokenType::Number(_)) ==> r == Err::<i32, NError>(NError::ExpectedNumber)
            && *final(pos) == *old(pos),
        *final(pos) <= tokens@.len(),
{
    if *pos >= tokens.len() {
        return Err(NError::Eof);
    }
    match tokens[*pos].token_type {
        TokenType::Number(n) => {
            *pos = *pos + 1;
            Ok(n)
        },
        _ => Err(NError::ExpectedNumber),
    }
}

/// Take the expected operator at the cursor if it stands there.
pub fn consume(tokens: &Vec<Token>, pos: &mut usize, expect: Punctuation) -> (r: bool)
    requires
        *old(pos) <= tokens@.len(),
    ensures
        r == (*old(pos) < tokens@.len() && tokens@[*old(pos) as int].token_type
            == TokenType::Punctuation(expect)),
        r ==> *final(pos) == *old(pos) + 1,
        !r ==> *final(pos) == *old(pos),
        *final(pos) <= tokens@.len(),
{
    if *pos >= tokens.len() {
        return false;
    }
    match tokens[*pos].token_type {
        TokenType::Punctuation(p) => {
            if p == expect {
                *pos = *pos + 1;
                true
            } else {
                false
            }
        },
        _ => false,
    }
}

/// Parse the number the grammar demands at the cursor into a leaf.
pub fn number(tokens: &Vec<Token>, pos: &mut usize) -> (r: Result<Box<Node>, String>)
    requires
        *old(pos) <= tokens@.len(),
    ensures
        *old(pos) < tokens@.len() ==> (tokens@[*old(pos) as int].token_type
            matches TokenType::Number(n) ==> (r matches Ok(node) && *node == Node::Number(n)
            && *final(pos) == *old(pos) + 1)),
        !(*old(pos) < tokens@.len() && tokens@[*old(pos) as int].token_type
            matches TokenType::Number(_)) ==> (r matches Err(m) && m@ == "expect number"@
            && *final(pos) == *old(pos)),
        *final(pos) <= tokens@.len(),
{
    match expect_number(tokens, pos) {
        Ok(n) => Ok(Box::new(Node::Number(n))),
        Err(_) => Err("expect number".to_owned()),
    }
}

/// Parse a whole expression from the cursor on: a number, then a left
/// fold over `+` and `-`. On success the returned tree is the
/// left-leaning spine of the consumed tokens and evaluates to exactly the
/// folded value; a missing number is the one error.
pub fn expr(tokens: &Vec<Token>, pos: &mut usize) -> (r: Result<Box<Node>, String>)
    requires
        *old(pos) <= tokens@.len(),
    ensures
        ({
            let sp = spec_expr(tok_types(tokens@), *old(pos) as int);
            match r {
                Ok(node) => sp is Some && spec_eval(*node) == sp.unwrap().0 && *final(pos)
                    == sp.unwrap().1 && is_left_spine(
                    tok_types(tokens@),
                    *old(pos) as int,
                    *final(pos) as int,
                    *node,
                ),
                Err(m) => sp is None && m@ == "expect number"@,
            }
        }),
        *final(pos) <= tokens@.len(),
{
    let ghost ts = tok_types(tokens@);
    let ghost p0 = *pos as int;
    let mut node = match number(tokens, pos) {
        Ok(n) => n,
        Err(m) => {
            proof {
                if p0 < ts.len() {
                    assert(ts[p0] == tokens@[p0].token_type);
                }
            }
            return Err(m);
        },
    };
    proof {
        assert(ts[p0] == tokens@[p0].token_type);
    }
    loop
        invariant
            p0 + 1 <= *pos <= tokens@.len(),
            ts == tok_types(tokens@),
            p0 == *old(pos) as int,
            spec_expr(ts, p0) == spec_expr_tail(ts, *pos as int, spec_eval(*node)),
            is_left_spine(ts, p0, *pos as int, *node),
        decreases tokens@.len() - *pos,
    {
        let ghost cur = *pos as int;
        let is_plus = consume(tokens, pos, Punctuation::Plus);
        let is_minus = if is_plus {
            false
        } else {
            consume(tokens, pos, Punctuation::Minus)
        };
        if is_plus || is_minus {
            proof {
                assert(ts[cur] == tokens@[cur].token_type);
            }
            let rhs = match number(tokens, pos) {
                Ok(n) => n,
                Err(m) => {
                    proof {
                        if cur + 1 < ts.len() {
                            assert(ts[cur + 1] == tokens@[cur + 1].token_type);
                        }
                        assert(spec_expr_tail(ts, cur, spec_eval(*node)) is None);
                    }
                    return Err(m);
                },
            };
            proof {
                assert(ts[cur + 1] == tokens@[cur + 1].token_type);
            }
            let ghost acc0 = spec_eval(*node);
            let ghost rv = *rhs;
            proof {
                assert(spec_eval(*rhs) == ts[cur + 1]->Number_0);
            }
            if is_plus {
                node = Box::new(Node::Add { lhs: node, rhs });
            } else {
                node = Box::new(Node::Sub { lhs: node, rhs });
            }
            proof {
                let m = ts[cur + 1]->Number_0;
                assert(cur + 1 < ts.len() && (ts[cur + 1] matches TokenType::Number(_)));
                assert(spec_eval(*node) == (if ts[cur] == TokenType::Punctuation(
                    Punctuation::Plus,
                ) {
                    i32_specs::wrapping_add(acc0, m)
                } else {
                    i32_specs::wrapping_sub(acc0, m)
                }));
                assert(spec_expr_tail(ts, cur, acc0) == spec_expr_tail(
                    ts,
                    cur + 2,
                    spec_eval(*node),
                ));
                assert(*pos == cur + 2);
                assert(rv matches Node::Number(k) && ts[cur + 1] == TokenType::Number(k));
                assert(is_left_spine(ts, p0, *pos as int, *node));
            }
        } else {
            proof {
                if cur < ts.len() {
                    assert(ts[cur] == tokens@[cur].token_type);
                }
                assert(spec_expr_tail(ts, cur, spec_eval(*node)) == Some(
                    (spec_eval(*node), cur),
                ));
            }
            return Ok(node);
        }
    }
}

} // verus!
