//! Binary operators and their written form: which token each operator is
//! read from.

use vstd::prelude::*;

use super::expression::BinaryOp;
use super::parser::{bin_op, lex, Tok};

verus! {

// ---------------------------------------------------------------------------
// Operators and their written form.
// ---------------------------------------------------------------------------

/// How a binary operator is written in an expression.
pub open spec fn op_symbol(op: BinaryOp) -> Seq<char> {
    match op {
        BinaryOp::Add => seq!['+'],
        BinaryOp::Sub => seq!['-'],
        BinaryOp::Mul => seq!['*'],
        BinaryOp::Div => seq!['/'],
        BinaryOp::Mod => seq!['%'],
        BinaryOp::Pow => seq!['^'],
        BinaryOp::Less => seq!['<'],
        BinaryOp::LessEq => seq!['<', '='],
        BinaryOp::Greater => seq!['>'],
        BinaryOp::GreaterEq => seq!['>', '='],
        BinaryOp::Equal => seq!['=', '='],
        BinaryOp::NotEqual => seq!['!', '='],
        BinaryOp::And => seq!['&', '&'],
        BinaryOp::Or => seq!['|', '|'],
    }
}

/// The precedence level of a binary operator: 5 `||`, 4 `&&`, 3
/// comparisons, 2 `+ -`, 1 `* / %`, 0 `^` (read by the power rule).
pub open spec fn op_level(op: BinaryOp) -> int {
    match op {
        BinaryOp::Or => 5,
        BinaryOp::And => 4,
        BinaryOp::Less | BinaryOp::LessEq | BinaryOp::Greater | BinaryOp::GreaterEq | BinaryOp::Equal
        | BinaryOp::NotEqual => 3,
        BinaryOp::Add | BinaryOp::Sub => 2,
        BinaryOp::Mul | BinaryOp::Div | BinaryOp::Mod => 1,
        BinaryOp::Pow => 0,
    }
}

/// An operator token read at its level stands for the operator that is
/// written as that token: the level is the operator's own, and the
/// operator's written form reads back as exactly that token. So distinct
/// tokens of a level stand for distinct operators.
pub proof fn lemma_token_operator_written_form(lvl: int, k: Tok)
    requires
        1 <= lvl <= 5,
        bin_op(lvl, k) is Some,
    ensures
        op_level(bin_op(lvl, k)->Some_0) == lvl,
        lex(op_symbol(bin_op(lvl, k)->Some_0), 0) == Ok::<Seq<Tok>, Seq<char>>(seq![k]),
{
    let cs = op_symbol(bin_op(lvl, k)->Some_0);
    assert(lex(cs, cs.len() as int) == Ok::<Seq<Tok>, Seq<char>>(Seq::empty()));
    assert(seq![k] + Seq::<Tok>::empty() =~= seq![k]);
}

/// Every binary operator but `^` (read by the power rule) is parsed from
/// its written form: that text is one token, which stands for the operator
/// at the operator's level.
pub proof fn lemma_written_operator_parses(op: BinaryOp)
    requires
        op != BinaryOp::Pow,
    ensures
        lex(op_symbol(op), 0) matches Ok(ts) && ts.len() == 1 && bin_op(op_level(op), ts[0]) == Some(op),
{
    let cs = op_symbol(op);
    assert(lex(cs, cs.len() as int) == Ok::<Seq<Tok>, Seq<char>>(Seq::empty()));
}

} // verus!
