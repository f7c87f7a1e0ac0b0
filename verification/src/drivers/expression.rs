//! Driver expressions: the syntax tree of a scripted expression.

use vstd::prelude::*;

verus! {

/// A parsed driver expression ready for evaluation.
#[derive(Debug, Clone)]
pub struct Expression {
    /// The root node of the expression tree.
    pub root: ExprNode,
    /// The original expression text.
    pub source: String,
}

/// Expression tree node.
#[derive(Debug)]
pub enum ExprNode {
    /// Numeric constant, as written in the expression: digits and dots with
    /// an optional exponent, in `f64::from_str` syntax.
    Literal(String),
    /// Named variable reference.
    Variable(String),
    /// Binary operation.
    BinaryOp { op: BinaryOp, left: Box<ExprNode>, right: Box<ExprNode> },
    /// Unary negation.
    Negate(Box<ExprNode>),
    /// Function call.
    FunctionCall { name: String, args: Vec<ExprNode> },
    /// Ternary conditional: condition, then, else.
    Conditional { condition: Box<ExprNode>, then_expr: Box<ExprNode>, else_expr: Box<ExprNode> },
}

/// Binary operators.
#[derive(Debug, Clone, Copy, PartialEq, Eq, Structural)]
pub enum BinaryOp {
    Add,
    Sub,
    Mul,
    Div,
    Mod,
    Pow,
    Less,
    LessEq,
    Greater,
    GreaterEq,
    Equal,
    NotEqual,
    And,
    Or,
}

/// The mathematical form of an expression tree.
pub enum ExprModel {
    Literal(Seq<char>),
    Variable(Seq<char>),
    BinaryOp { op: BinaryOp, left: Box<ExprModel>, right: Box<ExprModel> },
    Negate(Box<ExprModel>),
    FunctionCall { name: Seq<char>, args: Seq<ExprModel> },
    Conditional { condition: Box<ExprModel>, then_expr: Box<ExprModel>, else_expr: Box<ExprModel> },
}

impl ExprNode {
    pub open spec fn model(self) -> ExprModel
        decreases self,
    {
        match self {
            ExprNode::Literal(text) => ExprModel::Literal(text@),
            ExprNode::Variable(name) => ExprModel::Variable(name@),
            ExprNode::BinaryOp { op, left, right } => ExprModel::BinaryOp {
                op,
                left: Box::new(left.model()),
                right: Box::new(right.model()),
            },
            ExprNode::Negate(inner) => ExprModel::Negate(Box::new(inner.model())),
            ExprNode::FunctionCall { name, args } => ExprModel::FunctionCall {
                name: name@,
                args: Seq::new(
                    args@.len(),
                    |i: int| if 0 <= i < args.len() { args[i].model() } else { ExprModel::Literal(Seq::empty()) },
                ),
            },
            ExprNode::Conditional { condition, then_expr, else_expr } => ExprModel::Conditional {
                condition: Box::new(condition.model()),
                then_expr: Box::new(then_expr.model()),
                else_expr: Box::new(else_expr.model()),
            },
        }
    }
}

/// Copies of the nodes, in order.
fn clone_nodes(v: &Vec<ExprNode>) -> (r: Vec<ExprNode>)
    ensures
        r@.len() == v@.len(),
        forall|i: int| 0 <= i < v@.len() ==> (#[trigger] r[i]).model() == v[i].model(),
    decreases v,
{
    let mut r: Vec<ExprNode> = Vec::new();
    let mut i: usize = 0;
    while i < v.len()
        invariant
            i <= v.len(),
            r@.len() == i,
            forall|j: int| 0 <= j < i ==> (#[trigger] r[j]).model() == v[j].model(),
        decreases v.len() - i,
    {
        proof {
            assert(decreases_to!(*v => v[i as int]));
        }
        r.push(v[i].clone());
        i = i + 1;
    }
    r
}

impl Clone for ExprNode {
    /// A deep copy, with the same model.
    fn clone(&self) -> (r: Self)
        ensures
            r.model() == self.model(),
        decreases self,
    {
        match self {
            ExprNode::Literal(text) => ExprNode::Literal(text.clone()),
            ExprNode::Variable(name) => ExprNode::Variable(name.clone()),
            ExprNode::BinaryOp { op, left, right } => ExprNode::BinaryOp {
                op: *op,
                left: Box::new((**left).clone()),
                right: Box::new((**right).clone()),
            },
            ExprNode::Negate(inner) => ExprNode::Negate(Box::new((**inner).clone())),
            ExprNode::FunctionCall { name, args } => {
                let r = ExprNode::FunctionCall { name: name.clone(), args: clone_nodes(args) };
                assert(r.model()->FunctionCall_args =~= self.model()->FunctionCall_args);
                r
            },
            ExprNode::Conditional { condition, then_expr, else_expr } => ExprNode::Conditional {
                condition: Box::new((**condition).clone()),
                then_expr: Box::new((**then_expr).clone()),
                else_expr: Box::new((**else_expr).clone()),
            },
        }
    }
}

} // verus!
