use vstd::prelude::*;

verus! {

/// How a clause combines the candidate nodes of its marker: existentially
/// (`Any`, written `some` in policy text) or universally (`All`).
#[derive(Debug, PartialEq, Eq, Clone, Copy, Structural)]
pub enum Quantifier {
    Any,
    All,
}

/// Whether a policy must hold on every run (`Always`) or merely on some run
/// (`Sometimes`; declared in the grammar, but without evaluation semantics).
#[derive(Debug, PartialEq, Eq, Clone, Copy, Structural)]
pub enum PolicyScope {
    Always,
    Sometimes,
}

/// The binary connectives of the policy language.
#[derive(Debug, PartialEq, Eq, Clone, Copy, Structural)]
pub enum Conjunction {
    And,
    Or,
    Implies,
}

/// A relation between two policy variables: `src flows to dest`, or
/// `src has control flow influence on dest`.
#[derive(Debug, PartialEq, Eq, Clone)]
pub struct TwoVarObligation {
    pub src: String,
    pub dest: String,
}

/// A data flow from `src` to `dest` that must pass through `checkpoint`.
#[derive(Debug, PartialEq, Eq, Clone)]
pub struct ThreeVarObligation {
    pub src: String,
    pub dest: String,
    pub checkpoint: String,
}

/// Two sub-expressions joined by a connective; the connective itself is the
/// `ASTNode` variant that owns this pair.
#[derive(Debug, PartialEq, Eq)]
pub struct TwoNodeObligation {
    pub src: ASTNode,
    pub dest: ASTNode,
}

/// One variable introduction: its quantifier, the variable's name, and the
/// marker whose nodes the variable ranges over.
#[derive(Debug, PartialEq, Eq, Clone)]
pub struct VariableBinding {
    pub quantifier: Quantifier,
    pub variable: String,
    pub marker: String,
}

/// A quantified clause: a binding together with the body it scopes over.
#[derive(Debug, PartialEq, Eq)]
pub struct VariableClause {
    pub binding: VariableBinding,
    pub body: ASTNode,
}

/// The policy syntax tree: three leaf relations, three right-nested binary
/// connectives, and variable introduction. Children are owned outright, so
/// the tree is finite and acyclic by construction.
#[derive(Debug, PartialEq, Eq)]
pub enum ASTNode {
    FlowsTo(TwoVarObligation),
    ControlFlow(TwoVarObligation),
    Through(ThreeVarObligation),
    And(Box<TwoNodeObligation>),
    Or(Box<TwoNodeObligation>),
    Implies(Box<TwoNodeObligation>),
    VarIntroduction(Box<VariableClause>),
}

/// A whole policy: its scope and its top-level expression.
#[derive(Debug, PartialEq, Eq)]
pub struct PolicyBody {
    pub scope: PolicyScope,
    pub body: ASTNode,
}

/// The mathematical shape of a syntax tree, with variable and marker names
/// as character sequences.
pub enum AstView {
    FlowsTo { src: Seq<char>, dest: Seq<char> },
    ControlFlow { src: Seq<char>, dest: Seq<char> },
    Through { src: Seq<char>, dest: Seq<char>, checkpoint: Seq<char> },
    And { src: Box<AstView>, dest: Box<AstView> },
    Or { src: Box<AstView>, dest: Box<AstView> },
    Implies { src: Box<AstView>, dest: Box<AstView> },
    VarIntroduction {
        quantifier: Quantifier,
        variable: Seq<char>,
        marker: Seq<char>,
        body: Box<AstView>,
    },
}

pub open spec fn ast_view(n: ASTNode) -> AstView
    decreases n,
{
    match n {
        ASTNode::FlowsTo(o) => AstView::FlowsTo { src: o.src@, dest: o.dest@ },
        ASTNode::ControlFlow(o) => AstView::ControlFlow { src: o.src@, dest: o.dest@ },
        ASTNode::Through(o) => AstView::Through {
            src: o.src@,
            dest: o.dest@,
            checkpoint: o.checkpoint@,
        },
        ASTNode::And(b) => AstView::And {
            src: Box::new(ast_view(b.src)),
            dest: Box::new(ast_view(b.dest)),
        },
        ASTNode::Or(b) => AstView::Or {
            src: Box::new(ast_view(b.src)),
            dest: Box::new(ast_view(b.dest)),
        },
        ASTNode::Implies(b) => AstView::Implies {
            src: Box::new(ast_view(b.src)),
            dest: Box::new(ast_view(b.dest)),
        },
        ASTNode::VarIntroduction(c) => AstView::VarIntroduction {
            quantifier: c.binding.quantifier,
            variable: c.binding.variable@,
            marker: c.binding.marker@,
            body: Box::new(ast_view(c.body)),
        },
    }
}

impl View for ASTNode {
    type V = AstView;

    open spec fn view(&self) -> AstView {
        ast_view(*self)
    }
}

/// The mathematical shape of a whole policy.
pub struct PolicyView {
    pub scope: PolicyScope,
    pub body: AstView,
}

impl View for PolicyBody {
    type V = PolicyView;

    open spec fn view(&self) -> PolicyView {
        PolicyView { scope: self.scope, body: self.body@ }
    }
}

/// Every operand along the top-level spine of connectives is a quantified
/// clause. The top-level grammar admits exactly such trees: a bare leaf
/// relation can only occur inside some clause's body.
pub open spec fn clause_led(n: AstView) -> bool
    decreases n,
{
    match n {
        AstView::VarIntroduction { .. } => true,
        AstView::And { src, dest } => (*src is VarIntroduction) && clause_led(*dest),
        AstView::Or { src, dest } => (*src is VarIntroduction) && clause_led(*dest),
        AstView::Implies { src, dest } => (*src is VarIntroduction) && clause_led(*dest),
        _ => false,
    }
}

} // verus!
