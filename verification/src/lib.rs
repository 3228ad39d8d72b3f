//! A declarative language for information-flow security policies ("does
//! sensitive data always pass an authorization check before reaching this
//! sink?") and the machinery that makes policy text evaluable: a grammar
//! stated as specification functions, a recursive-descent parser proved to
//! return exactly what the grammar denotes, an evaluator proved to resolve
//! quantified clauses into conjunction and disjunction over candidate node
//! sets of a flow-graph snapshot, and the variable-reference analysis of an
//! alternative flat-binding front end.

pub mod ast;
pub mod context;
pub mod eval;
pub mod grammar;
pub mod inference;
pub mod parsers;

pub use ast::ASTNode;
pub use ast::Conjunction;
pub use ast::PolicyBody;
pub use ast::PolicyScope;
pub use ast::Quantifier;
pub use ast::ThreeVarObligation;
pub use ast::TwoNodeObligation;
pub use ast::TwoVarObligation;
pub use ast::VariableBinding;
pub use ast::VariableClause;
