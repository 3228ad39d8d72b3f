//! The evaluator: a purely functional walk of the syntax tree against a
//! context snapshot, threading an environment from variable names to bound
//! graph nodes. A quantified clause binds one candidate at a time for the
//! whole of its body, combining the candidates' verdicts universally or
//! existentially with short-circuiting. `Violated` is a normal outcome and
//! carries a witness; a fatal error (an unbound variable, or a control-flow
//! query on a node without a call site) is a distinct `Err` outcome.

use vstd::prelude::*;

use crate::ast::ASTNode;
use crate::ast::AstView;
use crate::ast::PolicyBody;
use crate::ast::PolicyScope;
use crate::ast::Quantifier;
use crate::context::call_site_of;
use crate::context::cf_influence_at;
use crate::context::edge;
use crate::context::spec_marked;
use crate::context::Context;
use crate::context::CtxView;
use crate::context::EdgeKind;
use crate::context::Node;

verus! {

/// The evaluation environment: variable bindings, innermost last.
pub struct Env {
    pub entries: Vec<(String, Node)>,
}

impl View for Env {
    type V = Seq<(Seq<char>, Node)>;

    open spec fn view(&self) -> Seq<(Seq<char>, Node)> {
        self.entries@.map_values(|p: (String, Node)| (p.0@, p.1))
    }
}

/// The node bound to `x`: the innermost binding of that name wins.
pub open spec fn env_lookup(e: Seq<(Seq<char>, Node)>, x: Seq<char>) -> Option<Node>
    decreases e.len(),
{
    if e.len() == 0 {
        None
    } else if e.last().0 == x {
        Some(e.last().1)
    } else {
        env_lookup(e.drop_last(), x)
    }
}

impl Env {
    /// The empty environment.
    pub fn new() -> (r: Env)
        ensures
            r@ == Seq::<(Seq<char>, Node)>::empty(),
    {
        let r = Env { entries: Vec::new() };
        proof {
            assert(r@ =~= Seq::<(Seq<char>, Node)>::empty());
        }
        r
    }

    /// The node bound to `x`, if any.
    pub fn lookup(&self, x: &String) -> (r: Option<Node>)
        ensures
            r == env_lookup(self@, x@),
    {
        let ghost all = self@;
        let mut i: usize = self.entries.len();
        proof {
            assert(all.take(all.len() as int) =~= all);
        }
        while i > 0
            invariant
                i <= self.entries@.len(),
                all == self@,
                all.len() == self.entries@.len(),
                env_lookup(all, x@) == env_lookup(all.take(i as int), x@),
            decreases i,
        {
            let ghost part = all.take(i as int);
            proof {
                assert(part.last() == all[i - 1]);
                assert(part.drop_last() =~= all.take(i - 1));
                assert(all[i - 1] == (self.entries@[i - 1].0@, self.entries@[i - 1].1));
            }
            let p = &self.entries[i - 1];
            if p.0 == *x {
                return Some(p.1);
            }
            i -= 1;
        }
        proof {
            assert(all.take(0) =~= Seq::<(Seq<char>, Node)>::empty());
        }
        None
    }

    /// A copy of the environment with one more binding, the new innermost.
    pub fn bind(&self, x: &String, n: Node) -> (r: Env)
        ensures
            r@ == self@.push((x@, n)),
    {
        let mut entries: Vec<(String, Node)> = Vec::new();
        let mut i: usize = 0;
        while i < self.entries.len()
            invariant
                i <= self.entries@.len(),
                entries@.len() == i,
                forall|j: int|
                    0 <= j < i ==> entries@[j].0@ == self.entries@[j].0@ && entries@[j].1
                        == self.entries@[j].1,
            decreases self.entries@.len() - i,
        {
            let p = &self.entries[i];
            entries.push((p.0.clone(), p.1));
            i += 1;
        }
        entries.push((x.clone(), n));
        let r = Env { entries };
        proof {
            assert(r@ =~= self@.push((x@, n)));
        }
        r
    }
}

/// Why a policy failed: the first candidate of a universal clause whose
/// body failed, the clause no candidate of which satisfied the body, or the
/// concrete leaf relation that did not hold.
#[derive(Debug, PartialEq, Eq)]
pub enum Witness {
    FailedCandidate { variable: String, node: Node },
    NoCandidate { variable: String, marker: String },
    FailedFlow { src: Node, dest: Node },
    FailedControl { src: Node, dest: Node },
    FailedThrough { src: Node, dest: Node, checkpoint: Node },
}

/// The mathematical shape of a witness.
pub enum WitnessView {
    FailedCandidate { variable: Seq<char>, node: Node },
    NoCandidate { variable: Seq<char>, marker: Seq<char> },
    FailedFlow { src: Node, dest: Node },
    FailedControl { src: Node, dest: Node },
    FailedThrough { src: Node, dest: Node, checkpoint: Node },
}

impl View for Witness {
    type V = WitnessView;

    open spec fn view(&self) -> WitnessView {
        match self {
            Witness::FailedCandidate { variable, node } => WitnessView::FailedCandidate {
                variable: variable@,
                node: *node,
            },
            Witness::NoCandidate { variable, marker } => WitnessView::NoCandidate {
                variable: variable@,
                marker: marker@,
            },
            Witness::FailedFlow { src, dest } => WitnessView::FailedFlow {
                src: *src,
                dest: *dest,
            },
            Witness::FailedControl { src, dest } => WitnessView::FailedControl {
                src: *src,
                dest: *dest,
            },
            Witness::FailedThrough { src, dest, checkpoint } => WitnessView::FailedThrough {
                src: *src,
                dest: *dest,
                checkpoint: *checkpoint,
            },
        }
    }
}

/// A normal, expected outcome of evaluating a policy.
#[derive(Debug, PartialEq, Eq)]
pub enum Verdict {
    Satisfied,
    Violated(Witness),
}

/// The mathematical shape of a verdict.
pub enum VerdictView {
    Satisfied,
    Violated(WitnessView),
}

impl View for Verdict {
    type V = VerdictView;

    open spec fn view(&self) -> VerdictView {
        match self {
            Verdict::Satisfied => VerdictView::Satisfied,
            Verdict::Violated(w) => VerdictView::Violated(w@),
        }
    }
}

/// A fatal evaluation error, never conflated with a `Violated` verdict.
#[derive(Debug, PartialEq, Eq)]
pub enum EvalError {
    /// A leaf relation referenced a variable with no binding in scope.
    UnboundVariable(String),
    /// A control-flow influence query on a node with no associated call
    /// site.
    MissingCallSite(Node),
    /// The `sometimes` scope has no evaluation semantics.
    UnsupportedScope,
}

/// The mathematical shape of a fatal error.
pub enum EvalErrorView {
    UnboundVariable(Seq<char>),
    MissingCallSite(Node),
    UnsupportedScope,
}

impl View for EvalError {
    type V = EvalErrorView;

    open spec fn view(&self) -> EvalErrorView {
        match self {
            EvalError::UnboundVariable(x) => EvalErrorView::UnboundVariable(x@),
            EvalError::MissingCallSite(n) => EvalErrorView::MissingCallSite(*n),
            EvalError::UnsupportedScope => EvalErrorView::UnsupportedScope,
        }
    }
}

/// The shape of an evaluation outcome.
pub open spec fn outcome_view(r: Result<Verdict, EvalError>) -> Result<VerdictView, EvalErrorView> {
    match r {
        Ok(v) => Ok(v@),
        Err(e) => Err(e@),
    }
}

/// The evaluator's exact outcome on one node: the same short-circuiting
/// walk the executable evaluator performs, witnesses and errors included.
pub open spec fn eval_node_s(n: AstView, ctx: CtxView, env: Seq<(Seq<char>, Node)>) -> Result<
    VerdictView,
    EvalErrorView,
>
    decreases n, 0nat,
{
    match n {
        AstView::FlowsTo { src, dest } => match env_lookup(env, src) {
            None => Err(EvalErrorView::UnboundVariable(src)),
            Some(a) => match env_lookup(env, dest) {
                None => Err(EvalErrorView::UnboundVariable(dest)),
                Some(b) => if edge(ctx, EdgeKind::Data, a, b) {
                    Ok(VerdictView::Satisfied)
                } else {
                    Ok(VerdictView::Violated(WitnessView::FailedFlow { src: a, dest: b }))
                },
            },
        },
        AstView::ControlFlow { src, dest } => match env_lookup(env, src) {
            None => Err(EvalErrorView::UnboundVariable(src)),
            Some(a) => match env_lookup(env, dest) {
                None => Err(EvalErrorView::UnboundVariable(dest)),
                Some(b) => match call_site_of(ctx.call_sites, b) {
                    None => Err(EvalErrorView::MissingCallSite(b)),
                    Some(tcs) => if cf_influence_at(ctx, a, tcs) {
                        Ok(VerdictView::Satisfied)
                    } else {
                        Ok(VerdictView::Violated(WitnessView::FailedControl { src: a, dest: b }))
                    },
                },
            },
        },
        AstView::Through { src, dest, checkpoint } => match env_lookup(env, src) {
            None => Err(EvalErrorView::UnboundVariable(src)),
            Some(a) => match env_lookup(env, dest) {
                None => Err(EvalErrorView::UnboundVariable(dest)),
                Some(b) => match env_lookup(env, checkpoint) {
                    None => Err(EvalErrorView::UnboundVariable(checkpoint)),
                    Some(c) => if !edge(ctx, EdgeKind::Data, a, c) {
                        Ok(
                            VerdictView::Violated(
                                WitnessView::FailedThrough { src: a, dest: b, checkpoint: c },
                            ),
                        )
                    } else {
                        match call_site_of(ctx.call_sites, b) {
                            None => Err(EvalErrorView::MissingCallSite(b)),
                            Some(tcs) => if cf_influence_at(ctx, c, tcs) {
                                Ok(VerdictView::Satisfied)
                            } else {
                                Ok(
                                    VerdictView::Violated(
                                        WitnessView::FailedThrough {
                                            src: a,
                                            dest: b,
                                            checkpoint: c,
                                        },
                                    ),
                                )
                            },
                        }
                    },
                },
            },
        },
        AstView::And { src, dest } => match eval_node_s(*src, ctx, env) {
            Err(e) => Err(e),
            Ok(VerdictView::Violated(w)) => Ok(VerdictView::Violated(w)),
            Ok(VerdictView::Satisfied) => eval_node_s(*dest, ctx, env),
        },
        AstView::Or { src, dest } => match eval_node_s(*src, ctx, env) {
            Err(e) => Err(e),
            Ok(VerdictView::Satisfied) => Ok(VerdictView::Satisfied),
            Ok(VerdictView::Violated(_)) => eval_node_s(*dest, ctx, env),
        },
        AstView::Implies { src, dest } => match eval_node_s(*src, ctx, env) {
            Err(e) => Err(e),
            Ok(VerdictView::Violated(_)) => Ok(VerdictView::Satisfied),
            Ok(VerdictView::Satisfied) => eval_node_s(*dest, ctx, env),
        },
        AstView::VarIntroduction { quantifier, variable, marker, body } => match quantifier {
            Quantifier::All => eval_all_s(*body, ctx, env, variable, spec_marked(ctx, marker)),
            Quantifier::Any => eval_any_s(
                *body,
                ctx,
                env,
                variable,
                marker,
                spec_marked(ctx, marker),
            ),
        },
    }
}

/// Universal combination: the body must hold of every candidate in turn;
/// the first failing candidate is the witness.
pub open spec fn eval_all_s(
    body: AstView,
    ctx: CtxView,
    env: Seq<(Seq<char>, Node)>,
    variable: Seq<char>,
    cands: Seq<Node>,
) -> Result<VerdictView, EvalErrorView>
    decreases body, cands.len() + 1nat,
{
    if cands.len() == 0 {
        Ok(VerdictView::Satisfied)
    } else {
        match eval_node_s(body, ctx, env.push((variable, cands.first()))) {
            Err(e) => Err(e),
            Ok(VerdictView::Violated(_)) => Ok(
                VerdictView::Violated(
                    WitnessView::FailedCandidate { variable, node: cands.first() },
                ),
            ),
            Ok(VerdictView::Satisfied) => eval_all_s(body, ctx, env, variable, cands.drop_first()),
        }
    }
}

/// Existential combination: the first candidate satisfying the body decides;
/// an exhausted candidate set is a violation whose witness names the
/// variable and marker that found no candidate.
pub open spec fn eval_any_s(
    body: AstView,
    ctx: CtxView,
    env: Seq<(Seq<char>, Node)>,
    variable: Seq<char>,
    marker: Seq<char>,
    cands: Seq<Node>,
) -> Result<VerdictView, EvalErrorView>
    decreases body, cands.len() + 1nat,
{
    if cands.len() == 0 {
        Ok(VerdictView::Violated(WitnessView::NoCandidate { variable, marker }))
    } else {
        match eval_node_s(body, ctx, env.push((variable, cands.first()))) {
            Err(e) => Err(e),
            Ok(VerdictView::Satisfied) => Ok(VerdictView::Satisfied),
            Ok(VerdictView::Violated(_)) => eval_any_s(
                body,
                ctx,
                env,
                variable,
                marker,
                cands.drop_first(),
            ),
        }
    }
}

/// Declarative truth of a node: connectives by their boolean meaning, a
/// universal clause as a `forall` over its candidates, an existential one
/// as an `exists`; meaningful where evaluation completes without a fatal
/// error.
pub open spec fn holds(n: AstView, ctx: CtxView, env: Seq<(Seq<char>, Node)>) -> bool
    decreases n,
{
    match n {
        AstView::FlowsTo { src, dest } => match (env_lookup(env, src), env_lookup(env, dest)) {
            (Some(a), Some(b)) => edge(ctx, EdgeKind::Data, a, b),
            _ => false,
        },
        AstView::ControlFlow { src, dest } => match (env_lookup(env, src), env_lookup(env, dest)) {
            (Some(a), Some(b)) => match call_site_of(ctx.call_sites, b) {
                Some(tcs) => cf_influence_at(ctx, a, tcs),
                None => false,
            },
            _ => false,
        },
        AstView::Through { src, dest, checkpoint } => match (
            env_lookup(env, src),
            env_lookup(env, dest),
            env_lookup(env, checkpoint),
        ) {
            (Some(a), Some(b), Some(c)) => edge(ctx, EdgeKind::Data, a, c) && match call_site_of(
                ctx.call_sites,
                b,
            ) {
                Some(tcs) => cf_influence_at(ctx, c, tcs),
                None => false,
            },
            _ => false,
        },
        AstView::And { src, dest } => holds(*src, ctx, env) && holds(*dest, ctx, env),
        AstView::Or { src, dest } => holds(*src, ctx, env) || holds(*dest, ctx, env),
        AstView::Implies { src, dest } => holds(*src, ctx, env) ==> holds(*dest, ctx, env),
        AstView::VarIntroduction { quantifier, variable, marker, body } => {
            let cands = spec_marked(ctx, marker);
            match quantifier {
                Quantifier::All => forall|i: int|
                    0 <= i < cands.len() ==> holds(*body, ctx, env.push((variable, cands[i]))),
                Quantifier::Any => exists|i: int|
                    0 <= i < cands.len() && holds(*body, ctx, env.push((variable, cands[i]))),
            }
        },
    }
}

/// Evaluates one node: returns exactly what the specification evaluator
/// denotes — the same verdict, the same witness, the same error.
#[verifier::loop_isolation(false)]
fn eval_node(node: &ASTNode, ctx: &Context, env: &Env) -> (r: Result<Verdict, EvalError>)
    ensures
        outcome_view(r) == eval_node_s(node@, ctx@, env@),
    decreases node,
{
    match node {
        ASTNode::FlowsTo(o) => match env.lookup(&o.src) {
            None => Err(EvalError::UnboundVariable(o.src.clone())),
            Some(a) => match env.lookup(&o.dest) {
                None => Err(EvalError::UnboundVariable(o.dest.clone())),
                Some(b) => if ctx.flows_to(a, b, EdgeKind::Data) {
                    Ok(Verdict::Satisfied)
                } else {
                    Ok(Verdict::Violated(Witness::FailedFlow { src: a, dest: b }))
                },
            },
        },
        ASTNode::ControlFlow(o) => match env.lookup(&o.src) {
            None => Err(EvalError::UnboundVariable(o.src.clone())),
            Some(a) => match env.lookup(&o.dest) {
                None => Err(EvalError::UnboundVariable(o.dest.clone())),
                Some(b) => match ctx.has_control_flow_influence(a, b) {
                    None => Err(EvalError::MissingCallSite(b)),
                    Some(true) => Ok(Verdict::Satisfied),
                    Some(false) => Ok(
                        Verdict::Violated(Witness::FailedControl { src: a, dest: b }),
                    ),
                },
            },
        },
        ASTNode::Through(o) => match env.lookup(&o.src) {
            None => Err(EvalError::UnboundVariable(o.src.clone())),
            Some(a) => match env.lookup(&o.dest) {
                None => Err(EvalError::UnboundVariable(o.dest.clone())),
                Some(b) => match env.lookup(&o.checkpoint) {
                    None => Err(EvalError::UnboundVariable(o.checkpoint.clone())),
                    Some(c) => if !ctx.flows_to(a, c, EdgeKind::Data) {
                        Ok(
                            Verdict::Violated(
                                Witness::FailedThrough { src: a, dest: b, checkpoint: c },
                            ),
                        )
                    } else {
                        match ctx.has_control_flow_influence(c, b) {
                            None => Err(EvalError::MissingCallSite(b)),
                            Some(true) => Ok(Verdict::Satisfied),
                            Some(false) => Ok(
                                Verdict::Violated(
                                    Witness::FailedThrough { src: a, dest: b, checkpoint: c },
                                ),
                            ),
                        }
                    },
                },
            },
        },
        ASTNode::And(b) => match eval_node(&b.src, ctx, env) {
            Err(e) => Err(e),
            Ok(Verdict::Violated(w)) => Ok(Verdict::Violated(w)),
            Ok(Verdict::Satisfied) => eval_node(&b.dest, ctx, env),
        },
        ASTNode::Or(b) => match eval_node(&b.src, ctx, env) {
            Err(e) => Err(e),
            Ok(Verdict::Satisfied) => Ok(Verdict::Satisfied),
            Ok(Verdict::Violated(_)) => eval_node(&b.dest, ctx, env),
        },
        ASTNode::Implies(b) => match eval_node(&b.src, ctx, env) {
            Err(e) => Err(e),
            Ok(Verdict::Violated(_)) => Ok(Verdict::Satisfied),
            Ok(Verdict::Satisfied) => eval_node(&b.dest, ctx, env),
        },
        ASTNode::VarIntroduction(c) => {
            let cands = ctx.marked_nodes(&c.binding.marker);
            let ghost bodyv = c.body@;
            let ghost var = c.binding.variable@;
            let ghost cs = cands@;
            match c.binding.quantifier {
                Quantifier::All => {
                    let mut i: usize = 0;
                    proof {
                        assert(cs.skip(0) =~= cs);
                    }
                    while i < cands.len()
                        invariant
                            i <= cs.len(),
                            cs == cands@,
                            cs == spec_marked(ctx@, c.binding.marker@),
                            bodyv == c.body@,
                            var == c.binding.variable@,
                            eval_all_s(bodyv, ctx@, env@, var, cs) == eval_all_s(
                                bodyv,
                                ctx@,
                                env@,
                                var,
                                cs.skip(i as int),
                            ),
                        decreases cs.len() - i,
                    {
                        let ghost rest = cs.skip(i as int);
                        proof {
                            assert(rest.first() == cs[i as int]);
                            assert(rest.drop_first() =~= cs.skip(i as int + 1));
                        }
                        let env2 = env.bind(&c.binding.variable, cands[i]);
                        match eval_node(&c.body, ctx, &env2) {
                            Err(e) => {
                                return Err(e);
                            },
                            Ok(Verdict::Violated(_)) => {
                                return Ok(
                                    Verdict::Violated(
                                        Witness::FailedCandidate {
                                            variable: c.binding.variable.clone(),
                                            node: cands[i],
                                        },
                                    ),
                                );
                            },
                            Ok(Verdict::Satisfied) => {},
                        }
                        i += 1;
                    }
                    proof {
                        assert(cs.skip(cs.len() as int) =~= Seq::<Node>::empty());
                    }
                    Ok(Verdict::Satisfied)
                },
                Quantifier::Any => {
                    let mut i: usize = 0;
                    proof {
                        assert(cs.skip(0) =~= cs);
                    }
                    while i < cands.len()
                        invariant
                            i <= cs.len(),
                            cs == cands@,
                            cs == spec_marked(ctx@, c.binding.marker@),
                            bodyv == c.body@,
                            var == c.binding.variable@,
                            eval_any_s(bodyv, ctx@, env@, var, c.binding.marker@, cs)
                                == eval_any_s(
                                bodyv,
                                ctx@,
                                env@,
                                var,
                                c.binding.marker@,
                                cs.skip(i as int),
                            ),
                        decreases cs.len() - i,
                    {
                        let ghost rest = cs.skip(i as int);
                        proof {
                            assert(rest.first() == cs[i as int]);
                            assert(rest.drop_first() =~= cs.skip(i as int + 1));
                        }
                        let env2 = env.bind(&c.binding.variable, cands[i]);
                        match eval_node(&c.body, ctx, &env2) {
                            Err(e) => {
                                return Err(e);
                            },
                            Ok(Verdict::Satisfied) => {
                                return Ok(Verdict::Satisfied);
                            },
                            Ok(Verdict::Violated(_)) => {},
                        }
                        i += 1;
                    }
                    proof {
                        assert(cs.skip(cs.len() as int) =~= Seq::<Node>::empty());
                    }
                    Ok(
                        Verdict::Violated(
                            Witness::NoCandidate {
                                variable: c.binding.variable.clone(),
                                marker: c.binding.marker.clone(),
                            },
                        ),
                    )
                },
            }
        },
    }
}

/// Looking up the variable just bound yields the bound node.
pub proof fn lemma_env_push_same(env: Seq<(Seq<char>, Node)>, x: Seq<char>, n: Node)
    ensures
        env_lookup(env.push((x, n)), x) == Some(n),
{
    assert(env.push((x, n)).last() == (x, n));
}

/// A new binding leaves every other name's lookup unchanged.
pub proof fn lemma_env_push_other(env: Seq<(Seq<char>, Node)>, x: Seq<char>, n: Node, y: Seq<char>)
    requires
        y != x,
    ensures
        env_lookup(env.push((x, n)), y) == env_lookup(env, y),
{
    assert(env.push((x, n)).last() == (x, n));
    assert(env.push((x, n)).drop_last() =~= env);
}

/// An evaluation that completes without a fatal error returns `Satisfied`
/// exactly when the node's declarative truth holds: the short-circuiting
/// candidate scan of a quantified clause agrees with the corresponding
/// `forall` or `exists` over the candidate set.
pub proof fn lemma_eval_matches_holds(n: AstView, ctx: CtxView, env: Seq<(Seq<char>, Node)>)
    ensures
        eval_node_s(n, ctx, env) matches Ok(v) ==> ((v is Satisfied) <==> holds(n, ctx, env)),
    decreases n, 0nat,
{
    match n {
        AstView::And { src, dest } => {
            lemma_eval_matches_holds(*src, ctx, env);
            lemma_eval_matches_holds(*dest, ctx, env);
        },
        AstView::Or { src, dest } => {
            lemma_eval_matches_holds(*src, ctx, env);
            lemma_eval_matches_holds(*dest, ctx, env);
        },
        AstView::Implies { src, dest } => {
            lemma_eval_matches_holds(*src, ctx, env);
            lemma_eval_matches_holds(*dest, ctx, env);
        },
        AstView::VarIntroduction { quantifier, variable, marker, body } => {
            match quantifier {
                Quantifier::All => {
                    lemma_eval_all(*body, ctx, env, variable, spec_marked(ctx, marker));
                },
                Quantifier::Any => {
                    lemma_eval_any(*body, ctx, env, variable, marker, spec_marked(ctx, marker));
                },
            }
        },
        _ => {},
    }
}

/// The universal scan: `Satisfied` exactly when the body holds of every
/// candidate; a violation carries the first failing candidate as witness.
pub proof fn lemma_eval_all(
    body: AstView,
    ctx: CtxView,
    env: Seq<(Seq<char>, Node)>,
    variable: Seq<char>,
    cands: Seq<Node>,
)
    ensures
        match eval_all_s(body, ctx, env, variable, cands) {
            Ok(v) => match v {
                VerdictView::Satisfied => forall|i: int|
                    0 <= i < cands.len() ==> holds(body, ctx, env.push((variable, cands[i]))),
                VerdictView::Violated(w) => exists|i: int|
                    0 <= i < cands.len() && w == (WitnessView::FailedCandidate {
                        variable,
                        node: cands[i],
                    }) && !holds(body, ctx, env.push((variable, cands[i]))) && (forall|j: int|
                        0 <= j < i ==> holds(body, ctx, env.push((variable, cands[j])))),
            },
            Err(_) => true,
        },
    decreases body, cands.len() + 1nat,
{
    if cands.len() == 0 {
    } else {
        let first_env = env.push((variable, cands.first()));
        lemma_eval_matches_holds(body, ctx, first_env);
        lemma_eval_all(body, ctx, env, variable, cands.drop_first());
        let rest = cands.drop_first();
        assert(forall|i: int| 0 <= i < rest.len() ==> rest[i] == cands[i + 1]);
        assert(cands.first() == cands[0]);
        match eval_node_s(body, ctx, first_env) {
            Err(_) => {},
            Ok(VerdictView::Violated(_)) => {
                let w = WitnessView::FailedCandidate { variable, node: cands[0] };
                assert(0 <= 0 < cands.len() && w == (WitnessView::FailedCandidate {
                    variable,
                    node: cands[0],
                }) && !holds(body, ctx, env.push((variable, cands[0]))) && (forall|j: int|
                    0 <= j < 0 ==> holds(body, ctx, env.push((variable, cands[j])))));
            },
            Ok(VerdictView::Satisfied) => {
                match eval_all_s(body, ctx, env, variable, rest) {
                    Err(_) => {},
                    Ok(VerdictView::Satisfied) => {
                        assert forall|i: int| 0 <= i < cands.len() implies holds(
                            body,
                            ctx,
                            env.push((variable, cands[i])),
                        ) by {
                            if i > 0 {
                                assert(holds(body, ctx, env.push((variable, rest[i - 1]))));
                            }
                        }
                    },
                    Ok(VerdictView::Violated(w)) => {
                        let i = choose|i: int|
                            0 <= i < rest.len() && w == (WitnessView::FailedCandidate {
                                variable,
                                node: rest[i],
                            }) && !holds(body, ctx, env.push((variable, rest[i]))) && (forall|
                                j: int,
                            |
                                0 <= j < i ==> holds(body, ctx, env.push((variable, rest[j]))));
                        assert forall|j: int| 0 <= j < i + 1 implies holds(
                            body,
                            ctx,
                            env.push((variable, cands[j])),
                        ) by {
                            if j > 0 {
                                assert(holds(body, ctx, env.push((variable, rest[j - 1]))));
                            }
                        }
                        assert(0 <= i + 1 < cands.len() && w == (WitnessView::FailedCandidate {
                            variable,
                            node: cands[i + 1],
                        }) && !holds(body, ctx, env.push((variable, cands[i + 1]))));
                    },
                }
            },
        }
    }
}

/// The existential scan: `Satisfied` exactly when the body holds of some
/// candidate; exhaustion is a violation whose witness names the variable
/// and marker that found no candidate.
pub proof fn lemma_eval_any(
    body: AstView,
    ctx: CtxView,
    env: Seq<(Seq<char>, Node)>,
    variable: Seq<char>,
    marker: Seq<char>,
    cands: Seq<Node>,
)
    ensures
        match eval_any_s(body, ctx, env, variable, marker, cands) {
            Ok(v) => match v {
                VerdictView::Satisfied => exists|i: int|
                    0 <= i < cands.len() && holds(body, ctx, env.push((variable, cands[i]))),
                VerdictView::Violated(w) => w == (WitnessView::NoCandidate { variable, marker })
                    && (forall|i: int|
                    0 <= i < cands.len() ==> !holds(body, ctx, env.push((variable, cands[i])))),
            },
            Err(_) => true,
        },
    decreases body, cands.len() + 1nat,
{
    if cands.len() == 0 {
    } else {
        let first_env = env.push((variable, cands.first()));
        lemma_eval_matches_holds(body, ctx, first_env);
        lemma_eval_any(body, ctx, env, variable, marker, cands.drop_first());
        let rest = cands.drop_first();
        assert(forall|i: int| 0 <= i < rest.len() ==> rest[i] == cands[i + 1]);
        assert(cands.first() == cands[0]);
        match eval_node_s(body, ctx, first_env) {
            Err(_) => {},
            Ok(VerdictView::Satisfied) => {
                assert(0 <= 0 < cands.len() && holds(body, ctx, env.push((variable, cands[0]))));
            },
            Ok(VerdictView::Violated(_)) => {
                match eval_any_s(body, ctx, env, variable, marker, rest) {
                    Err(_) => {},
                    Ok(VerdictView::Satisfied) => {
                        let i = choose|i: int|
                            0 <= i < rest.len() && holds(body, ctx, env.push((variable, rest[i])));
                        assert(0 <= i + 1 < cands.len() && holds(
                            body,
                            ctx,
                            env.push((variable, cands[i + 1])),
                        ));
                    },
                    Ok(VerdictView::Violated(_)) => {
                        assert forall|i: int| 0 <= i < cands.len() implies !holds(
                            body,
                            ctx,
                            env.push((variable, cands[i])),
                        ) by {
                            if i > 0 {
                                assert(!holds(body, ctx, env.push((variable, rest[i - 1]))));
                            }
                        }
                    },
                }
            },
        }
    }
}

/// If the premise of an implication is violated, the implication evaluates
/// to `Satisfied` outright, whatever the obligation: nothing is required of
/// the obligation sub-tree, not even that its own evaluation would complete
/// without a fatal error — it is never consulted.
pub proof fn lemma_implies_lazy(
    premise: AstView,
    obligation: AstView,
    ctx: CtxView,
    env: Seq<(Seq<char>, Node)>,
)
    requires
        eval_node_s(premise, ctx, env) matches Ok(v) && v is Violated,
    ensures
        eval_node_s(
            AstView::Implies { src: Box::new(premise), dest: Box::new(obligation) },
            ctx,
            env,
        ) == Ok::<VerdictView, EvalErrorView>(VerdictView::Satisfied),
{
}

/// The clause `some x : "m" ( x flows to a and x flows to b )`.
pub open spec fn some_flows_to_both(x: Seq<char>, m: Seq<char>, a: Seq<char>, b: Seq<char>) -> AstView {
    AstView::VarIntroduction {
        quantifier: Quantifier::Any,
        variable: x,
        marker: m,
        body: Box::new(
            AstView::And {
                src: Box::new(AstView::FlowsTo { src: x, dest: a }),
                dest: Box::new(AstView::FlowsTo { src: x, dest: b }),
            },
        ),
    }
}

/// An existential clause binds one candidate for the whole of its body:
/// `some x : "m" ( x flows to a and x flows to b )` holds exactly when a
/// single candidate for `m` reaches both the node bound to `a` and the node
/// bound to `b` — the same candidate in both conjuncts, never one candidate
/// for the first conjunct and another for the second.
pub proof fn lemma_some_single_binding(
    x: Seq<char>,
    m: Seq<char>,
    a: Seq<char>,
    b: Seq<char>,
    ctx: CtxView,
    env: Seq<(Seq<char>, Node)>,
    na: Node,
    nb: Node,
)
    requires
        x != a,
        x != b,
        env_lookup(env, a) == Some(na),
        env_lookup(env, b) == Some(nb),
    ensures
        holds(some_flows_to_both(x, m, a, b), ctx, env) <==> exists|i: int|
            0 <= i < spec_marked(ctx, m).len() && edge(
                ctx,
                EdgeKind::Data,
                spec_marked(ctx, m)[i],
                na,
            ) && edge(ctx, EdgeKind::Data, spec_marked(ctx, m)[i], nb),
{
    let cands = spec_marked(ctx, m);
    let f1 = AstView::FlowsTo { src: x, dest: a };
    let f2 = AstView::FlowsTo { src: x, dest: b };
    let body = AstView::And { src: Box::new(f1), dest: Box::new(f2) };
    let clause = some_flows_to_both(x, m, a, b);
    assert(clause == (AstView::VarIntroduction {
        quantifier: Quantifier::Any,
        variable: x,
        marker: m,
        body: Box::new(body),
    }));
    assert forall|i: int| 0 <= i < cands.len() implies (holds(
        body,
        ctx,
        env.push((x, cands[i])),
    ) <==> edge(ctx, EdgeKind::Data, cands[i], na) && edge(ctx, EdgeKind::Data, cands[i], nb)) by {
        let env2 = env.push((x, cands[i]));
        lemma_env_push_same(env, x, cands[i]);
        lemma_env_push_other(env, x, cands[i], a);
        lemma_env_push_other(env, x, cands[i], b);
        assert(env_lookup(env2, x) == Some(cands[i]));
        assert(env_lookup(env2, a) == Some(na));
        assert(env_lookup(env2, b) == Some(nb));
        assert(holds(f1, ctx, env2) == edge(ctx, EdgeKind::Data, cands[i], na));
        assert(holds(f2, ctx, env2) == edge(ctx, EdgeKind::Data, cands[i], nb));
        assert(holds(body, ctx, env2) == (holds(f1, ctx, env2) && holds(f2, ctx, env2)));
    }
    if holds(clause, ctx, env) {
        let i = choose|i: int| 0 <= i < cands.len() && holds(body, ctx, env.push((x, cands[i])));
        assert(edge(ctx, EdgeKind::Data, cands[i], na) && edge(ctx, EdgeKind::Data, cands[i], nb));
    }
    if exists|i: int|
        0 <= i < cands.len() && edge(ctx, EdgeKind::Data, cands[i], na) && edge(
            ctx,
            EdgeKind::Data,
            cands[i],
            nb,
        ) {
        let i = choose|i: int|
            0 <= i < cands.len() && edge(ctx, EdgeKind::Data, cands[i], na) && edge(
                ctx,
                EdgeKind::Data,
                cands[i],
                nb,
            );
        assert(holds(body, ctx, env.push((x, cands[i]))));
        match clause {
            AstView::VarIntroduction { variable: xv, marker: mv, body: b2, .. } => {
                assert(*b2 == body && xv == x && mv == m);
                assert(holds(*b2, ctx, env.push((xv, spec_marked(ctx, mv)[i]))));
                assert(exists|j: int|
                    0 <= j < spec_marked(ctx, mv).len() && holds(
                        *b2,
                        ctx,
                        env.push((xv, spec_marked(ctx, mv)[j])),
                    ));
            },
            _ => {},
        }
        assert(holds(clause, ctx, env));
    }
}

/// Evaluates a policy against a context snapshot; `env` supplies the nodes
/// bound to the policy's free variables (empty for a closed policy). An
/// `always` policy is the evaluation of its body; `sometimes` is declared
/// in the grammar but has no evaluation semantics, and is reported as
/// unsupported rather than guessed at.
pub fn evaluate(policy: &PolicyBody, ctx: &Context, env: &Env) -> (r: Result<Verdict, EvalError>)
    ensures
        policy.scope matches PolicyScope::Always ==> outcome_view(r) == eval_node_s(
            policy.body@,
            ctx@,
            env@,
        ),
        policy.scope matches PolicyScope::Always ==> match r {
            Ok(v) => (v matches Verdict::Satisfied) <==> holds(policy.body@, ctx@, env@),
            Err(_) => true,
        },
        policy.scope matches PolicyScope::Sometimes ==> r == Err::<Verdict, EvalError>(
            EvalError::UnsupportedScope,
        ),
{
    proof {
        lemma_eval_matches_holds(policy.body@, ctx@, env@);
    }
    match policy.scope {
        PolicyScope::Always => eval_node(&policy.body, ctx, env),
        PolicyScope::Sometimes => Err(EvalError::UnsupportedScope),
    }
}

} // verus!
