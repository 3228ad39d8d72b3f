//! Variable-reference analysis for an alternative, flat-binding front end:
//! instead of explicit nested clauses, bindings are inferred and inserted
//! around the leaf obligations that reference them. The analysis of which
//! variables a node references is complete; the insertion of bindings is
//! implemented for the two-variable leaf relations only, and every other
//! node is reported as unsupported rather than given guessed semantics.

use vstd::prelude::*;

use crate::ast::ASTNode;
use crate::ast::AstView;
use crate::ast::Quantifier;
use crate::ast::ThreeVarObligation;
use crate::ast::TwoVarObligation;

verus! {

/// The variable names that occur free in a node: names referenced by a
/// leaf relation and not bound by an enclosing introduction.
pub open spec fn free_vars(n: AstView) -> Set<Seq<char>>
    decreases n,
{
    match n {
        AstView::FlowsTo { src, dest } => set![src, dest],
        AstView::ControlFlow { src, dest } => set![src, dest],
        AstView::Through { src, dest, checkpoint } => set![src, dest, checkpoint],
        AstView::And { src, dest } => free_vars(*src).union(free_vars(*dest)),
        AstView::Or { src, dest } => free_vars(*src).union(free_vars(*dest)),
        AstView::Implies { src, dest } => free_vars(*src).union(free_vars(*dest)),
        AstView::VarIntroduction { variable, body, .. } => free_vars(*body).remove(variable),
    }
}

/// Whether the list of names contains `name`.
pub open spec fn has_name(v: Seq<String>, name: Seq<char>) -> bool {
    exists|i: int| 0 <= i < v.len() && v[i]@ == name
}

/// No name occurs twice in the list.
pub open spec fn distinct_names(v: Seq<String>) -> bool {
    forall|i: int, j: int| 0 <= i < j < v.len() ==> v[i]@ != v[j]@
}

/// Whether `name` occurs among the first `k` entries.
pub open spec fn has_name_upto(v: Seq<String>, k: int, name: Seq<char>) -> bool {
    exists|i: int| 0 <= i < k && i < v.len() && v[i]@ == name
}

proof fn lemma_has_name_last(v: Seq<String>)
    requires
        v.len() > 0,
    ensures
        forall|n: Seq<char>|
            #[trigger] has_name(v, n) <==> has_name(v.drop_last(), n) || n == v.last()@,
{
    assert forall|n: Seq<char>|
        #[trigger] has_name(v, n) implies has_name(v.drop_last(), n) || n == v.last()@ by {
        let i = choose|i: int| 0 <= i < v.len() && v[i]@ == n;
        if i < v.len() - 1 {
            assert(v.drop_last()[i]@ == n);
        }
    }
    assert forall|n: Seq<char>|
        has_name(v.drop_last(), n) || n == v.last()@ implies #[trigger] has_name(v, n) by {
        if has_name(v.drop_last(), n) {
            let i = choose|i: int| 0 <= i < v.drop_last().len() && v.drop_last()[i]@ == n;
            assert(v[i]@ == n);
        } else {
            assert(v[v.len() - 1]@ == n);
        }
    }
}

proof fn lemma_distinct_last(v: Seq<String>)
    requires
        v.len() > 0,
        distinct_names(v.drop_last()),
        !has_name(v.drop_last(), v.last()@),
    ensures
        distinct_names(v),
{
    assert forall|i: int, j: int| 0 <= i < j < v.len() implies v[i]@ != v[j]@ by {
        if j < v.len() - 1 {
            assert(v.drop_last()[i]@ == v[i]@ && v.drop_last()[j]@ == v[j]@);
        } else {
            assert(v.drop_last()[i]@ == v[i]@);
            assert(!(0 <= i < v.drop_last().len() && v.drop_last()[i]@ == v.last()@));
        }
    }
}

proof fn lemma_has_name_pointwise(u: Seq<String>, v: Seq<String>)
    requires
        u.len() == v.len(),
        forall|j: int| 0 <= j < u.len() ==> u[j]@ == v[j]@,
    ensures
        forall|n: Seq<char>| #[trigger] has_name(u, n) <==> has_name(v, n),
{
    assert forall|n: Seq<char>| #[trigger] has_name(u, n) implies has_name(v, n) by {
        let i = choose|i: int| 0 <= i < u.len() && u[i]@ == n;
        assert(v[i]@ == n);
    }
    assert forall|n: Seq<char>| has_name(v, n) implies #[trigger] has_name(u, n) by {
        let i = choose|i: int| 0 <= i < v.len() && v[i]@ == n;
        assert(u[i]@ == n);
    }
}

proof fn lemma_upto_step(v: Seq<String>, k: int)
    requires
        0 <= k < v.len(),
    ensures
        forall|n: Seq<char>|
            #[trigger] has_name_upto(v, k + 1, n) <==> has_name_upto(v, k, n) || n == v[k]@,
{
    assert forall|n: Seq<char>|
        #[trigger] has_name_upto(v, k + 1, n) implies has_name_upto(v, k, n) || n == v[k]@ by {
        let i = choose|i: int| 0 <= i < k + 1 && i < v.len() && v[i]@ == n;
        if i < k {
            assert(has_name_upto(v, k, n));
        }
    }
    assert forall|n: Seq<char>|
        has_name_upto(v, k, n) || n == v[k]@ implies #[trigger] has_name_upto(v, k + 1, n) by {
        if has_name_upto(v, k, n) {
            let i = choose|i: int| 0 <= i < k && i < v.len() && v[i]@ == n;
            assert(0 <= i < k + 1 && i < v.len() && v[i]@ == n);
        } else {
            assert(0 <= k < k + 1 && k < v.len() && v[k]@ == n);
        }
    }
}

proof fn lemma_upto_full(v: Seq<String>)
    ensures
        forall|n: Seq<char>| #[trigger] has_name_upto(v, v.len() as int, n) <==> has_name(v, n),
{
    assert forall|n: Seq<char>|
        #[trigger] has_name_upto(v, v.len() as int, n) implies has_name(v, n) by {
        let i = choose|i: int| 0 <= i < v.len() && i < v.len() && v[i]@ == n;
        assert(0 <= i < v.len() && v[i]@ == n);
    }
    assert forall|n: Seq<char>|
        has_name(v, n) implies #[trigger] has_name_upto(v, v.len() as int, n) by {
        let i = choose|i: int| 0 <= i < v.len() && v[i]@ == n;
        assert(0 <= i < v.len() && i < v.len() && v[i]@ == n);
    }
}

fn contains_name(v: &Vec<String>, name: &String) -> (r: bool)
    ensures
        r == has_name(v@, name@),
{
    let mut i: usize = 0;
    while i < v.len()
        invariant
            i <= v@.len(),
            forall|j: int| 0 <= j < i ==> v@[j]@ != name@,
        decreases v@.len() - i,
    {
        if v[i] == *name {
            return true;
        }
        i += 1;
    }
    false
}

/// The name of the iterator combinator that a quantifier turns into when a
/// policy is compiled: an existential check over candidates for `some`, a
/// universal one for `all`.
pub fn func_call(q: &Quantifier) -> (r: &'static str)
    ensures
        *q matches Quantifier::Any ==> r@ == "any"@,
        *q matches Quantifier::All ==> r@ == "all"@,
{
    match q {
        Quantifier::Any => "any",
        Quantifier::All => "all",
    }
}

/// The union of two variable-name sets, each represented as a list without
/// duplicates.
pub fn unionize_var_sets(left: &Vec<String>, right: &Vec<String>) -> (u: Vec<String>)
    requires
        distinct_names(left@),
        distinct_names(right@),
    ensures
        distinct_names(u@),
        forall|n: Seq<char>|
            #[trigger] has_name(u@, n) <==> has_name(left@, n) || has_name(right@, n),
{
    let mut u: Vec<String> = Vec::new();
    let mut i: usize = 0;
    while i < left.len()
        invariant
            i <= left@.len(),
            u@.len() == i,
            forall|j: int| 0 <= j < i ==> u@[j]@ == left@[j]@,
            distinct_names(left@),
        decreases left@.len() - i,
    {
        u.push(left[i].clone());
        i += 1;
    }
    proof {
        lemma_has_name_pointwise(u@, left@);
        assert(distinct_names(u@));
    }
    let mut k: usize = 0;
    while k < right.len()
        invariant
            k <= right@.len(),
            distinct_names(u@),
            forall|n: Seq<char>|
                #[trigger] has_name(u@, n) <==> has_name(left@, n) || has_name_upto(
                    right@,
                    k as int,
                    n,
                ),
        decreases right@.len() - k,
    {
        let ghost u_old = u@;
        if !contains_name(&u, &right[k]) {
            u.push(right[k].clone());
            proof {
                assert(u@.drop_last() =~= u_old);
                assert(u@.last()@ == right@[k as int]@);
                lemma_has_name_last(u@);
                lemma_distinct_last(u@);
            }
        }
        proof {
            lemma_upto_step(right@, k as int);
        }
        k += 1;
    }
    proof {
        lemma_upto_full(right@);
    }
    u
}

/// The intermediate form in which variable bindings appear as explicit
/// wrappers around the obligations that reference them.
#[derive(Debug, PartialEq, Eq)]
pub enum IntermediateNode {
    Binding(Box<BindingBody>),
    Conditional(Box<NonLeafNodeBody>),
    And(Box<NonLeafNodeBody>),
    Or(Box<NonLeafNodeBody>),
    FlowsTo(TwoVarObligation),
    ControlFlow(TwoVarObligation),
    Through(ThreeVarObligation),
}

/// One inserted binding and the sub-tree it scopes over.
#[derive(Debug, PartialEq, Eq)]
pub struct BindingBody {
    pub variable: String,
    pub body: IntermediateNode,
}

/// The two children of a connective in the intermediate form.
#[derive(Debug, PartialEq, Eq)]
pub struct NonLeafNodeBody {
    pub src: IntermediateNode,
    pub dest: IntermediateNode,
}

/// The mathematical shape of the intermediate form.
pub enum IrView {
    Binding { variable: Seq<char>, body: Box<IrView> },
    Conditional { src: Box<IrView>, dest: Box<IrView> },
    And { src: Box<IrView>, dest: Box<IrView> },
    Or { src: Box<IrView>, dest: Box<IrView> },
    FlowsTo { src: Seq<char>, dest: Seq<char> },
    ControlFlow { src: Seq<char>, dest: Seq<char> },
    Through { src: Seq<char>, dest: Seq<char>, checkpoint: Seq<char> },
}

pub open spec fn ir_view(n: IntermediateNode) -> IrView
    decreases n,
{
    match n {
        IntermediateNode::Binding(b) => IrView::Binding {
            variable: b.variable@,
            body: Box::new(ir_view(b.body)),
        },
        IntermediateNode::Conditional(b) => IrView::Conditional {
            src: Box::new(ir_view(b.src)),
            dest: Box::new(ir_view(b.dest)),
        },
        IntermediateNode::And(b) => IrView::And {
            src: Box::new(ir_view(b.src)),
            dest: Box::new(ir_view(b.dest)),
        },
        IntermediateNode::Or(b) => IrView::Or {
            src: Box::new(ir_view(b.src)),
            dest: Box::new(ir_view(b.dest)),
        },
        IntermediateNode::FlowsTo(o) => IrView::FlowsTo { src: o.src@, dest: o.dest@ },
        IntermediateNode::ControlFlow(o) => IrView::ControlFlow { src: o.src@, dest: o.dest@ },
        IntermediateNode::Through(o) => IrView::Through {
            src: o.src@,
            dest: o.dest@,
            checkpoint: o.checkpoint@,
        },
    }
}

impl View for IntermediateNode {
    type V = IrView;

    open spec fn view(&self) -> IrView {
        ir_view(*self)
    }
}

/// The binding wrapping owed to a two-variable leaf: a variable that was
/// already introduced is not re-introduced; when both variables are new,
/// the destination is introduced before the source, because the object a
/// relation speaks about must exist before the relation can range over it.
pub open spec fn leaf_rep(leaf: IrView, src: Seq<char>, dest: Seq<char>, visited: Seq<String>) -> IrView {
    if has_name(visited, src) && has_name(visited, dest) {
        leaf
    } else if has_name(visited, src) {
        IrView::Binding { variable: dest, body: Box::new(leaf) }
    } else if has_name(visited, dest) {
        IrView::Binding { variable: src, body: Box::new(leaf) }
    } else {
        IrView::Binding {
            variable: dest,
            body: Box::new(IrView::Binding { variable: src, body: Box::new(leaf) }),
        }
    }
}

/// A node that the binding-insertion step has no rule for.
#[derive(Debug, PartialEq, Eq)]
pub enum InferenceError {
    UnsupportedNode,
}

fn wrap_leaf(leaf: IntermediateNode, src: &String, dest: &String, visited: &Vec<String>) -> (r:
    IntermediateNode)
    ensures
        r@ == leaf_rep(leaf@, src@, dest@, visited@),
{
    let src_seen = contains_name(visited, src);
    let dest_seen = contains_name(visited, dest);
    if src_seen && dest_seen {
        leaf
    } else if src_seen {
        IntermediateNode::Binding(Box::new(BindingBody { variable: dest.clone(), body: leaf }))
    } else if dest_seen {
        IntermediateNode::Binding(Box::new(BindingBody { variable: src.clone(), body: leaf }))
    } else {
        let inner = IntermediateNode::Binding(
            Box::new(BindingBody { variable: src.clone(), body: leaf }),
        );
        assert(inner@ == (IrView::Binding { variable: src@, body: Box::new(leaf@) }));
        let r = IntermediateNode::Binding(
            Box::new(BindingBody { variable: dest.clone(), body: inner }),
        );
        assert(r@ == (IrView::Binding {
            variable: dest@,
            body: Box::new(IrView::Binding { variable: src@, body: Box::new(leaf@) }),
        }));
        assert(r@ == leaf_rep(leaf@, src@, dest@, visited@));
        r
    }
}

/// Inserts the bindings a leaf relation needs, given the variables already
/// introduced around it. Only the two-variable leaves have a rule here;
/// `through` relations and connectives are reported as unsupported.
pub fn construct_intermediate_rep(node: &ASTNode, visited: &Vec<String>) -> (r: Result<
    IntermediateNode,
    InferenceError,
>)
    ensures
        match r {
            Ok(rep) => match node@ {
                AstView::FlowsTo { src, dest } => rep@ == leaf_rep(
                    IrView::FlowsTo { src, dest },
                    src,
                    dest,
                    visited@,
                ),
                AstView::ControlFlow { src, dest } => rep@ == leaf_rep(
                    IrView::ControlFlow { src, dest },
                    src,
                    dest,
                    visited@,
                ),
                _ => false,
            },
            Err(e) => !(node@ is FlowsTo) && !(node@ is ControlFlow) && e
                == InferenceError::UnsupportedNode,
        },
{
    match node {
        ASTNode::FlowsTo(o) => {
            let leaf = IntermediateNode::FlowsTo(
                TwoVarObligation { src: o.src.clone(), dest: o.dest.clone() },
            );
            Ok(wrap_leaf(leaf, &o.src, &o.dest, visited))
        },
        ASTNode::ControlFlow(o) => {
            let leaf = IntermediateNode::ControlFlow(
                TwoVarObligation { src: o.src.clone(), dest: o.dest.clone() },
            );
            Ok(wrap_leaf(leaf, &o.src, &o.dest, visited))
        },
        _ => Err(InferenceError::UnsupportedNode),
    }
}

/// Lists, bottom-up, the variables that `node` and its children reference:
/// exactly the free variables of the node, each name once.
pub fn determine_var_scope(node: &ASTNode) -> (vars: Vec<String>)
    ensures
        distinct_names(vars@),
        forall|n: Seq<char>| #[trigger] has_name(vars@, n) <==> free_vars(node@).contains(n),
    decreases node,
{
    match node {
        ASTNode::FlowsTo(o) => leaf_names2(&o.src, &o.dest),
        ASTNode::ControlFlow(o) => leaf_names2(&o.src, &o.dest),
        ASTNode::Through(o) => leaf_names3(&o.src, &o.dest, &o.checkpoint),
        ASTNode::And(b) => {
            let left = determine_var_scope(&b.src);
            let right = determine_var_scope(&b.dest);
            unionize_var_sets(&left, &right)
        },
        ASTNode::Or(b) => {
            let left = determine_var_scope(&b.src);
            let right = determine_var_scope(&b.dest);
            unionize_var_sets(&left, &right)
        },
        ASTNode::Implies(b) => {
            let left = determine_var_scope(&b.src);
            let right = determine_var_scope(&b.dest);
            unionize_var_sets(&left, &right)
        },
        ASTNode::VarIntroduction(c) => {
            let inner = determine_var_scope(&c.body);
            let mut out: Vec<String> = Vec::new();
            let mut i: usize = 0;
            while i < inner.len()
                invariant
                    i <= inner@.len(),
                    distinct_names(inner@),
                    distinct_names(out@),
                    forall|n: Seq<char>|
                        #[trigger] has_name(inner@, n) <==> free_vars(c.body@).contains(n),
                    forall|n: Seq<char>|
                        #[trigger] has_name(out@, n) <==> has_name_upto(inner@, i as int, n) && n
                            != c.binding.variable@,
                decreases inner@.len() - i,
            {
                let ghost out_old = out@;
                if !(inner[i] == c.binding.variable) {
                    proof {
                        if has_name(out@, inner@[i as int]@) {
                            let j = choose|j: int|
                                0 <= j < i && j < inner@.len() && inner@[j]@ == inner@[i as int]@;
                            assert(false);
                        }
                    }
                    out.push(inner[i].clone());
                    proof {
                        assert(out@.drop_last() =~= out_old);
                        assert(out@.last()@ == inner@[i as int]@);
                        lemma_has_name_last(out@);
                        lemma_distinct_last(out@);
                    }
                }
                proof {
                    lemma_upto_step(inner@, i as int);
                }
                i += 1;
            }
            proof {
                lemma_upto_full(inner@);
            }
            out
        },
    }
}

fn leaf_names2(a: &String, b: &String) -> (v: Vec<String>)
    ensures
        distinct_names(v@),
        forall|n: Seq<char>| #[trigger] has_name(v@, n) <==> n == a@ || n == b@,
{
    let mut v: Vec<String> = Vec::new();
    v.push(a.clone());
    proof {
        assert(v@.drop_last() =~= Seq::<String>::empty());
        lemma_has_name_last(v@);
        lemma_distinct_last(v@);
    }
    if !(*b == *a) {
        let ghost v_old = v@;
        v.push(b.clone());
        proof {
            assert(v@.drop_last() =~= v_old);
            lemma_has_name_last(v@);
            lemma_distinct_last(v@);
        }
    }
    v
}

fn leaf_names3(a: &String, b: &String, c: &String) -> (v: Vec<String>)
    ensures
        distinct_names(v@),
        forall|n: Seq<char>| #[trigger] has_name(v@, n) <==> n == a@ || n == b@ || n == c@,
{
    let mut v: Vec<String> = Vec::new();
    v.push(a.clone());
    proof {
        assert(v@.drop_last() =~= Seq::<String>::empty());
        lemma_has_name_last(v@);
        lemma_distinct_last(v@);
    }
    if !(*b == *a) {
        let ghost v_old = v@;
        v.push(b.clone());
        proof {
            assert(v@.drop_last() =~= v_old);
            lemma_has_name_last(v@);
            lemma_distinct_last(v@);
        }
    }
    if !(*c == *a) && !(*c == *b) {
        let ghost v_old = v@;
        v.push(c.clone());
        proof {
            assert(v@.drop_last() =~= v_old);
            lemma_has_name_last(v@);
            lemma_distinct_last(v@);
        }
    }
    v
}

} // verus!
