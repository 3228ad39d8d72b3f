use policy_lang::ast::ASTNode;
use policy_lang::ast::Quantifier;
use policy_lang::ast::ThreeVarObligation;
use policy_lang::ast::TwoNodeObligation;
use policy_lang::ast::TwoVarObligation;
use policy_lang::ast::VariableBinding;
use policy_lang::ast::VariableClause;
use policy_lang::inference::construct_intermediate_rep;
use policy_lang::inference::determine_var_scope;
use policy_lang::inference::func_call;
use policy_lang::inference::unionize_var_sets;
use policy_lang::inference::BindingBody;
use policy_lang::inference::InferenceError;
use policy_lang::inference::IntermediateNode;

fn flows(s: &str, d: &str) -> ASTNode {
    ASTNode::FlowsTo(TwoVarObligation {
        src: s.to_string(),
        dest: d.to_string(),
    })
}

fn names(v: Vec<&str>) -> Vec<String> {
    v.into_iter().map(|s| s.to_string()).collect()
}

#[test]
fn test_func_call() {
    assert_eq!(func_call(&Quantifier::Any), "any");
    assert_eq!(func_call(&Quantifier::All), "all");
}

#[test]
fn test_unionize_var_sets() {
    let left = names(vec!["a", "b"]);
    let right = names(vec!["b", "c"]);
    let union = unionize_var_sets(&left, &right);
    assert_eq!(union, names(vec!["a", "b", "c"]));
    let empty: Vec<String> = Vec::new();
    assert_eq!(unionize_var_sets(&empty, &right), names(vec!["b", "c"]));
    assert_eq!(unionize_var_sets(&left, &empty), names(vec!["a", "b"]));
}

#[test]
fn test_determine_var_scope_leaves() {
    assert_eq!(determine_var_scope(&flows("a", "b")), names(vec!["a", "b"]));
    assert_eq!(determine_var_scope(&flows("a", "a")), names(vec!["a"]));
    let through = ASTNode::Through(ThreeVarObligation {
        src: "a".to_string(),
        dest: "b".to_string(),
        checkpoint: "c".to_string(),
    });
    assert_eq!(determine_var_scope(&through), names(vec!["a", "b", "c"]));
    let cf = ASTNode::ControlFlow(TwoVarObligation {
        src: "x".to_string(),
        dest: "x".to_string(),
    });
    assert_eq!(determine_var_scope(&cf), names(vec!["x"]));
}

#[test]
fn test_determine_var_scope_combinators() {
    let node = ASTNode::And(Box::new(TwoNodeObligation {
        src: flows("a", "b"),
        dest: ASTNode::Or(Box::new(TwoNodeObligation {
            src: flows("b", "c"),
            dest: flows("c", "a"),
        })),
    }));
    assert_eq!(determine_var_scope(&node), names(vec!["a", "b", "c"]));
}

#[test]
fn test_determine_var_scope_binding_hides_variable() {
    // an introduction hides its own variable from the enclosing scope
    let clause = ASTNode::VarIntroduction(Box::new(VariableClause {
        binding: VariableBinding {
            quantifier: Quantifier::Any,
            variable: "x".to_string(),
            marker: "m".to_string(),
        },
        body: ASTNode::And(Box::new(TwoNodeObligation {
            src: flows("x", "a"),
            dest: flows("x", "b"),
        })),
    }));
    assert_eq!(determine_var_scope(&clause), names(vec!["a", "b"]));
}

#[test]
fn test_construct_intermediate_rep_both_visited() {
    let visited = names(vec!["a", "b"]);
    let rep = construct_intermediate_rep(&flows("a", "b"), &visited);
    assert_eq!(
        rep,
        Ok(IntermediateNode::FlowsTo(TwoVarObligation {
            src: "a".to_string(),
            dest: "b".to_string(),
        }))
    );
}

#[test]
fn test_construct_intermediate_rep_one_new() {
    // with the source already introduced, the destination gets the binding
    let visited = names(vec!["a"]);
    let rep = construct_intermediate_rep(&flows("a", "b"), &visited);
    assert_eq!(
        rep,
        Ok(IntermediateNode::Binding(Box::new(BindingBody {
            variable: "b".to_string(),
            body: IntermediateNode::FlowsTo(TwoVarObligation {
                src: "a".to_string(),
                dest: "b".to_string(),
            }),
        })))
    );
}

#[test]
fn test_construct_intermediate_rep_both_new() {
    // with neither introduced, the destination is introduced first, then
    // the source
    let visited: Vec<String> = Vec::new();
    let rep = construct_intermediate_rep(&flows("a", "b"), &visited);
    assert_eq!(
        rep,
        Ok(IntermediateNode::Binding(Box::new(BindingBody {
            variable: "b".to_string(),
            body: IntermediateNode::Binding(Box::new(BindingBody {
                variable: "a".to_string(),
                body: IntermediateNode::FlowsTo(TwoVarObligation {
                    src: "a".to_string(),
                    dest: "b".to_string(),
                }),
            })),
        })))
    );
}

#[test]
fn test_construct_intermediate_rep_unsupported() {
    let visited: Vec<String> = Vec::new();
    let node = ASTNode::And(Box::new(TwoNodeObligation {
        src: flows("a", "b"),
        dest: flows("b", "c"),
    }));
    assert_eq!(
        construct_intermediate_rep(&node, &visited),
        Err(InferenceError::UnsupportedNode)
    );
    let through = ASTNode::Through(ThreeVarObligation {
        src: "a".to_string(),
        dest: "b".to_string(),
        checkpoint: "c".to_string(),
    });
    assert_eq!(
        construct_intermediate_rep(&through, &visited),
        Err(InferenceError::UnsupportedNode)
    );
}
