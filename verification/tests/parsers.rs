use policy_lang::parsers::alphabetic_w_underscores;
use policy_lang::parsers::body;
use policy_lang::parsers::flows_to_or_through_expr;
use policy_lang::parsers::joined_clauses;
use policy_lang::parsers::joined_variable_clauses;
use policy_lang::parsers::marker;
use policy_lang::parsers::parse;
use policy_lang::parsers::scope;
use policy_lang::parsers::variable;
use policy_lang::parsers::variable_clause;
use policy_lang::ASTNode;
use policy_lang::PolicyBody;
use policy_lang::PolicyScope;
use policy_lang::Quantifier;
use policy_lang::ThreeVarObligation;
use policy_lang::TwoNodeObligation;
use policy_lang::TwoVarObligation;
use policy_lang::VariableBinding;
use policy_lang::VariableClause;


#[test]
fn test_scope() {
    let always = "always:";
    let sometimes = "sometimes:";
    let always_w_punc = "\nalways: \n";
    let sometimes_w_punc = "\nsometimes: \n";

    assert_eq!(scope(always), Ok(("", PolicyScope::Always)));
    assert_eq!(scope(always_w_punc), Ok(("", PolicyScope::Always)));
    assert_eq!(scope(sometimes), Ok(("", PolicyScope::Sometimes)));
    assert_eq!(scope(sometimes_w_punc), Ok(("", PolicyScope::Sometimes)));
}

#[test]
fn test_alphabetic_w_underscores() {
    let no_underscores = "var";
    let one_underscore = "hello_world";
    let two_underscores = "community_delete_check";
    let trailing_underscore = "hello_world_";
    let five_underscores = "this_is_a_long_variable";

    assert_eq!(
        alphabetic_w_underscores(no_underscores),
        Ok(("", no_underscores))
    );
    assert_eq!(
        alphabetic_w_underscores(one_underscore),
        Ok(("", one_underscore))
    );
    assert_eq!(
        alphabetic_w_underscores(two_underscores),
        Ok(("", two_underscores))
    );
    assert_eq!(
        alphabetic_w_underscores(trailing_underscore),
        Ok(("", trailing_underscore))
    );
    assert_eq!(
        alphabetic_w_underscores(five_underscores),
        Ok(("", five_underscores))
    );

    // these are errors for now, but don't need to be
    let leading_underscore = "_hello_world";
    let two_consec_underscores = "multiple__underscores";
    assert!(alphabetic_w_underscores(leading_underscore).is_err());
    let two_consec_res = alphabetic_w_underscores(two_consec_underscores);
    assert!(match two_consec_res {
        Ok((rem, _)) => !rem.is_empty(),
        Err(_) => true,
    });
}

#[test]
fn test_marker() {
    let a = "\"a\"";
    let b = "\"sensitive\"";
    let err1 = "sensitive";
    let err2 = "\"sensitive";

    assert_eq!(marker(a), Ok(("", "a")));
    assert_eq!(marker(b), Ok(("", "sensitive")));
    assert!(marker(err1).is_err());
    assert!(marker(err2).is_err());
}

#[test]
fn test_variable() {
    let var1 = "a";
    let var2 = "sensitive";
    let wrong = "123hello";
    let partially_keyword = "a flows to b";

    assert_eq!(variable(var1), Ok(("", "a")));
    assert_eq!(variable(var2), Ok(("", "sensitive")));
    assert_eq!(
        variable(partially_keyword),
        Ok((" flows to b", "a"))
    );
    assert!(variable(wrong).is_err());
}

#[test]
fn test_flows_to_or_through_expr() {
    let policy1 = "a flows to b";
    let policy1_ans = ASTNode::FlowsTo(TwoVarObligation {src: "a".into(), dest: "b".into()});
    let policy2 = "a flows to b through c";
    let policy2_ans = ASTNode::Through(ThreeVarObligation {src: "a".into(), dest: "b".into(), checkpoint: "c".into()});
    
    let err1 = "a has control flow influence on b";
    let err2 = "a flows to b through c through d";

    assert_eq!(flows_to_or_through_expr(policy1), Ok(("", policy1_ans)));
    assert_eq!(flows_to_or_through_expr(policy2), Ok(("", policy2_ans)));
    assert!(flows_to_or_through_expr(err1).is_err());
    assert_eq!(flows_to_or_through_expr(err2), Ok((" through d", ASTNode::Through(ThreeVarObligation { src: "a".into(), dest: "b".into(), checkpoint: "c".into() }))));
}

#[test]
fn test_body() {
    let through = "a flows to b through c";
    let through_ans = ASTNode::Through(ThreeVarObligation {
        src: "a".into(),
        dest: "b".into() ,
        checkpoint: "c".into() 
    });

    let flows_to = "a flows to b";
    let flows_to_ans = ASTNode::FlowsTo(TwoVarObligation {
        src: "a".into() ,
        dest: "b".into() 
    });
    let control_flow = "a has control flow influence on b";
    let control_flow_ans = ASTNode::ControlFlow(TwoVarObligation {
        src: "a".into(),
        dest: "b".into() 
    });

    let joined1 = "a flows to b and a flows to b through c";
    let joined1_ans = ASTNode::And(
        Box::new(
            TwoNodeObligation {
                src: ASTNode::FlowsTo(TwoVarObligation {
                    src: "a".into(), 
                    dest: "b".into() 
                }),
                dest: ASTNode::Through(ThreeVarObligation {
                    src: "a".into(), 
                    dest: "b".into(),
                    checkpoint: "c".into() 
                }),
            }
        )
    );

    let joined2 = "a flows to b and a flows to b through c or a has control flow influence on b";
    let joined2_ans = ASTNode::And(
        Box::new(
            TwoNodeObligation {
                src: ASTNode::FlowsTo(TwoVarObligation {
                    src: "a".into(), 
                    dest: "b".into() 
                }),
                dest: ASTNode::Or(
                    Box::new(
                        TwoNodeObligation {
                            src: ASTNode::Through(
                                ThreeVarObligation {
                                    src: "a".into(), 
                                    dest: "b".into(),
                                    checkpoint: "c".into()
                                }),
                            dest: ASTNode::ControlFlow(
                                TwoVarObligation {
                                    src: "a".into(), 
                                    dest: "b".into() 
                                }),
                        }
                    )),
            }
        )
    );

    let joined3 = "a has control flow influence on b implies a flows to c and b flows to c";
    let joined3_ans = ASTNode::Implies(Box::new(TwoNodeObligation {
        src: ASTNode::ControlFlow(TwoVarObligation{
            src: "a".into(),
            dest: "b".into(),
        }),
        dest: ASTNode::And(
            Box::new(
                TwoNodeObligation {
                    src: ASTNode::FlowsTo(TwoVarObligation {
                        src: "a".into(), 
                        dest: "c".into() 
                    }),
                    dest: ASTNode::FlowsTo(TwoVarObligation {
                        src: "b".into(), 
                        dest: "c".into() 
                    }),
                }
            ))
    }));

    let err1 = "a flows to";
    let err2 = "a flows to b through";
    let err3 = "a has control flow influence on";

    assert_eq!(body(through), Ok(("", through_ans)));
    assert_eq!(body(flows_to), Ok(("", flows_to_ans)));
    assert_eq!(body(control_flow), Ok(("", control_flow_ans)));
    assert_eq!(body(joined1), Ok(("", joined1_ans)));
    assert_eq!(body(joined2), Ok(("", joined2_ans)));
    assert_eq!(body(joined3), Ok(("", joined3_ans)));
    assert!(body(err1).is_err());
    assert_eq!(body(err2), Ok((" through", ASTNode::FlowsTo(TwoVarObligation {src: "a".into(), dest: "b".into()}))));
    assert!(body(err3).is_err());
}


#[test]
fn test_variable_clause() {
    let simple_body = 
        "all dc : \"delete_check\" ( 
            dc flows to sink
        )";
    
    let simple_body_ans =
        ASTNode::VarIntroduction(Box::new(VariableClause {
            binding: VariableBinding {quantifier: Quantifier::All, variable: "dc".into(), marker: "delete_check".into()},
            body: ASTNode::FlowsTo(TwoVarObligation{src: "dc".into(), dest: "sink".into()})
        }));
    
    let joined_body =
        "all dc : \"delete_check\" ( 
            dc flows to sink or dc flows to encrypts and dc flows to source
        )";
    let joined_body_ans =
        ASTNode::VarIntroduction(Box::new (VariableClause {
            binding: VariableBinding {quantifier: Quantifier::All, variable: "dc".into(), marker: "delete_check".into()},
            body: ASTNode::Or(
                Box::new(TwoNodeObligation {
                    src: ASTNode::FlowsTo(TwoVarObligation{src: "dc".into(), dest: "sink".into()}),
                    dest: ASTNode::And(Box::new(TwoNodeObligation {
                        src: ASTNode::FlowsTo(TwoVarObligation{src: "dc".into(), dest: "encrypts".into()}),
                        dest: ASTNode::FlowsTo(TwoVarObligation{src: "dc".into(), dest: "source".into()}),
                    }))
                })
            ) 
        }));

    let triple_nested = 
        "some a : \"a\" (
            some b : \"b\" (
                some c : \"c\" (
                    a flows to c
                )
            )
        )";
    let triple_nested_ans =
    ASTNode::VarIntroduction(Box::new(VariableClause {
        binding: VariableBinding {quantifier: Quantifier::Any, variable: "a".into(), marker: "a".into()},
        body: ASTNode::VarIntroduction(Box::new(VariableClause {
            binding: VariableBinding {quantifier: Quantifier::Any, variable: "b".into(), marker: "b".into()},
            body: ASTNode::VarIntroduction(Box::new(VariableClause {
                binding: VariableBinding {quantifier: Quantifier::Any, variable: "c".into(), marker: "c".into()},
                body: ASTNode::FlowsTo(TwoVarObligation{src: "a".into(), dest: "c".into()})
            }))
        }))
    }));

    let lemmy_comm = "
    some comm_data : \"community_data\" (
        all write : \"db_write\" (
            comm_data flows to write
            implies
            some comm_dc : \"community_delete_check\" (
                comm_data flows to comm_dc
                and
                comm_dc has control flow influence on write
            ) and
            some comm_bc : \"community_ban_check\" (
                comm_data flows to comm_bc
                and
                comm_bc has control flow influence on write
            )
        )
    )";
    let lemmy_comm_ans = ASTNode::VarIntroduction(Box::new(VariableClause {
        binding: VariableBinding { quantifier: Quantifier::Any, variable: "comm_data".into(), marker: "community_data".into() },
        body: ASTNode::VarIntroduction(Box::new(VariableClause { 
            binding: VariableBinding { quantifier: Quantifier::All, variable: "write".into(), marker: "db_write".into() }, 
            body: ASTNode::Implies(Box::new(TwoNodeObligation { 
                src: ASTNode::FlowsTo(TwoVarObligation { src: "comm_data".into(), dest: "write".into() }), 
                dest: ASTNode::And(Box::new(TwoNodeObligation{
                    src: ASTNode::VarIntroduction(Box::new(VariableClause { 
                        binding: VariableBinding { quantifier: Quantifier::Any, variable: "comm_dc".into(), marker: "community_delete_check".into() }, 
                        body: ASTNode::And(Box::new(TwoNodeObligation { 
                            src: ASTNode::FlowsTo(TwoVarObligation { src: "comm_data".into(), dest: "comm_dc".into() }), 
                            dest: ASTNode::ControlFlow(TwoVarObligation { src: "comm_dc".into(), dest: "write".into() })
                        })) 
                    })),
                    dest: ASTNode::VarIntroduction(Box::new(VariableClause { 
                        binding: VariableBinding { quantifier: Quantifier::Any, variable: "comm_bc".into(), marker: "community_ban_check".into() }, 
                        body: ASTNode::And(Box::new(TwoNodeObligation { 
                            src: ASTNode::FlowsTo(TwoVarObligation { src: "comm_data".into(), dest: "comm_bc".into() }), 
                            dest: ASTNode::ControlFlow(TwoVarObligation { src: "comm_bc".into(), dest: "write".into() })
                        })) 
                    })),
                }))
            }))
        }))
    }));

    // should only parse the first *top level* variable clause
    let lemmy_inst = 
    "some dc: \"instance_delete_check\" (
        all write : \"db_write\" (
            dc has control flow influence on write
        )
        and
        all read: \"db_read\" (
            dc has control flow influence on read
        )
    ) and 
    some bc : \"instance_ban_check\" (
        all write : \"db_write\" (
            bc has control flow influence on write
        )
        and
        all read: \"db_read\" (
            bc has control flow influence on read
        )
    )";
    let lemmy_inst_partial = ASTNode::VarIntroduction(Box::new(VariableClause {
            binding: VariableBinding { quantifier: Quantifier::Any, variable: "dc".into(), marker: "instance_delete_check".into() },
            body: ASTNode::And(Box::new(TwoNodeObligation {
                src: ASTNode::VarIntroduction(Box::new(VariableClause {
                    binding: VariableBinding {quantifier: Quantifier::All, variable: "write".into(), marker: "db_write".into()},
                    body: ASTNode::ControlFlow(TwoVarObligation { src: "dc".into(), dest: "write".into()})
                    })),
                dest: ASTNode::VarIntroduction(Box::new(VariableClause {
                    binding: VariableBinding {quantifier: Quantifier::All, variable: "read".into(), marker: "db_read".into()},
                    body: ASTNode::ControlFlow(TwoVarObligation { src: "dc".into(), dest: "read".into()})
                    })),
                }))
        }));
    let lemmy_inst_leftover = "and 
    some bc : \"instance_ban_check\" (
        all write : \"db_write\" (
            bc has control flow influence on write
        )
        and
        all read: \"db_read\" (
            bc has control flow influence on read
        )
    )";

    // should be able to parse anything that joined_clauses can
    // as long as it's wrapped in a variable binding
    let wrapped =
        "some dc : \"delete_check\" (
            dc flows to sink or dc flows to encrypts through bc and dc has control flow influence on source
            implies
            all dc : \"delete_check\" ( 
                dc flows to sink or dc flows to encrypts through bc and dc has control flow influence on source
            )
        )";
    
    let clause_with_joined_body_ans = 
        ASTNode::Implies(
            Box::new(TwoNodeObligation {
                src: ASTNode::Or(Box::new(TwoNodeObligation {
                    src: ASTNode::FlowsTo(TwoVarObligation {src: "dc".into(), dest: "sink".into()}),
                    dest: ASTNode::And(
                        Box::new(TwoNodeObligation {
                            src: ASTNode::Through(ThreeVarObligation {src: "dc".into(), dest: "encrypts".into(), checkpoint: "bc".into()}),
                            dest: ASTNode::ControlFlow(TwoVarObligation {src: "dc".into(), dest: "source".into()})
                        }))
                    })),
                dest: ASTNode::VarIntroduction(
                    Box::new(VariableClause {
                        binding : VariableBinding {quantifier: Quantifier::All, variable: "dc".into(), marker: "delete_check".into()},
                        body: ASTNode::Or(Box::new(TwoNodeObligation {
                            src: ASTNode::FlowsTo(TwoVarObligation {src: "dc".into(), dest: "sink".into()}),
                            dest: ASTNode::And(
                                Box::new(TwoNodeObligation {
                                    src: ASTNode::Through(ThreeVarObligation {src: "dc".into(), dest: "encrypts".into(), checkpoint: "bc".into()}),
                                    dest: ASTNode::ControlFlow(TwoVarObligation {src: "dc".into(), dest: "source".into()})
                                }))
                        }))
                    }))
         }));

         let wrapped_ans = ASTNode::VarIntroduction(Box::new(VariableClause {
            binding: VariableBinding {quantifier: Quantifier::Any, variable: "dc".into(), marker: "delete_check".into()},
            body: clause_with_joined_body_ans,
         }));

    assert_eq!(variable_clause(simple_body), Ok(("", simple_body_ans)));
    assert_eq!(variable_clause(joined_body), Ok(("", joined_body_ans)));
    assert_eq!(variable_clause(triple_nested), Ok(("", triple_nested_ans)));
    assert_eq!(variable_clause(lemmy_comm), Ok(("", lemmy_comm_ans)));
    assert_eq!(variable_clause(lemmy_inst), Ok((lemmy_inst_leftover, lemmy_inst_partial)));
    assert_eq!(variable_clause(wrapped), Ok(("", wrapped_ans)));
}

#[test]
fn test_joined_clauses() {
    let two_bodies = "a flows to b and b flows to c";
    let three_bodies = "a flows to b and b flows to c and a flows to c";

    let clause_with_simple_body_w_joined_variable_clauses = 
        "all dc : \"delete_check\" ( 
            dc flows to sink or dc flows to encrypts through bc and dc has control flow influence on source
        ) or
        all dc : \"delete_check\" ( 
            dc flows to sink
        ) and
        all dc : \"delete_check\" ( 
            all dc : \"delete_check\" ( 
                dc flows to sink
            )
        )";
    let clause_with_simple_body_w_joined_variable_clauses_ans = 
        ASTNode::Or(
            Box::new(TwoNodeObligation {
                src: ASTNode::VarIntroduction(
                    Box::new(VariableClause {
                        binding : VariableBinding {quantifier: Quantifier::All, variable: "dc".into(), marker: "delete_check".into()},
                        body: ASTNode::Or(Box::new(TwoNodeObligation {
                            src: ASTNode::FlowsTo(TwoVarObligation {src: "dc".into(), dest: "sink".into()}),
                            dest: ASTNode::And(
                                Box::new(TwoNodeObligation {
                                    src: ASTNode::Through(ThreeVarObligation {src: "dc".into(), dest: "encrypts".into(), checkpoint: "bc".into()}),
                                    dest: ASTNode::ControlFlow(TwoVarObligation {src: "dc".into(), dest: "source".into()})
                                }))
                        }))
                })),
                dest: ASTNode::And(Box::new(TwoNodeObligation {
                    src: ASTNode::VarIntroduction(
                        Box::new(VariableClause {
                            binding : VariableBinding {quantifier: Quantifier::All, variable: "dc".into(), marker: "delete_check".into()},
                            body: ASTNode::FlowsTo(TwoVarObligation {src: "dc".into(), dest: "sink".into()}),
                        })),
                    dest: ASTNode::VarIntroduction(
                        Box::new(VariableClause {
                            binding : VariableBinding {quantifier: Quantifier::All, variable: "dc".into(), marker: "delete_check".into()},
                            body: ASTNode::VarIntroduction(
                                Box::new(VariableClause {
                                    binding : VariableBinding {quantifier: Quantifier::All, variable: "dc".into(), marker: "delete_check".into()},
                                    body: ASTNode::FlowsTo(TwoVarObligation {src: "dc".into(), dest: "sink".into()}),
                                }))
                        }))
                })) 
        }));
    
    let clause_with_simple_body_w_variable_clause = 
        "all dc : \"delete_check\" ( 
            dc flows to sink
        ) or
        all bc : \"ban_check\" ( 
            bc flows to sink
        )";
    
    let clause_with_simple_body_w_variable_clause_ans = 
        ASTNode::Or(
            Box::new(TwoNodeObligation {
                src: ASTNode::VarIntroduction(
                    Box::new(VariableClause {
                        binding : VariableBinding {quantifier: Quantifier::All, variable: "dc".into(), marker: "delete_check".into()},
                        body: ASTNode::FlowsTo(TwoVarObligation {src: "dc".into(), dest: "sink".into()}),
                    })),
                dest: ASTNode::VarIntroduction(
                    Box::new(VariableClause {
                        binding : VariableBinding {quantifier: Quantifier::All, variable: "bc".into(), marker: "ban_check".into()},
                        body: ASTNode::FlowsTo(TwoVarObligation {src: "bc".into(), dest: "sink".into()}),
                    })),
         }));
    
    let clause_with_joined_body =
        "dc flows to sink or dc flows to encrypts through bc and dc has control flow influence on source
        implies
        all dc : \"delete_check\" ( 
            dc flows to sink or dc flows to encrypts through bc and dc has control flow influence on source
        )";
    
    let clause_with_joined_body_ans = 
        ASTNode::Implies(
            Box::new(TwoNodeObligation {
                src: ASTNode::Or(Box::new(TwoNodeObligation {
                    src: ASTNode::FlowsTo(TwoVarObligation {src: "dc".into(), dest: "sink".into()}),
                    dest: ASTNode::And(
                        Box::new(TwoNodeObligation {
                            src: ASTNode::Through(ThreeVarObligation {src: "dc".into(), dest: "encrypts".into(), checkpoint: "bc".into()}),
                            dest: ASTNode::ControlFlow(TwoVarObligation {src: "dc".into(), dest: "source".into()})
                        }))
                    })),
                dest: ASTNode::VarIntroduction(
                    Box::new(VariableClause {
                        binding : VariableBinding {quantifier: Quantifier::All, variable: "dc".into(), marker: "delete_check".into()},
                        body: ASTNode::Or(Box::new(TwoNodeObligation {
                            src: ASTNode::FlowsTo(TwoVarObligation {src: "dc".into(), dest: "sink".into()}),
                            dest: ASTNode::And(
                                Box::new(TwoNodeObligation {
                                    src: ASTNode::Through(ThreeVarObligation {src: "dc".into(), dest: "encrypts".into(), checkpoint: "bc".into()}),
                                    dest: ASTNode::ControlFlow(TwoVarObligation {src: "dc".into(), dest: "source".into()})
                                }))
                        }))
                    }))
         }));
    
    let multiple_bodies = 
        "dc flows to sink or dc flows to encrypts through bc and dc has control flow influence on source
        and
        bc flows to encrypts
        implies
        all dc : \"delete_check\" ( 
            dc flows to sink or dc flows to encrypts through bc and dc has control flow influence on source
        ) or
        dc flows to encrypts";

    let multiple_bodies_ans = ASTNode::Implies(
        Box::new(TwoNodeObligation { 
        // the four statements in the body
        src: ASTNode::Or(Box::new(TwoNodeObligation { 
            src: ASTNode::FlowsTo(TwoVarObligation { src: "dc".into(), dest: "sink".into() }), 
            dest: ASTNode::And(Box::new(TwoNodeObligation { 
                src: ASTNode::Through(ThreeVarObligation { src: "dc".into(), dest: "encrypts".into(), checkpoint: "bc".into() }), 
                dest: ASTNode::And(Box::new(TwoNodeObligation { 
                    src: ASTNode::ControlFlow(TwoVarObligation { src: "dc".into(), dest: "source".into() }), 
                    dest: ASTNode::FlowsTo(TwoVarObligation { src: "bc".into(), dest: "encrypts".into() })}))}))})), 
        // "implies" the rest
        dest: ASTNode::Or(Box::new(TwoNodeObligation { 
            src: ASTNode::VarIntroduction(Box::new(VariableClause { 
                binding: VariableBinding { quantifier: Quantifier::All, variable: "dc".into(), marker: "delete_check".into() }, 
                body: ASTNode::Or(Box::new(TwoNodeObligation { 
                    src: ASTNode::FlowsTo(TwoVarObligation { src: "dc".into(), dest: "sink".into() }), 
                    dest: ASTNode::And(Box::new(TwoNodeObligation { 
                        src: ASTNode::Through(ThreeVarObligation { src: "dc".into(), dest: "encrypts".into(), checkpoint: "bc".into() }), 
                        dest: ASTNode::ControlFlow(TwoVarObligation { src: "dc".into(), dest: "source".into() }) }))}))})), 
            dest: ASTNode::FlowsTo(TwoVarObligation { src: "dc".into(), dest: "encrypts".into() }) })) }));
    
    
    assert_eq!(joined_clauses(clause_with_simple_body_w_joined_variable_clauses), Ok(("", clause_with_simple_body_w_joined_variable_clauses_ans)));
    assert_eq!(joined_clauses(clause_with_simple_body_w_variable_clause), Ok(("", clause_with_simple_body_w_variable_clause_ans)));
    assert_eq!(joined_clauses(clause_with_joined_body), Ok(("", clause_with_joined_body_ans)));
    assert_eq!(joined_clauses(multiple_bodies), Ok(("", multiple_bodies_ans)));
    // errors b/c body already covers multiple conjoined bodies
    // this parser gets >1 body joined *with* variable clauses
    assert!(joined_clauses(two_bodies).is_err());
    assert!(joined_clauses(three_bodies).is_err());
}

#[test]
fn test_joined_variable_clauses() {
    let lemmy_inst = 
    "some dc: \"instance_delete_check\" (
        all write : \"db_write\" (
            dc has control flow influence on write
        )
        and
        all read: \"db_read\" (
            dc has control flow influence on read
        )
    ) and 
    some bc : \"instance_ban_check\" (
        all write : \"db_write\" (
            bc has control flow influence on write
        )
        and
        all read: \"db_read\" (
            bc has control flow influence on read
        )
    )";
    let lemmy_inst_ans = ASTNode::And(Box::new(TwoNodeObligation {
        src: ASTNode::VarIntroduction(Box::new(VariableClause {
            binding: VariableBinding { quantifier: Quantifier::Any, variable: "dc".into(), marker: "instance_delete_check".into() },
            body: ASTNode::And(Box::new(TwoNodeObligation {
                src: ASTNode::VarIntroduction(Box::new(VariableClause {
                    binding: VariableBinding {quantifier: Quantifier::All, variable: "write".into(), marker: "db_write".into()},
                    body: ASTNode::ControlFlow(TwoVarObligation { src: "dc".into(), dest: "write".into()})
                    })),
                dest: ASTNode::VarIntroduction(Box::new(VariableClause {
                    binding: VariableBinding {quantifier: Quantifier::All, variable: "read".into(), marker: "db_read".into()},
                    body: ASTNode::ControlFlow(TwoVarObligation { src: "dc".into(), dest: "read".into()})
                    })),
                }))
            })),
        dest: ASTNode::VarIntroduction(Box::new(VariableClause {
            binding: VariableBinding { quantifier: Quantifier::Any, variable: "bc".into(), marker: "instance_ban_check".into() },
            body: ASTNode::And(Box::new(TwoNodeObligation {
                src: ASTNode::VarIntroduction(Box::new(VariableClause {
                    binding: VariableBinding {quantifier: Quantifier::All, variable: "write".into(), marker: "db_write".into()},
                    body: ASTNode::ControlFlow(TwoVarObligation { src: "bc".into(), dest: "write".into()})
                    })),
                dest: ASTNode::VarIntroduction(Box::new(VariableClause {
                    binding: VariableBinding {quantifier: Quantifier::All, variable: "read".into(), marker: "db_read".into()},
                    body: ASTNode::ControlFlow(TwoVarObligation { src: "bc".into(), dest: "read".into()})
                    })),
                }))
            })),
    }));

    let triple_clauses = 
    "all dc : \"delete_check\" ( 
        dc flows to sink
    ) or
    all bc : \"ban_check\" ( 
        bc flows to sink
    ) and 
    all ec : \"encrypts_check\" ( 
        ec flows to sink
    )";
    
    let triple_clauses_ans =
        ASTNode::Or(
            Box::new(TwoNodeObligation {
                src: ASTNode::VarIntroduction(
                    Box::new(VariableClause {
                        binding : VariableBinding {quantifier: Quantifier::All, variable: "dc".into(), marker: "delete_check".into()},
                        body: ASTNode::FlowsTo(TwoVarObligation {src: "dc".into(), dest: "sink".into()}),
                    })),
                dest: ASTNode::And(Box::new(TwoNodeObligation { 
                    src: ASTNode::VarIntroduction(
                        Box::new(VariableClause {
                            binding : VariableBinding {quantifier: Quantifier::All, variable: "bc".into(), marker: "ban_check".into()},
                            body: ASTNode::FlowsTo(TwoVarObligation {src: "bc".into(), dest: "sink".into()}),
                        })),
                    dest: ASTNode::VarIntroduction(
                        Box::new(VariableClause {
                            binding : VariableBinding {quantifier: Quantifier::All, variable: "ec".into(), marker: "encrypts_check".into()},
                            body: ASTNode::FlowsTo(TwoVarObligation {src: "ec".into(), dest: "sink".into()}),
                        })),
                }))
         }));
    
    // can't have bodies w/o bindings
    let multiple_bodies = 
        "dc flows to sink or dc flows to encrypts through bc and dc has control flow influence on source
        and
        bc flows to encrypts
        implies
        all dc : \"delete_check\" ( 
            dc flows to sink or dc flows to encrypts through bc and dc has control flow influence on source
        ) or
        dc flows to encrypts";
    
    let clause_with_joined_body =
        "dc flows to sink or dc flows to encrypts through bc and dc has control flow influence on source
        implies
        all dc : \"delete_check\" ( 
            dc flows to sink or dc flows to encrypts through bc and dc has control flow influence on source
        )";

    assert_eq!(joined_variable_clauses(lemmy_inst), Ok(("", lemmy_inst_ans)));
    assert_eq!(joined_variable_clauses(triple_clauses), Ok(("", triple_clauses_ans)));
    assert!(joined_variable_clauses(multiple_bodies).is_err());
    assert!(joined_variable_clauses(clause_with_joined_body).is_err());

}

#[test]
fn test_parse() {
    let lemmy_inst = 
    "always:
    some dc: \"instance_delete_check\" (
        all write : \"db_write\" (
            dc has control flow influence on write
        )
        and
        all read: \"db_read\" (
            dc has control flow influence on read
        )
    ) and 
    some bc : \"instance_ban_check\" (
        all write : \"db_write\" (
            bc has control flow influence on write
        )
        and
        all read: \"db_read\" (
            bc has control flow influence on read
        )
    )";
    let lemmy_inst_ans = PolicyBody {
        scope : PolicyScope::Always, 
        body: ASTNode::And(Box::new(TwoNodeObligation {
            src: ASTNode::VarIntroduction(Box::new(VariableClause {
                binding: VariableBinding { quantifier: Quantifier::Any, variable: "dc".into(), marker: "instance_delete_check".into() },
                body: ASTNode::And(Box::new(TwoNodeObligation {
                    src: ASTNode::VarIntroduction(Box::new(VariableClause {
                        binding: VariableBinding {quantifier: Quantifier::All, variable: "write".into(), marker: "db_write".into()},
                        body: ASTNode::ControlFlow(TwoVarObligation { src: "dc".into(), dest: "write".into()})
                        })),
                    dest: ASTNode::VarIntroduction(Box::new(VariableClause {
                        binding: VariableBinding {quantifier: Quantifier::All, variable: "read".into(), marker: "db_read".into()},
                        body: ASTNode::ControlFlow(TwoVarObligation { src: "dc".into(), dest: "read".into()})
                        })),
                    }))
                })),
            dest: ASTNode::VarIntroduction(Box::new(VariableClause {
                binding: VariableBinding { quantifier: Quantifier::Any, variable: "bc".into(), marker: "instance_ban_check".into() },
                body: ASTNode::And(Box::new(TwoNodeObligation {
                    src: ASTNode::VarIntroduction(Box::new(VariableClause {
                        binding: VariableBinding {quantifier: Quantifier::All, variable: "write".into(), marker: "db_write".into()},
                        body: ASTNode::ControlFlow(TwoVarObligation { src: "bc".into(), dest: "write".into()})
                        })),
                    dest: ASTNode::VarIntroduction(Box::new(VariableClause {
                        binding: VariableBinding {quantifier: Quantifier::All, variable: "read".into(), marker: "db_read".into()},
                        body: ASTNode::ControlFlow(TwoVarObligation { src: "bc".into(), dest: "read".into()})
                        })),
                    }))
                })),
            }))
        };

    let lemmy_comm = "
        always:
        some comm_data : \"community_data\" (
        all write : \"db_write\" (
            comm_data flows to write
            implies
            some comm_dc : \"community_delete_check\" (
                comm_data flows to comm_dc
                and
                comm_dc has control flow influence on write
            ) and
            some comm_bc : \"community_ban_check\" (
                comm_data flows to comm_bc
                and
                comm_bc has control flow influence on write
            )
        )
    )";
    let lemmy_comm_ans = PolicyBody {
        scope: PolicyScope::Always,
        body: ASTNode::VarIntroduction(Box::new(VariableClause {
            binding: VariableBinding { quantifier: Quantifier::Any, variable: "comm_data".into(), marker: "community_data".into() },
            body: ASTNode::VarIntroduction(Box::new(VariableClause { 
                binding: VariableBinding { quantifier: Quantifier::All, variable: "write".into(), marker: "db_write".into() }, 
                body: ASTNode::Implies(Box::new(TwoNodeObligation { 
                    src: ASTNode::FlowsTo(TwoVarObligation { src: "comm_data".into(), dest: "write".into() }), 
                    dest: ASTNode::And(Box::new(TwoNodeObligation{
                        src: ASTNode::VarIntroduction(Box::new(VariableClause { 
                            binding: VariableBinding { quantifier: Quantifier::Any, variable: "comm_dc".into(), marker: "community_delete_check".into() }, 
                            body: ASTNode::And(Box::new(TwoNodeObligation { 
                                src: ASTNode::FlowsTo(TwoVarObligation { src: "comm_data".into(), dest: "comm_dc".into() }), 
                                dest: ASTNode::ControlFlow(TwoVarObligation { src: "comm_dc".into(), dest: "write".into() })
                            })) 
                        })),
                        dest: ASTNode::VarIntroduction(Box::new(VariableClause { 
                            binding: VariableBinding { quantifier: Quantifier::Any, variable: "comm_bc".into(), marker: "community_ban_check".into() }, 
                            body: ASTNode::And(Box::new(TwoNodeObligation { 
                                src: ASTNode::FlowsTo(TwoVarObligation { src: "comm_data".into(), dest: "comm_bc".into() }), 
                                dest: ASTNode::ControlFlow(TwoVarObligation { src: "comm_bc".into(), dest: "write".into() })
                            })) 
                        })),
                    }))
                }))
            }))
        }))
    };
    assert_eq!(parse(lemmy_comm), Ok(("", lemmy_comm_ans)));
    assert_eq!(parse(lemmy_inst), Ok(("", lemmy_inst_ans)));
}
