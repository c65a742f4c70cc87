use sasca_bp::error::{check_distribution, BPError, DistrShape};
use sasca_bp::graph::{
    check_below, check_distinct, check_graph, Edge, Factor, FactorGraph, FactorKind, PublicValue, Var,
};
use sasca_bp::kernels::{Message, UnaryOp};
use sasca_bp::schedule::{
    acyclic_steps, factor_all_dest, propagate_acyclic, propagate_factor, propagate_var, propagate_var_to,
    loopy_step_plan, propagation_order, Node, Step,
};

/// z = x ^ y: vars x=0, y=1, z=2; one factor; edges 0 (z), 1 (x), 2 (y).
fn xor_graph() -> FactorGraph {
    FactorGraph {
        nc: 4,
        vars: vec![
            Var { multi: true, factors: vec![0], edges: vec![1] },
            Var { multi: true, factors: vec![0], edges: vec![2] },
            Var { multi: false, factors: vec![0], edges: vec![0] },
        ],
        factors: vec![Factor {
            kind: FactorKind::Xor,
            vars: vec![2, 0, 1],
            edges: vec![0, 1, 2],
            has_res: true,
            multi: true,
        }],
        edges: vec![Edge { var: 2, factor: 0 }, Edge { var: 0, factor: 0 }, Edge { var: 1, factor: 0 }],
        tables: vec![],
    }
}

/// Variable 0 touches factors 0, 1, 2 through edges 5, 3, 4; each factor is a NOT.
fn star_graph() -> FactorGraph {
    let not = |v: usize, e: usize| Factor {
        kind: FactorKind::Not,
        vars: vec![v, 0],
        edges: vec![e + 10, e],
        has_res: true,
        multi: true,
    };
    FactorGraph {
        nc: 256,
        vars: vec![
            Var { multi: true, factors: vec![0, 1, 2], edges: vec![5, 3, 4] },
            Var { multi: true, factors: vec![0], edges: vec![15] },
            Var { multi: true, factors: vec![1], edges: vec![13] },
            Var { multi: true, factors: vec![2], edges: vec![14] },
        ],
        factors: vec![not(1, 5), not(2, 3), not(3, 4)],
        edges: (0..16).map(|i| Edge { var: 0, factor: i % 3 }).collect(),
        tables: vec![],
    }
}

#[test]
fn check_distribution_accepts_matching_shape() {
    let d = DistrShape { multi: true, rows: 3, nc: 4 };
    assert!(check_distribution(d, true, 4, 3).is_ok());
    let s = DistrShape { multi: false, rows: 1, nc: 4 };
    assert!(check_distribution(s, false, 4, 3).is_ok());
}

#[test]
fn check_distribution_errors() {
    let d = DistrShape { multi: true, rows: 3, nc: 4 };
    assert!(matches!(
        check_distribution(d, false, 4, 3),
        Err(BPError::WrongDistributionKind("multi", "single"))
    ));
    assert!(matches!(check_distribution(d, true, 8, 3), Err(BPError::WrongDistributionNc(4, 8))));
    assert!(matches!(
        check_distribution(d, true, 4, 2),
        Err(BPError::WrongDistributionNmulti(3, 2))
    ));
}

#[test]
fn factor_update_on_graph() {
    let g = xor_graph();
    let dest = factor_all_dest(&g, 0);
    assert_eq!(dest, vec![2, 0, 1]);
    let plan = propagate_factor(&g, 0, &vec![true, true, true], &dest, false, &vec![PublicValue::Single(0)]);
    assert_eq!(
        plan.outputs,
        vec![Message::Product { except: 0 }, Message::Product { except: 1 }, Message::Product { except: 2 }]
    );
    assert_eq!(plan.cleared, vec![false, false, false]);
    let plan = propagate_factor(&g, 0, &vec![false, true, true], &vec![2], true, &vec![PublicValue::Single(0)]);
    assert_eq!(plan.outputs, vec![Message::Product { except: 0 }]);
    assert_eq!(plan.cleared, vec![true, true, true]);
}

#[test]
fn not_factor_on_graph_uses_nc() {
    let g = star_graph();
    let pubs = vec![PublicValue::Single(0); 3];
    let plan = propagate_factor(&g, 1, &vec![true; 16], &vec![0], false, &pubs);
    assert_eq!(plan.outputs, vec![Message::Unary { src: 0, pre_not: false, op: UnaryOp::XorCst, post_not: false }]);
    assert_eq!(plan.constant, PublicValue::Single(255));
}

#[test]
fn var_update_splits_edges() {
    let g = star_graph();
    let plan = propagate_var_to(&g, 0, vec![5, 3], false);
    assert_eq!(plan.to_edges, vec![3, 5]);
    assert_eq!(plan.other_edges, vec![4]);
    assert!(plan.multi);
    assert!(plan.cleared.is_empty());
    let plan = propagate_var_to(&g, 0, vec![5, 3], true);
    assert_eq!(plan.cleared, vec![4, 3, 5]);
    let plan = propagate_var_to(&g, 0, vec![], true);
    assert_eq!(plan.other_edges, vec![3, 4, 5]);
    assert_eq!(plan.cleared, vec![3, 4, 5]);
    let plan = propagate_var(&g, 0, true);
    assert_eq!(plan.to_edges, vec![3, 4, 5]);
    assert!(plan.other_edges.is_empty());
    assert_eq!(plan.cleared, vec![3, 4, 5]);
    let plan = propagate_var(&g, 0, false);
    assert!(plan.cleared.is_empty());
}

#[test]
fn acyclic_steps_follow_order() {
    let g = xor_graph();
    let order = vec![
        (Node::Var(0), Some(Node::Factor(0))),
        (Node::Var(1), Some(Node::Factor(0))),
        (Node::Factor(0), Some(Node::Var(2))),
        (Node::Var(2), None),
    ];
    let steps = acyclic_steps(&g, false, &order).ok().unwrap();
    assert_eq!(steps.len(), 4);
    assert!(matches!(&steps[0], Step::Var { var: 0, to_edges } if to_edges == &vec![1]));
    assert!(matches!(&steps[1], Step::Var { var: 1, to_edges } if to_edges == &vec![2]));
    assert!(matches!(&steps[2], Step::Factor { factor: 0, dest } if dest == &vec![2]));
    assert!(matches!(&steps[3], Step::Var { var: 2, to_edges } if to_edges.is_empty()));
}

#[test]
fn acyclic_refused_on_cyclic_graph() {
    let g = xor_graph();
    assert!(matches!(acyclic_steps(&g, true, &vec![]), Err(BPError::NotAcyclic)));
    assert!(matches!(propagate_acyclic(&g, true, 2), Err(BPError::NotAcyclic)));
}

#[test]
fn order_from_result_variable() {
    let g = xor_graph();
    let order = propagation_order(&g, 2);
    assert_eq!(
        order,
        vec![
            (Node::Var(0), Some(Node::Factor(0))),
            (Node::Var(1), Some(Node::Factor(0))),
            (Node::Factor(0), Some(Node::Var(2))),
            (Node::Var(2), None),
        ]
    );
    let (order2, steps) = propagate_acyclic(&g, false, 2).ok().unwrap();
    assert_eq!(order2, order);
    assert!(matches!(&steps[2], Step::Factor { factor: 0, dest } if dest == &vec![2]));
}

#[test]
fn order_from_leaf_variable() {
    let g = star_graph();
    let order = propagation_order(&g, 1);
    assert_eq!(order.len(), 7);
    assert_eq!(order[6], (Node::Var(1), None));
    assert_eq!(order[5], (Node::Factor(0), Some(Node::Var(1))));
    assert_eq!(order[4], (Node::Var(0), Some(Node::Factor(0))));
    for (i, (_, parent)) in order.iter().enumerate().take(6) {
        let p = parent.unwrap();
        assert!(order[i + 1..].iter().any(|(n, _)| *n == p));
    }
}

#[test]
fn graph_check() {
    assert!(check_graph(&xor_graph()));
    assert!(check_graph(&star_graph()));
    let mut g = xor_graph();
    g.factors[0].vars = vec![2, 0, 0];
    assert!(!check_graph(&g));
    let mut g = xor_graph();
    g.vars[1].edges = vec![7];
    assert!(!check_graph(&g));
    let mut g = xor_graph();
    g.factors[0].kind = FactorKind::Lookup { table: 0 };
    assert!(!check_graph(&g));
    assert!(check_distinct(&vec![3, 1, 2]));
    assert!(!check_distinct(&vec![3, 1, 3]));
    assert!(check_below(&vec![3, 1, 2], 4));
    assert!(!check_below(&vec![3, 4], 4));
}

#[test]
fn order_covers_each_node_once() {
    let g = star_graph();
    for dest in 0..4 {
        let order = propagation_order(&g, dest);
        assert_eq!(order.len(), 7);
        for i in 0..order.len() {
            for j in 0..order.len() {
                if i != j {
                    assert_ne!(order[i].0, order[j].0);
                }
            }
        }
        for v in 0..4 {
            assert!(order.iter().any(|(n, _)| *n == Node::Var(v)));
        }
        for f in 0..3 {
            assert!(order.iter().any(|(n, _)| *n == Node::Factor(f)));
        }
    }
}

#[test]
fn loopy_plan_lists_factors_then_variables() {
    let g = xor_graph();
    let plan = loopy_step_plan(&g);
    assert_eq!(plan.len(), 4);
    assert!(matches!(&plan[0], Step::Factor { factor: 0, dest } if dest == &vec![2, 0, 1]));
    assert!(matches!(&plan[1], Step::Var { var: 0, to_edges } if to_edges == &vec![1]));
    assert!(matches!(&plan[2], Step::Var { var: 1, to_edges } if to_edges == &vec![2]));
    assert!(matches!(&plan[3], Step::Var { var: 2, to_edges } if to_edges == &vec![0]));
}
