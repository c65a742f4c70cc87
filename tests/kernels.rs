use sasca_bp::graph::{Factor, FactorKind, PublicValue};
use sasca_bp::kernels::{
    classify_uniform, copy_public, factor_add, factor_gen_and, factor_lookup, factor_mul, factor_not,
    factor_xor, reset_incoming, taken_dest, Message, UnaryOp, Uniformity,
};

fn factor(kind: FactorKind, n: usize, has_res: bool) -> Factor {
    Factor {
        kind,
        vars: (0..n).map(|i| 10 + i).collect(),
        edges: (0..n).map(|i| 100 + i).collect(),
        has_res,
        multi: true,
    }
}

fn unary(src: usize, op: UnaryOp) -> Message {
    Message::Unary { src, pre_not: false, op, post_not: false }
}

#[test]
fn xor_two_edges_copies_other_side() {
    let f = factor(FactorKind::Xor, 2, true);
    let plan = factor_xor(&f, &vec![true, true], &vec![10, 11], false, &PublicValue::Single(3));
    assert_eq!(plan.outputs, vec![unary(1, UnaryOp::XorCst), unary(0, UnaryOp::XorCst)]);
    assert_eq!(plan.cleared, vec![false, false]);
    assert_eq!(plan.constant, PublicValue::Single(3));
}

#[test]
fn xor_two_edges_clears_source_and_destination() {
    let f = factor(FactorKind::Xor, 2, true);
    let plan = factor_xor(&f, &vec![true, true], &vec![11], true, &PublicValue::Single(0));
    assert_eq!(plan.outputs, vec![unary(0, UnaryOp::XorCst)]);
    assert_eq!(plan.cleared, vec![true, true]);
    let plan = factor_xor(&f, &vec![true, true], &vec![], true, &PublicValue::Single(0));
    assert_eq!(plan.cleared, vec![false, false]);
}

#[test]
fn xor_all_full_leave_one_out() {
    let f = factor(FactorKind::Xor, 3, true);
    let plan = factor_xor(&f, &vec![true, true, true], &vec![12, 10], true, &PublicValue::Multi(vec![1, 2]));
    assert_eq!(plan.outputs, vec![Message::Product { except: 2 }, Message::Product { except: 0 }]);
    assert_eq!(plan.cleared, vec![true, true, true]);
    assert_eq!(plan.constant, PublicValue::Multi(vec![1, 2]));
}

#[test]
fn xor_sole_uniform_destination() {
    let f = factor(FactorKind::Xor, 3, true);
    let plan = factor_xor(&f, &vec![true, false, true], &vec![10, 11, 12], false, &PublicValue::Single(0));
    assert_eq!(
        plan.outputs,
        vec![Message::Uniform, Message::Product { except: 1 }, Message::Uniform]
    );
}

#[test]
fn xor_sole_uniform_not_destination() {
    let f = factor(FactorKind::Xor, 3, true);
    let plan = factor_xor(&f, &vec![true, false, true], &vec![10, 12], true, &PublicValue::Single(0));
    assert_eq!(plan.outputs, vec![Message::Uniform, Message::Uniform]);
    assert_eq!(plan.cleared, vec![true, false, true]);
}

#[test]
fn xor_several_uniform() {
    let f = factor(FactorKind::Xor, 4, true);
    let plan = factor_xor(&f, &vec![false, true, false, true], &vec![11], true, &PublicValue::Single(0));
    assert_eq!(plan.outputs, vec![Message::Uniform]);
    assert_eq!(plan.cleared, vec![false, true, false, false]);
}

#[test]
fn not_uses_all_ones_constant() {
    let f = factor(FactorKind::Not, 2, true);
    let plan = factor_not(&f, &vec![true, true], &vec![10], false, 255);
    assert_eq!(plan.outputs, vec![unary(1, UnaryOp::XorCst)]);
    assert_eq!(plan.constant, PublicValue::Single(255));
}

#[test]
fn add_two_edges_negates_towards_operand() {
    let f = factor(FactorKind::Add, 2, true);
    let plan = factor_add(&f, &vec![true, true], &vec![10, 11], false, &PublicValue::Single(5));
    assert_eq!(
        plan.outputs,
        vec![
            unary(1, UnaryOp::AddCst { negate: false }),
            unary(0, UnaryOp::AddCst { negate: true })
        ]
    );
}

#[test]
fn add_uniform_shortcuts() {
    let f = factor(FactorKind::Add, 3, true);
    let plan = factor_add(&f, &vec![false, true, true], &vec![10, 11], true, &PublicValue::Single(5));
    assert_eq!(plan.outputs, vec![Message::Product { except: 0 }, Message::Uniform]);
    assert_eq!(plan.cleared, vec![true, true, true]);
    let plan = factor_add(&f, &vec![false, false, true], &vec![10, 11], false, &PublicValue::Single(5));
    assert_eq!(plan.outputs, vec![Message::Uniform, Message::Uniform]);
    assert_eq!(plan.cleared, vec![false, false, false]);
}

#[test]
fn and_two_edges_with_negations() {
    let f = factor(FactorKind::And { vars_neg: vec![true, false] }, 2, true);
    let plan = factor_gen_and(&f, &vec![true, true], &vec![10, 11], true, &PublicValue::Single(3));
    assert_eq!(
        plan.outputs,
        vec![
            Message::Unary { src: 1, pre_not: false, op: UnaryOp::AndCst, post_not: true },
            Message::Unary { src: 0, pre_not: true, op: UnaryOp::InvAndCst, post_not: false },
        ]
    );
    assert_eq!(plan.cleared, vec![true, true]);
}

#[test]
fn and_general_products() {
    let f = factor(FactorKind::And { vars_neg: vec![false, false, false] }, 3, true);
    let plan = factor_gen_and(&f, &vec![false, true, true], &vec![11], true, &PublicValue::Single(3));
    assert_eq!(plan.outputs, vec![Message::Product { except: 1 }]);
    assert_eq!(plan.cleared, vec![true, true, true]);
    let g = factor(FactorKind::And { vars_neg: vec![false, false] }, 2, false);
    let plan = factor_gen_and(&g, &vec![true, true], &vec![10], false, &PublicValue::Single(3));
    assert_eq!(plan.outputs, vec![Message::Product { except: 0 }]);
    assert_eq!(plan.cleared, vec![false, false]);
}

#[test]
fn mul_leave_one_out() {
    let f = factor(FactorKind::Mul, 3, true);
    let plan = factor_mul(&f, &vec![11, 10], true, &PublicValue::Single(7));
    assert_eq!(plan.outputs, vec![Message::Product { except: 1 }, Message::Product { except: 0 }]);
    assert_eq!(plan.cleared, vec![true, true, true]);
    assert_eq!(plan.constant, PublicValue::Single(7));
}

#[test]
fn lookup_directions() {
    let f = factor(FactorKind::Lookup { table: 0 }, 2, true);
    let plan = factor_lookup(&f, &vec![10, 11], true);
    assert_eq!(plan.outputs, vec![unary(1, UnaryOp::MapTable), unary(0, UnaryOp::MapTableInv)]);
    assert_eq!(plan.cleared, vec![true, true]);
    let plan = factor_lookup(&f, &vec![10], true);
    assert_eq!(plan.cleared, vec![true, true]);
    let plan = factor_lookup(&f, &vec![10], false);
    assert_eq!(plan.cleared, vec![false, false]);
}

#[test]
fn reset_incoming_only_when_asked() {
    let f = factor(FactorKind::Xor, 3, true);
    assert_eq!(reset_incoming(&f, &vec![true, false, true], true), vec![true, false, true]);
    assert_eq!(reset_incoming(&f, &vec![true, false, true], false), vec![false, false, false]);
}

#[test]
fn taken_and_uniformity() {
    let f = factor(FactorKind::Xor, 3, true);
    assert_eq!(taken_dest(&f, &vec![12, 10]), vec![true, false, true]);
    assert_eq!(classify_uniform(&vec![true, true]), Uniformity::AllFull);
    assert_eq!(classify_uniform(&vec![true, false]), Uniformity::Sole(1));
    assert_eq!(classify_uniform(&vec![false, true, false]), Uniformity::Several);
    assert_eq!(copy_public(&PublicValue::Multi(vec![4, 5])), PublicValue::Multi(vec![4, 5]));
}

#[test]
fn incoming_kept_without_clear_every_kernel() {
    let full = vec![true, false, true];
    let dest = vec![10, 11, 12];
    let kinds = vec![
        FactorKind::Xor,
        FactorKind::Not,
        FactorKind::Add,
        FactorKind::Mul,
        FactorKind::And { vars_neg: vec![false; 3] },
    ];
    for kind in kinds {
        let f = factor(kind.clone(), 3, true);
        let plan = match kind {
            FactorKind::Xor => factor_xor(&f, &full, &dest, false, &PublicValue::Single(1)),
            FactorKind::Not => factor_not(&f, &full, &dest, false, 3),
            FactorKind::Add => factor_add(&f, &full, &dest, false, &PublicValue::Single(1)),
            FactorKind::Mul => factor_mul(&f, &dest, false, &PublicValue::Single(1)),
            _ => factor_gen_and(&f, &full, &dest, false, &PublicValue::Single(1)),
        };
        assert!(plan.cleared.iter().all(|c| !c));
    }
}

#[test]
fn uniform_inputs_stay_uniform() {
    for kind in [FactorKind::Xor, FactorKind::Not, FactorKind::Add] {
        let f = factor(kind.clone(), 4, true);
        let full = vec![false; 4];
        let plan = match kind {
            FactorKind::Xor => factor_xor(&f, &full, &vec![10, 11, 12, 13], false, &PublicValue::Single(1)),
            FactorKind::Not => factor_not(&f, &full, &vec![10, 11, 12, 13], false, 3),
            _ => factor_add(&f, &full, &vec![10, 11, 12, 13], false, &PublicValue::Single(1)),
        };
        assert_eq!(plan.outputs, vec![Message::Uniform; 4]);
    }
}
