use phase_rs::circuit_syntax::{ClauseC, PatternC, TermC};
use phase_rs::command::Command;
use phase_rs::ket::{CompKetState, KetState};
use phase_rs::normal_syntax::{AtomN, PatternN, TermN};
use phase_rs::phase::{Angle, Phase};
use phase_rs::raw_syntax::{
    AtomR, AtomRInner, PatAtomR, PatAtomRInner, PatTensorRInner, PatternR, PatternRInner,
    TensorR, TensorRInner, TermR, TermRInner,
};
use phase_rs::text::{Name, SourceRange, Spanned};
use phase_rs::typecheck::{Env, TypeCheckError};
use phase_rs::typed_syntax::{PatternT, PatternType, TermT, TermType};

type S = SourceRange;

fn sp(start: usize, end: usize) -> S {
    SourceRange { start, end }
}

fn atom(inner: AtomRInner<S>, span: S) -> AtomR<S> {
    Spanned { inner, span }
}

fn tensor(terms: Vec<AtomR<S>>, span: S) -> TensorR<S> {
    Spanned { inner: TensorRInner { terms }, span }
}

fn term(terms: Vec<TensorR<S>>, span: S) -> TermR<S> {
    Spanned { inner: TermRInner { terms }, span }
}

fn pat_atom(inner: PatAtomRInner<S>, span: S) -> PatAtomR<S> {
    Spanned { inner, span }
}

fn pattern(parts: Vec<Vec<PatAtomR<S>>>, span: S) -> PatternR<S> {
    let patterns = parts
        .into_iter()
        .map(|p| Spanned { inner: PatTensorRInner { patterns: p }, span })
        .collect();
    Spanned { inner: PatternRInner { patterns }, span }
}

fn ket(states: Vec<KetState>, span: S) -> PatAtomR<S> {
    pat_atom(PatAtomRInner::Ket(CompKetState::new(states)), span)
}

/// `if let |k> then -1`, on one qubit
fn z_like(k: KetState, span: S) -> AtomR<S> {
    atom(
        AtomRInner::IfLet {
            pattern: pattern(vec![vec![ket(vec![k], span)]], span),
            inner: Box::new(tensor(vec![atom(AtomRInner::Phase(Phase::MinusOne), span)], span)),
        },
        span,
    )
}

fn single(a: AtomR<S>, span: S) -> TermR<S> {
    term(vec![tensor(vec![a], span)], span)
}

fn check(t: &TermR<S>) -> Result<TermT, TypeCheckError<S>> {
    assert!(t.is_wf());
    t.check(&Env::new(), None)
}

#[test]
fn check_z_has_arity_one() {
    let t = check(&single(z_like(KetState::One, sp(0, 5)), sp(0, 5))).unwrap();
    assert_eq!(t.get_type(), TermType(1));
}

#[test]
fn check_composition_of_equal_types() {
    let z = term(
        vec![
            tensor(vec![z_like(KetState::One, sp(0, 1))], sp(0, 1)),
            tensor(vec![z_like(KetState::One, sp(2, 3))], sp(2, 3)),
        ],
        sp(0, 3),
    );
    let t = check(&z).unwrap();
    assert!(matches!(&t, TermT::Comp(v) if v.len() == 2));
    assert_eq!(t.get_type(), TermType(1));
}

#[test]
fn check_type_mismatch() {
    let bad = term(
        vec![
            tensor(vec![z_like(KetState::One, sp(0, 1))], sp(0, 1)),
            tensor(
                vec![z_like(KetState::One, sp(2, 3)), z_like(KetState::One, sp(4, 5))],
                sp(2, 5),
            ),
        ],
        sp(0, 5),
    );
    match check(&bad) {
        Err(TypeCheckError::TypeMismatch { t1, ty1, t2, ty2 }) => {
            assert_eq!(t1, sp(0, 1));
            assert_eq!(ty1, TermType(1));
            assert_eq!(t2, sp(2, 5));
            assert_eq!(ty2, TermType(2));
        }
        other => panic!("unexpected {:?}", other),
    }
}

#[test]
fn check_if_type_mismatch() {
    let body = tensor(
        vec![z_like(KetState::One, sp(10, 11)), z_like(KetState::One, sp(12, 13))],
        sp(10, 13),
    );
    let a = atom(
        AtomRInner::IfLet {
            pattern: pattern(vec![vec![ket(vec![KetState::One], sp(3, 6))]], sp(3, 6)),
            inner: Box::new(body),
        },
        sp(0, 13),
    );
    match check(&single(a, sp(0, 13))) {
        Err(TypeCheckError::IfTypeMismatch { p, pty, t, tty }) => {
            assert_eq!(p, sp(3, 6));
            assert_eq!(pty, PatternType(1, 0));
            assert_eq!(t, sp(10, 13));
            assert_eq!(tty, TermType(2));
        }
        other => panic!("unexpected {:?}", other),
    }
}

#[test]
fn check_pattern_type_mismatch() {
    let p = pattern(
        vec![vec![ket(vec![KetState::One], sp(0, 3))], vec![ket(vec![KetState::Zero], sp(6, 9))]],
        sp(0, 9),
    );
    match p.check(&Env::new()) {
        Err(TypeCheckError::PatternTypeMismatch { ty1, ty2, .. }) => {
            assert_eq!(ty1, PatternType(1, 0));
            assert_eq!(ty2, PatternType(1, 0));
        }
        other => panic!("unexpected {:?}", other),
    }
}

#[test]
fn check_pattern_composition() {
    let id1 = single(atom(AtomRInner::Id(1), sp(0, 3)), sp(0, 3));
    let p = pattern(
        vec![
            vec![pat_atom(PatAtomRInner::Unitary(Box::new(id1)), sp(0, 3))],
            vec![ket(vec![KetState::Plus], sp(6, 9))],
        ],
        sp(0, 9),
    );
    let checked = p.check(&Env::new()).unwrap();
    assert_eq!(checked.get_type(), PatternType(1, 0));
}

#[test]
fn check_unknown_symbol() {
    let g = atom(AtomRInner::Gate(Name::new("H".to_string())), sp(4, 5));
    match check(&single(g, sp(4, 5))) {
        Err(TypeCheckError::UnknownSymbol { name, span }) => {
            assert_eq!(name.as_str(), "H");
            assert_eq!(span, sp(4, 5));
        }
        other => panic!("unexpected {:?}", other),
    }
}

#[test]
fn check_sqrt_of_composition_is_rejected() {
    let comp = term(
        vec![
            tensor(vec![z_like(KetState::One, sp(6, 7))], sp(6, 7)),
            tensor(vec![z_like(KetState::One, sp(10, 11))], sp(10, 11)),
        ],
        sp(6, 11),
    );
    let s = atom(
        AtomRInner::Sqrt(Box::new(atom(AtomRInner::Brackets(comp), sp(5, 12)))),
        sp(0, 12),
    );
    match check(&single(s, sp(0, 12))) {
        Err(TypeCheckError::TermNotRootable { tm, span_of_root }) => {
            assert_eq!(tm, sp(6, 11));
            assert_eq!(span_of_root, sp(0, 12));
        }
        other => panic!("unexpected {:?}", other),
    }
}

#[test]
fn check_nested_sqrt_keeps_outer_span() {
    let comp = term(
        vec![
            tensor(vec![z_like(KetState::One, sp(12, 13))], sp(12, 13)),
            tensor(vec![z_like(KetState::One, sp(14, 15))], sp(14, 15)),
        ],
        sp(12, 15),
    );
    let inner = atom(
        AtomRInner::Sqrt(Box::new(atom(AtomRInner::Brackets(comp), sp(11, 16)))),
        sp(6, 16),
    );
    let outer = atom(AtomRInner::Sqrt(Box::new(inner)), sp(0, 16));
    match check(&single(outer, sp(0, 16))) {
        Err(TypeCheckError::TermNotRootable { span_of_root, .. }) => {
            assert_eq!(span_of_root, sp(0, 16));
        }
        other => panic!("unexpected {:?}", other),
    }
}

#[test]
fn check_arity_overflow() {
    let t = single(atom(AtomRInner::Id(usize::MAX), sp(0, 1)), sp(0, 1));
    let big = term(
        vec![tensor(
            vec![atom(AtomRInner::Id(usize::MAX), sp(0, 1)), atom(AtomRInner::Id(1), sp(2, 3))],
            sp(0, 3),
        )],
        sp(0, 3),
    );
    assert!(check(&t).is_ok());
    match check(&big) {
        Err(TypeCheckError::ArityOverflow { span }) => assert_eq!(span, sp(0, 3)),
        other => panic!("unexpected {:?}", other),
    }
}

#[test]
fn empty_raw_term_is_not_well_formed() {
    let t = term(vec![], sp(0, 0));
    assert!(!t.is_wf());
    let u = term(vec![tensor(vec![], sp(0, 0))], sp(0, 0));
    assert!(!u.is_wf());
}

fn hadamard_program() -> Command<S> {
    let h_def = single(z_like(KetState::Plus, sp(9, 27)), sp(9, 27));
    let body = single(atom(AtomRInner::Gate(Name::new("H".to_string())), sp(29, 30)), sp(29, 30));
    Command { gates: vec![(Name::new("H".to_string()), h_def)], term: body }
}

#[test]
fn command_check_binds_gates() {
    let c = hadamard_program();
    assert!(c.is_wf());
    let (env, t) = c.check().unwrap();
    assert!(env.get(&Name::new("H".to_string())).is_some());
    assert!(env.get(&Name::new("X".to_string())).is_none());
    assert_eq!(t.get_type(), TermType(1));
}

#[test]
fn env_lookup_finds_latest_binding() {
    let mut env = Env::new();
    env.insert(Name::new("A".to_string()), TermT::Id(TermType(1)));
    env.insert(Name::new("A".to_string()), TermT::Id(TermType(2)));
    let t = env.get(&Name::new("A".to_string())).unwrap();
    assert_eq!(t.get_type(), TermType(2));
}

fn typed(t: TermR<S>) -> TermT {
    check(&t).unwrap()
}

fn phase_angle(t: &TermN) -> Angle {
    match t {
        TermN::Atom(AtomN::Phase(a)) => *a,
        other => panic!("not a phase: {:?}", other),
    }
}

fn if_let_body_angle(t: &TermN) -> Angle {
    match t {
        TermN::Atom(AtomN::IfLet(_, inner, _)) => phase_angle(inner),
        other => panic!("not an if let: {:?}", other),
    }
}

#[test]
fn eval_z() {
    let t = typed(single(z_like(KetState::One, sp(0, 1)), sp(0, 1)));
    let n = t.eval();
    match &n {
        TermN::Atom(AtomN::IfLet(PatternN::Ket(KetState::One), inner, ty)) => {
            assert_eq!(*ty, TermType(1));
            assert_eq!(phase_angle(inner), Angle::new(1, 1));
        }
        other => panic!("unexpected {:?}", other),
    }
}

#[test]
fn eval_inverse_negates_phase() {
    let inv = atom(AtomRInner::Inverse(Box::new(z_like(KetState::One, sp(0, 1)))), sp(0, 4));
    let n = typed(single(inv, sp(0, 4))).eval();
    assert_eq!(if_let_body_angle(&n), Angle::new(-1, 1));
}

#[test]
fn eval_sqrt_halves_phase() {
    let s = atom(AtomRInner::Sqrt(Box::new(z_like(KetState::One, sp(5, 6)))), sp(0, 6));
    let n = typed(single(s, sp(0, 6))).eval();
    assert_eq!(if_let_body_angle(&n), Angle::new(1, 2));
    let quoted = n.quote();
    match quoted {
        TermT::IfLet { inner, .. } => assert!(matches!(*inner, TermT::Phase(Phase::Imag))),
        other => panic!("unexpected {:?}", other),
    }
}

fn phase_atom(a: Angle, span: S) -> AtomR<S> {
    atom(AtomRInner::Phase(Phase::Angle(a)), span)
}

#[test]
fn eval_inverse_reverses_composition() {
    let comp = term(
        vec![
            tensor(vec![phase_atom(Angle::new(1, 4), sp(0, 1))], sp(0, 1)),
            tensor(vec![phase_atom(Angle::new(1, 3), sp(2, 3))], sp(2, 3)),
        ],
        sp(0, 3),
    );
    let inv = atom(
        AtomRInner::Inverse(Box::new(atom(AtomRInner::Brackets(comp), sp(0, 4)))),
        sp(0, 7),
    );
    let n = typed(single(inv, sp(0, 7))).eval();
    match &n {
        TermN::Comp(parts, ty) => {
            assert_eq!(*ty, TermType(0));
            assert_eq!(parts.len(), 2);
            assert_eq!(phase_angle(&parts[0]), Angle::new(-1, 3));
            assert_eq!(phase_angle(&parts[1]), Angle::new(-1, 4));
        }
        other => panic!("unexpected {:?}", other),
    }
}

#[test]
fn eval_elides_single_parts() {
    let n = typed(single(z_like(KetState::Zero, sp(0, 1)), sp(0, 1))).eval();
    assert!(matches!(n, TermN::Atom(AtomN::IfLet(PatternN::Ket(KetState::Zero), _, _))));
}

#[test]
fn eval_identity_is_empty_composition() {
    let n = typed(single(atom(AtomRInner::Id(2), sp(0, 3)), sp(0, 3))).eval();
    assert!(matches!(&n, TermN::Comp(v, TermType(2)) if v.is_empty()));
    assert!(matches!(n.quote(), TermT::Id(TermType(2))));
}

#[test]
fn eval_two_phases_compose() {
    let comp = term(
        vec![
            tensor(vec![phase_atom(Angle::new(1, 4), sp(0, 1))], sp(0, 1)),
            tensor(vec![phase_atom(Angle::new(1, 4), sp(2, 3))], sp(2, 3)),
        ],
        sp(0, 3),
    );
    let n = typed(comp).eval();
    match &n {
        TermN::Comp(parts, _) => {
            assert_eq!(parts.len(), 2);
            assert_eq!(phase_angle(&parts[0]), Angle::new(1, 4));
        }
        other => panic!("unexpected {:?}", other),
    }
}

#[test]
fn squash_flattens_and_is_idempotent() {
    let leaf = |a: i64| TermN::Atom(AtomN::Phase(Angle::new(a, 1)));
    let nested = TermN::Comp(
        vec![
            TermN::Comp(vec![leaf(1), leaf(2)], TermType(0)),
            TermN::Comp(vec![], TermType(0)),
            TermN::Comp(vec![TermN::Comp(vec![leaf(3)], TermType(0))], TermType(0)),
        ],
        TermType(0),
    );
    let mut once = nested;
    once.squash();
    match &once {
        TermN::Comp(parts, _) => {
            assert_eq!(parts.len(), 3);
            assert_eq!(phase_angle(&parts[2]), Angle::new(3, 1));
        }
        other => panic!("unexpected {:?}", other),
    }
    let before = format!("{:?}", once);
    once.squash();
    assert_eq!(format!("{:?}", once), before);
}

#[test]
fn squash_removes_single_parts_and_splices_tensors() {
    let leaf = |a: i64| TermN::Atom(AtomN::Phase(Angle::new(a, 1)));
    let mut t = TermN::Tensor(vec![
        TermN::Comp(vec![TermN::Comp(vec![], TermType(0)), TermN::Tensor(vec![leaf(1), leaf(2)])], TermType(0)),
        leaf(3),
    ]);
    t.squash();
    match &t {
        TermN::Tensor(parts) => assert_eq!(parts.len(), 3),
        other => panic!("unexpected {:?}", other),
    }
    let mut single_part = TermN::Comp(vec![leaf(4)], TermType(0));
    single_part.squash();
    assert_eq!(phase_angle(&single_part), Angle::new(4, 1));
}

#[test]
fn squash_pattern_flattens() {
    let mut p = PatternN::Tensor(vec![
        PatternN::Tensor(vec![PatternN::Ket(KetState::One), PatternN::Ket(KetState::Zero)]),
        PatternN::Ket(KetState::Plus),
    ]);
    p.squash();
    match &p {
        PatternN::Tensor(parts) => assert_eq!(parts.len(), 3),
        other => panic!("unexpected {:?}", other),
    }
}

#[test]
fn quote_pattern_forms() {
    let empty = PatternN::Comp(vec![], PatternType(2, 2));
    assert!(matches!(empty.quote(), PatternT::Unitary(_)));
    let k = PatternN::Ket(KetState::Minus);
    match k.quote() {
        PatternT::Ket(states) => assert_eq!(states.get(0), KetState::Minus),
        other => panic!("unexpected {:?}", other),
    }
}

fn clause_parts(c: &ClauseC) -> Vec<Option<KetState>> {
    c.pattern.parts.clone()
}

#[test]
fn circuit_of_z() {
    let t = typed(single(z_like(KetState::One, sp(0, 1)), sp(0, 1)));
    let c = t.eval_circ();
    assert_eq!(c.ty, TermType(1));
    assert_eq!(c.clauses.len(), 1);
    assert_eq!(clause_parts(&c.clauses[0]), vec![Some(KetState::One)]);
    assert_eq!(c.clauses[0].phase, Angle::new(1, 1));
}

#[test]
fn circuit_of_controlled_z() {
    let a = atom(
        AtomRInner::IfLet {
            pattern: pattern(
                vec![vec![ket(vec![KetState::One], sp(0, 1)), ket(vec![KetState::One], sp(2, 3))]],
                sp(0, 3),
            ),
            inner: Box::new(tensor(vec![atom(AtomRInner::Phase(Phase::MinusOne), sp(4, 5))], sp(4, 5))),
        },
        sp(0, 5),
    );
    let c = typed(single(a, sp(0, 5))).eval_circ();
    assert_eq!(c.ty, TermType(2));
    assert_eq!(c.clauses.len(), 1);
    assert_eq!(clause_parts(&c.clauses[0]), vec![Some(KetState::One), Some(KetState::One)]);
}

#[test]
fn circuit_of_tensor_places_each_part() {
    let t = term(
        vec![tensor(
            vec![atom(AtomRInner::Id(1), sp(0, 1)), z_like(KetState::One, sp(2, 3))],
            sp(0, 3),
        )],
        sp(0, 3),
    );
    let c = typed(t).eval_circ();
    assert_eq!(c.clauses.len(), 1);
    assert_eq!(clause_parts(&c.clauses[0]), vec![None, Some(KetState::One)]);
    let q = c.quote();
    match q {
        TermT::IfLet { inner, .. } => assert!(matches!(*inner, TermT::Tensor(ref v) if v.len() == 2)),
        other => panic!("unexpected {:?}", other),
    }
}

#[test]
fn circuit_of_unitary_pattern_is_a_sandwich() {
    let h = single(z_like(KetState::Plus, sp(0, 1)), sp(0, 1));
    let a = atom(
        AtomRInner::IfLet {
            pattern: pattern(
                vec![
                    vec![pat_atom(PatAtomRInner::Unitary(Box::new(h)), sp(0, 1))],
                    vec![ket(vec![KetState::One], sp(2, 3))],
                ],
                sp(0, 3),
            ),
            inner: Box::new(tensor(vec![atom(AtomRInner::Phase(Phase::MinusOne), sp(4, 5))], sp(4, 5))),
        },
        sp(0, 5),
    );
    let c = typed(single(a, sp(0, 5))).eval_circ();
    assert_eq!(c.clauses.len(), 3);
    assert_eq!(clause_parts(&c.clauses[0]), vec![Some(KetState::Plus)]);
    assert_eq!(c.clauses[0].phase, Angle::new(-1, 1));
    assert_eq!(clause_parts(&c.clauses[1]), vec![Some(KetState::One)]);
    assert_eq!(c.clauses[1].phase, Angle::new(1, 1));
    assert_eq!(clause_parts(&c.clauses[2]), vec![Some(KetState::Plus)]);
    assert_eq!(c.clauses[2].phase, Angle::new(1, 1));
}

#[test]
fn circuit_quote_forms() {
    let empty = TermC { clauses: vec![], ty: TermType(3) };
    assert!(matches!(empty.quote(), TermT::Id(TermType(3))));
    let clause = ClauseC { pattern: PatternC::id(2), phase: Angle::new(1, 4) };
    assert_eq!(clause.pattern.id_qubits(), 2);
    let two = TermC {
        clauses: vec![
            clause,
            ClauseC { pattern: PatternC { parts: vec![Some(KetState::Zero), None] }, phase: Angle::new(1, 2) },
        ],
        ty: TermType(2),
    };
    assert!(matches!(two.quote(), TermT::Comp(ref v) if v.len() == 2));
    let inv = two.clauses[1].invert();
    assert_eq!(inv.phase, Angle::new(-1, 2));
}

#[test]
fn circuit_identity_has_no_clauses() {
    let c = typed(single(atom(AtomRInner::Id(2), sp(0, 3)), sp(0, 3))).eval_circ();
    assert!(c.clauses.is_empty());
    assert!(matches!(c.quote(), TermT::Id(TermType(2))));
}
