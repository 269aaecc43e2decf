use phase_rs::ket::KetState;
use phase_rs::normal_syntax::{AtomN, PatternN, TermN};
use phase_rs::parsing::{parse_command, ParseError};
use phase_rs::phase::{Angle, Phase};
use phase_rs::raw_syntax::AtomRInner;
use phase_rs::text::SourceRange;
use phase_rs::typecheck::TypeCheckError;
use phase_rs::typed_syntax::{TermT, TermType};

fn typed(src: &str) -> Result<TermT, TypeCheckError<SourceRange>> {
    let c = parse_command(src).expect("parses");
    assert!(c.is_wf());
    c.check().map(|(_, t)| t)
}

fn angle_of(t: &TermN) -> Angle {
    match t {
        TermN::Atom(AtomN::Phase(a)) => *a,
        TermN::Atom(AtomN::IfLet(_, inner, _)) => angle_of(inner),
        other => panic!("unexpected {:?}", other),
    }
}

#[test]
fn parse_z() {
    let t = typed("if let |1> then -1").unwrap();
    assert_eq!(t.get_type(), TermType(1));
    let n = t.eval();
    assert!(matches!(&n, TermN::Atom(AtomN::IfLet(PatternN::Ket(KetState::One), _, _))));
    assert_eq!(angle_of(&n), Angle::new(1, 1));
}

#[test]
fn parse_z_composed_twice() {
    let t = typed("gate Z = if let |1> then -1,\nZ ; Z").unwrap();
    let n = t.eval();
    assert!(matches!(&n, TermN::Comp(v, TermType(1)) if v.len() == 2));
}

#[test]
fn parse_inverse_and_sqrt() {
    let inv = typed("gate Z = if let |1> then -1, Z ^ -1").unwrap().eval();
    assert_eq!(angle_of(&inv), Angle::new(-1, 1));
    let root = typed("gate Z = if let |1> then -1, sqrt Z").unwrap().eval();
    assert_eq!(angle_of(&root), Angle::new(1, 2));
}

#[test]
fn parse_controlled_z() {
    let t = typed("if let |1> x |1> then -1").unwrap();
    assert_eq!(t.get_type(), TermType(2));
    let c = t.eval_circ();
    assert_eq!(c.clauses.len(), 1);
    assert_eq!(c.clauses[0].pattern.parts, vec![Some(KetState::One), Some(KetState::One)]);
}

#[test]
fn parse_hadamard_gate() {
    let t = typed("gate H = if let |+> then -1,\nH").unwrap();
    assert!(matches!(&t, TermT::Comp(_)));
    assert_eq!(t.get_type(), TermType(1));
}

#[test]
fn parse_phase_angles() {
    let n = typed("ph(0.25pi) ; ph(0.25pi)").unwrap().eval();
    match &n {
        TermN::Comp(v, TermType(0)) => {
            assert_eq!(v.len(), 2);
            let a = angle_of(&v[0]);
            assert_eq!((a.num(), a.den()), (25, 100));
        }
        other => panic!("unexpected {:?}", other),
    }
    let t = typed("i ; -i ; -1").unwrap();
    match t {
        TermT::Comp(v) => assert_eq!(v.len(), 3),
        other => panic!("unexpected {:?}", other),
    }
}

#[test]
fn parse_identity_with_tensor() {
    let t = typed("gate Z = if let |1> then -1, id2 ; (Z x id)").unwrap();
    assert_eq!(t.get_type(), TermType(2));
    let c = t.eval_circ();
    assert_eq!(c.clauses.len(), 1);
    assert_eq!(c.clauses[0].pattern.parts, vec![Some(KetState::One), None]);
}

#[test]
fn parse_sqrt_of_composition_rejected() {
    match typed("gate Z = if let |1> then -1,\nsqrt (Z ; Z)") {
        Err(TypeCheckError::TermNotRootable { tm, span_of_root }) => {
            assert_eq!(span_of_root, SourceRange { start: 29, end: 41 });
            assert_eq!(tm, SourceRange { start: 35, end: 40 });
        }
        other => panic!("unexpected {:?}", other),
    }
}

#[test]
fn parse_comments_and_spacing() {
    let t = typed("// a comment\ngate Z = if let |1> then -1, // more\n  Z  // end").unwrap();
    assert_eq!(t.get_type(), TermType(1));
}

#[test]
fn parse_pattern_with_unitary_part() {
    let t = typed("if let id x |0> then id").unwrap();
    assert_eq!(t.get_type(), TermType(2));
}

#[test]
fn parse_errors() {
    assert!(matches!(parse_command("if let |1> -1"), Err(ParseError::Cut(_))));
    assert!(matches!(parse_command("id ; )"), Err(_)));
    assert!(parse_command("").is_err());
    assert!(matches!(parse_command("id ^ 2"), Err(ParseError::Cut(_))));
}

#[test]
fn parse_unknown_gate_reported() {
    match typed("H") {
        Err(TypeCheckError::UnknownSymbol { name, span }) => {
            assert_eq!(name.as_str(), "H");
            assert_eq!(span, SourceRange { start: 0, end: 1 });
        }
        other => panic!("unexpected {:?}", other),
    }
}

#[test]
fn parse_exact_phase_variants() {
    let t = typed("ph(1.5pi)").unwrap();
    let q = t.eval().quote();
    assert!(matches!(q, TermT::Phase(Phase::MinusImag)));
}

#[test]
fn circuit_quote_keeps_arity() {
    for src in ["if let |1> x |1> then -1", "if let |+0-> then i ; (id x (if let |1> then -1) x id)"] {
        let t = typed(src).unwrap();
        let q = t.eval_circ().quote();
        assert_eq!(q.get_type(), t.get_type(), "{src}");
    }
}

#[test]
fn run_gives_every_stage() {
    let c = parse_command("gate Z = if let |1> then -1,\nZ ; (Z ^ -1) ; id").unwrap();
    assert!(c.is_wf());
    let o = c.run().unwrap();
    assert_eq!(o.typed.get_type(), TermType(1));
    assert_eq!(o.quoted.get_type(), TermType(1));
    assert!(matches!(&o.normal, TermN::Comp(v, TermType(1)) if v.len() == 2));
    assert_eq!(o.circuit.ty, TermType(1));
    assert_eq!(o.circuit.clauses.len(), 2);
    assert_eq!(o.circuit.clauses[1].phase, Angle::new(-1, 1));
}

#[test]
fn run_reports_check_errors() {
    let c = parse_command("H").unwrap();
    assert!(matches!(c.run(), Err(TypeCheckError::UnknownSymbol { .. })));
}

#[test]
fn to_raw_keeps_structure() {
    let t = typed("gate Z = if let |1> then -1, (Z x id) ; (sqrt Z x id)").unwrap();
    let raw = t.to_raw();
    assert!(raw.is_wf());
    assert_eq!(raw.inner.terms.len(), 2);
    assert_eq!(raw.inner.terms[0].inner.terms.len(), 1);
    assert!(matches!(raw.inner.terms[0].inner.terms[0].inner, AtomRInner::Brackets(_)));
    let p = typed("if let (id x |1>) . |0> then id0").unwrap();
    let praw = p.to_raw();
    assert!(praw.is_wf());
}
