use std::f64::consts::{FRAC_1_SQRT_2, PI};

use faer::Mat;
use num_complex::Complex;
use phase_rs::ket::KetState;
use phase_rs::normal_syntax::{AtomN, PatternN, TermN};
use phase_rs::parsing::parse_command;
use phase_rs::typed_syntax::TermT;

type C = Complex<f64>;

fn adjoint(m: &Mat<C>) -> Mat<C> {
    Mat::from_fn(m.ncols(), m.nrows(), |i, j| m[(j, i)].conj())
}

fn kron(a: &Mat<C>, b: &Mat<C>) -> Mat<C> {
    a.as_ref().kron(b.as_ref())
}

fn ket_vector(state: KetState) -> Mat<C> {
    let h = C::new(FRAC_1_SQRT_2, 0.0);
    let (a, b) = match state {
        KetState::Zero => (C::new(1.0, 0.0), C::new(0.0, 0.0)),
        KetState::One => (C::new(0.0, 0.0), C::new(1.0, 0.0)),
        KetState::Plus => (h, h),
        KetState::Minus => (h, -h),
    };
    Mat::from_fn(2, 1, |i, _| if i == 0 { a } else { b })
}

fn term_unitary(t: &TermN) -> Mat<C> {
    match t {
        TermN::Comp(terms, ty) => {
            let mut it = terms.iter().map(term_unitary);
            match it.next() {
                None => Mat::identity(1 << ty.0, 1 << ty.0),
                Some(u) => it.fold(u, |x, y| &y * &x),
            }
        }
        TermN::Tensor(terms) => {
            let mut it = terms.iter().map(term_unitary);
            match it.next() {
                None => Mat::identity(1, 1),
                Some(u) => it.fold(u, |x, y| kron(&x, &y)),
            }
        }
        TermN::Atom(atom) => atom_unitary(atom),
    }
}

fn atom_unitary(a: &AtomN) -> Mat<C> {
    match a {
        AtomN::Phase(angle) => {
            let c = C::cis(angle.num() as f64 / angle.den() as f64 * PI);
            Mat::from_fn(1, 1, |_, _| c)
        }
        AtomN::IfLet(pattern, inner, _) => {
            let (inj, proj) = inj_and_proj(pattern);
            let u = term_unitary(inner);
            &proj + &(&(&inj * &u) * &adjoint(&inj))
        }
    }
}

fn inj_and_proj(p: &PatternN) -> (Mat<C>, Mat<C>) {
    match p {
        PatternN::Comp(patterns, ty) => {
            let mut it = patterns.iter().map(inj_and_proj);
            match it.next() {
                None => (Mat::identity(1 << ty.0, 1 << ty.0), Mat::zeros(1 << ty.0, 1 << ty.0)),
                Some(first) => it.fold(first, |(i1, p1), (i2, p2)| {
                    let i = &i1 * &i2;
                    let p = &p1 + &(&(&i1 * &p2) * &adjoint(&i1));
                    (i, p)
                }),
            }
        }
        PatternN::Tensor(patterns) => {
            let mut it = patterns.iter().map(inj_and_proj);
            match it.next() {
                None => (Mat::identity(1, 1), Mat::zeros(1, 1)),
                Some(first) => it.fold(first, |(i1, p1), (i2, p2)| {
                    let i = kron(&i1, &i2);
                    let id2: Mat<C> = Mat::identity(p2.nrows(), p2.nrows());
                    let p = &kron(&p1, &id2) + &kron(&(&i1 * &adjoint(&i1)), &p2);
                    (i, p)
                }),
            }
        }
        PatternN::Ket(state) => {
            let cm = ket_vector(state.compl());
            (ket_vector(*state), &cm * &adjoint(&cm))
        }
        PatternN::Unitary(inner) => {
            let u = atom_unitary(inner);
            let n = u.nrows();
            (u, Mat::zeros(n, n))
        }
    }
}

fn typed(src: &str) -> TermT {
    parse_command(src).expect("parses").check().expect("checks").1
}

fn unitary_of(src: &str) -> Mat<C> {
    let mut n = typed(src).eval();
    n.squash();
    term_unitary(&n)
}

fn close(a: &Mat<C>, b: &Mat<C>) -> bool {
    a.nrows() == b.nrows()
        && a.ncols() == b.ncols()
        && (0..a.nrows()).all(|i| (0..a.ncols()).all(|j| (a[(i, j)] - b[(i, j)]).norm() < 1e-6))
}

fn diag(entries: &[C]) -> Mat<C> {
    let n = entries.len();
    Mat::from_fn(n, n, |i, j| if i == j { entries[i] } else { C::new(0.0, 0.0) })
}

const Z: &str = "gate Z = if let |1> then -1,\n";

fn one() -> C {
    C::new(1.0, 0.0)
}

fn is_unitary(m: &Mat<C>) -> bool {
    close(&(m * &adjoint(m)), &Mat::identity(m.nrows(), m.nrows()))
}

#[test]
fn unitary_of_z() {
    assert!(close(&unitary_of(&format!("{Z}Z")), &diag(&[one(), -one()])));
}

#[test]
fn unitary_of_z_twice() {
    assert!(close(&unitary_of(&format!("{Z}Z ; Z")), &diag(&[one(), one()])));
}

#[test]
fn unitary_of_z_inverse() {
    assert!(close(&unitary_of(&format!("{Z}Z ^ -1")), &diag(&[one(), -one()])));
}

#[test]
fn unitary_of_sqrt_z() {
    assert!(close(&unitary_of(&format!("{Z}sqrt Z")), &diag(&[one(), C::new(0.0, 1.0)])));
}

#[test]
fn unitary_of_controlled_z() {
    let u = unitary_of("if let |1> x |1> then -1");
    assert!(close(&u, &diag(&[one(), one(), one(), -one()])));
}

#[test]
fn unitary_of_plus_reflection() {
    // |-><-| - |+><+|, the reflection that `if let |+> then -1` denotes
    let u = unitary_of("gate H = if let |+> then -1, H");
    let expected = Mat::from_fn(2, 2, |i, j| C::new(if i == j { 0.0 } else { -1.0 }, 0.0));
    assert!(close(&u, &expected));
}

#[test]
fn unitary_of_two_quarter_phases() {
    let u = unitary_of("ph(0.25pi) ; ph(0.25pi)");
    assert!(close(&u, &diag(&[C::new(0.0, 1.0)])));
}

#[test]
fn unitary_of_identity_then_z_on_first() {
    // the Kronecker product Z (x) I, the first qubit being the most significant
    let u = unitary_of(&format!("{Z}id2 ; (Z x id)"));
    assert!(close(&u, &diag(&[one(), one(), -one(), -one()])));
}

const SAMPLES: [&str; 6] = [
    "gate Z = if let |1> then -1, Z ; Z",
    "gate H = if let |+> then -1, H ; (ph(0.3pi) x id)",
    "if let |1> x |+> then ph(0.2pi)",
    "gate H = if let |+> then -1, if let H . |1> then i",
    "if let |-0> then -1 ; (id x if let |1> then ph(0.7pi))",
    "gate H = if let |+> then -1, sqrt (H x if let |0> then i)",
];

#[test]
fn unitaries_are_unitary() {
    for s in SAMPLES {
        assert!(is_unitary(&unitary_of(s)), "{s}");
    }
}

#[test]
fn inverse_gives_adjoint() {
    let base = "gate H = if let |+> then -1, gate T = if let |1> x |+> then ph(0.2pi) ; (H x id),\n";
    let u = unitary_of(&format!("{base}T"));
    let v = unitary_of(&format!("{base}T ^ -1"));
    assert!(close(&v, &adjoint(&u)));
}

#[test]
fn sqrt_squares_back() {
    let base = "gate A = if let |1> x |-> then ph(0.6pi) x ph(0.2pi),\n";
    let u = unitary_of(&format!("{base}A"));
    let r = unitary_of(&format!("{base}sqrt A"));
    let sq = &r * &r;
    assert!(close(&sq, &u));
}

#[test]
fn circuit_form_has_the_same_unitary() {
    for s in SAMPLES {
        let t = typed(s);
        let circuit = t.eval_circ().quote();
        let from_circuit = term_unitary(&circuit.eval());
        let direct = term_unitary(&t.eval());
        assert!(close(&from_circuit, &direct), "{s}");
    }
}

#[test]
fn pattern_isometry_and_projector_sum_to_identity() {
    for s in ["|1> x |+>", "|-0>", "(id x |1>) . |0>", "(id x |+>) . |->"] {
        let t = typed(&format!("if let {s} then id0 x ph(0.1pi)"));
        if let TermT::Comp(parts) = &t {
            if let TermT::Tensor(atoms) = &parts[0] {
                if let TermT::IfLet { pattern, .. } = &atoms[0] {
                    let (i, p) = inj_and_proj(&pattern.eval());
                    let n = p.nrows();
                    assert!(close(&(&p + &(&i * &adjoint(&i))), &Mat::identity(n, n)), "{s}");
                    continue;
                }
            }
        }
        panic!("unexpected shape for {s}");
    }
}
