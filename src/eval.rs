//! Evaluation of typed terms to normal form, expanding gate definitions and
//! folding the inverse and square-root macros into a running phase multiplier.

use vstd::prelude::*;
use crate::normal_syntax::{
    quote_preserves_arity, quote_term, quote_well_typed, narity_sum, npattern_type_sum, lemma_npatterns_view, lemma_nterms_view, nterms_view, npatterns_view, AtomN, AtomNS, PatternN,
    PatternNS, TermN, TermNS,
};
use crate::ket::KetState;
use crate::phase::PhaseMul;
use crate::squash::{squash_preserves_arity, squash_sized, squash_term};
use crate::typed_syntax::{
    arity_sum, pattern_type_sum, lemma_patterns_view, lemma_terms_view, patterns_view, terms_view, PatternS, PatternT, PatternType,
    TermS, TermT, TermType,
};

verus! {

broadcast use {
    vstd::std_specs::vec::group_vec_axioms,
    lemma_terms_view,
    lemma_patterns_view,
    lemma_nterms_view,
    lemma_npatterns_view,
};

/// The normal forms of a sequence of terms, in order.
pub open spec fn eval_terms(s: Seq<TermS>, m: PhaseMul) -> Seq<TermNS>
    decreases s,
{
    if s.len() == 0 {
        Seq::empty()
    } else {
        eval_terms(s.subrange(0, s.len() - 1), m).push(eval_term(s.last(), m))
    }
}

/// The normal form of term `t` under the phase multiplier `m`.
pub open spec fn eval_term(t: TermS, m: PhaseMul) -> TermNS
    decreases t,
{
    match t {
        TermS::Comp(ts) => if ts.len() == 1 {
            eval_term(ts[0], m)
        } else {
            let es = eval_terms(ts, m);
            TermNS::Comp(
                if m.negated {
                    es.reverse()
                } else {
                    es
                },
                TermType(t.arity() as usize),
            )
        },
        TermS::Tensor(ts) => if ts.len() == 1 {
            eval_term(ts[0], m)
        } else {
            TermNS::Tensor(eval_terms(ts, m))
        },
        TermS::Id(n) => TermNS::Comp(Seq::empty(), TermType(n as usize)),
        TermS::Phase(p) => TermNS::Atom(AtomNS::Phase(m.spec_apply(p.spec_eval()))),
        TermS::IfLet(p, inner) => TermNS::Atom(
            AtomNS::IfLet(eval_pattern(p), Box::new(eval_term(*inner, m)), TermType(t.arity() as usize)),
        ),
        TermS::Gate(_, d) => eval_term(*d, m),
        TermS::Inverse(inner) => eval_term(*inner, m.spec_inverse()),
        TermS::Sqrt(inner) => eval_term(*inner, m.spec_sqrt()),
    }
}

/// The normal forms of a sequence of patterns, in order.
pub open spec fn eval_patterns(s: Seq<PatternS>) -> Seq<PatternNS>
    decreases s,
{
    if s.len() == 0 {
        Seq::empty()
    } else {
        eval_patterns(s.subrange(0, s.len() - 1)).push(eval_pattern(s.last()))
    }
}

/// The normal form of pattern `p`.
pub open spec fn eval_pattern(p: PatternS) -> PatternNS
    decreases p,
{
    match p {
        PatternS::Comp(ps) => if ps.len() == 1 {
            eval_pattern(ps[0])
        } else {
            PatternNS::Comp(
                eval_patterns(ps),
                PatternType(p.pattern_type().0 as usize, p.pattern_type().1 as usize),
            )
        },
        PatternS::Tensor(ps) => if ps.len() == 1 {
            eval_pattern(ps[0])
        } else {
            PatternNS::Tensor(eval_patterns(ps))
        },
        PatternS::Ket(ks) => if ks.len() == 1 {
            PatternNS::Ket(ks[0])
        } else {
            PatternNS::Tensor(ks.map_values(|k| PatternNS::Ket(k)))
        },
        PatternS::Unitary(t) => eval_term_pattern(*t, PhaseMul::spec_one()),
    }
}

/// The pattern normal forms of a sequence of terms, in order.
pub open spec fn eval_terms_pattern(s: Seq<TermS>, m: PhaseMul) -> Seq<PatternNS>
    decreases s,
{
    if s.len() == 0 {
        Seq::empty()
    } else {
        eval_terms_pattern(s.subrange(0, s.len() - 1), m).push(eval_term_pattern(s.last(), m))
    }
}

/// The normal form of term `t`, under the phase multiplier `m`, read as a
/// pattern. Pattern composition runs right to left, so a composition keeps
/// its parts reversed.
pub open spec fn eval_term_pattern(t: TermS, m: PhaseMul) -> PatternNS
    decreases t,
{
    match t {
        TermS::Comp(ts) => if ts.len() == 1 {
            eval_term_pattern(ts[0], m)
        } else {
            let es = eval_terms_pattern(ts, m);
            PatternNS::Comp(
                if m.negated {
                    es
                } else {
                    es.reverse()
                },
                PatternType(t.arity() as usize, t.arity() as usize),
            )
        },
        TermS::Tensor(ts) => if ts.len() == 1 {
            eval_term_pattern(ts[0], m)
        } else {
            PatternNS::Tensor(eval_terms_pattern(ts, m))
        },
        TermS::Id(n) => PatternNS::Comp(Seq::empty(), PatternType(n as usize, n as usize)),
        TermS::Phase(p) => PatternNS::Unitary(Box::new(AtomNS::Phase(m.spec_apply(p.spec_eval())))),
        TermS::IfLet(p, inner) => PatternNS::Unitary(
            Box::new(
                AtomNS::IfLet(eval_pattern(p), Box::new(eval_term(*inner, m)), TermType(t.arity() as usize)),
            ),
        ),
        TermS::Gate(_, d) => eval_term_pattern(*d, m),
        TermS::Inverse(inner) => eval_term_pattern(*inner, m.spec_inverse()),
        TermS::Sqrt(inner) => eval_term_pattern(*inner, m.spec_sqrt()),
    }
}

/// `eval_terms` maps each term to its normal form.
pub broadcast proof fn lemma_eval_terms(s: Seq<TermS>, m: PhaseMul)
    ensures
        #[trigger] eval_terms(s, m).len() == s.len(),
        forall|i: int| 0 <= i < s.len() ==> #[trigger] eval_terms(s, m)[i] == eval_term(s[i], m),
    decreases s.len(),
{
    if s.len() > 0 {
        let p = s.subrange(0, s.len() - 1);
        lemma_eval_terms(p, m);
        assert forall|i: int| 0 <= i < s.len() implies #[trigger] eval_terms(s, m)[i] == eval_term(s[i], m) by {
            if i < s.len() - 1 {
                assert(p[i] == s[i]);
            }
        }
    }
}

/// `eval_patterns` maps each pattern to its normal form.
pub broadcast proof fn lemma_eval_patterns(s: Seq<PatternS>)
    ensures
        #[trigger] eval_patterns(s).len() == s.len(),
        forall|i: int| 0 <= i < s.len() ==> #[trigger] eval_patterns(s)[i] == eval_pattern(s[i]),
    decreases s.len(),
{
    if s.len() > 0 {
        let p = s.subrange(0, s.len() - 1);
        lemma_eval_patterns(p);
        assert forall|i: int| 0 <= i < s.len() implies #[trigger] eval_patterns(s)[i] == eval_pattern(s[i]) by {
            if i < s.len() - 1 {
                assert(p[i] == s[i]);
            }
        }
    }
}

/// `eval_terms_pattern` maps each term to its pattern normal form.
pub broadcast proof fn lemma_eval_terms_pattern(s: Seq<TermS>, m: PhaseMul)
    ensures
        #[trigger] eval_terms_pattern(s, m).len() == s.len(),
        forall|i: int| 0 <= i < s.len() ==> #[trigger] eval_terms_pattern(s, m)[i] == eval_term_pattern(s[i], m),
    decreases s.len(),
{
    if s.len() > 0 {
        let p = s.subrange(0, s.len() - 1);
        lemma_eval_terms_pattern(p, m);
        assert forall|i: int| 0 <= i < s.len() implies #[trigger] eval_terms_pattern(s, m)[i] == eval_term_pattern(s[i], m) by {
            if i < s.len() - 1 {
                assert(p[i] == s[i]);
            }
        }
    }
}

/// The elements of `v` in reverse order.
fn reversed<T>(v: Vec<T>) -> (r: Vec<T>)
    ensures
        r@ == v@.reverse(),
{
    let ghost orig = v@;
    let mut rest = v;
    let mut out: Vec<T> = Vec::new();
    while rest.len() > 0
        invariant
            rest@ == orig.subrange(0, rest@.len() as int),
            out@.len() + rest@.len() == orig.len(),
            forall|j: int| 0 <= j < out@.len() ==> out@[j] == orig[orig.len() - 1 - j],
        decreases rest@.len(),
    {
        let x = rest.pop().unwrap();
        out.push(x);
    }
    assert(out@ =~= orig.reverse());
    out
}

impl TermT {
    /// Evaluate a term to a `TermN`, expanding top level definitions
    /// and evaluating inverse and sqrt macros.
    pub fn eval(&self) -> (r: TermN)
        requires
            self@.wf(),
        ensures
            r@ == eval_term(self@, PhaseMul::spec_one()),
    {
        self.eval_with_phase_mul(PhaseMul::one())
    }

    /// Evaluate a term under the phase multiplier `m`.
    pub fn eval_with_phase_mul(&self, m: PhaseMul) -> (r: TermN)
        requires
            self@.wf(),
        ensures
            r@ == eval_term(self@, m),
        decreases self,
    {
        match self {
            TermT::Comp(terms) => {
                let ghost vs = terms_view(terms@);
                proof {
                    assert(decreases_to!(*terms => terms[0]));
                    assert(decreases_to!(*self => (*self)->Comp_0));
                    assert(vs[0] == terms@[0]@);
                }
                if terms.len() == 1 {
                    return terms[0].eval_with_phase_mul(m);
                }
                let ty = self.get_type();
                let mut out: Vec<TermN> = Vec::new();
                let mut i: usize = 0;
                while i < terms.len()
                    invariant
                        *self == TermT::Comp(*terms),
                        self@.wf(),
                        vs == terms_view(terms@),
                        i <= terms.len(),
                        out@.len() == i,
                        forall|j: int| 0 <= j < i ==> (#[trigger] out@[j])@ == eval_term(vs[j], m),
                    decreases terms.len() - i,
                {
                    proof {
                        assert(decreases_to!(*terms => terms[i as int]));
                        assert(decreases_to!(*self => (*self)->Comp_0));
                        assert(vs[i as int] == terms@[i as int]@);
                        assert(vs[i as int].wf());
                    }
                    let e = terms[i].eval_with_phase_mul(m);
                    out.push(e);
                    i = i + 1;
                }
                proof {
                    lemma_eval_terms(vs, m);
                    assert forall|j: int| 0 <= j < out@.len() implies nterms_view(out@)[j] == (eval_terms(vs, m))[j] by {
                        lemma_nterms_view(out@);
                        lemma_terms_view(terms@);
                        assert(nterms_view(out@)[j] == out@[j]@);
                    }
                    assert(nterms_view(out@) =~= eval_terms(vs, m));
                }
                if m.negated {
                    let r = reversed(out);
                    proof {
                        assert forall|j: int| 0 <= j < r@.len() implies nterms_view(r@)[j] == (eval_terms(vs, m).reverse())[j] by {
                            lemma_nterms_view(r@);
                            lemma_nterms_view(out@);
                            assert(nterms_view(r@)[j] == r@[j]@);
                            assert(r@[j] == out@[out@.len() - 1 - j]);
                            assert(nterms_view(out@)[out@.len() - 1 - j] == out@[out@.len() - 1 - j]@);
                        }
                        assert(nterms_view(r@) =~= eval_terms(vs, m).reverse());
                    }
                    TermN::Comp(r, ty)
                } else {
                    TermN::Comp(out, ty)
                }
            },
            TermT::Tensor(terms) => {
                let ghost vs = terms_view(terms@);
                proof {
                    assert(decreases_to!(*terms => terms[0]));
                    assert(decreases_to!(*self => (*self)->Tensor_0));
                    assert(vs[0] == terms@[0]@);
                }
                if terms.len() == 1 {
                    return terms[0].eval_with_phase_mul(m);
                }
                let mut out: Vec<TermN> = Vec::new();
                let mut i: usize = 0;
                while i < terms.len()
                    invariant
                        *self == TermT::Tensor(*terms),
                        self@.wf(),
                        vs == terms_view(terms@),
                        i <= terms.len(),
                        out@.len() == i,
                        forall|j: int| 0 <= j < i ==> (#[trigger] out@[j])@ == eval_term(vs[j], m),
                    decreases terms.len() - i,
                {
                    proof {
                        assert(decreases_to!(*terms => terms[i as int]));
                        assert(decreases_to!(*self => (*self)->Tensor_0));
                        assert(vs[i as int] == terms@[i as int]@);
                        assert(vs[i as int].wf());
                    }
                    let e = terms[i].eval_with_phase_mul(m);
                    out.push(e);
                    i = i + 1;
                }
                proof {
                    lemma_eval_terms(vs, m);
                    assert forall|j: int| 0 <= j < out@.len() implies nterms_view(out@)[j] == (eval_terms(vs, m))[j] by {
                        lemma_nterms_view(out@);
                        lemma_terms_view(terms@);
                        assert(nterms_view(out@)[j] == out@[j]@);
                    }
                    assert(nterms_view(out@) =~= eval_terms(vs, m));
                }
                TermN::Tensor(out)
            },
            TermT::Id(ty) => TermN::Comp(Vec::new(), *ty),
            TermT::Phase(phase) => TermN::Atom(AtomN::Phase(m.apply(phase.eval()))),
            TermT::IfLet { pattern, inner } => {
                let ty = self.get_type();
                let p = pattern.eval();
                let t = inner.eval_with_phase_mul(m);
                TermN::Atom(AtomN::IfLet(p, Box::new(t), ty))
            },
            TermT::Gate { def, .. } => def.eval_with_phase_mul(m),
            TermT::Inverse(inner) => inner.eval_with_phase_mul(m.inverse()),
            TermT::Sqrt(inner) => inner.eval_with_phase_mul(m.sqrt()),
        }
    }

    /// Evaluate a term under the phase multiplier `m`, as a pattern.
    pub fn eval_pattern_with_phase_mul(&self, m: PhaseMul) -> (r: PatternN)
        requires
            self@.wf(),
        ensures
            r@ == eval_term_pattern(self@, m),
        decreases self,
    {
        match self {
            TermT::Comp(terms) => {
                let ghost vs = terms_view(terms@);
                proof {
                    assert(decreases_to!(*terms => terms[0]));
                    assert(decreases_to!(*self => (*self)->Comp_0));
                    assert(vs[0] == terms@[0]@);
                }
                if terms.len() == 1 {
                    return terms[0].eval_pattern_with_phase_mul(m);
                }
                let ty = self.get_type();
                let mut out: Vec<PatternN> = Vec::new();
                let mut i: usize = 0;
                while i < terms.len()
                    invariant
                        *self == TermT::Comp(*terms),
                        self@.wf(),
                        vs == terms_view(terms@),
                        i <= terms.len(),
                        out@.len() == i,
                        forall|j: int| 0 <= j < i ==> (#[trigger] out@[j])@ == eval_term_pattern(vs[j], m),
                    decreases terms.len() - i,
                {
                    proof {
                        assert(decreases_to!(*terms => terms[i as int]));
                        assert(decreases_to!(*self => (*self)->Comp_0));
                        assert(vs[i as int] == terms@[i as int]@);
                        assert(vs[i as int].wf());
                    }
                    let e = terms[i].eval_pattern_with_phase_mul(m);
                    out.push(e);
                    i = i + 1;
                }
                proof {
                    lemma_eval_terms_pattern(vs, m);
                    assert forall|j: int| 0 <= j < out@.len() implies npatterns_view(out@)[j] == (eval_terms_pattern(vs, m))[j] by {
                        lemma_npatterns_view(out@);
                        lemma_terms_view(terms@);
                        assert(npatterns_view(out@)[j] == out@[j]@);
                    }
                    assert(npatterns_view(out@) =~= eval_terms_pattern(vs, m));
                }
                if m.negated {
                    PatternN::Comp(out, ty.to_pattern_type())
                } else {
                    let r = reversed(out);
                    proof {
                        assert forall|j: int| 0 <= j < r@.len() implies npatterns_view(r@)[j] == (eval_terms_pattern(vs, m).reverse())[j] by {
                            lemma_npatterns_view(r@);
                            lemma_npatterns_view(out@);
                            assert(npatterns_view(r@)[j] == r@[j]@);
                            assert(r@[j] == out@[out@.len() - 1 - j]);
                            assert(npatterns_view(out@)[out@.len() - 1 - j] == out@[out@.len() - 1 - j]@);
                        }
                        assert(npatterns_view(r@) =~= eval_terms_pattern(vs, m).reverse());
                    }
                    PatternN::Comp(r, ty.to_pattern_type())
                }
            },
            TermT::Tensor(terms) => {
                let ghost vs = terms_view(terms@);
                proof {
                    assert(decreases_to!(*terms => terms[0]));
                    assert(decreases_to!(*self => (*self)->Tensor_0));
                    assert(vs[0] == terms@[0]@);
                }
                if terms.len() == 1 {
                    return terms[0].eval_pattern_with_phase_mul(m);
                }
                let mut out: Vec<PatternN> = Vec::new();
                let mut i: usize = 0;
                while i < terms.len()
                    invariant
                        *self == TermT::Tensor(*terms),
                        self@.wf(),
                        vs == terms_view(terms@),
                        i <= terms.len(),
                        out@.len() == i,
                        forall|j: int| 0 <= j < i ==> (#[trigger] out@[j])@ == eval_term_pattern(vs[j], m),
                    decreases terms.len() - i,
                {
                    proof {
                        assert(decreases_to!(*terms => terms[i as int]));
                        assert(decreases_to!(*self => (*self)->Tensor_0));
                        assert(vs[i as int] == terms@[i as int]@);
                        assert(vs[i as int].wf());
                    }
                    let e = terms[i].eval_pattern_with_phase_mul(m);
                    out.push(e);
                    i = i + 1;
                }
                proof {
                    lemma_eval_terms_pattern(vs, m);
                    assert forall|j: int| 0 <= j < out@.len() implies npatterns_view(out@)[j] == (eval_terms_pattern(vs, m))[j] by {
                        lemma_npatterns_view(out@);
                        lemma_terms_view(terms@);
                        assert(npatterns_view(out@)[j] == out@[j]@);
                    }
                    assert(npatterns_view(out@) =~= eval_terms_pattern(vs, m));
                }
                PatternN::Tensor(out)
            },
            TermT::Id(ty) => PatternN::Comp(Vec::new(), ty.to_pattern_type()),
            TermT::Phase(phase) => PatternN::Unitary(Box::new(AtomN::Phase(m.apply(phase.eval())))),
            TermT::IfLet { pattern, inner } => {
                let ty = self.get_type();
                let p = pattern.eval();
                let t = inner.eval_with_phase_mul(m);
                PatternN::Unitary(Box::new(AtomN::IfLet(p, Box::new(t), ty)))
            },
            TermT::Gate { def, .. } => def.eval_pattern_with_phase_mul(m),
            TermT::Inverse(inner) => inner.eval_pattern_with_phase_mul(m.inverse()),
            TermT::Sqrt(inner) => inner.eval_pattern_with_phase_mul(m.sqrt()),
        }
    }
}

impl PatternT {
    /// Evaluate a pattern to a `PatternN`, expanding top level definitions
    /// and evaluating inverse and sqrt macros.
    pub fn eval(&self) -> (r: PatternN)
        requires
            self@.wf(),
        ensures
            r@ == eval_pattern(self@),
        decreases self,
    {
        match self {
            PatternT::Comp(patterns) => {
                let ghost vs = patterns_view(patterns@);
                proof {
                    assert(decreases_to!(*patterns => patterns[0]));
                    assert(decreases_to!(*self => (*self)->Comp_0));
                    assert(vs[0] == patterns@[0]@);
                }
                if patterns.len() == 1 {
                    return patterns[0].eval();
                }
                let ty = self.get_type();
                let mut out: Vec<PatternN> = Vec::new();
                let mut i: usize = 0;
                while i < patterns.len()
                    invariant
                        *self == PatternT::Comp(*patterns),
                        self@.wf(),
                        vs == patterns_view(patterns@),
                        i <= patterns.len(),
                        out@.len() == i,
                        forall|j: int| 0 <= j < i ==> (#[trigger] out@[j])@ == eval_pattern(vs[j]),
                    decreases patterns.len() - i,
                {
                    proof {
                        assert(decreases_to!(*patterns => patterns[i as int]));
                        assert(decreases_to!(*self => (*self)->Comp_0));
                        assert(vs[i as int] == patterns@[i as int]@);
                        assert(vs[i as int].wf());
                    }
                    let e = patterns[i].eval();
                    out.push(e);
                    i = i + 1;
                }
                proof {
                    lemma_eval_patterns(vs);
                    assert forall|j: int| 0 <= j < out@.len() implies npatterns_view(out@)[j] == (eval_patterns(vs))[j] by {
                        lemma_npatterns_view(out@);
                        lemma_patterns_view(patterns@);
                        assert(npatterns_view(out@)[j] == out@[j]@);
                    }
                    assert(npatterns_view(out@) =~= eval_patterns(vs));
                }
                PatternN::Comp(out, ty)
            },
            PatternT::Tensor(patterns) => {
                let ghost vs = patterns_view(patterns@);
                proof {
                    assert(decreases_to!(*patterns => patterns[0]));
                    assert(decreases_to!(*self => (*self)->Tensor_0));
                    assert(vs[0] == patterns@[0]@);
                }
                if patterns.len() == 1 {
                    return patterns[0].eval();
                }
                let mut out: Vec<PatternN> = Vec::new();
                let mut i: usize = 0;
                while i < patterns.len()
                    invariant
                        *self == PatternT::Tensor(*patterns),
                        self@.wf(),
                        vs == patterns_view(patterns@),
                        i <= patterns.len(),
                        out@.len() == i,
                        forall|j: int| 0 <= j < i ==> (#[trigger] out@[j])@ == eval_pattern(vs[j]),
                    decreases patterns.len() - i,
                {
                    proof {
                        assert(decreases_to!(*patterns => patterns[i as int]));
                        assert(decreases_to!(*self => (*self)->Tensor_0));
                        assert(vs[i as int] == patterns@[i as int]@);
                        assert(vs[i as int].wf());
                    }
                    let e = patterns[i].eval();
                    out.push(e);
                    i = i + 1;
                }
                proof {
                    lemma_eval_patterns(vs);
                    assert forall|j: int| 0 <= j < out@.len() implies npatterns_view(out@)[j] == (eval_patterns(vs))[j] by {
                        lemma_npatterns_view(out@);
                        lemma_patterns_view(patterns@);
                        assert(npatterns_view(out@)[j] == out@[j]@);
                    }
                    assert(npatterns_view(out@) =~= eval_patterns(vs));
                }
                PatternN::Tensor(out)
            },
            PatternT::Ket(states) => {
                if states.qubits() == 1 {
                    return PatternN::Ket(states.get(0));
                }
                let mut out: Vec<PatternN> = Vec::new();
                let mut i: usize = 0;
                while i < states.qubits()
                    invariant
                        i <= states@.len(),
                        out@.len() == i,
                        forall|j: int| 0 <= j < i ==> (#[trigger] out@[j])@ == PatternNS::Ket(states@[j]),
                    decreases states@.len() - i,
                {
                    out.push(PatternN::Ket(states.get(i)));
                    i = i + 1;
                }
                proof {
                    assert forall|j: int| 0 <= j < out@.len() implies npatterns_view(out@)[j] == (states@.map_values(|k| PatternNS::Ket(k)))[j] by {
                        lemma_npatterns_view(out@);
                        assert(npatterns_view(out@)[j] == out@[j]@);
                    }
                    assert(npatterns_view(out@) =~= states@.map_values(|k| PatternNS::Ket(k)));
                }
                PatternN::Tensor(out)
            },
            PatternT::Unitary(inner) => inner.eval_pattern_with_phase_mul(PhaseMul::one()),
        }
    }
}

/// Evaluation never yields a composition or a tensor with exactly one part.
pub proof fn eval_no_singletons(t: TermS, m: PhaseMul)
    ensures
        eval_term(t, m).no_singletons(),
    decreases t,
{
    match t {
        TermS::Comp(ts) => {
            if ts.len() == 1 {
                eval_no_singletons(ts[0], m);
            } else {
                let es = eval_terms(ts, m);
                lemma_eval_terms(ts, m);
                assert forall|i: int| 0 <= i < es.len() implies (#[trigger] es[i]).no_singletons() by {
                    eval_no_singletons(ts[i], m);
                }
                assert forall|i: int| 0 <= i < es.len() implies (#[trigger] es.reverse()[i]).no_singletons() by {
                    assert(es.reverse()[i] == es[es.len() - 1 - i]);
                    eval_no_singletons(ts[es.len() - 1 - i], m);
                }
                assert(es.reverse().len() == es.len());
            }
        },
        TermS::Tensor(ts) => {
            if ts.len() == 1 {
                eval_no_singletons(ts[0], m);
            } else {
                let es = eval_terms(ts, m);
                lemma_eval_terms(ts, m);
                assert forall|i: int| 0 <= i < es.len() implies (#[trigger] es[i]).no_singletons() by {
                    eval_no_singletons(ts[i], m);
                }
            }
        },
        TermS::IfLet(p, inner) => {
            eval_pattern_no_singletons(p);
            eval_no_singletons(*inner, m);
            let a = AtomNS::IfLet(eval_pattern(p), Box::new(eval_term(*inner, m)), TermType(t.arity() as usize));
            assert(a.no_singletons());
        },
        TermS::Gate(_, d) => eval_no_singletons(*d, m),
        TermS::Inverse(inner) => eval_no_singletons(*inner, m.spec_inverse()),
        TermS::Sqrt(inner) => eval_no_singletons(*inner, m.spec_sqrt()),
        TermS::Id(_) => {},
        TermS::Phase(p) => {
            assert(AtomNS::Phase(m.spec_apply(p.spec_eval())).no_singletons());
        },
    }
}

/// Evaluation of a pattern never yields a composition or a tensor with exactly one part.
pub proof fn eval_pattern_no_singletons(p: PatternS)
    ensures
        eval_pattern(p).no_singletons(),
    decreases p,
{
    match p {
        PatternS::Comp(ps) => {
            if ps.len() == 1 {
                eval_pattern_no_singletons(ps[0]);
            } else {
                let es = eval_patterns(ps);
                lemma_eval_patterns(ps);
                assert forall|i: int| 0 <= i < es.len() implies (#[trigger] es[i]).no_singletons() by {
                    eval_pattern_no_singletons(ps[i]);
                }
            }
        },
        PatternS::Tensor(ps) => {
            if ps.len() == 1 {
                eval_pattern_no_singletons(ps[0]);
            } else {
                let es = eval_patterns(ps);
                lemma_eval_patterns(ps);
                assert forall|i: int| 0 <= i < es.len() implies (#[trigger] es[i]).no_singletons() by {
                    eval_pattern_no_singletons(ps[i]);
                }
            }
        },
        PatternS::Ket(ks) => {
            let es = ks.map_values(|k| PatternNS::Ket(k));
            assert forall|i: int| 0 <= i < es.len() implies (#[trigger] es[i]).no_singletons() by {
                assert(es[i] == PatternNS::Ket(ks[i]));
            }
        },
        PatternS::Unitary(t) => eval_term_pattern_no_singletons(*t, PhaseMul::spec_one()),
    }
}

/// Evaluation of a term as a pattern never yields a composition or a tensor
/// with exactly one part.
pub proof fn eval_term_pattern_no_singletons(t: TermS, m: PhaseMul)
    ensures
        eval_term_pattern(t, m).no_singletons(),
    decreases t,
{
    match t {
        TermS::Comp(ts) => {
            if ts.len() == 1 {
                eval_term_pattern_no_singletons(ts[0], m);
            } else {
                let es = eval_terms_pattern(ts, m);
                lemma_eval_terms_pattern(ts, m);
                assert forall|i: int| 0 <= i < es.len() implies (#[trigger] es[i]).no_singletons() by {
                    eval_term_pattern_no_singletons(ts[i], m);
                }
                assert forall|i: int| 0 <= i < es.len() implies (#[trigger] es.reverse()[i]).no_singletons() by {
                    assert(es.reverse()[i] == es[es.len() - 1 - i]);
                    eval_term_pattern_no_singletons(ts[es.len() - 1 - i], m);
                }
                assert(es.reverse().len() == es.len());
            }
        },
        TermS::Tensor(ts) => {
            if ts.len() == 1 {
                eval_term_pattern_no_singletons(ts[0], m);
            } else {
                let es = eval_terms_pattern(ts, m);
                lemma_eval_terms_pattern(ts, m);
                assert forall|i: int| 0 <= i < es.len() implies (#[trigger] es[i]).no_singletons() by {
                    eval_term_pattern_no_singletons(ts[i], m);
                }
            }
        },
        TermS::IfLet(p, inner) => {
            eval_pattern_no_singletons(p);
            eval_no_singletons(*inner, m);
            let a = AtomNS::IfLet(eval_pattern(p), Box::new(eval_term(*inner, m)), TermType(t.arity() as usize));
            assert(a.no_singletons());
        },
        TermS::Gate(_, d) => eval_term_pattern_no_singletons(*d, m),
        TermS::Inverse(inner) => eval_term_pattern_no_singletons(*inner, m.spec_inverse()),
        TermS::Sqrt(inner) => eval_term_pattern_no_singletons(*inner, m.spec_sqrt()),
        TermS::Id(_) => {},
        TermS::Phase(p) => {
            assert(AtomNS::Phase(m.spec_apply(p.spec_eval())).no_singletons());
        },
    }
}

/// Evaluation keeps the arity of a well-typed term, and yields a typed normal form.
pub proof fn eval_preserves_arity(t: TermS, m: PhaseMul)
    requires
        t.wf(),
    ensures
        eval_term(t, m).arity() == t.arity(),
        eval_term(t, m).typed(),
    decreases t,
{
    match t {
        TermS::Comp(ts) => {
            if ts.len() == 1 {
                eval_preserves_arity(ts[0], m);
            } else {
                let es = eval_terms(ts, m);
                lemma_eval_terms(ts, m);
                assert forall|i: int| 0 <= i < es.len() implies (#[trigger] es[i]).typed() && es[i].arity()
                    == t.arity() by {
                    eval_preserves_arity(ts[i], m);
                }
                assert forall|i: int| 0 <= i < es.len() implies (#[trigger] es.reverse()[i]).typed()
                    && es.reverse()[i].arity() == t.arity() by {
                    assert(es.reverse()[i] == es[es.len() - 1 - i]);
                    eval_preserves_arity(ts[es.len() - 1 - i], m);
                }
            }
        },
        TermS::Tensor(ts) => {
            if ts.len() == 1 {
                eval_preserves_arity(ts[0], m);
                assert(arity_sum(ts) == arity_sum(ts.subrange(0, 0)) + ts[0].arity());
            } else {
                let es = eval_terms(ts, m);
                lemma_eval_terms(ts, m);
                lemma_eval_terms_arity(ts, m);
                assert forall|i: int| 0 <= i < es.len() implies (#[trigger] es[i]).typed() by {
                    eval_preserves_arity(ts[i], m);
                }
            }
        },
        TermS::IfLet(p, inner) => {
            eval_pattern_preserves_type(p);
            eval_preserves_arity(*inner, m);
            let a = AtomNS::IfLet(eval_pattern(p), Box::new(eval_term(*inner, m)), TermType(t.arity() as usize));
            assert(a.typed());
        },
        TermS::Gate(_, d) => eval_preserves_arity(*d, m),
        TermS::Inverse(inner) => eval_preserves_arity(*inner, m.spec_inverse()),
        TermS::Sqrt(inner) => eval_preserves_arity(*inner, m.spec_sqrt()),
        TermS::Id(n) => {},
        TermS::Phase(p) => {
            assert(AtomNS::Phase(m.spec_apply(p.spec_eval())).typed());
        },
    }
}

/// The normal forms of well-typed terms have the same arity sum.
proof fn lemma_eval_terms_arity(s: Seq<TermS>, m: PhaseMul)
    requires
        forall|i: int| 0 <= i < s.len() ==> (#[trigger] s[i]).wf(),
    ensures
        narity_sum(eval_terms(s, m)) == arity_sum(s),
    decreases s,
{
    if s.len() > 0 {
        let p = s.subrange(0, s.len() - 1);
        lemma_eval_terms_arity(p, m);
        lemma_eval_terms(p, m);
        eval_preserves_arity(s.last(), m);
        assert(eval_terms(s, m).subrange(0, s.len() - 1) =~= eval_terms(p, m));
    }
}

/// Evaluation keeps the type of a well-typed pattern, and yields a typed normal form.
pub proof fn eval_pattern_preserves_type(p: PatternS)
    requires
        p.wf(),
    ensures
        eval_pattern(p).pattern_type() == p.pattern_type(),
        eval_pattern(p).typed(),
    decreases p,
{
    match p {
        PatternS::Comp(ps) => {
            if ps.len() == 1 {
                eval_pattern_preserves_type(ps[0]);
                assert(ps.last() == ps[0]);
                assert(eval_pattern(p) == eval_pattern(ps[0]));
                assert(p.pattern_type() == ps[0].pattern_type());
            } else {
                let es = eval_patterns(ps);
                lemma_eval_patterns(ps);
                assert forall|i: int| 0 <= i < es.len() implies (#[trigger] es[i]).typed() && es[i].pattern_type()
                    == ps[i].pattern_type() by {
                    eval_pattern_preserves_type(ps[i]);
                }
                assert(es.last() == es[es.len() - 1]);
                let ty = PatternType(p.pattern_type().0 as usize, p.pattern_type().1 as usize);
                assert(eval_pattern(p) == PatternNS::Comp(es, ty));
                assert(PatternNS::Comp(es, ty).pattern_type() == p.pattern_type());
            }
        },
        PatternS::Tensor(ps) => {
            if ps.len() == 1 {
                eval_pattern_preserves_type(ps[0]);
                assert(pattern_type_sum(ps.subrange(0, 0)) == (0nat, 0nat));
                assert(ps.last() == ps[0]);
                assert(pattern_type_sum(ps) == ps[0].pattern_type());
            } else {
                let es = eval_patterns(ps);
                lemma_eval_patterns(ps);
                lemma_eval_patterns_type(ps);
                assert forall|i: int| 0 <= i < es.len() implies (#[trigger] es[i]).typed() by {
                    eval_pattern_preserves_type(ps[i]);
                }
            }
        },
        PatternS::Ket(ks) => {
            if ks.len() != 1 {
                let es = eval_pattern(p)->Tensor_0;
                assert forall|i: int| 0 <= i < es.len() implies (#[trigger] es[i]) is Ket && es[i].typed() by {
                    assert(es[i] == PatternNS::Ket(ks[i]));
                }
                lemma_kets_type(es);
                assert(es.len() == ks.len());
                assert(eval_pattern(p).pattern_type() == npattern_type_sum(es));
            }
        },
        PatternS::Unitary(t) => eval_term_pattern_preserves_type(*t, PhaseMul::spec_one()),
    }
}

/// The normal forms of well-typed patterns have the same type sum.
proof fn lemma_eval_patterns_type(s: Seq<PatternS>)
    requires
        forall|i: int| 0 <= i < s.len() ==> (#[trigger] s[i]).wf(),
    ensures
        npattern_type_sum(eval_patterns(s)) == pattern_type_sum(s),
    decreases s,
{
    if s.len() > 0 {
        let p = s.subrange(0, s.len() - 1);
        lemma_eval_patterns_type(p);
        lemma_eval_patterns(p);
        eval_pattern_preserves_type(s.last());
        assert(eval_patterns(s).subrange(0, s.len() - 1) =~= eval_patterns(p));
    }
}

/// A tensor of single kets has type `(k, 0)`.
proof fn lemma_kets_type(xs: Seq<PatternNS>)
    requires
        forall|i: int| 0 <= i < xs.len() ==> (#[trigger] xs[i]) is Ket,
    ensures
        npattern_type_sum(xs) == (xs.len(), 0nat),
    decreases xs.len(),
{
    if xs.len() > 0 {
        let p = xs.subrange(0, xs.len() - 1);
        lemma_kets_type(p);
        assert(xs.last() is Ket);
        assert(xs.last().pattern_type() == (1nat, 0nat));
        assert(npattern_type_sum(xs) == ((npattern_type_sum(p).0 + 1) as nat, npattern_type_sum(p).1));
    }
}

/// Evaluation of a well-typed term as a pattern gives type `(n, n)` for arity
/// `n`, and a typed normal form.
pub proof fn eval_term_pattern_preserves_type(t: TermS, m: PhaseMul)
    requires
        t.wf(),
    ensures
        eval_term_pattern(t, m).pattern_type() == (t.arity(), t.arity()),
        eval_term_pattern(t, m).typed(),
    decreases t,
{
    match t {
        TermS::Comp(ts) => {
            if ts.len() == 1 {
                eval_term_pattern_preserves_type(ts[0], m);
            } else {
                let es = eval_terms_pattern(ts, m);
                lemma_eval_terms_pattern(ts, m);
                assert forall|i: int| 0 <= i < es.len() implies (#[trigger] es[i]).typed() && es[i].pattern_type()
                    == (t.arity(), t.arity()) by {
                    eval_term_pattern_preserves_type(ts[i], m);
                }
                assert forall|i: int| 0 <= i < es.len() implies (#[trigger] es.reverse()[i]).typed()
                    && es.reverse()[i].pattern_type() == (t.arity(), t.arity()) by {
                    assert(es.reverse()[i] == es[es.len() - 1 - i]);
                    eval_term_pattern_preserves_type(ts[es.len() - 1 - i], m);
                }
                assert(es.last() == es[es.len() - 1]);
                assert(es.reverse().last() == es.reverse()[es.len() - 1]);
                let ty = PatternType(t.arity() as usize, t.arity() as usize);
                if m.negated {
                    assert(PatternNS::Comp(es, ty).typed());
                } else {
                    assert(PatternNS::Comp(es.reverse(), ty).typed());
                }
            }
        },
        TermS::Tensor(ts) => {
            if ts.len() == 1 {
                eval_term_pattern_preserves_type(ts[0], m);
                assert(arity_sum(ts) == arity_sum(ts.subrange(0, 0)) + ts[0].arity());
            } else {
                let es = eval_terms_pattern(ts, m);
                lemma_eval_terms_pattern(ts, m);
                lemma_eval_terms_pattern_type(ts, m);
                assert forall|i: int| 0 <= i < es.len() implies (#[trigger] es[i]).typed() by {
                    eval_term_pattern_preserves_type(ts[i], m);
                }
            }
        },
        TermS::IfLet(p, inner) => {
            eval_pattern_preserves_type(p);
            eval_preserves_arity(*inner, m);
            let a = AtomNS::IfLet(eval_pattern(p), Box::new(eval_term(*inner, m)), TermType(t.arity() as usize));
            assert(a.typed());
        },
        TermS::Gate(_, d) => eval_term_pattern_preserves_type(*d, m),
        TermS::Inverse(inner) => eval_term_pattern_preserves_type(*inner, m.spec_inverse()),
        TermS::Sqrt(inner) => eval_term_pattern_preserves_type(*inner, m.spec_sqrt()),
        TermS::Id(n) => {},
        TermS::Phase(p) => {
            assert(AtomNS::Phase(m.spec_apply(p.spec_eval())).typed());
        },
    }
}

/// The pattern normal forms of well-typed terms have type sum `(a, a)` for arity sum `a`.
proof fn lemma_eval_terms_pattern_type(s: Seq<TermS>, m: PhaseMul)
    requires
        forall|i: int| 0 <= i < s.len() ==> (#[trigger] s[i]).wf(),
    ensures
        npattern_type_sum(eval_terms_pattern(s, m)) == (arity_sum(s), arity_sum(s)),
    decreases s,
{
    if s.len() > 0 {
        let p = s.subrange(0, s.len() - 1);
        lemma_eval_terms_pattern_type(p, m);
        lemma_eval_terms_pattern(p, m);
        eval_term_pattern_preserves_type(s.last(), m);
        assert(eval_terms_pattern(s, m).subrange(0, s.len() - 1) =~= eval_terms_pattern(p, m));
    }
}

/// Evaluation keeps the arity of a well-typed term, and so does quoting the
/// normal form back into a typed term, squashed first or not.
pub proof fn arity_preserved(t: TermS)
    requires
        t.wf(),
    ensures
        eval_term(t, PhaseMul::spec_one()).arity() == t.arity(),
        quote_term(eval_term(t, PhaseMul::spec_one())).arity() == t.arity(),
        quote_term(squash_term(eval_term(t, PhaseMul::spec_one()))).arity() == t.arity(),
{
    let n = eval_term(t, PhaseMul::spec_one());
    eval_preserves_arity(t, PhaseMul::spec_one());
    quote_preserves_arity(n);
    squash_preserves_arity(n);
    quote_preserves_arity(squash_term(n));
}

/// The normal form of a well-typed term has a part in every tensor, and
/// every tensor's qubits fit in a `usize`.
pub proof fn eval_sized(t: TermS, m: PhaseMul)
    requires
        t.wf(),
    ensures
        eval_term(t, m).sized(),
    decreases t,
{
    match t {
        TermS::Comp(ts) => {
            if ts.len() == 1 {
                eval_sized(ts[0], m);
            } else {
                let es = eval_terms(ts, m);
                lemma_eval_terms(ts, m);
                assert forall|i: int| 0 <= i < es.len() implies (#[trigger] es[i]).sized() by {
                    eval_sized(ts[i], m);
                }
                assert forall|i: int| 0 <= i < es.len() implies (#[trigger] es.reverse()[i]).sized() by {
                    assert(es.reverse()[i] == es[es.len() - 1 - i]);
                    eval_sized(ts[es.len() - 1 - i], m);
                }
            }
        },
        TermS::Tensor(ts) => {
            if ts.len() == 1 {
                eval_sized(ts[0], m);
            } else {
                let es = eval_terms(ts, m);
                lemma_eval_terms(ts, m);
                lemma_eval_terms_arity(ts, m);
                assert forall|i: int| 0 <= i < es.len() implies (#[trigger] es[i]).sized() by {
                    eval_sized(ts[i], m);
                }
            }
        },
        TermS::IfLet(p, inner) => {
            eval_pattern_sized(p);
            eval_sized(*inner, m);
            let a = AtomNS::IfLet(eval_pattern(p), Box::new(eval_term(*inner, m)), TermType(t.arity() as usize));
            assert(a.sized());
        },
        TermS::Gate(_, d) => eval_sized(*d, m),
        TermS::Inverse(inner) => eval_sized(*inner, m.spec_inverse()),
        TermS::Sqrt(inner) => eval_sized(*inner, m.spec_sqrt()),
        TermS::Id(_) => {},
        TermS::Phase(p) => {
            assert(AtomNS::Phase(m.spec_apply(p.spec_eval())).sized());
        },
    }
}

/// The normal form of a well-typed pattern has a part in every tensor, and
/// every tensor's type fits in `usize`s.
pub proof fn eval_pattern_sized(p: PatternS)
    requires
        p.wf(),
    ensures
        eval_pattern(p).sized(),
    decreases p,
{
    match p {
        PatternS::Comp(ps) => {
            if ps.len() == 1 {
                eval_pattern_sized(ps[0]);
            } else {
                let es = eval_patterns(ps);
                lemma_eval_patterns(ps);
                assert forall|i: int| 0 <= i < es.len() implies (#[trigger] es[i]).sized() by {
                    eval_pattern_sized(ps[i]);
                }
            }
        },
        PatternS::Tensor(ps) => {
            if ps.len() == 1 {
                eval_pattern_sized(ps[0]);
            } else {
                let es = eval_patterns(ps);
                lemma_eval_patterns(ps);
                lemma_eval_patterns_type(ps);
                assert forall|i: int| 0 <= i < es.len() implies (#[trigger] es[i]).sized() by {
                    eval_pattern_sized(ps[i]);
                }
            }
        },
        PatternS::Ket(ks) => {
            if ks.len() != 1 {
                let es = eval_pattern(p)->Tensor_0;
                assert forall|i: int| 0 <= i < es.len() implies (#[trigger] es[i]) is Ket && es[i].sized() by {
                    assert(es[i] == PatternNS::Ket(ks[i]));
                }
                lemma_kets_type(es);
                assert(es.len() == ks.len());
            }
        },
        PatternS::Unitary(t) => eval_term_pattern_sized(*t, PhaseMul::spec_one()),
    }
}

/// The pattern normal form of a well-typed term has a part in every tensor,
/// and every tensor's type fits in `usize`s.
pub proof fn eval_term_pattern_sized(t: TermS, m: PhaseMul)
    requires
        t.wf(),
    ensures
        eval_term_pattern(t, m).sized(),
    decreases t,
{
    match t {
        TermS::Comp(ts) => {
            if ts.len() == 1 {
                eval_term_pattern_sized(ts[0], m);
            } else {
                let es = eval_terms_pattern(ts, m);
                lemma_eval_terms_pattern(ts, m);
                assert forall|i: int| 0 <= i < es.len() implies (#[trigger] es[i]).sized() by {
                    eval_term_pattern_sized(ts[i], m);
                }
                assert forall|i: int| 0 <= i < es.len() implies (#[trigger] es.reverse()[i]).sized() by {
                    assert(es.reverse()[i] == es[es.len() - 1 - i]);
                    eval_term_pattern_sized(ts[es.len() - 1 - i], m);
                }
            }
        },
        TermS::Tensor(ts) => {
            if ts.len() == 1 {
                eval_term_pattern_sized(ts[0], m);
            } else {
                let es = eval_terms_pattern(ts, m);
                lemma_eval_terms_pattern(ts, m);
                lemma_eval_terms_pattern_type(ts, m);
                assert forall|i: int| 0 <= i < es.len() implies (#[trigger] es[i]).sized() by {
                    eval_term_pattern_sized(ts[i], m);
                }
            }
        },
        TermS::IfLet(p, inner) => {
            eval_pattern_sized(p);
            eval_sized(*inner, m);
            let a = AtomNS::IfLet(eval_pattern(p), Box::new(eval_term(*inner, m)), TermType(t.arity() as usize));
            assert(a.sized());
        },
        TermS::Gate(_, d) => eval_term_pattern_sized(*d, m),
        TermS::Inverse(inner) => eval_term_pattern_sized(*inner, m.spec_inverse()),
        TermS::Sqrt(inner) => eval_term_pattern_sized(*inner, m.spec_sqrt()),
        TermS::Id(_) => {},
        TermS::Phase(p) => {
            assert(AtomNS::Phase(m.spec_apply(p.spec_eval())).sized());
        },
    }
}

/// The squashed normal form of a well-typed term, quoted back, is again a
/// well-typed term, on as many qubits.
pub proof fn normal_form_well_typed(t: TermS)
    requires
        t.wf(),
    ensures
        quote_term(squash_term(eval_term(t, PhaseMul::spec_one()))).wf(),
        quote_term(squash_term(eval_term(t, PhaseMul::spec_one()))).arity() == t.arity(),
{
    let n = eval_term(t, PhaseMul::spec_one());
    eval_preserves_arity(t, PhaseMul::spec_one());
    eval_sized(t, PhaseMul::spec_one());
    squash_preserves_arity(n);
    squash_sized(n);
    quote_well_typed(squash_term(n));
    quote_preserves_arity(squash_term(n));
}

} // verus!
