//! Circuit-normal syntax and its extraction from typed terms.
//!
//! Circuit-normal syntax is designed to allow extraction to Hadamard/Controlled phase circuits:
//! a sequence of clauses "if let q_1 x ... x q_n then Phase(theta) x id(m)".

use vstd::prelude::*;
use crate::ket::{CompKetState, KetState};
use crate::phase::{Angle, Phase, PhaseMul};
use crate::typed_syntax::{
    arity_sum, lemma_arity_sum_prefix, lemma_pattern_type_sum_prefix, lemma_patterns_view,
    lemma_terms_view, pattern_type_sum, patterns_view, terms_view, PatternS, PatternT, TermS, TermT,
    TermType,
};

verus! {

broadcast use {vstd::std_specs::vec::group_vec_axioms, lemma_terms_view, lemma_patterns_view};

/// A basis-state requirement on each qubit: `Some(s)` selects state `s`,
/// `None` leaves the qubit unconstrained.
#[derive(Debug)]
pub struct PatternC {
    /// The requirement on each qubit.
    pub parts: Vec<Option<KetState>>,
}

impl View for PatternC {
    type V = Seq<Option<KetState>>;

    open spec fn view(&self) -> Seq<Option<KetState>> {
        self.parts@
    }
}

/// A clause: the phase applied where the pattern matches.
#[derive(Debug)]
pub struct ClauseC {
    /// Where the clause applies.
    pub pattern: PatternC,
    /// The phase it applies, as a fraction of pi.
    pub phase: Angle,
}

/// The value of a clause: its pattern and its angle.
pub type ClauseS = (Seq<Option<KetState>>, Angle);

impl View for ClauseC {
    type V = ClauseS;

    open spec fn view(&self) -> ClauseS {
        (self.pattern@, self.phase)
    }
}

/// Circuit-normal terms: a type and a sequence of clauses.
#[derive(Debug)]
pub struct TermC {
    /// The clauses, in order.
    pub clauses: Vec<ClauseC>,
    /// The type of the term.
    pub ty: TermType,
}

/// The values of a sequence of clauses.
pub open spec fn clauses_view(v: Seq<ClauseC>) -> Seq<ClauseS> {
    v.map_values(|c: ClauseC| c@)
}

/// The clauses of `cs` in reverse order, each with its angle negated.
pub open spec fn invert_clauses(cs: Seq<ClauseS>) -> Seq<ClauseS> {
    cs.reverse().map_values(|c: ClauseS| (c.0, c.1.spec_neg()))
}

/// The multiplier that a unitary inside a pattern contributes with.
pub open spec fn pattern_unitary_mul() -> PhaseMul {
    PhaseMul { negated: true, halvings: 0 }
}

/// `pat` with qubit `idx[i]` set to `states[i]`, for each `i` in order.
pub open spec fn set_kets(pat: Seq<Option<KetState>>, idx: Seq<usize>, states: Seq<KetState>) -> Seq<
    Option<KetState>,
>
    decreases states.len(),
{
    if states.len() == 0 || idx.len() < states.len() {
        pat
    } else {
        set_kets(pat, idx.drop_last(), states.drop_last()).update(
            idx[states.len() - 1] as int,
            Some(states.last()),
        )
    }
}

/// The clauses of term `t` under requirement `pat`, with its local qubits at
/// positions `inj` of the global pattern, and multiplier `m`.
pub open spec fn circ_term(t: TermS, pat: Seq<Option<KetState>>, inj: Seq<usize>, m: PhaseMul) -> Seq<
    ClauseS,
>
    decreases t,
{
    match t {
        TermS::Comp(ts) => if m.negated {
            circ_terms_rev(ts, pat, inj, m)
        } else {
            circ_terms(ts, pat, inj, m)
        },
        TermS::Tensor(ts) => circ_tensor(ts, pat, inj, m),
        TermS::Id(_) => Seq::empty(),
        TermS::Phase(p) => seq![(pat, m.spec_apply(p.spec_eval()))],
        TermS::IfLet(p, inner) => {
            let r = circ_pattern(p, pat, inj);
            r.2 + circ_term(*inner, r.0, r.1, m) + invert_clauses(r.2)
        },
        TermS::Gate(_, d) => circ_term(*d, pat, inj, m),
        TermS::Inverse(inner) => circ_term(*inner, pat, inj, m.spec_inverse()),
        TermS::Sqrt(inner) => circ_term(*inner, pat, inj, m.spec_sqrt()),
    }
}

/// The clauses of the parts of a composition, first to last.
pub open spec fn circ_terms(s: Seq<TermS>, pat: Seq<Option<KetState>>, inj: Seq<usize>, m: PhaseMul) -> Seq<
    ClauseS,
>
    decreases s,
{
    if s.len() == 0 {
        Seq::empty()
    } else {
        circ_terms(s.subrange(0, s.len() - 1), pat, inj, m) + circ_term(s.last(), pat, inj, m)
    }
}

/// The clauses of the parts of a composition, last to first.
pub open spec fn circ_terms_rev(s: Seq<TermS>, pat: Seq<Option<KetState>>, inj: Seq<usize>, m: PhaseMul) -> Seq<
    ClauseS,
>
    decreases s,
{
    if s.len() == 0 {
        Seq::empty()
    } else {
        circ_terms_rev(s.subrange(1, s.len() as int), pat, inj, m) + circ_term(s[0], pat, inj, m)
    }
}

/// The clauses of the parts of a tensor, each on its own contiguous slice of `inj`.
pub open spec fn circ_tensor(s: Seq<TermS>, pat: Seq<Option<KetState>>, inj: Seq<usize>, m: PhaseMul) -> Seq<
    ClauseS,
>
    decreases s,
{
    if s.len() == 0 {
        Seq::empty()
    } else {
        let p = s.subrange(0, s.len() - 1);
        let start = arity_sum(p) as int;
        circ_tensor(p, pat, inj, m) + circ_term(
            s.last(),
            pat,
            inj.subrange(start, start + s.last().arity()),
            m,
        )
    }
}

/// The requirement, the positions of the pattern's output qubits, and the
/// clauses of its unitaries, after walking pattern `p` from requirement `pat`
/// with its input qubits at positions `inj`.
pub open spec fn circ_pattern(p: PatternS, pat: Seq<Option<KetState>>, inj: Seq<usize>) -> (
    Seq<Option<KetState>>,
    Seq<usize>,
    Seq<ClauseS>,
)
    decreases p,
{
    match p {
        PatternS::Comp(ps) => circ_pat_comp(ps, pat, inj),
        PatternS::Tensor(ps) => circ_pat_tensor(ps, pat, inj),
        PatternS::Ket(states) => (
            set_kets(pat, inj.subrange(0, states.len() as int), states),
            inj.subrange(states.len() as int, inj.len() as int),
            Seq::empty(),
        ),
        PatternS::Unitary(t) => (pat, inj, circ_term(*t, pat, inj, pattern_unitary_mul())),
    }
}

/// The walk through the parts of a pattern composition, first to last.
pub open spec fn circ_pat_comp(s: Seq<PatternS>, pat: Seq<Option<KetState>>, inj: Seq<usize>) -> (
    Seq<Option<KetState>>,
    Seq<usize>,
    Seq<ClauseS>,
)
    decreases s,
{
    if s.len() == 0 {
        (pat, inj, Seq::empty())
    } else {
        let a = circ_pat_comp(s.subrange(0, s.len() - 1), pat, inj);
        let b = circ_pattern(s.last(), a.0, a.1);
        (b.0, b.1, a.2 + b.2)
    }
}

/// The walk through the parts of a pattern tensor, last to first, each on the
/// tail of `inj` that its input takes; the output positions keep their order.
pub open spec fn circ_pat_tensor(s: Seq<PatternS>, pat: Seq<Option<KetState>>, inj: Seq<usize>) -> (
    Seq<Option<KetState>>,
    Seq<usize>,
    Seq<ClauseS>,
)
    decreases s,
{
    if s.len() == 0 {
        (pat, inj, Seq::empty())
    } else {
        let n = s.last().pattern_type().0 as int;
        let split = inj.len() - n;
        let a = circ_pattern(s.last(), pat, inj.subrange(split, inj.len() as int));
        let b = circ_pat_tensor(s.subrange(0, s.len() - 1), a.0, inj.subrange(0, split));
        (b.0, b.1 + a.1, a.2 + b.2)
    }
}

/// The values of `a + b` are the values of `a` followed by those of `b`.
proof fn lemma_clauses_view_concat(a: Seq<ClauseC>, b: Seq<ClauseC>)
    ensures
        clauses_view(a + b) == clauses_view(a) + clauses_view(b),
{
    assert(clauses_view(a + b) =~= clauses_view(a) + clauses_view(b));
}

/// Every clause in `cs` constrains exactly `n` qubits.
pub open spec fn all_width(cs: Seq<ClauseS>, n: nat) -> bool {
    forall|k: int| 0 <= k < cs.len() ==> (#[trigger] cs[k]).0.len() == n
}

proof fn lemma_all_width_concat(a: Seq<ClauseS>, b: Seq<ClauseS>, n: nat)
    requires
        all_width(a, n),
        all_width(b, n),
    ensures
        all_width(a + b, n),
{
    assert forall|k: int| 0 <= k < (a + b).len() implies (#[trigger] (a + b)[k]).0.len() == n by {
        if k < a.len() {
            assert((a + b)[k] == a[k]);
        } else {
            assert((a + b)[k] == b[k - a.len()]);
        }
    }
}

/// A copy of positions `start..end` of `v`.
fn copy_range(v: &Vec<usize>, start: usize, end: usize) -> (r: Vec<usize>)
    requires
        start <= end <= v@.len(),
    ensures
        r@ == v@.subrange(start as int, end as int),
{
    let mut out: Vec<usize> = Vec::new();
    let mut i: usize = start;
    while i < end
        invariant
            start <= i <= end <= v@.len(),
            out@ == v@.subrange(start as int, i as int),
        decreases end - i,
    {
        out.push(v[i]);
        i = i + 1;
        assert(out@ =~= v@.subrange(start as int, i as int));
    }
    out
}

impl PatternC {
    /// The requirement that leaves all `l` qubits unconstrained.
    pub fn id(l: usize) -> (r: PatternC)
        ensures
            r@ == Seq::new(l as nat, |i: int| None::<KetState>),
    {
        let mut parts: Vec<Option<KetState>> = Vec::new();
        let mut i: usize = 0;
        while i < l
            invariant
                i <= l,
                parts@ == Seq::new(i as nat, |j: int| None::<KetState>),
            decreases l - i,
        {
            parts.push(None);
            i = i + 1;
            assert(parts@ =~= Seq::new(i as nat, |j: int| None::<KetState>));
        }
        PatternC { parts }
    }

    /// A copy of the requirement.
    pub fn duplicate(&self) -> (r: PatternC)
        ensures
            r@ == self@,
    {
        let mut parts: Vec<Option<KetState>> = Vec::new();
        let mut i: usize = 0;
        while i < self.parts.len()
            invariant
                i <= self.parts@.len(),
                parts@ == self.parts@.subrange(0, i as int),
            decreases self.parts@.len() - i,
        {
            parts.push(self.parts[i]);
            i = i + 1;
            assert(parts@ =~= self.parts@.subrange(0, i as int));
        }
        assert(parts@ =~= self.parts@);
        PatternC { parts }
    }
}

impl ClauseC {
    /// The clause with its phase inverted.
    pub fn invert(&self) -> (r: ClauseC)
        ensures
            r@ == (self@.0, self@.1.spec_neg()),
    {
        ClauseC { pattern: self.pattern.duplicate(), phase: self.phase.neg() }
    }
}

/// The clauses of `cs` in reverse order, each inverted.
fn invert_all(cs: &Vec<ClauseC>) -> (r: Vec<ClauseC>)
    ensures
        clauses_view(r@) == invert_clauses(clauses_view(cs@)),
{
    let mut out: Vec<ClauseC> = Vec::new();
    let mut i: usize = cs.len();
    while i > 0
        invariant
            i <= cs@.len(),
            out@.len() == cs@.len() - i,
            forall|j: int| 0 <= j < out@.len() ==> (#[trigger] out@[j])@ == (cs@[cs@.len() - 1 - j]@.0,
                cs@[cs@.len() - 1 - j]@.1.spec_neg()),
        decreases i,
    {
        let c = cs[i - 1].invert();
        out.push(c);
        i = i - 1;
    }
    assert(clauses_view(out@) =~= invert_clauses(clauses_view(cs@)));
    out
}

impl TermT {
    /// Returns a `TermC` representing the "circuit-normal-form" of the term.
    pub fn eval_circ(&self) -> (r: TermC)
        requires
            self@.wf(),
        ensures
            r.ty.0 == self@.arity(),
            clauses_view(r.clauses@) == circ_term(
                self@,
                Seq::new(self@.arity(), |i: int| None::<KetState>),
                Seq::new(self@.arity(), |i: int| i as usize),
                PhaseMul::spec_one(),
            ),
            all_width(clauses_view(r.clauses@), r.ty.0 as nat),
    {
        let mut clauses: Vec<ClauseC> = Vec::new();
        let ty = self.get_type();
        let size = ty.0;
        let mut inj: Vec<usize> = Vec::new();
        let mut i: usize = 0;
        while i < size
            invariant
                i <= size,
                inj@ == Seq::new(i as nat, |j: int| j as usize),
            decreases size - i,
        {
            inj.push(i);
            i = i + 1;
            assert(inj@ =~= Seq::new(i as nat, |j: int| j as usize));
        }
        let pattern = PatternC::id(size);
        self.eval_circ_clause(&pattern, &inj, PhaseMul::one(), &mut clauses);
        assert(clauses_view(clauses@) =~= Seq::<ClauseS>::empty() + clauses_view(clauses@));
        TermC { clauses, ty }
    }

    /// Append the clauses of the term under requirement `pattern`, with its
    /// qubits at positions `inj`, and multiplier `phase_mul`.
    pub fn eval_circ_clause(
        &self,
        pattern: &PatternC,
        inj: &Vec<usize>,
        phase_mul: PhaseMul,
        clauses: &mut Vec<ClauseC>,
    )
        requires
            self@.wf(),
            inj@.len() == self@.arity(),
            forall|k: int| 0 <= k < inj@.len() ==> (#[trigger] inj@[k]) < pattern@.len(),
        ensures
            clauses_view(final(clauses)@) == clauses_view(old(clauses)@) + circ_term(
                self@,
                pattern@,
                inj@,
                phase_mul,
            ),
            all_width(circ_term(self@, pattern@, inj@, phase_mul), pattern@.len()),
        decreases self,
    {
        let ghost start = clauses_view(clauses@);
        match self {
            TermT::Comp(terms) => {
                let ghost vs = terms_view(terms@);
                if phase_mul.negated {
                    let mut i: usize = terms.len();
                    assert(vs.subrange(i as int, vs.len() as int) =~= Seq::<TermS>::empty());
                    while i > 0
                        invariant
                            *self == TermT::Comp(*terms),
                            self@.wf(),
                            vs == terms_view(terms@),
                            vs.len() == terms@.len(),
                            inj@.len() == self@.arity(),
                            forall|k: int| 0 <= k < inj@.len() ==> (#[trigger] inj@[k]) < pattern@.len(),
                            i <= terms@.len(),
                            clauses_view(clauses@) == start + circ_terms_rev(
                                vs.subrange(i as int, vs.len() as int),
                                pattern@,
                                inj@,
                                phase_mul,
                            ),
                            all_width(
                                circ_terms_rev(vs.subrange(i as int, vs.len() as int), pattern@, inj@, phase_mul),
                                pattern@.len(),
                            ),
                        decreases i,
                    {
                        proof {
                            assert(decreases_to!(*terms => terms[i - 1]));
                            assert(decreases_to!(*self => (*self)->Comp_0));
                            assert(vs[i - 1] == terms@[i - 1]@);
                            assert(vs[i - 1].wf());
                            assert(vs[i - 1].arity() == vs[0].arity());
                            let sub = vs.subrange(i - 1, vs.len() as int);
                            assert(sub.subrange(1, sub.len() as int) =~= vs.subrange(i as int, vs.len() as int));
                            assert(sub[0] == vs[i - 1]);
                        }
                        terms[i - 1].eval_circ_clause(pattern, inj, phase_mul, clauses);
                        proof {
                            lemma_all_width_concat(
                                circ_terms_rev(vs.subrange(i as int, vs.len() as int), pattern@, inj@, phase_mul),
                                circ_term(vs[i - 1], pattern@, inj@, phase_mul),
                                pattern@.len(),
                            );
                        }
                        i = i - 1;
                    }
                    proof {
                        assert(vs.subrange(0, vs.len() as int) =~= vs);
                    }
                } else {
                    let mut i: usize = 0;
                    assert(vs.subrange(0, 0) =~= Seq::<TermS>::empty());
                    while i < terms.len()
                        invariant
                            *self == TermT::Comp(*terms),
                            self@.wf(),
                            vs == terms_view(terms@),
                            vs.len() == terms@.len(),
                            inj@.len() == self@.arity(),
                            forall|k: int| 0 <= k < inj@.len() ==> (#[trigger] inj@[k]) < pattern@.len(),
                            i <= terms@.len(),
                            clauses_view(clauses@) == start + circ_terms(
                                vs.subrange(0, i as int),
                                pattern@,
                                inj@,
                                phase_mul,
                            ),
                            all_width(circ_terms(vs.subrange(0, i as int), pattern@, inj@, phase_mul), pattern@.len()),
                        decreases terms@.len() - i,
                    {
                        proof {
                            assert(decreases_to!(*terms => terms[i as int]));
                            assert(decreases_to!(*self => (*self)->Comp_0));
                            assert(vs[i as int] == terms@[i as int]@);
                            assert(vs[i as int].wf());
                            assert(vs[i as int].arity() == vs[0].arity());
                            assert(vs.subrange(0, i + 1).subrange(0, i as int) =~= vs.subrange(0, i as int));
                        }
                        terms[i].eval_circ_clause(pattern, inj, phase_mul, clauses);
                        proof {
                            lemma_all_width_concat(
                                circ_terms(vs.subrange(0, i as int), pattern@, inj@, phase_mul),
                                circ_term(vs[i as int], pattern@, inj@, phase_mul),
                                pattern@.len(),
                            );
                        }
                        i = i + 1;
                    }
                    proof {
                        assert(vs.subrange(0, i as int) =~= vs);
                    }
                }
            },
            TermT::Tensor(terms) => {
                let ghost vs = terms_view(terms@);
                let mut offset: usize = 0;
                let mut i: usize = 0;
                assert(vs.subrange(0, 0) =~= Seq::<TermS>::empty());
                while i < terms.len()
                    invariant
                        *self == TermT::Tensor(*terms),
                        self@.wf(),
                        vs == terms_view(terms@),
                        vs.len() == terms@.len(),
                        inj@.len() == self@.arity(),
                        self@.arity() == arity_sum(vs),
                        forall|k: int| 0 <= k < inj@.len() ==> (#[trigger] inj@[k]) < pattern@.len(),
                        i <= terms@.len(),
                        offset == arity_sum(vs.subrange(0, i as int)),
                        clauses_view(clauses@) == start + circ_tensor(
                            vs.subrange(0, i as int),
                            pattern@,
                            inj@,
                            phase_mul,
                        ),
                        all_width(circ_tensor(vs.subrange(0, i as int), pattern@, inj@, phase_mul), pattern@.len()),
                    decreases terms@.len() - i,
                {
                    proof {
                        assert(decreases_to!(*terms => terms[i as int]));
                        assert(decreases_to!(*self => (*self)->Tensor_0));
                        assert(vs[i as int] == terms@[i as int]@);
                        assert(vs[i as int].wf());
                        lemma_arity_sum_prefix(vs, i as int);
                        lemma_arity_sum_prefix(vs, i as int + 1);
                        let sub = vs.subrange(0, i + 1);
                        assert(sub.subrange(0, i as int) =~= vs.subrange(0, i as int));
                        assert(sub.last() == vs[i as int]);
                    }
                    let size = terms[i].get_type().0;
                    let end = offset + size;
                    let seg = copy_range(inj, offset, end);
                    terms[i].eval_circ_clause(pattern, &seg, phase_mul, clauses);
                    proof {
                        lemma_all_width_concat(
                            circ_tensor(vs.subrange(0, i as int), pattern@, inj@, phase_mul),
                            circ_term(vs[i as int], pattern@, seg@, phase_mul),
                            pattern@.len(),
                        );
                    }
                    offset = end;
                    i = i + 1;
                }
                proof {
                    assert(vs.subrange(0, i as int) =~= vs);
                }
            },
            TermT::Id(_) => {
                assert(clauses_view(clauses@) =~= start + Seq::<ClauseS>::empty());
            },
            TermT::Phase(phase) => {
                let c = ClauseC { pattern: pattern.duplicate(), phase: phase_mul.apply(phase.eval()) };
                let ghost cv = c@;
                clauses.push(c);
                assert(clauses_view(clauses@) =~= start + seq![cv]);
                assert(all_width(seq![cv], pattern@.len()));
            },
            TermT::IfLet { pattern: if_pattern, inner } => {
                let mut unitary_clauses: Vec<ClauseC> = Vec::new();
                let mut inner_pattern = pattern.duplicate();
                let mut inner_inj = copy_range(inj, 0, inj.len());
                proof {
                    assert(inj@.subrange(0, inj@.len() as int) =~= inj@);
                    assert(clauses_view(unitary_clauses@) =~= Seq::<ClauseS>::empty());
                }
                if_pattern.eval_circ(&mut inner_pattern, &mut inner_inj, &mut unitary_clauses);
                let ghost r = circ_pattern(if_pattern@, pattern@, inj@);
                assert(clauses_view(unitary_clauses@) =~= r.2);
                let mut temp = invert_all(&unitary_clauses);
                let ghost u0 = unitary_clauses@;
                let ghost c0 = clauses@;
                clauses.append(&mut unitary_clauses);
                proof {
                    lemma_clauses_view_concat(c0, u0);
                }
                inner.eval_circ_clause(&inner_pattern, &inner_inj, phase_mul, clauses);
                let ghost c1 = clauses@;
                let ghost t0 = temp@;
                clauses.append(&mut temp);
                proof {
                    lemma_clauses_view_concat(c1, t0);
                    assert(clauses_view(clauses@) =~= start + (r.2 + circ_term(
                        (*inner)@,
                        r.0,
                        r.1,
                        phase_mul,
                    ) + invert_clauses(r.2)));
                    let n = pattern@.len();
                    assert(all_width(invert_clauses(r.2), n)) by {
                        assert forall|k: int| 0 <= k < invert_clauses(r.2).len() implies (#[trigger] invert_clauses(
                            r.2,
                        )[k]).0.len() == n by {
                            assert(invert_clauses(r.2)[k].0 == r.2.reverse()[k].0);
                            assert(r.2.reverse()[k] == r.2[r.2.len() - 1 - k]);
                        }
                    }
                    lemma_all_width_concat(r.2, circ_term((*inner)@, r.0, r.1, phase_mul), n);
                    lemma_all_width_concat(
                        r.2 + circ_term((*inner)@, r.0, r.1, phase_mul),
                        invert_clauses(r.2),
                        n,
                    );
                }
            },
            TermT::Gate { def, .. } => {
                def.eval_circ_clause(pattern, inj, phase_mul, clauses);
            },
            TermT::Inverse(inner) => {
                inner.eval_circ_clause(pattern, inj, phase_mul.inverse(), clauses);
            },
            TermT::Sqrt(inner) => {
                inner.eval_circ_clause(pattern, inj, phase_mul.sqrt(), clauses);
            },
        }
    }
}

/// The stacked position lists, from the top of the stack down, joined.
pub open spec fn flat_rev(st: Seq<Vec<usize>>) -> Seq<usize>
    decreases st.len(),
{
    if st.len() == 0 {
        Seq::empty()
    } else {
        st.last()@ + flat_rev(st.drop_last())
    }
}

impl PatternT {
    /// Walk the pattern: refine `pattern` with its kets, move `inj` from the
    /// positions of its input qubits to those of its output qubits, and append
    /// the clauses of its unitaries.
    pub fn eval_circ(&self, pattern: &mut PatternC, inj: &mut Vec<usize>, clauses: &mut Vec<ClauseC>)
        requires
            self@.wf(),
            old(inj)@.len() == self@.pattern_type().0,
            forall|k: int| 0 <= k < old(inj)@.len() ==> (#[trigger] old(inj)@[k]) < old(pattern)@.len(),
        ensures
            final(pattern)@ == circ_pattern(self@, old(pattern)@, old(inj)@).0,
            final(inj)@ == circ_pattern(self@, old(pattern)@, old(inj)@).1,
            clauses_view(final(clauses)@) == clauses_view(old(clauses)@) + circ_pattern(
                self@,
                old(pattern)@,
                old(inj)@,
            ).2,
            all_width(circ_pattern(self@, old(pattern)@, old(inj)@).2, old(pattern)@.len()),
            final(pattern)@.len() == old(pattern)@.len(),
            final(inj)@.len() == self@.pattern_type().1,
            forall|k: int| 0 <= k < final(inj)@.len() ==> (#[trigger] final(inj)@[k]) < final(pattern)@.len(),
        decreases self,
    {
        let ghost pat0 = pattern@;
        let ghost inj0 = inj@;
        let ghost start = clauses_view(clauses@);
        match self {
            PatternT::Comp(patterns) => {
                let ghost vs = patterns_view(patterns@);
                let mut i: usize = 0;
                let ghost mut done = Seq::<ClauseS>::empty();
                assert(vs.subrange(0, 0) =~= Seq::<PatternS>::empty());
                assert(clauses_view(clauses@) =~= start + done);
                while i < patterns.len()
                    invariant
                        *self == PatternT::Comp(*patterns),
                        self@.wf(),
                        vs == patterns_view(patterns@),
                        vs.len() == patterns@.len(),
                        vs.len() >= 1,
                        i <= vs.len(),
                        circ_pat_comp(vs.subrange(0, i as int), pat0, inj0) == (pattern@, inj@, done),
                        clauses_view(clauses@) == start + done,
                        all_width(done, pat0.len()),
                        pattern@.len() == pat0.len(),
                        i == 0 ==> inj@.len() == vs[0].pattern_type().0,
                        i > 0 ==> inj@.len() == vs[i - 1].pattern_type().1,
                        forall|k: int| 0 <= k < inj@.len() ==> (#[trigger] inj@[k]) < pattern@.len(),
                    decreases vs.len() - i,
                {
                    proof {
                        assert(decreases_to!(*patterns => patterns[i as int]));
                        assert(decreases_to!(*self => (*self)->Comp_0));
                        assert(vs[i as int] == patterns@[i as int]@);
                        assert(vs[i as int].wf());
                        if i > 0 {
                            assert(vs[i - 1].pattern_type().1 == vs[i as int].pattern_type().0);
                        }
                        let sub = vs.subrange(0, i + 1);
                        assert(sub.subrange(0, i as int) =~= vs.subrange(0, i as int));
                        assert(sub.last() == vs[i as int]);
                    }
                    let ghost r = circ_pattern(vs[i as int], pattern@, inj@);
                    patterns[i].eval_circ(pattern, inj, clauses);
                    proof {
                        lemma_all_width_concat(done, r.2, pat0.len());
                        done = done + r.2;
                    }
                    i = i + 1;
                }
                proof {
                    assert(vs.subrange(0, i as int) =~= vs);
                }
            },
            PatternT::Tensor(patterns) => {
                let ghost vs = patterns_view(patterns@);
                let ghost total_out = pattern_type_sum(vs).1;
                let mut stack: Vec<Vec<usize>> = Vec::new();
                let ghost mut done = Seq::<ClauseS>::empty();
                let mut i: usize = patterns.len();
                proof {
                    assert(vs.subrange(0, vs.len() as int) =~= vs);
                    assert(clauses_view(clauses@) =~= start + done);
                    assert(inj@ + flat_rev(stack@) =~= inj@);
                }
                while i > 0
                    invariant
                        *self == PatternT::Tensor(*patterns),
                        self@.wf(),
                        vs == patterns_view(patterns@),
                        vs.len() == patterns@.len(),
                        total_out == pattern_type_sum(vs).1,
                        i <= vs.len(),
                        inj@.len() == pattern_type_sum(vs.subrange(0, i as int)).0,
                        flat_rev(stack@).len() + pattern_type_sum(vs.subrange(0, i as int)).1 == total_out,
                        circ_pat_tensor(vs, pat0, inj0) == ({
                            let b = circ_pat_tensor(vs.subrange(0, i as int), pattern@, inj@);
                            (b.0, b.1 + flat_rev(stack@), done + b.2)
                        }),
                        clauses_view(clauses@) == start + done,
                        all_width(done, pat0.len()),
                        pattern@.len() == pat0.len(),
                        forall|k: int| 0 <= k < inj@.len() ==> (#[trigger] inj@[k]) < pattern@.len(),
                        forall|k: int| 0 <= k < flat_rev(stack@).len() ==> (#[trigger] flat_rev(stack@)[k]) < pattern@.len(),
                    decreases i,
                {
                    proof {
                        assert(decreases_to!(*patterns => patterns[i - 1]));
                        assert(decreases_to!(*self => (*self)->Tensor_0));
                        assert(vs[i - 1] == patterns@[i - 1]@);
                        assert(vs[i - 1].wf());
                        lemma_pattern_type_sum_prefix(vs, i - 1);
                        let sub = vs.subrange(0, i as int);
                        assert(sub.subrange(0, i - 1) =~= vs.subrange(0, i - 1));
                        assert(sub.last() == vs[i - 1]);
                    }
                    let size = patterns[i - 1].get_type().0;
                    let split = inj.len() - size;
                    let ghost pre_inj = inj@;
                    let ghost pre_pat = pattern@;
                    let ghost pre_stack = stack@;
                    let mut seg = inj.split_off(split);
                    let ghost r = circ_pattern(vs[i - 1], pre_pat, seg@);
                    patterns[i - 1].eval_circ(pattern, &mut seg, clauses);
                    stack.push(seg);
                    proof {
                        assert(stack@.drop_last() =~= pre_stack);
                        assert(flat_rev(stack@) == seg@ + flat_rev(pre_stack));
                        assert(inj@ == pre_inj.subrange(0, split as int));
                        assert forall|k: int| 0 <= k < flat_rev(stack@).len() implies (#[trigger] flat_rev(
                            stack@,
                        )[k]) < pattern@.len() by {
                            if k >= seg@.len() {
                                assert(flat_rev(stack@)[k] == flat_rev(pre_stack)[k - seg@.len()]);
                            } else {
                                assert(flat_rev(stack@)[k] == seg@[k]);
                            }
                        }
                        lemma_all_width_concat(done, r.2, pat0.len());
                        done = done + r.2;
                        let b = circ_pat_tensor(vs.subrange(0, i - 1), pattern@, inj@);
                        assert(b.1 + r.1 + flat_rev(pre_stack) =~= b.1 + flat_rev(stack@));
                        assert(done + b.2 =~= (done.subrange(0, done.len() - r.2.len())) + (r.2 + b.2)) by {
                            assert(done.subrange(0, done.len() - r.2.len()) =~= done.subrange(0, done.len() - r.2.len()));
                        }
                    }
                    i = i - 1;
                }
                while stack.len() > 0
                    invariant
                        inj@ + flat_rev(stack@) == circ_pat_tensor(vs, pat0, inj0).1,
                        inj@.len() + flat_rev(stack@).len() == total_out,
                        total_out == pattern_type_sum(vs).1,
                        forall|k: int| 0 <= k < inj@.len() ==> (#[trigger] inj@[k]) < pattern@.len(),
                        forall|k: int| 0 <= k < flat_rev(stack@).len() ==> (#[trigger] flat_rev(stack@)[k]) < pattern@.len(),
                    decreases stack@.len(),
                {
                    let ghost pre_stack = stack@;
                    let ghost pre_inj = inj@;
                    let mut seg = stack.pop().unwrap();
                    proof {
                        assert(pre_stack.drop_last() == stack@);
                        assert(flat_rev(pre_stack) == seg@ + flat_rev(stack@));
                        assert forall|k: int| 0 <= k < seg@.len() implies (#[trigger] seg@[k]) < pattern@.len() by {
                            assert(flat_rev(pre_stack)[k] == seg@[k]);
                        }
                        assert forall|k: int| 0 <= k < flat_rev(stack@).len() implies (#[trigger] flat_rev(
                            stack@,
                        )[k]) < pattern@.len() by {
                            assert(flat_rev(pre_stack)[k + seg@.len()] == flat_rev(stack@)[k]);
                        }
                    }
                    inj.append(&mut seg);
                    proof {
                        assert(pre_inj + flat_rev(pre_stack) =~= inj@ + flat_rev(stack@));
                    }
                }
                proof {
                    assert(inj@ + flat_rev(stack@) =~= inj@);
                }
            },
            PatternT::Ket(states) => {
                let k = states.qubits();
                let mut idx: usize = 0;
                proof {
                    assert(inj0.subrange(0, 0) =~= Seq::<usize>::empty());
                    assert(states@.subrange(0, 0) =~= Seq::<KetState>::empty());
                }
                while idx < k
                    invariant
                        k == states@.len(),
                        k <= inj@.len(),
                        inj@ == inj0,
                        idx <= k,
                        pattern@.len() == pat0.len(),
                        forall|j: int| 0 <= j < inj@.len() ==> (#[trigger] inj@[j]) < pat0.len(),
                        pattern@ == set_kets(pat0, inj0.subrange(0, idx as int), states@.subrange(0, idx as int)),
                    decreases k - idx,
                {
                    let pos = inj[idx];
                    let st = states.get(idx);
                    pattern.parts.set(pos, Some(st));
                    proof {
                        let a = inj0.subrange(0, idx + 1);
                        let b = states@.subrange(0, idx + 1);
                        assert(a.drop_last() =~= inj0.subrange(0, idx as int));
                        assert(b.drop_last() =~= states@.subrange(0, idx as int));
                    }
                    idx = idx + 1;
                }
                let rest = inj.split_off(k);
                *inj = rest;
                proof {
                    assert(states@.subrange(0, k as int) =~= states@);
                    assert(clauses_view(clauses@) =~= start + Seq::<ClauseS>::empty());
                }
            },
            PatternT::Unitary(inner) => {
                inner.eval_circ_clause(pattern, inj, PhaseMul { negated: true, halvings: 0 }, clauses);
            },
        }
    }
}

/// The number of unconstrained qubits in a requirement.
pub open spec fn none_count(s: Seq<Option<KetState>>) -> nat
    decreases s.len(),
{
    if s.len() == 0 {
        0
    } else {
        none_count(s.drop_last()) + if s.last() is None {
            1nat
        } else {
            0nat
        }
    }
}

/// The one-qubit pattern for a requirement on one qubit: a ket, or the identity.
pub open spec fn state_pattern(s: Option<KetState>) -> PatternS {
    match s {
        None => PatternS::Unitary(Box::new(TermS::Id(1))),
        Some(k) => PatternS::Ket(seq![k]),
    }
}

/// The typed pattern for a requirement.
pub open spec fn quote_requirement(p: Seq<Option<KetState>>) -> PatternS {
    if p.len() == 1 {
        state_pattern(p[0])
    } else {
        PatternS::Tensor(p.map_values(|s: Option<KetState>| state_pattern(s)))
    }
}

/// The typed term for a clause: "if let pattern then phase x id(k)", where
/// `k` is the number of unconstrained qubits.
pub open spec fn quote_clause(c: ClauseS) -> TermS {
    let ph = TermS::Phase(Phase::Angle(c.1));
    TermS::IfLet(
        quote_requirement(c.0),
        Box::new(
            if none_count(c.0) != 0 {
                TermS::Tensor(seq![ph, TermS::Id(none_count(c.0))])
            } else {
                ph
            },
        ),
    )
}

/// The typed term for a circuit-normal term: an identity for no clauses, the
/// clause for one, and their composition for more.
pub open spec fn quote_circuit(ty: TermType, cs: Seq<ClauseS>) -> TermS {
    if cs.len() == 0 {
        TermS::Id(ty.0 as nat)
    } else if cs.len() == 1 {
        quote_clause(cs[0])
    } else {
        TermS::Comp(cs.map_values(|c: ClauseS| quote_clause(c)))
    }
}

/// The typed pattern for a requirement on `n` qubits, `k` of them
/// unconstrained, has type `(n, k)`.
proof fn lemma_requirement_type(p: Seq<Option<KetState>>, xs: Seq<PatternS>)
    requires
        xs.len() == p.len(),
        forall|i: int| 0 <= i < p.len() ==> #[trigger] xs[i] == state_pattern(p[i]),
    ensures
        pattern_type_sum(xs) == (p.len(), none_count(p)),
    decreases p.len(),
{
    if p.len() > 0 {
        let q = p.drop_last();
        let ys = xs.subrange(0, xs.len() - 1);
        assert forall|i: int| 0 <= i < q.len() implies #[trigger] ys[i] == state_pattern(q[i]) by {
            assert(ys[i] == xs[i]);
            assert(q[i] == p[i]);
        }
        lemma_requirement_type(q, ys);
        assert(xs.last() == state_pattern(p.last()));
        match p.last() {
            None => {
                assert(TermS::Id(1).arity() == 1);
                assert(state_pattern(p.last()).pattern_type() == (1nat, 1nat));
            },
            Some(k) => {
                assert(seq![k].len() == 1);
                assert(state_pattern(p.last()).pattern_type() == (1nat, 0nat));
            },
        }
    }
}

/// A clause quotes to a term on as many qubits as its requirement has.
proof fn lemma_clause_arity(c: ClauseS)
    ensures
        quote_clause(c).arity() == c.0.len(),
{
    let p = c.0;
    if p.len() == 1 {
        match p[0] {
            None => {
                assert(TermS::Id(1).arity() == 1);
                assert(state_pattern(p[0]).pattern_type() == (1nat, 1nat));
            },
            Some(k) => {
                assert(seq![k].len() == 1);
                assert(state_pattern(p[0]).pattern_type() == (1nat, 0nat));
            },
        }
    } else {
        let xs = quote_requirement(p)->Tensor_0;
        assert forall|i: int| 0 <= i < p.len() implies #[trigger] xs[i] == state_pattern(p[i]) by {}
        lemma_requirement_type(p, xs);
        assert(quote_requirement(p).pattern_type() == pattern_type_sum(xs));
    }
    assert(quote_clause(c).arity() == quote_requirement(p).pattern_type().0);
}

/// A circuit-normal term whose clauses all constrain `ty.0` qubits quotes to
/// a term on `ty.0` qubits.
pub proof fn lemma_circuit_quote_arity(ty: TermType, cs: Seq<ClauseS>)
    requires
        all_width(cs, ty.0 as nat),
    ensures
        quote_circuit(ty, cs).arity() == ty.0,
{
    if cs.len() >= 1 {
        lemma_clause_arity(cs[0]);
    }
    if cs.len() > 1 {
        let qs = cs.map_values(|c: ClauseS| quote_clause(c));
        assert(qs[0] == quote_clause(cs[0]));
    }
}

impl PatternC {
    /// The number of unconstrained qubits.
    pub fn id_qubits(&self) -> (r: usize)
        ensures
            r == none_count(self@),
    {
        let mut n: usize = 0;
        let mut i: usize = 0;
        while i < self.parts.len()
            invariant
                i <= self.parts@.len(),
                n == none_count(self.parts@.subrange(0, i as int)),
                n <= i,
            decreases self.parts@.len() - i,
        {
            proof {
                assert(self.parts@.subrange(0, i + 1).drop_last() =~= self.parts@.subrange(0, i as int));
            }
            if self.parts[i].is_none() {
                n = n + 1;
            }
            i = i + 1;
        }
        proof {
            assert(self.parts@.subrange(0, i as int) =~= self.parts@);
        }
        n
    }

    /// The typed pattern for the requirement.
    pub fn quote(&self) -> (r: PatternT)
        ensures
            r@ == quote_requirement(self@),
    {
        if self.parts.len() == 1 {
            return state_to_pattern(self.parts[0]);
        }
        let mut out: Vec<PatternT> = Vec::new();
        let mut i: usize = 0;
        while i < self.parts.len()
            invariant
                i <= self.parts@.len(),
                out@.len() == i,
                forall|j: int| 0 <= j < i ==> (#[trigger] out@[j])@ == state_pattern(self.parts@[j]),
            decreases self.parts@.len() - i,
        {
            out.push(state_to_pattern(self.parts[i]));
            i = i + 1;
        }
        proof {
            lemma_patterns_view(out@);
            assert forall|j: int| 0 <= j < out@.len() implies patterns_view(out@)[j] == self@.map_values(
                |s: Option<KetState>| state_pattern(s),
            )[j] by {
                assert(patterns_view(out@)[j] == out@[j]@);
            }
            assert(patterns_view(out@) =~= self@.map_values(|s: Option<KetState>| state_pattern(s)));
        }
        PatternT::Tensor(out)
    }
}

/// The one-qubit pattern for a requirement on one qubit.
fn state_to_pattern(s: Option<KetState>) -> (r: PatternT)
    ensures
        r@ == state_pattern(s),
{
    match s {
        None => PatternT::Unitary(Box::new(TermT::Id(TermType(1)))),
        Some(state) => PatternT::Ket(CompKetState::single(state)),
    }
}

impl ClauseC {
    /// The typed term for the clause.
    pub fn quote(&self) -> (r: TermT)
        ensures
            r@ == quote_clause(self@),
    {
        let id_qubits = self.pattern.id_qubits();
        let ghost ph = TermS::Phase(Phase::Angle(self.phase));
        let inner = if id_qubits != 0 {
            let mut parts: Vec<TermT> = Vec::new();
            parts.push(TermT::Phase(Phase::Angle(self.phase)));
            parts.push(TermT::Id(TermType(id_qubits)));
            proof {
                lemma_terms_view(parts@);
                assert(parts@[0]@ == ph);
                assert(parts@[1]@ == TermS::Id(id_qubits as nat));
                assert(terms_view(parts@) =~= seq![ph, TermS::Id(id_qubits as nat)]);
            }
            TermT::Tensor(parts)
        } else {
            TermT::Phase(Phase::Angle(self.phase))
        };
        assert(inner@ == (if none_count(self@.0) != 0 {
            TermS::Tensor(seq![ph, TermS::Id(none_count(self@.0))])
        } else {
            ph
        }));
        TermT::IfLet { pattern: self.pattern.quote(), inner: Box::new(inner) }
    }
}

impl TermC {
    /// Return a `TermT` which is the "quotation" of this circuit-normal-form term.
    /// Realises that all circuit-normal-form terms are also terms.
    pub fn quote(&self) -> (r: TermT)
        ensures
            r@ == quote_circuit(self.ty, clauses_view(self.clauses@)),
            all_width(clauses_view(self.clauses@), self.ty.0 as nat) ==> r@.arity() == self.ty.0,
    {
        proof {
            if all_width(clauses_view(self.clauses@), self.ty.0 as nat) {
                lemma_circuit_quote_arity(self.ty, clauses_view(self.clauses@));
            }
        }
        if self.clauses.len() == 0 {
            return TermT::Id(self.ty);
        }
        if self.clauses.len() == 1 {
            return self.clauses[0].quote();
        }
        let mut out: Vec<TermT> = Vec::new();
        let mut i: usize = 0;
        while i < self.clauses.len()
            invariant
                i <= self.clauses@.len(),
                out@.len() == i,
                forall|j: int| 0 <= j < i ==> (#[trigger] out@[j])@ == quote_clause(self.clauses@[j]@),
            decreases self.clauses@.len() - i,
        {
            out.push(self.clauses[i].quote());
            i = i + 1;
        }
        proof {
            lemma_terms_view(out@);
            let cs = clauses_view(self.clauses@);
            assert forall|j: int| 0 <= j < out@.len() implies terms_view(out@)[j] == cs.map_values(
                |c: ClauseS| quote_clause(c),
            )[j] by {
                assert(terms_view(out@)[j] == out@[j]@);
            }
            assert(terms_view(out@) =~= cs.map_values(|c: ClauseS| quote_clause(c)));
        }
        TermT::Comp(out)
    }
}

} // verus!
