//! Typed syntax: well-formed terms and patterns, annotated with qubit arities.

use vstd::prelude::*;
use crate::ket::{CompKetState, KetState};
use crate::phase::Phase;
use crate::text::Name;

verus! {

broadcast use vstd::std_specs::vec::group_vec_axioms;

/// A unitary type "qn <-> qn": an endomorphism on `n` qubits.
#[derive(Clone, Copy, Debug, PartialEq, Eq, Structural)]
pub struct TermType(pub usize);

/// A pattern type "qm < qn": an embedding of `m` qubits into `n` qubits.
#[derive(Clone, Copy, Debug, PartialEq, Eq, Structural)]
pub struct PatternType(pub usize, pub usize);

impl TermType {
    /// Convert a unitary type qn <-> qn to pattern type qn < qn
    pub fn to_pattern_type(self) -> (r: PatternType)
        ensures
            r.0 == self.0,
            r.1 == self.0,
    {
        PatternType(self.0, self.0)
    }
}

/// Syntax of typed terms
#[derive(Debug)]
pub enum TermT {
    /// A non-empty composition "t_1 ; ... ; t_n"
    Comp(Vec<TermT>),
    /// A tensor "t_1 x ... x t_n"
    Tensor(Vec<TermT>),
    /// An identity "id(n)"
    Id(TermType),
    /// A (global) phase operator, e.g. "-1" or "ph(0.1pi)"
    Phase(Phase),
    /// An "if let" statement, "if let pattern then inner"
    IfLet {
        /// Pattern to match on in "if let"
        pattern: PatternT,
        /// Body of the "if let"
        inner: Box<TermT>,
    },
    /// Top level symbol, a named gate
    Gate {
        /// Name of symbol/gate
        name: Name,
        /// Definition of symbol
        def: Box<TermT>,
    },
    /// Inverse of a term "t ^ -1"
    Inverse(Box<TermT>),
    /// Square root of a term "sqrt(t)"
    Sqrt(Box<TermT>),
}

/// Syntax of typed patterns
#[derive(Debug)]
pub enum PatternT {
    /// A non-empty composition "p_1 . ... . p_n"
    Comp(Vec<PatternT>),
    /// A tensor "p_1 x ... x p_n"
    Tensor(Vec<PatternT>),
    /// A sequence of ket states "|xyz>", equivalent to "|x> x |y> x |z>"
    Ket(CompKetState),
    /// A unitary pattern
    Unitary(Box<TermT>),
}

/// The mathematical value of a typed term.
pub enum TermS {
    Comp(Seq<TermS>),
    Tensor(Seq<TermS>),
    Id(nat),
    Phase(Phase),
    IfLet(PatternS, Box<TermS>),
    Gate(Seq<char>, Box<TermS>),
    Inverse(Box<TermS>),
    Sqrt(Box<TermS>),
}

/// The mathematical value of a typed pattern.
pub enum PatternS {
    Comp(Seq<PatternS>),
    Tensor(Seq<PatternS>),
    Ket(Seq<KetState>),
    Unitary(Box<TermS>),
}

/// The values of a sequence of terms.
pub open spec fn terms_view(s: Seq<TermT>) -> Seq<TermS>
    decreases s,
{
    if s.len() == 0 {
        Seq::empty()
    } else {
        terms_view(s.subrange(0, s.len() - 1)).push(term_view(s.last()))
    }
}

/// The value of a term.
pub open spec fn term_view(t: TermT) -> TermS
    decreases t,
{
    match t {
        TermT::Comp(v) => TermS::Comp(terms_view(v@)),
        TermT::Tensor(v) => TermS::Tensor(terms_view(v@)),
        TermT::Id(ty) => TermS::Id(ty.0 as nat),
        TermT::Phase(p) => TermS::Phase(p),
        TermT::IfLet { pattern, inner } => TermS::IfLet(pattern_view(pattern), Box::new(term_view(*inner))),
        TermT::Gate { name, def } => TermS::Gate(name@, Box::new(term_view(*def))),
        TermT::Inverse(inner) => TermS::Inverse(Box::new(term_view(*inner))),
        TermT::Sqrt(inner) => TermS::Sqrt(Box::new(term_view(*inner))),
    }
}

/// The values of a sequence of patterns.
pub open spec fn patterns_view(s: Seq<PatternT>) -> Seq<PatternS>
    decreases s,
{
    if s.len() == 0 {
        Seq::empty()
    } else {
        patterns_view(s.subrange(0, s.len() - 1)).push(pattern_view(s.last()))
    }
}

/// The value of a pattern.
pub open spec fn pattern_view(p: PatternT) -> PatternS
    decreases p,
{
    match p {
        PatternT::Comp(v) => PatternS::Comp(patterns_view(v@)),
        PatternT::Tensor(v) => PatternS::Tensor(patterns_view(v@)),
        PatternT::Ket(k) => PatternS::Ket(k@),
        PatternT::Unitary(inner) => PatternS::Unitary(Box::new(term_view(*inner))),
    }
}

impl View for TermT {
    type V = TermS;

    open spec fn view(&self) -> TermS {
        term_view(*self)
    }
}

impl View for PatternT {
    type V = PatternS;

    open spec fn view(&self) -> PatternS {
        pattern_view(*self)
    }
}

/// Each value in `terms_view(s)` is the value of the term at the same place.
pub broadcast proof fn lemma_terms_view(s: Seq<TermT>)
    ensures
        #[trigger] terms_view(s).len() == s.len(),
        forall|i: int| 0 <= i < s.len() ==> terms_view(s)[i] == term_view(#[trigger] s[i]),
    decreases s.len(),
{
    if s.len() > 0 {
        let p = s.subrange(0, s.len() - 1);
        lemma_terms_view(p);
        assert forall|i: int| 0 <= i < s.len() implies terms_view(s)[i] == term_view(#[trigger] s[i]) by {
            if i < s.len() - 1 {
                assert(p[i] == s[i]);
            }
        }
    }
}

/// Each value in `patterns_view(s)` is the value of the pattern at the same place.
pub broadcast proof fn lemma_patterns_view(s: Seq<PatternT>)
    ensures
        #[trigger] patterns_view(s).len() == s.len(),
        forall|i: int| 0 <= i < s.len() ==> patterns_view(s)[i] == pattern_view(#[trigger] s[i]),
    decreases s.len(),
{
    if s.len() > 0 {
        let p = s.subrange(0, s.len() - 1);
        lemma_patterns_view(p);
        assert forall|i: int| 0 <= i < s.len() implies patterns_view(s)[i] == pattern_view(#[trigger] s[i]) by {
            if i < s.len() - 1 {
                assert(p[i] == s[i]);
            }
        }
    }
}

/// The sum of the arities of a sequence of terms.
pub open spec fn arity_sum(s: Seq<TermS>) -> nat
    decreases s,
{
    if s.len() == 0 {
        0
    } else {
        arity_sum(s.subrange(0, s.len() - 1)) + s.last().arity()
    }
}

/// The componentwise sum of the types of a sequence of patterns.
pub open spec fn pattern_type_sum(s: Seq<PatternS>) -> (nat, nat)
    decreases s,
{
    if s.len() == 0 {
        (0, 0)
    } else {
        let a = pattern_type_sum(s.subrange(0, s.len() - 1));
        let b = s.last().pattern_type();
        ((a.0 + b.0) as nat, (a.1 + b.1) as nat)
    }
}

impl TermS {
    /// The number of qubits the term acts on.
    pub open spec fn arity(self) -> nat
        decreases self,
    {
        match self {
            TermS::Comp(ts) => if ts.len() > 0 {
                ts[0].arity()
            } else {
                0
            },
            TermS::Tensor(ts) => arity_sum(ts),
            TermS::Id(n) => n,
            TermS::Phase(_) => 0,
            TermS::IfLet(p, _) => p.pattern_type().0,
            TermS::Gate(_, d) => d.arity(),
            TermS::Inverse(t) => t.arity(),
            TermS::Sqrt(t) => t.arity(),
        }
    }

    /// The term is well typed and every arity in it fits in a `usize`.
    pub open spec fn wf(self) -> bool
        decreases self,
    {
        &&& self.arity() <= usize::MAX
        &&& match self {
            TermS::Comp(ts) => ts.len() >= 1 && forall|i: int|
                0 <= i < ts.len() ==> (#[trigger] ts[i]).wf() && ts[i].arity() == ts[0].arity(),
            TermS::Tensor(ts) => ts.len() >= 1 && forall|i: int| 0 <= i < ts.len() ==> (#[trigger] ts[i]).wf(),
            TermS::Id(_) => true,
            TermS::Phase(_) => true,
            TermS::IfLet(p, t) => p.wf() && t.wf() && p.pattern_type().1 == t.arity(),
            TermS::Gate(_, d) => d.wf(),
            TermS::Inverse(t) => t.wf(),
            TermS::Sqrt(t) => t.wf(),
        }
    }
}

impl PatternS {
    /// The type `(m, n)` of the pattern.
    pub open spec fn pattern_type(self) -> (nat, nat)
        decreases self,
    {
        match self {
            PatternS::Comp(ps) => if ps.len() > 0 {
                (ps[0].pattern_type().0, ps.last().pattern_type().1)
            } else {
                (0, 0)
            },
            PatternS::Tensor(ps) => pattern_type_sum(ps),
            PatternS::Ket(k) => (k.len(), 0),
            PatternS::Unitary(t) => (t.arity(), t.arity()),
        }
    }

    /// The pattern is well typed and every arity in it fits in a `usize`.
    pub open spec fn wf(self) -> bool
        decreases self,
    {
        &&& self.pattern_type().0 <= usize::MAX
        &&& self.pattern_type().1 <= usize::MAX
        &&& match self {
            PatternS::Comp(ps) => ps.len() >= 1 && forall|i: int|
                0 <= i < ps.len() ==> (#[trigger] ps[i]).wf() && (i + 1 < ps.len()
                    ==> ps[i].pattern_type().1 == ps[i + 1].pattern_type().0),
            PatternS::Tensor(ps) => ps.len() >= 1 && forall|i: int| 0 <= i < ps.len() ==> (#[trigger] ps[i]).wf(),
            PatternS::Ket(k) => k.len() >= 1,
            PatternS::Unitary(t) => t.wf(),
        }
    }
}

/// A prefix of a sequence of terms has no larger arity sum.
pub proof fn lemma_arity_sum_prefix(s: Seq<TermS>, i: int)
    requires
        0 <= i <= s.len(),
    ensures
        arity_sum(s.subrange(0, i)) <= arity_sum(s),
        i < s.len() ==> arity_sum(s.subrange(0, i + 1)) == arity_sum(s.subrange(0, i)) + s[i].arity(),
    decreases s.len() - i,
{
    if i < s.len() {
        assert(s.subrange(0, i + 1).subrange(0, i) =~= s.subrange(0, i));
        lemma_arity_sum_prefix(s, i + 1);
    } else {
        assert(s.subrange(0, i) =~= s);
    }
}

/// A prefix of a sequence of patterns has no larger type sum.
pub proof fn lemma_pattern_type_sum_prefix(s: Seq<PatternS>, i: int)
    requires
        0 <= i <= s.len(),
    ensures
        pattern_type_sum(s.subrange(0, i)).0 <= pattern_type_sum(s).0,
        pattern_type_sum(s.subrange(0, i)).1 <= pattern_type_sum(s).1,
        i < s.len() ==> pattern_type_sum(s.subrange(0, i + 1)).0 == pattern_type_sum(s.subrange(0, i)).0
            + s[i].pattern_type().0,
        i < s.len() ==> pattern_type_sum(s.subrange(0, i + 1)).1 == pattern_type_sum(s.subrange(0, i)).1
            + s[i].pattern_type().1,
    decreases s.len() - i,
{
    if i < s.len() {
        assert(s.subrange(0, i + 1).subrange(0, i) =~= s.subrange(0, i));
        lemma_pattern_type_sum_prefix(s, i + 1);
    } else {
        assert(s.subrange(0, i) =~= s);
    }
}

impl TermT {
    /// Returns the type of this term
    pub fn get_type(&self) -> (r: TermType)
        requires
            self@.wf(),
        ensures
            r.0 == self@.arity(),
        decreases self,
    {
        match self {
            TermT::Comp(terms) => {
                proof {
                    lemma_terms_view(terms@);
                    assert(decreases_to!(*terms => terms[0]));
                    assert(decreases_to!(*self => (*self)->Comp_0));
                    assert(terms_view(terms@)[0].wf());
                }
                terms[0].get_type()
            },
            TermT::Tensor(terms) => {
                let ghost vs = terms_view(terms@);
                proof {
                    lemma_terms_view(terms@);
                }
                let mut sum: usize = 0;
                let mut i: usize = 0;
                while i < terms.len()
                    invariant
                        *self == TermT::Tensor(*terms),
                        self@.wf(),
                        vs == terms_view(terms@),
                        vs.len() == terms@.len(),
                        i <= terms.len(),
                        sum == arity_sum(vs.subrange(0, i as int)),
                    decreases terms.len() - i,
                {
                    proof {
                        assert(decreases_to!(*terms => terms[i as int]));
                        assert(decreases_to!(*self => (*self)->Tensor_0));
                        lemma_terms_view(terms@);
                        assert(vs[i as int] == terms@[i as int]@);
                        assert(vs[i as int].wf());
                        assert(self@.arity() == arity_sum(vs));
                        lemma_arity_sum_prefix(vs, i as int);
                        lemma_arity_sum_prefix(vs, i as int + 1);
                    }
                    let a = terms[i].get_type();
                    sum = sum + a.0;
                    i = i + 1;
                }
                proof {
                    assert(vs.subrange(0, i as int) =~= vs);
                }
                TermType(sum)
            },
            TermT::Id(ty) => *ty,
            TermT::Phase(_) => TermType(0),
            TermT::IfLet { pattern, .. } => {
                let pt = pattern.get_type();
                TermType(pt.0)
            },
            TermT::Gate { def, .. } => def.get_type(),
            TermT::Inverse(inner) => inner.get_type(),
            TermT::Sqrt(inner) => inner.get_type(),
        }
    }

    /// A copy of the term.
    pub fn duplicate(&self) -> (r: TermT)
        ensures
            r@ == self@,
        decreases self,
    {
        match self {
            TermT::Comp(terms) => TermT::Comp(duplicate_terms(terms)),
            TermT::Tensor(terms) => TermT::Tensor(duplicate_terms(terms)),
            TermT::Id(ty) => TermT::Id(*ty),
            TermT::Phase(p) => TermT::Phase(*p),
            TermT::IfLet { pattern, inner } => TermT::IfLet {
                pattern: pattern.duplicate(),
                inner: Box::new(inner.duplicate()),
            },
            TermT::Gate { name, def } => TermT::Gate { name: name.duplicate(), def: Box::new(def.duplicate()) },
            TermT::Inverse(inner) => TermT::Inverse(Box::new(inner.duplicate())),
            TermT::Sqrt(inner) => TermT::Sqrt(Box::new(inner.duplicate())),
        }
    }
}

/// Copies of a sequence of terms.
fn duplicate_terms(terms: &Vec<TermT>) -> (r: Vec<TermT>)
    ensures
        terms_view(r@) == terms_view(terms@),
    decreases terms,
{
    let mut out: Vec<TermT> = Vec::new();
    let mut i: usize = 0;
    while i < terms.len()
        invariant
            i <= terms.len(),
            terms_view(out@) == terms_view(terms@.subrange(0, i as int)),
            out@.len() == i,
        decreases terms.len() - i,
    {
        proof {
            assert(decreases_to!(*terms => terms[i as int]));
        }
        let t = terms[i].duplicate();
        let ghost before = out@;
        out.push(t);
        proof {
            assert(out@.subrange(0, out@.len() - 1) =~= before);
            assert(terms@.subrange(0, i + 1).subrange(0, i as int) =~= terms@.subrange(0, i as int));
        }
        i = i + 1;
    }
    proof {
        assert(terms@.subrange(0, i as int) =~= terms@);
    }
    out
}

impl PatternT {
    /// Returns the type of this pattern
    pub fn get_type(&self) -> (r: PatternType)
        requires
            self@.wf(),
        ensures
            r.0 == self@.pattern_type().0,
            r.1 == self@.pattern_type().1,
        decreases self,
    {
        match self {
            PatternT::Comp(patterns) => {
                proof {
                    lemma_patterns_view(patterns@);
                    assert(decreases_to!(*patterns => patterns[0]));
                    assert(decreases_to!(*patterns => patterns[patterns.len() - 1]));
                    assert(decreases_to!(*self => (*self)->Comp_0));
                    assert(patterns_view(patterns@)[0].wf());
                    assert(patterns_view(patterns@)[patterns.len() - 1].wf());
                }
                let a = patterns[0].get_type();
                let b = patterns[patterns.len() - 1].get_type();
                PatternType(a.0, b.1)
            },
            PatternT::Tensor(patterns) => {
                let ghost vs = patterns_view(patterns@);
                proof {
                    lemma_patterns_view(patterns@);
                }
                let mut m: usize = 0;
                let mut n: usize = 0;
                let mut i: usize = 0;
                while i < patterns.len()
                    invariant
                        *self == PatternT::Tensor(*patterns),
                        self@.wf(),
                        vs == patterns_view(patterns@),
                        vs.len() == patterns@.len(),
                        i <= patterns.len(),
                        m == pattern_type_sum(vs.subrange(0, i as int)).0,
                        n == pattern_type_sum(vs.subrange(0, i as int)).1,
                    decreases patterns.len() - i,
                {
                    proof {
                        assert(decreases_to!(*patterns => patterns[i as int]));
                        assert(decreases_to!(*self => (*self)->Tensor_0));
                        lemma_patterns_view(patterns@);
                        assert(vs[i as int] == patterns@[i as int]@);
                        assert(vs[i as int].wf());
                        assert(self@.pattern_type() == pattern_type_sum(vs));
                        lemma_pattern_type_sum_prefix(vs, i as int);
                        lemma_pattern_type_sum_prefix(vs, i as int + 1);
                    }
                    let a = patterns[i].get_type();
                    m = m + a.0;
                    n = n + a.1;
                    i = i + 1;
                }
                proof {
                    assert(vs.subrange(0, i as int) =~= vs);
                }
                PatternType(m, n)
            },
            PatternT::Ket(states) => PatternType(states.qubits(), 0),
            PatternT::Unitary(inner) => inner.get_type().to_pattern_type(),
        }
    }

    /// A copy of the pattern.
    pub fn duplicate(&self) -> (r: PatternT)
        ensures
            r@ == self@,
        decreases self,
    {
        match self {
            PatternT::Comp(patterns) => PatternT::Comp(duplicate_patterns(patterns)),
            PatternT::Tensor(patterns) => PatternT::Tensor(duplicate_patterns(patterns)),
            PatternT::Ket(states) => PatternT::Ket(states.duplicate()),
            PatternT::Unitary(inner) => PatternT::Unitary(Box::new(inner.duplicate())),
        }
    }
}

/// Copies of a sequence of patterns.
fn duplicate_patterns(patterns: &Vec<PatternT>) -> (r: Vec<PatternT>)
    ensures
        patterns_view(r@) == patterns_view(patterns@),
    decreases patterns,
{
    let mut out: Vec<PatternT> = Vec::new();
    let mut i: usize = 0;
    while i < patterns.len()
        invariant
            i <= patterns.len(),
            patterns_view(out@) == patterns_view(patterns@.subrange(0, i as int)),
            out@.len() == i,
        decreases patterns.len() - i,
    {
        proof {
            assert(decreases_to!(*patterns => patterns[i as int]));
        }
        let p = patterns[i].duplicate();
        let ghost before = out@;
        out.push(p);
        proof {
            assert(out@.subrange(0, out@.len() - 1) =~= before);
            assert(patterns@.subrange(0, i + 1).subrange(0, i as int) =~= patterns@.subrange(0, i as int));
        }
        i = i + 1;
    }
    proof {
        assert(patterns@.subrange(0, i as int) =~= patterns@);
    }
    out
}

} // verus!
