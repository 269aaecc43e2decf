//! Normal-form syntax: the result of evaluation, free of identities, gates,
//! inverses and square roots.

use vstd::prelude::*;
use crate::ket::{CompKetState, KetState};
use crate::phase::{spec_from_angle, Angle, Phase};
use crate::typed_syntax::{
    arity_sum, pattern_type_sum, lemma_patterns_view, lemma_terms_view, patterns_view, terms_view, PatternS, PatternT, PatternType,
    TermS, TermT, TermType,
};

verus! {

broadcast use {
    vstd::std_specs::vec::group_vec_axioms,
    lemma_terms_view,
    lemma_patterns_view,
};

/// A normal-form term
#[derive(Debug)]
pub enum TermN {
    /// A composition "t_1 ; ... ; t_n" with given type
    Comp(Vec<TermN>, TermType),
    /// A tensor "t_1 x ... x t_n"
    Tensor(Vec<TermN>),
    /// An "atomic" term
    Atom(AtomN),
}

/// "Atomic" terms. Terms which are not compositions or tensors.
#[derive(Debug)]
pub enum AtomN {
    /// A (global) phase operator with the given angle, as a fraction of pi
    Phase(Angle),
    /// An "if let" statement with given pattern, body term, and type
    IfLet(PatternN, Box<TermN>, TermType),
}

/// A normal-form pattern
#[derive(Debug)]
pub enum PatternN {
    /// A composition "p_1 . ... . p_n" with given type
    Comp(Vec<PatternN>, PatternType),
    /// A tensor "p_1 x ... x p_n"
    Tensor(Vec<PatternN>),
    /// A single ket state "|x>"
    Ket(KetState),
    /// An "atomic" term. Compound terms are evaluated to pattern compositions/tensors.
    Unitary(Box<AtomN>),
}

/// The mathematical value of a normal-form term.
pub enum TermNS {
    Comp(Seq<TermNS>, TermType),
    Tensor(Seq<TermNS>),
    Atom(AtomNS),
}

/// The mathematical value of a normal-form atom.
pub enum AtomNS {
    Phase(Angle),
    IfLet(PatternNS, Box<TermNS>, TermType),
}

/// The mathematical value of a normal-form pattern.
pub enum PatternNS {
    Comp(Seq<PatternNS>, PatternType),
    Tensor(Seq<PatternNS>),
    Ket(KetState),
    Unitary(Box<AtomNS>),
}

/// The values of a sequence of normal-form terms.
pub open spec fn nterms_view(s: Seq<TermN>) -> Seq<TermNS>
    decreases s,
{
    if s.len() == 0 {
        Seq::empty()
    } else {
        nterms_view(s.subrange(0, s.len() - 1)).push(nterm_view(s.last()))
    }
}

/// The value of a normal-form term.
pub open spec fn nterm_view(t: TermN) -> TermNS
    decreases t,
{
    match t {
        TermN::Comp(v, ty) => TermNS::Comp(nterms_view(v@), ty),
        TermN::Tensor(v) => TermNS::Tensor(nterms_view(v@)),
        TermN::Atom(a) => TermNS::Atom(natom_view(a)),
    }
}

/// The value of a normal-form atom.
pub open spec fn natom_view(a: AtomN) -> AtomNS
    decreases a,
{
    match a {
        AtomN::Phase(x) => AtomNS::Phase(x),
        AtomN::IfLet(p, t, ty) => AtomNS::IfLet(npattern_view(p), Box::new(nterm_view(*t)), ty),
    }
}

/// The values of a sequence of normal-form patterns.
pub open spec fn npatterns_view(s: Seq<PatternN>) -> Seq<PatternNS>
    decreases s,
{
    if s.len() == 0 {
        Seq::empty()
    } else {
        npatterns_view(s.subrange(0, s.len() - 1)).push(npattern_view(s.last()))
    }
}

/// The value of a normal-form pattern.
pub open spec fn npattern_view(p: PatternN) -> PatternNS
    decreases p,
{
    match p {
        PatternN::Comp(v, ty) => PatternNS::Comp(npatterns_view(v@), ty),
        PatternN::Tensor(v) => PatternNS::Tensor(npatterns_view(v@)),
        PatternN::Ket(k) => PatternNS::Ket(k),
        PatternN::Unitary(a) => PatternNS::Unitary(Box::new(natom_view(*a))),
    }
}

impl View for TermN {
    type V = TermNS;

    open spec fn view(&self) -> TermNS {
        nterm_view(*self)
    }
}

impl View for AtomN {
    type V = AtomNS;

    open spec fn view(&self) -> AtomNS {
        natom_view(*self)
    }
}

impl View for PatternN {
    type V = PatternNS;

    open spec fn view(&self) -> PatternNS {
        npattern_view(*self)
    }
}

/// Each value in `nterms_view(s)` is the value of the term at the same place.
pub broadcast proof fn lemma_nterms_view(s: Seq<TermN>)
    ensures
        #[trigger] nterms_view(s).len() == s.len(),
        forall|i: int| 0 <= i < s.len() ==> nterms_view(s)[i] == nterm_view(#[trigger] s[i]),
    decreases s.len(),
{
    if s.len() > 0 {
        let p = s.subrange(0, s.len() - 1);
        lemma_nterms_view(p);
        assert forall|i: int| 0 <= i < s.len() implies nterms_view(s)[i] == nterm_view(#[trigger] s[i]) by {
            if i < s.len() - 1 {
                assert(p[i] == s[i]);
            }
        }
    }
}

/// Each value in `npatterns_view(s)` is the value of the pattern at the same place.
pub broadcast proof fn lemma_npatterns_view(s: Seq<PatternN>)
    ensures
        #[trigger] npatterns_view(s).len() == s.len(),
        forall|i: int| 0 <= i < s.len() ==> npatterns_view(s)[i] == npattern_view(#[trigger] s[i]),
    decreases s.len(),
{
    if s.len() > 0 {
        let p = s.subrange(0, s.len() - 1);
        lemma_npatterns_view(p);
        assert forall|i: int| 0 <= i < s.len() implies npatterns_view(s)[i] == npattern_view(#[trigger] s[i]) by {
            if i < s.len() - 1 {
                assert(p[i] == s[i]);
            }
        }
    }
}

/// The sum of the arities of a sequence of normal-form terms.
pub open spec fn narity_sum(s: Seq<TermNS>) -> nat
    decreases s,
{
    if s.len() == 0 {
        0
    } else {
        narity_sum(s.subrange(0, s.len() - 1)) + s.last().arity()
    }
}

/// The componentwise sum of the types of a sequence of normal-form patterns.
pub open spec fn npattern_type_sum(s: Seq<PatternNS>) -> (nat, nat)
    decreases s,
{
    if s.len() == 0 {
        (0, 0)
    } else {
        let a = npattern_type_sum(s.subrange(0, s.len() - 1));
        let b = s.last().pattern_type();
        ((a.0 + b.0) as nat, (a.1 + b.1) as nat)
    }
}

impl TermNS {
    /// The number of qubits the term acts on.
    pub open spec fn arity(self) -> nat
        decreases self,
    {
        match self {
            TermNS::Comp(_, ty) => ty.0 as nat,
            TermNS::Tensor(ts) => narity_sum(ts),
            TermNS::Atom(a) => a.arity(),
        }
    }

    /// No composition or tensor in the term has exactly one part.
    pub open spec fn no_singletons(self) -> bool
        decreases self,
    {
        match self {
            TermNS::Comp(ts, _) => ts.len() != 1 && forall|i: int|
                0 <= i < ts.len() ==> (#[trigger] ts[i]).no_singletons(),
            TermNS::Tensor(ts) => ts.len() != 1 && forall|i: int|
                0 <= i < ts.len() ==> (#[trigger] ts[i]).no_singletons(),
            TermNS::Atom(a) => a.no_singletons(),
        }
    }
}

impl TermNS {
    /// Every part of a composition has its type, and every "if let" its pattern's input arity.
    pub open spec fn typed(self) -> bool
        decreases self,
    {
        match self {
            TermNS::Comp(ts, ty) => forall|i: int|
                0 <= i < ts.len() ==> (#[trigger] ts[i]).typed() && ts[i].arity() == ty.0,
            TermNS::Tensor(ts) => forall|i: int| 0 <= i < ts.len() ==> (#[trigger] ts[i]).typed(),
            TermNS::Atom(a) => a.typed(),
        }
    }
}

impl TermNS {
    /// Every tensor in the term has a part, and its qubits fit in a `usize`.
    pub open spec fn sized(self) -> bool
        decreases self,
    {
        match self {
            TermNS::Comp(ts, _) => forall|i: int| 0 <= i < ts.len() ==> (#[trigger] ts[i]).sized(),
            TermNS::Tensor(ts) => ts.len() >= 1 && narity_sum(ts) <= usize::MAX && forall|i: int|
                0 <= i < ts.len() ==> (#[trigger] ts[i]).sized(),
            TermNS::Atom(a) => a.sized(),
        }
    }
}

impl AtomNS {
    /// Every tensor in the atom has a part, and its qubits fit in a `usize`.
    pub open spec fn sized(self) -> bool
        decreases self,
    {
        match self {
            AtomNS::Phase(_) => true,
            AtomNS::IfLet(p, t, _) => p.sized() && t.sized(),
        }
    }

    /// The pattern of an "if let" has the atom's arity as input and the body's as output.
    pub open spec fn typed(self) -> bool
        decreases self,
    {
        match self {
            AtomNS::Phase(_) => true,
            AtomNS::IfLet(p, t, ty) => p.typed() && t.typed() && p.pattern_type().0 == ty.0
                && p.pattern_type().1 == t.arity(),
        }
    }

    /// The number of qubits the atom acts on.
    pub open spec fn arity(self) -> nat {
        match self {
            AtomNS::Phase(_) => 0,
            AtomNS::IfLet(_, _, ty) => ty.0 as nat,
        }
    }

    /// No composition or tensor in the atom has exactly one part.
    pub open spec fn no_singletons(self) -> bool
        decreases self,
    {
        match self {
            AtomNS::Phase(_) => true,
            AtomNS::IfLet(p, t, _) => p.no_singletons() && t.no_singletons(),
        }
    }
}

impl PatternNS {
    /// The type `(m, n)` of the pattern.
    pub open spec fn pattern_type(self) -> (nat, nat)
        decreases self,
    {
        match self {
            PatternNS::Comp(_, ty) => (ty.0 as nat, ty.1 as nat),
            PatternNS::Tensor(ps) => npattern_type_sum(ps),
            PatternNS::Ket(_) => (1, 0),
            PatternNS::Unitary(a) => (a.arity(), a.arity()),
        }
    }

    /// The parts of every composition link up and match its type.
    pub open spec fn typed(self) -> bool
        decreases self,
    {
        match self {
            PatternNS::Comp(ps, ty) => (forall|i: int|
                0 <= i < ps.len() ==> (#[trigger] ps[i]).typed() && (i + 1 < ps.len()
                    ==> ps[i].pattern_type().1 == ps[i + 1].pattern_type().0)) && (ps.len() == 0
                ==> ty.0 == ty.1) && (ps.len() > 0 ==> ps[0].pattern_type().0 == ty.0
                && ps.last().pattern_type().1 == ty.1),
            PatternNS::Tensor(ps) => forall|i: int| 0 <= i < ps.len() ==> (#[trigger] ps[i]).typed(),
            PatternNS::Ket(_) => true,
            PatternNS::Unitary(a) => a.typed(),
        }
    }

    /// Every tensor in the pattern has a part, and its qubits fit in a `usize`.
    pub open spec fn sized(self) -> bool
        decreases self,
    {
        match self {
            PatternNS::Comp(ps, _) => forall|i: int| 0 <= i < ps.len() ==> (#[trigger] ps[i]).sized(),
            PatternNS::Tensor(ps) => ps.len() >= 1 && npattern_type_sum(ps).0 <= usize::MAX
                && npattern_type_sum(ps).1 <= usize::MAX && forall|i: int|
                0 <= i < ps.len() ==> (#[trigger] ps[i]).sized(),
            PatternNS::Ket(_) => true,
            PatternNS::Unitary(a) => a.sized(),
        }
    }

    /// No composition or tensor in the pattern has exactly one part.
    pub open spec fn no_singletons(self) -> bool
        decreases self,
    {
        match self {
            PatternNS::Comp(ps, _) => ps.len() != 1 && forall|i: int|
                0 <= i < ps.len() ==> (#[trigger] ps[i]).no_singletons(),
            PatternNS::Tensor(ps) => ps.len() != 1 && forall|i: int|
                0 <= i < ps.len() ==> (#[trigger] ps[i]).no_singletons(),
            PatternNS::Ket(_) => true,
            PatternNS::Unitary(a) => a.no_singletons(),
        }
    }
}

/// The quotations of a sequence of normal-form terms.
pub open spec fn quote_terms(s: Seq<TermNS>) -> Seq<TermS>
    decreases s,
{
    if s.len() == 0 {
        Seq::empty()
    } else {
        quote_terms(s.subrange(0, s.len() - 1)).push(quote_term(s.last()))
    }
}

/// The typed term that a normal-form term stands for: an empty composition is
/// an identity, a composition of one term is that term, and phases take their
/// exact variants where they have one.
pub open spec fn quote_term(t: TermNS) -> TermS
    decreases t,
{
    match t {
        TermNS::Comp(ts, ty) => if ts.len() == 0 {
            TermS::Id(ty.0 as nat)
        } else if ts.len() == 1 {
            quote_term(ts[0])
        } else {
            TermS::Comp(quote_terms(ts))
        },
        TermNS::Tensor(ts) => TermS::Tensor(quote_terms(ts)),
        TermNS::Atom(a) => quote_atom(a),
    }
}

/// The typed term that a normal-form atom stands for.
pub open spec fn quote_atom(a: AtomNS) -> TermS
    decreases a,
{
    match a {
        AtomNS::Phase(x) => TermS::Phase(spec_from_angle(x)),
        AtomNS::IfLet(p, t, _) => TermS::IfLet(quote_pattern(p), Box::new(quote_term(*t))),
    }
}

/// The quotations of a sequence of normal-form patterns.
pub open spec fn quote_patterns(s: Seq<PatternNS>) -> Seq<PatternS>
    decreases s,
{
    if s.len() == 0 {
        Seq::empty()
    } else {
        quote_patterns(s.subrange(0, s.len() - 1)).push(quote_pattern(s.last()))
    }
}

/// The typed pattern that a normal-form pattern stands for.
pub open spec fn quote_pattern(p: PatternNS) -> PatternS
    decreases p,
{
    match p {
        PatternNS::Comp(ps, ty) => if ps.len() == 0 {
            PatternS::Unitary(Box::new(TermS::Id(ty.0 as nat)))
        } else if ps.len() == 1 {
            quote_pattern(ps[0])
        } else {
            PatternS::Comp(quote_patterns(ps))
        },
        PatternNS::Tensor(ps) => PatternS::Tensor(quote_patterns(ps)),
        PatternNS::Ket(k) => PatternS::Ket(seq![k]),
        PatternNS::Unitary(a) => PatternS::Unitary(Box::new(quote_atom(*a))),
    }
}

/// `quote_terms` quotes each term.
pub broadcast proof fn lemma_quote_terms(s: Seq<TermNS>)
    ensures
        #[trigger] quote_terms(s).len() == s.len(),
        forall|i: int| 0 <= i < s.len() ==> #[trigger] quote_terms(s)[i] == quote_term(s[i]),
    decreases s.len(),
{
    if s.len() > 0 {
        let p = s.subrange(0, s.len() - 1);
        lemma_quote_terms(p);
        assert forall|i: int| 0 <= i < s.len() implies #[trigger] quote_terms(s)[i] == quote_term(s[i]) by {
            if i < s.len() - 1 {
                assert(p[i] == s[i]);
            }
        }
    }
}

/// `quote_patterns` quotes each pattern.
pub broadcast proof fn lemma_quote_patterns(s: Seq<PatternNS>)
    ensures
        #[trigger] quote_patterns(s).len() == s.len(),
        forall|i: int| 0 <= i < s.len() ==> #[trigger] quote_patterns(s)[i] == quote_pattern(s[i]),
    decreases s.len(),
{
    if s.len() > 0 {
        let p = s.subrange(0, s.len() - 1);
        lemma_quote_patterns(p);
        assert forall|i: int| 0 <= i < s.len() implies #[trigger] quote_patterns(s)[i] == quote_pattern(s[i]) by {
            if i < s.len() - 1 {
                assert(p[i] == s[i]);
            }
        }
    }
}

impl TermN {
    /// Return a `TermT` which is the "quotation" of this normal-form term.
    /// Realises that all normal-form terms are also terms.
    pub fn quote(&self) -> (r: TermT)
        ensures
            r@ == quote_term(self@),
        decreases self,
    {
        match self {
            TermN::Comp(terms, ty) => {
                proof {
                    lemma_nterms_view(terms@);
                }
                if terms.len() == 0 {
                    return TermT::Id(*ty);
                }
                if terms.len() == 1 {
                    proof {
                        assert(decreases_to!(*terms => terms[0]));
                        assert(decreases_to!(*self => (*self)->Comp_0));
                    }
                    return terms[0].quote();
                }
                let out = quote_all_terms(terms);
                TermT::Comp(out)
            },
            TermN::Tensor(terms) => {
                let out = quote_all_terms(terms);
                TermT::Tensor(out)
            },
            TermN::Atom(atom) => atom.quote(),
        }
    }
}

/// The quotations of a sequence of normal-form terms.
fn quote_all_terms(terms: &Vec<TermN>) -> (r: Vec<TermT>)
    ensures
        terms_view(r@) == quote_terms(nterms_view(terms@)),
    decreases terms,
{
    let ghost vs = nterms_view(terms@);
    let mut out: Vec<TermT> = Vec::new();
    let mut i: usize = 0;
    while i < terms.len()
        invariant
            vs == nterms_view(terms@),
            i <= terms.len(),
            out@.len() == i,
            forall|j: int| 0 <= j < i ==> (#[trigger] out@[j])@ == quote_term(vs[j]),
        decreases terms.len() - i,
    {
        proof {
            assert(decreases_to!(*terms => terms[i as int]));
            lemma_nterms_view(terms@);
        }
        let q = terms[i].quote();
        out.push(q);
        i = i + 1;
    }
    proof {
        lemma_nterms_view(terms@);
        lemma_terms_view(out@);
        lemma_quote_terms(vs);
        assert forall|j: int| 0 <= j < out@.len() implies terms_view(out@)[j] == quote_terms(vs)[j] by {
            assert(terms_view(out@)[j] == out@[j]@);
        }
        assert(terms_view(out@) =~= quote_terms(vs));
    }
    out
}

impl AtomN {
    /// Returns the type of this atom.
    pub fn get_type(&self) -> (r: TermType)
        ensures
            r.0 == self@.arity(),
    {
        match self {
            AtomN::Phase(_) => TermType(0),
            AtomN::IfLet(_, _, ty) => *ty,
        }
    }

    /// Return the `TermT` that this normal-form atom stands for.
    pub fn quote(&self) -> (r: TermT)
        ensures
            r@ == quote_atom(self@),
        decreases self,
    {
        match self {
            AtomN::Phase(angle) => TermT::Phase(Phase::from_angle(*angle)),
            AtomN::IfLet(pattern, inner, _) => {
                let p = pattern.quote();
                let t = inner.quote();
                TermT::IfLet { pattern: p, inner: Box::new(t) }
            },
        }
    }
}

impl PatternN {
    /// Return a `PatternT` which is the "quotation" of this normal-form pattern.
    /// Realises that all normal-form patterns are also patterns.
    pub fn quote(&self) -> (r: PatternT)
        ensures
            r@ == quote_pattern(self@),
        decreases self,
    {
        match self {
            PatternN::Comp(patterns, ty) => {
                proof {
                    lemma_npatterns_view(patterns@);
                }
                if patterns.len() == 0 {
                    return PatternT::Unitary(Box::new(TermT::Id(TermType(ty.0))));
                }
                if patterns.len() == 1 {
                    proof {
                        assert(decreases_to!(*patterns => patterns[0]));
                        assert(decreases_to!(*self => (*self)->Comp_0));
                    }
                    return patterns[0].quote();
                }
                let out = quote_all_patterns(patterns);
                PatternT::Comp(out)
            },
            PatternN::Tensor(patterns) => {
                let out = quote_all_patterns(patterns);
                PatternT::Tensor(out)
            },
            PatternN::Ket(state) => PatternT::Ket(CompKetState::single(*state)),
            PatternN::Unitary(inner) => PatternT::Unitary(Box::new(inner.quote())),
        }
    }
}

/// The quotations of a sequence of normal-form patterns.
fn quote_all_patterns(patterns: &Vec<PatternN>) -> (r: Vec<PatternT>)
    ensures
        patterns_view(r@) == quote_patterns(npatterns_view(patterns@)),
    decreases patterns,
{
    let ghost vs = npatterns_view(patterns@);
    let mut out: Vec<PatternT> = Vec::new();
    let mut i: usize = 0;
    while i < patterns.len()
        invariant
            vs == npatterns_view(patterns@),
            i <= patterns.len(),
            out@.len() == i,
            forall|j: int| 0 <= j < i ==> (#[trigger] out@[j])@ == quote_pattern(vs[j]),
        decreases patterns.len() - i,
    {
        proof {
            assert(decreases_to!(*patterns => patterns[i as int]));
            lemma_npatterns_view(patterns@);
        }
        let q = patterns[i].quote();
        out.push(q);
        i = i + 1;
    }
    proof {
        lemma_npatterns_view(patterns@);
        lemma_patterns_view(out@);
        lemma_quote_patterns(vs);
        assert forall|j: int| 0 <= j < out@.len() implies patterns_view(out@)[j] == quote_patterns(vs)[j] by {
            assert(patterns_view(out@)[j] == out@[j]@);
        }
        assert(patterns_view(out@) =~= quote_patterns(vs));
    }
    out
}

/// Quoting a typed normal-form term keeps its arity.
pub proof fn quote_preserves_arity(n: TermNS)
    requires
        n.typed(),
    ensures
        quote_term(n).arity() == n.arity(),
    decreases n,
{
    match n {
        TermNS::Comp(ts, ty) => {
            if ts.len() == 1 {
                quote_preserves_arity(ts[0]);
            } else if ts.len() > 1 {
                lemma_quote_terms(ts);
                quote_preserves_arity(ts[0]);
                assert(quote_terms(ts)[0] == quote_term(ts[0]));
            }
        },
        TermNS::Tensor(ts) => {
            lemma_quote_terms_arity(ts);
        },
        TermNS::Atom(a) => {
            quote_atom_preserves_arity(a);
        },
    }
}

/// Quoting typed normal-form terms keeps their arity sum.
proof fn lemma_quote_terms_arity(s: Seq<TermNS>)
    requires
        forall|i: int| 0 <= i < s.len() ==> (#[trigger] s[i]).typed(),
    ensures
        arity_sum(quote_terms(s)) == narity_sum(s),
    decreases s,
{
    if s.len() > 0 {
        let p = s.subrange(0, s.len() - 1);
        lemma_quote_terms_arity(p);
        lemma_quote_terms(p);
        quote_preserves_arity(s.last());
        assert(quote_terms(s).subrange(0, s.len() - 1) =~= quote_terms(p));
    }
}

/// Quoting a typed normal-form atom keeps its arity.
pub proof fn quote_atom_preserves_arity(a: AtomNS)
    requires
        a.typed(),
    ensures
        quote_atom(a).arity() == a.arity(),
    decreases a,
{
    match a {
        AtomNS::Phase(_) => {},
        AtomNS::IfLet(p, t, ty) => {
            quote_pattern_preserves_type(p);
        },
    }
}

/// Quoting a typed normal-form pattern keeps its type.
pub proof fn quote_pattern_preserves_type(p: PatternNS)
    requires
        p.typed(),
    ensures
        quote_pattern(p).pattern_type() == p.pattern_type(),
    decreases p,
{
    match p {
        PatternNS::Comp(ps, ty) => {
            if ps.len() == 1 {
                quote_pattern_preserves_type(ps[0]);
                assert(ps.last() == ps[0]);
            } else if ps.len() > 1 {
                lemma_quote_patterns(ps);
                quote_pattern_preserves_type(ps[0]);
                quote_pattern_preserves_type(ps[ps.len() - 1]);
                let qs = quote_patterns(ps);
                assert(qs[0] == quote_pattern(ps[0]));
                assert(qs.last() == quote_pattern(ps[ps.len() - 1]));
                assert(ps.last() == ps[ps.len() - 1]);
            } else {
                assert(TermS::Id(ty.0 as nat).arity() == ty.0);
            }
        },
        PatternNS::Tensor(ps) => {
            lemma_quote_patterns_type(ps);
        },
        PatternNS::Ket(k) => {
            assert(seq![k].len() == 1);
        },
        PatternNS::Unitary(a) => {
            quote_atom_preserves_arity(*a);
        },
    }
}

/// Quoting typed normal-form patterns keeps their type sum.
proof fn lemma_quote_patterns_type(s: Seq<PatternNS>)
    requires
        forall|i: int| 0 <= i < s.len() ==> (#[trigger] s[i]).typed(),
    ensures
        pattern_type_sum(quote_patterns(s)) == npattern_type_sum(s),
    decreases s,
{
    if s.len() > 0 {
        let p = s.subrange(0, s.len() - 1);
        lemma_quote_patterns_type(p);
        lemma_quote_patterns(p);
        quote_pattern_preserves_type(s.last());
        assert(quote_patterns(s).subrange(0, s.len() - 1) =~= quote_patterns(p));
    }
}

/// A part of a tensor has no more qubits than the whole.
proof fn lemma_narity_part(s: Seq<TermNS>, i: int)
    requires
        0 <= i < s.len(),
    ensures
        s[i].arity() <= narity_sum(s),
    decreases s.len(),
{
    if i < s.len() - 1 {
        lemma_narity_part(s.subrange(0, s.len() - 1), i);
        assert(s.subrange(0, s.len() - 1)[i] == s[i]);
    }
}

/// A part of a pattern tensor has no larger type than the whole.
proof fn lemma_npattern_part(s: Seq<PatternNS>, i: int)
    requires
        0 <= i < s.len(),
    ensures
        s[i].pattern_type().0 <= npattern_type_sum(s).0,
        s[i].pattern_type().1 <= npattern_type_sum(s).1,
    decreases s.len(),
{
    if i < s.len() - 1 {
        lemma_npattern_part(s.subrange(0, s.len() - 1), i);
        assert(s.subrange(0, s.len() - 1)[i] == s[i]);
    }
}

/// A typed, sized normal-form term quotes to a well-typed term.
pub proof fn quote_well_typed(n: TermNS)
    requires
        n.typed(),
        n.sized(),
    ensures
        quote_term(n).wf(),
    decreases n,
{
    quote_preserves_arity(n);
    match n {
        TermNS::Comp(ts, ty) => {
            if ts.len() == 1 {
                quote_well_typed(ts[0]);
            } else if ts.len() > 1 {
                let qs = quote_terms(ts);
                lemma_quote_terms(ts);
                assert forall|i: int| 0 <= i < qs.len() implies (#[trigger] qs[i]).wf() && qs[i].arity()
                    == qs[0].arity() by {
                    quote_well_typed(ts[i]);
                    quote_preserves_arity(ts[i]);
                    quote_preserves_arity(ts[0]);
                }
                assert(quote_term(n) == TermS::Comp(qs));
            }
        },
        TermNS::Tensor(ts) => {
            let qs = quote_terms(ts);
            lemma_quote_terms(ts);
            lemma_quote_terms_arity(ts);
            assert forall|i: int| 0 <= i < qs.len() implies (#[trigger] qs[i]).wf() by {
                quote_well_typed(ts[i]);
            }
            assert(quote_term(n) == TermS::Tensor(qs));
        },
        TermNS::Atom(a) => {
            assert(a.typed() && a.sized());
            match a {
                AtomNS::Phase(x) => {
                    assert(TermS::Phase(spec_from_angle(x)).wf());
                },
                AtomNS::IfLet(p, t, ty) => {
                    assert(p.typed() && p.sized() && t.typed() && t.sized());
                    quote_pattern_well_typed(p);
                    quote_pattern_preserves_type(p);
                    quote_well_typed(*t);
                    quote_preserves_arity(*t);
                    assert(TermS::IfLet(quote_pattern(p), Box::new(quote_term(*t))).wf());
                },
            }
            assert(quote_term(n) == quote_atom(a));
        },
    }
}

/// A typed, sized normal-form pattern quotes to a well-typed pattern.
pub proof fn quote_pattern_well_typed(p: PatternNS)
    requires
        p.typed(),
        p.sized(),
    ensures
        quote_pattern(p).wf(),
    decreases p,
{
    quote_pattern_preserves_type(p);
    match p {
        PatternNS::Comp(ps, ty) => {
            if ps.len() == 0 {
                assert(TermS::Id(ty.0 as nat).wf());
            } else if ps.len() == 1 {
                quote_pattern_well_typed(ps[0]);
            } else {
                let qs = quote_patterns(ps);
                lemma_quote_patterns(ps);
                assert forall|i: int| 0 <= i < qs.len() implies (#[trigger] qs[i]).wf() && (i + 1 < qs.len()
                    ==> qs[i].pattern_type().1 == qs[i + 1].pattern_type().0) by {
                    quote_pattern_well_typed(ps[i]);
                    quote_pattern_preserves_type(ps[i]);
                    if i + 1 < qs.len() {
                        quote_pattern_preserves_type(ps[i + 1]);
                    }
                }
            }
        },
        PatternNS::Tensor(ps) => {
            let qs = quote_patterns(ps);
            lemma_quote_patterns(ps);
            lemma_quote_patterns_type(ps);
            assert forall|i: int| 0 <= i < qs.len() implies (#[trigger] qs[i]).wf() by {
                quote_pattern_well_typed(ps[i]);
            }
        },
        PatternNS::Ket(k) => {
            assert(seq![k].len() == 1);
        },
        PatternNS::Unitary(a) => {
            assert(a.typed() && a.sized());
            match *a {
                AtomNS::Phase(x) => {
                    assert(TermS::Phase(spec_from_angle(x)).wf());
                },
                AtomNS::IfLet(q, t, ty) => {
                    assert(q.typed() && q.sized() && t.typed() && t.sized());
                    quote_pattern_well_typed(q);
                    quote_pattern_preserves_type(q);
                    quote_well_typed(*t);
                    quote_preserves_arity(*t);
                    assert(TermS::IfLet(quote_pattern(q), Box::new(quote_term(*t))).wf());
                },
            }
            assert(quote_atom(*a).wf());
            quote_atom_preserves_arity(*a);
        },
    }
}

} // verus!
