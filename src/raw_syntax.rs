//! Raw syntax: terms and patterns as read from source text, each node with its span.

use vstd::prelude::*;
use crate::ket::CompKetState;
use crate::phase::Phase;
use crate::text::{Name, NoSpan, Span, Spanned};
use crate::typed_syntax::{lemma_patterns_view, lemma_terms_view, patterns_view, terms_view, PatternT, TermT};

verus! {

broadcast use vstd::std_specs::vec::group_vec_axioms;

/// Raw syntax term with text span.
/// Represents a list of tensored terms composed together.
pub type TermR<S> = Spanned<S, TermRInner<S>>;

/// Raw syntax term without text span.
/// Represents a list of tensored terms composed together.
#[derive(Debug)]
pub struct TermRInner<S> {
    /// The composed parts, in order.
    pub terms: Vec<TensorR<S>>,
}

/// Raw syntax tensored term with text span.
/// Represents a list of atoms tensored together.
pub type TensorR<S> = Spanned<S, TensorRInner<S>>;

/// Raw syntax tensored term without text span.
/// Represents a list of atoms tensored together.
#[derive(Debug)]
pub struct TensorRInner<S> {
    /// The tensored parts, in order.
    pub terms: Vec<AtomR<S>>,
}

/// Raw syntax atom with text span.
/// Represents a term other than a tensor or composition (or a composition/tensor in brackets)
pub type AtomR<S> = Spanned<S, AtomRInner<S>>;

/// Raw syntax atom without text span.
/// Represents a term other than a tensor or composition (or a composition/tensor in brackets)
#[derive(Debug)]
pub enum AtomRInner<S> {
    /// A term enclosed in parentheses
    Brackets(TermR<S>),
    /// An identity term "id(n)"
    Id(usize),
    /// A (global) phase operator, e.g. "-1" or "ph(0.1pi)"
    Phase(Phase),
    /// An "if let" statement, "if let pattern then inner"
    IfLet {
        /// Pattern to match on in "if let"
        pattern: PatternR<S>,
        /// Body of the "if let"
        inner: Box<TensorR<S>>,
    },
    /// Top level symbol, a named gate
    Gate(Name),
    /// Inverse of a term "t ^ -1"
    Inverse(Box<AtomR<S>>),
    /// Square root of a term "sqrt(t)"
    Sqrt(Box<AtomR<S>>),
}

/// Raw syntax pattern with text span.
/// Represents a list of tensored patterns composed together.
pub type PatternR<S> = Spanned<S, PatternRInner<S>>;

/// Raw syntax pattern without text span.
/// Represents a list of tensored patterns composed together.
#[derive(Debug)]
pub struct PatternRInner<S> {
    /// The composed parts, in order.
    pub patterns: Vec<PatTensorR<S>>,
}

/// Raw syntax tensored pattern with text span.
/// Represents a list of pattern atoms tensored together.
pub type PatTensorR<S> = Spanned<S, PatTensorRInner<S>>;

/// Raw syntax tensored pattern without text span.
/// Represents a list of pattern atoms tensored together.
#[derive(Debug)]
pub struct PatTensorRInner<S> {
    /// The tensored parts, in order.
    pub patterns: Vec<PatAtomR<S>>,
}

/// Raw syntax pattern atom with text span.
/// Represents a pattern other than a tensor or composition (or a composition/tensor in brackets)
pub type PatAtomR<S> = Spanned<S, PatAtomRInner<S>>;

/// Raw syntax pattern atom without text span.
/// Represents a pattern other than a tensor or composition (or a composition/tensor in brackets)
#[derive(Debug)]
pub enum PatAtomRInner<S> {
    /// A pattern enclosed in parentheses
    Brackets(PatternR<S>),
    /// A sequence of ket states "|xyz>", equivalent to "|x> x |y> x |z>"
    Ket(CompKetState),
    /// A unitary pattern
    Unitary(Box<TermR<S>>),
}

/// Every composition and tensor in the raw term has at least one part.
pub open spec fn term_r_wf<S>(r: TermR<S>) -> bool
    decreases r,
{
    r.inner.terms@.len() >= 1 && forall|i: int|
        0 <= i < r.inner.terms@.len() ==> tensor_r_wf(#[trigger] r.inner.terms@[i])
}

/// Every composition and tensor in the raw tensor has at least one part.
pub open spec fn tensor_r_wf<S>(r: TensorR<S>) -> bool
    decreases r,
{
    r.inner.terms@.len() >= 1 && forall|i: int|
        0 <= i < r.inner.terms@.len() ==> atom_r_wf(#[trigger] r.inner.terms@[i])
}

/// Every composition and tensor in the raw atom has at least one part.
pub open spec fn atom_r_wf<S>(r: AtomR<S>) -> bool
    decreases r,
{
    match r.inner {
        AtomRInner::Brackets(t) => term_r_wf(t),
        AtomRInner::IfLet { pattern, inner } => pattern_r_wf(pattern) && tensor_r_wf(*inner),
        AtomRInner::Inverse(a) => atom_r_wf(*a),
        AtomRInner::Sqrt(a) => atom_r_wf(*a),
        _ => true,
    }
}

/// Every composition and tensor in the raw pattern has at least one part.
pub open spec fn pattern_r_wf<S>(r: PatternR<S>) -> bool
    decreases r,
{
    r.inner.patterns@.len() >= 1 && forall|i: int|
        0 <= i < r.inner.patterns@.len() ==> pat_tensor_r_wf(#[trigger] r.inner.patterns@[i])
}

/// Every composition and tensor in the raw pattern tensor has at least one part.
pub open spec fn pat_tensor_r_wf<S>(r: PatTensorR<S>) -> bool
    decreases r,
{
    r.inner.patterns@.len() >= 1 && forall|i: int|
        0 <= i < r.inner.patterns@.len() ==> pat_atom_r_wf(#[trigger] r.inner.patterns@[i])
}

/// Every composition, tensor and ket in the raw pattern atom has at least one part.
pub open spec fn pat_atom_r_wf<S>(r: PatAtomR<S>) -> bool
    decreases r,
{
    match r.inner {
        PatAtomRInner::Brackets(p) => pattern_r_wf(p),
        PatAtomRInner::Ket(k) => k@.len() >= 1,
        PatAtomRInner::Unitary(t) => term_r_wf(*t),
    }
}

impl<S: Span> TermR<S> {
    /// Whether every composition and tensor in the raw term has at least one part.
    pub fn is_wf(&self) -> (r: bool)
        ensures
            r == term_r_wf(*self),
        decreases self,
    {
        if self.inner.terms.len() == 0 {
            return false;
        }
        let mut i: usize = 0;
        while i < self.inner.terms.len()
            invariant
                i <= self.inner.terms@.len(),
                forall|j: int| 0 <= j < i ==> tensor_r_wf(#[trigger] self.inner.terms@[j]),
            decreases self.inner.terms@.len() - i,
        {
            proof {
                assert(decreases_to!(*self => (*self).inner));
                assert(decreases_to!((*self).inner => (*self).inner.terms));
                assert(decreases_to!((*self).inner.terms => (*self).inner.terms[i as int]));
            }
            if !self.inner.terms[i].is_wf() {
                return false;
            }
            i = i + 1;
        }
        true
    }
}

impl<S: Span> TensorR<S> {
    /// Whether every composition and tensor in the raw tensor has at least one part.
    pub fn is_wf(&self) -> (r: bool)
        ensures
            r == tensor_r_wf(*self),
        decreases self,
    {
        if self.inner.terms.len() == 0 {
            return false;
        }
        let mut i: usize = 0;
        while i < self.inner.terms.len()
            invariant
                i <= self.inner.terms@.len(),
                forall|j: int| 0 <= j < i ==> atom_r_wf(#[trigger] self.inner.terms@[j]),
            decreases self.inner.terms@.len() - i,
        {
            proof {
                assert(decreases_to!(*self => (*self).inner));
                assert(decreases_to!((*self).inner => (*self).inner.terms));
                assert(decreases_to!((*self).inner.terms => (*self).inner.terms[i as int]));
            }
            if !self.inner.terms[i].is_wf() {
                return false;
            }
            i = i + 1;
        }
        true
    }
}

impl<S: Span> AtomR<S> {
    /// Whether every composition and tensor in the raw atom has at least one part.
    pub fn is_wf(&self) -> (r: bool)
        ensures
            r == atom_r_wf(*self),
        decreases self,
    {
        proof {
            assert(decreases_to!(*self => (*self).inner));
        }
        match &self.inner {
            AtomRInner::Brackets(t) => t.is_wf(),
            AtomRInner::IfLet { pattern, inner } => pattern.is_wf() && inner.is_wf(),
            AtomRInner::Inverse(a) => a.is_wf(),
            AtomRInner::Sqrt(a) => a.is_wf(),
            _ => true,
        }
    }
}

impl<S: Span> PatternR<S> {
    /// Whether every composition and tensor in the raw pattern has at least one part.
    pub fn is_wf(&self) -> (r: bool)
        ensures
            r == pattern_r_wf(*self),
        decreases self,
    {
        if self.inner.patterns.len() == 0 {
            return false;
        }
        let mut i: usize = 0;
        while i < self.inner.patterns.len()
            invariant
                i <= self.inner.patterns@.len(),
                forall|j: int| 0 <= j < i ==> pat_tensor_r_wf(#[trigger] self.inner.patterns@[j]),
            decreases self.inner.patterns@.len() - i,
        {
            proof {
                assert(decreases_to!(*self => (*self).inner));
                assert(decreases_to!((*self).inner => (*self).inner.patterns));
                assert(decreases_to!((*self).inner.patterns => (*self).inner.patterns[i as int]));
            }
            if !self.inner.patterns[i].is_wf() {
                return false;
            }
            i = i + 1;
        }
        true
    }
}

impl<S: Span> PatTensorR<S> {
    /// Whether every composition and tensor in the raw pattern tensor has at least one part.
    pub fn is_wf(&self) -> (r: bool)
        ensures
            r == pat_tensor_r_wf(*self),
        decreases self,
    {
        if self.inner.patterns.len() == 0 {
            return false;
        }
        let mut i: usize = 0;
        while i < self.inner.patterns.len()
            invariant
                i <= self.inner.patterns@.len(),
                forall|j: int| 0 <= j < i ==> pat_atom_r_wf(#[trigger] self.inner.patterns@[j]),
            decreases self.inner.patterns@.len() - i,
        {
            proof {
                assert(decreases_to!(*self => (*self).inner));
                assert(decreases_to!((*self).inner => (*self).inner.patterns));
                assert(decreases_to!((*self).inner.patterns => (*self).inner.patterns[i as int]));
            }
            if !self.inner.patterns[i].is_wf() {
                return false;
            }
            i = i + 1;
        }
        true
    }
}

impl<S: Span> PatAtomR<S> {
    /// Whether every composition and tensor in the raw pattern atom has at least one part.
    pub fn is_wf(&self) -> (r: bool)
        ensures
            r == pat_atom_r_wf(*self),
        decreases self,
    {
        proof {
            assert(decreases_to!(*self => (*self).inner));
        }
        match &self.inner {
            PatAtomRInner::Brackets(p) => p.is_wf(),
            PatAtomRInner::Ket(k) => k.qubits() >= 1,
            PatAtomRInner::Unitary(t) => t.is_wf(),
        }
    }
}

/// The raw tensors of a sequence of well-typed terms.
fn raw_tensors(ts: &Vec<TermT>) -> (r: Vec<TensorR<NoSpan>>)
    ensures
        r@.len() == ts@.len(),
        forall|j: int| 0 <= j < r@.len() ==> (ts@[j]@.wf() ==> tensor_r_wf(#[trigger] r@[j])),
    decreases ts, 0nat,
{
    let mut out: Vec<TensorR<NoSpan>> = Vec::new();
    let mut i: usize = 0;
    while i < ts.len()
        invariant
            i <= ts@.len(),
            out@.len() == i,
            forall|j: int| 0 <= j < i ==> (ts@[j]@.wf() ==> tensor_r_wf(#[trigger] out@[j])),
        decreases ts@.len() - i,
    {
        proof {
            assert(decreases_to!(*ts => ts[i as int]));
        }
        out.push(ts[i].to_raw_tensor());
        i = i + 1;
    }
    out
}

/// The raw atoms of a sequence of well-typed terms.
fn raw_atoms(ts: &Vec<TermT>) -> (r: Vec<AtomR<NoSpan>>)
    ensures
        r@.len() == ts@.len(),
        forall|j: int| 0 <= j < r@.len() ==> (ts@[j]@.wf() ==> atom_r_wf(#[trigger] r@[j])),
    decreases ts, 0nat,
{
    let mut out: Vec<AtomR<NoSpan>> = Vec::new();
    let mut i: usize = 0;
    while i < ts.len()
        invariant
            i <= ts@.len(),
            out@.len() == i,
            forall|j: int| 0 <= j < i ==> (ts@[j]@.wf() ==> atom_r_wf(#[trigger] out@[j])),
        decreases ts@.len() - i,
    {
        proof {
            assert(decreases_to!(*ts => ts[i as int]));
        }
        out.push(ts[i].to_raw_atom());
        i = i + 1;
    }
    out
}

/// The raw pattern tensors of a sequence of well-typed patterns.
fn raw_pat_tensors(ps: &Vec<PatternT>) -> (r: Vec<PatTensorR<NoSpan>>)
    ensures
        r@.len() == ps@.len(),
        forall|j: int| 0 <= j < r@.len() ==> (ps@[j]@.wf() ==> pat_tensor_r_wf(#[trigger] r@[j])),
    decreases ps, 0nat,
{
    let mut out: Vec<PatTensorR<NoSpan>> = Vec::new();
    let mut i: usize = 0;
    while i < ps.len()
        invariant
            i <= ps@.len(),
            out@.len() == i,
            forall|j: int| 0 <= j < i ==> (ps@[j]@.wf() ==> pat_tensor_r_wf(#[trigger] out@[j])),
        decreases ps@.len() - i,
    {
        proof {
            assert(decreases_to!(*ps => ps[i as int]));
        }
        out.push(ps[i].to_raw_tensor());
        i = i + 1;
    }
    out
}

/// The raw pattern atoms of a sequence of well-typed patterns.
fn raw_pat_atoms(ps: &Vec<PatternT>) -> (r: Vec<PatAtomR<NoSpan>>)
    ensures
        r@.len() == ps@.len(),
        forall|j: int| 0 <= j < r@.len() ==> (ps@[j]@.wf() ==> pat_atom_r_wf(#[trigger] r@[j])),
    decreases ps, 0nat,
{
    let mut out: Vec<PatAtomR<NoSpan>> = Vec::new();
    let mut i: usize = 0;
    while i < ps.len()
        invariant
            i <= ps@.len(),
            out@.len() == i,
            forall|j: int| 0 <= j < i ==> (ps@[j]@.wf() ==> pat_atom_r_wf(#[trigger] out@[j])),
        decreases ps@.len() - i,
    {
        proof {
            assert(decreases_to!(*ps => ps[i as int]));
        }
        out.push(ps[i].to_raw_atom());
        i = i + 1;
    }
    out
}

impl TermT {
    /// Convert to a raw term, for printing.
    pub fn to_raw(&self) -> (r: TermR<NoSpan>)
        ensures
            self@.wf() ==> term_r_wf(r),
        decreases self, 3nat,
    {
        let terms = match self {
            TermT::Comp(ts) => {
                proof {
                    assert(decreases_to!(*self => (*self)->Comp_0));
                    lemma_terms_view(ts@);
                }
                raw_tensors(ts)
            },
            _ => {
                let mut v: Vec<TensorR<NoSpan>> = Vec::new();
                v.push(self.to_raw_tensor());
                v
            },
        };
        Spanned { inner: TermRInner { terms }, span: NoSpan }
    }

    /// Convert to a raw tensor, for printing.
    fn to_raw_tensor(&self) -> (r: TensorR<NoSpan>)
        ensures
            self@.wf() ==> tensor_r_wf(r),
        decreases self, 2nat,
    {
        let terms = match self {
            TermT::Tensor(ts) => {
                proof {
                    assert(decreases_to!(*self => (*self)->Tensor_0));
                    lemma_terms_view(ts@);
                }
                raw_atoms(ts)
            },
            _ => {
                let mut v: Vec<AtomR<NoSpan>> = Vec::new();
                v.push(self.to_raw_atom());
                v
            },
        };
        Spanned { inner: TensorRInner { terms }, span: NoSpan }
    }

    /// Convert to a raw atom, for printing: compositions and tensors go in brackets.
    fn to_raw_atom(&self) -> (r: AtomR<NoSpan>)
        ensures
            self@.wf() ==> atom_r_wf(r),
        decreases self, 1nat,
    {
        let inner = match self {
            TermT::Comp(ts) => {
                proof {
                    assert(decreases_to!(*self => (*self)->Comp_0));
                    lemma_terms_view(ts@);
                }
                let terms = raw_tensors(ts);
                let t = Spanned { inner: TermRInner { terms }, span: NoSpan };
                proof {
                    if self@.wf() {
                        assert forall|j: int| 0 <= j < ts@.len() implies (#[trigger] ts@[j])@.wf() by {
                            assert(terms_view(ts@)[j] == ts@[j]@);
                        }
                        assert(term_r_wf(t));
                    }
                }
                AtomRInner::Brackets(t)
            },
            TermT::Tensor(ts) => {
                proof {
                    assert(decreases_to!(*self => (*self)->Tensor_0));
                    lemma_terms_view(ts@);
                }
                let atoms = raw_atoms(ts);
                let tensor = Spanned { inner: TensorRInner { terms: atoms }, span: NoSpan };
                let mut terms: Vec<TensorR<NoSpan>> = Vec::new();
                terms.push(tensor);
                let t = Spanned { inner: TermRInner { terms }, span: NoSpan };
                proof {
                    if self@.wf() {
                        assert forall|j: int| 0 <= j < ts@.len() implies (#[trigger] ts@[j])@.wf() by {
                            assert(terms_view(ts@)[j] == ts@[j]@);
                        }
                        assert(tensor_r_wf(tensor));
                        assert(term_r_wf(t));
                    }
                }
                AtomRInner::Brackets(t)
            },
            TermT::Id(ty) => AtomRInner::Id(ty.0),
            TermT::Phase(phase) => AtomRInner::Phase(*phase),
            TermT::IfLet { pattern, inner } => AtomRInner::IfLet {
                pattern: pattern.to_raw(),
                inner: Box::new(inner.to_raw_tensor()),
            },
            TermT::Gate { name, .. } => AtomRInner::Gate(name.duplicate()),
            TermT::Inverse(inner) => AtomRInner::Inverse(Box::new(inner.to_raw_atom())),
            TermT::Sqrt(inner) => AtomRInner::Sqrt(Box::new(inner.to_raw_atom())),
        };
        Spanned { inner, span: NoSpan }
    }
}

impl PatternT {
    /// Convert to a raw pattern, for printing.
    pub fn to_raw(&self) -> (r: PatternR<NoSpan>)
        ensures
            self@.wf() ==> pattern_r_wf(r),
        decreases self, 3nat,
    {
        let patterns = match self {
            PatternT::Comp(ps) => {
                proof {
                    assert(decreases_to!(*self => (*self)->Comp_0));
                    lemma_patterns_view(ps@);
                }
                raw_pat_tensors(ps)
            },
            _ => {
                let mut v: Vec<PatTensorR<NoSpan>> = Vec::new();
                v.push(self.to_raw_tensor());
                v
            },
        };
        Spanned { inner: PatternRInner { patterns }, span: NoSpan }
    }

    /// Convert to a raw pattern tensor, for printing.
    fn to_raw_tensor(&self) -> (r: PatTensorR<NoSpan>)
        ensures
            self@.wf() ==> pat_tensor_r_wf(r),
        decreases self, 2nat,
    {
        let patterns = match self {
            PatternT::Tensor(ps) => {
                proof {
                    assert(decreases_to!(*self => (*self)->Tensor_0));
                    lemma_patterns_view(ps@);
                }
                raw_pat_atoms(ps)
            },
            _ => {
                let mut v: Vec<PatAtomR<NoSpan>> = Vec::new();
                v.push(self.to_raw_atom());
                v
            },
        };
        Spanned { inner: PatTensorRInner { patterns }, span: NoSpan }
    }

    /// Convert to a raw pattern atom, for printing: compositions and tensors go in brackets.
    fn to_raw_atom(&self) -> (r: PatAtomR<NoSpan>)
        ensures
            self@.wf() ==> pat_atom_r_wf(r),
        decreases self, 1nat,
    {
        let inner = match self {
            PatternT::Comp(ps) => {
                proof {
                    assert(decreases_to!(*self => (*self)->Comp_0));
                    lemma_patterns_view(ps@);
                }
                let patterns = raw_pat_tensors(ps);
                PatAtomRInner::Brackets(Spanned { inner: PatternRInner { patterns }, span: NoSpan })
            },
            PatternT::Tensor(ps) => {
                proof {
                    assert(decreases_to!(*self => (*self)->Tensor_0));
                    lemma_patterns_view(ps@);
                }
                let atoms = raw_pat_atoms(ps);
                let mut patterns: Vec<PatTensorR<NoSpan>> = Vec::new();
                patterns.push(Spanned { inner: PatTensorRInner { patterns: atoms }, span: NoSpan });
                PatAtomRInner::Brackets(Spanned { inner: PatternRInner { patterns }, span: NoSpan })
            },
            PatternT::Ket(states) => PatAtomRInner::Ket(states.duplicate()),
            PatternT::Unitary(inner) => PatAtomRInner::Unitary(Box::new(inner.to_raw())),
        };
        Spanned { inner, span: NoSpan }
    }
}

} // verus!
