//! Squashing normal forms: flattening nested compositions and tensors and
//! removing compositions and tensors of a single part.

use vstd::prelude::*;
use crate::normal_syntax::{
    lemma_npatterns_view, lemma_nterms_view, narity_sum, npattern_type_sum, npatterns_view, nterms_view,
    AtomN, AtomNS, PatternN, PatternNS, TermN, TermNS,
};

verus! {

broadcast use vstd::std_specs::vec::group_vec_axioms;

/// The parts that a squashed term contributes to an enclosing composition.
pub open spec fn comp_pieces(t: TermNS) -> Seq<TermNS> {
    match t {
        TermNS::Comp(cs, _) => cs,
        _ => seq![t],
    }
}

/// The parts that a squashed term contributes to an enclosing tensor.
pub open spec fn tensor_pieces(t: TermNS) -> Seq<TermNS> {
    match t {
        TermNS::Tensor(cs) => cs,
        _ => seq![t],
    }
}

/// The squashed parts of a composition, spliced into one sequence.
pub open spec fn squash_comps(s: Seq<TermNS>) -> Seq<TermNS>
    decreases s,
{
    if s.len() == 0 {
        Seq::empty()
    } else {
        squash_comps(s.subrange(0, s.len() - 1)) + comp_pieces(squash_term(s.last()))
    }
}

/// The squashed parts of a tensor, spliced into one sequence.
pub open spec fn squash_tensors(s: Seq<TermNS>) -> Seq<TermNS>
    decreases s,
{
    if s.len() == 0 {
        Seq::empty()
    } else {
        squash_tensors(s.subrange(0, s.len() - 1)) + tensor_pieces(squash_term(s.last()))
    }
}

/// A term with nested compositions and tensors flattened, and compositions
/// and tensors of one part replaced by that part.
pub open spec fn squash_term(t: TermNS) -> TermNS
    decreases t,
{
    match t {
        TermNS::Comp(ts, ty) => {
            let fl = squash_comps(ts);
            if fl.len() == 1 {
                fl[0]
            } else {
                TermNS::Comp(fl, ty)
            }
        },
        TermNS::Tensor(ts) => {
            let fl = squash_tensors(ts);
            if fl.len() == 1 {
                fl[0]
            } else {
                TermNS::Tensor(fl)
            }
        },
        TermNS::Atom(a) => TermNS::Atom(squash_atom(a)),
    }
}

/// An atom with the terms and patterns inside it squashed.
pub open spec fn squash_atom(a: AtomNS) -> AtomNS
    decreases a,
{
    match a {
        AtomNS::Phase(x) => AtomNS::Phase(x),
        AtomNS::IfLet(p, t, ty) => AtomNS::IfLet(squash_pattern(p), Box::new(squash_term(*t)), ty),
    }
}

/// The parts that a squashed pattern contributes to an enclosing composition.
pub open spec fn pattern_comp_pieces(p: PatternNS) -> Seq<PatternNS> {
    match p {
        PatternNS::Comp(cs, _) => cs,
        _ => seq![p],
    }
}

/// The parts that a squashed pattern contributes to an enclosing tensor.
pub open spec fn pattern_tensor_pieces(p: PatternNS) -> Seq<PatternNS> {
    match p {
        PatternNS::Tensor(cs) => cs,
        _ => seq![p],
    }
}

/// The squashed parts of a pattern composition, spliced into one sequence.
pub open spec fn squash_pattern_comps(s: Seq<PatternNS>) -> Seq<PatternNS>
    decreases s,
{
    if s.len() == 0 {
        Seq::empty()
    } else {
        squash_pattern_comps(s.subrange(0, s.len() - 1)) + pattern_comp_pieces(squash_pattern(s.last()))
    }
}

/// The squashed parts of a pattern tensor, spliced into one sequence.
pub open spec fn squash_pattern_tensors(s: Seq<PatternNS>) -> Seq<PatternNS>
    decreases s,
{
    if s.len() == 0 {
        Seq::empty()
    } else {
        squash_pattern_tensors(s.subrange(0, s.len() - 1)) + pattern_tensor_pieces(
            squash_pattern(s.last()),
        )
    }
}

/// A pattern with nested compositions and tensors flattened, and compositions
/// and tensors of one part replaced by that part.
pub open spec fn squash_pattern(p: PatternNS) -> PatternNS
    decreases p,
{
    match p {
        PatternNS::Comp(ps, ty) => {
            let fl = squash_pattern_comps(ps);
            if fl.len() == 1 {
                fl[0]
            } else {
                PatternNS::Comp(fl, ty)
            }
        },
        PatternNS::Tensor(ps) => {
            let fl = squash_pattern_tensors(ps);
            if fl.len() == 1 {
                fl[0]
            } else {
                PatternNS::Tensor(fl)
            }
        },
        PatternNS::Ket(k) => PatternNS::Ket(k),
        PatternNS::Unitary(a) => PatternNS::Unitary(Box::new(squash_atom(*a))),
    }
}

/// The value of `a + b` is the values of `a` followed by those of `b`.
proof fn lemma_nterms_view_concat(a: Seq<TermN>, b: Seq<TermN>)
    ensures
        nterms_view(a + b) == nterms_view(a) + nterms_view(b),
{
    lemma_nterms_view(a);
    lemma_nterms_view(b);
    lemma_nterms_view(a + b);
    assert forall|i: int| 0 <= i < a.len() + b.len() implies nterms_view(a + b)[i] == (nterms_view(a)
        + nterms_view(b))[i] by {
        if i < a.len() {
            assert((a + b)[i] == a[i]);
        } else {
            assert((a + b)[i] == b[i - a.len()]);
        }
    }
    assert(nterms_view(a + b) =~= nterms_view(a) + nterms_view(b));
}

/// The value of `a + b` is the values of `a` followed by those of `b`.
proof fn lemma_npatterns_view_concat(a: Seq<PatternN>, b: Seq<PatternN>)
    ensures
        npatterns_view(a + b) == npatterns_view(a) + npatterns_view(b),
{
    lemma_npatterns_view(a);
    lemma_npatterns_view(b);
    lemma_npatterns_view(a + b);
    assert forall|i: int| 0 <= i < a.len() + b.len() implies npatterns_view(a + b)[i] == (npatterns_view(a)
        + npatterns_view(b))[i] by {
        if i < a.len() {
            assert((a + b)[i] == a[i]);
        } else {
            assert((a + b)[i] == b[i - a.len()]);
        }
    }
    assert(npatterns_view(a + b) =~= npatterns_view(a) + npatterns_view(b));
}

impl TermN {
    /// Simplifies compositions, tensors, and identities in the given normal-form term.
    pub fn squash(&mut self)
        ensures
            final(self)@ == squash_term(old(self)@),
    {
        let mut t = TermN::Tensor(Vec::new());
        std::mem::swap(self, &mut t);
        *self = t.into_squashed();
    }

    /// The squashed term.
    pub fn into_squashed(self) -> (r: TermN)
        ensures
            r@ == squash_term(self@),
        decreases self,
    {
        let ghost this = self;
        match self {
            TermN::Comp(terms, ty) => {
                let ghost orig = terms;
                let ghost vs = nterms_view(terms@);
                proof {
                    lemma_nterms_view(orig@);
                }
                let mut terms = terms;
                let mut acc: Vec<TermN> = Vec::new();
                let mut i: usize = 0;
                while i < terms.len()
                    invariant
                        this == TermN::Comp(orig, ty),
                        self == this,
                        vs == nterms_view(orig@),
                        vs.len() == orig@.len(),
                        terms@.len() == orig@.len(),
                        i <= terms@.len(),
                        forall|j: int| i <= j < terms@.len() ==> terms@[j] == orig@[j],
                        nterms_view(acc@) == squash_comps(vs.subrange(0, i as int)),
                    decreases terms@.len() - i,
                {
                    let mut c = TermN::Tensor(Vec::new());
                    std::mem::swap(&mut c, &mut terms[i]);
                    proof {
                        assert(c == orig@[i as int]);
                        assert(decreases_to!(orig => orig[i as int]));
                        assert(decreases_to!(this => this->Comp_0));
                        assert(decreases_to!(this => c));
                        lemma_nterms_view(orig@);
                        assert(vs.subrange(0, i + 1).subrange(0, i as int) =~= vs.subrange(0, i as int));
                    }
                    let sc = c.into_squashed();
                    let ghost before = acc@;
                    match sc {
                        TermN::Comp(mut cs, cty) => {
                            proof {
                                lemma_nterms_view_concat(before, cs@);
                            }
                            acc.append(&mut cs);
                        },
                        other => {
                            proof {
                                lemma_nterms_view_concat(before, seq![other]);
                                assert(before.push(other) =~= before + seq![other]);
                                lemma_nterms_view(seq![other]);
                                assert(nterms_view(seq![other]) =~= seq![other@]);
                            }
                            acc.push(other);
                        },
                    }
                    i = i + 1;
                }
                proof {
                    assert(vs.subrange(0, i as int) =~= vs);
                    lemma_nterms_view(acc@);
                }
                if acc.len() == 1 {
                    acc.pop().unwrap()
                } else {
                    TermN::Comp(acc, ty)
                }
            },
            TermN::Tensor(terms) => {
                let ghost orig = terms;
                let ghost vs = nterms_view(terms@);
                proof {
                    lemma_nterms_view(orig@);
                }
                let mut terms = terms;
                let mut acc: Vec<TermN> = Vec::new();
                let mut i: usize = 0;
                while i < terms.len()
                    invariant
                        this == TermN::Tensor(orig),
                        self == this,
                        vs == nterms_view(orig@),
                        vs.len() == orig@.len(),
                        terms@.len() == orig@.len(),
                        i <= terms@.len(),
                        forall|j: int| i <= j < terms@.len() ==> terms@[j] == orig@[j],
                        nterms_view(acc@) == squash_tensors(vs.subrange(0, i as int)),
                    decreases terms@.len() - i,
                {
                    let mut c = TermN::Comp(Vec::new(), crate::typed_syntax::TermType(0));
                    std::mem::swap(&mut c, &mut terms[i]);
                    proof {
                        assert(c == orig@[i as int]);
                        assert(decreases_to!(orig => orig[i as int]));
                        assert(decreases_to!(this => this->Tensor_0));
                        assert(decreases_to!(this => c));
                        lemma_nterms_view(orig@);
                        assert(vs.subrange(0, i + 1).subrange(0, i as int) =~= vs.subrange(0, i as int));
                    }
                    let sc = c.into_squashed();
                    let ghost before = acc@;
                    match sc {
                        TermN::Tensor(mut cs) => {
                            proof {
                                lemma_nterms_view_concat(before, cs@);
                            }
                            acc.append(&mut cs);
                        },
                        other => {
                            proof {
                                lemma_nterms_view_concat(before, seq![other]);
                                assert(before.push(other) =~= before + seq![other]);
                                lemma_nterms_view(seq![other]);
                                assert(nterms_view(seq![other]) =~= seq![other@]);
                            }
                            acc.push(other);
                        },
                    }
                    i = i + 1;
                }
                proof {
                    assert(vs.subrange(0, i as int) =~= vs);
                    lemma_nterms_view(acc@);
                }
                if acc.len() == 1 {
                    acc.pop().unwrap()
                } else {
                    TermN::Tensor(acc)
                }
            },
            TermN::Atom(atom) => TermN::Atom(atom.into_squashed()),
        }
    }
}

impl AtomN {
    /// The atom with the terms and patterns inside it squashed.
    pub fn into_squashed(self) -> (r: AtomN)
        ensures
            r@ == squash_atom(self@),
        decreases self,
    {
        match self {
            AtomN::Phase(x) => AtomN::Phase(x),
            AtomN::IfLet(p, t, ty) => {
                let sp = p.into_squashed();
                let st = (*t).into_squashed();
                AtomN::IfLet(sp, Box::new(st), ty)
            },
        }
    }
}

impl PatternN {
    /// Simplifies compositions, tensors, and identities in the given normal-form pattern.
    pub fn squash(&mut self)
        ensures
            final(self)@ == squash_pattern(old(self)@),
    {
        let mut p = PatternN::Tensor(Vec::new());
        std::mem::swap(self, &mut p);
        *self = p.into_squashed();
    }

    /// The squashed pattern.
    pub fn into_squashed(self) -> (r: PatternN)
        ensures
            r@ == squash_pattern(self@),
        decreases self,
    {
        let ghost this = self;
        match self {
            PatternN::Comp(patterns, ty) => {
                let ghost orig = patterns;
                let ghost vs = npatterns_view(patterns@);
                proof {
                    lemma_npatterns_view(orig@);
                }
                let mut patterns = patterns;
                let mut acc: Vec<PatternN> = Vec::new();
                let mut i: usize = 0;
                while i < patterns.len()
                    invariant
                        this == PatternN::Comp(orig, ty),
                        self == this,
                        vs == npatterns_view(orig@),
                        vs.len() == orig@.len(),
                        patterns@.len() == orig@.len(),
                        i <= patterns@.len(),
                        forall|j: int| i <= j < patterns@.len() ==> patterns@[j] == orig@[j],
                        npatterns_view(acc@) == squash_pattern_comps(vs.subrange(0, i as int)),
                    decreases patterns@.len() - i,
                {
                    let mut c = PatternN::Tensor(Vec::new());
                    std::mem::swap(&mut c, &mut patterns[i]);
                    proof {
                        assert(c == orig@[i as int]);
                        assert(decreases_to!(orig => orig[i as int]));
                        assert(decreases_to!(this => this->Comp_0));
                        assert(decreases_to!(this => c));
                        lemma_npatterns_view(orig@);
                        assert(vs.subrange(0, i + 1).subrange(0, i as int) =~= vs.subrange(0, i as int));
                    }
                    let sc = c.into_squashed();
                    let ghost before = acc@;
                    match sc {
                        PatternN::Comp(mut cs, cty) => {
                            proof {
                                lemma_npatterns_view_concat(before, cs@);
                            }
                            acc.append(&mut cs);
                        },
                        other => {
                            proof {
                                lemma_npatterns_view_concat(before, seq![other]);
                                assert(before.push(other) =~= before + seq![other]);
                                lemma_npatterns_view(seq![other]);
                                assert(npatterns_view(seq![other]) =~= seq![other@]);
                            }
                            acc.push(other);
                        },
                    }
                    i = i + 1;
                }
                proof {
                    assert(vs.subrange(0, i as int) =~= vs);
                    lemma_npatterns_view(acc@);
                }
                if acc.len() == 1 {
                    acc.pop().unwrap()
                } else {
                    PatternN::Comp(acc, ty)
                }
            },
            PatternN::Tensor(patterns) => {
                let ghost orig = patterns;
                let ghost vs = npatterns_view(patterns@);
                proof {
                    lemma_npatterns_view(orig@);
                }
                let mut patterns = patterns;
                let mut acc: Vec<PatternN> = Vec::new();
                let mut i: usize = 0;
                while i < patterns.len()
                    invariant
                        this == PatternN::Tensor(orig),
                        self == this,
                        vs == npatterns_view(orig@),
                        vs.len() == orig@.len(),
                        patterns@.len() == orig@.len(),
                        i <= patterns@.len(),
                        forall|j: int| i <= j < patterns@.len() ==> patterns@[j] == orig@[j],
                        npatterns_view(acc@) == squash_pattern_tensors(vs.subrange(0, i as int)),
                    decreases patterns@.len() - i,
                {
                    let mut c = PatternN::Ket(crate::ket::KetState::Zero);
                    std::mem::swap(&mut c, &mut patterns[i]);
                    proof {
                        assert(c == orig@[i as int]);
                        assert(decreases_to!(orig => orig[i as int]));
                        assert(decreases_to!(this => this->Tensor_0));
                        assert(decreases_to!(this => c));
                        lemma_npatterns_view(orig@);
                        assert(vs.subrange(0, i + 1).subrange(0, i as int) =~= vs.subrange(0, i as int));
                    }
                    let sc = c.into_squashed();
                    let ghost before = acc@;
                    match sc {
                        PatternN::Tensor(mut cs) => {
                            proof {
                                lemma_npatterns_view_concat(before, cs@);
                            }
                            acc.append(&mut cs);
                        },
                        other => {
                            proof {
                                lemma_npatterns_view_concat(before, seq![other]);
                                assert(before.push(other) =~= before + seq![other]);
                                lemma_npatterns_view(seq![other]);
                                assert(npatterns_view(seq![other]) =~= seq![other@]);
                            }
                            acc.push(other);
                        },
                    }
                    i = i + 1;
                }
                proof {
                    assert(vs.subrange(0, i as int) =~= vs);
                    lemma_npatterns_view(acc@);
                }
                if acc.len() == 1 {
                    acc.pop().unwrap()
                } else {
                    PatternN::Tensor(acc)
                }
            },
            PatternN::Ket(k) => PatternN::Ket(k),
            PatternN::Unitary(a) => PatternN::Unitary(Box::new((*a).into_squashed())),
        }
    }
}

/// No composition directly contains a composition, no tensor a tensor, and
/// none has exactly one part.
pub open spec fn term_squashed(t: TermNS) -> bool
    decreases t,
{
    match t {
        TermNS::Comp(ts, _) => ts.len() != 1 && forall|i: int|
            0 <= i < ts.len() ==> term_squashed(#[trigger] ts[i]) && !(ts[i] is Comp),
        TermNS::Tensor(ts) => ts.len() != 1 && forall|i: int|
            0 <= i < ts.len() ==> term_squashed(#[trigger] ts[i]) && !(ts[i] is Tensor),
        TermNS::Atom(a) => atom_squashed(a),
    }
}

/// The terms and patterns inside the atom are squashed.
pub open spec fn atom_squashed(a: AtomNS) -> bool
    decreases a,
{
    match a {
        AtomNS::Phase(_) => true,
        AtomNS::IfLet(p, t, _) => pattern_squashed(p) && term_squashed(*t),
    }
}

/// No composition directly contains a composition, no tensor a tensor, and
/// none has exactly one part.
pub open spec fn pattern_squashed(p: PatternNS) -> bool
    decreases p,
{
    match p {
        PatternNS::Comp(ps, _) => ps.len() != 1 && forall|i: int|
            0 <= i < ps.len() ==> pattern_squashed(#[trigger] ps[i]) && !(ps[i] is Comp),
        PatternNS::Tensor(ps) => ps.len() != 1 && forall|i: int|
            0 <= i < ps.len() ==> pattern_squashed(#[trigger] ps[i]) && !(ps[i] is Tensor),
        PatternNS::Ket(_) => true,
        PatternNS::Unitary(a) => atom_squashed(*a),
    }
}

proof fn lemma_squash_term_squashed(t: TermNS)
    ensures
        term_squashed(squash_term(t)),
    decreases t,
{
    match t {
        TermNS::Comp(ts, _) => {
            lemma_squash_comps_squashed(ts);
        },
        TermNS::Tensor(ts) => {
            lemma_squash_tensors_squashed(ts);
        },
        TermNS::Atom(a) => {
            lemma_squash_atom_squashed(a);
        },
    }
}

proof fn lemma_squash_atom_squashed(a: AtomNS)
    ensures
        atom_squashed(squash_atom(a)),
    decreases a,
{
    match a {
        AtomNS::Phase(_) => {},
        AtomNS::IfLet(p, t, _) => {
            lemma_squash_pattern_squashed(p);
            lemma_squash_term_squashed(*t);
        },
    }
}

proof fn lemma_squash_comps_squashed(s: Seq<TermNS>)
    ensures
        forall|i: int|
            0 <= i < squash_comps(s).len() ==> term_squashed(#[trigger] squash_comps(s)[i])
                && !(squash_comps(s)[i] is Comp),
    decreases s,
{
    if s.len() > 0 {
        let p = s.subrange(0, s.len() - 1);
        lemma_squash_comps_squashed(p);
        lemma_squash_term_squashed(s.last());
        let a = squash_comps(p);
        let b = comp_pieces(squash_term(s.last()));
        assert forall|i: int| 0 <= i < (a + b).len() implies term_squashed(#[trigger] (a + b)[i]) && !((a
            + b)[i] is Comp) by {
            if i < a.len() {
                assert((a + b)[i] == a[i]);
            } else {
                assert((a + b)[i] == b[i - a.len()]);
            }
        }
    }
}

proof fn lemma_squash_tensors_squashed(s: Seq<TermNS>)
    ensures
        forall|i: int|
            0 <= i < squash_tensors(s).len() ==> term_squashed(#[trigger] squash_tensors(s)[i])
                && !(squash_tensors(s)[i] is Tensor),
    decreases s,
{
    if s.len() > 0 {
        let p = s.subrange(0, s.len() - 1);
        lemma_squash_tensors_squashed(p);
        lemma_squash_term_squashed(s.last());
        let a = squash_tensors(p);
        let b = tensor_pieces(squash_term(s.last()));
        assert forall|i: int| 0 <= i < (a + b).len() implies term_squashed(#[trigger] (a + b)[i]) && !((a
            + b)[i] is Tensor) by {
            if i < a.len() {
                assert((a + b)[i] == a[i]);
            } else {
                assert((a + b)[i] == b[i - a.len()]);
            }
        }
    }
}

proof fn lemma_squash_pattern_squashed(p: PatternNS)
    ensures
        pattern_squashed(squash_pattern(p)),
    decreases p,
{
    match p {
        PatternNS::Comp(ps, _) => {
            lemma_squash_pattern_comps_squashed(ps);
        },
        PatternNS::Tensor(ps) => {
            lemma_squash_pattern_tensors_squashed(ps);
        },
        PatternNS::Ket(_) => {},
        PatternNS::Unitary(a) => {
            lemma_squash_atom_squashed(*a);
        },
    }
}

proof fn lemma_squash_pattern_comps_squashed(s: Seq<PatternNS>)
    ensures
        forall|i: int|
            0 <= i < squash_pattern_comps(s).len() ==> pattern_squashed(
                #[trigger] squash_pattern_comps(s)[i],
            ) && !(squash_pattern_comps(s)[i] is Comp),
    decreases s,
{
    if s.len() > 0 {
        let p = s.subrange(0, s.len() - 1);
        lemma_squash_pattern_comps_squashed(p);
        lemma_squash_pattern_squashed(s.last());
        let a = squash_pattern_comps(p);
        let b = pattern_comp_pieces(squash_pattern(s.last()));
        assert forall|i: int| 0 <= i < (a + b).len() implies pattern_squashed(#[trigger] (a + b)[i]) && !((a
            + b)[i] is Comp) by {
            if i < a.len() {
                assert((a + b)[i] == a[i]);
            } else {
                assert((a + b)[i] == b[i - a.len()]);
            }
        }
    }
}

proof fn lemma_squash_pattern_tensors_squashed(s: Seq<PatternNS>)
    ensures
        forall|i: int|
            0 <= i < squash_pattern_tensors(s).len() ==> pattern_squashed(
                #[trigger] squash_pattern_tensors(s)[i],
            ) && !(squash_pattern_tensors(s)[i] is Tensor),
    decreases s,
{
    if s.len() > 0 {
        let p = s.subrange(0, s.len() - 1);
        lemma_squash_pattern_tensors_squashed(p);
        lemma_squash_pattern_squashed(s.last());
        let a = squash_pattern_tensors(p);
        let b = pattern_tensor_pieces(squash_pattern(s.last()));
        assert forall|i: int| 0 <= i < (a + b).len() implies pattern_squashed(#[trigger] (a + b)[i]) && !((a
            + b)[i] is Tensor) by {
            if i < a.len() {
                assert((a + b)[i] == a[i]);
            } else {
                assert((a + b)[i] == b[i - a.len()]);
            }
        }
    }
}

proof fn lemma_squash_term_fixed(t: TermNS)
    requires
        term_squashed(t),
    ensures
        squash_term(t) == t,
    decreases t,
{
    match t {
        TermNS::Comp(ts, _) => {
            lemma_squash_comps_fixed(ts);
        },
        TermNS::Tensor(ts) => {
            lemma_squash_tensors_fixed(ts);
        },
        TermNS::Atom(a) => {
            lemma_squash_atom_fixed(a);
        },
    }
}

proof fn lemma_squash_atom_fixed(a: AtomNS)
    requires
        atom_squashed(a),
    ensures
        squash_atom(a) == a,
    decreases a,
{
    match a {
        AtomNS::Phase(_) => {},
        AtomNS::IfLet(p, t, _) => {
            lemma_squash_pattern_fixed(p);
            lemma_squash_term_fixed(*t);
        },
    }
}

proof fn lemma_squash_comps_fixed(s: Seq<TermNS>)
    requires
        forall|i: int| 0 <= i < s.len() ==> term_squashed(#[trigger] s[i]) && !(s[i] is Comp),
    ensures
        squash_comps(s) == s,
    decreases s,
{
    if s.len() > 0 {
        let p = s.subrange(0, s.len() - 1);
        lemma_squash_comps_fixed(p);
        lemma_squash_term_fixed(s.last());
        assert(squash_comps(s) =~= s);
    }
}

proof fn lemma_squash_tensors_fixed(s: Seq<TermNS>)
    requires
        forall|i: int| 0 <= i < s.len() ==> term_squashed(#[trigger] s[i]) && !(s[i] is Tensor),
    ensures
        squash_tensors(s) == s,
    decreases s,
{
    if s.len() > 0 {
        let p = s.subrange(0, s.len() - 1);
        lemma_squash_tensors_fixed(p);
        lemma_squash_term_fixed(s.last());
        assert(squash_tensors(s) =~= s);
    }
}

proof fn lemma_squash_pattern_fixed(p: PatternNS)
    requires
        pattern_squashed(p),
    ensures
        squash_pattern(p) == p,
    decreases p,
{
    match p {
        PatternNS::Comp(ps, _) => {
            lemma_squash_pattern_comps_fixed(ps);
        },
        PatternNS::Tensor(ps) => {
            lemma_squash_pattern_tensors_fixed(ps);
        },
        PatternNS::Ket(_) => {},
        PatternNS::Unitary(a) => {
            lemma_squash_atom_fixed(*a);
        },
    }
}

proof fn lemma_squash_pattern_comps_fixed(s: Seq<PatternNS>)
    requires
        forall|i: int| 0 <= i < s.len() ==> pattern_squashed(#[trigger] s[i]) && !(s[i] is Comp),
    ensures
        squash_pattern_comps(s) == s,
    decreases s,
{
    if s.len() > 0 {
        let p = s.subrange(0, s.len() - 1);
        lemma_squash_pattern_comps_fixed(p);
        lemma_squash_pattern_fixed(s.last());
        assert(squash_pattern_comps(s) =~= s);
    }
}

proof fn lemma_squash_pattern_tensors_fixed(s: Seq<PatternNS>)
    requires
        forall|i: int| 0 <= i < s.len() ==> pattern_squashed(#[trigger] s[i]) && !(s[i] is Tensor),
    ensures
        squash_pattern_tensors(s) == s,
    decreases s,
{
    if s.len() > 0 {
        let p = s.subrange(0, s.len() - 1);
        lemma_squash_pattern_tensors_fixed(p);
        lemma_squash_pattern_fixed(s.last());
        assert(squash_pattern_tensors(s) =~= s);
    }
}

/// Squashing is idempotent on normal-form terms: squashing a squashed term
/// changes nothing.
pub proof fn squash_term_idempotent(t: TermNS)
    ensures
        squash_term(squash_term(t)) == squash_term(t),
        term_squashed(squash_term(t)),
{
    lemma_squash_term_squashed(t);
    lemma_squash_term_fixed(squash_term(t));
}

/// Squashing is idempotent on normal-form patterns: squashing a squashed
/// pattern changes nothing.
pub proof fn squash_pattern_idempotent(p: PatternNS)
    ensures
        squash_pattern(squash_pattern(p)) == squash_pattern(p),
        pattern_squashed(squash_pattern(p)),
{
    lemma_squash_pattern_squashed(p);
    lemma_squash_pattern_fixed(squash_pattern(p));
}

/// The arity sum of `a + b` is the sum of theirs.
proof fn lemma_narity_sum_concat(a: Seq<TermNS>, b: Seq<TermNS>)
    ensures
        narity_sum(a + b) == narity_sum(a) + narity_sum(b),
    decreases b.len(),
{
    if b.len() == 0 {
        assert(a + b =~= a);
    } else {
        let b0 = b.subrange(0, b.len() - 1);
        lemma_narity_sum_concat(a, b0);
        assert((a + b).subrange(0, (a + b).len() - 1) =~= a + b0);
        assert((a + b).last() == b.last());
    }
}

/// The type sum of `a + b` is the sum of theirs.
proof fn lemma_npattern_type_sum_concat(a: Seq<PatternNS>, b: Seq<PatternNS>)
    ensures
        npattern_type_sum(a + b).0 == npattern_type_sum(a).0 + npattern_type_sum(b).0,
        npattern_type_sum(a + b).1 == npattern_type_sum(a).1 + npattern_type_sum(b).1,
    decreases b.len(),
{
    if b.len() == 0 {
        assert(a + b =~= a);
    } else {
        let b0 = b.subrange(0, b.len() - 1);
        lemma_npattern_type_sum_concat(a, b0);
        assert((a + b).subrange(0, (a + b).len() - 1) =~= a + b0);
        assert((a + b).last() == b.last());
    }
}

/// The typed parts of a composition from `a` qubits to `b` qubits, each
/// part's output being the next one's input.
pub open spec fn chain(s: Seq<PatternNS>, a: nat, b: nat) -> bool {
    &&& forall|i: int| 0 <= i < s.len() ==> (#[trigger] s[i]).typed()
    &&& forall|i: int| 0 <= i < s.len() - 1 ==> (#[trigger] s[i]).pattern_type().1 == s[i + 1].pattern_type().0
    &&& s.len() == 0 ==> a == b
    &&& s.len() > 0 ==> s[0].pattern_type().0 == a && s.last().pattern_type().1 == b
}

proof fn lemma_chain_concat(x: Seq<PatternNS>, y: Seq<PatternNS>, a: nat, m: nat, b: nat)
    requires
        chain(x, a, m),
        chain(y, m, b),
    ensures
        chain(x + y, a, b),
{
    let z = x + y;
    assert forall|i: int| 0 <= i < z.len() implies (#[trigger] z[i]).typed() by {
        if i < x.len() {
            assert(z[i] == x[i]);
        } else {
            assert(z[i] == y[i - x.len()]);
        }
    }
    assert forall|i: int| 0 <= i < z.len() - 1 implies (#[trigger] z[i]).pattern_type().1 == z[i
        + 1].pattern_type().0 by {
        if i < x.len() - 1 {
            assert(z[i] == x[i]);
            assert(z[i + 1] == x[i + 1]);
        } else if i == x.len() - 1 {
            assert(z[i] == x.last());
            assert(z[i + 1] == y[0]);
        } else {
            assert(z[i] == y[i - x.len()]);
            assert(z[i + 1] == y[i + 1 - x.len()]);
        }
    }
    if z.len() > 0 {
        if x.len() > 0 {
            assert(z[0] == x[0]);
        } else {
            assert(z[0] == y[0]);
        }
        if y.len() > 0 {
            assert(z.last() == y.last());
        } else {
            assert(z.last() == x.last());
        }
    }
}

/// Squashing keeps a typed normal-form term typed, with its arity.
pub proof fn squash_preserves_arity(t: TermNS)
    requires
        t.typed(),
    ensures
        squash_term(t).typed(),
        squash_term(t).arity() == t.arity(),
    decreases t,
{
    match t {
        TermNS::Comp(ts, ty) => {
            lemma_squash_comps_typed(ts, ty.0 as nat);
            let fl = squash_comps(ts);
            if fl.len() == 1 {
                assert(fl[0].typed() && fl[0].arity() == ty.0);
            }
        },
        TermNS::Tensor(ts) => {
            lemma_squash_tensors_typed(ts);
            let fl = squash_tensors(ts);
            if fl.len() == 1 {
                assert(narity_sum(fl) == narity_sum(fl.subrange(0, 0)) + fl[0].arity());
            }
        },
        TermNS::Atom(a) => {
            lemma_squash_atom_typed(a);
        },
    }
}

proof fn lemma_squash_atom_typed(a: AtomNS)
    requires
        a.typed(),
    ensures
        squash_atom(a).typed(),
        squash_atom(a).arity() == a.arity(),
    decreases a,
{
    match a {
        AtomNS::Phase(_) => {},
        AtomNS::IfLet(p, t, ty) => {
            squash_pattern_preserves_type(p);
            squash_preserves_arity(*t);
        },
    }
}

proof fn lemma_squash_comps_typed(s: Seq<TermNS>, n: nat)
    requires
        forall|i: int| 0 <= i < s.len() ==> (#[trigger] s[i]).typed() && s[i].arity() == n,
    ensures
        forall|j: int|
            0 <= j < squash_comps(s).len() ==> (#[trigger] squash_comps(s)[j]).typed()
                && squash_comps(s)[j].arity() == n,
    decreases s,
{
    if s.len() > 0 {
        let p = s.subrange(0, s.len() - 1);
        lemma_squash_comps_typed(p, n);
        squash_preserves_arity(s.last());
        let a = squash_comps(p);
        let b = comp_pieces(squash_term(s.last()));
        assert forall|j: int| 0 <= j < b.len() implies (#[trigger] b[j]).typed() && b[j].arity() == n by {
            if squash_term(s.last()) is Comp {
            } else {
                assert(b[j] == squash_term(s.last()));
            }
        }
        assert forall|j: int| 0 <= j < (a + b).len() implies (#[trigger] (a + b)[j]).typed() && (a
            + b)[j].arity() == n by {
            if j < a.len() {
                assert((a + b)[j] == a[j]);
            } else {
                assert((a + b)[j] == b[j - a.len()]);
            }
        }
    }
}

proof fn lemma_squash_tensors_typed(s: Seq<TermNS>)
    requires
        forall|i: int| 0 <= i < s.len() ==> (#[trigger] s[i]).typed(),
    ensures
        forall|j: int| 0 <= j < squash_tensors(s).len() ==> (#[trigger] squash_tensors(s)[j]).typed(),
        narity_sum(squash_tensors(s)) == narity_sum(s),
    decreases s,
{
    if s.len() > 0 {
        let p = s.subrange(0, s.len() - 1);
        lemma_squash_tensors_typed(p);
        squash_preserves_arity(s.last());
        let a = squash_tensors(p);
        let x = squash_term(s.last());
        let b = tensor_pieces(x);
        if x is Tensor {
        } else {
            assert(narity_sum(b) == narity_sum(b.subrange(0, 0)) + x.arity());
        }
        assert forall|j: int| 0 <= j < b.len() implies (#[trigger] b[j]).typed() by {
            if x is Tensor {
            } else {
                assert(b[j] == x);
            }
        }
        lemma_narity_sum_concat(a, b);
        assert forall|j: int| 0 <= j < (a + b).len() implies (#[trigger] (a + b)[j]).typed() by {
            if j < a.len() {
                assert((a + b)[j] == a[j]);
            } else {
                assert((a + b)[j] == b[j - a.len()]);
            }
        }
    }
}

/// Squashing keeps a typed normal-form pattern typed, with its type.
pub proof fn squash_pattern_preserves_type(p: PatternNS)
    requires
        p.typed(),
    ensures
        squash_pattern(p).typed(),
        squash_pattern(p).pattern_type() == p.pattern_type(),
    decreases p,
{
    match p {
        PatternNS::Comp(ps, ty) => {
            assert(chain(ps, ty.0 as nat, ty.1 as nat));
            lemma_squash_pattern_comps_typed(ps, ty.0 as nat, ty.1 as nat);
            let fl = squash_pattern_comps(ps);
            if fl.len() == 1 {
                assert(fl.last() == fl[0]);
            }
        },
        PatternNS::Tensor(ps) => {
            lemma_squash_pattern_tensors_typed(ps);
            let fl = squash_pattern_tensors(ps);
            if fl.len() == 1 {
                assert(npattern_type_sum(fl.subrange(0, 0)) == (0nat, 0nat));
                assert(fl.last() == fl[0]);
            }
        },
        PatternNS::Ket(_) => {},
        PatternNS::Unitary(a) => {
            lemma_squash_atom_typed(*a);
        },
    }
}

proof fn lemma_squash_pattern_comps_typed(s: Seq<PatternNS>, a: nat, b: nat)
    requires
        chain(s, a, b),
    ensures
        chain(squash_pattern_comps(s), a, b),
    decreases s,
{
    if s.len() > 0 {
        let p = s.subrange(0, s.len() - 1);
        let last = s.last();
        let m = last.pattern_type().0;
        assert(chain(p, a, m)) by {
            if p.len() > 0 {
                assert(p.last() == s[s.len() - 2]);
                assert(p[0] == s[0]);
            }
            assert forall|i: int| 0 <= i < p.len() - 1 implies (#[trigger] p[i]).pattern_type().1
                == p[i + 1].pattern_type().0 by {
                assert(p[i] == s[i]);
                assert(p[i + 1] == s[i + 1]);
            }
        }
        lemma_squash_pattern_comps_typed(p, a, m);
        squash_pattern_preserves_type(last);
        let x = squash_pattern(last);
        let pieces = pattern_comp_pieces(x);
        assert(chain(pieces, m, b)) by {
            if x is Comp {
            } else {
                assert(pieces.last() == x);
            }
        }
        lemma_chain_concat(squash_pattern_comps(p), pieces, a, m, b);
    }
}

proof fn lemma_squash_pattern_tensors_typed(s: Seq<PatternNS>)
    requires
        forall|i: int| 0 <= i < s.len() ==> (#[trigger] s[i]).typed(),
    ensures
        forall|j: int|
            0 <= j < squash_pattern_tensors(s).len() ==> (#[trigger] squash_pattern_tensors(s)[j]).typed(),
        npattern_type_sum(squash_pattern_tensors(s)) == npattern_type_sum(s),
    decreases s,
{
    if s.len() > 0 {
        let p = s.subrange(0, s.len() - 1);
        lemma_squash_pattern_tensors_typed(p);
        squash_pattern_preserves_type(s.last());
        let a = squash_pattern_tensors(p);
        let x = squash_pattern(s.last());
        let b = pattern_tensor_pieces(x);
        if x is Tensor {
        } else {
            assert(npattern_type_sum(b.subrange(0, 0)) == (0nat, 0nat));
            assert(b.last() == x);
        }
        assert forall|j: int| 0 <= j < b.len() implies (#[trigger] b[j]).typed() by {
            if x is Tensor {
            } else {
                assert(b[j] == x);
            }
        }
        lemma_npattern_type_sum_concat(a, b);
        assert forall|j: int| 0 <= j < (a + b).len() implies (#[trigger] (a + b)[j]).typed() by {
            if j < a.len() {
                assert((a + b)[j] == a[j]);
            } else {
                assert((a + b)[j] == b[j - a.len()]);
            }
        }
    }
}

/// Squashing keeps a typed, sized normal-form term sized.
pub proof fn squash_sized(t: TermNS)
    requires
        t.typed(),
        t.sized(),
    ensures
        squash_term(t).sized(),
    decreases t,
{
    match t {
        TermNS::Comp(ts, ty) => {
            lemma_squash_comps_sized(ts, ty.0 as nat);
            let fl = squash_comps(ts);
            if fl.len() == 1 {
                assert(fl[0].sized());
            } else {
                assert(TermNS::Comp(fl, ty).sized());
            }
        },
        TermNS::Tensor(ts) => {
            lemma_squash_tensors_sized(ts);
            lemma_squash_tensors_typed(ts);
            let fl = squash_tensors(ts);
            if fl.len() == 1 {
                assert(fl[0].sized());
            } else {
                assert(TermNS::Tensor(fl).sized());
            }
        },
        TermNS::Atom(a) => {
            assert(a.typed() && a.sized());
            match a {
                AtomNS::Phase(_) => {},
                AtomNS::IfLet(p, t1, ty) => {
                    assert(p.typed() && p.sized() && t1.typed() && t1.sized());
                    squash_pattern_sized(p);
                    squash_sized(*t1);
                    assert(AtomNS::IfLet(squash_pattern(p), Box::new(squash_term(*t1)), ty).sized());
                },
            }
            assert(squash_atom(a).sized());
        },
    }
}

proof fn lemma_squash_comps_sized(s: Seq<TermNS>, n: nat)
    requires
        forall|i: int| 0 <= i < s.len() ==> (#[trigger] s[i]).typed() && s[i].sized() && s[i].arity() == n,
    ensures
        forall|j: int| 0 <= j < squash_comps(s).len() ==> (#[trigger] squash_comps(s)[j]).sized(),
    decreases s,
{
    if s.len() > 0 {
        let p = s.subrange(0, s.len() - 1);
        lemma_squash_comps_sized(p, n);
        squash_sized(s.last());
        let a = squash_comps(p);
        let x = squash_term(s.last());
        let b = comp_pieces(x);
        assert forall|j: int| 0 <= j < b.len() implies (#[trigger] b[j]).sized() by {
            if x is Comp {
            } else {
                assert(b[j] == x);
            }
        }
        assert forall|j: int| 0 <= j < (a + b).len() implies (#[trigger] (a + b)[j]).sized() by {
            if j < a.len() {
                assert((a + b)[j] == a[j]);
            } else {
                assert((a + b)[j] == b[j - a.len()]);
            }
        }
    }
}

proof fn lemma_squash_tensors_sized(s: Seq<TermNS>)
    requires
        forall|i: int| 0 <= i < s.len() ==> (#[trigger] s[i]).typed() && s[i].sized(),
    ensures
        forall|j: int| 0 <= j < squash_tensors(s).len() ==> (#[trigger] squash_tensors(s)[j]).sized(),
        s.len() >= 1 ==> squash_tensors(s).len() >= 1,
    decreases s,
{
    if s.len() > 0 {
        let p = s.subrange(0, s.len() - 1);
        lemma_squash_tensors_sized(p);
        squash_sized(s.last());
        let a = squash_tensors(p);
        let x = squash_term(s.last());
        let b = tensor_pieces(x);
        assert(b.len() >= 1);
        assert forall|j: int| 0 <= j < b.len() implies (#[trigger] b[j]).sized() by {
            if x is Tensor {
            } else {
                assert(b[j] == x);
            }
        }
        assert forall|j: int| 0 <= j < (a + b).len() implies (#[trigger] (a + b)[j]).sized() by {
            if j < a.len() {
                assert((a + b)[j] == a[j]);
            } else {
                assert((a + b)[j] == b[j - a.len()]);
            }
        }
    }
}

/// Squashing keeps a typed, sized normal-form pattern sized.
pub proof fn squash_pattern_sized(p: PatternNS)
    requires
        p.typed(),
        p.sized(),
    ensures
        squash_pattern(p).sized(),
    decreases p,
{
    match p {
        PatternNS::Comp(ps, ty) => {
            lemma_squash_pattern_comps_sized(ps);
            let fl = squash_pattern_comps(ps);
            if fl.len() == 1 {
                assert(fl[0].sized());
            } else {
                assert(PatternNS::Comp(fl, ty).sized());
            }
        },
        PatternNS::Tensor(ps) => {
            lemma_squash_pattern_tensors_sized(ps);
            lemma_squash_pattern_tensors_typed(ps);
            let fl = squash_pattern_tensors(ps);
            if fl.len() == 1 {
                assert(fl[0].sized());
            } else {
                assert(PatternNS::Tensor(fl).sized());
            }
        },
        PatternNS::Ket(_) => {},
        PatternNS::Unitary(a) => {
            assert(a.typed() && a.sized());
            match *a {
                AtomNS::Phase(_) => {},
                AtomNS::IfLet(q, t1, ty) => {
                    assert(q.typed() && q.sized() && t1.typed() && t1.sized());
                    squash_pattern_sized(q);
                    squash_sized(*t1);
                    assert(AtomNS::IfLet(squash_pattern(q), Box::new(squash_term(*t1)), ty).sized());
                },
            }
            assert(squash_atom(*a).sized());
        },
    }
}

proof fn lemma_squash_pattern_comps_sized(s: Seq<PatternNS>)
    requires
        forall|i: int| 0 <= i < s.len() ==> (#[trigger] s[i]).typed() && s[i].sized(),
    ensures
        forall|j: int| 0 <= j < squash_pattern_comps(s).len() ==> (#[trigger] squash_pattern_comps(s)[j]).sized(),
    decreases s,
{
    if s.len() > 0 {
        let p = s.subrange(0, s.len() - 1);
        lemma_squash_pattern_comps_sized(p);
        squash_pattern_sized(s.last());
        let a = squash_pattern_comps(p);
        let x = squash_pattern(s.last());
        let b = pattern_comp_pieces(x);
        assert forall|j: int| 0 <= j < b.len() implies (#[trigger] b[j]).sized() by {
            if x is Comp {
            } else {
                assert(b[j] == x);
            }
        }
        assert forall|j: int| 0 <= j < (a + b).len() implies (#[trigger] (a + b)[j]).sized() by {
            if j < a.len() {
                assert((a + b)[j] == a[j]);
            } else {
                assert((a + b)[j] == b[j - a.len()]);
            }
        }
    }
}

proof fn lemma_squash_pattern_tensors_sized(s: Seq<PatternNS>)
    requires
        forall|i: int| 0 <= i < s.len() ==> (#[trigger] s[i]).typed() && s[i].sized(),
    ensures
        forall|j: int|
            0 <= j < squash_pattern_tensors(s).len() ==> (#[trigger] squash_pattern_tensors(s)[j]).sized(),
        s.len() >= 1 ==> squash_pattern_tensors(s).len() >= 1,
    decreases s,
{
    if s.len() > 0 {
        let p = s.subrange(0, s.len() - 1);
        lemma_squash_pattern_tensors_sized(p);
        squash_pattern_sized(s.last());
        let a = squash_pattern_tensors(p);
        let x = squash_pattern(s.last());
        let b = pattern_tensor_pieces(x);
        assert(b.len() >= 1);
        assert forall|j: int| 0 <= j < b.len() implies (#[trigger] b[j]).sized() by {
            if x is Tensor {
            } else {
                assert(b[j] == x);
            }
        }
        assert forall|j: int| 0 <= j < (a + b).len() implies (#[trigger] (a + b)[j]).sized() by {
            if j < a.len() {
                assert((a + b)[j] == a[j]);
            } else {
                assert((a + b)[j] == b[j - a.len()]);
            }
        }
    }
}

} // verus!
