//! Type checking: lifting raw syntax to typed syntax, enforcing the arity
//! rules and the restriction on square roots.

use vstd::prelude::*;
use crate::raw_syntax::{
    atom_r_wf, pat_atom_r_wf, pat_tensor_r_wf, pattern_r_wf, tensor_r_wf, term_r_wf, AtomR, AtomRInner,
    PatAtomR, PatAtomRInner, PatTensorR, PatternR, TensorR, TermR,
};
use crate::text::{Name, Span};
use crate::typed_syntax::{
    arity_sum, lemma_arity_sum_prefix, lemma_pattern_type_sum_prefix, lemma_patterns_view,
    lemma_terms_view, pattern_type_sum, patterns_view, terms_view, PatternS, PatternT, PatternType,
    TermS, TermT, TermType,
};

verus! {

broadcast use {vstd::std_specs::vec::group_vec_axioms, lemma_terms_view, lemma_patterns_view};

/// Errors that can occur during typechecking. Each names the spans of the
/// offending syntax.
#[derive(Debug)]
pub enum TypeCheckError<S> {
    /// Error for mismatching type between terms in a composition.
    TypeMismatch {
        /// Span of term 1
        t1: S,
        /// Type of term 1
        ty1: TermType,
        /// Span of term 2
        t2: S,
        /// Type of term 2
        ty2: TermType,
    },
    /// Error for mismatching type between a term and pattern in an "if let" statement.
    IfTypeMismatch {
        /// Span of the pattern
        p: S,
        /// Type of pattern
        pty: PatternType,
        /// Span of the body term
        t: S,
        /// Type of body term
        tty: TermType,
    },
    /// Error for mismatching type between composed patterns.
    PatternTypeMismatch {
        /// Span of pattern 1
        p1: S,
        /// Type of pattern 1
        ty1: PatternType,
        /// Span of pattern 2
        p2: S,
        /// Type of pattern 2
        ty2: PatternType,
    },
    /// Error for an unknown top-level symbol.
    UnknownSymbol {
        /// The unknown symbol encountered
        name: Name,
        /// Span of symbol
        span: S,
    },
    /// Error for when a sqrt operation is applied to a term with compositions.
    TermNotRootable {
        /// Span of the term which contains compositions
        tm: S,
        /// Span of sqrt term causing error
        span_of_root: S,
    },
    /// Error for a tensor whose number of qubits does not fit in a `usize`.
    ArityOverflow {
        /// Span of the tensor
        span: S,
    },
}

/// Typing environment, holding definitions of top level symbols.
#[derive(Debug)]
pub struct Env {
    defs: Vec<(Name, TermT)>,
}

impl View for Env {
    type V = Seq<(Seq<char>, TermS)>;

    /// The definitions, in the order they were added.
    closed spec fn view(&self) -> Seq<(Seq<char>, TermS)> {
        self.defs@.map_values(|d: (Name, TermT)| (d.0@, d.1@))
    }
}

/// The latest definition of `n` in `e`.
pub open spec fn env_lookup(e: Seq<(Seq<char>, TermS)>, n: Seq<char>) -> Option<TermS>
    decreases e.len(),
{
    if e.len() == 0 {
        None
    } else if e.last().0 == n {
        Some(e.last().1)
    } else {
        env_lookup(e.drop_last(), n)
    }
}

impl Env {
    /// Every definition is well typed.
    pub open spec fn wf(&self) -> bool {
        forall|i: int| 0 <= i < self@.len() ==> (#[trigger] self@[i]).1.wf()
    }

    /// An environment without definitions.
    pub fn new() -> (r: Env)
        ensures
            r@ == Seq::<(Seq<char>, TermS)>::empty(),
            r.wf(),
    {
        let r = Env { defs: Vec::new() };
        assert(r@ =~= Seq::<(Seq<char>, TermS)>::empty());
        r
    }

    /// Bind `name` to `def`, shadowing any earlier definition of it.
    pub fn insert(&mut self, name: Name, def: TermT)
        requires
            old(self).wf(),
            def@.wf(),
        ensures
            final(self)@ == old(self)@.push((name@, def@)),
            final(self).wf(),
    {
        let ghost pair = (name@, def@);
        self.defs.push((name, def));
        assert(self@ =~= old(self)@.push(pair));
    }

    /// The latest definition of `name`.
    pub fn get(&self, name: &Name) -> (r: Option<&TermT>)
        ensures
            match r {
                Some(t) => env_lookup(self@, name@) == Some(t@),
                None => env_lookup(self@, name@) is None,
            },
    {
        let mut i: usize = self.defs.len();
        assert(self@.subrange(0, i as int) =~= self@);
        while i > 0
            invariant
                i <= self.defs@.len(),
                env_lookup(self@, name@) == env_lookup(self@.subrange(0, i as int), name@),
            decreases i,
        {
            let ghost sub = self@.subrange(0, i as int);
            assert(sub.drop_last() =~= self@.subrange(0, i - 1));
            if self.defs[i - 1].0.same(name) {
                return Some(&self.defs[i - 1].1);
            }
            i = i - 1;
        }
        None
    }
}

/// `r` is the typed term that `s` describes, or the error that it names.
pub open spec fn term_result_is<S>(
    r: Result<TermT, TypeCheckError<S>>,
    s: Result<TermS, TypeCheckError<S>>,
) -> bool {
    match (r, s) {
        (Ok(t), Ok(u)) => t@ == u && u.wf(),
        (Err(e), Err(f)) => e == f,
        _ => false,
    }
}

/// `r` is the typed pattern that `s` describes, or the error that it names.
pub open spec fn pattern_result_is<S>(
    r: Result<PatternT, TypeCheckError<S>>,
    s: Result<PatternS, TypeCheckError<S>>,
) -> bool {
    match (r, s) {
        (Ok(t), Ok(u)) => t@ == u && u.wf(),
        (Err(e), Err(f)) => e == f,
        _ => false,
    }
}

/// The type of a typed term, as a `TermType`.
pub open spec fn term_type(t: TermS) -> TermType {
    TermType(t.arity() as usize)
}

/// The type of a typed pattern, as a `PatternType`.
pub open spec fn pattern_type(p: PatternS) -> PatternType {
    PatternType(p.pattern_type().0 as usize, p.pattern_type().1 as usize)
}

/// The result of checking raw term `r` in environment `env`; `sq` is the span
/// of the enclosing square root, if any.
pub open spec fn spec_check_term<S>(r: TermR<S>, env: Seq<(Seq<char>, TermS)>, sq: Option<S>) -> Result<
    TermS,
    TypeCheckError<S>,
>
    decreases r,
{
    if sq is Some && r.inner.terms@.len() != 1 {
        Err(TypeCheckError::TermNotRootable { tm: r.span, span_of_root: sq->0 })
    } else {
        match spec_check_comp(r.inner.terms@, env, sq) {
            Ok(ts) => Ok(TermS::Comp(ts)),
            Err(e) => Err(e),
        }
    }
}

/// The result of checking the parts of a composition, left to right: each
/// part must have the type of the first.
pub open spec fn spec_check_comp<S>(
    s: Seq<TensorR<S>>,
    env: Seq<(Seq<char>, TermS)>,
    sq: Option<S>,
) -> Result<Seq<TermS>, TypeCheckError<S>>
    decreases s,
{
    if s.len() == 0 {
        Ok(Seq::empty())
    } else {
        match spec_check_comp(s.subrange(0, s.len() - 1), env, sq) {
            Err(e) => Err(e),
            Ok(prev) => match spec_check_tensor(s.last(), env, sq) {
                Err(e) => Err(e),
                Ok(t) => if prev.len() > 0 && t.arity() != prev[0].arity() {
                    Err(
                        TypeCheckError::TypeMismatch {
                            t1: s[s.len() - 2].span,
                            ty1: term_type(prev[0]),
                            t2: s.last().span,
                            ty2: term_type(t),
                        },
                    )
                } else {
                    Ok(prev.push(t))
                },
            },
        }
    }
}

/// The result of checking raw tensor `r`.
pub open spec fn spec_check_tensor<S>(r: TensorR<S>, env: Seq<(Seq<char>, TermS)>, sq: Option<S>) -> Result<
    TermS,
    TypeCheckError<S>,
>
    decreases r,
{
    match spec_check_atoms(r.inner.terms@, env, sq) {
        Err(e) => Err(e),
        Ok(ts) => if arity_sum(ts) > usize::MAX {
            Err(TypeCheckError::ArityOverflow { span: r.span })
        } else {
            Ok(TermS::Tensor(ts))
        },
    }
}

/// The result of checking the parts of a tensor, left to right.
pub open spec fn spec_check_atoms<S>(
    s: Seq<AtomR<S>>,
    env: Seq<(Seq<char>, TermS)>,
    sq: Option<S>,
) -> Result<Seq<TermS>, TypeCheckError<S>>
    decreases s,
{
    if s.len() == 0 {
        Ok(Seq::empty())
    } else {
        match spec_check_atoms(s.subrange(0, s.len() - 1), env, sq) {
            Err(e) => Err(e),
            Ok(prev) => match spec_check_atom(s.last(), env, sq) {
                Err(e) => Err(e),
                Ok(t) => Ok(prev.push(t)),
            },
        }
    }
}

/// The result of checking raw atom `r`. A square root inside a square root
/// keeps the outer one's span.
pub open spec fn spec_check_atom<S>(r: AtomR<S>, env: Seq<(Seq<char>, TermS)>, sq: Option<S>) -> Result<
    TermS,
    TypeCheckError<S>,
>
    decreases r,
{
    match r.inner {
        AtomRInner::Brackets(t) => spec_check_term(t, env, sq),
        AtomRInner::Id(n) => Ok(TermS::Id(n as nat)),
        AtomRInner::Phase(p) => Ok(TermS::Phase(p)),
        AtomRInner::IfLet { pattern, inner } => match spec_check_pattern(pattern, env) {
            Err(e) => Err(e),
            Ok(p) => match spec_check_tensor(*inner, env, sq) {
                Err(e) => Err(e),
                Ok(t) => if p.pattern_type().1 != t.arity() {
                    Err(
                        TypeCheckError::IfTypeMismatch {
                            p: pattern.span,
                            pty: pattern_type(p),
                            t: inner.span,
                            tty: term_type(t),
                        },
                    )
                } else {
                    Ok(TermS::IfLet(p, Box::new(t)))
                },
            },
        },
        AtomRInner::Gate(name) => match env_lookup(env, name@) {
            Some(d) => Ok(TermS::Gate(name@, Box::new(d))),
            None => Err(TypeCheckError::UnknownSymbol { name, span: r.span }),
        },
        AtomRInner::Inverse(a) => match spec_check_atom(*a, env, sq) {
            Err(e) => Err(e),
            Ok(t) => Ok(TermS::Inverse(Box::new(t))),
        },
        AtomRInner::Sqrt(a) => match spec_check_atom(
            *a,
            env,
            if sq is Some {
                sq
            } else {
                Some(r.span)
            },
        ) {
            Err(e) => Err(e),
            Ok(t) => Ok(TermS::Sqrt(Box::new(t))),
        },
    }
}

/// The result of checking raw pattern `r`.
pub open spec fn spec_check_pattern<S>(r: PatternR<S>, env: Seq<(Seq<char>, TermS)>) -> Result<
    PatternS,
    TypeCheckError<S>,
>
    decreases r,
{
    match spec_check_pat_comp(r.inner.patterns@, env) {
        Ok(ps) => Ok(PatternS::Comp(ps)),
        Err(e) => Err(e),
    }
}

/// The result of checking the parts of a pattern composition, left to right:
/// the output of each part must be the input of the next.
pub open spec fn spec_check_pat_comp<S>(s: Seq<PatTensorR<S>>, env: Seq<(Seq<char>, TermS)>) -> Result<
    Seq<PatternS>,
    TypeCheckError<S>,
>
    decreases s,
{
    if s.len() == 0 {
        Ok(Seq::empty())
    } else {
        match spec_check_pat_comp(s.subrange(0, s.len() - 1), env) {
            Err(e) => Err(e),
            Ok(prev) => match spec_check_pat_tensor(s.last(), env) {
                Err(e) => Err(e),
                Ok(p) => if prev.len() > 0 && prev.last().pattern_type().1 != p.pattern_type().0 {
                    Err(
                        TypeCheckError::PatternTypeMismatch {
                            p1: s[s.len() - 2].span,
                            ty1: pattern_type(prev.last()),
                            p2: s.last().span,
                            ty2: pattern_type(p),
                        },
                    )
                } else {
                    Ok(prev.push(p))
                },
            },
        }
    }
}

/// The result of checking raw pattern tensor `r`.
pub open spec fn spec_check_pat_tensor<S>(r: PatTensorR<S>, env: Seq<(Seq<char>, TermS)>) -> Result<
    PatternS,
    TypeCheckError<S>,
>
    decreases r,
{
    match spec_check_pat_atoms(r.inner.patterns@, env) {
        Err(e) => Err(e),
        Ok(ps) => if pattern_type_sum(ps).0 > usize::MAX || pattern_type_sum(ps).1 > usize::MAX {
            Err(TypeCheckError::ArityOverflow { span: r.span })
        } else {
            Ok(PatternS::Tensor(ps))
        },
    }
}

/// The result of checking the parts of a pattern tensor, left to right.
pub open spec fn spec_check_pat_atoms<S>(s: Seq<PatAtomR<S>>, env: Seq<(Seq<char>, TermS)>) -> Result<
    Seq<PatternS>,
    TypeCheckError<S>,
>
    decreases s,
{
    if s.len() == 0 {
        Ok(Seq::empty())
    } else {
        match spec_check_pat_atoms(s.subrange(0, s.len() - 1), env) {
            Err(e) => Err(e),
            Ok(prev) => match spec_check_pat_atom(s.last(), env) {
                Err(e) => Err(e),
                Ok(p) => Ok(prev.push(p)),
            },
        }
    }
}

/// The result of checking raw pattern atom `r`.
pub open spec fn spec_check_pat_atom<S>(r: PatAtomR<S>, env: Seq<(Seq<char>, TermS)>) -> Result<
    PatternS,
    TypeCheckError<S>,
>
    decreases r,
{
    match r.inner {
        PatAtomRInner::Brackets(p) => spec_check_pattern(p, env),
        PatAtomRInner::Ket(k) => Ok(PatternS::Ket(k@)),
        PatAtomRInner::Unitary(t) => match spec_check_term(*t, env, None) {
            Err(e) => Err(e),
            Ok(u) => Ok(PatternS::Unitary(Box::new(u))),
        },
    }
}

/// Once a prefix of a composition fails to check, the whole fails the same way.
proof fn lemma_check_comp_err<S>(s: Seq<TensorR<S>>, env: Seq<(Seq<char>, TermS)>, sq: Option<S>, k: int)
    requires
        0 <= k <= s.len(),
        spec_check_comp(s.subrange(0, k), env, sq) is Err,
    ensures
        spec_check_comp(s, env, sq) == spec_check_comp(s.subrange(0, k), env, sq),
    decreases s.len() - k,
{
    if k < s.len() {
        assert(s.subrange(0, k + 1).subrange(0, k) =~= s.subrange(0, k));
        lemma_check_comp_err(s, env, sq, k + 1);
    } else {
        assert(s.subrange(0, k) =~= s);
    }
}

/// Once a prefix of a tensor fails to check, the whole fails the same way.
proof fn lemma_check_atoms_err<S>(s: Seq<AtomR<S>>, env: Seq<(Seq<char>, TermS)>, sq: Option<S>, k: int)
    requires
        0 <= k <= s.len(),
        spec_check_atoms(s.subrange(0, k), env, sq) is Err,
    ensures
        spec_check_atoms(s, env, sq) == spec_check_atoms(s.subrange(0, k), env, sq),
    decreases s.len() - k,
{
    if k < s.len() {
        assert(s.subrange(0, k + 1).subrange(0, k) =~= s.subrange(0, k));
        lemma_check_atoms_err(s, env, sq, k + 1);
    } else {
        assert(s.subrange(0, k) =~= s);
    }
}

/// Once a prefix of a pattern composition fails to check, the whole fails the same way.
proof fn lemma_check_pat_comp_err<S>(s: Seq<PatTensorR<S>>, env: Seq<(Seq<char>, TermS)>, k: int)
    requires
        0 <= k <= s.len(),
        spec_check_pat_comp(s.subrange(0, k), env) is Err,
    ensures
        spec_check_pat_comp(s, env) == spec_check_pat_comp(s.subrange(0, k), env),
    decreases s.len() - k,
{
    if k < s.len() {
        assert(s.subrange(0, k + 1).subrange(0, k) =~= s.subrange(0, k));
        lemma_check_pat_comp_err(s, env, k + 1);
    } else {
        assert(s.subrange(0, k) =~= s);
    }
}

/// Once a prefix of a pattern tensor fails to check, the whole fails the same way.
proof fn lemma_check_pat_atoms_err<S>(s: Seq<PatAtomR<S>>, env: Seq<(Seq<char>, TermS)>, k: int)
    requires
        0 <= k <= s.len(),
        spec_check_pat_atoms(s.subrange(0, k), env) is Err,
    ensures
        spec_check_pat_atoms(s, env) == spec_check_pat_atoms(s.subrange(0, k), env),
    decreases s.len() - k,
{
    if k < s.len() {
        assert(s.subrange(0, k + 1).subrange(0, k) =~= s.subrange(0, k));
        lemma_check_pat_atoms_err(s, env, k + 1);
    } else {
        assert(s.subrange(0, k) =~= s);
    }
}

/// A definition found in an environment of well-typed definitions is well typed.
proof fn lemma_env_lookup_wf(e: Seq<(Seq<char>, TermS)>, n: Seq<char>)
    requires
        forall|i: int| 0 <= i < e.len() ==> (#[trigger] e[i]).1.wf(),
    ensures
        env_lookup(e, n) matches Some(d) ==> d.wf(),
    decreases e.len(),
{
    if e.len() > 0 && e.last().0 != n {
        assert forall|i: int| 0 <= i < e.drop_last().len() implies (#[trigger] e.drop_last()[i]).1.wf() by {
            assert(e.drop_last()[i] == e[i]);
        }
        lemma_env_lookup_wf(e.drop_last(), n);
    }
}

/// The values of `v` with `t` pushed are those of `v` with the value of `t` pushed.
proof fn lemma_terms_view_push(v: Seq<TermT>, t: TermT)
    ensures
        terms_view(v.push(t)) == terms_view(v).push(t@),
{
    assert(v.push(t).subrange(0, v.len() as int) =~= v);
}

/// The values of `v` with `p` pushed are those of `v` with the value of `p` pushed.
proof fn lemma_patterns_view_push(v: Seq<PatternT>, p: PatternT)
    ensures
        patterns_view(v.push(p)) == patterns_view(v).push(p@),
{
    assert(v.push(p).subrange(0, v.len() as int) =~= v);
}

impl<S: Span> TermR<S> {
    /// Typecheck a raw term in the given environment.
    /// If `check_sqrt` is not `None`, the term stands under the square root with
    /// that span, and must be "composition free".
    pub fn check(&self, env: &Env, check_sqrt: Option<S>) -> (r: Result<TermT, TypeCheckError<S>>)
        requires
            term_r_wf(*self),
            env.wf(),
        ensures
            term_result_is(r, spec_check_term(*self, env@, check_sqrt)),
        decreases self,
    {
        match check_sqrt {
            Some(span) => {
                if self.inner.terms.len() != 1 {
                    return Err(TypeCheckError::TermNotRootable { tm: self.span, span_of_root: span });
                }
            },
            None => {},
        }
        let ghost raws = self.inner.terms@;
        let mut v: Vec<TermT> = Vec::new();
        let mut first_ty = TermType(0);
        let mut i: usize = 0;
        assert(raws.subrange(0, 0) =~= Seq::<TensorR<S>>::empty());
        while i < self.inner.terms.len()
            invariant
                term_r_wf(*self),
                env.wf(),
                raws == self.inner.terms@,
                !(check_sqrt is Some && raws.len() != 1),
                i <= raws.len(),
                spec_check_comp(raws.subrange(0, i as int), env@, check_sqrt) == Ok::<
                    Seq<TermS>,
                    TypeCheckError<S>,
                >(terms_view(v@)),
                v@.len() == i,
                forall|j: int|
                    0 <= j < i ==> (#[trigger] v@[j])@.wf() && v@[j]@.arity() == v@[0]@.arity(),
                i > 0 ==> first_ty.0 == v@[0]@.arity(),
            decreases raws.len() - i,
        {
            proof {
                assert(decreases_to!(*self => (*self).inner));
                assert(decreases_to!((*self).inner => (*self).inner.terms));
                assert(decreases_to!((*self).inner.terms => (*self).inner.terms[i as int]));
                assert(raws.subrange(0, i + 1).subrange(0, i as int) =~= raws.subrange(0, i as int));
                assert(tensor_r_wf(raws[i as int]));
                assert(raws.subrange(0, i + 1).last() == raws[i as int]);
            }
            let t = match self.inner.terms[i].check(env, check_sqrt) {
                Ok(t) => t,
                Err(e) => {
                    proof {
                        lemma_check_comp_err(raws, env@, check_sqrt, i + 1);
                    }
                    return Err(e);
                },
            };
            let ty2 = t.get_type();
            if i > 0 && first_ty.0 != ty2.0 {
                proof {
                    let sub = raws.subrange(0, i + 1);
                    assert(sub.subrange(0, i as int) =~= raws.subrange(0, i as int));
                    lemma_terms_view(v@);
                    assert(terms_view(v@)[0] == v@[0]@);
                    assert(spec_check_tensor(sub.last(), env@, check_sqrt) == Ok::<
                        TermS,
                        TypeCheckError<S>,
                    >(t@));
                    assert(spec_check_comp(sub, env@, check_sqrt) is Err);
                    lemma_check_comp_err(raws, env@, check_sqrt, i + 1);
                }
                return Err(
                    TypeCheckError::TypeMismatch {
                        t1: self.inner.terms[i - 1].span,
                        ty1: first_ty,
                        t2: self.inner.terms[i].span,
                        ty2,
                    },
                );
            }
            if i == 0 {
                first_ty = ty2;
            }
            proof {
                lemma_terms_view_push(v@, t);
            }
            v.push(t);
            i = i + 1;
        }
        proof {
            assert(raws.subrange(0, i as int) =~= raws);
            let vs = terms_view(v@);
            assert forall|j: int| 0 <= j < vs.len() implies (#[trigger] vs[j]).wf() && vs[j].arity()
                == vs[0].arity() by {
                assert(vs[j] == v@[j]@);
                assert(vs[0] == v@[0]@);
            }
        }
        Ok(TermT::Comp(v))
    }
}

impl<S: Span> TensorR<S> {
    /// Typecheck a raw tensor in the given environment.
    pub fn check(&self, env: &Env, check_sqrt: Option<S>) -> (r: Result<TermT, TypeCheckError<S>>)
        requires
            tensor_r_wf(*self),
            env.wf(),
        ensures
            term_result_is(r, spec_check_tensor(*self, env@, check_sqrt)),
        decreases self,
    {
        let ghost raws = self.inner.terms@;
        let mut v: Vec<TermT> = Vec::new();
        let mut i: usize = 0;
        assert(raws.subrange(0, 0) =~= Seq::<AtomR<S>>::empty());
        while i < self.inner.terms.len()
            invariant
                tensor_r_wf(*self),
                env.wf(),
                raws == self.inner.terms@,
                i <= raws.len(),
                spec_check_atoms(raws.subrange(0, i as int), env@, check_sqrt) == Ok::<
                    Seq<TermS>,
                    TypeCheckError<S>,
                >(terms_view(v@)),
                v@.len() == i,
                forall|j: int| 0 <= j < i ==> (#[trigger] v@[j])@.wf(),
            decreases raws.len() - i,
        {
            proof {
                assert(decreases_to!(*self => (*self).inner));
                assert(decreases_to!((*self).inner => (*self).inner.terms));
                assert(decreases_to!((*self).inner.terms => (*self).inner.terms[i as int]));
                assert(raws.subrange(0, i + 1).subrange(0, i as int) =~= raws.subrange(0, i as int));
                assert(atom_r_wf(raws[i as int]));
                assert(raws.subrange(0, i + 1).last() == raws[i as int]);
            }
            let t = match self.inner.terms[i].check(env, check_sqrt) {
                Ok(t) => t,
                Err(e) => {
                    proof {
                        lemma_check_atoms_err(raws, env@, check_sqrt, i + 1);
                    }
                    return Err(e);
                },
            };
            proof {
                lemma_terms_view_push(v@, t);
            }
            v.push(t);
            i = i + 1;
        }
        proof {
            assert(raws.subrange(0, i as int) =~= raws);
        }
        let ghost vs = terms_view(v@);
        let mut total: usize = 0;
        let mut j: usize = 0;
        while j < v.len()
            invariant
                tensor_r_wf(*self),
                raws == self.inner.terms@,
                spec_check_atoms(raws, env@, check_sqrt) == Ok::<Seq<TermS>, TypeCheckError<S>>(vs),
                vs == terms_view(v@),
                vs.len() == v@.len(),
                forall|k: int| 0 <= k < v@.len() ==> (#[trigger] v@[k])@.wf(),
                j <= v@.len(),
                total == arity_sum(vs.subrange(0, j as int)),
            decreases v@.len() - j,
        {
            proof {
                lemma_arity_sum_prefix(vs, j as int);
                assert(vs[j as int] == v@[j as int]@);
            }
            let a = v[j].get_type().0;
            if total > usize::MAX - a {
                proof {
                    lemma_arity_sum_prefix(vs, j as int + 1);
                }
                return Err(TypeCheckError::ArityOverflow { span: self.span });
            }
            total = total + a;
            j = j + 1;
        }
        proof {
            assert(vs.subrange(0, j as int) =~= vs);
            assert forall|k: int| 0 <= k < vs.len() implies (#[trigger] vs[k]).wf() by {
                assert(vs[k] == v@[k]@);
            }
        }
        Ok(TermT::Tensor(v))
    }
}

impl<S: Span> AtomR<S> {
    /// Typecheck a raw atom in the given environment.
    pub fn check(&self, env: &Env, check_sqrt: Option<S>) -> (r: Result<TermT, TypeCheckError<S>>)
        requires
            atom_r_wf(*self),
            env.wf(),
        ensures
            term_result_is(r, spec_check_atom(*self, env@, check_sqrt)),
        decreases self,
    {
        proof {
            assert(decreases_to!(*self => (*self).inner));
        }
        match &self.inner {
            AtomRInner::Brackets(term) => term.check(env, check_sqrt),
            AtomRInner::Id(qubits) => Ok(TermT::Id(TermType(*qubits))),
            AtomRInner::Phase(phase) => Ok(TermT::Phase(*phase)),
            AtomRInner::IfLet { pattern, inner } => {
                let p = match pattern.check(env) {
                    Ok(p) => p,
                    Err(e) => return Err(e),
                };
                let t = match inner.check(env, check_sqrt) {
                    Ok(t) => t,
                    Err(e) => return Err(e),
                };
                let pty = p.get_type();
                let tty = t.get_type();
                if pty.1 != tty.0 {
                    Err(TypeCheckError::IfTypeMismatch { p: pattern.span, pty, t: inner.span, tty })
                } else {
                    Ok(TermT::IfLet { pattern: p, inner: Box::new(t) })
                }
            },
            AtomRInner::Gate(name) => {
                match env.get(name) {
                    Some(def) => {
                        proof {
                            lemma_env_lookup_wf(env@, name@);
                        }
                        Ok(TermT::Gate { name: name.duplicate(), def: Box::new(def.duplicate()) })
                    },
                    None => Err(TypeCheckError::UnknownSymbol { name: name.duplicate(), span: self.span }),
                }
            },
            AtomRInner::Inverse(inner) => {
                let inner_t = match inner.check(env, check_sqrt) {
                    Ok(t) => t,
                    Err(e) => return Err(e),
                };
                Ok(TermT::Inverse(Box::new(inner_t)))
            },
            AtomRInner::Sqrt(inner) => {
                let sq = match check_sqrt {
                    Some(s) => Some(s),
                    None => Some(self.span),
                };
                let inner_t = match inner.check(env, sq) {
                    Ok(t) => t,
                    Err(e) => return Err(e),
                };
                Ok(TermT::Sqrt(Box::new(inner_t)))
            },
        }
    }
}

impl<S: Span> PatternR<S> {
    /// Typecheck a raw pattern in the given environment.
    pub fn check(&self, env: &Env) -> (r: Result<PatternT, TypeCheckError<S>>)
        requires
            pattern_r_wf(*self),
            env.wf(),
        ensures
            pattern_result_is(r, spec_check_pattern(*self, env@)),
        decreases self,
    {
        let ghost raws = self.inner.patterns@;
        let mut v: Vec<PatternT> = Vec::new();
        let mut last_ty = PatternType(0, 0);
        let mut i: usize = 0;
        assert(raws.subrange(0, 0) =~= Seq::<PatTensorR<S>>::empty());
        while i < self.inner.patterns.len()
            invariant
                pattern_r_wf(*self),
                env.wf(),
                raws == self.inner.patterns@,
                i <= raws.len(),
                spec_check_pat_comp(raws.subrange(0, i as int), env@) == Ok::<
                    Seq<PatternS>,
                    TypeCheckError<S>,
                >(patterns_view(v@)),
                v@.len() == i,
                forall|j: int|
                    0 <= j < i ==> (#[trigger] v@[j])@.wf() && (j + 1 < i ==> v@[j]@.pattern_type().1
                        == v@[j + 1]@.pattern_type().0),
                i > 0 ==> last_ty.0 == v@[i - 1]@.pattern_type().0 && last_ty.1 == v@[i
                    - 1]@.pattern_type().1,
            decreases raws.len() - i,
        {
            proof {
                assert(decreases_to!(*self => (*self).inner));
                assert(decreases_to!((*self).inner => (*self).inner.patterns));
                assert(decreases_to!((*self).inner.patterns => (*self).inner.patterns[i as int]));
                assert(raws.subrange(0, i + 1).subrange(0, i as int) =~= raws.subrange(0, i as int));
                assert(pat_tensor_r_wf(raws[i as int]));
                assert(raws.subrange(0, i + 1).last() == raws[i as int]);
            }
            let p = match self.inner.patterns[i].check(env) {
                Ok(p) => p,
                Err(e) => {
                    proof {
                        lemma_check_pat_comp_err(raws, env@, i + 1);
                    }
                    return Err(e);
                },
            };
            let ty2 = p.get_type();
            if i > 0 && last_ty.1 != ty2.0 {
                proof {
                    lemma_check_pat_comp_err(raws, env@, i + 1);
                }
                return Err(
                    TypeCheckError::PatternTypeMismatch {
                        p1: self.inner.patterns[i - 1].span,
                        ty1: last_ty,
                        p2: self.inner.patterns[i].span,
                        ty2,
                    },
                );
            }
            last_ty = ty2;
            proof {
                lemma_patterns_view_push(v@, p);
            }
            v.push(p);
            i = i + 1;
        }
        proof {
            assert(raws.subrange(0, i as int) =~= raws);
            let vs = patterns_view(v@);
            assert forall|j: int| 0 <= j < vs.len() implies (#[trigger] vs[j]).wf() && (j + 1 < vs.len()
                ==> vs[j].pattern_type().1 == vs[j + 1].pattern_type().0) by {
                assert(vs[j] == v@[j]@);
                if j + 1 < vs.len() {
                    assert(vs[j + 1] == v@[j + 1]@);
                }
            }
        }
        Ok(PatternT::Comp(v))
    }
}

impl<S: Span> PatTensorR<S> {
    /// Typecheck a raw pattern tensor in the given environment.
    pub fn check(&self, env: &Env) -> (r: Result<PatternT, TypeCheckError<S>>)
        requires
            pat_tensor_r_wf(*self),
            env.wf(),
        ensures
            pattern_result_is(r, spec_check_pat_tensor(*self, env@)),
        decreases self,
    {
        let ghost raws = self.inner.patterns@;
        let mut v: Vec<PatternT> = Vec::new();
        let mut i: usize = 0;
        assert(raws.subrange(0, 0) =~= Seq::<PatAtomR<S>>::empty());
        while i < self.inner.patterns.len()
            invariant
                pat_tensor_r_wf(*self),
                env.wf(),
                raws == self.inner.patterns@,
                i <= raws.len(),
                spec_check_pat_atoms(raws.subrange(0, i as int), env@) == Ok::<
                    Seq<PatternS>,
                    TypeCheckError<S>,
                >(patterns_view(v@)),
                v@.len() == i,
                forall|j: int| 0 <= j < i ==> (#[trigger] v@[j])@.wf(),
            decreases raws.len() - i,
        {
            proof {
                assert(decreases_to!(*self => (*self).inner));
                assert(decreases_to!((*self).inner => (*self).inner.patterns));
                assert(decreases_to!((*self).inner.patterns => (*self).inner.patterns[i as int]));
                assert(raws.subrange(0, i + 1).subrange(0, i as int) =~= raws.subrange(0, i as int));
                assert(pat_atom_r_wf(raws[i as int]));
                assert(raws.subrange(0, i + 1).last() == raws[i as int]);
            }
            let p = match self.inner.patterns[i].check(env) {
                Ok(p) => p,
                Err(e) => {
                    proof {
                        lemma_check_pat_atoms_err(raws, env@, i + 1);
                    }
                    return Err(e);
                },
            };
            proof {
                lemma_patterns_view_push(v@, p);
            }
            v.push(p);
            i = i + 1;
        }
        proof {
            assert(raws.subrange(0, i as int) =~= raws);
        }
        let ghost vs = patterns_view(v@);
        let mut m: usize = 0;
        let mut n: usize = 0;
        let mut j: usize = 0;
        while j < v.len()
            invariant
                pat_tensor_r_wf(*self),
                raws == self.inner.patterns@,
                spec_check_pat_atoms(raws, env@) == Ok::<Seq<PatternS>, TypeCheckError<S>>(vs),
                vs == patterns_view(v@),
                vs.len() == v@.len(),
                forall|k: int| 0 <= k < v@.len() ==> (#[trigger] v@[k])@.wf(),
                j <= v@.len(),
                m == pattern_type_sum(vs.subrange(0, j as int)).0,
                n == pattern_type_sum(vs.subrange(0, j as int)).1,
            decreases v@.len() - j,
        {
            proof {
                lemma_pattern_type_sum_prefix(vs, j as int);
                lemma_pattern_type_sum_prefix(vs, j as int + 1);
                assert(vs[j as int] == v@[j as int]@);
            }
            let ty = v[j].get_type();
            if m > usize::MAX - ty.0 || n > usize::MAX - ty.1 {
                proof {
                    lemma_pattern_type_sum_prefix(vs, j as int + 1);
                }
                return Err(TypeCheckError::ArityOverflow { span: self.span });
            }
            m = m + ty.0;
            n = n + ty.1;
            j = j + 1;
        }
        proof {
            assert(vs.subrange(0, j as int) =~= vs);
            assert forall|k: int| 0 <= k < vs.len() implies (#[trigger] vs[k]).wf() by {
                assert(vs[k] == v@[k]@);
            }
        }
        Ok(PatternT::Tensor(v))
    }
}

impl<S: Span> PatAtomR<S> {
    /// Typecheck a raw pattern atom in the given environment.
    pub fn check(&self, env: &Env) -> (r: Result<PatternT, TypeCheckError<S>>)
        requires
            pat_atom_r_wf(*self),
            env.wf(),
        ensures
            pattern_result_is(r, spec_check_pat_atom(*self, env@)),
        decreases self,
    {
        proof {
            assert(decreases_to!(*self => (*self).inner));
        }
        match &self.inner {
            PatAtomRInner::Brackets(pattern) => pattern.check(env),
            PatAtomRInner::Ket(states) => Ok(PatternT::Ket(states.duplicate())),
            PatAtomRInner::Unitary(inner) => {
                let t = match inner.check(env, None) {
                    Ok(t) => t,
                    Err(e) => return Err(e),
                };
                Ok(PatternT::Unitary(Box::new(t)))
            },
        }
    }
}

/// A square root applied directly to a bracketed composition of two or more
/// terms is rejected as not rootable. The error names the span of that square
/// root, or, inside another square root, the span of the outer one.
pub proof fn sqrt_of_composition_rejected<S>(
    r: AtomR<S>,
    env: Seq<(Seq<char>, TermS)>,
    sq: Option<S>,
)
    requires
        r.inner is Sqrt,
        r.inner->Sqrt_0.inner is Brackets,
        r.inner->Sqrt_0.inner->Brackets_0.inner.terms@.len() >= 2,
    ensures
        spec_check_atom(r, env, sq) == Err::<TermS, TypeCheckError<S>>(
            TypeCheckError::TermNotRootable {
                tm: r.inner->Sqrt_0.inner->Brackets_0.span,
                span_of_root: if sq is Some {
                    sq->0
                } else {
                    r.span
                },
            },
        ),
{
    let a = *r.inner->Sqrt_0;
    let t = a.inner->Brackets_0;
    let sq2 = if sq is Some {
        sq
    } else {
        Some(r.span)
    };
    assert(spec_check_term(t, env, sq2) == Err::<TermS, TypeCheckError<S>>(
        TypeCheckError::TermNotRootable { tm: t.span, span_of_root: sq2->0 },
    ));
    assert(spec_check_atom(a, env, sq2) == spec_check_term(t, env, sq2));
}

} // verus!
