//! Programs: a sequence of gate definitions followed by a term to evaluate.

use vstd::prelude::*;
use crate::circuit_syntax::{circ_term, clauses_view, TermC};
use crate::eval::{eval_term, normal_form_well_typed};
use crate::ket::KetState;
use crate::normal_syntax::{quote_term, TermN};
use crate::phase::PhaseMul;
use crate::raw_syntax::{term_r_wf, TermR};
use crate::squash::squash_term;
use crate::text::{Name, Span};
use crate::typecheck::{spec_check_term, term_result_is, Env, TypeCheckError};
use crate::typed_syntax::{TermS, TermT};

verus! {

/// The Command structure: a runnable program.
#[derive(Debug)]
pub struct Command<S> {
    /// List of gates to define, with the name to bind them to.
    pub gates: Vec<(Name, TermR<S>)>,
    /// Final term to evaluate.
    pub term: TermR<S>,
}

/// What running a program yields.
#[derive(Debug)]
pub struct Outcome {
    /// The typed term.
    pub typed: TermT,
    /// Its squashed normal form.
    pub normal: TermN,
    /// The normal form, quoted back into a typed term.
    pub quoted: TermT,
    /// The circuit-normal form of the quoted term.
    pub circuit: TermC,
}

/// The environment built by checking the gates `gs` in order,
/// each in the environment of those before it, or the first error.
pub open spec fn spec_check_gates<S>(gs: Seq<(Name, TermR<S>)>) -> Result<
    Seq<(Seq<char>, TermS)>,
    TypeCheckError<S>,
>
    decreases gs.len(),
{
    if gs.len() == 0 {
        Ok(Seq::empty())
    } else {
        match spec_check_gates(gs.drop_last()) {
            Err(e) => Err(e),
            Ok(env) => match spec_check_term(gs.last().1, env, None) {
                Err(e) => Err(e),
                Ok(t) => Ok(env.push((gs.last().0@, t))),
            },
        }
    }
}

/// The result of checking program `c`: the environment of its gates and its
/// typed term, or the first error.
pub open spec fn spec_check_command<S>(c: Command<S>) -> Result<
    (Seq<(Seq<char>, TermS)>, TermS),
    TypeCheckError<S>,
>
{
    match spec_check_gates(c.gates@) {
        Err(e) => Err(e),
        Ok(env) => match spec_check_term(c.term, env, None) {
            Err(e) => Err(e),
            Ok(t) => Ok((env, t)),
        },
    }
}

/// Once a prefix of the gates fails to check, all of them fail the same way.
proof fn lemma_check_gates_err<S>(gs: Seq<(Name, TermR<S>)>, k: int)
    requires
        0 <= k <= gs.len(),
        spec_check_gates(gs.subrange(0, k)) is Err,
    ensures
        spec_check_gates(gs) == spec_check_gates(gs.subrange(0, k)),
    decreases gs.len() - k,
{
    if k < gs.len() {
        assert(gs.subrange(0, k + 1).drop_last() =~= gs.subrange(0, k));
        lemma_check_gates_err(gs, k + 1);
    } else {
        assert(gs.subrange(0, k) =~= gs);
    }
}

impl<S: Span> Command<S> {
    /// Every composition and tensor in the program has at least one part.
    pub open spec fn wf(&self) -> bool {
        &&& term_r_wf(self.term)
        &&& forall|i: int| 0 <= i < self.gates@.len() ==> term_r_wf(#[trigger] self.gates@[i].1)
    }

    /// Check the program, then evaluate its term to a squashed normal form,
    /// quote that back, and extract the circuit-normal form of the quotation.
    pub fn run(&self) -> (r: Result<Outcome, TypeCheckError<S>>)
        requires
            self.wf(),
        ensures
            match (r, spec_check_command(*self)) {
                (Ok(o), Ok((_, st))) => {
                    &&& o.typed@ == st
                    &&& o.normal@ == squash_term(eval_term(st, PhaseMul::spec_one()))
                    &&& o.quoted@ == quote_term(o.normal@)
                    &&& o.quoted@.wf()
                    &&& o.quoted@.arity() == st.arity()
                    &&& o.circuit.ty.0 == st.arity()
                    &&& clauses_view(o.circuit.clauses@) == circ_term(
                        o.quoted@,
                        Seq::new(st.arity(), |i: int| None::<KetState>),
                        Seq::new(st.arity(), |i: int| i as usize),
                        PhaseMul::spec_one(),
                    )
                },
                (Err(e), Err(f)) => e == f,
                _ => false,
            },
    {
        let (_env, typed) = match self.check() {
            Ok(x) => x,
            Err(e) => return Err(e),
        };
        let mut normal = typed.eval();
        normal.squash();
        let quoted = normal.quote();
        proof {
            normal_form_well_typed(typed@);
        }
        let circuit = quoted.eval_circ();
        Ok(Outcome { typed, normal, quoted, circuit })
    }

    /// Whether every composition and tensor in the program has at least one part.
    pub fn is_wf(&self) -> (r: bool)
        ensures
            r == self.wf(),
    {
        let mut i: usize = 0;
        while i < self.gates.len()
            invariant
                i <= self.gates@.len(),
                forall|j: int| 0 <= j < i ==> term_r_wf(#[trigger] self.gates@[j].1),
            decreases self.gates@.len() - i,
        {
            if !self.gates[i].1.is_wf() {
                return false;
            }
            i = i + 1;
        }
        self.term.is_wf()
    }

    /// Typecheck a command, building an `Env` with gate definitions.
    pub fn check(&self) -> (r: Result<(Env, TermT), TypeCheckError<S>>)
        requires
            self.wf(),
        ensures
            match (r, spec_check_command(*self)) {
                (Ok((env, t)), Ok((se, st))) => env@ == se && t@ == st && st.wf() && env.wf(),
                (Err(e), Err(f)) => e == f,
                _ => false,
            },
    {
        let ghost gs = self.gates@;
        let mut env = Env::new();
        let mut i: usize = 0;
        assert(gs.subrange(0, 0) =~= Seq::<(Name, TermR<S>)>::empty());
        while i < self.gates.len()
            invariant
                self.wf(),
                gs == self.gates@,
                i <= gs.len(),
                env.wf(),
                spec_check_gates(gs.subrange(0, i as int)) == Ok::<
                    Seq<(Seq<char>, TermS)>,
                    TypeCheckError<S>,
                >(env@),
            decreases gs.len() - i,
        {
            proof {
                assert(gs.subrange(0, i + 1).drop_last() =~= gs.subrange(0, i as int));
                assert(gs.subrange(0, i + 1).last() == gs[i as int]);
                assert(term_r_wf(gs[i as int].1));
            }
            let t = match self.gates[i].1.check(&env, None) {
                Ok(t) => t,
                Err(e) => {
                    proof {
                        lemma_check_gates_err(gs, i + 1);
                    }
                    return Err(e);
                },
            };
            let name = self.gates[i].0.duplicate();
            env.insert(name, t);
            i = i + 1;
        }
        proof {
            assert(gs.subrange(0, i as int) =~= gs);
        }
        let tm = match self.term.check(&env, None) {
            Ok(t) => t,
            Err(e) => return Err(e),
        };
        Ok((env, tm))
    }
}

} // verus!
