//! Single-qubit states in ket notation, and tensor products of them.

use vstd::prelude::*;
use vstd::std_specs::iter::IteratorSpec;

verus! {

/// One of the four elementary single-qubit states.
#[derive(Clone, Copy, Debug, PartialEq, Eq, Structural)]
pub enum KetState {
    /// `|0>`
    Zero,
    /// `|1>`
    One,
    /// `|+>`
    Plus,
    /// `|->`
    Minus,
}

impl KetState {
    /// The state orthogonal to `self` within its basis.
    pub open spec fn spec_compl(self) -> KetState {
        match self {
            KetState::Zero => KetState::One,
            KetState::One => KetState::Zero,
            KetState::Plus => KetState::Minus,
            KetState::Minus => KetState::Plus,
        }
    }

    /// The character that denotes the state between `|` and `>`.
    pub open spec fn spec_char(self) -> char {
        match self {
            KetState::Zero => '0',
            KetState::One => '1',
            KetState::Plus => '+',
            KetState::Minus => '-',
        }
    }

    /// Returns the complement of the state: `state` and `state.compl()` form a basis of C^2.
    pub fn compl(self) -> (r: KetState)
        ensures
            r == self.spec_compl(),
            r.spec_compl() == self,
            r != self,
    {
        match self {
            KetState::Zero => KetState::One,
            KetState::One => KetState::Zero,
            KetState::Plus => KetState::Minus,
            KetState::Minus => KetState::Plus,
        }
    }

    /// Returns the character needed to print this ket state.
    pub fn to_char(&self) -> (r: char)
        ensures
            r == self.spec_char(),
    {
        match self {
            KetState::Zero => '0',
            KetState::One => '1',
            KetState::Plus => '+',
            KetState::Minus => '-',
        }
    }
}

/// A composite ket state `|s_1 ... s_k>`, the tensor product of its states.
#[derive(Clone, Debug)]
pub struct CompKetState(Vec<KetState>);

impl View for CompKetState {
    type V = Seq<KetState>;

    closed spec fn view(&self) -> Seq<KetState> {
        self.0@
    }
}

impl CompKetState {
    /// Get the number of qubits this state needs to be stored.
    pub fn qubits(&self) -> (r: usize)
        ensures
            r == self@.len(),
    {
        self.0.len()
    }

    /// An iterator over the individual states for each qubit.
    pub fn iter(&self) -> (r: std::slice::Iter<'_, KetState>)
        ensures
            r.remaining() == self@.as_ref(),
    {
        proof {
            broadcast use vstd::std_specs::slice::axiom_spec_slice_iter;
        }
        self.0.as_slice().iter()
    }

    /// The state of qubit `i`.
    pub fn get(&self, i: usize) -> (r: KetState)
        requires
            i < self@.len(),
        ensures
            r == self@[i as int],
    {
        self.0[i]
    }

    /// Create a new composite ket state from a `Vec` of `KetState`.
    pub fn new(states: Vec<KetState>) -> (r: CompKetState)
        ensures
            r@ == states@,
    {
        CompKetState(states)
    }

    /// Create a new composite ket state from a single `KetState`.
    pub fn single(state: KetState) -> (r: CompKetState)
        ensures
            r@ == seq![state],
    {
        let v = vec![state];
        CompKetState::new(v)
    }

    /// A copy of the composite state.
    pub fn duplicate(&self) -> (r: CompKetState)
        ensures
            r@ == self@,
            self@.len() <= usize::MAX,
    {
        let mut v: Vec<KetState> = Vec::new();
        let mut i: usize = 0;
        while i < self.0.len()
            invariant
                i <= self.0@.len(),
                v@ == self.0@.subrange(0, i as int),
            decreases self.0@.len() - i,
        {
            v.push(self.0[i]);
            i += 1;
            assert(v@ =~= self.0@.subrange(0, i as int));
        }
        assert(v@ =~= self.0@);
        CompKetState(v)
    }
}

} // verus!
