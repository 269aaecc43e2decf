//! The concrete syntax: a recursive-descent reader of programs into raw syntax.
//!
//! Positions and spans count characters. A failure is either recoverable,
//! letting an enclosing alternative or repetition try something else, or
//! committed, once a keyword has fixed what must follow.

use vstd::prelude::*;
use vstd::string::StrSliceExecFns;
use crate::command::Command;
use crate::ket::{CompKetState, KetState};
use crate::phase::{Angle, Phase};
use crate::raw_syntax::{
    atom_r_wf, pat_atom_r_wf, pat_tensor_r_wf, pattern_r_wf, tensor_r_wf, term_r_wf, AtomR, AtomRInner,
    PatAtomR, PatAtomRInner, PatTensorR, PatTensorRInner, PatternR, PatternRInner, TensorR,
    TensorRInner, TermR, TermRInner,
};
use crate::text::{Name, SourceRange, Spanned};

verus! {

broadcast use vstd::std_specs::vec::group_vec_axioms;

/// Why reading stopped, and where.
#[derive(Clone, Copy, Debug, PartialEq, Eq, Structural)]
pub enum ParseError {
    /// Nothing here fits; an enclosing alternative may try another reading.
    Backtrack(usize),
    /// A keyword fixed the reading and what follows it does not fit.
    Cut(usize),
}

/// Source text, with its characters at hand.
pub struct Source<'a> {
    text: &'a str,
    chars: Vec<char>,
}

impl<'a> View for Source<'a> {
    type V = Seq<char>;

    closed spec fn view(&self) -> Seq<char> {
        self.chars@
    }
}

/// The result of reading a `T` from position `pos`: on success, the value
/// ends at the returned position, which lies between `pos` and the end.
pub open spec fn read_ok<T>(r: Result<(T, usize), ParseError>, pos: usize, len: nat) -> bool {
    r matches Ok((_, p)) ==> pos <= p <= len
}

/// A span from `start` to `end`.
pub open spec fn range(start: usize, end: usize) -> SourceRange {
    SourceRange { start, end }
}

/// White space, as `multispace` reads it.
pub open spec fn is_space(c: char) -> bool {
    c == ' ' || c == '\t' || c == '\r' || c == '\n'
}

/// An ASCII letter or digit.
pub open spec fn is_alnum(c: char) -> bool {
    ('a' <= c && c <= 'z') || ('A' <= c && c <= 'Z') || ('0' <= c && c <= '9')
}

impl<'a> Source<'a> {
    /// The characters at hand are those of the text.
    pub closed spec fn wf(&self) -> bool {
        self.text@ == self.chars@
    }

    /// The characters of `text`.
    pub fn new(text: &'a str) -> (r: Source<'a>)
        ensures
            r@ == text@,
            r.wf(),
    {
        let n = text.unicode_len();
        let mut chars: Vec<char> = Vec::new();
        let mut i: usize = 0;
        while i < n
            invariant
                n == text@.len(),
                i <= n,
                chars@ == text@.subrange(0, i as int),
            decreases n - i,
        {
            chars.push(text.get_char(i));
            i = i + 1;
            assert(chars@ =~= text@.subrange(0, i as int));
        }
        assert(chars@ =~= text@);
        Source { text, chars }
    }

    /// The number of characters.
    pub fn len(&self) -> (r: usize)
        ensures
            r == self@.len(),
    {
        self.chars.len()
    }

    /// Whether character `c` stands at `pos`.
    pub fn at(&self, pos: usize, c: char) -> (r: bool)
        ensures
            r == (pos < self@.len() && self@[pos as int] == c),
            self@.len() <= usize::MAX,
    {
        pos < self.chars.len() && self.chars[pos] == c
    }

    /// Whether the two characters `a`, `b` stand at `pos`.
    fn at2(&self, pos: usize, a: char, b: char) -> (r: bool)
        ensures
            r ==> pos + 2 <= self@.len(),
            self@.len() <= usize::MAX,
    {
        pos < self.chars.len() && self.chars.len() - pos >= 2 && self.chars[pos] == a && self.chars[pos
            + 1] == b
    }

    /// Whether the word `w` stands at `pos`.
    fn at_word(&self, pos: usize, w: &Vec<char>) -> (r: bool)
        ensures
            r ==> pos + w@.len() <= self@.len(),
            self@.len() <= usize::MAX,
    {
        if pos > self.chars.len() || self.chars.len() - pos < w.len() {
            return false;
        }
        let mut i: usize = 0;
        while i < w.len()
            invariant
                pos + w@.len() <= self@.len(),
                self@.len() <= usize::MAX,
                i <= w@.len(),
            decreases w@.len() - i,
        {
            if self.chars[pos + i] != w[i] {
                return false;
            }
            i = i + 1;
        }
        true
    }

    /// The position after the white space at `pos`.
    fn ws(&self, pos: usize) -> (r: usize)
        requires
            pos <= self@.len(),
        ensures
            pos <= r <= self@.len(),
            self@.len() <= usize::MAX,
    {
        let mut p = pos;
        while p < self.chars.len() && (self.chars[p] == ' ' || self.chars[p] == '\t' || self.chars[p]
            == '\r' || self.chars[p] == '\n')
            invariant
                pos <= p <= self@.len(),
            decreases self@.len() - p,
        {
            p = p + 1;
        }
        p
    }

    /// The position after at least one white space character at `pos`.
    fn ws1(&self, pos: usize) -> (r: Result<usize, ParseError>)
        requires
            pos <= self@.len(),
        ensures
            r matches Ok(p) ==> pos < p <= self@.len(),
    {
        let p = self.ws(pos);
        if p == pos {
            Err(ParseError::Cut(pos))
        } else {
            Ok(p)
        }
    }

    /// The position after white space and line comments at `pos`.
    pub fn comment(&self, pos: usize) -> (r: usize)
        requires
            pos <= self@.len(),
        ensures
            pos <= r <= self@.len(),
    {
        let mut p = self.ws(pos);
        while self.at2(p, '/', '/')
            invariant
                pos <= p <= self@.len(),
            decreases self@.len() - p,
        {
            let ghost start = p;
            p = p + 2;
            while p < self.chars.len() && self.chars[p] != '\n'
                invariant
                    pos <= p <= self@.len(),
                    start < p,
                decreases self@.len() - p,
            {
                p = p + 1;
            }
            p = self.ws(p);
        }
        p
    }

    /// The identifier of ASCII letters and digits at `pos`.
    fn name(&self, pos: usize) -> (r: Result<(Name, usize), ParseError>)
        requires
            pos <= self@.len(),
            self.wf(),
        ensures
            read_ok(r, pos, self@.len()),
            r matches Ok((_, p)) ==> pos < p,
    {
        let mut p = pos;
        while p < self.chars.len() && (('a' <= self.chars[p] && self.chars[p] <= 'z') || ('A'
            <= self.chars[p] && self.chars[p] <= 'Z') || ('0' <= self.chars[p] && self.chars[p] <= '9'))
            invariant
                pos <= p <= self@.len(),
            decreases self@.len() - p,
        {
            p = p + 1;
        }
        if p == pos {
            return Err(ParseError::Backtrack(pos));
        }
        let s = self.text.substring_char(pos, p).to_owned();
        Ok((Name::new(s), p))
    }

    /// The decimal digits at `pos`, as bytes.
    fn digits(&self, pos: usize) -> (r: (Vec<u8>, usize))
        requires
            pos <= self@.len(),
        ensures
            pos <= r.1 <= self@.len(),
            self@.len() <= usize::MAX,
    {
        let mut p = pos;
        let mut out: Vec<u8> = Vec::new();
        while p < self.chars.len() && '0' <= self.chars[p] && self.chars[p] <= '9'
            invariant
                pos <= p <= self@.len(),
            decreases self@.len() - p,
        {
            let d = self.chars[p] as u32;
            out.push(d as u8);
            p = p + 1;
        }
        (out, p)
    }

    /// The decimal angle `-?digits(.digits?)?` at `pos`.
    fn angle(&self, pos: usize) -> (r: Result<(Angle, usize), ParseError>)
        requires
            pos <= self@.len(),
        ensures
            read_ok(r, pos, self@.len()),
    {
        let negative = self.at(pos, '-');
        let p = if negative {
            pos + 1
        } else {
            pos
        };
        let (int_digits, p) = self.digits(p);
        if int_digits.len() == 0 {
            return Err(ParseError::Backtrack(pos));
        }
        let (frac_digits, p) = if self.at(p, '.') {
            self.digits(p + 1)
        } else {
            (Vec::new(), p)
        };
        match Angle::from_decimal(negative, int_digits.as_slice(), frac_digits.as_slice()) {
            Some(a) => Ok((a, p)),
            None => Err(ParseError::Backtrack(pos)),
        }
    }

    /// The phase at `pos`: `-1`, `i`, `-i` or `ph(<angle>pi)`.
    fn phase(&self, pos: usize) -> (r: Result<(Phase, usize), ParseError>)
        requires
            pos <= self@.len(),
        ensures
            read_ok(r, pos, self@.len()),
            r matches Ok((_, p)) ==> pos < p,
    {
        if self.at2(pos, '-', '1') {
            return Ok((Phase::MinusOne, pos + 2));
        }
        if self.at(pos, 'i') {
            return Ok((Phase::Imag, pos + 1));
        }
        if self.at2(pos, '-', 'i') {
            return Ok((Phase::MinusImag, pos + 2));
        }
        let ph = vec!['p', 'h', '('];
        if !self.at_word(pos, &ph) {
            return Err(ParseError::Backtrack(pos));
        }
        let p = self.ws(pos + 3);
        let (a, p) = match self.angle(p) {
            Ok(x) => x,
            Err(_) => return Err(ParseError::Backtrack(pos)),
        };
        let p = self.ws(p);
        if !self.at2(p, 'p', 'i') {
            return Err(ParseError::Backtrack(pos));
        }
        let p = self.ws(p + 2);
        if !self.at(p, ')') {
            return Err(ParseError::Backtrack(pos));
        }
        Ok((Phase::Angle(a), p + 1))
    }

    /// The ket literal `|s_1 ... s_k>` at `pos`.
    fn ket(&self, pos: usize) -> (r: Result<(CompKetState, usize), ParseError>)
        requires
            pos <= self@.len(),
        ensures
            read_ok(r, pos, self@.len()),
            r matches Ok((k, _)) ==> k@.len() >= 1,
    {
        if !self.at(pos, '|') {
            return Err(ParseError::Backtrack(pos));
        }
        let mut p = pos + 1;
        let mut states: Vec<KetState> = Vec::new();
        while p < self.chars.len() && (self.chars[p] == '0' || self.chars[p] == '1' || self.chars[p]
            == '+' || self.chars[p] == '-')
            invariant
                pos < p <= self@.len(),
            decreases self@.len() - p,
        {
            let c = self.chars[p];
            let s = if c == '0' {
                KetState::Zero
            } else if c == '1' {
                KetState::One
            } else if c == '+' {
                KetState::Plus
            } else {
                KetState::Minus
            };
            states.push(s);
            p = p + 1;
        }
        if states.len() == 0 || !self.at(p, '>') {
            return Err(ParseError::Backtrack(pos));
        }
        Ok((CompKetState::new(states), p + 1))
    }
}

/// Turn a recoverable failure into a committed one.
fn cut<T>(r: Result<T, ParseError>) -> (o: Result<T, ParseError>)
    ensures
        r matches Ok(x) ==> o == Ok::<T, ParseError>(x),
        r is Err ==> o is Err,
{
    match r {
        Ok(x) => Ok(x),
        Err(ParseError::Backtrack(p)) => Err(ParseError::Cut(p)),
        Err(e) => Err(e),
    }
}

impl<'a> Source<'a> {
    /// The decimal number at `pos`, if there are digits there and their value fits.
    fn number(&self, pos: usize) -> (r: Option<(usize, usize)>)
        requires
            pos <= self@.len(),
        ensures
            r matches Some((_, p)) ==> pos < p <= self@.len(),
    {
        let mut p = pos;
        let mut v: usize = 0;
        while p < self.chars.len() && '0' <= self.chars[p] && self.chars[p] <= '9'
            invariant
                pos <= p <= self@.len(),
            decreases self@.len() - p,
        {
            let d = ((self.chars[p] as u32) - 48) as usize;
            if v > (usize::MAX - d) / 10 {
                return None;
            }
            v = v * 10 + d;
            p = p + 1;
        }
        if p == pos {
            None
        } else {
            Some((v, p))
        }
    }

    /// A raw term at `pos`: tensors composed with `;`.
    pub fn term(&self, pos: usize) -> (r: Result<(TermR<SourceRange>, usize), ParseError>)
        requires
            pos <= self@.len(),
            self.wf(),
        ensures
            read_ok(r, pos, self@.len()),
            r matches Ok((t, p)) ==> term_r_wf(t) && t.span == range(pos, p),
        decreases self@.len() - pos, 4nat,
    {
        let (first, p) = match self.tensor(pos) {
            Ok(x) => x,
            Err(e) => return Err(e),
        };
        let mut v: Vec<TensorR<SourceRange>> = Vec::new();
        v.push(first);
        let mut end = p;
        loop
            invariant
                pos <= end <= self@.len(),
                self.wf(),
                v@.len() >= 1,
                forall|j: int| 0 <= j < v@.len() ==> tensor_r_wf(#[trigger] v@[j]),
            decreases self@.len() - end,
        {
            let q = self.ws(end);
            if !self.at(q, ';') {
                break;
            }
            let q2 = self.ws(q + 1);
            match self.tensor(q2) {
                Ok((t, after)) => {
                    v.push(t);
                    end = after;
                },
                Err(ParseError::Backtrack(_)) => break,
                Err(e) => return Err(e),
            }
        }
        Ok((Spanned { inner: TermRInner { terms: v }, span: SourceRange { start: pos, end } }, end))
    }

    /// A raw tensor at `pos`: atoms tensored with `x`.
    pub fn tensor(&self, pos: usize) -> (r: Result<(TensorR<SourceRange>, usize), ParseError>)
        requires
            pos <= self@.len(),
            self.wf(),
        ensures
            read_ok(r, pos, self@.len()),
            r matches Ok((t, p)) ==> tensor_r_wf(t) && t.span == range(pos, p),
        decreases self@.len() - pos, 3nat,
    {
        let (first, p) = match self.atom(pos) {
            Ok(x) => x,
            Err(e) => return Err(e),
        };
        let mut v: Vec<AtomR<SourceRange>> = Vec::new();
        v.push(first);
        let mut end = p;
        loop
            invariant
                pos <= end <= self@.len(),
                self.wf(),
                v@.len() >= 1,
                forall|j: int| 0 <= j < v@.len() ==> atom_r_wf(#[trigger] v@[j]),
            decreases self@.len() - end,
        {
            let q = self.ws(end);
            if !self.at(q, 'x') {
                break;
            }
            let q2 = self.ws(q + 1);
            match self.atom(q2) {
                Ok((a, after)) => {
                    v.push(a);
                    end = after;
                },
                Err(ParseError::Backtrack(_)) => break,
                Err(e) => return Err(e),
            }
        }
        Ok((Spanned { inner: TensorRInner { terms: v }, span: SourceRange { start: pos, end } }, end))
    }

    /// A raw atom at `pos`, possibly followed by `^ -1`.
    pub fn atom(&self, pos: usize) -> (r: Result<(AtomR<SourceRange>, usize), ParseError>)
        requires
            pos <= self@.len(),
            self.wf(),
        ensures
            read_ok(r, pos, self@.len()),
            r matches Ok((a, p)) ==> atom_r_wf(a) && a.span == range(pos, p),
        decreases self@.len() - pos, 2nat,
    {
        let (inner, p) = match self.base(pos) {
            Ok(x) => x,
            Err(e) => return Err(e),
        };
        let q = self.ws(p);
        if self.at(q, '^') {
            let q2 = self.ws(q + 1);
            if !self.at2(q2, '-', '1') {
                return Err(ParseError::Cut(q2));
            }
            let end = q2 + 2;
            let span = SourceRange { start: pos, end };
            let ghost before = Spanned { inner, span: range(pos, p) };
            let a = Spanned { inner, span };
            assert(atom_r_wf(a) == atom_r_wf(before));
            return Ok((Spanned { inner: AtomRInner::Inverse(Box::new(a)), span }, end));
        }
        Ok((Spanned { inner, span: SourceRange { start: pos, end: p } }, p))
    }

    /// The body of a raw atom at `pos`, before any `^ -1`.
    fn base(&self, pos: usize) -> (r: Result<(AtomRInner<SourceRange>, usize), ParseError>)
        requires
            pos <= self@.len(),
            self.wf(),
        ensures
            read_ok(r, pos, self@.len()),
            r matches Ok((a, p)) ==> atom_r_wf(Spanned { inner: a, span: range(pos, p) }),
        decreases self@.len() - pos, 1nat,
    {
        if self.at(pos, '(') {
            let p = self.ws(pos + 1);
            let (t, p) = match cut(self.term(p)) {
                Ok(x) => x,
                Err(e) => return Err(e),
            };
            let p = self.ws(p);
            if !self.at(p, ')') {
                return Err(ParseError::Cut(p));
            }
            return Ok((AtomRInner::Brackets(t), p + 1));
        }
        let sqrt = vec!['s', 'q', 'r', 't'];
        if self.at_word(pos, &sqrt) {
            let p = self.ws(pos + 4);
            let (a, p) = match cut(self.atom(p)) {
                Ok(x) => x,
                Err(e) => return Err(e),
            };
            return Ok((AtomRInner::Sqrt(Box::new(a)), p));
        }
        if self.at2(pos, 'i', 'd') {
            return match self.number(pos + 2) {
                Some((n, p)) => Ok((AtomRInner::Id(n), p)),
                None => Ok((AtomRInner::Id(1), pos + 2)),
            };
        }
        if self.at2(pos, 'i', 'f') {
            return self.if_let(pos);
        }
        match self.phase(pos) {
            Ok((ph, p)) => return Ok((AtomRInner::Phase(ph), p)),
            Err(_) => {},
        }
        match self.name(pos) {
            Ok((n, p)) => Ok((AtomRInner::Gate(n), p)),
            Err(_) => Err(ParseError::Backtrack(pos)),
        }
    }

    /// The "if let pattern then tensor" at `pos`, which starts with `if`.
    fn if_let(&self, pos: usize) -> (r: Result<(AtomRInner<SourceRange>, usize), ParseError>)
        requires
            pos + 2 <= self@.len(),
            self@.len() <= usize::MAX,
            self.wf(),
        ensures
            read_ok(r, pos, self@.len()),
            r matches Ok((a, p)) ==> atom_r_wf(Spanned { inner: a, span: range(pos, p) }),
        decreases self@.len() - pos, 0nat,
    {
        let p = match self.ws1(pos + 2) {
            Ok(p) => p,
            Err(e) => return Err(e),
        };
        let let_word = vec!['l', 'e', 't'];
        if !self.at_word(p, &let_word) {
            return Err(ParseError::Cut(p));
        }
        let p = match self.ws1(p + 3) {
            Ok(p) => p,
            Err(e) => return Err(e),
        };
        let (pattern, p) = match cut(self.pattern(p)) {
            Ok(x) => x,
            Err(e) => return Err(e),
        };
        let p = match self.ws1(p) {
            Ok(p) => p,
            Err(e) => return Err(e),
        };
        let then_word = vec!['t', 'h', 'e', 'n'];
        if !self.at_word(p, &then_word) {
            return Err(ParseError::Cut(p));
        }
        let p = match self.ws1(p + 4) {
            Ok(p) => p,
            Err(e) => return Err(e),
        };
        let (inner, p) = match cut(self.tensor(p)) {
            Ok(x) => x,
            Err(e) => return Err(e),
        };
        Ok((AtomRInner::IfLet { pattern, inner: Box::new(inner) }, p))
    }

    /// A raw pattern at `pos`: pattern tensors composed with `.`.
    pub fn pattern(&self, pos: usize) -> (r: Result<(PatternR<SourceRange>, usize), ParseError>)
        requires
            pos <= self@.len(),
            self.wf(),
        ensures
            read_ok(r, pos, self@.len()),
            r matches Ok((t, p)) ==> pattern_r_wf(t) && t.span == range(pos, p),
        decreases self@.len() - pos, 7nat,
    {
        let (first, p) = match self.pat_tensor(pos) {
            Ok(x) => x,
            Err(e) => return Err(e),
        };
        let mut v: Vec<PatTensorR<SourceRange>> = Vec::new();
        v.push(first);
        let mut end = p;
        loop
            invariant
                pos <= end <= self@.len(),
                self.wf(),
                v@.len() >= 1,
                forall|j: int| 0 <= j < v@.len() ==> pat_tensor_r_wf(#[trigger] v@[j]),
            decreases self@.len() - end,
        {
            let q = self.ws(end);
            if !self.at(q, '.') {
                break;
            }
            let q2 = self.ws(q + 1);
            match self.pat_tensor(q2) {
                Ok((t, after)) => {
                    v.push(t);
                    end = after;
                },
                Err(ParseError::Backtrack(_)) => break,
                Err(e) => return Err(e),
            }
        }
        Ok((Spanned { inner: PatternRInner { patterns: v }, span: SourceRange { start: pos, end } }, end))
    }

    /// A raw pattern tensor at `pos`: pattern atoms tensored with `x`.
    pub fn pat_tensor(&self, pos: usize) -> (r: Result<(PatTensorR<SourceRange>, usize), ParseError>)
        requires
            pos <= self@.len(),
            self.wf(),
        ensures
            read_ok(r, pos, self@.len()),
            r matches Ok((t, p)) ==> pat_tensor_r_wf(t) && t.span == range(pos, p),
        decreases self@.len() - pos, 6nat,
    {
        let (first, p) = match self.pat_atom(pos) {
            Ok(x) => x,
            Err(e) => return Err(e),
        };
        let mut v: Vec<PatAtomR<SourceRange>> = Vec::new();
        v.push(first);
        let mut end = p;
        loop
            invariant
                pos <= end <= self@.len(),
                self.wf(),
                v@.len() >= 1,
                forall|j: int| 0 <= j < v@.len() ==> pat_atom_r_wf(#[trigger] v@[j]),
            decreases self@.len() - end,
        {
            let q = self.ws(end);
            if !self.at(q, 'x') {
                break;
            }
            let q2 = self.ws(q + 1);
            match self.pat_atom(q2) {
                Ok((a, after)) => {
                    v.push(a);
                    end = after;
                },
                Err(ParseError::Backtrack(_)) => break,
                Err(e) => return Err(e),
            }
        }
        Ok((Spanned { inner: PatTensorRInner { patterns: v }, span: SourceRange { start: pos, end } }, end))
    }

    /// A raw pattern atom at `pos`: a bracketed pattern, a ket, or a term.
    pub fn pat_atom(&self, pos: usize) -> (r: Result<(PatAtomR<SourceRange>, usize), ParseError>)
        requires
            pos <= self@.len(),
            self.wf(),
        ensures
            read_ok(r, pos, self@.len()),
            r matches Ok((t, p)) ==> pat_atom_r_wf(t) && t.span == range(pos, p),
        decreases self@.len() - pos, 5nat,
    {
        if self.at(pos, '(') {
            let p = self.ws(pos + 1);
            match self.pattern(p) {
                Ok((pt, after)) => {
                    let close = self.ws(after);
                    if self.at(close, ')') {
                        let span = SourceRange { start: pos, end: close + 1 };
                        return Ok((Spanned { inner: PatAtomRInner::Brackets(pt), span }, close + 1));
                    }
                },
                Err(ParseError::Cut(e)) => return Err(ParseError::Cut(e)),
                Err(_) => {},
            }
        }
        match self.ket(pos) {
            Ok((k, p)) => {
                let span = SourceRange { start: pos, end: p };
                return Ok((Spanned { inner: PatAtomRInner::Ket(k), span }, p));
            },
            Err(_) => {},
        }
        match self.term(pos) {
            Ok((t, p)) => {
                let span = SourceRange { start: pos, end: p };
                Ok((Spanned { inner: PatAtomRInner::Unitary(Box::new(t)), span }, p))
            },
            Err(e) => Err(e),
        }
    }

    /// A program: gate definitions `gate <name> = <term>,`, then the term to
    /// evaluate, with comments between them, and nothing after.
    pub fn command(&self) -> (r: Result<Command<SourceRange>, ParseError>)
        requires
            self.wf(),
        ensures
            r matches Ok(c) ==> c.wf(),
    {
        let mut p = self.comment(0);
        let mut gates: Vec<(Name, TermR<SourceRange>)> = Vec::new();
        let gate_word = vec!['g', 'a', 't', 'e'];
        while self.at_word(p, &gate_word)
            invariant
                p <= self@.len(),
                self.wf(),
                gate_word@.len() == 4,
                forall|j: int| 0 <= j < gates@.len() ==> term_r_wf(#[trigger] gates@[j].1),
            decreases self@.len() - p,
        {
            let q = match self.ws1(p + 4) {
                Ok(q) => q,
                Err(e) => return Err(e),
            };
            let (name, q) = match cut(self.name(q)) {
                Ok(x) => x,
                Err(e) => return Err(e),
            };
            let q = self.ws(q);
            if !self.at(q, '=') {
                return Err(ParseError::Cut(q));
            }
            let q = self.ws(q + 1);
            let (t, q) = match cut(self.term(q)) {
                Ok(x) => x,
                Err(e) => return Err(e),
            };
            let q = self.ws(q);
            if !self.at(q, ',') {
                return Err(ParseError::Cut(q));
            }
            gates.push((name, t));
            p = self.comment(q + 1);
        }
        let (term, p) = match self.term(p) {
            Ok(x) => x,
            Err(e) => return Err(e),
        };
        let p = self.comment(p);
        if p != self.len() {
            return Err(ParseError::Backtrack(p));
        }
        Ok(Command { gates, term })
    }
}

/// Read a program from source text.
pub fn parse_command(text: &str) -> (r: Result<Command<SourceRange>, ParseError>)
    ensures
        r matches Ok(c) ==> c.wf(),
{
    let src = Source::new(text);
    src.command()
}

} // verus!
