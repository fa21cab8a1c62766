use crate::token::{is_plain_token, same_token, token_tag, Token, Type, Value};
use vstd::prelude::*;

verus! {

/// A cursor over a token list: the tokens from position `cur` on.
#[derive(Debug, Clone)]
pub struct Sequence {
    pub tokens: Vec<Token>,
    pub cur: usize,
}

/// A parse result: the rest of the input, and what was read.
pub type SeqPack<T> = Option<(Sequence, T)>;

impl Sequence {
    /// Number of tokens left.
    pub open spec fn rest(&self) -> nat {
        if self.cur <= self.tokens@.len() {
            (self.tokens@.len() - self.cur) as nat
        } else {
            0
        }
    }

    /// The token at offset `idx` from the cursor, if there is one.
    pub open spec fn at(&self, idx: int) -> Option<Token> {
        if 0 <= idx < self.rest() {
            Some(self.tokens@[self.cur + idx])
        } else {
            None
        }
    }

    /// The token at offset `idx` has kind `tag`.
    pub open spec fn is_tok(&self, idx: int, tag: u8) -> bool {
        self.at(idx) is Some && token_tag(self.at(idx)->0) == tag
    }

    /// `r` holds the tokens of `self` from offset `off` on.
    pub open spec fn moved_on(&self, r: Sequence, off: int) -> bool {
        &&& r.rest() == self.rest() - off
        &&& forall|k: int| 0 <= k < r.rest() ==> token_tag(#[trigger] r.at(k)->0) == token_tag(self.at(k + off)->0)
    }

    /// A cursor at the start of the list.
    pub fn new(tks: Vec<Token>) -> (r: Sequence)
        ensures
            r.tokens == tks,
            r.cur == 0,
            r.rest() == tks@.len(),
    {
        Sequence { tokens: tks, cur: 0 }
    }

    /// The token at offset `idx` from the cursor.
    pub fn get(&self, idx: usize) -> (r: Option<Token>)
        ensures
            r is Some <==> self.at(idx as int) is Some,
            r is Some ==> token_tag(r->0) == token_tag(self.at(idx as int)->0),
            r is Some && is_plain_token(self.at(idx as int)->0) ==> same_token(r->0, self.at(idx as int)->0),
    {
        if self.cur > self.tokens.len() || idx >= self.tokens.len() - self.cur {
            None
        } else {
            Some(self.tokens[self.cur + idx].clone())
        }
    }

    /// Tells whether the token at offset `idx` is `t`.
    pub fn is_at(&self, idx: usize, t: &Token) -> (r: bool)
        ensures
            r == (self.at(idx as int) is Some && same_token(self.at(idx as int)->0, *t)),
    {
        if self.cur > self.tokens.len() || idx >= self.tokens.len() - self.cur {
            false
        } else {
            self.tokens[self.cur + idx].equals(t)
        }
    }

    /// The cursor moved `off` tokens on, stopping at the end.
    pub fn advance(&self, off: usize) -> (r: Sequence)
        ensures
            r.rest() == if off <= self.rest() { self.rest() - off } else { 0 },
            forall|k: int| 0 <= k < r.rest() ==> token_tag(#[trigger] r.at(k)->0) == token_tag(self.at(k + off)->0),
    {
        let n = self.tokens.len();
        let cur = if self.cur > n || off > n - self.cur {
            n
        } else {
            self.cur + off
        };
        let tokens = self.tokens.clone();
        proof {
            assert forall|i: int| 0 <= i < tokens@.len() implies token_tag(#[trigger] tokens@[i]) == token_tag(self.tokens@[i]) by {
                assert(cloned::<Token>(self.tokens@[i], tokens@[i]));
            }
        }
        Sequence { tokens, cur }
    }

    /// Number of tokens left.
    pub fn len(&self) -> (r: usize)
        ensures
            r == self.rest(),
    {
        if self.cur > self.tokens.len() {
            0
        } else {
            self.tokens.len() - self.cur
        }
    }

    /// Tells whether no token is left.
    pub fn empty(&self) -> (r: bool)
        ensures
            r == (self.rest() == 0),
    {
        self.len() == 0
    }

    /// Reads the token `t`.
    pub fn eat(&self, t: Token) -> (r: SeqPack<Token>)
        ensures
            r is Some <==> (self.at(0) is Some && same_token(self.at(0)->0, t)),
            r is Some ==> (r->0).0.rest() == self.rest() - 1 && (r->0).1 == t,
            r is Some ==> self.moved_on((r->0).0, 1),
    {
        if self.is_at(0, &t) {
            Some((self.advance(1), t))
        } else {
            None
        }
    }

    /// Reads the tokens `tks`, in order.
    pub fn eats(&self, tks: &Vec<Token>) -> (r: SeqPack<()>)
        ensures
            r is Some ==> (r->0).0.rest() == self.rest() - tks@.len(),
            r is Some ==> self.rest() >= tks@.len(),
            tks@.len() == 0 ==> r is Some,
            tks@.len() >= 1 && !(self.at(0) is Some && same_token(self.at(0)->0, tks@[0])) ==> r is None,
            tks@.len() == 1 && self.at(0) is Some && same_token(self.at(0)->0, tks@[0]) ==> r is Some,
    {
        if tks.len() == 0 {
            return Some((self.advance(0), ()));
        }
        if !self.is_at(0, &tks[0]) {
            return None;
        }
        let mut seq = self.advance(1);
        let mut i: usize = 1;
        while i < tks.len()
            invariant
                1 <= i <= tks@.len(),
                seq.rest() + i == self.rest(),
            decreases tks@.len() - i,
        {
            if !seq.is_at(0, &tks[i]) {
                return None;
            }
            seq = seq.advance(1);
            i = i + 1;
        }
        Some((seq, ()))
    }

    /// Reads a literal value.
    pub fn eat_value(&self) -> (r: SeqPack<Value>)
        ensures
            r is Some <==> (self.at(0) is Some && self.at(0)->0 is Value),
            r is Some ==> (r->0).0.rest() == self.rest() - 1
                && Token::Value((r->0).1) == self.at(0)->0,
            r is Some ==> self.moved_on((r->0).0, 1),
    {
        if self.cur < self.tokens.len() {
            if let Token::Value(v) = &self.tokens[self.cur] {
                return Some((self.advance(1), *v));
            }
        }
        None
    }

    /// Reads a type.
    pub fn eat_type(&self) -> (r: SeqPack<Type>)
        ensures
            r is Some <==> (self.at(0) is Some && self.at(0)->0 is Type),
            r is Some ==> (r->0).0.rest() == self.rest() - 1,
            r is Some ==> self.moved_on((r->0).0, 1),
    {
        if self.cur < self.tokens.len() {
            if let Token::Type(t) = &self.tokens[self.cur] {
                return Some((self.advance(1), t.duplicate()));
            }
        }
        None
    }

    /// Reads a name.
    pub fn eat_name(&self) -> (r: SeqPack<String>)
        ensures
            r is Some <==> (self.at(0) is Some && self.at(0)->0 is Name),
            r is Some ==> (r->0).0.rest() == self.rest() - 1
                && (r->0).1@ == (self.at(0)->0)->Name_0@,
            r is Some ==> self.moved_on((r->0).0, 1),
    {
        if self.cur < self.tokens.len() {
            if let Token::Name(s) = &self.tokens[self.cur] {
                return Some((self.advance(1), s.clone()));
            }
        }
        None
    }

    /// Reads the first of `tks` that comes next.
    pub fn swtich_eat(&self, tks: &Vec<Token>) -> (r: SeqPack<Token>)
        ensures
            r is Some ==> (r->0).0.rest() == self.rest() - 1,
            r is Some ==> self.rest() >= 1,
            r is None ==> forall|i: int| 0 <= i < tks@.len() ==>
                !(self.at(0) is Some && same_token(self.at(0)->0, #[trigger] tks@[i])),
    {
        let mut i: usize = 0;
        while i < tks.len()
            invariant
                0 <= i <= tks@.len(),
                forall|j: int| 0 <= j < i ==>
                    !(self.at(0) is Some && same_token(self.at(0)->0, #[trigger] tks@[j])),
            decreases tks@.len() - i,
        {
            if self.is_at(0, &tks[i]) {
                return Some((self.advance(1), tks[i].clone()));
            }
            i = i + 1;
        }
        None
    }
}

} // verus!
