use vstd::prelude::*;
use vstd::std_specs::iter::IteratorSpec;

verus! {

/// A literal value of the language.
#[derive(Debug, PartialEq, Clone, Copy)]
pub enum Value {
    Int(i32),
}

/// A type of the language: scalars, and function signatures (parameter
/// types followed by the return type).
#[derive(Debug, PartialEq)]
pub enum Type {
    Void,
    Int,
    Func(Vec<Type>),
}

/// Equality of scalar types; a function type is never a scalar.
pub open spec fn same_scalar(a: Type, b: Type) -> bool {
    (a is Void && b is Void) || (a is Int && b is Int)
}

/// Element `i` of two type lists is the same scalar type.
pub open spec fn same_type_at(x: Seq<Type>, y: Seq<Type>, i: int) -> bool {
    0 <= i < x.len() && i < y.len() && same_scalar(x[i], y[i])
}

/// Structural equality of types. A function type lists scalar types: the
/// types of its parameters, then its return type.
pub open spec fn same_type(a: Type, b: Type) -> bool {
    match (a, b) {
        (Type::Func(x), Type::Func(y)) => {
            &&& x@.len() == y@.len()
            &&& forall|i: int|
                0 <= i < x@.len() ==> #[trigger] same_type_at(x@, y@, i)
        },
        _ => same_scalar(a, b),
    }
}

pub open spec fn is_scalar(t: Type) -> bool {
    !(t is Func)
}

/// A type whose every part is a scalar: a scalar, or a function type over scalars.
pub open spec fn is_plain(t: Type) -> bool {
    t is Func ==> forall|i: int| 0 <= i < t->Func_0@.len() ==> is_scalar(#[trigger] t->Func_0@[i])
}

impl Type {
    /// Compares two types structurally.
    pub fn equals(&self, o: &Type) -> (r: bool)
        ensures
            r == same_type(*self, *o),
    {
        match (self, o) {
            (Type::Void, Type::Void) => true,
            (Type::Int, Type::Int) => true,
            (Type::Func(x), Type::Func(y)) => {
                if x.len() != y.len() {
                    return false;
                }
                let mut i: usize = 0;
                while i < x.len()
                    invariant
                        *self == Type::Func(*x),
                        *o == Type::Func(*y),
                        x@.len() == y@.len(),
                        0 <= i <= x@.len(),
                        forall|j: int| 0 <= j < i ==> #[trigger] same_type_at(x@, y@, j),
                    decreases x@.len() - i,
                {
                    if !x[i].is_same_scalar(&y[i]) {
                        assert(!same_type_at(x@, y@, i as int));
                        return false;
                    }
                    i = i + 1;
                }
                true
            },
            _ => false,
        }
    }

    /// Compares two types as scalars: a function type equals nothing.
    pub fn is_same_scalar(&self, o: &Type) -> (r: bool)
        ensures
            r == same_scalar(*self, *o),
    {
        match (self, o) {
            (Type::Void, Type::Void) => true,
            (Type::Int, Type::Int) => true,
            _ => false,
        }
    }

    /// Copies a scalar type; a function type found inside a function type
    /// becomes `void`.
    pub fn scalar_copy(&self) -> (r: Type)
        ensures
            !(*self is Func) ==> same_scalar(r, *self),
            !(r is Func),
    {
        match self {
            Type::Int => Type::Int,
            _ => Type::Void,
        }
    }

    /// Makes an independent copy of the type.
    pub fn duplicate(&self) -> (r: Type)
        ensures
            is_plain(*self) ==> same_type(r, *self),
            is_plain(r),
    {
        match self {
            Type::Void => Type::Void,
            Type::Int => Type::Int,
            Type::Func(x) => {
                let mut v: Vec<Type> = Vec::new();
                let mut i: usize = 0;
                while i < x.len()
                    invariant
                        *self == Type::Func(*x),
                        0 <= i <= x@.len(),
                        v@.len() == i,
                        is_plain(*self) ==> forall|j: int| 0 <= j < i ==> #[trigger] same_type_at(v@, x@, j),
                        forall|j: int| 0 <= j < i ==> !(#[trigger] v@[j] is Func),
                    decreases x@.len() - i,
                {
                    let t = x[i].scalar_copy();
                    let ghost prev = v@;
                    v.push(t);
                    proof {
                        if is_plain(*self) {
                            assert(self->Func_0 == *x);
                            assert(is_scalar(self->Func_0@[i as int]));
                            assert(same_type_at(v@, x@, i as int));
                            assert forall|j: int| 0 <= j < i + 1 implies #[trigger] same_type_at(v@, x@, j) by {
                                if j < i {
                                    assert(same_type_at(prev, x@, j));
                                    assert(prev[j] == v@[j]);
                                }
                            }
                        }
                    }
                    i = i + 1;
                }
                Type::Func(v)
            },
        }
    }
}

impl Clone for Type {
    fn clone(&self) -> (r: Type)
        ensures
            is_plain(*self) ==> same_type(r, *self),
    {
        self.duplicate()
    }
}

/// Number of memory words that a value of a scalar type occupies.
pub open spec fn type_size(ty: Type) -> nat {
    1
}

/// Every scalar type occupies one memory word.
pub fn get_type_size(ty: &Type) -> (r: usize)
    ensures
        r == type_size(*ty),
{
    1
}

/// The type of a literal value.
pub fn get_value_type(v: Value) -> (r: Type)
    ensures
        r == Type::Int,
{
    match v {
        Value::Int(_) => Type::Int,
    }
}

/// A lexical token.
#[derive(Debug, PartialEq)]
pub enum Token {
    Add,
    Minus,
    Multiply,
    Divide,
    Modulo,
    Eq,
    Semicolon,
    LParen,
    RParen,
    LBracket,
    RBracket,
    LBrace,
    RBrace,
    Comma,
    Or,
    And,
    Not,
    Less,
    Greater,
    If,
    Else,
    While,
    Return,
    Continue,
    Break,
    Type(Type),
    Value(Value),
    Name(String),
}

/// Two tokens are the same: same kind, and the same name, type or value.
pub open spec fn same_token(a: Token, b: Token) -> bool {
    match (a, b) {
        (Token::Name(x), Token::Name(y)) => x@ == y@,
        (Token::Type(x), Token::Type(y)) => same_type(x, y),
        (Token::Value(x), Token::Value(y)) => x == y,
        (Token::Name(_), _) | (Token::Type(_), _) | (Token::Value(_), _) => false,
        (_, Token::Name(_)) | (_, Token::Type(_)) | (_, Token::Value(_)) => false,
        _ => token_tag(a) == token_tag(b),
    }
}

/// The kind of a token, as a number.
pub open spec fn token_tag(t: Token) -> u8 {
    match t {
        Token::Add => 0,
        Token::Minus => 1,
        Token::Multiply => 2,
        Token::Divide => 3,
        Token::Modulo => 4,
        Token::Eq => 5,
        Token::Semicolon => 6,
        Token::LParen => 7,
        Token::RParen => 8,
        Token::LBracket => 9,
        Token::RBracket => 10,
        Token::LBrace => 11,
        Token::RBrace => 12,
        Token::Comma => 13,
        Token::Or => 14,
        Token::And => 15,
        Token::Not => 16,
        Token::Less => 17,
        Token::Greater => 18,
        Token::If => 19,
        Token::Else => 20,
        Token::While => 21,
        Token::Return => 22,
        Token::Continue => 23,
        Token::Break => 24,
        Token::Type(_) => 25,
        Token::Value(_) => 26,
        Token::Name(_) => 27,
    }
}

impl Token {
    /// The kind of the token, as a number.
    pub fn tag(&self) -> (r: u8)
        ensures
            r == token_tag(*self),
    {
        match self {
            Token::Add => 0,
            Token::Minus => 1,
            Token::Multiply => 2,
            Token::Divide => 3,
            Token::Modulo => 4,
            Token::Eq => 5,
            Token::Semicolon => 6,
            Token::LParen => 7,
            Token::RParen => 8,
            Token::LBracket => 9,
            Token::RBracket => 10,
            Token::LBrace => 11,
            Token::RBrace => 12,
            Token::Comma => 13,
            Token::Or => 14,
            Token::And => 15,
            Token::Not => 16,
            Token::Less => 17,
            Token::Greater => 18,
            Token::If => 19,
            Token::Else => 20,
            Token::While => 21,
            Token::Return => 22,
            Token::Continue => 23,
            Token::Break => 24,
            Token::Type(_) => 25,
            Token::Value(_) => 26,
            Token::Name(_) => 27,
        }
    }

    /// Compares two tokens.
    pub fn equals(&self, o: &Token) -> (r: bool)
        ensures
            r == same_token(*self, *o),
    {
        match (self, o) {
            (Token::Name(x), Token::Name(y)) => *x == *y,
            (Token::Type(x), Token::Type(y)) => x.equals(y),
            (Token::Value(x), Token::Value(y)) => {
                let Value::Int(a) = *x;
                let Value::Int(b) = *y;
                a == b
            },
            (Token::Name(_), _) | (Token::Type(_), _) | (Token::Value(_), _) => false,
            (_, Token::Name(_)) | (_, Token::Type(_)) | (_, Token::Value(_)) => false,
            _ => self.tag() == o.tag(),
        }
    }
}

impl Clone for Token {
    fn clone(&self) -> (r: Token)
        ensures
            token_tag(r) == token_tag(*self),
            is_plain_token(*self) ==> same_token(r, *self),
    {
        match self {
            Token::Add => Token::Add,
            Token::Minus => Token::Minus,
            Token::Multiply => Token::Multiply,
            Token::Divide => Token::Divide,
            Token::Modulo => Token::Modulo,
            Token::Eq => Token::Eq,
            Token::Semicolon => Token::Semicolon,
            Token::LParen => Token::LParen,
            Token::RParen => Token::RParen,
            Token::LBracket => Token::LBracket,
            Token::RBracket => Token::RBracket,
            Token::LBrace => Token::LBrace,
            Token::RBrace => Token::RBrace,
            Token::Comma => Token::Comma,
            Token::Or => Token::Or,
            Token::And => Token::And,
            Token::Not => Token::Not,
            Token::Less => Token::Less,
            Token::Greater => Token::Greater,
            Token::If => Token::If,
            Token::Else => Token::Else,
            Token::While => Token::While,
            Token::Return => Token::Return,
            Token::Continue => Token::Continue,
            Token::Break => Token::Break,
            Token::Type(t) => Token::Type(t.duplicate()),
            Token::Value(v) => Token::Value(*v),
            Token::Name(n) => Token::Name(n.clone()),
        }
    }
}

/// A token whose type, if it carries one, is plain.
pub open spec fn is_plain_token(t: Token) -> bool {
    t is Type ==> is_plain(t->Type_0)
}

/// The token that a single reserved character stands for.
pub open spec fn char_token(c: char) -> Option<Token> {
    if c == '+' { Some(Token::Add) }
    else if c == '-' { Some(Token::Minus) }
    else if c == '*' { Some(Token::Multiply) }
    else if c == '/' { Some(Token::Divide) }
    else if c == '%' { Some(Token::Modulo) }
    else if c == '=' { Some(Token::Eq) }
    else if c == '[' { Some(Token::LBracket) }
    else if c == ']' { Some(Token::RBracket) }
    else if c == '(' { Some(Token::LParen) }
    else if c == ')' { Some(Token::RParen) }
    else if c == '{' { Some(Token::LBrace) }
    else if c == '}' { Some(Token::RBrace) }
    else if c == ';' { Some(Token::Semicolon) }
    else if c == ',' { Some(Token::Comma) }
    else if c == '&' { Some(Token::And) }
    else if c == '|' { Some(Token::Or) }
    else if c == '!' { Some(Token::Not) }
    else if c == '<' { Some(Token::Less) }
    else if c == '>' { Some(Token::Greater) }
    else { None }
}

/// Maps a reserved single character to its token.
pub fn get_token_from_char(ch: char) -> (r: Option<Token>)
    ensures
        r == char_token(ch),
{
    match ch {
        '+' => Some(Token::Add),
        '-' => Some(Token::Minus),
        '*' => Some(Token::Multiply),
        '/' => Some(Token::Divide),
        '%' => Some(Token::Modulo),
        '=' => Some(Token::Eq),
        '[' => Some(Token::LBracket),
        ']' => Some(Token::RBracket),
        '(' => Some(Token::LParen),
        ')' => Some(Token::RParen),
        '{' => Some(Token::LBrace),
        '}' => Some(Token::RBrace),
        ';' => Some(Token::Semicolon),
        ',' => Some(Token::Comma),
        '&' => Some(Token::And),
        '|' => Some(Token::Or),
        '!' => Some(Token::Not),
        '<' => Some(Token::Less),
        '>' => Some(Token::Greater),
        _ => None,
    }
}

/// The keyword token that a word stands for, if it is a keyword.
pub open spec fn keyword_token(w: Seq<char>) -> Option<Token> {
    if w == seq!['i', 'f'] { Some(Token::If) }
    else if w == seq!['e', 'l', 's', 'e'] { Some(Token::Else) }
    else if w == seq!['w', 'h', 'i', 'l', 'e'] { Some(Token::While) }
    else if w == seq!['r', 'e', 't', 'u', 'r', 'n'] { Some(Token::Return) }
    else if w == seq!['b', 'r', 'e', 'a', 'k'] { Some(Token::Break) }
    else if w == seq!['c', 'o', 'n', 't', 'i', 'n', 'u', 'e'] { Some(Token::Continue) }
    else if w == seq!['v', 'o', 'i', 'd'] { Some(Token::Type(Type::Void)) }
    else if w == seq!['i', 'n', 't'] { Some(Token::Type(Type::Int)) }
    else { None }
}

pub open spec fn is_digit(c: char) -> bool {
    '0' <= c <= '9'
}

pub open spec fn is_name_char(c: char) -> bool {
    ('a' <= c <= 'z') || ('A' <= c <= 'Z') || c == '_'
}

/// The value of a string of decimal digits.
pub open spec fn digits_value(w: Seq<char>) -> int
    decreases w.len(),
{
    if w.len() == 0 {
        0
    } else {
        10 * digits_value(w.drop_last()) + (w.last() as int - '0' as int)
    }
}

/// A word is a number literal: digits only, with a value that fits in `i32`.
pub open spec fn is_number(w: Seq<char>) -> bool {
    &&& w.len() > 0
    &&& forall|i: int| 0 <= i < w.len() ==> is_digit(#[trigger] w[i])
    &&& digits_value(w) <= i32::MAX
}

/// A word is a name: letters and underscores only.
pub open spec fn is_name(w: Seq<char>) -> bool {
    &&& w.len() > 0
    &&& forall|i: int| 0 <= i < w.len() ==> is_name_char(#[trigger] w[i])
}

/// `r` is the token that the word `w` stands for: a keyword first, then a
/// number literal, then a name; `None` when it is none of them.
pub open spec fn word_token(w: Seq<char>, r: Option<Token>) -> bool {
    if keyword_token(w) is Some {
        r == keyword_token(w)
    } else if is_number(w) {
        r == Some(Token::Value(Value::Int(digits_value(w) as i32)))
    } else if is_name(w) {
        r matches Some(Token::Name(s)) && s@ == w
    } else {
        r is None
    }
}

proof fn lemma_digits_value_grows(w: Seq<char>, k: int)
    requires
        0 <= k <= w.len(),
        forall|i: int| 0 <= i < w.len() ==> is_digit(#[trigger] w[i]),
    ensures
        digits_value(w.take(k)) <= digits_value(w),
        digits_value(w.take(k)) >= 0,
    decreases w.len() - k,
{
    if k < w.len() {
        lemma_digits_value_grows(w, k + 1);
        assert(w.take(k + 1).drop_last() =~= w.take(k));
        lemma_digits_value_nonneg(w.take(k));
    } else {
        assert(w.take(k) =~= w);
        lemma_digits_value_nonneg(w);
    }
}

proof fn lemma_digits_value_nonneg(w: Seq<char>)
    requires
        forall|i: int| 0 <= i < w.len() ==> is_digit(#[trigger] w[i]),
    ensures
        digits_value(w) >= 0,
    decreases w.len(),
{
    if w.len() > 0 {
        lemma_digits_value_nonneg(w.drop_last());
    }
}

fn keyword_of(w: &Vec<char>) -> (r: Option<Token>)
    ensures
        r == keyword_token(w@),
{
    let n = w.len();
    if n == 2 && w[0] == 'i' && w[1] == 'f' {
        assert(w@ =~= seq!['i', 'f']);
        return Some(Token::If);
    }
    if n == 4 && w[0] == 'e' && w[1] == 'l' && w[2] == 's' && w[3] == 'e' {
        assert(w@ =~= seq!['e', 'l', 's', 'e']);
        return Some(Token::Else);
    }
    if n == 5 && w[0] == 'w' && w[1] == 'h' && w[2] == 'i' && w[3] == 'l' && w[4] == 'e' {
        assert(w@ =~= seq!['w', 'h', 'i', 'l', 'e']);
        return Some(Token::While);
    }
    if n == 6 && w[0] == 'r' && w[1] == 'e' && w[2] == 't' && w[3] == 'u' && w[4] == 'r'
        && w[5] == 'n' {
        assert(w@ =~= seq!['r', 'e', 't', 'u', 'r', 'n']);
        return Some(Token::Return);
    }
    if n == 5 && w[0] == 'b' && w[1] == 'r' && w[2] == 'e' && w[3] == 'a' && w[4] == 'k' {
        assert(w@ =~= seq!['b', 'r', 'e', 'a', 'k']);
        return Some(Token::Break);
    }
    if n == 8 && w[0] == 'c' && w[1] == 'o' && w[2] == 'n' && w[3] == 't' && w[4] == 'i'
        && w[5] == 'n' && w[6] == 'u' && w[7] == 'e' {
        assert(w@ =~= seq!['c', 'o', 'n', 't', 'i', 'n', 'u', 'e']);
        return Some(Token::Continue);
    }
    if n == 4 && w[0] == 'v' && w[1] == 'o' && w[2] == 'i' && w[3] == 'd' {
        assert(w@ =~= seq!['v', 'o', 'i', 'd']);
        return Some(Token::Type(Type::Void));
    }
    if n == 3 && w[0] == 'i' && w[1] == 'n' && w[2] == 't' {
        assert(w@ =~= seq!['i', 'n', 't']);
        return Some(Token::Type(Type::Int));
    }
    None
}

/// Reads a decimal literal; `None` unless the word is all digits and fits in `i32`.
fn get_num(w: &Vec<char>) -> (r: Option<i32>)
    ensures
        is_number(w@) ==> r == Some(digits_value(w@) as i32),
        !is_number(w@) ==> r is None,
{
    if w.len() == 0 {
        return None;
    }
    let mut i: usize = 0;
    while i < w.len()
        invariant
            0 <= i <= w@.len(),
            forall|j: int| 0 <= j < i ==> is_digit(#[trigger] w@[j]),
        decreases w@.len() - i,
    {
        if !('0' <= w[i] && w[i] <= '9') {
            return None;
        }
        i = i + 1;
    }
    let mut num: i32 = 0;
    let mut i: usize = 0;
    while i < w.len()
        invariant
            0 <= i <= w@.len(),
            forall|j: int| 0 <= j < w@.len() ==> is_digit(#[trigger] w@[j]),
            num == digits_value(w@.take(i as int)),
        decreases w@.len() - i,
    {
        let d = (w[i] as u32 - '0' as u32) as i32;
        assert(w@.take(i + 1).drop_last() =~= w@.take(i as int));
        assert(0 <= d <= 9);
        if num > (i32::MAX - d) / 10 {
            proof {
                lemma_digits_value_grows(w@, i + 1);
            }
            return None;
        }
        assert(num * 10 + d <= i32::MAX) by (nonlinear_arith)
            requires num <= (i32::MAX - d) / 10, 0 <= d <= 9;
        assert(num >= 0) by {
            lemma_digits_value_nonneg(w@.take(i as int));
        }
        num = num * 10 + d;
        i = i + 1;
    }
    assert(w@.take(i as int) =~= w@);
    Some(num)
}

/// Tells whether a word is a name.
fn check_name(w: &Vec<char>) -> (r: bool)
    ensures
        r == is_name(w@),
{
    if w.len() == 0 {
        return false;
    }
    let mut i: usize = 0;
    while i < w.len()
        invariant
            0 <= i <= w@.len(),
            forall|j: int| 0 <= j < i ==> is_name_char(#[trigger] w@[j]),
        decreases w@.len() - i,
    {
        let c = w[i];
        if !(('a' <= c && c <= 'z') || ('A' <= c && c <= 'Z') || c == '_') {
            return false;
        }
        i = i + 1;
    }
    true
}

/// The characters of a string, in order.
pub fn chars_of(s: &str) -> (r: Vec<char>)
    ensures
        r@ == s@,
{
    let mut it = s.chars();
    let mut v: Vec<char> = Vec::new();
    proof {
        vstd::string::axiom_spec_iter(s);
    }
    loop
        invariant
            it.remaining() == s@.skip(v@.len() as int),
            v@ == s@.take(v@.len() as int),
            v@.len() <= s@.len(),
        ensures
            v@ == s@,
        decreases s@.len() - v@.len(),
    {
        let ghost old_it = it;
        match it.next() {
            Some(c) => {
                proof {
                    vstd::string::next_postcondition(&old_it, &it, Some(c));
                }
                v.push(c);
            },
            None => {
                proof {
                    vstd::string::next_postcondition(&old_it, &it, None);
                    assert(s@.skip(v@.len() as int).len() == 0);
                    assert(v@ =~= s@);
                }
                break;
            },
        }
    }
    v
}

/// Relies on `String::from_iter` over characters: the string made of
/// exactly those characters, in order.
#[verifier::external_body]
pub(crate) fn string_of(w: &Vec<char>) -> (r: String)
    ensures
        r@ == w@,
{
    w.iter().collect()
}

/// The token for a word (the characters between separators).
pub fn token_of_chars(w: &Vec<char>) -> (r: Option<Token>)
    ensures
        word_token(w@, r),
{
    if let Some(t) = keyword_of(w) {
        return Some(t);
    }
    if let Some(v) = get_num(w) {
        return Some(Token::Value(Value::Int(v)));
    }
    if check_name(w) {
        return Some(Token::Name(string_of(w)));
    }
    None
}

/// The token for a word: a keyword, a non-negative decimal literal that
/// fits in `i32`, or a name made of letters and underscores.
pub fn get_token_from_word(word: &str) -> (r: Option<Token>)
    ensures
        word_token(word@, r),
{
    let w = chars_of(word);
    token_of_chars(&w)
}

} // verus!
