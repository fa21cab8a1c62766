use crate::err::ErrKind;
use crate::token::{
    char_token, chars_of, get_token_from_char, keyword_token, same_token, token_of_chars, word_token,
    Token,
};
use vstd::prelude::*;

verus! {

/// Characters that separate words and are dropped.
pub open spec fn is_space(c: char) -> bool {
    c == ' ' || c == '\t' || c == '\n' || c == '\r' || c == '\x0C'
}

/// A character that belongs to a word: neither a separator nor a reserved character.
pub open spec fn is_word_char(c: char) -> bool {
    !is_space(c) && char_token(c) is None
}

/// The word collected so far, as a list of at most one lexeme.
pub open spec fn flush(w: Seq<char>) -> Seq<Seq<char>> {
    if w.len() == 0 { seq![] } else { seq![w] }
}

/// Splits characters into lexemes: whitespace ends a word and is dropped,
/// a reserved character ends a word and is a lexeme of its own, and other
/// characters extend the current word `word`.
pub open spec fn lex_split(cs: Seq<char>, word: Seq<char>) -> Seq<Seq<char>>
    decreases cs.len(),
{
    if cs.len() == 0 {
        flush(word)
    } else if is_space(cs[0]) {
        flush(word) + lex_split(cs.drop_first(), seq![])
    } else if char_token(cs[0]) is Some {
        flush(word) + seq![seq![cs[0]]] + lex_split(cs.drop_first(), seq![])
    } else {
        lex_split(cs.drop_first(), word.push(cs[0]))
    }
}

/// The lexemes of a source text.
pub open spec fn lexemes(cs: Seq<char>) -> Seq<Seq<char>> {
    lex_split(cs, seq![])
}

/// `t` is the token of lexeme `l`: a reserved character's token, or the
/// token of a word.
pub open spec fn lexeme_token(l: Seq<char>, t: Token) -> bool {
    if l.len() == 1 && char_token(l[0]) is Some {
        t == char_token(l[0])->0
    } else {
        word_token(l, Some(t))
    }
}

/// A lexeme that is a word but neither a keyword, a number nor a name.
pub open spec fn bad_lexeme(l: Seq<char>) -> bool {
    !(l.len() == 1 && char_token(l[0]) is Some) && word_token(l, None)
}

/// Lexing is a function of the text: two token lists that both meet
/// `lexer`'s contract for the same text agree token by token.
pub proof fn lemma_lexing_is_deterministic(cs: Seq<char>, a: Seq<Token>, b: Seq<Token>)
    requires
        a.len() == lexemes(cs).len(),
        b.len() == lexemes(cs).len(),
        forall|i: int| 0 <= i < a.len() ==> lexeme_token(#[trigger] lexemes(cs)[i], a[i]),
        forall|i: int| 0 <= i < b.len() ==> lexeme_token(#[trigger] lexemes(cs)[i], b[i]),
    ensures
        forall|i: int| 0 <= i < a.len() ==> same_token(#[trigger] a[i], b[i]),
{
    assert forall|i: int| 0 <= i < a.len() implies same_token(#[trigger] a[i], b[i]) by {
        let l = lexemes(cs)[i];
        assert(lexeme_token(l, a[i]));
        assert(lexeme_token(l, b[i]));
        if !(l.len() == 1 && char_token(l[0]) is Some) {
            if keyword_token(l) is Some {
                assert(a[i] == b[i]);
            }
        }
    }
}

/// Turns a word, when there is one, into a token.
fn push_word(word: &mut Vec<char>, tokens: &mut Vec<Token>) -> (ok: bool)
    ensures
        final(word)@.len() == 0,
        old(word)@.len() == 0 ==> ok && final(tokens)@ == old(tokens)@,
        old(word)@.len() > 0 ==> (ok <==> !word_token(old(word)@, None)),
        old(word)@.len() > 0 && ok ==> final(tokens)@.len() == old(tokens)@.len() + 1
            && word_token(old(word)@, Some(final(tokens)@.last())),
        old(word)@.len() > 0 && ok ==> final(tokens)@.drop_last() == old(tokens)@,
{
    if word.len() == 0 {
        return true;
    }
    let t = token_of_chars(word);
    word.clear();
    match t {
        Some(t) => {
            tokens.push(t);
            true
        },
        None => false,
    }
}

/// Splits source text into tokens: whitespace separates words, each
/// reserved character is a token of its own, and every other run of
/// characters must be a keyword, a number or a name.
pub fn lexer(code: &str) -> (r: Result<Vec<Token>, ErrKind>)
    ensures
        r is Ok ==> r->Ok_0@.len() == lexemes(code@).len()
            && forall|i: int| 0 <= i < r->Ok_0@.len() ==> lexeme_token(#[trigger] lexemes(code@)[i], r->Ok_0@[i]),
        r is Err ==> r == Err::<Vec<Token>, ErrKind>(ErrKind::LexErr),
        r is Err <==> exists|i: int| 0 <= i < lexemes(code@).len() && bad_lexeme(#[trigger] lexemes(code@)[i]),
{
    let cs = chars_of(code);
    let mut word: Vec<char> = Vec::new();
    let mut tokens: Vec<Token> = Vec::new();
    let ghost mut done: Seq<Seq<char>> = seq![];
    let mut i: usize = 0;
    assert(cs@.skip(0) =~= cs@);
    assert(done + lex_split(cs@, word@) =~= lexemes(code@));
    while i < cs.len()
        invariant
            0 <= i <= cs@.len(),
            cs@ == code@,
            lexemes(code@) == done + lex_split(cs@.skip(i as int), word@),
            tokens@.len() == done.len(),
            forall|k: int| 0 <= k < done.len() ==> lexeme_token(#[trigger] done[k], tokens@[k]),
            forall|k: int| 0 <= k < word@.len() ==> !is_space(#[trigger] word@[k]) && char_token(word@[k]) is None,
        decreases cs@.len() - i,
    {
        let ghost rest = cs@.skip(i as int);
        assert(rest.drop_first() =~= cs@.skip(i + 1));
        assert(rest[0] == cs@[i as int]);
        let ghost w0 = word@;
        let ghost t0 = tokens@;
        let c = cs[i];
        if c == ' ' || c == '\t' || c == '\n' || c == '\r' || c == '\x0C' {
            let ok = push_word(&mut word, &mut tokens);
            proof {
                lemma_flush_done(done, w0, t0, tokens@, ok, lex_split(rest.drop_first(), seq![]));
            }
            proof {
                assert(lex_split(rest, w0) == flush(w0) + lex_split(rest.drop_first(), seq![]));
                assert(done + (flush(w0) + lex_split(rest.drop_first(), seq![]))
                    =~= done + flush(w0) + lex_split(rest.drop_first(), seq![]));
            }
            if !ok {
                proof {
                    lemma_bad_word_found(done, w0, lex_split(rest.drop_first(), seq![]));
                }
                return Err(ErrKind::LexErr);
            }
            proof {
                assert(done + (flush(w0) + lex_split(rest.drop_first(), seq![]))
                    =~= (done + flush(w0)) + lex_split(rest.drop_first(), seq![]));
                done = done + flush(w0);
                assert(word@ =~= seq![]);
            }
        } else {
            match get_token_from_char(c) {
                Some(t) => {
                    let ok = push_word(&mut word, &mut tokens);
                    proof {
                        lemma_flush_done(done, w0, t0, tokens@, ok,
                            seq![seq![c]] + lex_split(rest.drop_first(), seq![]));
                    }
                    proof {
                        assert(char_token(rest[0]) is Some);
                        assert(lex_split(rest, w0) == flush(w0) + seq![seq![c]] + lex_split(rest.drop_first(), seq![]));
                        assert(done + (flush(w0) + seq![seq![c]] + lex_split(rest.drop_first(), seq![]))
                            =~= done + flush(w0) + (seq![seq![c]] + lex_split(rest.drop_first(), seq![])));
                    }
                    if !ok {
                        proof {
                            lemma_bad_word_found(done, w0, seq![seq![c]] + lex_split(rest.drop_first(), seq![]));
                        }
                        return Err(ErrKind::LexErr);
                    }
                    let ghost t1 = tokens@;
                    tokens.push(t);
                    proof {
                        let d1 = done + flush(w0);
                        assert(done + (flush(w0) + seq![seq![c]] + lex_split(rest.drop_first(), seq![]))
                            =~= (d1 + seq![seq![c]]) + lex_split(rest.drop_first(), seq![]));
                        let d2 = d1 + seq![seq![c]];
                        assert forall|k: int| 0 <= k < d2.len() implies lexeme_token(#[trigger] d2[k], tokens@[k]) by {
                            if k < d1.len() {
                                assert(d2[k] == d1[k]);
                                assert(tokens@[k] == t1[k]);
                            } else {
                                assert(d2[k] =~= seq![c]);
                            }
                        }
                        done = d2;
                        assert(word@ =~= seq![]);
                    }
                },
                None => {
                    word.push(c);
                    proof {
                        assert(word@ =~= w0.push(c));
                        assert(lex_split(rest, w0) == lex_split(rest.drop_first(), w0.push(c)));
                    }
                },
            }
        }
        i = i + 1;
    }
    let ghost w0 = word@;
    let ghost t0 = tokens@;
    proof {
        assert(cs@.skip(i as int) =~= seq![]);
    }
    let ok = push_word(&mut word, &mut tokens);
    proof {
        lemma_flush_done(done, w0, t0, tokens@, ok, seq![]);
        assert(done + flush(w0) + seq![] =~= done + flush(w0));
    }
    if !ok {
        proof {
            lemma_bad_word_found(done, w0, seq![]);
        }
        return Err(ErrKind::LexErr);
    }
    proof {
        assert(lexemes(code@) =~= done + flush(w0));
        let ls = lexemes(code@);
        assert forall|i: int| 0 <= i < ls.len() implies !bad_lexeme(#[trigger] ls[i]) by {
            assert(lexeme_token(ls[i], tokens@[i]));
        }
    }
    Ok(tokens)
}

/// After a word is flushed, the tokens match the lexemes done so far and the word.
proof fn lemma_flush_done(
    done: Seq<Seq<char>>,
    w: Seq<char>,
    t0: Seq<Token>,
    t1: Seq<Token>,
    ok: bool,
    more: Seq<Seq<char>>,
)
    requires
        t0.len() == done.len(),
        forall|k: int| 0 <= k < done.len() ==> lexeme_token(#[trigger] done[k], t0[k]),
        forall|k: int| 0 <= k < w.len() ==> !is_space(#[trigger] w[k]) && char_token(w[k]) is None,
        w.len() == 0 ==> ok && t1 == t0,
        w.len() > 0 ==> (ok <==> !word_token(w, None)),
        w.len() > 0 && ok ==> t1.len() == t0.len() + 1 && word_token(w, Some(t1.last())) && t1.drop_last() == t0,
    ensures
        ok ==> t1.len() == (done + flush(w)).len(),
        ok ==> forall|k: int| 0 <= k < (done + flush(w)).len() ==> lexeme_token(#[trigger] (done + flush(w))[k], t1[k]),
{
    if ok {
        let d = done + flush(w);
        assert forall|k: int| 0 <= k < d.len() implies lexeme_token(#[trigger] d[k], t1[k]) by {
            if k < done.len() {
                assert(d[k] == done[k]);
                if w.len() > 0 {
                    assert(t1[k] == t1.drop_last()[k]);
                }
            } else {
                assert(d[k] == w);
                if w.len() == 1 {
                    assert(char_token(w[0]) is None);
                }
            }
        }
    }
}

/// A word that is no token, flushed after `done`, is a bad lexeme of the text.
proof fn lemma_bad_word_found(done: Seq<Seq<char>>, w: Seq<char>, more: Seq<Seq<char>>)
    requires
        w.len() > 0,
        word_token(w, None),
        forall|k: int| 0 <= k < w.len() ==> !is_space(#[trigger] w[k]) && char_token(w[k]) is None,
    ensures
        exists|i: int| 0 <= i < (done + flush(w) + more).len() && bad_lexeme(#[trigger] (done + flush(w) + more)[i]),
{
    let all = done + flush(w) + more;
    let i = done.len() as int;
    assert(all[i] == w);
    if w.len() == 1 {
        assert(char_token(w[0]) is None);
    }
    assert(bad_lexeme(all[i]));
}

} // verus!
