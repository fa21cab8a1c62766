use crate::err::ErrKind;
use crate::lexer::{bad_lexeme, lexemes, lexer};
use crate::nodes::{
    lemma_postfix_concat, lemma_postfix_shift, postfix_depth, well_formed,
    AssignNd, BlockNd, BreakNd, CalcItem, ContinueNd, DeclareNd, ElsNd, ExprNd, FactorNd, FuncCallNd,
    FuncNd, GItemNd, IfNd, ItemNd, ReturnNd, RootNd, StmtNd, VarNd, WhileNd,
};
use crate::op::{bin_op_tokens, level_ops, Op, MAX_LEVEL};
use crate::seq::{SeqPack, Sequence};
use crate::token::{same_token, token_tag, Token};
use vstd::prelude::*;

verus! {

/// A parse that succeeded read at least one token.
pub open spec fn shrinks<T>(seq: Sequence, r: SeqPack<T>) -> bool {
    r is Some ==> (r->0).0.rest() < seq.rest()
}

/// A token of the same kind as a token without payload is that token.
pub proof fn lemma_same_kind(t: Token, u: Token)
    requires
        token_tag(t) == token_tag(u),
        !(u is Name || u is Type || u is Value),
    ensures
        same_token(t, u),
{
}

/// A node that can be read from the front of a token sequence.
pub trait Parser: Sized {
    fn parse(seq: Sequence) -> SeqPack<Self>;
}

pub fn parse_var(seq: Sequence) -> (r: SeqPack<VarNd>)
    ensures
        r is Some ==> seq.moved_on((r->0).0, 1),
        shrinks(seq, r),
        r is Some <==> (seq.at(0) is Some && seq.at(0)->0 is Name),
        r is Some ==> (r->0).0.rest() == seq.rest() - 1 && (r->0).1.name@ == (seq.at(0)->0)->Name_0@
            && (r->0).1.id == 0,
{
    let (seq, name) = seq.eat_name()?;
    Some((seq, VarNd::new(name)))
}

/// `name(expr, ...)`
pub fn parse_call(seq: Sequence) -> (r: SeqPack<FuncCallNd>)
    ensures
        seq.at(0) is Some && seq.at(0)->0 is Name && seq.is_tok(1, token_tag(Token::LParen))
            && seq.is_tok(2, token_tag(Token::RParen)) ==> r is Some,
        shrinks(seq, r),
        r is Some ==> seq.at(0) is Some && seq.at(0)->0 is Name,
    decreases seq.rest(), 0nat,
{
    let ghost start = seq.rest();
    let ghost head = seq.at(0) is Some && seq.at(0)->0 is Name && seq.is_tok(1, token_tag(Token::LParen))
            && seq.is_tok(2, token_tag(Token::RParen));
    let (s0, func_var) = parse_var(seq)?;
    let (mut mseq, _) = s0.eat(Token::LParen)?;
    let mut params: Vec<ExprNd> = Vec::new();
    let mut first_param = true;
    while !mseq.is_at(0, &Token::RParen)
        invariant
            start == seq.rest(),
            mseq.rest() < start,
            head ==> seq.moved_on(mseq, 2) && seq.is_tok(2, token_tag(Token::RParen)),
            head == (seq.at(0) is Some && seq.at(0)->0 is Name && seq.is_tok(1, token_tag(Token::LParen))
            && seq.is_tok(2, token_tag(Token::RParen))),
        decreases mseq.rest(),
    {
        proof {
            if head {
                assert(token_tag(mseq.at(0)->0) == token_tag(seq.at(2)->0));
                lemma_same_kind(mseq.at(0)->0, Token::RParen);
            }
        }
        if !first_param {
            let (s, _) = mseq.eat(Token::Comma)?;
            mseq = s;
        }
        first_param = false;
        let (s, ex) = parse_expr(mseq)?;
        params.push(ex);
        mseq = s;
    }
    Some((mseq.advance(1), FuncCallNd::new(func_var, params)))
}

/// A literal, a call or a variable.
pub fn parse_factor(seq: Sequence) -> (r: SeqPack<FactorNd>)
    ensures
        r is Some <==> (seq.at(0) is Some && (seq.at(0)->0 is Value || seq.at(0)->0 is Name)),
        shrinks(seq, r),
    decreases seq.rest(), 1nat,
{
    if let Some((s, n)) = seq.eat_value() {
        return Some((s, FactorNd::Value(n)));
    }
    if let Some((s, n)) = parse_call(seq.advance(0)) {
        return Some((s, FactorNd::Func(n)));
    }
    let (s, n) = parse_var(seq)?;
    Some((s, FactorNd::Var(n)))
}

/// Reads an expression of binding level `level` or tighter, in postfix order.
/// Level 0 is a factor or a parenthesized expression; level 1 the unary
/// operators; binary operators of one level associate to the left.
pub fn parse_level(seq: Sequence, level: u8) -> (r: SeqPack<Vec<CalcItem>>)
    requires
        level <= MAX_LEVEL,
    ensures
        seq.at(0) is Some && (seq.at(0)->0 is Value || seq.at(0)->0 is Name) ==> r is Some,
        r is Some ==> seq.at(0) is Some && (seq.at(0)->0 is Value || seq.at(0)->0 is Name
            || seq.at(0)->0 is LParen || seq.at(0)->0 is Minus || seq.at(0)->0 is Not),
        shrinks(seq, r),
        r is Some ==> well_formed((r->0).1@),
    decreases seq.rest(), level + 2,
{
    if level == 0 {
        if let Some((s, _)) = seq.eat(Token::LParen) {
            let (s, ex) = parse_expr(s)?;
            let (s, _) = s.eat(Token::RParen)?;
            return Some((s, ex.stack));
        }
        let (s, f) = parse_factor(seq)?;
        let v = vec![CalcItem::Factor(f)];
        proof {
            assert(v@.drop_first() =~= Seq::<CalcItem>::empty());
            assert(postfix_depth(v@.drop_first(), 1) == Some(1int));
            assert(postfix_depth(v@, 0) == Some(1int));
        }
        return Some((s, v));
    }
    if level == 1 {
        if let Some((s, _)) = seq.eat(Token::Minus) {
            let (s, mut st) = parse_level(s, 0)?;
            let ghost st0 = st@;
            st.push(CalcItem::Op(Op::UnaryMinus));
            proof {
                lemma_postfix_concat(st0, seq![CalcItem::Op(Op::UnaryMinus)], 0);
                assert(st@ =~= st0 + seq![CalcItem::Op(Op::UnaryMinus)]);
                let t = seq![CalcItem::Op(Op::UnaryMinus)];
                assert(t.drop_first() =~= Seq::<CalcItem>::empty());
                assert(postfix_depth(t.drop_first(), 1) == Some(1int));
                assert(postfix_depth(t, 1) == Some(1int));
            }
            return Some((s, st));
        }
        if let Some((s, _)) = seq.eat(Token::Not) {
            let (s, mut st) = parse_level(s, 1)?;
            let ghost st0 = st@;
            st.push(CalcItem::Op(Op::Not));
            proof {
                lemma_postfix_concat(st0, seq![CalcItem::Op(Op::Not)], 0);
                assert(st@ =~= st0 + seq![CalcItem::Op(Op::Not)]);
                let t = seq![CalcItem::Op(Op::Not)];
                assert(t.drop_first() =~= Seq::<CalcItem>::empty());
                assert(postfix_depth(t.drop_first(), 1) == Some(1int));
                assert(postfix_depth(t, 1) == Some(1int));
            }
            return Some((s, st));
        }
        return parse_level(seq, 0);
    }
    let ghost start = seq.rest();
    let (mut mseq, mut stack) = parse_level(seq, level - 1)?;
    let ops = level_ops(level);
    loop
        invariant
            start == seq.rest(),
            mseq.rest() < start,
            1 <= level <= MAX_LEVEL,
            well_formed(stack@),
            forall|k: int| 0 <= k < ops@.len() ==> crate::op::op_arity(#[trigger] ops@[k]) == 2,
        decreases mseq.rest(),
    {
        let mut matched = false;
        let mut i: usize = 0;
        let ghost before = mseq.rest();
        while i < ops.len()
            invariant
                start == seq.rest(),
                mseq.rest() < start,
                1 <= level <= MAX_LEVEL,
                well_formed(stack@),
                forall|k: int| 0 <= k < ops@.len() ==> crate::op::op_arity(#[trigger] ops@[k]) == 2,
                matched ==> mseq.rest() < before,
                !matched ==> mseq.rest() == before,
            decreases ops@.len() - i,
        {
            let op = ops[i];
            let toks = bin_op_tokens(op);
            if toks.len() > 0 {
                if let Some((s, _)) = mseq.eats(&toks) {
                    if let Some((s2, mut right)) = parse_level(s, level - 1) {
                        let ghost l0 = stack@;
                        let ghost r0 = right@;
                        stack.append(&mut right);
                        stack.push(CalcItem::Op(op));
                        proof {
                            let tail = seq![CalcItem::Op(op)];
                            assert(stack@ =~= l0 + (r0 + tail));
                            lemma_postfix_concat(l0, r0 + tail, 0);
                            lemma_postfix_concat(r0, tail, 1);
                            lemma_postfix_shift(r0, 0, 1);
                            assert(tail.drop_first() =~= Seq::<CalcItem>::empty());
                            assert(postfix_depth(tail.drop_first(), 1) == Some(1int));
                            assert(postfix_depth(tail, 2) == Some(1int));
                            assert(postfix_depth(r0, 1) == Some(2int));
                            assert(postfix_depth(r0 + tail, 1) == Some(1int));
                        }
                        mseq = s2;
                        matched = true;
                        break;
                    }
                }
            }
            i = i + 1;
        }
        if !matched {
            break;
        }
    }
    Some((mseq, stack))
}

/// Reads a whole expression as its items in postfix order.
pub fn get_calc_stack(seq: Sequence) -> (r: SeqPack<Vec<CalcItem>>)
    ensures
        seq.at(0) is Some && (seq.at(0)->0 is Value || seq.at(0)->0 is Name) ==> r is Some,
        r is Some ==> seq.at(0) is Some && (seq.at(0)->0 is Value || seq.at(0)->0 is Name
            || seq.at(0)->0 is LParen || seq.at(0)->0 is Minus || seq.at(0)->0 is Not),
        shrinks(seq, r),
        r is Some ==> well_formed((r->0).1@),
    decreases seq.rest(), 10nat,
{
    parse_level(seq, MAX_LEVEL)
}

pub fn parse_expr(seq: Sequence) -> (r: SeqPack<ExprNd>)
    ensures
        seq.at(0) is Some && (seq.at(0)->0 is Value || seq.at(0)->0 is Name) ==> r is Some,
        r is Some ==> seq.at(0) is Some && (seq.at(0)->0 is Value || seq.at(0)->0 is Name
            || seq.at(0)->0 is LParen || seq.at(0)->0 is Minus || seq.at(0)->0 is Not),
        shrinks(seq, r),
        r is Some ==> well_formed((r->0).1.stack@),
    decreases seq.rest(), 11nat,
{
    let (s, st) = get_calc_stack(seq)?;
    Some((s, ExprNd::new(st)))
}

/// `name = expr`
pub fn parse_assign(seq: Sequence) -> (r: SeqPack<AssignNd>)
    ensures
        shrinks(seq, r),
        r is Some ==> seq.at(0) is Some && seq.at(0)->0 is Name,
{
    let (s, v) = parse_var(seq)?;
    let (s, _) = s.eat(Token::Eq)?;
    let (s, ex) = parse_expr(s)?;
    Some((s, AssignNd::new(v, ex)))
}

/// `type name` or `type name = expr`
pub fn parse_declare(seq: Sequence) -> (r: SeqPack<DeclareNd>)
    ensures
        seq.at(0) is Some && seq.at(0)->0 is Type && seq.at(1) is Some && seq.at(1)->0 is Name && !seq.is_tok(2, token_tag(Token::Eq)) ==> r is Some && seq.moved_on((r->0).0, 2),
        shrinks(seq, r),
        r is Some ==> seq.at(0) is Some && seq.at(0)->0 is Type,
{
    let (s, ty) = seq.eat_type()?;
    let (s, v) = parse_var(s)?;
    if let Some((s2, _)) = s.eat(Token::Eq) {
        let (s2, ex) = parse_expr(s2)?;
        Some((s2, DeclareNd::new(ty, v, Some(ex))))
    } else {
        Some((s, DeclareNd::new(ty, v, None)))
    }
}

/// A statement ending with `;`. A lone variable is a print statement.
pub fn parse_stmt(seq: Sequence) -> (r: SeqPack<StmtNd>)
    ensures
        seq.at(0) is Some && seq.at(0)->0 is Semicolon ==> r is Some,
        shrinks(seq, r),
{
    if let Some((s, n)) = parse_declare(seq.advance(0)) {
        let (s, _) = s.eat(Token::Semicolon)?;
        return Some((s, StmtNd::Declare(n)));
    }
    if let Some((s, n)) = parse_assign(seq.advance(0)) {
        let (s, _) = s.eat(Token::Semicolon)?;
        return Some((s, StmtNd::Assign(n)));
    }
    if let Some((s, n)) = parse_expr(seq.advance(0)) {
        let (s, _) = s.eat(Token::Semicolon)?;
        return match n.try_to_var() {
            Some(v) => Some((s, StmtNd::Print(v))),
            None => Some((s, StmtNd::Expr(n))),
        };
    }
    let (s, _) = seq.eat(Token::Semicolon)?;
    Some((s, StmtNd::Empty))
}

/// `return;` or `return expr;`
pub fn parse_return(seq: Sequence) -> (r: SeqPack<ReturnNd>)
    ensures
        seq.is_tok(0, token_tag(Token::Return)) && seq.is_tok(1, token_tag(Token::Semicolon)) ==> r is Some,
        shrinks(seq, r),
        r is Some ==> seq.at(0) is Some && seq.at(0)->0 is Return,
{
    let (s, _) = seq.eat(Token::Return)?;
    if let Some((s2, n)) = parse_expr(s.advance(0)) {
        let (s2, _) = s2.eat(Token::Semicolon)?;
        Some((s2, ReturnNd { expr: Some(n), sz: 0 }))
    } else {
        let (s, _) = s.eat(Token::Semicolon)?;
        Some((s, ReturnNd { expr: None, sz: 0 }))
    }
}

pub fn parse_break(seq: Sequence) -> (r: SeqPack<BreakNd>)
    ensures
        r is Some <==> (seq.at(0) is Some && seq.at(0)->0 is Break && seq.is_tok(1, token_tag(Token::Semicolon))),
        shrinks(seq, r),
        r is Some ==> seq.at(0) is Some && seq.at(0)->0 is Break,
{
    let (s, _) = seq.eat(Token::Break)?;
    let (s, _) = s.eat(Token::Semicolon)?;
    Some((s, BreakNd { id: 0, pop: 0 }))
}

pub fn parse_continue(seq: Sequence) -> (r: SeqPack<ContinueNd>)
    ensures
        r is Some <==> (seq.at(0) is Some && seq.at(0)->0 is Continue && seq.is_tok(1, token_tag(Token::Semicolon))),
        shrinks(seq, r),
        r is Some ==> seq.at(0) is Some && seq.at(0)->0 is Continue,
{
    let (s, _) = seq.eat(Token::Continue)?;
    let (s, _) = s.eat(Token::Semicolon)?;
    Some((s, ContinueNd { id: 0, pop: 0 }))
}

/// `if (expr) item` with an optional `else` part.
pub fn parse_if(seq: Sequence) -> (r: SeqPack<IfNd>)
    ensures
        shrinks(seq, r),
        r is Some ==> seq.at(0) is Some && seq.at(0)->0 is If,
    decreases seq.rest(), 13nat,
{
    let (s, _) = seq.eat(Token::If)?;
    let (s, _) = s.eat(Token::LParen)?;
    let (s, ex) = parse_expr(s)?;
    let (s, _) = s.eat(Token::RParen)?;
    let (s, it) = parse_item(s)?;
    if s.is_at(0, &Token::Else) {
        let (s, els) = parse_els(s)?;
        Some((s, IfNd::new(ex, it, Some(els))))
    } else {
        Some((s, IfNd::new(ex, it, None)))
    }
}

/// `else if ...` or `else item`
pub fn parse_els(seq: Sequence) -> (r: SeqPack<ElsNd>)
    ensures
        shrinks(seq, r),
        r is Some ==> seq.at(0) is Some && seq.at(0)->0 is Else,
    decreases seq.rest(), 13nat,
{
    let (s, _) = seq.eat(Token::Else)?;
    if let Some((s2, n)) = parse_if(s.advance(0)) {
        Some((s2, ElsNd::If(Box::new(n))))
    } else {
        let (s, it) = parse_item(s)?;
        Some((s, ElsNd::Item(Box::new(it))))
    }
}

/// `while (expr) item`
pub fn parse_while(seq: Sequence) -> (r: SeqPack<WhileNd>)
    ensures
        shrinks(seq, r),
        r is Some ==> seq.at(0) is Some && seq.at(0)->0 is While,
    decreases seq.rest(), 13nat,
{
    let (s, _) = seq.eat(Token::While)?;
    let (s, _) = s.eat(Token::LParen)?;
    let (s, ex) = parse_expr(s)?;
    let (s, _) = s.eat(Token::RParen)?;
    let (s, it) = parse_item(s)?;
    Some((s, WhileNd { id: 0, expr: ex, item: Box::new(it) }))
}

/// `{ item ... }`
pub fn parse_block(seq: Sequence) -> (r: SeqPack<BlockNd>)
    ensures
        seq.is_tok(0, token_tag(Token::LBrace)) && seq.is_tok(1, token_tag(Token::RBrace)) ==> r is Some,
        shrinks(seq, r),
        r is Some ==> seq.at(0) is Some && seq.at(0)->0 is LBrace,
    decreases seq.rest(), 13nat,
{
    let ghost start = seq.rest();
    let (mut mseq, _) = seq.eat(Token::LBrace)?;
    let mut items: Vec<ItemNd> = Vec::new();
    while !mseq.is_at(0, &Token::RBrace)
        invariant
            start == seq.rest(),
            mseq.rest() < start,
            items@.len() == 0 ==> seq.moved_on(mseq, 1),
            items@.len() > 0 ==> !(seq.is_tok(0, token_tag(Token::LBrace)) && seq.is_tok(1, token_tag(Token::RBrace))),
        decreases mseq.rest(),
    {
        proof {
            if items@.len() == 0 && seq.is_tok(1, token_tag(Token::RBrace)) {
                assert(token_tag(mseq.at(0)->0) == token_tag(seq.at(1)->0));
            }
        }
        let (s, n) = parse_item(mseq)?;
        items.push(n);
        mseq = s;
    }
    Some((mseq.advance(1), BlockNd::new(items)))
}

/// A block, a control statement, or a plain statement.
pub fn parse_item(seq: Sequence) -> (r: SeqPack<ItemNd>)
    ensures
        seq.at(0) is Some && seq.at(0)->0 is Semicolon ==> r is Some,
        seq.is_tok(0, token_tag(Token::LBrace)) && seq.is_tok(1, token_tag(Token::RBrace)) ==> r is Some,
        shrinks(seq, r),
    decreases seq.rest(), 14nat,
{
    if let Some((s, n)) = parse_block(seq.advance(0)) {
        return Some((s, ItemNd::Block(n)));
    }
    if let Some((s, n)) = parse_if(seq.advance(0)) {
        return Some((s, ItemNd::If(n)));
    }
    if let Some((s, n)) = parse_while(seq.advance(0)) {
        return Some((s, ItemNd::While(n)));
    }
    if let Some((s, n)) = parse_return(seq.advance(0)) {
        return Some((s, ItemNd::Return(n)));
    }
    if let Some((s, n)) = parse_continue(seq.advance(0)) {
        return Some((s, ItemNd::Continue(n)));
    }
    if let Some((s, n)) = parse_break(seq.advance(0)) {
        return Some((s, ItemNd::Break(n)));
    }
    let (s, n) = parse_stmt(seq)?;
    Some((s, ItemNd::Stmt(n)))
}

/// `type name(type name, ...);` or `type name(...) { ... }`
pub fn parse_func(seq: Sequence) -> (r: SeqPack<FuncNd>)
    ensures
        shrinks(seq, r),
        r is Some ==> seq.at(0) is Some && seq.at(0)->0 is Type,
        seq.at(0) is Some && seq.at(0)->0 is Type && seq.at(1) is Some && seq.at(1)->0 is Name
            && seq.is_tok(2, token_tag(Token::LParen)) && seq.is_tok(3, token_tag(Token::RParen))
            && seq.is_tok(4, token_tag(Token::Semicolon)) ==> r is Some,
{
    let ghost start = seq.rest();
    let ghost head = seq.at(0) is Some && seq.at(0)->0 is Type && seq.at(1) is Some && seq.at(1)->0 is Name
            && seq.is_tok(2, token_tag(Token::LParen)) && seq.is_tok(3, token_tag(Token::RParen));
    let (s, ret_ty) = seq.eat_type()?;
    let (s, func_var) = parse_var(s)?;
    let (mut mseq, _) = s.eat(Token::LParen)?;
    let mut params: Vec<(crate::token::Type, Option<VarNd>)> = Vec::new();
    let mut first_param = true;
    proof {
        if head {
            assert(token_tag(mseq.at(0)->0) == token_tag(seq.at(3)->0));
        }
    }
    while !mseq.is_at(0, &Token::RParen)
        invariant
            mseq.rest() < start,
            head ==> seq.moved_on(mseq, 3) && seq.is_tok(3, token_tag(Token::RParen)),
            head == (seq.at(0) is Some && seq.at(0)->0 is Type && seq.at(1) is Some && seq.at(1)->0 is Name
            && seq.is_tok(2, token_tag(Token::LParen)) && seq.is_tok(3, token_tag(Token::RParen))),
        decreases mseq.rest(),
    {
        proof {
            if head {
                assert(token_tag(mseq.at(0)->0) == token_tag(seq.at(3)->0));
                lemma_same_kind(mseq.at(0)->0, Token::RParen);
            }
        }
        if !first_param {
            let (s, _) = mseq.eat(Token::Comma)?;
            mseq = s;
        }
        first_param = false;
        let (s, ty) = mseq.eat_type()?;
        if let Some((s2, vn)) = parse_var(s.advance(0)) {
            params.push((ty, Some(vn)));
            mseq = s2;
        } else {
            params.push((ty, None));
            mseq = s;
        }
    }
    let mseq = mseq.advance(1);
    if let Some((s, block)) = parse_block(mseq.advance(0)) {
        Some((s, FuncNd::new(ret_ty, func_var, params, Some(block))))
    } else {
        let (s, _) = mseq.eat(Token::Semicolon)?;
        Some((s, FuncNd::new(ret_ty, func_var, params, None)))
    }
}

/// A function, or a global declaration ending with `;`.
pub fn parse_gitem(seq: Sequence) -> (r: SeqPack<GItemNd>)
    ensures
        seq.at(0) is Some && seq.at(0)->0 is Type && seq.at(1) is Some && seq.at(1)->0 is Name && seq.is_tok(2, token_tag(Token::Semicolon)) ==> r is Some,
        shrinks(seq, r),
{
    if let Some((s, n)) = parse_func(seq.advance(0)) {
        return Some((s, GItemNd::Func(n)));
    }
    let (s, n) = parse_declare(seq)?;
    let (s, _) = s.eat(Token::Semicolon)?;
    Some((s, GItemNd::Declare(n)))
}

/// Top-level items up to the end of the input.
pub fn parse_root(seq: Sequence) -> (r: SeqPack<RootNd>)
    ensures
        seq.rest() == 0 ==> r is Some && (r->0).1.items@.len() == 0,
        r is Some ==> (r->0).0.rest() == 0,
{
    let mut items: Vec<GItemNd> = Vec::new();
    let mut mseq = seq;
    while !mseq.empty()
        invariant
            seq.rest() == 0 ==> mseq.rest() == 0 && items@.len() == 0,
        decreases mseq.rest(),
    {
        let (s, n) = parse_gitem(mseq)?;
        items.push(n);
        mseq = s;
    }
    Some((mseq, RootNd::new(items)))
}

impl Parser for VarNd {
    fn parse(seq: Sequence) -> SeqPack<Self> {
        parse_var(seq)
    }
}

impl Parser for FactorNd {
    fn parse(seq: Sequence) -> SeqPack<Self> {
        parse_factor(seq)
    }
}

impl Parser for ExprNd {
    fn parse(seq: Sequence) -> SeqPack<Self> {
        parse_expr(seq)
    }
}

impl Parser for AssignNd {
    fn parse(seq: Sequence) -> SeqPack<Self> {
        parse_assign(seq)
    }
}

impl Parser for DeclareNd {
    fn parse(seq: Sequence) -> SeqPack<Self> {
        parse_declare(seq)
    }
}

impl Parser for StmtNd {
    fn parse(seq: Sequence) -> SeqPack<Self> {
        parse_stmt(seq)
    }
}

impl Parser for IfNd {
    fn parse(seq: Sequence) -> SeqPack<Self> {
        parse_if(seq)
    }
}

impl Parser for ElsNd {
    fn parse(seq: Sequence) -> SeqPack<Self> {
        parse_els(seq)
    }
}

impl Parser for WhileNd {
    fn parse(seq: Sequence) -> SeqPack<Self> {
        parse_while(seq)
    }
}

impl Parser for BreakNd {
    fn parse(seq: Sequence) -> SeqPack<Self> {
        parse_break(seq)
    }
}

impl Parser for ContinueNd {
    fn parse(seq: Sequence) -> SeqPack<Self> {
        parse_continue(seq)
    }
}

impl Parser for ReturnNd {
    fn parse(seq: Sequence) -> SeqPack<Self> {
        parse_return(seq)
    }
}

impl Parser for ItemNd {
    fn parse(seq: Sequence) -> SeqPack<Self> {
        parse_item(seq)
    }
}

impl Parser for BlockNd {
    fn parse(seq: Sequence) -> SeqPack<Self> {
        parse_block(seq)
    }
}

impl Parser for FuncNd {
    fn parse(seq: Sequence) -> SeqPack<Self> {
        parse_func(seq)
    }
}

impl Parser for FuncCallNd {
    fn parse(seq: Sequence) -> SeqPack<Self> {
        parse_call(seq)
    }
}

impl Parser for GItemNd {
    fn parse(seq: Sequence) -> SeqPack<Self> {
        parse_gitem(seq)
    }
}

impl Parser for RootNd {
    fn parse(seq: Sequence) -> SeqPack<Self> {
        parse_root(seq)
    }
}

/// Reads a whole source text as a program: `LexErr` when it does not
/// split into tokens, `ParseErr` when it is not a sequence of top-level
/// items. A text without lexemes is the empty program.
pub fn parse_program(code: &str) -> (r: Result<RootNd, ErrKind>)
    ensures
        r is Err ==> r == Err::<RootNd, ErrKind>(ErrKind::LexErr) || r == Err::<RootNd, ErrKind>(ErrKind::ParseErr),
        (exists|i: int| 0 <= i < lexemes(code@).len() && bad_lexeme(#[trigger] lexemes(code@)[i]))
            <==> r == Err::<RootNd, ErrKind>(ErrKind::LexErr),
        lexemes(code@).len() == 0 ==> r is Ok && r->Ok_0.items@.len() == 0,
{
    let tokens = match lexer(code) {
        Ok(t) => t,
        Err(_) => return Err(ErrKind::LexErr),
    };
    match parse_root(Sequence::new(tokens)) {
        Some((seq, t)) => {
            if seq.empty() {
                Ok(t)
            } else {
                Err(ErrKind::ParseErr)
            }
        },
        None => Err(ErrKind::ParseErr),
    }
}

/// Reads a whole source text as one node: `LexErr` when it does not split
/// into tokens, `ParseErr` when the node cannot be read or tokens remain.
pub fn parse<T: Parser>(code: &str) -> (r: Result<T, ErrKind>)
    ensures
        r is Err ==> r == Err::<T, ErrKind>(ErrKind::LexErr) || r == Err::<T, ErrKind>(ErrKind::ParseErr),
        (exists|i: int| 0 <= i < lexemes(code@).len() && bad_lexeme(#[trigger] lexemes(code@)[i]))
            <==> r == Err::<T, ErrKind>(ErrKind::LexErr),
{
    let tokens = match lexer(code) {
        Ok(t) => t,
        Err(_) => return Err(ErrKind::LexErr),
    };
    match T::parse(Sequence::new(tokens)) {
        Some((seq, t)) => {
            if seq.empty() {
                Ok(t)
            } else {
                Err(ErrKind::ParseErr)
            }
        },
        None => Err(ErrKind::ParseErr),
    }
}

} // verus!
