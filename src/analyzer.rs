use crate::context::{
    is_int_var, binds, first_func_record, func_sig, has_binding, is_var_symbol, lemma_binding_unique, scope_of, Context,
};
use crate::err::{no_lex_err, ErrKind};
use crate::context::Semantic;
use crate::nodes::{
    lemma_const_run_alike, same_for_const, lemma_postfix_concat, postfix_depth, well_formed,
    AssignNd, BlockNd, BreakNd, CalcItem, ContinueNd, DeclareNd, ElsNd, ExprNd, FactorNd, FuncCallNd,
    FuncNd, GItemNd, IfNd, ItemNd, ReturnNd, RootNd, StmtNd, VarNd, WhileNd,
};
use crate::lexer::{bad_lexeme, lexemes};
use crate::parser::parse_program;
use crate::op::get_op_param_num;
use crate::token::{get_value_type, is_plain, same_scalar, same_type, same_type_at, Type};
use vstd::prelude::*;

verus! {

broadcast use vstd::std_specs::vec::group_vec_axioms;

/// Resolves a variable use: the annotated node and the symbol's type.
/// A name that resolves to a function is no variable: `TypeErr`.
pub fn analyze_var(v: &VarNd, cxt: &Context) -> (r: Result<(VarNd, Type), ErrKind>)
    requires
        cxt.wf(),
    ensures
        no_lex_err(r),
        scope_of(cxt.names@, cxt.scope_stack@, v.name@) is None ==> r == Err::<(VarNd, Type), ErrKind>(ErrKind::NoDeclare),
        r is Ok ==> r->Ok_0.0.name@ == v.name@
            && scope_of(cxt.names@, cxt.scope_stack@, v.name@) is Some
            && binds(cxt.names@, v.name@, scope_of(cxt.names@, cxt.scope_stack@, v.name@)->0, r->Ok_0.0.id)
            && !(r->Ok_0.1 is Func),
        scope_of(cxt.names@, cxt.scope_stack@, v.name@) is Some
            && (forall|id: usize| binds(cxt.names@, v.name@, scope_of(cxt.names@, cxt.scope_stack@, v.name@)->0, id)
                ==> is_var_symbol(*cxt, id)) ==> r is Ok,
        scope_of(cxt.names@, cxt.scope_stack@, v.name@) is Some
            && (forall|id: usize| binds(cxt.names@, v.name@, scope_of(cxt.names@, cxt.scope_stack@, v.name@)->0, id)
                ==> is_int_var(*cxt, id)) ==> r is Ok && r->Ok_0.1 == Type::Int,
{
    let id = cxt.fetch(v.name.as_str())?;
    proof {
        if scope_of(cxt.names@, cxt.scope_stack@, v.name@) is Some
            && (forall|id2: usize| binds(cxt.names@, v.name@, scope_of(cxt.names@, cxt.scope_stack@, v.name@)->0, id2)
                ==> is_var_symbol(*cxt, id2)) {
            assert(is_var_symbol(*cxt, id));
        }
        if scope_of(cxt.names@, cxt.scope_stack@, v.name@) is Some
            && (forall|id2: usize| binds(cxt.names@, v.name@, scope_of(cxt.names@, cxt.scope_stack@, v.name@)->0, id2)
                ==> is_int_var(*cxt, id2)) {
            assert(is_int_var(*cxt, id));
            assert(is_var_symbol(*cxt, id));
        }
    }
    let ty = cxt.get_type_by_id(id)?;
    proof {
        if scope_of(cxt.names@, cxt.scope_stack@, v.name@) is Some
            && (forall|id2: usize| binds(cxt.names@, v.name@, scope_of(cxt.names@, cxt.scope_stack@, v.name@)->0, id2)
                ==> is_var_symbol(*cxt, id2)) {
            assert(is_var_symbol(*cxt, id));
            let i = choose|i: int| 0 <= i < cxt.vars@.len() && (#[trigger] cxt.vars@[i]).id == id
                && (forall|j: int| 0 <= j < i ==> (#[trigger] cxt.vars@[j]).id != id)
                && !(cxt.vars@[i].ty is Func);
            assert(is_plain(cxt.vars@[i].ty));
            assert(same_type(ty, cxt.vars@[i].ty));
        }
        if scope_of(cxt.names@, cxt.scope_stack@, v.name@) is Some
            && (forall|id2: usize| binds(cxt.names@, v.name@, scope_of(cxt.names@, cxt.scope_stack@, v.name@)->0, id2)
                ==> is_int_var(*cxt, id2)) {
            assert(is_int_var(*cxt, id));
            let i = choose|i: int| 0 <= i < cxt.vars@.len() && (#[trigger] cxt.vars@[i]).id == id
                && (forall|j: int| 0 <= j < i ==> (#[trigger] cxt.vars@[j]).id != id)
                && cxt.vars@[i].ty is Int;
            assert(is_plain(cxt.vars@[i].ty));
            assert(same_type(ty, cxt.vars@[i].ty));
        }
    }
    if let Type::Func(_) = ty {
        return Err(ErrKind::TypeErr);
    }
    Ok((VarNd { name: v.name.clone(), id }, ty))
}

/// Resolves a call: the callee must be a function whose parameters match
/// the arguments in number and type; the call has the return type.
#[verifier::spinoff_prover]
#[verifier::rlimit(80)]
pub fn analyze_call(n: &FuncCallNd, cxt: &Context) -> (r: Result<(FuncCallNd, Type), ErrKind>)
    requires
        cxt.wf(),
    ensures
        no_lex_err(r),
        scope_of(cxt.names@, cxt.scope_stack@, n.var.name@) is None ==> r == Err::<(FuncCallNd, Type), ErrKind>(ErrKind::NoDeclare),
        r is Ok ==> r->Ok_0.0.params@.len() == n.params@.len(),
        forall|id: usize| #[trigger] binds(cxt.names@, n.var.name@, scope_of(cxt.names@, cxt.scope_stack@, n.var.name@)->0, id)
            && scope_of(cxt.names@, cxt.scope_stack@, n.var.name@) is Some ==> {
                &&& is_var_symbol(*cxt, id) ==> r == Err::<(FuncCallNd, Type), ErrKind>(ErrKind::TypeErr)
                &&& func_sig(*cxt, id) is Some && func_sig(*cxt, id)->0.len() != n.params@.len() + 1
                    ==> r == Err::<(FuncCallNd, Type), ErrKind>(ErrKind::TypeErr)
                &&& func_sig(*cxt, id) is Some && r is Ok ==> r->Ok_0.0.var.id == id
                    && same_type(r->Ok_0.1, func_sig(*cxt, id)->0.last())
            },
    decreases n,
{
    let id = cxt.fetch(n.var.name.as_str())?;
    proof {
        let sid = scope_of(cxt.names@, cxt.scope_stack@, n.var.name@)->0;
        assert forall|id2: usize| #[trigger] binds(cxt.names@, n.var.name@, sid, id2) implies id2 == id by {
            lemma_binding_unique(*cxt, n.var.name@, sid, id2, id);
        }
    }
    let ghost fs = func_sig(*cxt, id);
    proof {
        if is_var_symbol(*cxt, id) {
            let i = choose|i: int| 0 <= i < cxt.vars@.len() && (#[trigger] cxt.vars@[i]).id == id
                && (forall|j: int| 0 <= j < i ==> (#[trigger] cxt.vars@[j]).id != id)
                && !(cxt.vars@[i].ty is Func);
            assert(is_plain(cxt.vars@[i].ty));
        }
        if fs is Some {
            let i = choose|i: int| first_func_record(*cxt, id, i);
            assert(is_plain(cxt.funcs@[i].ty));
        }
    }
    let ty = cxt.get_type_by_id(id)?;
    proof {
        if fs is Some {
            let i = choose|i: int| first_func_record(*cxt, id, i);
            assert(same_type(ty, cxt.funcs@[i].ty));
        }
    }
    let ghost ty0 = ty;
    let sig = match ty {
        Type::Func(v) => v,
        _ => return Err(ErrKind::TypeErr),
    };
    proof {
        if fs is Some {
            let i = choose|i: int| first_func_record(*cxt, id, i);
            let x = cxt.funcs@[i].ty->Func_0@;
            assert(ty0 == Type::Func(sig));
            assert(same_type(ty0, cxt.funcs@[i].ty));
            assert(fs->0 == x);
            assert forall|q: int| 0 <= q < sig@.len() implies same_scalar(#[trigger] sig@[q], x[q]) by {
                assert(same_type_at(sig@, x, q));
            }
        }
    }
    if sig.len() == 0 || n.params.len() != sig.len() - 1 {
        return Err(ErrKind::TypeErr);
    }
    let mut params: Vec<ExprNd> = Vec::new();
    let mut i: usize = 0;
    while i < n.params.len()
        invariant
            cxt.wf(),
            scope_of(cxt.names@, cxt.scope_stack@, n.var.name@) is Some,
            params@.len() == i,
            n.params@.len() + 1 == sig@.len(),
            fs == func_sig(*cxt, id),
            fs is Some ==> fs->0.len() == sig@.len()
                && forall|q: int| 0 <= q < sig@.len() ==> same_scalar(#[trigger] sig@[q], fs->0[q]),
            forall|id2: usize| #[trigger] binds(cxt.names@, n.var.name@, scope_of(cxt.names@, cxt.scope_stack@, n.var.name@)->0, id2) ==> id2 == id,
            !is_var_symbol(*cxt, id),
            0 <= i <= n.params@.len(),
        decreases n.params@.len() - i,
    {
        proof {
            assert(decreases_to!(n.params => n.params@[i as int]));
        }
        let (e, t) = analyze_expr(&n.params[i], cxt)?;
        if !t.is_same_scalar(&sig[i]) {
            return Err(ErrKind::TypeErr);
        }
        params.push(e);
        i = i + 1;
    }
    let ret = sig[sig.len() - 1].scalar_copy();
    proof {
        if fs is Some {
            assert(same_scalar(sig@[sig@.len() - 1], fs->0[sig@.len() - 1]));
        }
    }
    Ok((FuncCallNd { var: VarNd { name: n.var.name.clone(), id }, params }, ret))
}

/// A variable operand `a` was resolved, as `b`, to the symbol its name
/// has in the innermost active scope that declares it.
pub open spec fn resolved(c: Context, a: CalcItem, b: CalcItem) -> bool {
    a matches CalcItem::Factor(FactorNd::Var(v)) ==> {
        &&& scope_of(c.names@, c.scope_stack@, v.name@) is Some
        &&& b matches CalcItem::Factor(FactorNd::Var(w))
        &&& w.name@ == v.name@
        &&& binds(c.names@, v.name@, scope_of(c.names@, c.scope_stack@, v.name@)->0, w.id)
    }
}

pub fn analyze_factor(f: &FactorNd, cxt: &Context) -> (r: Result<(FactorNd, Type), ErrKind>)
    requires
        cxt.wf(),
    ensures
        r is Ok ==> resolved(*cxt, CalcItem::Factor(*f), CalcItem::Factor(r->Ok_0.0)),
        f is Var && scope_of(cxt.names@, cxt.scope_stack@, f->Var_0.name@) is None
            ==> r == Err::<(FactorNd, Type), ErrKind>(ErrKind::NoDeclare),
        no_lex_err(r),
        r is Ok ==> same_for_const(CalcItem::Factor(*f), CalcItem::Factor(r->Ok_0.0)),
        f is Value ==> r is Ok && r->Ok_0.1 == Type::Int,
    decreases f,
{
    match f {
        FactorNd::Var(v) => {
            let (v, t) = analyze_var(v, cxt)?;
            Ok((FactorNd::Var(v), t))
        },
        FactorNd::Value(v) => Ok((FactorNd::Value(*v), get_value_type(*v))),
        FactorNd::Func(c) => {
            let (c, t) = analyze_call(c, cxt)?;
            Ok((FactorNd::Func(c), t))
        },
    }
}

/// A well-formed postfix expression made of literals and operators only.
pub open spec fn constant_shaped(items: Seq<CalcItem>) -> bool {
    &&& well_formed(items)
    &&& forall|k: int| 0 <= k < items.len() ==> (#[trigger] items[k] is Op || items[k] matches CalcItem::Factor(FactorNd::Value(_)))
}

/// Type-checks a postfix expression: every operator takes `int` operands
/// and gives `int`, and the expression leaves exactly one value.
pub fn analyze_expr(e: &ExprNd, cxt: &Context) -> (r: Result<(ExprNd, Type), ErrKind>)
    requires
        cxt.wf(),
    ensures
        no_lex_err(r),
        r is Ok ==> well_formed(r->Ok_0.0.stack@) && r->Ok_0.0.stack@.len() == e.stack@.len()
            && forall|k: int| 0 <= k < e.stack@.len() && #[trigger] e.stack@[k] is Op
                ==> r->Ok_0.0.stack@[k] == e.stack@[k],
        r is Ok && e.stack@.len() > 0 && e.stack@.last() is Op ==> r->Ok_0.1 == Type::Int,
        constant_shaped(e.stack@) ==> r is Ok && r->Ok_0.1 == Type::Int,
        r is Ok ==> forall|k: int| 0 <= k < e.stack@.len() ==> same_for_const(#[trigger] e.stack@[k], r->Ok_0.0.stack@[k]),
        r is Ok ==> forall|k: int| 0 <= k < e.stack@.len() ==> resolved(*cxt, #[trigger] e.stack@[k], r->Ok_0.0.stack@[k]),
    decreases e,
{
    let mut st: Vec<Type> = Vec::new();
    let mut items: Vec<CalcItem> = Vec::new();
    let mut i: usize = 0;
    proof {
        assert(postfix_depth(items@, 0) == Some(0int));
    }
    while i < e.stack.len()
        invariant
            cxt.wf(),
            0 <= i <= e.stack@.len(),
            items@.len() == i,
            postfix_depth(items@, 0) == Some(st@.len() as int),
            forall|k: int| 0 <= k < i && #[trigger] e.stack@[k] is Op ==> items@[k] == e.stack@[k],
            i > 0 && e.stack@[i - 1] is Op ==> st@.len() > 0 && st@.last() == Type::Int,
            forall|k: int| 0 <= k < i ==> same_for_const(#[trigger] e.stack@[k], items@[k]),
            forall|k: int| 0 <= k < i ==> resolved(*cxt, #[trigger] e.stack@[k], items@[k]),
            constant_shaped(e.stack@) ==> postfix_depth(e.stack@.take(i as int), 0) == Some(st@.len() as int)
                && forall|k: int| 0 <= k < st@.len() ==> #[trigger] st@[k] == Type::Int,
        decreases e.stack@.len() - i,
    {
        proof {
            assert(decreases_to!(e.stack => e.stack@[i as int]));
            if constant_shaped(e.stack@) {
                let pre = e.stack@.take(i as int);
                let one = seq![e.stack@[i as int]];
                assert(e.stack@.take(i + 1) =~= pre + one);
                assert(e.stack@ =~= e.stack@.take(i + 1) + e.stack@.skip(i + 1));
                lemma_postfix_concat(e.stack@.take(i + 1), e.stack@.skip(i + 1), 0);
                lemma_postfix_concat(pre, one, 0);
                assert(one.drop_first() =~= Seq::<CalcItem>::empty());
            }
        }
        let ghost st_before = st@;
        match &e.stack[i] {
            CalcItem::Op(op) => {
                let num = get_op_param_num(*op);
                let ghost n0 = st@.len();
                proof {
                    if constant_shaped(e.stack@) {
                        let one = seq![e.stack@[i as int]];
                        assert(postfix_depth(e.stack@.take(i + 1), 0) is Some);
                        assert(postfix_depth(one, n0 as int) is Some);
                        assert(n0 >= num);
                        assert(st_before.take(st@.len() as int) =~= st@);
                    }
                }
                let mut k: usize = 0;
                while k < num
                    invariant
                        cxt.wf(),
                        0 <= k <= num,
                        st@.len() + k == n0,
                        st@ == st_before.take(st@.len() as int),
                        n0 == st_before.len(),
                        constant_shaped(e.stack@) ==> n0 >= num
                            && forall|q: int| 0 <= q < st_before.len() ==> #[trigger] st_before[q] == Type::Int,
                    decreases num - k,
                {
                    let ghost pre = st@;
                    proof {
                        if constant_shaped(e.stack@) {
                            assert(st@.len() > 0);
                            assert(st@.last() == st_before[st@.len() - 1]);
                        }
                    }
                    match st.pop() {
                        Some(Type::Int) => {},
                        _ => return Err(ErrKind::TypeErr),
                    }
                    proof {
                        assert(st@ =~= pre.drop_last());
                        assert(st@ =~= st_before.take(st@.len() as int));
                    }
                    k = k + 1;
                }
                st.push(Type::Int);
                let ghost i0 = items@;
                items.push(CalcItem::Op(*op));
                proof {
                    let t = seq![CalcItem::Op(*op)];
                    lemma_postfix_concat(i0, t, 0);
                    assert(items@ =~= i0 + t);
                    assert(t.drop_first() =~= Seq::<CalcItem>::empty());
                    assert(postfix_depth(t.drop_first(), n0 - num + 1) == Some(n0 - num + 1));
                    if constant_shaped(e.stack@) {
                        let one = seq![e.stack@[i as int]];
                        assert(one =~= t);
                        assert(postfix_depth(e.stack@.take(i + 1), 0) == Some(st@.len() as int));
                        assert forall|q: int| 0 <= q < st@.len() implies #[trigger] st@[q] == Type::Int by {
                            if q < st@.len() - 1 {
                                assert(st@[q] == st_before[q]);
                            }
                        }
                    }
                }
            },
            CalcItem::Factor(f) => {
                let (f, t) = analyze_factor(f, cxt)?;
                st.push(t);
                let ghost i0 = items@;
                items.push(CalcItem::Factor(f));
                proof {
                    let tl = seq![items@.last()];
                    lemma_postfix_concat(i0, tl, 0);
                    assert(items@ =~= i0 + tl);
                    assert(tl.drop_first() =~= Seq::<CalcItem>::empty());
                    assert(postfix_depth(tl.drop_first(), st@.len() as int) == Some(st@.len() as int));
                    if constant_shaped(e.stack@) {
                        let one = seq![e.stack@[i as int]];
                        assert(postfix_depth(one.drop_first(), st@.len() as int) == Some(st@.len() as int));
                        assert(postfix_depth(e.stack@.take(i + 1), 0) == Some(st@.len() as int));
                        assert forall|q: int| 0 <= q < st@.len() implies #[trigger] st@[q] == Type::Int by {
                            if q < st@.len() - 1 {
                                assert(st@[q] == st_before[q]);
                            }
                        }
                    }
                }
            },
        }
        i = i + 1;
    }
    proof {
        if constant_shaped(e.stack@) {
            assert(e.stack@.take(i as int) =~= e.stack@);
        }
    }
    if st.len() != 1 {
        return Err(ErrKind::TypeErr);
    }
    proof {
        if constant_shaped(e.stack@) {
            assert(st@[0] == Type::Int);
        }
    }
    let t = st.pop().unwrap();
    Ok((ExprNd { stack: items }, t))
}

/// `var = expr`: both sides must have the same type.
pub fn analyze_assign(n: &AssignNd, cxt: &Context) -> (r: Result<AssignNd, ErrKind>)
    requires
        cxt.wf(),
    ensures
        no_lex_err(r),
        constant_shaped(n.expr.stack@) && scope_of(cxt.names@, cxt.scope_stack@, n.var.name@) is Some
            && (forall|id: usize| binds(cxt.names@, n.var.name@, scope_of(cxt.names@, cxt.scope_stack@, n.var.name@)->0, id)
                ==> is_int_var(*cxt, id)) ==> r is Ok,
        scope_of(cxt.names@, cxt.scope_stack@, n.var.name@) is None && constant_shaped(n.expr.stack@)
            ==> r == Err::<AssignNd, ErrKind>(ErrKind::NoDeclare),
        r is Ok ==> r->Ok_0.var.name@ == n.var.name@
            && binds(cxt.names@, n.var.name@, scope_of(cxt.names@, cxt.scope_stack@, n.var.name@)->0, r->Ok_0.var.id),
{
    let (e, t) = analyze_expr(&n.expr, cxt)?;
    let (v, vt) = analyze_var(&n.var, cxt)?;
    if !t.is_same_scalar(&vt) {
        return Err(ErrKind::TypeErr);
    }
    Ok(AssignNd { var: v, expr: e })
}

/// `ty name = expr`: the initializer must have the declared type; the name
/// is then declared in the innermost scope.
pub fn analyze_declare(n: &DeclareNd, cxt: &mut Context) -> (r: Result<DeclareNd, ErrKind>)
    requires
        old(cxt).wf(),
    ensures
        final(cxt).funcs == old(cxt).funcs,
        no_lex_err(r),
        final(cxt).wf(),
        final(cxt).scope_stack@ == old(cxt).scope_stack@,
        r is Ok ==> crate::nodes::const_value_of(r->Ok_0) == crate::nodes::const_value_of(*n),
        n.expr is None && has_binding(old(cxt).names@, n.var.name@, old(cxt).top())
            ==> r == Err::<DeclareNd, ErrKind>(ErrKind::ReDeclare),
        n.expr is None && !has_binding(old(cxt).names@, n.var.name@, old(cxt).top())
            && old(cxt).mem_layout@.len() + 1 < usize::MAX && old(cxt).cur_offset + 1 <= usize::MAX
            ==> r is Ok && r->Ok_0.expr is None,
        n.expr is Some && constant_shaped(n.expr->0.stack@) && n.ty is Int
            && !has_binding(old(cxt).names@, n.var.name@, old(cxt).top())
            && old(cxt).mem_layout@.len() + 1 < usize::MAX && old(cxt).cur_offset + 1 <= usize::MAX
            ==> r is Ok,
        r is Err ==> *final(cxt) == *old(cxt),
        r is Ok ==> !has_binding(old(cxt).names@, n.var.name@, old(cxt).top())
            && binds(final(cxt).names@, n.var.name@, old(cxt).top(), r->Ok_0.var.id),
{
    let expr = match &n.expr {
        Some(ex) => {
            let (e, t) = analyze_expr(ex, cxt)?;
            if !t.is_same_scalar(&n.ty) {
                return Err(ErrKind::TypeErr);
            }
            proof {
                lemma_const_run_alike(ex.stack@, e.stack@, seq![]);
            }
            Some(e)
        },
        None => None,
    };
    let id = cxt.declare_var(n.var.name.as_str(), &n.ty)?;
    Ok(DeclareNd { ty: n.ty.duplicate(), var: VarNd { name: n.var.name.clone(), id }, expr })
}

pub fn analyze_stmt(n: &StmtNd, cxt: &mut Context) -> (r: Result<StmtNd, ErrKind>)
    requires
        old(cxt).wf(),
    ensures
        final(cxt).funcs == old(cxt).funcs,
        n is Empty ==> r is Ok && *final(cxt) == *old(cxt),
        n is Assign && constant_shaped(n->Assign_0.expr.stack@)
            && scope_of(old(cxt).names@, old(cxt).scope_stack@, n->Assign_0.var.name@) is None
            ==> r == Err::<StmtNd, ErrKind>(ErrKind::NoDeclare),
        n is Assign && constant_shaped(n->Assign_0.expr.stack@)
            && scope_of(old(cxt).names@, old(cxt).scope_stack@, n->Assign_0.var.name@) is Some
            && (forall|id: usize| binds(old(cxt).names@, n->Assign_0.var.name@,
                scope_of(old(cxt).names@, old(cxt).scope_stack@, n->Assign_0.var.name@)->0, id)
                ==> is_int_var(*old(cxt), id)) ==> r is Ok,
        n is Expr && constant_shaped(n->Expr_0.stack@) ==> r is Ok,
        n is Print && scope_of(old(cxt).names@, old(cxt).scope_stack@, n->Print_0.name@) is Some
            && (forall|id: usize| binds(old(cxt).names@, n->Print_0.name@,
                scope_of(old(cxt).names@, old(cxt).scope_stack@, n->Print_0.name@)->0, id)
                ==> is_var_symbol(*old(cxt), id)) ==> r is Ok,
        n is Print ==> (scope_of(old(cxt).names@, old(cxt).scope_stack@, n->Print_0.name@) is None
            ==> r == Err::<StmtNd, ErrKind>(ErrKind::NoDeclare)),
        no_lex_err(r),
        final(cxt).wf(),
        final(cxt).scope_stack@ == old(cxt).scope_stack@,
{
    match n {
        StmtNd::Assign(a) => Ok(StmtNd::Assign(analyze_assign(a, cxt)?)),
        StmtNd::Declare(d) => Ok(StmtNd::Declare(analyze_declare(d, cxt)?)),
        StmtNd::Expr(e) => {
            let (e, _) = analyze_expr(e, cxt)?;
            Ok(StmtNd::Expr(e))
        },
        StmtNd::Print(v) => {
            let (v, _) = analyze_var(v, cxt)?;
            Ok(StmtNd::Print(v))
        },
        StmtNd::Empty => Ok(StmtNd::Empty),
    }
}

/// Words to drop when jumping out of the innermost loop: what was
/// allocated since the loop began. `JumpNoLoop` outside any loop.
fn loop_exit(cxt: &Context) -> (r: Result<(usize, usize), ErrKind>)
    requires
        cxt.wf(),
    ensures
        no_lex_err(r),
        !cxt.in_loop() ==> r == Err::<(usize, usize), ErrKind>(ErrKind::JumpNoLoop),
        cxt.in_loop() ==> r is Ok,
        r is Ok ==> (exists|k: int| 1 <= k < cxt.scope_stack@.len() && cxt.scope_stack@[k] == (r->Ok_0).0)
            && (r->Ok_0).1 == cxt.cur_offset - cxt.mem_layout@[(r->Ok_0).0 as int].offset,
{
    match cxt.find_loop() {
        Some(id) => {
            let base = cxt.mem_layout[id].offset;
            Ok((id, cxt.cur_offset - base))
        },
        None => Err(ErrKind::JumpNoLoop),
    }
}

/// Analyzes an item of a function body into an annotated copy: a loop
/// opens a scope of its own, `break` and `continue` record their loop and
/// the words to drop, `return` the number of result words `ret_sz`. On
/// success the active scopes are as before.
pub fn analyze_item(n: &ItemNd, cxt: &mut Context, ret_sz: usize) -> (r: Result<ItemNd, ErrKind>)
    requires
        old(cxt).wf(),
        old(cxt).scope_stack@.len() >= 2,
    ensures
        final(cxt).funcs == old(cxt).funcs,
        no_lex_err(r),
        final(cxt).wf(),
        r is Ok ==> final(cxt).scope_stack@ == old(cxt).scope_stack@,
        n matches ItemNd::Stmt(StmtNd::Empty) ==> r is Ok,
        (n is Break || n is Continue) && !old(cxt).in_loop() ==> r == Err::<ItemNd, ErrKind>(ErrKind::JumpNoLoop),
        (n is Break || n is Continue) && old(cxt).in_loop() ==> r is Ok && match r->Ok_0 {
            ItemNd::Break(b) => n is Break && (exists|k: int| 1 <= k < old(cxt).scope_stack@.len() && old(cxt).scope_stack@[k] == b.id)
                && b.pop == old(cxt).cur_offset - old(cxt).mem_layout@[b.id as int].offset,
            ItemNd::Continue(c) => n is Continue && (exists|k: int| 1 <= k < old(cxt).scope_stack@.len() && old(cxt).scope_stack@[k] == c.id)
                && c.pop == old(cxt).cur_offset - old(cxt).mem_layout@[c.id as int].offset,
            _ => false,
        },
    decreases n,
{
    match n {
        ItemNd::Stmt(s) => Ok(ItemNd::Stmt(analyze_stmt(s, cxt)?)),
        ItemNd::Block(b) => Ok(ItemNd::Block(analyze_block(b, cxt, ret_sz)?)),
        ItemNd::If(i) => Ok(ItemNd::If(analyze_if(i, cxt, ret_sz)?)),
        ItemNd::While(w) => {
            let id = cxt.enter_scope(true)?;
            let (e, _) = analyze_expr(&w.expr, cxt)?;
            let it = analyze_item(&w.item, cxt, ret_sz)?;
            cxt.exit_scope();
            Ok(ItemNd::While(WhileNd { id, expr: e, item: Box::new(it) }))
        },
        ItemNd::Break(_) => {
            let (id, pop) = loop_exit(cxt)?;
            Ok(ItemNd::Break(BreakNd { id, pop }))
        },
        ItemNd::Continue(_) => {
            let (id, pop) = loop_exit(cxt)?;
            Ok(ItemNd::Continue(ContinueNd { id, pop }))
        },
        ItemNd::Return(rn) => {
            let expr = match &rn.expr {
                Some(ex) => {
                    let (e, _) = analyze_expr(ex, cxt)?;
                    Some(e)
                },
                None => None,
            };
            Ok(ItemNd::Return(ReturnNd { expr, sz: ret_sz }))
        },
    }
}

/// `if`: the whole statement and the first branch each get a region.
pub fn analyze_if(n: &IfNd, cxt: &mut Context, ret_sz: usize) -> (r: Result<IfNd, ErrKind>)
    requires
        old(cxt).wf(),
        old(cxt).scope_stack@.len() >= 2,
    ensures
        final(cxt).funcs == old(cxt).funcs,
        no_lex_err(r),
        final(cxt).wf(),
        r is Ok ==> final(cxt).scope_stack@ == old(cxt).scope_stack@,
        constant_shaped(n.expr.stack@) && (*n.item matches ItemNd::Stmt(StmtNd::Empty)) && n.els is None
            && old(cxt).mem_layout@.len() + 2 < usize::MAX ==> r is Ok
            && r->Ok_0.id == old(cxt).mem_layout@.len() && r->Ok_0.then_id == old(cxt).mem_layout@.len() + 1,
    decreases n,
{
    let id = cxt.enter_scope(false)?;
    let (e, _) = analyze_expr(&n.expr, cxt)?;
    let then_id = cxt.enter_scope(false)?;
    let it = analyze_item(&n.item, cxt, ret_sz)?;
    cxt.exit_scope();
    let els = match &n.els {
        Some(b) => {
            let el = match &**b {
                ElsNd::If(i) => ElsNd::If(Box::new(analyze_if(i, cxt, ret_sz)?)),
                ElsNd::Item(i) => ElsNd::Item(Box::new(analyze_item(i, cxt, ret_sz)?)),
            };
            Some(Box::new(el))
        },
        None => None,
    };
    cxt.exit_scope();
    Ok(IfNd { id, then_id, expr: e, item: Box::new(it), els })
}

/// `{ ... }` opens a scope of its own.
pub fn analyze_block(n: &BlockNd, cxt: &mut Context, ret_sz: usize) -> (r: Result<BlockNd, ErrKind>)
    requires
        old(cxt).wf(),
        old(cxt).scope_stack@.len() >= 1,
    ensures
        final(cxt).funcs == old(cxt).funcs,
        n.items@.len() == 0 && old(cxt).mem_layout@.len() + 1 < usize::MAX ==> r is Ok
            && r->Ok_0.id == old(cxt).mem_layout@.len() && r->Ok_0.items@.len() == 0,
        no_lex_err(r),
        final(cxt).wf(),
        r is Ok ==> final(cxt).scope_stack@ == old(cxt).scope_stack@,
    decreases n,
{
    let id = cxt.enter_scope(false)?;
    let mut items: Vec<ItemNd> = Vec::new();
    let mut i: usize = 0;
    while i < n.items.len()
        invariant
            cxt.wf(),
            cxt.scope_stack@ == old(cxt).scope_stack@.push(id),
            cxt.scope_stack@.len() >= 2,
            cxt.funcs == old(cxt).funcs,
            0 <= i <= n.items@.len(),
            items@.len() == i,
        decreases n.items@.len() - i,
    {
        proof {
            assert(decreases_to!(n.items => n.items@[i as int]));
        }
        let it = analyze_item(&n.items[i], cxt, ret_sz)?;
        items.push(it);
        i = i + 1;
    }
    cxt.exit_scope();
    proof {
        assert(cxt.scope_stack@ =~= old(cxt).scope_stack@);
    }
    Ok(BlockNd { id, items })
}

/// A function: a declaration registers the signature; a definition must
/// name every parameter (`FormatErr`), is defined, and has its parameters
/// and body analyzed in a scope of its own.
pub fn analyze_func(n: &FuncNd, cxt: &mut Context) -> (r: Result<FuncNd, ErrKind>)
    requires
        old(cxt).wf(),
        old(cxt).scope_stack@.len() == 1,
    ensures
        no_lex_err(r),
        final(cxt).wf(),
        r is Ok ==> final(cxt).scope_stack@.len() == 1,
        n.block is None && !has_binding(old(cxt).names@, n.var.name@, old(cxt).top())
            && old(cxt).mem_layout@.len() + 1 < usize::MAX ==> r is Ok,
        n.block is None && r is Ok ==> final(cxt).funcs@.len() == old(cxt).funcs@.len() + 1
            && final(cxt).funcs@.drop_last() == old(cxt).funcs@
            && final(cxt).funcs@.last().id == r->Ok_0.var.id && !final(cxt).funcs@.last().has_impl,
        n.block is Some && (exists|i: int| 0 <= i < n.params@.len() && (#[trigger] n.params@[i]).1 is None)
            ==> r == Err::<FuncNd, ErrKind>(ErrKind::FormatErr) && *final(cxt) == *old(cxt),
        n.block is Some && r is Ok ==> exists|i: int| 0 <= i < final(cxt).funcs@.len()
            && (#[trigger] final(cxt).funcs@[i]).id == r->Ok_0.var.id && final(cxt).funcs@[i].has_impl,
        n.block is Some && (forall|i: int| 0 <= i < n.params@.len() ==> (#[trigger] n.params@[i]).1 is Some) ==>
            forall|id: usize, i: int| #[trigger] binds(old(cxt).names@, n.var.name@,
                scope_of(old(cxt).names@, old(cxt).scope_stack@, n.var.name@)->0, id)
                && scope_of(old(cxt).names@, old(cxt).scope_stack@, n.var.name@) is Some
                && #[trigger] first_func_record(*old(cxt), id, i) && old(cxt).funcs@[i].has_impl
                ==> r == Err::<FuncNd, ErrKind>(ErrKind::ReImpl),
{
    let ty = n.func_ty();
    let name = n.var.name.as_str();
    match &n.block {
        None => {
            let id = cxt.declare_fn(name, &ty)?;
            let mut params: Vec<(Type, Option<VarNd>)> = Vec::new();
            let mut i: usize = 0;
            while i < n.params.len()
                decreases n.params@.len() - i,
            {
                params.push((n.params[i].0.duplicate(), None));
                i = i + 1;
            }
            Ok(FuncNd { ret_ty: n.ret_ty.duplicate(), var: VarNd { name: n.var.name.clone(), id }, params, block: None })
        },
        Some(b) => {
            if !n.check() {
                return Err(ErrKind::FormatErr);
            }
            let ghost c0 = *cxt;
            let res = cxt.impl_fn(name, &ty);
            proof {
                assert forall|id: usize, i: int| #[trigger] binds(c0.names@, n.var.name@,
                    scope_of(c0.names@, c0.scope_stack@, n.var.name@)->0, id)
                    && scope_of(c0.names@, c0.scope_stack@, n.var.name@) is Some
                    && #[trigger] first_func_record(c0, id, i) && c0.funcs@[i].has_impl
                    implies res == Err::<usize, ErrKind>(ErrKind::ReImpl) by {
                    assert(c0.funcs@[i].id == id);
                }
            }
            let ghost reimpl = exists|id: usize, i: int| #[trigger] binds(c0.names@, n.var.name@,
                    scope_of(c0.names@, c0.scope_stack@, n.var.name@)->0, id)
                    && scope_of(c0.names@, c0.scope_stack@, n.var.name@) is Some
                    && #[trigger] first_func_record(c0, id, i) && c0.funcs@[i].has_impl;
            let id = res?;
            assert(!reimpl);
            let ret_sz: usize = match n.ret_ty {
                Type::Void => 0,
                _ => 1,
            };
            cxt.enter_scope(false)?;
            let mut params: Vec<(Type, Option<VarNd>)> = Vec::new();
            let mut i: usize = 0;
            while i < n.params.len()
                invariant
                    cxt.wf(),
                    cxt.scope_stack@.len() == 2,
                    n.block is Some,
                    forall|q: int| 0 <= q < n.params@.len() ==> (#[trigger] n.params@[q]).1 is Some,
                    c0 == *old(cxt),
                    reimpl == (exists|id: usize, i: int| #[trigger] binds(c0.names@, n.var.name@,
                    scope_of(c0.names@, c0.scope_stack@, n.var.name@)->0, id)
                    && scope_of(c0.names@, c0.scope_stack@, n.var.name@) is Some
                    && #[trigger] first_func_record(c0, id, i) && c0.funcs@[i].has_impl),
                    !reimpl,
                    exists|k: int| 0 <= k < cxt.funcs@.len() && (#[trigger] cxt.funcs@[k]).id == id && cxt.funcs@[k].has_impl,
                    0 <= i <= n.params@.len(),
                decreases n.params@.len() - i,
            {
                let p = &n.params[i];
                match &p.1 {
                    Some(v) => {
                        let vid = cxt.declare_var(v.name.as_str(), &p.0)?;
                        params.push((p.0.duplicate(), Some(VarNd { name: v.name.clone(), id: vid })));
                    },
                    None => return Err(ErrKind::FormatErr),
                }
                i = i + 1;
            }
            let blk = analyze_block(b, cxt, ret_sz)?;
            cxt.exit_scope();
            Ok(FuncNd { ret_ty: n.ret_ty.duplicate(), var: VarNd { name: n.var.name.clone(), id }, params, block: Some(blk) })
        },
    }
}

/// A global declaration needs a constant initializer: `GlobalNeedConst`
/// otherwise, before its names are resolved.
pub fn analyze_gitem(n: &GItemNd, cxt: &mut Context) -> (r: Result<GItemNd, ErrKind>)
    requires
        old(cxt).wf(),
        old(cxt).scope_stack@.len() == 1,
    ensures
        no_lex_err(r),
        final(cxt).wf(),
        r is Ok ==> final(cxt).scope_stack@.len() == 1,
        r is Ok && n is Declare ==> r->Ok_0 is Declare && crate::nodes::const_value_of(r->Ok_0->Declare_0) is Some,
        n is Declare && crate::nodes::const_value_of(n->Declare_0) is None
            ==> r == Err::<GItemNd, ErrKind>(ErrKind::GlobalNeedConst) && *final(cxt) == *old(cxt),
        n is Declare && crate::nodes::const_value_of(n->Declare_0) is Some
            && (n->Declare_0.expr is None || (constant_shaped(n->Declare_0.expr->0.stack@) && n->Declare_0.ty is Int))
            && !has_binding(old(cxt).names@, n->Declare_0.var.name@, old(cxt).top())
            && old(cxt).mem_layout@.len() + 1 < usize::MAX && old(cxt).cur_offset + 1 <= usize::MAX
            ==> r is Ok,
        r is Ok ==> (n is Declare <==> r->Ok_0 is Declare),
{
    match n {
        GItemNd::Func(f) => Ok(GItemNd::Func(analyze_func(f, cxt)?)),
        GItemNd::Declare(d) => {
            if d.try_retrieve_const().is_none() {
                return Err(ErrKind::GlobalNeedConst);
            }
            let d = analyze_declare(d, cxt)?;
            Ok(GItemNd::Declare(d))
        },
    }
}

/// Analyzes a whole program, item by item, in one context.
pub fn analyze_root(n: &RootNd, cxt: &mut Context) -> (r: Result<RootNd, ErrKind>)
    requires
        old(cxt).wf(),
        old(cxt).scope_stack@.len() == 1,
    ensures
        no_lex_err(r),
        final(cxt).wf(),
        r is Ok ==> final(cxt).scope_stack@.len() == 1,
        n.items@.len() == 0 ==> r is Ok && *final(cxt) == *old(cxt),
{
    let mut items: Vec<GItemNd> = Vec::new();
    let mut i: usize = 0;
    while i < n.items.len()
        invariant
            cxt.wf(),
            cxt.scope_stack@.len() == 1,
            0 <= i <= n.items@.len(),
            n.items@.len() == 0 ==> *cxt == *old(cxt),
        decreases n.items@.len() - i,
    {
        let it = analyze_gitem(&n.items[i], cxt)?;
        items.push(it);
        i = i + 1;
    }
    Ok(RootNd { items })
}

/// Parses and analyzes source text: the program with every name resolved,
/// and the symbol and layout tables.
pub fn analyze(code: &str) -> (r: Result<(RootNd, Semantic), ErrKind>)
    ensures
        (exists|i: int| 0 <= i < lexemes(code@).len() && bad_lexeme(#[trigger] lexemes(code@)[i]))
            <==> r == Err::<(RootNd, Semantic), ErrKind>(ErrKind::LexErr),
        lexemes(code@).len() == 0 ==> r == Err::<(RootNd, Semantic), ErrKind>(ErrKind::NoMainFunc),
        r is Ok ==> r->Ok_0.1.well_formed(),
{
    let nd = parse_program(code)?;
    let mut cxt = Context::new();
    let nd = analyze_root(&nd, &mut cxt)?;
    proof {
        if lexemes(code@).len() == 0 {
            crate::context::lemma_undeclared_name_resolves_nowhere(cxt.names@, cxt.scope_stack@, "main"@);
        }
    }
    let s = Semantic::new(cxt)?;
    Ok((nd, s))
}

} // verus!
