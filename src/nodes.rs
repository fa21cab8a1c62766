use crate::err::ErrKind;
use crate::op::{calc_op_1, calc_op_2, eval_op_1, eval_op_2, get_op_param_num, op_arity, Op};
use crate::token::{is_plain, same_type, Type, Value};
use vstd::prelude::*;

verus! {

/// An operand: a variable, a literal, or a function call.
#[derive(Debug)]
pub enum FactorNd {
    Var(VarNd),
    Value(Value),
    Func(FuncCallNd),
}

/// One entry of an expression in postfix order.
#[derive(Debug)]
pub enum CalcItem {
    Op(Op),
    Factor(FactorNd),
}

/// An expression, as its items in postfix order.
#[derive(Debug)]
pub struct ExprNd {
    pub stack: Vec<CalcItem>,
}

/// One step of evaluating a postfix sequence of literals and operators;
/// `None` where an item is not a literal, an operand is missing, or the
/// operator fails.
pub open spec fn const_step(it: CalcItem, st: Seq<i32>) -> Option<Seq<i32>> {
    match it {
        CalcItem::Factor(FactorNd::Value(Value::Int(n))) => Some(st.push(n)),
        CalcItem::Op(op) => {
            if op_arity(op) == 1 {
                if st.len() >= 1 {
                    Some(st.drop_last().push(eval_op_1(op, st.last())))
                } else {
                    None
                }
            } else if st.len() >= 2 {
                match eval_op_2(op, st[st.len() - 2], st.last()) {
                    Ok(v) => Some(st.drop_last().drop_last().push(v)),
                    Err(_) => None,
                }
            } else {
                None
            }
        },
        _ => None,
    }
}

/// Evaluates postfix items from the stack `st` on.
pub open spec fn const_run(items: Seq<CalcItem>, st: Seq<i32>) -> Option<Seq<i32>>
    decreases items.len(),
{
    if items.len() == 0 {
        Some(st)
    } else {
        match const_step(items[0], st) {
            Some(st2) => const_run(items.drop_first(), st2),
            None => None,
        }
    }
}

/// The value of a postfix expression made of literals and operators only,
/// when it leaves exactly one value.
pub open spec fn const_value(items: Seq<CalcItem>) -> Option<i32> {
    match const_run(items, seq![]) {
        Some(st) => if st.len() == 1 { Some(st[0]) } else { None },
        None => None,
    }
}

/// Stack depth after evaluating postfix `items` from depth `d`, counting
/// one value per operand and `1 - arity` per operator; `None` where an
/// operator lacks operands.
pub open spec fn postfix_depth(items: Seq<CalcItem>, d: int) -> Option<int>
    decreases items.len(),
{
    if items.len() == 0 {
        Some(d)
    } else {
        match items[0] {
            CalcItem::Factor(_) => postfix_depth(items.drop_first(), d + 1),
            CalcItem::Op(op) => if d >= op_arity(op) {
                postfix_depth(items.drop_first(), d - op_arity(op) + 1)
            } else {
                None
            },
        }
    }
}

/// A well-formed postfix expression: it never lacks an operand and leaves
/// exactly one value.
pub open spec fn well_formed(items: Seq<CalcItem>) -> bool {
    postfix_depth(items, 0) == Some(1int)
}

/// Evaluating a concatenation evaluates its parts in turn.
pub proof fn lemma_postfix_concat(a: Seq<CalcItem>, b: Seq<CalcItem>, d: int)
    ensures
        postfix_depth(a + b, d) == match postfix_depth(a, d) {
            Some(k) => postfix_depth(b, k),
            None => None,
        },
    decreases a.len(),
{
    if a.len() > 0 {
        assert((a + b).drop_first() =~= a.drop_first() + b);
        assert((a + b)[0] == a[0]);
        match a[0] {
            CalcItem::Factor(_) => lemma_postfix_concat(a.drop_first(), b, d + 1),
            CalcItem::Op(op) => {
                if d >= op_arity(op) {
                    lemma_postfix_concat(a.drop_first(), b, d - op_arity(op) + 1);
                }
            },
        }
    } else {
        assert(a + b =~= b);
    }
}

/// Values already on the stack only raise the depth.
pub proof fn lemma_postfix_shift(a: Seq<CalcItem>, d: int, e: int)
    requires
        d >= 0,
        e >= 0,
        postfix_depth(a, d) is Some,
    ensures
        postfix_depth(a, d + e) == Some(postfix_depth(a, d)->0 + e),
    decreases a.len(),
{
    if a.len() > 0 {
        match a[0] {
            CalcItem::Factor(_) => lemma_postfix_shift(a.drop_first(), d + 1, e),
            CalcItem::Op(op) => lemma_postfix_shift(a.drop_first(), d - op_arity(op) + 1, e),
        }
    }
}

/// Two postfix items that constant evaluation treats alike: the same
/// operator, the same literal, or both something else.
pub open spec fn same_for_const(a: CalcItem, b: CalcItem) -> bool {
    match (a, b) {
        (CalcItem::Op(x), CalcItem::Op(y)) => x == y,
        (CalcItem::Factor(FactorNd::Value(x)), CalcItem::Factor(FactorNd::Value(y))) => x == y,
        (CalcItem::Factor(FactorNd::Value(_)), _) => false,
        (_, CalcItem::Factor(FactorNd::Value(_))) => false,
        (CalcItem::Factor(_), CalcItem::Factor(_)) => true,
        _ => false,
    }
}

/// Expressions whose items constant evaluation treats alike have the same constant value.
pub proof fn lemma_const_run_alike(a: Seq<CalcItem>, b: Seq<CalcItem>, st: Seq<i32>)
    requires
        a.len() == b.len(),
        forall|k: int| 0 <= k < a.len() ==> same_for_const(#[trigger] a[k], b[k]),
    ensures
        const_run(a, st) == const_run(b, st),
    decreases a.len(),
{
    if a.len() > 0 {
        assert(same_for_const(a[0], b[0]));
        assert(const_step(a[0], st) == const_step(b[0], st));
        match const_step(a[0], st) {
            Some(st2) => {
                assert forall|k: int| 0 <= k < a.drop_first().len() implies
                    same_for_const(#[trigger] a.drop_first()[k], b.drop_first()[k]) by {
                    assert(same_for_const(a[k + 1], b[k + 1]));
                }
                lemma_const_run_alike(a.drop_first(), b.drop_first(), st2);
            },
            None => {},
        }
    }
}

impl ExprNd {
    pub fn new(stack: Vec<CalcItem>) -> (r: Self)
        ensures
            r.stack == stack,
    {
        ExprNd { stack }
    }

    /// The value of the expression when it is a constant.
    pub fn try_retrieve_const(&self) -> (r: Option<i32>)
        ensures
            r == const_value(self.stack@),
    {
        let mut st: Vec<i32> = Vec::new();
        let mut i: usize = 0;
        assert(self.stack@.skip(0) =~= self.stack@);
        assert(st@ =~= seq![]);
        while i < self.stack.len()
            invariant
                0 <= i <= self.stack@.len(),
                const_run(self.stack@, seq![]) == const_run(self.stack@.skip(i as int), st@),
            decreases self.stack@.len() - i,
        {
            assert(self.stack@.skip(i as int).drop_first() =~= self.stack@.skip(i + 1));
            assert(self.stack@.skip(i as int)[0] == self.stack@[i as int]);
            match &self.stack[i] {
                CalcItem::Op(op) => {
                    let num = get_op_param_num(*op);
                    if num == 1 {
                        if st.len() < 1 {
                            return None;
                        }
                        let a = st.pop().unwrap();
                        let v = calc_op_1(*op, a).unwrap();
                        st.push(v);
                    } else {
                        if st.len() < 2 {
                            return None;
                        }
                        let b = st.pop().unwrap();
                        let a = st.pop().unwrap();
                        match calc_op_2(*op, a, b) {
                            Ok(v) => st.push(v),
                            Err(_) => return None,
                        }
                    }
                },
                CalcItem::Factor(FactorNd::Value(Value::Int(num))) => {
                    st.push(*num);
                },
                _ => {
                    return None;
                },
            }
            i = i + 1;
        }
        assert(self.stack@.skip(i as int) =~= seq![]);
        if st.len() != 1 {
            None
        } else {
            Some(st[0])
        }
    }

    /// The variable that the expression consists of, when it is a lone variable.
    pub fn try_to_var(&self) -> (r: Option<VarNd>)
        ensures
            r is Some <==> (self.stack@.len() == 1 && self.stack@[0] matches CalcItem::Factor(FactorNd::Var(_))),
            r is Some ==> r->0.name@ == self.stack@[0]->Factor_0->Var_0.name@,
    {
        if self.stack.len() == 1 {
            if let CalcItem::Factor(FactorNd::Var(v)) = &self.stack[0] {
                return Some(VarNd::new(v.name.clone()));
            }
        }
        None
    }
}

/// A use or a declaration of a name; `id` is the symbol it resolves to,
/// 0 until the analyzer fills it in.
#[derive(Debug)]
pub struct VarNd {
    pub name: String,
    pub id: usize,
}

impl VarNd {
    pub fn new(name: String) -> (r: Self)
        ensures
            r.name == name,
            r.id == 0,
    {
        VarNd { name, id: 0 }
    }

    pub fn get_id(&self) -> (r: usize)
        ensures
            r == self.id,
    {
        self.id
    }

    pub fn set_id(&mut self, id: usize)
        ensures
            final(self).id == id,
            final(self).name == old(self).name,
    {
        self.id = id;
    }
}

/// `var = expr`
#[derive(Debug)]
pub struct AssignNd {
    pub var: VarNd,
    pub expr: ExprNd,
}

impl AssignNd {
    pub fn new(v: VarNd, ex: ExprNd) -> (r: Self)
        ensures
            r.var == v,
            r.expr == ex,
    {
        AssignNd { var: v, expr: ex }
    }
}

/// `ty var` or `ty var = expr`
#[derive(Debug)]
pub struct DeclareNd {
    pub ty: Type,
    pub var: VarNd,
    pub expr: Option<ExprNd>,
}

/// The initial value of a declaration when it is a constant; 0 without an initializer.
pub open spec fn const_value_of(d: DeclareNd) -> Option<i32> {
    match d.expr {
        None => Some(0i32),
        Some(e) => const_value(e.stack@),
    }
}

impl DeclareNd {
    pub fn new(ty: Type, v: VarNd, ex: Option<ExprNd>) -> (r: Self)
        ensures
            r.ty == ty,
            r.var == v,
            r.expr == ex,
    {
        DeclareNd { ty, var: v, expr: ex }
    }

    /// The initial value when it is a constant; 0 without an initializer.
    pub fn try_retrieve_const(&self) -> (r: Option<i32>)
        ensures
            r == const_value_of(*self),
    {
        match &self.expr {
            None => Some(0),
            Some(e) => e.try_retrieve_const(),
        }
    }
}

/// A statement. A statement that is a lone variable prints it.
#[derive(Debug)]
pub enum StmtNd {
    Assign(AssignNd),
    Declare(DeclareNd),
    Expr(ExprNd),
    Print(VarNd),
    Empty,
}

/// `if (expr) item else ...`; `id` names the region of the whole
/// statement, `then_id` the region of the condition's branch.
#[derive(Debug)]
pub struct IfNd {
    pub id: usize,
    pub then_id: usize,
    pub expr: ExprNd,
    pub item: Box<ItemNd>,
    pub els: Option<Box<ElsNd>>,
}

impl IfNd {
    pub fn new(ex: ExprNd, it: ItemNd, els: Option<ElsNd>) -> (r: Self)
        ensures
            r.id == 0,
            r.then_id == 0,
            r.expr == ex,
            *r.item == it,
    {
        let els = match els {
            Some(e) => Some(Box::new(e)),
            None => None,
        };
        IfNd { id: 0, then_id: 0, expr: ex, item: Box::new(it), els }
    }
}

/// What follows `else`: another `if`, or an item.
#[derive(Debug)]
pub enum ElsNd {
    If(Box<IfNd>),
    Item(Box<ItemNd>),
}

/// `while (expr) item`; `id` names the loop's region of code.
#[derive(Debug)]
pub struct WhileNd {
    pub id: usize,
    pub expr: ExprNd,
    pub item: Box<ItemNd>,
}

/// `break;` with the loop it leaves and the words to drop first.
#[derive(Debug)]
pub struct BreakNd {
    pub id: usize,
    pub pop: usize,
}

/// `continue;` with the loop it restarts and the words to drop first.
#[derive(Debug)]
pub struct ContinueNd {
    pub id: usize,
    pub pop: usize,
}

/// `return expr;` or `return;`; `sz` is the number of result words.
#[derive(Debug)]
pub struct ReturnNd {
    pub expr: Option<ExprNd>,
    pub sz: usize,
}

/// An item of a block.
#[derive(Debug)]
pub enum ItemNd {
    Stmt(StmtNd),
    Block(BlockNd),
    If(IfNd),
    While(WhileNd),
    Break(BreakNd),
    Continue(ContinueNd),
    Return(ReturnNd),
}

/// `{ items }`; `id` names its scope.
#[derive(Debug)]
pub struct BlockNd {
    pub id: usize,
    pub items: Vec<ItemNd>,
}

impl BlockNd {
    pub fn new(items: Vec<ItemNd>) -> (r: Self)
        ensures
            r.id == 0,
            r.items == items,
    {
        BlockNd { id: 0, items }
    }
}

/// A function declaration (without a block) or definition (with one).
#[derive(Debug)]
pub struct FuncNd {
    pub ret_ty: Type,
    pub var: VarNd,
    pub params: Vec<(Type, Option<VarNd>)>,
    pub block: Option<BlockNd>,
}

/// The signature of a function: its parameter types, then its return type.
pub open spec fn sig_of(params: Seq<(Type, Option<VarNd>)>, ret: Type) -> Seq<Type> {
    params.map_values(|p: (Type, Option<VarNd>)| p.0).push(ret)
}

impl FuncNd {
    pub fn new(
        ty: Type,
        var: VarNd,
        params: Vec<(Type, Option<VarNd>)>,
        block: Option<BlockNd>,
    ) -> (r: Self)
        ensures
            r.ret_ty == ty,
            r.var == var,
            r.params == params,
            r.block == block,
    {
        FuncNd { ret_ty: ty, var, params, block }
    }

    /// Tells whether this is a definition.
    pub fn is_impl(&self) -> (r: bool)
        ensures
            r == self.block is Some,
    {
        self.block.is_some()
    }

    /// A definition names every parameter.
    pub fn check(&self) -> (r: bool)
        ensures
            r == (self.block is Some ==> forall|i: int|
                0 <= i < self.params@.len() ==> (#[trigger] self.params@[i]).1 is Some),
    {
        if self.is_impl() {
            let mut i: usize = 0;
            while i < self.params.len()
                invariant
                    self.block is Some,
                    0 <= i <= self.params@.len(),
                    forall|j: int| 0 <= j < i ==> (#[trigger] self.params@[j]).1 is Some,
                decreases self.params@.len() - i,
            {
                if self.params[i].1.is_none() {
                    return false;
                }
                i = i + 1;
            }
        }
        true
    }

    /// The function's type: its parameter types, then its return type.
    pub fn func_ty(&self) -> (r: Type)
        ensures
            r matches Type::Func(v) && v@.len() == self.params@.len() + 1
                && (forall|i: int| 0 <= i < self.params@.len() && is_plain((#[trigger] self.params@[i]).0)
                    ==> same_type(v@[i], self.params@[i].0))
                && (is_plain(self.ret_ty) ==> same_type(v@[self.params@.len() as int], self.ret_ty)),
    {
        let mut ty_vec: Vec<Type> = Vec::new();
        let mut i: usize = 0;
        while i < self.params.len()
            invariant
                0 <= i <= self.params@.len(),
                ty_vec@.len() == i,
                forall|k: int| 0 <= k < i && is_plain((#[trigger] self.params@[k]).0)
                    ==> same_type(ty_vec@[k], self.params@[k].0),
            decreases self.params@.len() - i,
        {
            ty_vec.push(self.params[i].0.duplicate());
            i = i + 1;
        }
        ty_vec.push(self.ret_ty.duplicate());
        Type::Func(ty_vec)
    }
}

/// `name(args)`
#[derive(Debug)]
pub struct FuncCallNd {
    pub var: VarNd,
    pub params: Vec<ExprNd>,
}

impl FuncCallNd {
    pub fn new(var: VarNd, params: Vec<ExprNd>) -> (r: Self)
        ensures
            r.var == var,
            r.params == params,
    {
        FuncCallNd { var, params }
    }
}

/// A top-level item.
#[derive(Debug)]
pub enum GItemNd {
    Declare(DeclareNd),
    Func(FuncNd),
}

/// A whole program.
#[derive(Debug)]
pub struct RootNd {
    pub items: Vec<GItemNd>,
}

impl RootNd {
    pub fn new(items: Vec<GItemNd>) -> (r: Self)
        ensures
            r.items == items,
    {
        RootNd { items }
    }
}

} // verus!
