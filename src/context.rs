use crate::err::{no_lex_err, ErrKind};
use crate::infos::{FuncInfo, Layout, ScopeInfo, VarInfo};
use crate::token::{get_type_size, is_plain, same_type, type_size, Type};
use vstd::prelude::*;

verus! {

/// A name entry: the name, the scope it is declared in, and its symbol.
pub type Binding = (String, usize, usize);

/// `name` is declared in scope `sid`.
pub open spec fn has_binding(names: Seq<Binding>, name: Seq<char>, sid: usize) -> bool {
    exists|i: int| 0 <= i < names.len() && (#[trigger] names[i]).0@ == name && names[i].1 == sid
}

/// `names` maps `name` in scope `sid` to symbol `id`.
pub open spec fn binds(names: Seq<Binding>, name: Seq<char>, sid: usize, id: usize) -> bool {
    exists|i: int|
        0 <= i < names.len() && (#[trigger] names[i]).0@ == name && names[i].1 == sid
            && names[i].2 == id
}

/// The innermost scope of `stack` in which `name` is declared.
pub open spec fn scope_of(names: Seq<Binding>, stack: Seq<usize>, name: Seq<char>) -> Option<usize>
    decreases stack.len(),
{
    if stack.len() == 0 {
        None
    } else if has_binding(names, name, stack.last()) {
        Some(stack.last())
    } else {
        scope_of(names, stack.drop_last(), name)
    }
}

/// Symbol `id` is a variable: it has no function record, and its first
/// variable record holds a scalar type.
pub open spec fn is_var_symbol(c: Context, id: usize) -> bool {
    &&& forall|j: int| 0 <= j < c.funcs@.len() ==> (#[trigger] c.funcs@[j]).id != id
    &&& exists|i: int| 0 <= i < c.vars@.len() && (#[trigger] c.vars@[i]).id == id
        && (forall|j: int| 0 <= j < i ==> (#[trigger] c.vars@[j]).id != id)
        && !(c.vars@[i].ty is Func)
}

/// Symbol `id` is an `int` variable: no function record, and its first
/// variable record holds `int`.
pub open spec fn is_int_var(c: Context, id: usize) -> bool {
    &&& forall|j: int| 0 <= j < c.funcs@.len() ==> (#[trigger] c.funcs@[j]).id != id
    &&& exists|i: int| 0 <= i < c.vars@.len() && (#[trigger] c.vars@[i]).id == id
        && (forall|j: int| 0 <= j < i ==> (#[trigger] c.vars@[j]).id != id)
        && c.vars@[i].ty is Int
}

/// The signature in the first function record of symbol `id`, when that
/// record holds a function type over scalars.
pub open spec fn func_sig(c: Context, id: usize) -> Option<Seq<Type>> {
    if exists|i: int| first_func_record(c, id, i) {
        let i = choose|i: int| first_func_record(c, id, i);
        if c.funcs@[i].ty is Func && is_plain(c.funcs@[i].ty) {
            Some(c.funcs@[i].ty->Func_0@)
        } else {
            None
        }
    } else {
        None
    }
}

/// Record `i` is the first function record of symbol `id`.
pub open spec fn first_func_record(c: Context, id: usize, i: int) -> bool {
    &&& 0 <= i < c.funcs@.len()
    &&& c.funcs@[i].id == id
    &&& forall|j: int| 0 <= j < i ==> (#[trigger] c.funcs@[j]).id != id
}

/// One scope binds a name to one symbol.
pub proof fn lemma_binding_unique(c: Context, name: Seq<char>, sid: usize, a: usize, b: usize)
    requires
        c.wf(),
        binds(c.names@, name, sid, a),
        binds(c.names@, name, sid, b),
    ensures
        a == b,
{
    let i = choose|i: int| 0 <= i < c.names@.len() && (#[trigger] c.names@[i]).0@ == name
        && c.names@[i].1 == sid && c.names@[i].2 == a;
    let k = choose|k: int| 0 <= k < c.names@.len() && (#[trigger] c.names@[k]).0@ == name
        && c.names@[k].1 == sid && c.names@[k].2 == b;
    if i < k {
        assert(!(c.names@[i].0@ == c.names@[k].0@ && c.names@[i].1 == c.names@[k].1));
    } else if k < i {
        assert(!(c.names@[k].0@ == c.names@[i].0@ && c.names@[k].1 == c.names@[i].1));
    }
}

/// The state of semantic analysis: declared names, the memory layout of
/// every symbol and scope, and the stack of active scopes.
pub struct Context {
    pub names: Vec<Binding>,
    pub mem_layout: Vec<Layout>,
    pub vars: Vec<VarInfo>,
    pub scopes: Vec<ScopeInfo>,
    pub funcs: Vec<FuncInfo>,
    pub scope_stack: Vec<usize>,
    pub cur_offset: usize,
    pub cur_func_id: usize,
}

impl Context {
    /// The analysis state is consistent: every symbol and scope has a
    /// layout, the bases of the active scopes grow towards the innermost
    /// one and none lies past the allocation cursor, and no name is
    /// declared twice in one scope.
    pub open spec fn wf(&self) -> bool {
        let n = self.mem_layout@.len();
        let st = self.scope_stack@;
        let lay = self.mem_layout@;
        &&& n < usize::MAX
        &&& st.len() >= 1
        &&& st[0] == 0
        &&& self.cur_func_id < n
        &&& forall|k: int| 0 <= k < st.len() ==> #[trigger] st[k] < n
        &&& forall|k: int| 0 <= k < st.len() ==> lay[#[trigger] st[k] as int].offset <= self.cur_offset
        &&& forall|k: int, l: int|
            0 <= k < l < st.len() ==> lay[#[trigger] st[k] as int].offset <= lay[#[trigger] st[l] as int].offset
        &&& forall|i: int| 0 <= i < self.names@.len() ==> 1 <= (#[trigger] self.names@[i]).2 < n
            && self.names@[i].1 < n
        &&& forall|i: int, j: int|
            0 <= i < j < self.names@.len() ==> !((#[trigger] self.names@[i]).0@ == (#[trigger] self.names@[j]).0@
                && self.names@[i].1 == self.names@[j].1)
        &&& forall|i: int| 0 <= i < self.vars@.len() ==> (#[trigger] self.vars@[i]).id < n
            && self.vars@[i].func_id < n
        &&& forall|i: int| 0 <= i < self.funcs@.len() ==> (#[trigger] self.funcs@[i]).id < n
        &&& forall|i: int| 0 <= i < self.vars@.len() ==> 1 <= (#[trigger] self.vars@[i]).id
            && self.vars@[i].id != self.cur_func_id
        &&& forall|i: int, j: int| 0 <= i < j < self.vars@.len() ==> (#[trigger] self.vars@[i]).id != (#[trigger] self.vars@[j]).id
        &&& forall|i: int, j: int| 0 <= i < self.vars@.len() && 0 <= j < self.vars@.len()
            ==> (#[trigger] self.vars@[i]).id != (#[trigger] self.vars@[j]).func_id
        &&& forall|i: int, j: int| 0 <= i < self.vars@.len() && 0 <= j < self.funcs@.len()
            ==> (#[trigger] self.vars@[i]).id != (#[trigger] self.funcs@[j]).id
    }

    /// The innermost active scope.
    pub open spec fn top(&self) -> usize {
        self.scope_stack@.last()
    }

    /// A fresh state: only the global scope, 0, is active.
    pub fn new() -> (r: Self)
        ensures
            r.wf(),
            r.names@.len() == 0,
            r.mem_layout@ == seq![Layout { offset: 0, size: 0 }],
            r.vars@.len() == 0,
            r.funcs@.len() == 0,
            r.scopes@.len() == 0,
            r.scope_stack@ == seq![0usize],
            r.cur_offset == 0,
            r.cur_func_id == 0,
    {
        let mut mem_layout: Vec<Layout> = Vec::new();
        mem_layout.push(Layout::new(0));
        let mut scope_stack: Vec<usize> = Vec::new();
        scope_stack.push(0);
        let scopes: Vec<ScopeInfo> = Vec::new();
        let r = Context {
            names: Vec::new(),
            mem_layout,
            vars: Vec::new(),
            scopes,
            funcs: Vec::new(),
            scope_stack,
            cur_offset: 0,
            cur_func_id: 0,
        };
        assert(r.scope_stack@ =~= seq![0usize]);
        assert(r.mem_layout@ =~= seq![Layout { offset: 0, size: 0 }]);
        r
    }

    /// The innermost active scope.
    pub fn get_current_scope_id(&self) -> (r: usize)
        requires
            self.wf(),
        ensures
            r == self.top(),
    {
        self.scope_stack[self.scope_stack.len() - 1]
    }

    /// Opens a scope at the allocation cursor and makes it the innermost one.
    pub fn enter_scope(&mut self, is_loop: bool) -> (r: Result<usize, ErrKind>)
        requires
            old(self).wf(),
        ensures
            no_lex_err(r),
            final(self).wf(),
            final(self).names == old(self).names,
            final(self).vars == old(self).vars,
            final(self).funcs == old(self).funcs,
            final(self).cur_func_id == old(self).cur_func_id,
            final(self).cur_offset == old(self).cur_offset,
            r is Err ==> *final(self) == *old(self),
            old(self).mem_layout@.len() + 1 >= usize::MAX ==> r == Err::<usize, ErrKind>(ErrKind::StackOverFlow),
            old(self).mem_layout@.len() + 1 < usize::MAX ==> r == Ok::<usize, ErrKind>(old(self).mem_layout@.len() as usize)
                && final(self).scope_stack@ == old(self).scope_stack@.push(r->Ok_0)
                && final(self).mem_layout@ == old(self).mem_layout@.push(Layout { offset: old(self).cur_offset, size: 0 }),
    {
        let id = self.mem_layout.len();
        if id + 1 >= usize::MAX {
            return Err(ErrKind::StackOverFlow);
        }
        self.mem_layout.push(Layout::new(self.cur_offset));
        self.scopes.push(ScopeInfo { id, is_loop, func_id: self.cur_func_id });
        self.scope_stack.push(id);
        proof {
            let st = self.scope_stack@;
            let lay = self.mem_layout@;
            assert forall|k: int| 0 <= k < st.len() implies lay[#[trigger] st[k] as int].offset <= self.cur_offset by {
                if k < st.len() - 1 {
                    assert(st[k] == old(self).scope_stack@[k]);
                }
            }
            assert forall|k: int, l: int| 0 <= k < l < st.len() implies
                lay[#[trigger] st[k] as int].offset <= lay[#[trigger] st[l] as int].offset by {
                assert(st[k] == old(self).scope_stack@[k]);
                if l < st.len() - 1 {
                    assert(st[l] == old(self).scope_stack@[l]);
                }
            }
        }
        Ok(id)
    }

    /// Closes the innermost scope: its size is what was allocated in it,
    /// and the cursor returns to its base so that a sibling scope reuses
    /// the same words. Leaving a function's outermost scope leaves the function.
    pub fn exit_scope(&mut self)
        requires
            old(self).wf(),
            old(self).scope_stack@.len() >= 2,
        ensures
            final(self).wf(),
            final(self).names == old(self).names,
            final(self).vars == old(self).vars,
            final(self).funcs == old(self).funcs,
            final(self).scope_stack@.len() == 1 ==> final(self).cur_func_id == 0,
            final(self).scope_stack@.len() > 1 ==> final(self).cur_func_id == old(self).cur_func_id,
            final(self).scope_stack@ == old(self).scope_stack@.drop_last(),
            final(self).mem_layout@ == old(self).mem_layout@.update(old(self).top() as int,
                Layout { offset: old(self).mem_layout@[old(self).top() as int].offset,
                    size: (old(self).cur_offset - old(self).mem_layout@[old(self).top() as int].offset) as usize }),
            final(self).cur_offset == old(self).mem_layout@[old(self).top() as int].offset,
    {
        let idx = self.scope_stack.pop().unwrap();
        proof {
            assert(old(self).scope_stack@[old(self).scope_stack@.len() - 1] == idx);
        }
        let cur = self.cur_offset;
        let mut l = self.mem_layout[idx];
        l.end(cur);
        self.mem_layout.set(idx, l);
        self.cur_offset = l.offset;
        if self.scope_stack.len() == 1 {
            self.cur_func_id = 0;
        }
        proof {
            let st = self.scope_stack@;
            let ost = old(self).scope_stack@;
            let lay = self.mem_layout@;
            assert forall|k: int| 0 <= k < st.len() implies lay[#[trigger] st[k] as int].offset <= self.cur_offset by {
                assert(st[k] == ost[k]);
                assert(ost[ost.len() - 1] == idx);
            }
            assert forall|k: int, l: int| 0 <= k < l < st.len() implies
                lay[#[trigger] st[k] as int].offset <= lay[#[trigger] st[l] as int].offset by {
                assert(st[k] == ost[k]);
                assert(st[l] == ost[l]);
            }
        }
    }

    /// Looks `name` up in scope `sid` only.
    pub fn find_in_scope(&self, name: &String, sid: usize) -> (r: Option<usize>)
        ensures
            r is None <==> !has_binding(self.names@, name@, sid),
            r is Some ==> binds(self.names@, name@, sid, r->0),
    {
        let mut i: usize = 0;
        while i < self.names.len()
            invariant
                0 <= i <= self.names@.len(),
                forall|j: int| 0 <= j < i ==> !((#[trigger] self.names@[j]).0@ == name@ && self.names@[j].1 == sid),
            decreases self.names@.len() - i,
        {
            if self.names[i].0 == *name && self.names[i].1 == sid {
                return Some(self.names[i].2);
            }
            i = i + 1;
        }
        None
    }

    /// Declares `name` in the innermost scope, giving it `sz` words at the
    /// cursor. `ReDeclare` exactly when the name is already declared in
    /// that same scope; a name of an enclosing scope is shadowed.
    /// `StackOverFlow` when the symbol table or the cursor is full.
    pub fn declare(&mut self, name: &str, sz: usize) -> (r: Result<usize, ErrKind>)
        requires
            old(self).wf(),
        ensures
            no_lex_err(r),
            final(self).wf(),
            final(self).scope_stack == old(self).scope_stack,
            final(self).cur_func_id == old(self).cur_func_id,
            final(self).vars == old(self).vars,
            final(self).funcs == old(self).funcs,
            has_binding(old(self).names@, name@, old(self).top()) ==> r == Err::<usize, ErrKind>(ErrKind::ReDeclare),
            !has_binding(old(self).names@, name@, old(self).top())
                && (old(self).mem_layout@.len() + 1 >= usize::MAX || old(self).cur_offset + sz > usize::MAX)
                ==> r == Err::<usize, ErrKind>(ErrKind::StackOverFlow),
            !has_binding(old(self).names@, name@, old(self).top()) && old(self).mem_layout@.len() + 1 < usize::MAX
                && old(self).cur_offset + sz <= usize::MAX
                ==> r == Ok::<usize, ErrKind>(old(self).mem_layout@.len() as usize),
            r is Err ==> *final(self) == *old(self),
            final(self).scopes == old(self).scopes,
            r is Ok ==> final(self).names@.len() == old(self).names@.len() + 1
                && final(self).names@.drop_last() == old(self).names@
                && final(self).names@.last().0@ == name@
                && final(self).names@.last().1 == old(self).top()
                && final(self).names@.last().2 == r->Ok_0
                && final(self).mem_layout@ == old(self).mem_layout@.push(Layout { offset: old(self).cur_offset, size: sz })
                && final(self).cur_offset == old(self).cur_offset + sz,
    {
        let scope_id = self.get_current_scope_id();
        let name_s = name.to_owned();
        if self.find_in_scope(&name_s, scope_id).is_some() {
            return Err(ErrKind::ReDeclare);
        }
        let id = self.mem_layout.len();
        if id + 1 >= usize::MAX || self.cur_offset > usize::MAX - sz {
            return Err(ErrKind::StackOverFlow);
        }
        let off = self.cur_offset;
        self.mem_layout.push(Layout { offset: off, size: sz });
        self.cur_offset = off + sz;
        self.names.push((name_s, scope_id, id));
        proof {
            let st = self.scope_stack@;
            let lay = self.mem_layout@;
            let olay = old(self).mem_layout@;
            assert forall|k: int| 0 <= k < st.len() implies lay[#[trigger] st[k] as int].offset <= self.cur_offset by {
                assert(lay[st[k] as int] == olay[st[k] as int]);
            }
            assert forall|k: int, l: int| 0 <= k < l < st.len() implies
                lay[#[trigger] st[k] as int].offset <= lay[#[trigger] st[l] as int].offset by {
                assert(lay[st[k] as int] == olay[st[k] as int]);
                assert(lay[st[l] as int] == olay[st[l] as int]);
            }
            let nm = self.names@;
            let onm = old(self).names@;
            assert forall|i: int| 0 <= i < nm.len() implies 1 <= (#[trigger] nm[i]).2 < lay.len()
                && nm[i].1 < lay.len() by {
                if i < onm.len() {
                    assert(nm[i] == onm[i]);
                }
            }
            assert forall|i: int, j: int| 0 <= i < j < nm.len() implies
                !((#[trigger] nm[i]).0@ == (#[trigger] nm[j]).0@ && nm[i].1 == nm[j].1) by {
                assert(nm[i] == onm[i]);
                if j < onm.len() {
                    assert(nm[j] == onm[j]);
                } else {
                    if nm[i].0@ == nm[j].0@ && nm[i].1 == nm[j].1 {
                        assert(has_binding(onm, name@, scope_id));
                    }
                }
            }
            assert(self.names@.drop_last() =~= old(self).names@);
        }
        Ok(id)
    }

    /// Declares a variable of type `ty` in the innermost scope; errors as `declare`.
    pub fn declare_var(&mut self, name: &str, ty: &Type) -> (r: Result<usize, ErrKind>)
        requires
            old(self).wf(),
        ensures
            no_lex_err(r),
            final(self).wf(),
            final(self).scope_stack == old(self).scope_stack,
            final(self).cur_func_id == old(self).cur_func_id,
            final(self).funcs == old(self).funcs,
            has_binding(old(self).names@, name@, old(self).top()) ==> r == Err::<usize, ErrKind>(ErrKind::ReDeclare),
            !has_binding(old(self).names@, name@, old(self).top()) && old(self).mem_layout@.len() + 1 < usize::MAX
                && old(self).cur_offset + type_size(*ty) <= usize::MAX
                ==> r == Ok::<usize, ErrKind>(old(self).mem_layout@.len() as usize),
            r is Err ==> r == Err::<usize, ErrKind>(ErrKind::ReDeclare) || r == Err::<usize, ErrKind>(ErrKind::StackOverFlow),
            r is Err ==> *final(self) == *old(self),
            r is Ok ==> binds(final(self).names@, name@, old(self).top(), r->Ok_0),
            r is Ok ==> final(self).mem_layout@ == old(self).mem_layout@.push(
                Layout { offset: old(self).cur_offset, size: type_size(*ty) as usize }),
            r is Ok ==> final(self).vars@.drop_last() == old(self).vars@
                && (is_plain(*ty) ==> same_type(final(self).vars@.last().ty, *ty)),
            r is Ok ==> final(self).vars@.len() == old(self).vars@.len() + 1
                && final(self).vars@.last().id == r->Ok_0
                && final(self).vars@.last().scope_id == old(self).top()
                && final(self).vars@.last().func_id == old(self).cur_func_id
                && final(self).cur_offset == old(self).cur_offset + type_size(*ty),
    {
        let sz = get_type_size(ty);
        let id = self.declare(name, sz)?;
        proof {
            let last = self.names@.len() - 1;
            assert(self.names@[last].0@ == name@);
        }
        let scope_id = self.get_current_scope_id();
        self.vars.push(VarInfo { id, scope_id, func_id: self.cur_func_id, ty: ty.duplicate() });
        proof {
            assert(self.vars@.drop_last() =~= old(self).vars@);
            let v = self.vars@;
            assert forall|i: int| 0 <= i < v.len() implies (#[trigger] v[i]).id < self.mem_layout@.len()
                && v[i].func_id < self.mem_layout@.len() by {
                if i < v.len() - 1 {
                    assert(v[i] == old(self).vars@[i]);
                }
            }
        }
        Ok(id)
    }

    /// Declares a function with signature `ty` at the global scope, not yet defined.
    pub fn declare_fn(&mut self, name: &str, ty: &Type) -> (r: Result<usize, ErrKind>)
        requires
            old(self).wf(),
            old(self).scope_stack@.len() == 1,
        ensures
            no_lex_err(r),
            final(self).wf(),
            final(self).scope_stack == old(self).scope_stack,
            final(self).vars == old(self).vars,
            final(self).cur_func_id == old(self).cur_func_id,
            has_binding(old(self).names@, name@, old(self).top()) ==> r == Err::<usize, ErrKind>(ErrKind::ReDeclare),
            !has_binding(old(self).names@, name@, old(self).top()) && old(self).mem_layout@.len() + 1 < usize::MAX
                && old(self).cur_offset <= usize::MAX
                ==> r == Ok::<usize, ErrKind>(old(self).mem_layout@.len() as usize),
            r is Err ==> r == Err::<usize, ErrKind>(ErrKind::ReDeclare) || r == Err::<usize, ErrKind>(ErrKind::StackOverFlow),
            r is Err ==> *final(self) == *old(self),
            r is Ok ==> final(self).cur_offset == old(self).cur_offset,
            r is Ok ==> (is_plain(*ty) ==> same_type(final(self).funcs@.last().ty, *ty)),
            r is Ok ==> final(self).funcs@.len() == old(self).funcs@.len() + 1
                && final(self).funcs@.drop_last() == old(self).funcs@
                && final(self).funcs@.last().id == r->Ok_0
                && !final(self).funcs@.last().has_impl
                && binds(final(self).names@, name@, 0, r->Ok_0),
    {
        let id = self.declare(name, 0)?;
        self.funcs.push(FuncInfo::new(id, ty.duplicate()));
        proof {
            let f = self.funcs@;
            assert forall|i: int| 0 <= i < f.len() implies (#[trigger] f[i]).id < self.mem_layout@.len() by {
                if i < f.len() - 1 {
                    assert(f[i] == old(self).funcs@[i]);
                }
            }
            assert(self.funcs@.drop_last() =~= old(self).funcs@);
            let last = self.names@.len() - 1;
            assert(self.names@[last].0@ == name@);
        }
        Ok(id)
    }

    /// Position of the first function record of symbol `id`.
    pub fn func_index(&self, id: usize) -> (r: Option<usize>)
        ensures
            r is None ==> forall|j: int| 0 <= j < self.funcs@.len() ==> (#[trigger] self.funcs@[j]).id != id,
            r is Some ==> r->0 < self.funcs@.len() && self.funcs@[r->0 as int].id == id
                && forall|j: int| 0 <= j < r->0 ==> (#[trigger] self.funcs@[j]).id != id,
    {
        let mut i: usize = 0;
        while i < self.funcs.len()
            invariant
                0 <= i <= self.funcs@.len(),
                forall|j: int| 0 <= j < i ==> (#[trigger] self.funcs@[j]).id != id,
            decreases self.funcs@.len() - i,
        {
            if self.funcs[i].id == id {
                return Some(i);
            }
            i = i + 1;
        }
        None
    }

    /// Position of the first variable record of symbol `id`.
    pub fn var_index(&self, id: usize) -> (r: Option<usize>)
        ensures
            r is None ==> forall|j: int| 0 <= j < self.vars@.len() ==> (#[trigger] self.vars@[j]).id != id,
            r is Some ==> r->0 < self.vars@.len() && self.vars@[r->0 as int].id == id
                && forall|j: int| 0 <= j < r->0 ==> (#[trigger] self.vars@[j]).id != id,
    {
        let mut i: usize = 0;
        while i < self.vars.len()
            invariant
                0 <= i <= self.vars@.len(),
                forall|j: int| 0 <= j < i ==> (#[trigger] self.vars@[j]).id != id,
            decreases self.vars@.len() - i,
        {
            if self.vars[i].id == id {
                return Some(i);
            }
            i = i + 1;
        }
        None
    }

    /// Defines a function at the global scope. A declared function becomes
    /// defined: `ReImpl` when it already was, `TypeErr` when the signatures
    /// differ, `ReDeclare` when the name is a variable. An undeclared one is
    /// declared and defined at once. The function becomes the current one,
    /// with its base at the cursor.
    pub fn impl_fn(&mut self, name: &str, ty: &Type) -> (r: Result<usize, ErrKind>)
        requires
            old(self).wf(),
            old(self).scope_stack@.len() == 1,
        ensures
            no_lex_err(r),
            final(self).wf(),
            final(self).scope_stack == old(self).scope_stack,
            final(self).vars == old(self).vars,
            r is Err ==> *final(self) == *old(self),
            r is Ok ==> final(self).cur_func_id == r->Ok_0,
            r is Ok ==> exists|i: int| 0 <= i < final(self).funcs@.len() && (#[trigger] final(self).funcs@[i]).id == r->Ok_0
                && final(self).funcs@[i].has_impl,
            ({
                let f = scope_of(old(self).names@, old(self).scope_stack@, name@);
                f is Some ==> (
                    forall|id: usize| binds(old(self).names@, name@, f->0, id) ==> (
                        (forall|i: int| 0 <= i < old(self).funcs@.len() && (#[trigger] old(self).funcs@[i]).id == id
                            && (forall|j: int| 0 <= j < i ==> (#[trigger] old(self).funcs@[j]).id != id)
                            ==> (old(self).funcs@[i].has_impl ==> r == Err::<usize, ErrKind>(ErrKind::ReImpl))
                            && (!old(self).funcs@[i].has_impl && !same_type(old(self).funcs@[i].ty, *ty)
                                ==> r == Err::<usize, ErrKind>(ErrKind::TypeErr))
                            && (!old(self).funcs@[i].has_impl && same_type(old(self).funcs@[i].ty, *ty)
                                ==> r == Ok::<usize, ErrKind>(id) && final(self).funcs@[i].has_impl))
                        && ((forall|i: int| 0 <= i < old(self).funcs@.len() ==> (#[trigger] old(self).funcs@[i]).id != id)
                            ==> r == Err::<usize, ErrKind>(ErrKind::ReDeclare))))
            }),
            scope_of(old(self).names@, old(self).scope_stack@, name@) is None
                && old(self).mem_layout@.len() + 1 < usize::MAX ==> r is Ok
                && final(self).funcs@.last().id == r->Ok_0 && final(self).funcs@.last().has_impl,
    {
        match self.fetch(name) {
            Ok(id) => {
                match self.func_index(id) {
                    Some(i) => {
                        if self.funcs[i].has_impl {
                            Err(ErrKind::ReImpl)
                        } else if !self.funcs[i].ty.equals(ty) {
                            Err(ErrKind::TypeErr)
                        } else {
                            self.funcs[i].has_impl = true;
                            assert(self.funcs@[i as int].id == id && self.funcs@[i as int].has_impl);
                            self.cur_func_id = id;
                            let off = self.cur_offset;
                            self.mem_layout.set(id, Layout::new(off));
                            proof {
                                let st = self.scope_stack@;
                                assert(st.len() == 1 && st[0] == 0);
                                let ost = old(self).scope_stack@;
                                assert(ost.last() == 0);
                                assert(scope_of(old(self).names@, ost, name@) is Some);
                                assert(ost.drop_last().len() == 0);
                                assert(scope_of(old(self).names@, ost.drop_last(), name@) is None);
                                assert(scope_of(old(self).names@, ost, name@) == Some(0usize));
                                assert(binds(old(self).names@, name@, 0, id));
                                assert(id >= 1);
                                let f = self.funcs@;
                                assert forall|k: int| 0 <= k < f.len() implies (#[trigger] f[k]).id < self.mem_layout@.len() by {
                                    if k != i {
                                        assert(f[k] == old(self).funcs@[k]);
                                    }
                                }
                            }
                            Ok(id)
                        }
                    },
                    None => Err(ErrKind::ReDeclare),
                }
            },
            Err(_) => {
                let id = self.declare_fn(name, ty)?;
                let last = self.funcs.len() - 1;
                self.funcs[last].has_impl = true;
                assert(self.funcs@[last as int].id == id && self.funcs@[last as int].has_impl);
                self.cur_func_id = id;
                proof {
                    let f = self.funcs@;
                    assert forall|k: int| 0 <= k < f.len() implies (#[trigger] f[k]).id < self.mem_layout@.len() by {
                        if k != last {
                            assert(f[k] == old(self).funcs@[k]);
                        }
                    }
                }
                Ok(id)
            },
        }
    }

    /// The type of symbol `id`: the signature in its first function record,
    /// else the type in its first variable record; `NoDeclare` without either.
    pub fn get_type_by_id(&self, id: usize) -> (r: Result<Type, ErrKind>)
        ensures
            no_lex_err(r),
            r is Err <==> (forall|j: int| 0 <= j < self.funcs@.len() ==> (#[trigger] self.funcs@[j]).id != id)
                && (forall|j: int| 0 <= j < self.vars@.len() ==> (#[trigger] self.vars@[j]).id != id),
            r is Err ==> r == Err::<Type, ErrKind>(ErrKind::NoDeclare),
            forall|i: int| 0 <= i < self.funcs@.len() && (#[trigger] self.funcs@[i]).id == id
                && (forall|j: int| 0 <= j < i ==> (#[trigger] self.funcs@[j]).id != id)
                && is_plain(self.funcs@[i].ty) ==> r is Ok && same_type(r->Ok_0, self.funcs@[i].ty),
            (forall|j: int| 0 <= j < self.funcs@.len() ==> (#[trigger] self.funcs@[j]).id != id) ==>
                forall|i: int| 0 <= i < self.vars@.len() && (#[trigger] self.vars@[i]).id == id
                    && (forall|j: int| 0 <= j < i ==> (#[trigger] self.vars@[j]).id != id)
                    && is_plain(self.vars@[i].ty) ==> r is Ok && same_type(r->Ok_0, self.vars@[i].ty),
    {
        match self.func_index(id) {
            Some(i) => Ok(self.funcs[i].ty.duplicate()),
            None => match self.var_index(id) {
                Some(i) => Ok(self.vars[i].ty.duplicate()),
                None => Err(ErrKind::NoDeclare),
            },
        }
    }

    /// Some active scope other than the global one is the body of a loop.
    pub open spec fn in_loop(&self) -> bool {
        exists|k: int, j: int|
            1 <= k < self.scope_stack@.len() && 0 <= j < self.scopes@.len()
                && (#[trigger] self.scopes@[j]).id == #[trigger] self.scope_stack@[k] && self.scopes@[j].is_loop
    }

    /// The innermost active scope, other than the global one, that is the
    /// body of a loop.
    pub fn find_loop(&self) -> (r: Option<usize>)
        requires
            self.wf(),
        ensures
            r is Some ==> exists|k: int| 1 <= k < self.scope_stack@.len() && self.scope_stack@[k] == r->0,
            r is None <==> !self.in_loop(),
    {
        let mut k: usize = self.scope_stack.len();
        while k > 1
            invariant
                1 <= k <= self.scope_stack@.len(),
                forall|k2: int, j: int|
                    k <= k2 < self.scope_stack@.len() && 0 <= j < self.scopes@.len()
                        ==> !((#[trigger] self.scopes@[j]).id == #[trigger] self.scope_stack@[k2] && self.scopes@[j].is_loop),
            decreases k,
        {
            let sid = self.scope_stack[k - 1];
            let mut j: usize = 0;
            while j < self.scopes.len()
                invariant
                    0 <= j <= self.scopes@.len(),
                    2 <= k <= self.scope_stack@.len(),
                    sid == self.scope_stack@[k - 1],
                    forall|j2: int| 0 <= j2 < j ==> !((#[trigger] self.scopes@[j2]).id == sid && self.scopes@[j2].is_loop),
                    forall|k2: int, j2: int|
                        k <= k2 < self.scope_stack@.len() && 0 <= j2 < self.scopes@.len()
                            ==> !((#[trigger] self.scopes@[j2]).id == #[trigger] self.scope_stack@[k2] && self.scopes@[j2].is_loop),
                decreases self.scopes@.len() - j,
            {
                if self.scopes[j].id == sid && self.scopes[j].is_loop {
                    proof {
                        assert(self.scopes@[j as int].id == self.scope_stack@[k - 1]);
                    }
                    return Some(sid);
                }
                j = j + 1;
            }
            k = k - 1;
        }
        None
    }

    /// Resolves `name` in the innermost active scope that declares it;
    /// `NoDeclare` when no active scope does.
    pub fn fetch(&self, name: &str) -> (r: Result<usize, ErrKind>)
        requires
            self.wf(),
        ensures
            no_lex_err(r),
            scope_of(self.names@, self.scope_stack@, name@) is None ==> r == Err::<usize, ErrKind>(ErrKind::NoDeclare),
            scope_of(self.names@, self.scope_stack@, name@) is Some ==> r is Ok
                && binds(self.names@, name@, scope_of(self.names@, self.scope_stack@, name@)->0, r->Ok_0),
    {
        let name_s = name.to_owned();
        let mut k: usize = self.scope_stack.len();
        assert(self.scope_stack@.take(k as int) =~= self.scope_stack@);
        while k > 0
            invariant
                0 <= k <= self.scope_stack@.len(),
                name_s@ == name@,
                scope_of(self.names@, self.scope_stack@, name@) == scope_of(self.names@, self.scope_stack@.take(k as int), name@),
            decreases k,
        {
            let sid = self.scope_stack[k - 1];
            let ghost pre = self.scope_stack@.take(k as int);
            assert(pre.last() == sid);
            assert(pre.drop_last() =~= self.scope_stack@.take(k - 1));
            if let Some(id) = self.find_in_scope(&name_s, sid) {
                return Ok(id);
            }
            k = k - 1;
        }
        Err(ErrKind::NoDeclare)
    }
}

/// A scope opened by `enter_scope` takes the next free id, under which no
/// name has been declared yet: any name can be declared in it, also one
/// that an enclosing scope declares (shadowing), without `ReDeclare`.
pub proof fn lemma_nested_scope_allows_redeclaration(c: Context, name: Seq<char>)
    requires
        c.wf(),
    ensures
        !has_binding(c.names@, name, c.mem_layout@.len() as usize),
{
}

/// A name that no scope declares resolves nowhere: `fetch` gives `NoDeclare`.
pub proof fn lemma_undeclared_name_resolves_nowhere(names: Seq<Binding>, stack: Seq<usize>, name: Seq<char>)
    requires
        forall|i: int| 0 <= i < names.len() ==> (#[trigger] names[i]).0@ != name,
    ensures
        scope_of(names, stack, name) is None,
    decreases stack.len(),
{
    if stack.len() > 0 {
        lemma_undeclared_name_resolves_nowhere(names, stack.drop_last(), name);
    }
}

/// `t` is the signature `() -> int`.
pub open spec fn is_main_sig(t: Type) -> bool {
    t matches Type::Func(v) && v@.len() == 1 && v@[0] is Int
}

/// Tells whether `t` is the signature `() -> int`.
pub fn is_main_type(t: &Type) -> (r: bool)
    ensures
        r == is_main_sig(*t),
{
    match t {
        Type::Func(v) => v.len() == 1 && matches!(v[0], Type::Int),
        _ => false,
    }
}

/// `main` resolves to symbol `id`, and the first function record of `id`
/// has the signature `() -> int`.
pub open spec fn main_well_typed(c: Context, id: usize) -> bool {
    exists|i: int|
        0 <= i < c.funcs@.len() && (#[trigger] c.funcs@[i]).id == id
            && (forall|j: int| 0 <= j < i ==> (#[trigger] c.funcs@[j]).id != id)
            && is_main_sig(c.funcs@[i].ty)
}

/// Some declared function has no definition.
pub open spec fn some_func_undefined(c: Context) -> bool {
    exists|i: int| 0 <= i < c.funcs@.len() && !(#[trigger] c.funcs@[i]).has_impl
}

/// A local's offset made relative to its function's base; the offsets of
/// analysis always put a local at or above that base.
pub open spec fn relative_offset(off: usize, base: usize) -> usize {
    if base <= off { (off - base) as usize } else { off }
}

/// The layout table after normalisation: each local variable's offset is
/// relative to its function's base; every other entry is kept.
pub open spec fn normalized(c: Context, out: Seq<Layout>) -> bool {
    &&& out.len() == c.mem_layout@.len()
    &&& forall|k: int| 0 <= k < out.len() ==> (#[trigger] out[k]).size == c.mem_layout@[k].size
    &&& forall|i: int| 0 <= i < c.vars@.len() && (#[trigger] c.vars@[i]).func_id != 0
        ==> out[c.vars@[i].id as int].offset == relative_offset(
            c.mem_layout@[c.vars@[i].id as int].offset, c.mem_layout@[c.vars@[i].func_id as int].offset)
    &&& forall|k: int| 0 <= k < out.len()
        && (forall|i: int| 0 <= i < c.vars@.len() && (#[trigger] c.vars@[i]).func_id != 0 ==> c.vars@[i].id != k)
        ==> #[trigger] out[k] == c.mem_layout@[k]
}

/// The result of semantic analysis: the memory layout of every symbol and
/// scope (local variables relative to their function's base), the symbols,
/// and the entry function.
#[derive(Debug)]
pub struct Semantic {
    pub mem_layout: Vec<Layout>,
    pub vars: Vec<VarInfo>,
    pub funcs: Vec<FuncInfo>,
    pub main_func_id: usize,
}

impl Semantic {
    /// Every function is defined, and `main` is a function of signature `() -> int`.
    pub open spec fn well_formed(&self) -> bool {
        &&& forall|i: int| 0 <= i < self.funcs@.len() ==> (#[trigger] self.funcs@[i]).has_impl
        &&& exists|i: int| 0 <= i < self.funcs@.len() && (#[trigger] self.funcs@[i]).id == self.main_func_id
            && is_main_sig(self.funcs@[i].ty)
    }

    /// Finishes analysis: `NoMainFunc` when `main` is not declared,
    /// `TypeErr` when it is not a function of signature `() -> int`,
    /// `FuncNoImpl` when some function was declared and never defined.
    /// Then every local variable's offset is made relative to the base of
    /// its function.
    pub fn new(cxt: Context) -> (r: Result<Self, ErrKind>)
        requires
            cxt.wf(),
        ensures
            no_lex_err(r),
            scope_of(cxt.names@, cxt.scope_stack@, "main"@) is None ==> r == Err::<Self, ErrKind>(ErrKind::NoMainFunc),
            scope_of(cxt.names@, cxt.scope_stack@, "main"@) is Some ==> (
                forall|id: usize| binds(cxt.names@, "main"@, scope_of(cxt.names@, cxt.scope_stack@, "main"@)->0, id) ==> {
                    &&& !main_well_typed(cxt, id) ==> r == Err::<Self, ErrKind>(ErrKind::TypeErr)
                    &&& main_well_typed(cxt, id) && some_func_undefined(cxt) ==> r == Err::<Self, ErrKind>(ErrKind::FuncNoImpl)
                    &&& main_well_typed(cxt, id) && !some_func_undefined(cxt) ==> r is Ok && r->Ok_0.main_func_id == id
                }),
            r is Ok ==> r->Ok_0.well_formed(),
            r is Ok ==> normalized(cxt, r->Ok_0.mem_layout@),
            r is Ok ==> r->Ok_0.vars == cxt.vars && r->Ok_0.funcs == cxt.funcs
                && r->Ok_0.mem_layout@.len() == cxt.mem_layout@.len()
                && forall|k: int| 0 <= k < cxt.mem_layout@.len() ==> (#[trigger] r->Ok_0.mem_layout@[k]).size == cxt.mem_layout@[k].size,
    {
        let main_id = match cxt.fetch("main") {
            Ok(id) => id,
            Err(_) => return Err(ErrKind::NoMainFunc),
        };
        proof {
            let f = scope_of(cxt.names@, cxt.scope_stack@, "main"@);
            assert(f is Some);
            assert forall|id: usize| binds(cxt.names@, "main"@, f->0, id) implies id == main_id by {
                let i = choose|i: int| 0 <= i < cxt.names@.len() && (#[trigger] cxt.names@[i]).0@ == "main"@
                    && cxt.names@[i].1 == f->0 && cxt.names@[i].2 == id;
                let i2 = choose|i: int| 0 <= i < cxt.names@.len() && (#[trigger] cxt.names@[i]).0@ == "main"@
                    && cxt.names@[i].1 == f->0 && cxt.names@[i].2 == main_id;
                if i < i2 {
                    assert(!(cxt.names@[i].0@ == cxt.names@[i2].0@ && cxt.names@[i].1 == cxt.names@[i2].1));
                } else if i2 < i {
                    assert(!(cxt.names@[i2].0@ == cxt.names@[i].0@ && cxt.names@[i2].1 == cxt.names@[i].1));
                }
            }
        }
        match cxt.func_index(main_id) {
            Some(i) => {
                if !is_main_type(&cxt.funcs[i].ty) {
                    proof {
                        if main_well_typed(cxt, main_id) {
                            let i2 = choose|i2: int| 0 <= i2 < cxt.funcs@.len() && (#[trigger] cxt.funcs@[i2]).id == main_id
                                && (forall|j: int| 0 <= j < i2 ==> (#[trigger] cxt.funcs@[j]).id != main_id)
                                && is_main_sig(cxt.funcs@[i2].ty);
                            assert(i2 == i as int);
                        }
                    }
                    return Err(ErrKind::TypeErr);
                }
                assert(main_well_typed(cxt, main_id));
            },
            None => {
                return Err(ErrKind::TypeErr);
            },
        }
        let mut k: usize = 0;
        while k < cxt.funcs.len()
            invariant
                scope_of(cxt.names@, cxt.scope_stack@, "main"@) is Some,
                main_well_typed(cxt, main_id),
                forall|id: usize| binds(cxt.names@, "main"@, scope_of(cxt.names@, cxt.scope_stack@, "main"@)->0, id) ==> id == main_id,
                0 <= k <= cxt.funcs@.len(),
                forall|j: int| 0 <= j < k ==> (#[trigger] cxt.funcs@[j]).has_impl,
            decreases cxt.funcs@.len() - k,
        {
            if !cxt.funcs[k].has_impl {
                return Err(ErrKind::FuncNoImpl);
            }
            k = k + 1;
        }
        let Context { mem_layout, vars, funcs, .. } = cxt;
        let mut mem_layout = mem_layout;
        let mut i: usize = 0;
        while i < vars.len()
            invariant
                scope_of(cxt.names@, cxt.scope_stack@, "main"@) is Some,
                main_well_typed(cxt, main_id),
                forall|id: usize| binds(cxt.names@, "main"@, scope_of(cxt.names@, cxt.scope_stack@, "main"@)->0, id) ==> id == main_id,
                !some_func_undefined(cxt),
                funcs == cxt.funcs,
                0 <= i <= vars@.len(),
                mem_layout@.len() == cxt.mem_layout@.len(),
                vars == cxt.vars,
                forall|k: int| 0 <= k < mem_layout@.len() ==> (#[trigger] mem_layout@[k]).size == cxt.mem_layout@[k].size,
                forall|j: int| 0 <= j < vars@.len() ==> (#[trigger] vars@[j]).id < mem_layout@.len()
                    && vars@[j].func_id < mem_layout@.len(),
                cxt.wf(),
                forall|j: int| 0 <= j < i && (#[trigger] vars@[j]).func_id != 0
                    ==> mem_layout@[vars@[j].id as int].offset == relative_offset(
                        cxt.mem_layout@[vars@[j].id as int].offset, cxt.mem_layout@[vars@[j].func_id as int].offset),
                forall|k: int| 0 <= k < mem_layout@.len()
                    && (forall|j: int| 0 <= j < i && (#[trigger] vars@[j]).func_id != 0 ==> vars@[j].id != k)
                    ==> #[trigger] mem_layout@[k] == cxt.mem_layout@[k],
            decreases vars@.len() - i,
        {
            let fid = vars[i].func_id;
            let ghost m0 = mem_layout@;
            if fid != 0 {
                let vid = vars[i].id;
                let base = mem_layout[fid].offset;
                let l = mem_layout[vid];
                proof {
                    // the function's base and this variable's entry are as analysis left them
                    assert forall|j: int| 0 <= j < i && (#[trigger] vars@[j]).func_id != 0 implies vars@[j].id != fid by {
                        assert(cxt.vars@[j].id != cxt.vars@[i as int].func_id);
                    }
                    assert forall|j: int| 0 <= j < i && (#[trigger] vars@[j]).func_id != 0 implies vars@[j].id != vid by {
                        assert(cxt.vars@[j].id != cxt.vars@[i as int].id);
                    }
                    assert(mem_layout@[fid as int] == cxt.mem_layout@[fid as int]);
                    assert(mem_layout@[vid as int] == cxt.mem_layout@[vid as int]);
                }
                let off = if base <= l.offset { l.offset - base } else { l.offset };
                mem_layout.set(vid, Layout { offset: off, size: l.size });
                proof {
                    assert forall|j: int| 0 <= j < i + 1 && (#[trigger] vars@[j]).func_id != 0
                        implies mem_layout@[vars@[j].id as int].offset == relative_offset(
                            cxt.mem_layout@[vars@[j].id as int].offset, cxt.mem_layout@[vars@[j].func_id as int].offset) by {
                        if j < i {
                            assert(cxt.vars@[j].id != cxt.vars@[i as int].id);
                            assert(mem_layout@[vars@[j].id as int] == m0[vars@[j].id as int]);
                        }
                    }
                }
            }
            i = i + 1;
        }
        proof {
            assert forall|k: int| 0 <= k < mem_layout@.len()
                && (forall|j: int| 0 <= j < cxt.vars@.len() && (#[trigger] cxt.vars@[j]).func_id != 0 ==> cxt.vars@[j].id != k)
                implies #[trigger] mem_layout@[k] == cxt.mem_layout@[k] by {
                assert(forall|j: int| 0 <= j < i && (#[trigger] vars@[j]).func_id != 0 ==> vars@[j].id != k);
            }
        }
        Ok(Semantic { mem_layout, vars, funcs, main_func_id: main_id })
    }
}

} // verus!
