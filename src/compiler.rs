use crate::analyzer::analyze;
use crate::code::{Code, CodeAddr, MemAddr};
use crate::context::Semantic;
use crate::err::{no_lex_err, ErrKind};
use crate::infos::Layout;
use crate::nodes::{
    BlockNd, CalcItem, DeclareNd, ElsNd, ExprNd, FactorNd, FuncCallNd, FuncNd, GItemNd, IfNd, ItemNd,
    RootNd, StmtNd,
};
use crate::token::Type;
use vstd::prelude::*;

verus! {

broadcast use vstd::std_specs::vec::group_vec_axioms;

/// The address of variable `id`: absolute for a global, frame-relative for
/// a local; `None` when `id` has no variable record or no layout.
pub open spec fn var_addr(s: Semantic, id: usize) -> Option<MemAddr> {
    if id < s.mem_layout@.len() && exists|i: int| 0 <= i < s.vars@.len() && (#[trigger] s.vars@[i]).id == id {
        let i = choose|i: int| 0 <= i < s.vars@.len() && (#[trigger] s.vars@[i]).id == id
            && forall|j: int| 0 <= j < i ==> (#[trigger] s.vars@[j]).id != id;
        if s.vars@[i].func_id == 0 {
            Some(MemAddr::Direct(s.mem_layout@[id as int].offset))
        } else {
            Some(MemAddr::Indirect(s.mem_layout@[id as int].offset))
        }
    } else {
        None
    }
}

/// Number of parameters of function `id`, by its first function record:
/// the length of its signature less the return type.
pub open spec fn param_count_of(s: Semantic, id: usize) -> Option<usize> {
    if exists|i: int| 0 <= i < s.funcs@.len() && (#[trigger] s.funcs@[i]).id == id {
        let i = choose|i: int| 0 <= i < s.funcs@.len() && (#[trigger] s.funcs@[i]).id == id
            && forall|j: int| 0 <= j < i ==> (#[trigger] s.funcs@[j]).id != id;
        match s.funcs@[i].ty {
            Type::Func(v) => if v@.len() >= 1 { Some((v@.len() - 1) as usize) } else { None },
            _ => None,
        }
    } else {
        None
    }
}

/// Function `id`, by its first function record, returns nothing.
pub open spec fn returns_nothing(s: Semantic, id: usize) -> bool {
    exists|i: int| 0 <= i < s.funcs@.len() && (#[trigger] s.funcs@[i]).id == id
        && (forall|j: int| 0 <= j < i ==> (#[trigger] s.funcs@[j]).id != id)
        && (s.funcs@[i].ty matches Type::Func(v) && v@.len() > 0 && v@[v@.len() - 1] is Void)
}

/// Record `i` is the latest record of region `id`: entering a region again
/// starts it afresh.
pub open spec fn last_record(layout: Seq<(usize, Layout)>, id: usize, i: int) -> bool {
    &&& 0 <= i < layout.len()
    &&& layout[i].0 == id
    &&& forall|j: int| i < j < layout.len() ==> (#[trigger] layout[j]).0 != id
}

/// Where each region of code starts and ends: its latest record.
pub open spec fn region(layout: Seq<(usize, Layout)>, id: usize) -> Option<Layout> {
    if exists|i: int| 0 <= i < layout.len() && (#[trigger] layout[i]).0 == id {
        let i = choose|i: int| last_record(layout, id, i);
        Some(layout[i].1)
    } else {
        None
    }
}

/// A code address with every region name replaced by an instruction index.
pub open spec fn link_addr(layout: Seq<(usize, Layout)>, a: CodeAddr) -> Option<CodeAddr> {
    match a {
        CodeAddr::Direct(_) => Some(a),
        CodeAddr::NameStart(id) => match region(layout, id) {
            Some(l) => Some(CodeAddr::Direct(l.offset)),
            None => None,
        },
        CodeAddr::NameEnd(id) => match region(layout, id) {
            Some(l) => if l.offset + l.size <= usize::MAX {
                Some(CodeAddr::Direct((l.offset + l.size) as usize))
            } else {
                None
            },
            None => None,
        },
    }
}

/// An instruction with its code address, if any, linked.
pub open spec fn link_code(layout: Seq<(usize, Layout)>, c: Code) -> Option<Code> {
    match c {
        Code::Call(a, n) => match link_addr(layout, a) {
            Some(b) => Some(Code::Call(b, n)),
            None => None,
        },
        Code::Jump(a) => match link_addr(layout, a) {
            Some(b) => Some(Code::Jump(b)),
            None => None,
        },
        Code::CondJump(a) => match link_addr(layout, a) {
            Some(b) => Some(Code::CondJump(b)),
            None => None,
        },
        _ => Some(c),
    }
}

/// An instruction whose code address, if any, is an instruction index.
pub open spec fn is_linked(c: Code) -> bool {
    match c {
        Code::Call(a, _) => a is Direct,
        Code::Jump(a) => a is Direct,
        Code::CondJump(a) => a is Direct,
        _ => true,
    }
}

/// Every region name of a program has been resolved.
pub open spec fn all_linked(codes: Seq<Code>) -> bool {
    forall|i: int| 0 <= i < codes.len() ==> is_linked(#[trigger] codes[i])
}

/// A compiled program: the initial global memory, the linked instructions
/// and the entry point, `main`'s first instruction.
#[derive(Debug)]
pub struct Program {
    pub memory: Vec<i32>,
    pub codes: Vec<Code>,
    pub start_pc: usize,
}

/// The state of code generation: the instructions so far, the regions
/// entered, the global memory image, and the analysis results.
pub struct Context {
    pub code_layout: Vec<(usize, Layout)>,
    pub s_info: Semantic,
    pub codes: Vec<Code>,
    pub memory: Vec<i32>,
    pub func_id: usize,
}

impl Context {
    pub fn new(info: Semantic) -> (r: Self)
        ensures
            r.s_info == info,
            r.codes@.len() == 0,
            r.memory@.len() == 0,
            r.code_layout@.len() == 0,
            r.func_id == 0,
    {
        Context { code_layout: Vec::new(), s_info: info, codes: Vec::new(), memory: Vec::new(), func_id: 0 }
    }

    /// The index of the next instruction.
    pub fn get_cur(&self) -> (r: usize)
        ensures
            r == self.codes@.len(),
    {
        self.codes.len()
    }

    /// Opens region `id` at the next instruction.
    pub fn enter(&mut self, id: usize) -> (r: usize)
        ensures
            r == old(self).codes@.len(),
            final(self).code_layout@ == old(self).code_layout@.push((id, Layout { offset: r, size: 0 })),
            final(self).codes == old(self).codes,
            region(final(self).code_layout@, id) == Some(Layout { offset: r, size: 0 }),
            final(self).memory == old(self).memory,
            final(self).s_info == old(self).s_info,
            final(self).func_id == old(self).func_id,
    {
        let cur = self.get_cur();
        self.code_layout.push((id, Layout::new(cur)));
        proof {
            let l = self.code_layout@;
            assert(last_record(l, id, l.len() - 1));
            let k = choose|k: int| last_record(l, id, k);
            assert(k == l.len() - 1);
        }
        cur
    }

    /// Position of the latest record of region `id`.
    fn region_index(&self, id: usize) -> (r: Option<usize>)
        ensures
            r is None ==> forall|j: int| 0 <= j < self.code_layout@.len() ==> (#[trigger] self.code_layout@[j]).0 != id,
            r is Some ==> last_record(self.code_layout@, id, r->0 as int),
    {
        let mut i: usize = self.code_layout.len();
        while i > 0
            invariant
                0 <= i <= self.code_layout@.len(),
                forall|j: int| i <= j < self.code_layout@.len() ==> (#[trigger] self.code_layout@[j]).0 != id,
            decreases i,
        {
            if self.code_layout[i - 1].0 == id {
                return Some(i - 1);
            }
            i = i - 1;
        }
        None
    }

    /// Closes region `id` at the next instruction: its latest record gets
    /// the size from its start to here.
    pub fn exit(&mut self, id: usize) -> (r: usize)
        ensures
            r == old(self).codes@.len(),
            forall|i: int| #[trigger] last_record(old(self).code_layout@, id, i)
                && old(self).code_layout@[i].1.offset <= r
                ==> final(self).code_layout@ == old(self).code_layout@.update(i,
                    (id, Layout { offset: old(self).code_layout@[i].1.offset, size: (r - old(self).code_layout@[i].1.offset) as usize })),
            (forall|j: int| 0 <= j < old(self).code_layout@.len() ==> (#[trigger] old(self).code_layout@[j]).0 != id)
                ==> final(self).code_layout == old(self).code_layout,
            final(self).codes == old(self).codes,
            final(self).memory == old(self).memory,
            final(self).s_info == old(self).s_info,
            final(self).func_id == old(self).func_id,
            final(self).code_layout@.len() == old(self).code_layout@.len(),
    {
        let cur = self.get_cur();
        if let Some(i) = self.region_index(id) {
            let (rid, l) = self.code_layout[i];
            if l.offset <= cur {
                self.code_layout.set(i, (rid, Layout { offset: l.offset, size: cur - l.offset }));
            }
        }
        cur
    }

    /// Appends one instruction.
    pub fn add_code(&mut self, code: Code)
        ensures
            final(self).codes@ == old(self).codes@.push(code),
            final(self).code_layout == old(self).code_layout,
            final(self).memory == old(self).memory,
            final(self).s_info == old(self).s_info,
            final(self).func_id == old(self).func_id,
    {
        self.codes.push(code);
    }

    /// Appends one word to the global memory image.
    pub fn add_memory(&mut self, v: i32)
        ensures
            final(self).memory@ == old(self).memory@.push(v),
            final(self).codes == old(self).codes,
            final(self).code_layout == old(self).code_layout,
            final(self).s_info == old(self).s_info,
            final(self).func_id == old(self).func_id,
    {
        self.memory.push(v);
    }

    /// Words that scope `id` allocates.
    pub fn get_scope_size(&self, id: usize) -> (r: Result<usize, ErrKind>)
        ensures
            id < self.s_info.mem_layout@.len() ==> r == Ok::<usize, ErrKind>(self.s_info.mem_layout@[id as int].size),
            id >= self.s_info.mem_layout@.len() ==> r == Err::<usize, ErrKind>(ErrKind::InvalidCode),
    {
        if id < self.s_info.mem_layout.len() {
            Ok(self.s_info.mem_layout[id].size)
        } else {
            Err(ErrKind::InvalidCode)
        }
    }

    /// The address of variable `id`.
    pub fn get_var_addr(&self, id: usize) -> (r: Result<MemAddr, ErrKind>)
        ensures
            var_addr(self.s_info, id) is Some ==> r == Ok::<MemAddr, ErrKind>(var_addr(self.s_info, id)->0),
            var_addr(self.s_info, id) is None ==> r == Err::<MemAddr, ErrKind>(ErrKind::InvalidCode),
    {
        if id >= self.s_info.mem_layout.len() {
            return Err(ErrKind::InvalidCode);
        }
        let mut i: usize = 0;
        while i < self.s_info.vars.len()
            invariant
                id < self.s_info.mem_layout@.len(),
                0 <= i <= self.s_info.vars@.len(),
                forall|j: int| 0 <= j < i ==> (#[trigger] self.s_info.vars@[j]).id != id,
            decreases self.s_info.vars@.len() - i,
        {
            if self.s_info.vars[i].id == id {
                let off = self.s_info.mem_layout[id].offset;
                proof {
                    let s = self.s_info;
                    let k = choose|k: int| 0 <= k < s.vars@.len() && (#[trigger] s.vars@[k]).id == id
                        && forall|j: int| 0 <= j < k ==> (#[trigger] s.vars@[j]).id != id;
                    assert(k == i as int) by {
                        if k < i as int {
                        } else if k > i as int {
                            assert(s.vars@[i as int].id == id);
                        }
                    }
                }
                if self.s_info.vars[i].func_id == 0 {
                    return Ok(MemAddr::Direct(off));
                } else {
                    return Ok(MemAddr::Indirect(off));
                }
            }
            i = i + 1;
        }
        Err(ErrKind::InvalidCode)
    }

    /// Pushes the value of variable `id`.
    pub fn push(&mut self, id: usize) -> (r: Result<(), ErrKind>)
        ensures
            var_addr(old(self).s_info, id) is None ==> r == Err::<(), ErrKind>(ErrKind::InvalidCode),
            var_addr(old(self).s_info, id) is Some ==> r is Ok
                && final(self).codes@ == old(self).codes@.push(Code::Push(var_addr(old(self).s_info, id)->0)),
            var_addr(old(self).s_info, id) is None ==> final(self).codes == old(self).codes,
            final(self).code_layout == old(self).code_layout,
            final(self).s_info == old(self).s_info,
            final(self).memory == old(self).memory,
    {
        let a = self.get_var_addr(id)?;
        self.codes.push(Code::Push(a));
        Ok(())
    }

    /// Pops the top of the stack into variable `id`.
    pub fn pop(&mut self, id: usize) -> (r: Result<(), ErrKind>)
        ensures
            var_addr(old(self).s_info, id) is None ==> r == Err::<(), ErrKind>(ErrKind::InvalidCode),
            var_addr(old(self).s_info, id) is Some ==> r is Ok
                && final(self).codes@ == old(self).codes@.push(Code::PopMov(var_addr(old(self).s_info, id)->0)),
            var_addr(old(self).s_info, id) is None ==> final(self).codes == old(self).codes,
            final(self).code_layout == old(self).code_layout,
            final(self).s_info == old(self).s_info,
            final(self).memory == old(self).memory,
    {
        let a = self.get_var_addr(id)?;
        self.codes.push(Code::PopMov(a));
        Ok(())
    }

    /// Number of parameters of function `id`.
    fn param_count(&self, id: usize) -> (r: Result<usize, ErrKind>)
        ensures
            param_count_of(self.s_info, id) is Some ==> r == Ok::<usize, ErrKind>(param_count_of(self.s_info, id)->0),
            param_count_of(self.s_info, id) is None ==> r == Err::<usize, ErrKind>(ErrKind::InvalidCode),
    {
        let mut i: usize = 0;
        while i < self.s_info.funcs.len()
            invariant
                forall|j: int| 0 <= j < i ==> (#[trigger] self.s_info.funcs@[j]).id != id,
            decreases self.s_info.funcs@.len() - i,
        {
            if self.s_info.funcs[i].id == id {
                proof {
                    let s = self.s_info;
                    let k = choose|k: int| 0 <= k < s.funcs@.len() && (#[trigger] s.funcs@[k]).id == id
                        && forall|j: int| 0 <= j < k ==> (#[trigger] s.funcs@[j]).id != id;
                    assert(k == i as int) by {
                        if k > i as int {
                            assert(s.funcs@[i as int].id == id);
                        }
                    }
                }
                return match &self.s_info.funcs[i].ty {
                    Type::Func(v) => {
                        if v.len() == 0 {
                            Err(ErrKind::InvalidCode)
                        } else {
                            Ok(v.len() - 1)
                        }
                    },
                    _ => Err(ErrKind::InvalidCode),
                };
            }
            i = i + 1;
        }
        Err(ErrKind::InvalidCode)
    }

    /// Tells whether function `id` returns nothing.
    pub fn returns_void(&self, id: usize) -> (r: bool)
        ensures
            r == returns_nothing(self.s_info, id),
    {
        let mut i: usize = 0;
        while i < self.s_info.funcs.len()
            invariant
                forall|j: int| 0 <= j < i ==> (#[trigger] self.s_info.funcs@[j]).id != id,
            decreases self.s_info.funcs@.len() - i,
        {
            if self.s_info.funcs[i].id == id {
                proof {
                    let s = self.s_info;
                    if returns_nothing(s, id) {
                        let k = choose|k: int| 0 <= k < s.funcs@.len() && (#[trigger] s.funcs@[k]).id == id
                            && (forall|j: int| 0 <= j < k ==> (#[trigger] s.funcs@[j]).id != id)
                            && (s.funcs@[k].ty matches Type::Func(v) && v@.len() > 0 && v@[v@.len() - 1] is Void);
                        assert(k == i as int) by {
                            if k > i as int {
                                assert(s.funcs@[i as int].id == id);
                            }
                        }
                    }
                }
                return match &self.s_info.funcs[i].ty {
                    Type::Func(v) => v.len() > 0 && matches!(v[v.len() - 1], Type::Void),
                    _ => false,
                };
            }
            i = i + 1;
        }
        false
    }

    /// Calls function `id` with the arguments on top of the stack.
    pub fn call(&mut self, id: usize) -> (r: Result<(), ErrKind>)
        ensures
            r is Ok <==> param_count_of(old(self).s_info, id) is Some,
            r is Err ==> r == Err::<(), ErrKind>(ErrKind::InvalidCode),
            r is Ok ==> final(self).codes@ == old(self).codes@.push(
                Code::Call(CodeAddr::NameStart(id), param_count_of(old(self).s_info, id)->0)),
            r is Err ==> final(self).codes == old(self).codes,
            final(self).code_layout == old(self).code_layout,
            final(self).s_info == old(self).s_info,
            final(self).memory == old(self).memory,
    {
        let n = self.param_count(id)?;
        self.codes.push(Code::Call(CodeAddr::NameStart(id), n));
        Ok(())
    }

    /// Starts the code of function `id`.
    pub fn enter_func(&mut self, id: usize)
        ensures
            final(self).func_id == id,
            final(self).codes == old(self).codes,
            final(self).s_info == old(self).s_info,
            final(self).memory == old(self).memory,
            final(self).code_layout@ == old(self).code_layout@.push((id, Layout { offset: old(self).codes@.len() as usize, size: 0 })),
    {
        self.func_id = id;
        self.enter(id);
    }

    /// Ends the code of the current function: its region is closed here,
    /// and after it comes the return taken when control reaches the end:
    /// 0 for `int`, nothing for `void`.
    pub fn exit_func(&mut self, ret_sz: usize)
        ensures
            forall|i: int| #[trigger] last_record(old(self).code_layout@, old(self).func_id, i)
                && old(self).code_layout@[i].1.offset <= old(self).codes@.len()
                ==> final(self).code_layout@ == old(self).code_layout@.update(i,
                    (old(self).func_id, Layout { offset: old(self).code_layout@[i].1.offset,
                        size: (old(self).codes@.len() - old(self).code_layout@[i].1.offset) as usize })),
            ret_sz == 0 ==> final(self).codes@ == old(self).codes@.push(Code::Ret(0)),
            ret_sz != 0 ==> final(self).codes@ == old(self).codes@.push(Code::PushValue(0)).push(Code::Ret(1)),
            final(self).func_id == 0,
            final(self).s_info == old(self).s_info,
            final(self).memory == old(self).memory,
    {
        let id = self.func_id;
        self.exit(id);
        if ret_sz == 0 {
            self.add_code(Code::Ret(0));
        } else {
            self.add_code(Code::PushValue(0));
            self.add_code(Code::Ret(1));
        }
        self.func_id = 0;
    }
}

impl Program {
    /// Links the generated code: every region name becomes an instruction
    /// index. `InvalidCode` when a name has no region or `main` has no code.
    pub fn new(cxt: Context) -> (r: Result<Self, ErrKind>)
        ensures
            r is Ok ==> all_linked(r->Ok_0.codes@),
            r is Ok ==> r->Ok_0.codes@.len() == cxt.codes@.len()
                && r->Ok_0.memory == cxt.memory
                && (forall|i: int| 0 <= i < cxt.codes@.len() ==>
                    link_code(cxt.code_layout@, #[trigger] cxt.codes@[i]) == Some(r->Ok_0.codes@[i]))
                && region(cxt.code_layout@, cxt.s_info.main_func_id) == Some(Layout {
                    offset: r->Ok_0.start_pc, size: region(cxt.code_layout@, cxt.s_info.main_func_id)->0.size }),
            r is Err ==> r == Err::<Self, ErrKind>(ErrKind::InvalidCode),
            (forall|i: int| 0 <= i < cxt.codes@.len() ==> link_code(cxt.code_layout@, #[trigger] cxt.codes@[i]) is Some)
                && region(cxt.code_layout@, cxt.s_info.main_func_id) is Some ==> r is Ok,
    {
        let mut codes: Vec<Code> = Vec::new();
        let mut i: usize = 0;
        while i < cxt.codes.len()
            invariant
                0 <= i <= cxt.codes@.len(),
                codes@.len() == i,
                forall|k: int| 0 <= k < i ==> link_code(cxt.code_layout@, #[trigger] cxt.codes@[k]) == Some(codes@[k]),
                all_linked(codes@),
            decreases cxt.codes@.len() - i,
        {
            let c = cxt.codes[i];
            let lc = match c {
                Code::Call(a, n) => Code::Call(cxt.link_addr(a)?, n),
                Code::Jump(a) => Code::Jump(cxt.link_addr(a)?),
                Code::CondJump(a) => Code::CondJump(cxt.link_addr(a)?),
                _ => c,
            };
            codes.push(lc);
            i = i + 1;
        }
        let pc = match cxt.region_index(cxt.s_info.main_func_id) {
            Some(k) => cxt.code_layout[k].1.offset,
            None => return Err(ErrKind::InvalidCode),
        };
        Ok(Program { memory: cxt.memory, codes, start_pc: pc })
    }
}

/// Linking is a function of the generated code and its regions: two
/// programs linked from the same code and regions hold the same
/// instructions.
pub proof fn lemma_linking_is_deterministic(
    codes: Seq<Code>,
    layout: Seq<(usize, Layout)>,
    a: Seq<Code>,
    b: Seq<Code>,
)
    requires
        a.len() == codes.len(),
        b.len() == codes.len(),
        forall|i: int| 0 <= i < codes.len() ==> link_code(layout, #[trigger] codes[i]) == Some(a[i]),
        forall|i: int| 0 <= i < codes.len() ==> link_code(layout, #[trigger] codes[i]) == Some(b[i]),
    ensures
        a == b,
{
    assert forall|i: int| 0 <= i < a.len() implies a[i] == b[i] by {
        assert(link_code(layout, codes[i]) == Some(a[i]));
        assert(link_code(layout, codes[i]) == Some(b[i]));
    }
    assert(a =~= b);
}

impl Context {
    /// Resolves a code address against the regions.
    pub fn link_addr(&self, a: CodeAddr) -> (r: Result<CodeAddr, ErrKind>)
        ensures
            link_addr(self.code_layout@, a) is Some ==> r == Ok::<CodeAddr, ErrKind>(link_addr(self.code_layout@, a)->0),
            link_addr(self.code_layout@, a) is None ==> r == Err::<CodeAddr, ErrKind>(ErrKind::InvalidCode),
    {
        match a {
            CodeAddr::Direct(_) => Ok(a),
            CodeAddr::NameStart(id) => match self.region_index(id) {
                Some(k) => Ok(CodeAddr::Direct(self.code_layout[k].1.offset)),
                None => Err(ErrKind::InvalidCode),
            },
            CodeAddr::NameEnd(id) => match self.region_index(id) {
                Some(k) => {
                    let l = self.code_layout[k].1;
                    if l.offset <= usize::MAX - l.size {
                        Ok(CodeAddr::Direct(l.offset + l.size))
                    } else {
                        Err(ErrKind::InvalidCode)
                    }
                },
                None => Err(ErrKind::InvalidCode),
            },
        }
    }
}

/// The code of one postfix item of an expression without calls: a literal
/// is pushed, a variable's value is pushed from its address, an operator
/// is applied; `None` for a call or a variable without an address.
pub open spec fn item_code(s: Semantic, it: CalcItem) -> Option<Code> {
    match it {
        CalcItem::Op(op) => Some(Code::Op(op)),
        CalcItem::Factor(FactorNd::Value(crate::token::Value::Int(n))) => Some(Code::PushValue(n)),
        CalcItem::Factor(FactorNd::Var(v)) => match var_addr(s, v.id) {
            Some(a) => Some(Code::Push(a)),
            None => None,
        },
        CalcItem::Factor(FactorNd::Func(_)) => None,
    }
}

/// The code of a call-free expression, item by item in postfix order.
pub open spec fn simple_code(s: Semantic, items: Seq<CalcItem>) -> Option<Seq<Code>>
    decreases items.len(),
{
    if items.len() == 0 {
        Some(seq![])
    } else {
        match (simple_code(s, items.drop_last()), item_code(s, items.last())) {
            (Some(c), Some(x)) => Some(c.push(x)),
            _ => None,
        }
    }
}

/// A call-free expression's prefixes are call-free too.
pub proof fn lemma_simple_code_prefix(s: Semantic, items: Seq<CalcItem>, k: int)
    requires
        0 <= k <= items.len(),
        simple_code(s, items) is Some,
    ensures
        simple_code(s, items.take(k)) is Some,
    decreases items.len() - k,
{
    if k < items.len() {
        lemma_simple_code_prefix(s, items, k + 1);
        assert(items.take(k + 1).drop_last() =~= items.take(k));
    } else {
        assert(items.take(k) =~= items);
    }
}

/// Code generation only appends: earlier instructions, the memory image
/// and the analysis results stay as they were.
pub open spec fn appends(a: Context, b: Context) -> bool {
    &&& b.s_info == a.s_info
    &&& b.memory == a.memory
    &&& a.codes@.len() <= b.codes@.len()
    &&& forall|i: int| 0 <= i < a.codes@.len() ==> #[trigger] b.codes@[i] == a.codes@[i]
}

/// Emits an expression: its operands and operators in postfix order, so
/// that its value ends up on top of the stack.
pub fn compile_expr(e: &ExprNd, cxt: &mut Context) -> (r: Result<(), ErrKind>)
    ensures
        simple_code(old(cxt).s_info, e.stack@) is Some ==> r is Ok
            && final(cxt).codes@ == old(cxt).codes@ + simple_code(old(cxt).s_info, e.stack@)->0,
        no_lex_err(r),
        appends(*old(cxt), *final(cxt)),
    decreases e,
{
    let mut i: usize = 0;
    while i < e.stack.len()
        invariant
            appends(*old(cxt), *cxt),
            0 <= i <= e.stack@.len(),
            simple_code(old(cxt).s_info, e.stack@) is Some ==>
                simple_code(old(cxt).s_info, e.stack@.take(i as int)) is Some
                && cxt.codes@ == old(cxt).codes@ + simple_code(old(cxt).s_info, e.stack@.take(i as int))->0,
        decreases e.stack@.len() - i,
    {
        proof {
            assert(decreases_to!(e.stack => e.stack@[i as int]));
            assert(e.stack@.take(i + 1).drop_last() =~= e.stack@.take(i as int));
            assert(e.stack@.take(i + 1).last() == e.stack@[i as int]);
            if simple_code(old(cxt).s_info, e.stack@) is Some {
                lemma_simple_code_prefix(old(cxt).s_info, e.stack@, i + 1);
            }
        }
        let ghost c0 = cxt.codes@;
        match &e.stack[i] {
            CalcItem::Op(op) => cxt.add_code(Code::Op(*op)),
            CalcItem::Factor(f) => compile_factor(f, cxt)?,
        }
        proof {
            if simple_code(old(cxt).s_info, e.stack@) is Some {
                assert(cxt.codes@ =~= old(cxt).codes@ + simple_code(old(cxt).s_info, e.stack@.take(i + 1))->0);
            }
        }
        i = i + 1;
    }
    proof {
        assert(e.stack@.take(i as int) =~= e.stack@);
    }
    Ok(())
}

pub fn compile_factor(f: &FactorNd, cxt: &mut Context) -> (r: Result<(), ErrKind>)
    ensures
        item_code(old(cxt).s_info, CalcItem::Factor(*f)) is Some ==> r is Ok
            && final(cxt).codes@ == old(cxt).codes@.push(item_code(old(cxt).s_info, CalcItem::Factor(*f))->0),
        no_lex_err(r),
        appends(*old(cxt), *final(cxt)),
    decreases f,
{
    match f {
        FactorNd::Var(v) => cxt.push(v.id),
        FactorNd::Value(crate::token::Value::Int(n)) => {
            cxt.add_code(Code::PushValue(*n));
            Ok(())
        },
        FactorNd::Func(c) => compile_call(c, cxt),
    }
}

/// Pushes the arguments left to right, then calls.
pub fn compile_call(n: &FuncCallNd, cxt: &mut Context) -> (r: Result<(), ErrKind>)
    ensures
        no_lex_err(r),
        appends(*old(cxt), *final(cxt)),
        r is Ok ==> param_count_of(old(cxt).s_info, n.var.id) is Some
            && final(cxt).codes@.last() == Code::Call(CodeAddr::NameStart(n.var.id), param_count_of(old(cxt).s_info, n.var.id)->0),
        args_code(old(cxt).s_info, n.params@) is Some && param_count_of(old(cxt).s_info, n.var.id) is Some ==> r is Ok
            && final(cxt).codes@ == (old(cxt).codes@ + args_code(old(cxt).s_info, n.params@)->0)
                .push(Code::Call(CodeAddr::NameStart(n.var.id), param_count_of(old(cxt).s_info, n.var.id)->0)),
    decreases n,
{
    let mut i: usize = 0;
    while i < n.params.len()
        invariant
            appends(*old(cxt), *cxt),
            0 <= i <= n.params@.len(),
            args_code(old(cxt).s_info, n.params@) is Some ==>
                args_code(old(cxt).s_info, n.params@.take(i as int)) is Some
                && cxt.codes@ == old(cxt).codes@ + args_code(old(cxt).s_info, n.params@.take(i as int))->0,
        decreases n.params@.len() - i,
    {
        proof {
            assert(decreases_to!(n.params => n.params@[i as int]));
            assert(n.params@.take(i + 1).drop_last() =~= n.params@.take(i as int));
            assert(n.params@.take(i + 1).last() == n.params@[i as int]);
            if args_code(old(cxt).s_info, n.params@) is Some {
                lemma_args_code_prefix(old(cxt).s_info, n.params@, i + 1);
            }
        }
        compile_expr(&n.params[i], cxt)?;
        proof {
            if args_code(old(cxt).s_info, n.params@) is Some {
                assert(cxt.codes@ =~= old(cxt).codes@ + args_code(old(cxt).s_info, n.params@.take(i + 1))->0);
            }
        }
        i = i + 1;
    }
    proof {
        assert(n.params@.take(i as int) =~= n.params@);
    }
    cxt.call(n.var.id)
}

/// The code of call-free arguments, left to right.
pub open spec fn args_code(s: Semantic, es: Seq<ExprNd>) -> Option<Seq<Code>>
    decreases es.len(),
{
    if es.len() == 0 {
        Some(seq![])
    } else {
        match (args_code(s, es.drop_last()), simple_code(s, es.last().stack@)) {
            (Some(c), Some(x)) => Some(c + x),
            _ => None,
        }
    }
}

/// Prefixes of call-free argument lists are call-free too.
pub proof fn lemma_args_code_prefix(s: Semantic, es: Seq<ExprNd>, k: int)
    requires
        0 <= k <= es.len(),
        args_code(s, es) is Some,
    ensures
        args_code(s, es.take(k)) is Some,
    decreases es.len() - k,
{
    if k < es.len() {
        lemma_args_code_prefix(s, es, k + 1);
        assert(es.take(k + 1).drop_last() =~= es.take(k));
    } else {
        assert(es.take(k) =~= es);
    }
}

/// The expression is a lone call of a function that returns nothing.
pub open spec fn is_lone_void_call(s: Semantic, e: ExprNd) -> bool {
    &&& e.stack@.len() == 1
    &&& (e.stack@[0] matches CalcItem::Factor(FactorNd::Func(c)) && returns_nothing(s, c.var.id))
}

/// The expression is a lone call of a function that returns nothing, and
/// so leaves no value.
fn is_void_call(e: &ExprNd, cxt: &Context) -> (r: bool)
    ensures
        r == is_lone_void_call(cxt.s_info, *e),
{
    if e.stack.len() == 1 {
        if let CalcItem::Factor(FactorNd::Func(c)) = &e.stack[0] {
            return cxt.returns_void(c.var.id);
        }
    }
    false
}

/// A declaration leaves the initial value on the stack: that word is the
/// variable's slot.
pub fn compile_declare(n: &DeclareNd, cxt: &mut Context) -> (r: Result<(), ErrKind>)
    ensures
        no_lex_err(r),
        appends(*old(cxt), *final(cxt)),
        n.expr is None ==> r is Ok && final(cxt).codes@ == old(cxt).codes@.push(Code::PushValue(0)),
        n.expr is Some && simple_code(old(cxt).s_info, n.expr->0.stack@) is Some ==> r is Ok
            && final(cxt).codes@ == old(cxt).codes@ + simple_code(old(cxt).s_info, n.expr->0.stack@)->0,
{
    match &n.expr {
        Some(e) => compile_expr(e, cxt),
        None => {
            cxt.add_code(Code::PushValue(0));
            Ok(())
        },
    }
}

#[verifier::rlimit(40)]
pub fn compile_stmt(n: &StmtNd, cxt: &mut Context) -> (r: Result<(), ErrKind>)
    ensures
        no_lex_err(r),
        appends(*old(cxt), *final(cxt)),
        n is Print && var_addr(old(cxt).s_info, n->Print_0.id) is Some ==> r is Ok
            && final(cxt).codes@ == old(cxt).codes@.push(Code::Push(var_addr(old(cxt).s_info, n->Print_0.id)->0))
                .push(Code::Print).push(Code::Pop(1)),
        n is Assign && r is Ok ==> final(cxt).codes@.last()
            == Code::PopMov(var_addr(old(cxt).s_info, n->Assign_0.var.id)->0),
        n is Empty ==> r is Ok && final(cxt).codes == old(cxt).codes,
        n is Assign && simple_code(old(cxt).s_info, n->Assign_0.expr.stack@) is Some
            && var_addr(old(cxt).s_info, n->Assign_0.var.id) is Some ==> r is Ok
            && final(cxt).codes@ == (old(cxt).codes@ + simple_code(old(cxt).s_info, n->Assign_0.expr.stack@)->0)
                .push(Code::PopMov(var_addr(old(cxt).s_info, n->Assign_0.var.id)->0)),
        n is Expr && simple_code(old(cxt).s_info, n->Expr_0.stack@) is Some ==> r is Ok
            && final(cxt).codes@ == (old(cxt).codes@ + simple_code(old(cxt).s_info, n->Expr_0.stack@)->0).push(Code::Pop(1)),
        n is Declare && n->Declare_0.expr is None ==> r is Ok
            && final(cxt).codes@ == old(cxt).codes@.push(Code::PushValue(0)),
        n is Expr && r is Ok && !is_lone_void_call(old(cxt).s_info, n->Expr_0) ==> final(cxt).codes@.last() == Code::Pop(1),
{
    match n {
        StmtNd::Assign(a) => {
            compile_expr(&a.expr, cxt)?;
            cxt.pop(a.var.id)
        },
        StmtNd::Declare(d) => compile_declare(d, cxt),
        StmtNd::Expr(e) => {
            compile_expr(e, cxt)?;
            if !is_void_call(e, cxt) {
                cxt.add_code(Code::Pop(1));
            }
            Ok(())
        },
        StmtNd::Print(v) => {
            cxt.push(v.id)?;
            cxt.add_code(Code::Print);
            cxt.add_code(Code::Pop(1));
            Ok(())
        },
        StmtNd::Empty => Ok(()),
    }
}

/// Drops the words that scope `id` allocated, if any.
fn pop_scope(id: usize, cxt: &mut Context) -> (r: Result<(), ErrKind>)
    ensures
        no_lex_err(r),
        appends(*old(cxt), *final(cxt)),
        id < old(cxt).s_info.mem_layout@.len() ==> r is Ok,
{
    let sz = cxt.get_scope_size(id)?;
    if sz > 0 {
        cxt.add_code(Code::Pop(sz));
    }
    Ok(())
}

/// `if`: a false condition jumps past the first branch; the first branch
/// ends with a jump past the `else` part.
pub fn compile_if(n: &IfNd, cxt: &mut Context) -> (r: Result<(), ErrKind>)
    ensures
        no_lex_err(r),
        appends(*old(cxt), *final(cxt)),
        simple_code(old(cxt).s_info, n.expr.stack@) is Some && (*n.item matches ItemNd::Stmt(StmtNd::Empty))
            && n.els is None && n.id < old(cxt).s_info.mem_layout@.len()
            && n.then_id < old(cxt).s_info.mem_layout@.len() ==> r is Ok,
        r is Ok ==> exists|k: int, l: int| old(cxt).codes@.len() <= k < l < final(cxt).codes@.len()
            && final(cxt).codes@[k] == Code::CondJump(CodeAddr::NameEnd(n.then_id))
            && final(cxt).codes@[l] == Code::Jump(CodeAddr::NameEnd(n.id)),
    decreases n,
{
    cxt.enter(n.id);
    compile_expr(&n.expr, cxt)?;
    let k = cxt.get_cur();
    cxt.add_code(Code::CondJump(CodeAddr::NameEnd(n.then_id)));
    cxt.enter(n.then_id);
    compile_item(&n.item, cxt)?;
    pop_scope(n.then_id, cxt)?;
    let l = cxt.get_cur();
    cxt.add_code(Code::Jump(CodeAddr::NameEnd(n.id)));
    let ghost mid = *cxt;
    cxt.exit(n.then_id);
    match &n.els {
        Some(b) => match &**b {
            ElsNd::If(i) => compile_if(i, cxt)?,
            ElsNd::Item(i) => compile_item(i, cxt)?,
        },
        None => {},
    }
    pop_scope(n.id, cxt)?;
    cxt.exit(n.id);
    proof {
        assert(cxt.codes@[l as int] == mid.codes@[l as int]);
        assert(cxt.codes@[k as int] == mid.codes@[k as int]);
    }
    Ok(())
}

pub fn compile_item(n: &ItemNd, cxt: &mut Context) -> (r: Result<(), ErrKind>)
    ensures
        no_lex_err(r),
        appends(*old(cxt), *final(cxt)),
        n is Break || n is Continue ==> r is Ok,
        n matches ItemNd::Stmt(StmtNd::Empty) ==> r is Ok && final(cxt).codes == old(cxt).codes,
        n is Return && n->Return_0.expr is None ==> r is Ok,
        n is Break && r is Ok ==> final(cxt).codes@.last() == Code::Jump(CodeAddr::NameEnd(n->Break_0.id)),
        n is Continue && r is Ok ==> final(cxt).codes@.last() == Code::Jump(CodeAddr::NameStart(n->Continue_0.id)),
        n is Return && r is Ok ==> final(cxt).codes@.last() == Code::Ret(n->Return_0.sz),
        n is While && r is Ok ==> final(cxt).codes@.last() == Code::Jump(CodeAddr::NameStart(n->While_0.id)),
    decreases n,
{
    match n {
        ItemNd::Stmt(s) => compile_stmt(s, cxt),
        ItemNd::Block(b) => compile_block(b, cxt),
        ItemNd::If(i) => compile_if(i, cxt),
        ItemNd::While(w) => {
            cxt.enter(w.id);
            compile_expr(&w.expr, cxt)?;
            cxt.add_code(Code::CondJump(CodeAddr::NameEnd(w.id)));
            compile_item(&w.item, cxt)?;
            pop_scope(w.id, cxt)?;
            cxt.add_code(Code::Jump(CodeAddr::NameStart(w.id)));
            cxt.exit(w.id);
            Ok(())
        },
        ItemNd::Break(b) => {
            if b.pop > 0 {
                cxt.add_code(Code::Pop(b.pop));
            }
            cxt.add_code(Code::Jump(CodeAddr::NameEnd(b.id)));
            Ok(())
        },
        ItemNd::Continue(c) => {
            if c.pop > 0 {
                cxt.add_code(Code::Pop(c.pop));
            }
            cxt.add_code(Code::Jump(CodeAddr::NameStart(c.id)));
            Ok(())
        },
        ItemNd::Return(rn) => {
            match &rn.expr {
                Some(e) => compile_expr(e, cxt)?,
                None => {
                    let mut k: usize = 0;
                    while k < rn.sz
                        invariant
                            appends(*old(cxt), *cxt),
                        decreases rn.sz - k,
                    {
                        cxt.add_code(Code::PushValue(0));
                        k = k + 1;
                    }
                },
            }
            cxt.add_code(Code::Ret(rn.sz));
            Ok(())
        },
    }
}

/// A block ends by dropping the words of its locals.
pub fn compile_block(n: &BlockNd, cxt: &mut Context) -> (r: Result<(), ErrKind>)
    ensures
        no_lex_err(r),
        appends(*old(cxt), *final(cxt)),
        n.items@.len() == 0 && n.id < old(cxt).s_info.mem_layout@.len() ==> r is Ok
            && final(cxt).codes@ == old(cxt).codes@.push(Code::Pop(old(cxt).s_info.mem_layout@[n.id as int].size)),
        r is Ok ==> n.id < old(cxt).s_info.mem_layout@.len()
            && final(cxt).codes@.last() == Code::Pop(old(cxt).s_info.mem_layout@[n.id as int].size),
    decreases n,
{
    cxt.enter(n.id);
    let mut i: usize = 0;
    while i < n.items.len()
        invariant
            appends(*old(cxt), *cxt),
            n.items@.len() == 0 ==> cxt.codes == old(cxt).codes,
        decreases n.items@.len() - i,
    {
        proof {
            assert(decreases_to!(n.items => n.items@[i as int]));
        }
        compile_item(&n.items[i], cxt)?;
        i = i + 1;
    }
    let sz = cxt.get_scope_size(n.id)?;
    cxt.add_code(Code::Pop(sz));
    cxt.exit(n.id);
    Ok(())
}

/// A defined function is a region named by its symbol; a declaration emits nothing.
pub fn compile_func(n: &FuncNd, cxt: &mut Context) -> (r: Result<(), ErrKind>)
    ensures
        no_lex_err(r),
        appends(*old(cxt), *final(cxt)),
        n.block is None ==> r is Ok && final(cxt).codes == old(cxt).codes,
        n.block is Some && r is Ok ==> final(cxt).codes@.last() is Ret,
        n.block is Some && n.block->0.items@.len() == 0 && n.block->0.id < old(cxt).s_info.mem_layout@.len() ==> r is Ok && {
            let body = old(cxt).codes@.push(Code::Pop(old(cxt).s_info.mem_layout@[n.block->0.id as int].size));
            if n.ret_ty is Void {
                final(cxt).codes@ == body.push(Code::Ret(0))
            } else {
                final(cxt).codes@ == body.push(Code::PushValue(0)).push(Code::Ret(1))
            }
        },
{
    match &n.block {
        Some(b) => {
            cxt.enter_func(n.var.id);
            compile_block(b, cxt)?;
            let ret_sz: usize = match n.ret_ty {
                Type::Void => 0,
                _ => 1,
            };
            cxt.exit_func(ret_sz);
            Ok(())
        },
        None => Ok(()),
    }
}

/// The memory image of a program's globals: each global declaration's
/// constant, in order.
pub open spec fn global_words(items: Seq<GItemNd>) -> Seq<i32>
    decreases items.len(),
{
    if items.len() == 0 {
        seq![]
    } else {
        let rest = global_words(items.drop_last());
        match items.last() {
            GItemNd::Declare(d) => match crate::nodes::const_value_of(d) {
                Some(v) => rest.push(v),
                None => rest,
            },
            _ => rest,
        }
    }
}

/// A global declaration adds its constant to the memory image.
pub fn compile_gitem(n: &GItemNd, cxt: &mut Context) -> (r: Result<(), ErrKind>)
    ensures
        no_lex_err(r),
        n is Declare ==> final(cxt).codes == old(cxt).codes && final(cxt).s_info == old(cxt).s_info,
        n is Declare && crate::nodes::const_value_of(n->Declare_0) is Some ==> r is Ok
            && final(cxt).memory@ == old(cxt).memory@.push(crate::nodes::const_value_of(n->Declare_0)->0),
        n is Declare && crate::nodes::const_value_of(n->Declare_0) is None ==> r == Err::<(), ErrKind>(ErrKind::GlobalNeedConst),
        n is Func ==> appends(*old(cxt), *final(cxt)),
{
    match n {
        GItemNd::Func(f) => compile_func(f, cxt),
        GItemNd::Declare(d) => match d.try_retrieve_const() {
            Some(v) => {
                cxt.add_memory(v);
                Ok(())
            },
            None => Err(ErrKind::GlobalNeedConst),
        },
    }
}

pub fn compile_root(n: &RootNd, cxt: &mut Context) -> (r: Result<(), ErrKind>)
    ensures
        no_lex_err(r),
        final(cxt).s_info == old(cxt).s_info,
        old(cxt).codes@.len() <= final(cxt).codes@.len(),
        forall|i: int| 0 <= i < old(cxt).codes@.len() ==> #[trigger] final(cxt).codes@[i] == old(cxt).codes@[i],
        r is Ok ==> final(cxt).memory@ == old(cxt).memory@ + global_words(n.items@),
        (forall|k: int| 0 <= k < n.items@.len() ==> (#[trigger] n.items@[k]) is Declare
            && crate::nodes::const_value_of(n.items@[k]->Declare_0) is Some) ==> r is Ok,
{
    let mut i: usize = 0;
    while i < n.items.len()
        invariant
            cxt.s_info == old(cxt).s_info,
            0 <= i <= n.items@.len(),
            old(cxt).codes@.len() <= cxt.codes@.len(),
            forall|k: int| 0 <= k < old(cxt).codes@.len() ==> #[trigger] cxt.codes@[k] == old(cxt).codes@[k],
            0 <= i <= n.items@.len(),
            cxt.memory@ == old(cxt).memory@ + global_words(n.items@.take(i as int)),
        decreases n.items@.len() - i,
    {
        proof {
            assert(n.items@.take(i + 1).drop_last() =~= n.items@.take(i as int));
            assert(n.items@.take(i + 1).last() == n.items@[i as int]);
        }
        compile_gitem(&n.items[i], cxt)?;
        proof {
            assert(cxt.memory@ =~= old(cxt).memory@ + global_words(n.items@.take(i + 1)));
        }
        i = i + 1;
    }
    proof {
        assert(n.items@.take(i as int) =~= n.items@);
    }
    Ok(())
}

/// A node that emits its code into a compiler context.
pub trait Compiler {
    fn compile(&self, cxt: &mut Context) -> Result<(), ErrKind>;
}

impl Compiler for ExprNd {
    fn compile(&self, cxt: &mut Context) -> Result<(), ErrKind> {
        compile_expr(self, cxt)
    }
}

impl Compiler for FactorNd {
    fn compile(&self, cxt: &mut Context) -> Result<(), ErrKind> {
        compile_factor(self, cxt)
    }
}

impl Compiler for FuncCallNd {
    fn compile(&self, cxt: &mut Context) -> Result<(), ErrKind> {
        compile_call(self, cxt)
    }
}

impl Compiler for DeclareNd {
    fn compile(&self, cxt: &mut Context) -> Result<(), ErrKind> {
        compile_declare(self, cxt)
    }
}

impl Compiler for StmtNd {
    fn compile(&self, cxt: &mut Context) -> Result<(), ErrKind> {
        compile_stmt(self, cxt)
    }
}

impl Compiler for IfNd {
    fn compile(&self, cxt: &mut Context) -> Result<(), ErrKind> {
        compile_if(self, cxt)
    }
}

impl Compiler for ItemNd {
    fn compile(&self, cxt: &mut Context) -> Result<(), ErrKind> {
        compile_item(self, cxt)
    }
}

impl Compiler for BlockNd {
    fn compile(&self, cxt: &mut Context) -> Result<(), ErrKind> {
        compile_block(self, cxt)
    }
}

impl Compiler for FuncNd {
    fn compile(&self, cxt: &mut Context) -> Result<(), ErrKind> {
        compile_func(self, cxt)
    }
}

impl Compiler for GItemNd {
    fn compile(&self, cxt: &mut Context) -> Result<(), ErrKind> {
        compile_gitem(self, cxt)
    }
}

impl Compiler for RootNd {
    fn compile(&self, cxt: &mut Context) -> Result<(), ErrKind> {
        compile_root(self, cxt)
    }
}

/// The pipeline: parse, analyze, generate code and link.
pub fn compile(code: &str) -> (r: Result<Program, ErrKind>)
    ensures
        (exists|i: int| 0 <= i < crate::lexer::lexemes(code@).len()
            && crate::lexer::bad_lexeme(#[trigger] crate::lexer::lexemes(code@)[i]))
            <==> r == Err::<Program, ErrKind>(ErrKind::LexErr),
        crate::lexer::lexemes(code@).len() == 0 ==> r == Err::<Program, ErrKind>(ErrKind::NoMainFunc),
        r is Ok ==> all_linked(r->Ok_0.codes@),
{
    let (nd, info) = analyze(code)?;
    let mut cxt = Context::new(info);
    compile_root(&nd, &mut cxt)?;
    Program::new(cxt)
}

} // verus!
