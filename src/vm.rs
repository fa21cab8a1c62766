use crate::code::{Code, CodeAddr, MemAddr};
use crate::compiler::Program;
use crate::err::ErrKind;
use crate::op::{calc_op_1, calc_op_2, eval_op_1, eval_op_2, get_op_param_num, op_arity};
use vstd::prelude::*;

verus! {

/// The machine's registers and memory, as values.
pub struct VmState {
    pub pc: usize,
    pub ps: usize,
    pub pd: usize,
    pub datas: Seq<i32>,
    pub ctrl: Seq<usize>,
    pub stop: bool,
}

/// What one instruction does: the next state and what it prints, or a
/// runtime error.
pub enum Step {
    Next(VmState, Option<i32>),
    Fault(ErrKind),
}

/// The index that a data address denotes in the current frame.
pub open spec fn resolve(s: VmState, a: MemAddr) -> int {
    match a {
        MemAddr::Direct(x) => x as int,
        MemAddr::Indirect(x) => s.pd + x,
    }
}

/// Memory after the `n` words at `src` are copied to `dst`.
pub open spec fn move_words(d: Seq<i32>, dst: int, src: int, n: int) -> Seq<i32> {
    Seq::new(d.len(), |i: int| if dst <= i < dst + n { d[src + (i - dst)] } else { d[i] })
}

/// Executes the instruction at `pc`. A stack pointer past the memory, and
/// every stack access outside it, is `StackOverFlow`; a `pc` outside the code or an unlinked address is
/// `InvalidCode`; division by zero is `DivideZero`. `Exit` stops the
/// machine. `Ret` in the outermost
/// frame stops the machine; otherwise it restores the caller's frame and
/// leaves the `n` result words where the callee's frame began.
pub open spec fn step(codes: Seq<Code>, s: VmState) -> Step {
    if s.pc >= codes.len() {
        Step::Fault(ErrKind::InvalidCode)
    } else if s.ps > s.datas.len() {
        Step::Fault(ErrKind::StackOverFlow)
    } else {
        let pc1 = (s.pc + 1) as usize;
        let len = s.datas.len();
        match codes[s.pc as int] {
            Code::PushValue(x) => if s.ps >= len {
                Step::Fault(ErrKind::StackOverFlow)
            } else {
                Step::Next(VmState { pc: pc1, ps: (s.ps + 1) as usize, datas: s.datas.update(s.ps as int, x), ..s }, None)
            },
            Code::Push(a) => {
                let i = resolve(s, a);
                if s.ps >= len || i >= len {
                    Step::Fault(ErrKind::StackOverFlow)
                } else {
                    Step::Next(VmState { pc: pc1, ps: (s.ps + 1) as usize, datas: s.datas.update(s.ps as int, s.datas[i]), ..s }, None)
                }
            },
            Code::Pop(n) => if n > s.ps {
                Step::Fault(ErrKind::StackOverFlow)
            } else {
                Step::Next(VmState { pc: pc1, ps: (s.ps - n) as usize, ..s }, None)
            },
            Code::PopMov(a) => {
                let i = resolve(s, a);
                if s.ps == 0 || i >= len {
                    Step::Fault(ErrKind::StackOverFlow)
                } else {
                    Step::Next(VmState { pc: pc1, ps: (s.ps - 1) as usize, datas: s.datas.update(i, s.datas[s.ps - 1]), ..s }, None)
                }
            },
            Code::Op(op) => if op_arity(op) == 1 {
                if s.ps < 1 {
                    Step::Fault(ErrKind::StackOverFlow)
                } else {
                    Step::Next(VmState { pc: pc1, datas: s.datas.update(s.ps - 1, eval_op_1(op, s.datas[s.ps - 1])), ..s }, None)
                }
            } else if s.ps < 2 {
                Step::Fault(ErrKind::StackOverFlow)
            } else {
                match eval_op_2(op, s.datas[s.ps - 2], s.datas[s.ps - 1]) {
                    Ok(v) => Step::Next(VmState { pc: pc1, ps: (s.ps - 1) as usize, datas: s.datas.update(s.ps - 2, v), ..s }, None),
                    Err(e) => Step::Fault(e),
                }
            },
            Code::Call(CodeAddr::Direct(a), n) => if n > s.ps {
                Step::Fault(ErrKind::StackOverFlow)
            } else {
                Step::Next(VmState { pc: a, pd: (s.ps - n) as usize, ctrl: s.ctrl.push(pc1).push(s.pd), ..s }, None)
            },
            Code::Jump(CodeAddr::Direct(a)) => Step::Next(VmState { pc: a, ..s }, None),
            Code::CondJump(CodeAddr::Direct(a)) => if s.ps < 1 {
                Step::Fault(ErrKind::StackOverFlow)
            } else {
                Step::Next(VmState {
                    pc: if s.datas[s.ps - 1] == 0 { a } else { pc1 },
                    ps: (s.ps - 1) as usize,
                    ..s
                }, None)
            },
            Code::Print => if s.ps < 1 {
                Step::Fault(ErrKind::StackOverFlow)
            } else {
                Step::Next(VmState { pc: pc1, ..s }, Some(s.datas[s.ps - 1]))
            },
            Code::Ret(n) => if s.ctrl.len() == 0 {
                Step::Next(VmState { pc: pc1, stop: true, ..s }, None)
            } else if s.ctrl.len() < 2 || s.pd + n > s.ps {
                Step::Fault(ErrKind::StackOverFlow)
            } else {
                let c = s.ctrl.len();
                Step::Next(VmState {
                    pc: s.ctrl[c - 2],
                    pd: s.ctrl[c - 1],
                    ps: (s.pd + n) as usize,
                    ctrl: s.ctrl.subrange(0, c - 2),
                    datas: move_words(s.datas, s.pd as int, s.ps - n, n as int),
                    stop: s.stop,
                }, None)
            },
            Code::Exit => Step::Next(VmState { pc: pc1, stop: true, ..s }, None),
            _ => Step::Fault(ErrKind::InvalidCode),
        }
    }
}

/// Output gathered before a run's remainder.
pub open spec fn prepend(out: Option<i32>, rest: Result<Seq<i32>, ErrKind>) -> Result<Seq<i32>, ErrKind> {
    match rest {
        Ok(o) => match out {
            Some(v) => Ok(seq![v] + o),
            None => Ok(o),
        },
        Err(e) => Err(e),
    }
}

/// The printed values of at most `fuel` steps from `s`, or the first
/// runtime error.
pub open spec fn run(codes: Seq<Code>, s: VmState, fuel: nat) -> Result<Seq<i32>, ErrKind>
    decreases fuel,
{
    if s.stop || fuel == 0 {
        Ok(seq![])
    } else {
        match step(codes, s) {
            Step::Fault(e) => Err(e),
            Step::Next(s2, out) => prepend(out, run(codes, s2, (fuel - 1) as nat)),
        }
    }
}

/// The machine state that `VM::new(size, p)` loads: global memory at the
/// bottom, zeros above it, stack and frame base just past the globals, and
/// `pc` at the entry point.
pub open spec fn initial_state(p: Program, size: nat) -> VmState {
    VmState {
        pc: p.start_pc,
        ps: p.memory@.len() as usize,
        pd: p.memory@.len() as usize,
        datas: p.memory@ + Seq::new((size - p.memory@.len()) as nat, |i: int| 0i32),
        ctrl: seq![],
        stop: false,
    }
}

/// Number of instructions after which `execute` gives up: far more than
/// any run of this machine performs.
pub const STEP_LIMIT: u64 = 0xffff_ffff_ffff_ffff;

/// The stack machine. One array holds the global memory and, above it, the
/// operand stack and the frames; `control_stack` holds the return address
/// and saved frame base of every active call.
pub struct VM {
    pub pc: usize,
    pub ps: usize,
    pub pd: usize,
    pub codes: Vec<Code>,
    pub datas: Vec<i32>,
    pub control_stack: Vec<usize>,
    pub stop: bool,
}

impl VM {
    pub open spec fn state(&self) -> VmState {
        VmState {
            pc: self.pc,
            ps: self.ps,
            pd: self.pd,
            datas: self.datas@,
            ctrl: self.control_stack@,
            stop: self.stop,
        }
    }

    /// A machine of `data_stack_size` words loaded with `prog`: the global
    /// memory at the bottom, the stack and frame base just above it, and
    /// `pc` at `main`.
    pub fn new(data_stack_size: usize, prog: Program) -> (r: Self)
        requires
            data_stack_size >= prog.memory@.len() + 100,
        ensures
            r.codes == prog.codes,
            r.pc == prog.start_pc,
            r.ps == prog.memory@.len(),
            r.pd == prog.memory@.len(),
            r.datas@.len() == data_stack_size,
            forall|i: int| 0 <= i < prog.memory@.len() ==> r.datas@[i] == prog.memory@[i],
            forall|i: int| prog.memory@.len() <= i < data_stack_size ==> r.datas@[i] == 0,
            r.control_stack@.len() == 0,
            !r.stop,
            r.state() == initial_state(prog, data_stack_size as nat),
    {
        let mem_len = prog.memory.len();
        let mut datas: Vec<i32> = vec![0; data_stack_size];
        let mut i: usize = 0;
        while i < mem_len
            invariant
                mem_len == prog.memory@.len(),
                mem_len + 100 <= data_stack_size,
                0 <= i <= mem_len,
                datas@.len() == data_stack_size,
                forall|k: int| 0 <= k < i ==> datas@[k] == prog.memory@[k],
                forall|k: int| i <= k < data_stack_size ==> datas@[k] == 0,
            decreases mem_len - i,
        {
            datas.set(i, prog.memory[i]);
            i = i + 1;
        }
        proof {
            assert(datas@ =~= prog.memory@ + Seq::new((data_stack_size - mem_len) as nat, |i: int| 0i32));
        }
        let control_stack: Vec<usize> = Vec::new();
        proof {
            assert(control_stack@ =~= seq![]);
        }
        VM {
            pc: prog.start_pc,
            pd: mem_len,
            ps: mem_len,
            datas,
            codes: prog.codes,
            control_stack,
            stop: false,
        }
    }

    fn code_addr(a: CodeAddr) -> (r: Result<usize, ErrKind>)
        ensures
            a is Direct ==> r == Ok::<usize, ErrKind>(a->Direct_0),
            !(a is Direct) ==> r == Err::<usize, ErrKind>(ErrKind::InvalidCode),
    {
        match a {
            CodeAddr::Direct(x) => Ok(x),
            _ => Err(ErrKind::InvalidCode),
        }
    }

    /// The index that a data address denotes, if it lies in memory.
    fn geta(&self, addr: MemAddr) -> (r: Option<usize>)
        ensures
            resolve(self.state(), addr) < self.datas@.len() ==> r == Some(resolve(self.state(), addr) as usize),
            resolve(self.state(), addr) >= self.datas@.len() ==> r is None,
    {
        let n = self.datas.len();
        match addr {
            MemAddr::Direct(a) => if a < n { Some(a) } else { None },
            MemAddr::Indirect(a) => if self.pd < n && a < n - self.pd { Some(self.pd + a) } else { None },
        }
    }

    /// Executes one instruction; returns the value it prints, if any.
    pub fn execute_once(&mut self) -> (r: Result<Option<i32>, ErrKind>)
        ensures
            final(self).codes == old(self).codes,
            match step(old(self).codes@, old(self).state()) {
                Step::Fault(e) => r == Err::<Option<i32>, ErrKind>(e) && final(self).state() == old(self).state(),
                Step::Next(s2, out) => r == Ok::<Option<i32>, ErrKind>(out) && final(self).state() == s2,
            },
    {
        let n = self.datas.len();
        if self.pc >= self.codes.len() {
            return Err(ErrKind::InvalidCode);
        }
        if self.ps > n {
            return Err(ErrKind::StackOverFlow);
        }
        let code = self.codes[self.pc];
        let pc1 = self.pc + 1;
        match code {
            Code::PushValue(x) => {
                if self.ps >= n {
                    return Err(ErrKind::StackOverFlow);
                }
                self.datas.set(self.ps, x);
                self.ps = self.ps + 1;
                self.pc = pc1;
            },
            Code::Push(addr) => {
                let a = match self.geta(addr) {
                    Some(a) => a,
                    None => return Err(ErrKind::StackOverFlow),
                };
                if self.ps >= n {
                    return Err(ErrKind::StackOverFlow);
                }
                let v = self.datas[a];
                self.datas.set(self.ps, v);
                self.ps = self.ps + 1;
                self.pc = pc1;
            },
            Code::Pop(sz) => {
                if sz > self.ps {
                    return Err(ErrKind::StackOverFlow);
                }
                self.ps = self.ps - sz;
                self.pc = pc1;
            },
            Code::PopMov(addr) => {
                let a = match self.geta(addr) {
                    Some(a) => a,
                    None => return Err(ErrKind::StackOverFlow),
                };
                if self.ps == 0 {
                    return Err(ErrKind::StackOverFlow);
                }
                let v = self.datas[self.ps - 1];
                self.datas.set(a, v);
                self.ps = self.ps - 1;
                self.pc = pc1;
            },
            Code::Op(op) => {
                if get_op_param_num(op) == 1 {
                    if self.ps < 1 {
                        return Err(ErrKind::StackOverFlow);
                    }
                    let v = calc_op_1(op, self.datas[self.ps - 1])?;
                    self.datas.set(self.ps - 1, v);
                } else {
                    if self.ps < 2 {
                        return Err(ErrKind::StackOverFlow);
                    }
                    let v = calc_op_2(op, self.datas[self.ps - 2], self.datas[self.ps - 1])?;
                    self.datas.set(self.ps - 2, v);
                    self.ps = self.ps - 1;
                }
                self.pc = pc1;
            },
            Code::Call(code_addr, num_params) => {
                let a = Self::code_addr(code_addr)?;
                if num_params > self.ps {
                    return Err(ErrKind::StackOverFlow);
                }
                self.control_stack.push(pc1);
                self.control_stack.push(self.pd);
                self.pd = self.ps - num_params;
                self.pc = a;
            },
            Code::Jump(code_addr) => {
                self.pc = Self::code_addr(code_addr)?;
            },
            Code::CondJump(code_addr) => {
                let a = Self::code_addr(code_addr)?;
                if self.ps < 1 {
                    return Err(ErrKind::StackOverFlow);
                }
                let v = self.datas[self.ps - 1];
                self.ps = self.ps - 1;
                self.pc = if v == 0 { a } else { pc1 };
            },
            Code::Print => {
                if self.ps < 1 {
                    return Err(ErrKind::StackOverFlow);
                }
                self.pc = pc1;
                return Ok(Some(self.datas[self.ps - 1]));
            },
            Code::Exit => {
                self.stop = true;
                self.pc = pc1;
            },
            Code::Ret(sz) => {
                let c = self.control_stack.len();
                if c == 0 {
                    self.stop = true;
                    self.pc = pc1;
                } else {
                    if c < 2 || self.pd > self.ps || sz > self.ps - self.pd {
                        return Err(ErrKind::StackOverFlow);
                    }
                    let nps = self.pd;
                    let src = self.ps - sz;
                    let ghost d0 = self.datas@;
                    let mut i: usize = 0;
                    while i < sz
                        invariant
                            self.control_stack == old(self).control_stack,
                            c == old(self).control_stack@.len(),
                            c >= 2,
                            self.pd == old(self).pd,
                            self.ps == old(self).ps,
                            self.pc == old(self).pc,
                            self.stop == old(self).stop,
                            self.codes == old(self).codes,
                            nps == old(self).pd,
                            src == old(self).ps - sz,
                            nps + sz <= src + sz <= n,
                            nps <= src,
                            self.datas@.len() == n,
                            0 <= i <= sz,
                            forall|k: int| 0 <= k < n ==> #[trigger] self.datas@[k] ==
                                if nps <= k < nps + i { d0[src + (k - nps)] } else { d0[k] },
                        decreases sz - i,
                    {
                        let v = self.datas[src + i];
                        self.datas.set(nps + i, v);
                        i = i + 1;
                    }
                    proof {
                        assert(self.datas@ =~= move_words(d0, nps as int, src as int, sz as int));
                    }
                    let saved_pd = self.control_stack.pop().unwrap();
                    let ret_pc = self.control_stack.pop().unwrap();
                    self.pd = saved_pd;
                    self.pc = ret_pc;
                    self.ps = nps + sz;
                    proof {
                        assert(self.control_stack@ =~= old(self).control_stack@.subrange(0, c - 2));
                    }
                }
            },
        }
        Ok(None)
    }

    /// Runs until the outermost `Ret` or an `Exit`, and returns every
    /// printed value in order, or the first runtime error. The run is
    /// bounded by `STEP_LIMIT` instructions: a program still running after
    /// that many steps stops there, and the values printed so far are
    /// returned.
    pub fn execute(&mut self) -> (r: Result<Vec<i32>, ErrKind>)
        ensures
            match run(old(self).codes@, old(self).state(), STEP_LIMIT as nat) {
                Ok(o) => r is Ok && r->Ok_0@ == o,
                Err(e) => r == Err::<Vec<i32>, ErrKind>(e),
            },
    {
        let mut outs: Vec<i32> = Vec::new();
        let mut steps: u64 = 0;
        while !self.stop && steps < STEP_LIMIT
            invariant
                self.codes == old(self).codes,
                run(old(self).codes@, old(self).state(), STEP_LIMIT as nat)
                    == prepend_all(outs@, run(self.codes@, self.state(), (STEP_LIMIT - steps) as nat)),
            decreases STEP_LIMIT - steps,
        {
            let ghost s0 = self.state();
            let ghost f = (STEP_LIMIT - steps) as nat;
            let res = self.execute_once();
            proof {
                lemma_prepend_all_step(outs@, self.codes@, s0, f);
            }
            match res {
                Ok(Some(v)) => {
                    proof {
                        lemma_prepend_all_push(outs@, v, run(self.codes@, self.state(), (f - 1) as nat));
                    }
                    outs.push(v);
                },
                Ok(None) => {},
                Err(e) => return Err(e),
            }
            steps = steps + 1;
        }
        Ok(outs)
    }
}

/// Division or remainder by zero stops the machine with `DivideZero`: it
/// neither wraps around nor crashes.
pub proof fn lemma_division_by_zero_faults(codes: Seq<Code>, s: VmState)
    requires
        s.pc < codes.len(),
        2 <= s.ps <= s.datas.len(),
        codes[s.pc as int] == Code::Op(crate::op::Op::Divide) || codes[s.pc as int] == Code::Op(crate::op::Op::Modulo),
        s.datas[s.ps - 1] == 0,
    ensures
        step(codes, s) == Step::Fault(ErrKind::DivideZero),
{
}

/// The machine reports only runtime errors: never a lexical one.
pub proof fn lemma_run_no_lex_err(codes: Seq<Code>, s: VmState, fuel: nat)
    ensures
        crate::err::no_lex_err(run(codes, s, fuel)),
    decreases fuel,
{
    if !(s.stop || fuel == 0) {
        match step(codes, s) {
            Step::Fault(e) => {},
            Step::Next(s2, out) => lemma_run_no_lex_err(codes, s2, (fuel - 1) as nat),
        }
    }
}

/// Output gathered so far, before a run's remainder.
pub open spec fn prepend_all(done: Seq<i32>, rest: Result<Seq<i32>, ErrKind>) -> Result<Seq<i32>, ErrKind> {
    match rest {
        Ok(o) => Ok(done + o),
        Err(e) => Err(e),
    }
}

proof fn lemma_prepend_all_step(done: Seq<i32>, codes: Seq<Code>, s: VmState, f: nat)
    requires
        !s.stop,
        f > 0,
    ensures
        match step(codes, s) {
            Step::Fault(e) => prepend_all(done, run(codes, s, f)) == Err::<Seq<i32>, ErrKind>(e),
            Step::Next(s2, out) => prepend_all(done, run(codes, s, f))
                == prepend_all(done, prepend(out, run(codes, s2, (f - 1) as nat))),
        },
{
}

proof fn lemma_prepend_all_push(done: Seq<i32>, v: i32, rest: Result<Seq<i32>, ErrKind>)
    ensures
        prepend_all(done, prepend(Some(v), rest)) == prepend_all(done.push(v), rest),
{
    match rest {
        Ok(o) => {
            assert(done + (seq![v] + o) =~= done.push(v) + o);
        },
        Err(_) => {},
    }
}

} // verus!
