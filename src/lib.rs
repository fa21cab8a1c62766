pub mod analyzer;
pub mod code;
pub mod compiler;
pub mod context;
pub mod err;
pub mod infos;
pub mod lexer;
pub mod nodes;
pub mod op;
pub mod parser;
pub mod seq;
pub mod token;
pub mod utils;
pub mod vm;

pub use analyzer::analyze;
pub use code::{Code, CodeAddr, MemAddr};
pub use compiler::{compile, Compiler, Program};
pub use context::{Context, Semantic};
pub use err::ErrKind;
pub use infos::{FuncInfo, Layout, ScopeInfo, VarInfo};
pub use lexer::lexer;
pub use nodes::{
    AssignNd, BlockNd, BreakNd, CalcItem, ContinueNd, DeclareNd, ElsNd, ExprNd, FactorNd, FuncCallNd,
    FuncNd, GItemNd, IfNd, ItemNd, ReturnNd, RootNd, StmtNd, VarNd, WhileNd,
};
pub use op::{calc_op_1, calc_op_2, get_op_param_num, Op};
pub use parser::{get_calc_stack, parse, Parser};
pub use seq::{SeqPack, Sequence};
pub use token::{
    get_token_from_char, get_token_from_word, get_type_size, get_value_type,
    Token, Type, Value,
};
pub use utils::preprocess_code;
pub use vm::VM;
use compiler::all_linked;
use vm::{initial_state, lemma_run_no_lex_err, run, STEP_LIMIT};
use err::no_lex_err;
use lexer::{bad_lexeme, lexemes};

use vstd::prelude::*;

verus! {

/// Words of memory the machine gets in `compile_and_run`.
pub const VM_SIZE: usize = 1000;

/// Runs a program on a machine of `VM_SIZE` words: the printed values, or
/// the first error. A program whose global memory leaves the machine fewer
/// than 100 words of stack is `StackOverFlow`.
pub fn run_program(prog: Program) -> (r: Result<Vec<i32>, ErrKind>)
    ensures
        no_lex_err(r),
        prog.memory@.len() > VM_SIZE - 100 ==> r == Err::<Vec<i32>, ErrKind>(ErrKind::StackOverFlow),
        prog.memory@.len() <= VM_SIZE - 100 ==> match run(prog.codes@, initial_state(prog, VM_SIZE as nat), STEP_LIMIT as nat) {
            Ok(o) => r is Ok && r->Ok_0@ == o,
            Err(e) => r == Err::<Vec<i32>, ErrKind>(e),
        },
{
    if prog.memory.len() > VM_SIZE - 100 {
        return Err(ErrKind::StackOverFlow);
    }
    let ghost p = prog;
    let mut vm = VM::new(VM_SIZE, prog);
    proof {
        lemma_run_no_lex_err(p.codes@, initial_state(p, VM_SIZE as nat), STEP_LIMIT as nat);
    }
    vm.execute()
}

/// Compiles source text and runs it on a machine of `VM_SIZE` words: the
/// printed values, or the first error. A lexical error is `LexErr`.
pub fn compile_and_run(code: &str) -> (r: Result<Vec<i32>, ErrKind>)
    ensures
        (exists|i: int| 0 <= i < lexemes(code@).len() && bad_lexeme(#[trigger] lexemes(code@)[i]))
            <==> r == Err::<Vec<i32>, ErrKind>(ErrKind::LexErr),
        r is Ok ==> exists|p: Program| all_linked(p.codes@) && p.memory@.len() <= VM_SIZE - 100
            && run(p.codes@, initial_state(p, VM_SIZE as nat), STEP_LIMIT as nat) == Ok::<Seq<i32>, ErrKind>(r->Ok_0@),
{
    let prog = compile(code)?;
    let ghost p = prog;
    let r = run_program(prog);
    proof {
        if r is Ok {
            assert(all_linked(p.codes@) && p.memory@.len() <= VM_SIZE - 100);
        }
    }
    r
}

} // verus!
