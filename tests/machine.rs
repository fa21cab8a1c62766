use minic::{calc_op_1, calc_op_2, get_op_param_num, Code, CodeAddr, ErrKind, MemAddr, Op, Program, VM};

fn run(memory: Vec<i32>, codes: Vec<Code>) -> Result<Vec<i32>, ErrKind> {
    let mut vm = VM::new(200, Program { memory, codes, start_pc: 0 });
    vm.execute()
}

#[test]
fn operator_table() {
    assert_eq!(calc_op_2(Op::Add, 7, 5), Ok(12));
    assert_eq!(calc_op_2(Op::Minus, 7, 5), Ok(2));
    assert_eq!(calc_op_2(Op::Multiply, -7, 5), Ok(-35));
    assert_eq!(calc_op_2(Op::Divide, -7, 2), Ok(-3));
    assert_eq!(calc_op_2(Op::Modulo, -7, 2), Ok(-1));
    assert_eq!(calc_op_2(Op::GreaterEq, 5, 5), Ok(1));
    assert_eq!(calc_op_2(Op::GreaterThan, 5, 5), Ok(0));
    assert_eq!(calc_op_2(Op::LessEq, 4, 5), Ok(1));
    assert_eq!(calc_op_2(Op::LessThan, 6, 5), Ok(0));
    assert_eq!(calc_op_2(Op::Eq, 3, 3), Ok(1));
    assert_eq!(calc_op_2(Op::NotEq, 3, 3), Ok(0));
    assert_eq!(calc_op_2(Op::And, 3, 0), Ok(0));
    assert_eq!(calc_op_2(Op::Or, 0, -2), Ok(1));
    assert_eq!(calc_op_1(Op::UnaryMinus, 9), Ok(-9));
    assert_eq!(calc_op_1(Op::Not, 0), Ok(1));
    assert_eq!(calc_op_1(Op::Not, 4), Ok(0));
    assert_eq!(get_op_param_num(Op::Not), 1);
    assert_eq!(get_op_param_num(Op::Or), 2);
}

#[test]
fn operator_edge_cases() {
    assert_eq!(calc_op_2(Op::Divide, 1, 0), Err(ErrKind::DivideZero));
    assert_eq!(calc_op_2(Op::Modulo, 1, 0), Err(ErrKind::DivideZero));
    assert_eq!(calc_op_2(Op::Add, i32::MAX, 1), Ok(i32::MIN));
    assert_eq!(calc_op_2(Op::Divide, i32::MIN, -1), Ok(i32::MIN));
    assert_eq!(calc_op_2(Op::Modulo, i32::MIN, -1), Ok(0));
    assert_eq!(calc_op_1(Op::UnaryMinus, i32::MIN), Ok(i32::MIN));
}

#[test]
fn machine_runs_linked_code() {
    let codes = vec![
        Code::Push(MemAddr::Direct(0)),
        Code::PushValue(4),
        Code::Op(Op::Multiply),
        Code::Print,
        Code::PopMov(MemAddr::Direct(0)),
        Code::Push(MemAddr::Direct(0)),
        Code::Print,
        Code::Exit,
        Code::Print,
    ];
    assert_eq!(run(vec![3], codes), Ok(vec![12, 12]));
}

#[test]
fn machine_calls_and_returns() {
    // main: push 5, call f(1 arg), print, ret; f: push arg, push arg, *, ret 1
    let codes = vec![
        Code::PushValue(5),
        Code::Call(CodeAddr::Direct(5), 1),
        Code::Print,
        Code::Pop(1),
        Code::Ret(0),
        Code::Push(MemAddr::Indirect(0)),
        Code::Push(MemAddr::Indirect(0)),
        Code::Op(Op::Multiply),
        Code::Ret(1),
    ];
    assert_eq!(run(vec![], codes), Ok(vec![25]));
}

#[test]
fn machine_runtime_errors() {
    assert_eq!(run(vec![], vec![Code::Pop(1)]), Err(ErrKind::StackOverFlow));
    assert_eq!(run(vec![], vec![Code::Jump(CodeAddr::NameStart(3))]), Err(ErrKind::InvalidCode));
    assert_eq!(run(vec![], vec![Code::PushValue(1)]), Err(ErrKind::InvalidCode));
    assert_eq!(
        run(vec![], vec![Code::PushValue(1), Code::PushValue(0), Code::Op(Op::Modulo), Code::Ret(0)]),
        Err(ErrKind::DivideZero)
    );
    let mut push_forever = vec![Code::PushValue(1), Code::Jump(CodeAddr::Direct(0))];
    push_forever.push(Code::Exit);
    assert_eq!(run(vec![], push_forever), Err(ErrKind::StackOverFlow));
}

#[test]
fn error_names() {
    assert_eq!(ErrKind::DivideZero.to_string(), "DivideZero");
    assert_eq!(ErrKind::GlobalNeedConst.to_string(), "GlobalNeedConst");
}

#[test]
fn run_program_checks_memory_size() {
    let big = Program { memory: vec![0; 901], codes: vec![Code::Ret(0)], start_pc: 0 };
    assert_eq!(minic::run_program(big), Err(ErrKind::StackOverFlow));
    let fits = Program { memory: vec![7; 900], codes: vec![Code::Push(MemAddr::Direct(899)), Code::Print, Code::Ret(0)], start_pc: 0 };
    assert_eq!(minic::run_program(fits), Ok(vec![7]));
}

#[test]
fn push_past_memory_overflows() {
    let mut vm = VM::new(100, Program { memory: vec![], codes: vec![Code::PushValue(1)], start_pc: 0 });
    vm.ps = 100;
    assert_eq!(vm.execute_once(), Err(ErrKind::StackOverFlow));
    vm.ps = 101;
    assert_eq!(vm.execute_once(), Err(ErrKind::StackOverFlow));
    assert_eq!(vm.ps, 101);
}
