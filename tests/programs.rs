use minic::{analyze, compile, compile_and_run, ErrKind, VM};

const BASIC: &str = "int main() { int a=0; a; a=a+23; a; return 0; }";
const WHILE: &str = "int main() { int a = 10; while (a > 0) { a; a = a - 3; } return 0; }";
const IF: &str = "int main() {
    int a = 10;
    while (1) {
        if (a < 0) break;
        if (a % 2 == 0) a;
        else if (a == 1) {}
        a = a - 1;
    }
    return 0;
}";
const GCD: &str = "int gcd(int a, int b);
int main() {
    int x = gcd(27, 36);
    x;
    return 0;
}
int gcd(int a, int b) {
    if (b == 0) return a;
    return gcd(b, a % b);
}";

fn err_name(code: &str) -> String {
    analyze(code).unwrap_err().to_string()
}

#[test]
fn gcd_example() {
    assert_eq!(vec![9], compile_and_run(GCD).unwrap());
}

#[test]
fn test_redeclare() {
    let code = "int main() { int a = 1; int a = 2; return 0; }";
    let res = analyze(code);
    assert_eq!(String::from("ReDeclare"), res.unwrap_err().to_string());
    let code = "int a = 1; int main() { int a = 2; { int a = 3; a; } return 0; }";
    assert!(analyze(code).is_ok());
}

#[test]
fn test_mainfunc() {
    let code = "int foo() { return 0; }";
    let res = analyze(code);
    assert_eq!(String::from("NoMainFunc"), res.unwrap_err().to_string());
    let code = "int main(int a) { return a; }";
    let res = analyze(code);
    // main func type error
    assert_eq!(String::from("TypeErr"), res.unwrap_err().to_string());
}

#[test]
fn test_var() {
    let code = "int g = 3; int main() { int a = g; a = a + 1; a; return 0; }";
    assert!(analyze(code).is_ok());
    let code = "int main() { b = 1; return 0; }";
    let res = analyze(code);
    assert_eq!(String::from("NoDeclare"), res.unwrap_err().to_string());
    let code = "int a = 1; int b = a; int main() { return 0; }";
    let res = analyze(code);
    assert_eq!(String::from("GlobalNeedConst"), res.unwrap_err().to_string());
}

#[test]
fn test_func() {
    // good func 0 direct impl
    let code = "int f(int a) { return a; } int main() { return f(1); }";
    assert!(analyze(code).is_ok());
    // good func 1 declare then impl
    let code = "int f(int a); int main() { return f(1); } int f(int a) { return a; }";
    assert!(analyze(code).is_ok());
    // double declare
    let code = "int f(int a); int f(int a); int main() { return 0; }";
    let res = analyze(code);
    assert_eq!(String::from("ReDeclare"), res.unwrap_err().to_string());
    // double impl
    let code = "int f(int a) { return a; } int f(int a) { return a; } int main() { return 0; }";
    let res = analyze(code);
    assert_eq!(String::from("ReImpl"), res.unwrap_err().to_string());
    // No impl
    let code = "int f(int a); int main() { return 0; }";
    let res = analyze(code);
    assert_eq!(String::from("FuncNoImpl"), res.unwrap_err().to_string());
    // declare & impl param mismatch
    let code = "int f(int a); int f(int a, int b) { return a; } int main() { return 0; }";
    let res = analyze(code);
    assert_eq!(String::from("TypeErr"), res.unwrap_err().to_string());
    // declare & call param mismatch
    let code = "int f(int a); int main() { return f(1, 2); } int f(int a) { return a; }";
    let res = analyze(code);
    assert_eq!(String::from("TypeErr"), res.unwrap_err().to_string());
}

#[test]
fn test_compile_basic() {
    let prog = compile(BASIC);
    if prog.is_err() {
        println!("{:?}", prog.err());
    } else {
        let prog = prog.unwrap();
        for c in prog.codes {
            println!("{:?}", c);
        }
        println!("Big ok");
    }
}

#[test]
fn test_compile_while() {
    let prog = compile(WHILE);
    if prog.is_err() {
        println!("{:?}", prog.err());
    } else {
        let prog = prog.unwrap();
        for c in prog.codes {
            println!("{:?}", c);
        }
        println!("Big ok");
    }
}

#[test]
fn test_compile_if() {
    let prog = compile(IF);
    if prog.is_err() {
        println!("{:?}", prog.err());
    } else {
        let prog = prog.unwrap();
        for c in prog.codes {
            println!("{:?}", c);
        }
        println!("Big ok");
    }
}

#[test]
fn test_vm_basic() {
    let prog = compile(BASIC);
    assert!(prog.is_ok());
    let mut vm = VM::new(1000, prog.unwrap());
    let res = vm.execute();
    assert!(res.is_ok());
    assert_eq!(vec![0, 23], res.unwrap());
}

#[test]
fn test_vm_while() {
    let prog = compile(WHILE);
    assert!(prog.is_ok());
    let mut vm = VM::new(1000, prog.unwrap());
    let res = vm.execute();
    assert!(res.is_ok());
    assert_eq!(vec![10, 7, 4, 1], res.unwrap());
}

#[test]
fn test_vm_if() {
    let prog = compile(IF);
    assert!(prog.is_ok());
    let mut vm = VM::new(1000, prog.unwrap());
    let res = vm.execute();
    assert!(res.is_ok());
    assert_eq!(vec![10, 8, 6, 4, 2, 0], res.unwrap());
}

#[test]
fn sum_of_locals_prints_in_order() {
    let code = "int main() { int a = 1; int b = 2; int c = a + b + 3; a; b; c; return 0; }";
    assert_eq!(compile_and_run(code).unwrap(), vec![1, 2, 6]);
}

#[test]
fn globals_and_shadowing() {
    let code = "int g = 5; int h = -2 * 3;
int main() { g; h; int g = 7; g; { int g = 9; g; } g; h = h + 1; h; return 0; }";
    assert_eq!(compile_and_run(code).unwrap(), vec![5, -6, 7, 9, 7, -5]);
}

#[test]
fn sibling_blocks_reuse_words() {
    let code = "int main() { int a = 1; { int b = 2; b; } { int c = 3; c; } int d = 4; a; d; return 0; }";
    assert_eq!(compile_and_run(code).unwrap(), vec![2, 3, 1, 4]);
}

#[test]
fn break_continue_and_nested_calls() {
    let code = "int sq(int x) { return x * x; }
int add(int x, int y) { return x + y; }
int main() {
    int i = 0;
    while (i < 10) {
        int t = i;
        i = i + 1;
        if (t == 2) continue;
        if (t == 5) break;
        int s = add(sq(t), 1);
        s;
    }
    i;
    return 0;
}";
    assert_eq!(compile_and_run(code).unwrap(), vec![1, 2, 10, 17, 6]);
}

#[test]
fn void_function_and_recursion() {
    let code = "void show(int n) { if (n > 0) { n; show(n - 1); } return; }
int fact(int n) { if (n <= 1) return 1; return n * fact(n - 1); }
int main() { show(3); int f = fact(5); f; return 0; }";
    assert_eq!(compile_and_run(code).unwrap(), vec![3, 2, 1, 120]);
}

#[test]
fn division_by_zero_is_an_error() {
    let code = "int main() { int a = 0; int b = 10 / a; b; return 0; }";
    assert_eq!(compile_and_run(code), Err(ErrKind::DivideZero));
    let code = "int main() { int a = 0; int b = 10 % a; return 0; }";
    assert_eq!(compile_and_run(code), Err(ErrKind::DivideZero));
}

#[test]
fn deep_recursion_overflows_the_stack() {
    let code = "int f(int n) { return f(n + 1); } int main() { return f(0); }";
    assert_eq!(compile_and_run(code), Err(ErrKind::StackOverFlow));
}

#[test]
fn compiling_twice_gives_the_same_program() {
    let a = compile(GCD).unwrap();
    let b = compile(GCD).unwrap();
    assert_eq!(a.codes, b.codes);
    assert_eq!(a.memory, b.memory);
    assert_eq!(a.start_pc, b.start_pc);
    let g = "int x = 4; int y = 2 + 3; int main() { x; y; return 0; }";
    assert_eq!(compile(g).unwrap().memory, compile(g).unwrap().memory);
    assert_eq!(compile(g).unwrap().memory, vec![4, 5]);
}

#[test]
fn semantic_errors_by_kind() {
    assert_eq!(err_name("int main() { break; return 0; }"), "JumpNoLoop");
    assert_eq!(err_name("int f(int) { return 0; } int main() { return 0; }"), "FormatErr");
    assert_eq!(err_name("int main() { return 0 }"), "ParseErr");
    assert_eq!(err_name("int main() { return 0; } #"), "LexErr");
    assert_eq!(err_name("int v = 1; int v() { return 0; } int main() { return 0; }"), "ReDeclare");
    assert_eq!(err_name("void main() { return; }"), "TypeErr");
    assert_eq!(err_name("int main() { int a = 1; a(); return 0; }"), "TypeErr");
    assert_eq!(err_name("int main() { main; return 0; }"), "TypeErr");
    assert_eq!(err_name("int main() { int a = 1 + f(2); return 0; }"), "NoDeclare");
}

#[test]
fn empty_program_has_no_main() {
    assert_eq!(compile("  # nothing\n").unwrap_err(), ErrKind::LexErr);
    assert_eq!(compile("   ").unwrap_err(), ErrKind::NoMainFunc);
    assert_eq!(analyze("").unwrap_err(), ErrKind::NoMainFunc);
}
