use minic::{parse, BlockNd, ContinueNd, BreakNd, ErrKind, ExprNd, FuncCallNd, FuncNd, IfNd, ReturnNd, WhileNd, CalcItem, Op};

#[test]
fn test_parse_func_call() {
    let code = "f(1,2,3)";
    let parse_res = parse::<FuncCallNd>(code);
    parse_res.unwrap();
}

#[test]
fn test_parse_func() {
    let code = "int foo(int a);";
    let parse_res = parse::<FuncNd>(code);
    parse_res.unwrap();
    let code = "int foo(int a, int);";
    let parse_res = parse::<FuncNd>(code);
    parse_res.unwrap();
    let code = "int foo(){}";
    let parse_res = parse::<FuncNd>(code);
    parse_res.unwrap();
}

#[test]
fn test_parse_expr() {
    let code = "1+f(12*2,42)*2";
    let parse_res = parse::<ExprNd>(code);
    parse_res.unwrap();
    let code = "(-1+2)*(3-4)&&!1||6+10";
    let parse_res = parse::<ExprNd>(code);
    parse_res.unwrap();
}

#[test]
fn test_parse_block() {
    let code = "{}";
    let parse_res = parse::<BlockNd>(code);
    parse_res.unwrap();
    let code = "{a=1;b=1;}";
    let parse_res = parse::<BlockNd>(code);
    parse_res.unwrap();
}

#[test]
fn test_parse_if_else() {
    let code = "if(1){}";
    let parse_res = parse::<IfNd>(code);
    parse_res.unwrap();
    let code = "if(1){{}} else {}";
    let parse_res = parse::<IfNd>(code);
    parse_res.unwrap();
    let code = "if(1){{}} else if(2) {}";
    let parse_res = parse::<IfNd>(code);
    parse_res.unwrap();
}

#[test]
fn test_parse_while() {
    let code = "while(1){}";
    let parse_res = parse::<WhileNd>(code);
    parse_res.unwrap();
}

#[test]
fn test_parse_cond() {
    let code = "continue;";
    let parse_res = parse::<ContinueNd>(code);
    parse_res.unwrap();
    let code = "break;";
    let parse_res = parse::<BreakNd>(code);
    parse_res.unwrap();
    let code = "return;";
    let parse_res = parse::<ReturnNd>(code);
    parse_res.unwrap();
    let code = "return 0;";
    let parse_res = parse::<ReturnNd>(code);
    parse_res.unwrap();
    let code = "if (1) return 0;";
    let parse_res = parse::<IfNd>(code);
    parse_res.unwrap();
}

#[test]
fn test_parse_multiple() {
    let code = "if(1)if(1){}else;else while(1);";
    let parse_res = parse::<IfNd>(code);
    parse_res.unwrap();
}

#[test]
fn parse_reports_leftover_tokens() {
    assert_eq!(parse::<ExprNd>("1 2").unwrap_err(), ErrKind::ParseErr);
    assert_eq!(parse::<ExprNd>("1 @").unwrap_err(), ErrKind::LexErr);
}

#[test]
fn expressions_come_out_in_postfix_order() {
    let e = parse::<ExprNd>("1-2*3-4").unwrap();
    let ops: Vec<Option<Op>> = e
        .stack
        .iter()
        .map(|it| match it {
            CalcItem::Op(op) => Some(*op),
            CalcItem::Factor(_) => None,
        })
        .collect();
    assert_eq!(ops, vec![None, None, None, Some(Op::Multiply), Some(Op::Minus), None, Some(Op::Minus)]);
    assert_eq!(e.try_retrieve_const(), Some(-9));
    assert_eq!(parse::<ExprNd>("(-1+2)*(3-4)&&!1||6+10").unwrap().try_retrieve_const(), Some(1));
    assert_eq!(parse::<ExprNd>("7/0").unwrap().try_retrieve_const(), None);
}
