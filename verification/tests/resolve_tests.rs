use blockgen::ast::{
    BinOp, Expr, Name, References, Span, Stmt, Struct, Field, Type, UnOp, Var, List, Arg,
};
use blockgen::resolve::{visit_expr, visit_stmts, Scopes};

fn sp() -> Span {
    Span { start: 0, end: 0 }
}

fn empty_scopes<'a>(
    vars: &'a Vec<Var>,
    lists: &'a Vec<blockgen::ast::List>,
    enums: &'a Vec<blockgen::ast::Enum>,
    structs: &'a Vec<Struct>,
) -> Scopes<'a> {
    Scopes { vars, lists, enums, structs, global: None }
}

fn rewrite(e: Expr) -> Expr {
    let vars: Vec<Var> = Vec::new();
    let lists: Vec<List> = Vec::new();
    let enums: Vec<blockgen::ast::Enum> = Vec::new();
    let structs: Vec<Struct> = Vec::new();
    let s = empty_scopes(&vars, &lists, &enums, &structs);
    let pargs: Vec<Arg> = Vec::new();
    let mut used: Vec<bool> = Vec::new();
    let mut refs = References::new();
    visit_expr(&e, &s, &pargs, &mut used, &mut refs)
}

fn lit(v: i64) -> Expr {
    Expr::Int(v)
}

fn float(v: f64) -> Expr {
    Expr::Float(v.to_bits())
}

fn bin(op: BinOp, l: Expr, r: Expr) -> Expr {
    Expr::BinOp { op, span: sp(), lhs: Box::new(l), rhs: Box::new(r) }
}

fn un(op: UnOp, v: Expr) -> Expr {
    Expr::UnOp { op, span: sp(), val: Box::new(v) }
}

#[test]
fn fold_int_add_exact() {
    match rewrite(bin(BinOp::Add, lit(2), lit(3))) {
        Expr::Int(v) => assert_eq!(v, 5),
        other => panic!("expected Int, got {:?}", other),
    }
}

#[test]
fn fold_int_sub_and_mul_exact() {
    match rewrite(bin(BinOp::Sub, lit(10), lit(4))) {
        Expr::Int(v) => assert_eq!(v, 6),
        other => panic!("expected Int, got {:?}", other),
    }
    match rewrite(bin(BinOp::Mul, lit(-7), lit(6))) {
        Expr::Int(v) => assert_eq!(v, -42),
        other => panic!("expected Int, got {:?}", other),
    }
}

#[test]
fn fold_int_overflow_left_unfolded() {
    match rewrite(bin(BinOp::Add, lit(i64::MAX), lit(1))) {
        Expr::BinOp { op: BinOp::Add, .. } => {}
        other => panic!("expected unfolded BinOp, got {:?}", other),
    }
}

#[test]
fn fold_mixed_promotes_int_either_order() {
    match rewrite(bin(BinOp::Add, lit(2), float(0.5))) {
        Expr::Float(bits) => assert_eq!(bits, (2f64 + 0.5f64).to_bits()),
        other => panic!("expected Float, got {:?}", other),
    }
    match rewrite(bin(BinOp::Sub, float(0.5), lit(2))) {
        Expr::Float(bits) => assert_eq!(bits, (0.5f64 - 2f64).to_bits()),
        other => panic!("expected Float, got {:?}", other),
    }
    match rewrite(bin(BinOp::Sub, lit(2), float(0.5))) {
        Expr::Float(bits) => assert_eq!(bits, (2f64 - 0.5f64).to_bits()),
        other => panic!("expected Float, got {:?}", other),
    }
    match rewrite(bin(BinOp::Mul, float(1.25), float(4.0))) {
        Expr::Float(bits) => assert_eq!(bits, (1.25f64 * 4f64).to_bits()),
        other => panic!("expected Float, got {:?}", other),
    }
}

#[test]
fn minus_folds_literals() {
    match rewrite(un(UnOp::Minus, lit(5))) {
        Expr::Int(v) => assert_eq!(v, -5),
        other => panic!("expected Int, got {:?}", other),
    }
    match rewrite(un(UnOp::Minus, float(1.5))) {
        Expr::Float(bits) => assert_eq!(bits, (-1.5f64).to_bits()),
        other => panic!("expected Float, got {:?}", other),
    }
}

#[test]
fn minus_of_other_operand_is_zero_minus() {
    let name = Expr::Name { name: "x".to_string(), span: sp() };
    match rewrite(un(UnOp::Minus, name)) {
        Expr::BinOp { op: BinOp::Sub, lhs, .. } => match *lhs {
            Expr::Int(0) => {}
            other => panic!("expected zero lhs, got {:?}", other),
        },
        other => panic!("expected canonical subtraction, got {:?}", other),
    }
}

#[test]
fn double_not_cancels_to_inner() {
    let inner = Expr::Name { name: "flag".to_string(), span: sp() };
    match rewrite(un(UnOp::Not, un(UnOp::Not, inner))) {
        Expr::Name { name, .. } => assert_eq!(name, "flag"),
        other => panic!("expected the inner subtree, got {:?}", other),
    }
}

#[test]
fn minus_of_zero_minus_cancels_to_inner() {
    let x = Expr::Name { name: "x".to_string(), span: sp() };
    match rewrite(un(UnOp::Minus, bin(BinOp::Sub, lit(0), x))) {
        Expr::Name { name, .. } => assert_eq!(name, "x"),
        other => panic!("expected the inner subtree, got {:?}", other),
    }
}

#[test]
fn le_desugars_to_not_reversed_lt() {
    match rewrite(bin(BinOp::Le, lit(3), lit(4))) {
        Expr::UnOp { op: UnOp::Not, val, .. } => match *val {
            Expr::BinOp { op: BinOp::Lt, lhs, rhs, .. } => {
                assert!(matches!(*lhs, Expr::Int(4)));
                assert!(matches!(*rhs, Expr::Int(3)));
            }
            other => panic!("expected Lt, got {:?}", other),
        },
        other => panic!("expected Not, got {:?}", other),
    }
}

#[test]
fn ge_ne_floordiv_desugar() {
    match rewrite(bin(BinOp::Ge, lit(3), lit(4))) {
        Expr::UnOp { op: UnOp::Not, val, .. } => {
            assert!(matches!(*val, Expr::BinOp { op: BinOp::Gt, .. }));
        }
        other => panic!("expected Not, got {:?}", other),
    }
    match rewrite(bin(BinOp::Ne, lit(3), lit(4))) {
        Expr::UnOp { op: UnOp::Not, val, .. } => {
            assert!(matches!(*val, Expr::BinOp { op: BinOp::Eq, .. }));
        }
        other => panic!("expected Not, got {:?}", other),
    }
    match rewrite(bin(BinOp::FloorDiv, lit(7), lit(2))) {
        Expr::UnOp { op: UnOp::Floor, val, .. } => {
            assert!(matches!(*val, Expr::BinOp { op: BinOp::Div, .. }));
        }
        other => panic!("expected Floor, got {:?}", other),
    }
}

#[test]
fn desugared_comparisons_agree_on_samples() {
    for (a, b) in [(1i64, 2i64), (2, 1), (3, 3), (-5, 5)] {
        assert_eq!(a <= b, !(b < a));
        assert_eq!(a >= b, !(b > a));
        assert_eq!(a != b, !(b == a));
    }
    // Floor-division against the desugared floor-of-division form.
    for (a, b) in [(7f64, 2f64), (-7f64, 2f64), (8f64, 4f64)] {
        assert_eq!((a / b).floor(), (a / b).floor());
        assert_eq!((7f64 / 2f64).floor(), 3f64);
    }
}

fn struct_scope() -> (Vec<Var>, Vec<List>, Vec<blockgen::ast::Enum>, Vec<Struct>) {
    let vars = vec![
        Var { name: "p".to_string(), span: sp(), type_: Type::Struct("S".to_string()) },
        Var { name: "q".to_string(), span: sp(), type_: Type::Struct("S".to_string()) },
        Var { name: "n".to_string(), span: sp(), type_: Type::Int },
    ];
    let structs = vec![Struct {
        name: "S".to_string(),
        span: sp(),
        fields: vec![
            Field { name: "x".to_string(), span: sp() },
            Field { name: "y".to_string(), span: sp() },
        ],
    }];
    (vars, Vec::new(), Vec::new(), structs)
}

#[test]
fn struct_copy_expands_field_by_field() {
    let (vars, lists, enums, structs) = struct_scope();
    let s = empty_scopes(&vars, &lists, &enums, &structs);
    let mut body = vec![Stmt::SetVar {
        name: Name::Plain { name: "p".to_string(), span: sp() },
        value: Expr::Name { name: "q".to_string(), span: sp() },
        type_: Type::Untyped,
        is_local: false,
        span: sp(),
    }];
    let pargs: Vec<Arg> = Vec::new();
    let mut used: Vec<bool> = Vec::new();
    let mut refs = References::new();
    visit_stmts(&mut body, &s, &pargs, &mut used, &mut refs);
    assert_eq!(body.len(), 2);
    let expect = ["x", "y"];
    for (i, st) in body.iter().enumerate() {
        match st {
            Stmt::SetField { variable, field, value, .. } => {
                assert_eq!(variable, "p");
                assert_eq!(field, expect[i]);
                match value {
                    Expr::Accessor { symbol_name, property_name, .. } => {
                        assert_eq!(symbol_name, "q");
                        assert_eq!(property_name, expect[i]);
                    }
                    other => panic!("expected field read, got {:?}", other),
                }
            }
            other => panic!("expected SetField, got {:?}", other),
        }
    }
}

#[test]
fn struct_scalar_source_broadcasts_value() {
    let (vars, lists, enums, structs) = struct_scope();
    let s = empty_scopes(&vars, &lists, &enums, &structs);
    let mut body = vec![Stmt::SetVar {
        name: Name::Plain { name: "p".to_string(), span: sp() },
        value: Expr::Int(7),
        type_: Type::Untyped,
        is_local: false,
        span: sp(),
    }];
    let pargs: Vec<Arg> = Vec::new();
    let mut used: Vec<bool> = Vec::new();
    let mut refs = References::new();
    visit_stmts(&mut body, &s, &pargs, &mut used, &mut refs);
    assert_eq!(body.len(), 2);
    for st in &body {
        match st {
            Stmt::SetField { variable, value, .. } => {
                assert_eq!(variable, "p");
                assert!(matches!(value, Expr::Int(7)));
            }
            other => panic!("expected SetField, got {:?}", other),
        }
    }
}

#[test]
fn references_recorded_by_kind() {
    let (vars, lists, enums, structs) = struct_scope();
    let s = empty_scopes(&vars, &lists, &enums, &structs);
    let pargs: Vec<Arg> = Vec::new();
    let mut used: Vec<bool> = Vec::new();
    let mut refs = References::new();
    // A name that resolves to a variable is a variable reference; one
    // that does not is a list reference.
    let _ = visit_expr(
        &Expr::Name { name: "n".to_string(), span: sp() },
        &s,
        &pargs,
        &mut used,
        &mut refs,
    );
    let _ = visit_expr(
        &Expr::Name { name: "items".to_string(), span: sp() },
        &s,
        &pargs,
        &mut used,
        &mut refs,
    );
    assert_eq!(refs.vars, vec!["n".to_string()]);
    assert_eq!(refs.lists, vec!["items".to_string()]);

    let mut body = vec![
        Stmt::ListAdd { name: "xs".to_string(), span: sp(), value: Expr::Int(1) },
        Stmt::ProcCall { name: "go".to_string(), span: sp(), args: Vec::new() },
        Stmt::Block {
            block: blockgen::ast::Block::Broadcast,
            span: sp(),
            args: vec![Expr::Str("ping".to_string())],
        },
    ];
    visit_stmts(&mut body, &s, &pargs, &mut used, &mut refs);
    assert!(refs.lists.contains(&"xs".to_string()));
    assert_eq!(refs.procs, vec!["go".to_string()]);
    assert_eq!(refs.messages, vec!["ping".to_string()]);
}

#[test]
fn used_args_marked_on_first_matching_argument() {
    let vars: Vec<Var> = Vec::new();
    let lists: Vec<List> = Vec::new();
    let enums: Vec<blockgen::ast::Enum> = Vec::new();
    let structs: Vec<Struct> = Vec::new();
    let s = empty_scopes(&vars, &lists, &enums, &structs);
    let pargs = vec![
        Arg { name: "a".to_string(), span: sp() },
        Arg { name: "b".to_string(), span: sp() },
    ];
    let mut used = vec![false, false];
    let mut refs = References::new();
    let _ = visit_expr(
        &Expr::Arg { name: Name::Plain { name: "b".to_string(), span: sp() }, span: sp() },
        &s,
        &pargs,
        &mut used,
        &mut refs,
    );
    assert_eq!(used, vec![false, true]);
}
