use blockgen::ast::{Arg, BinOp, Expr, List, Menu, Name, Proc, References, Repr, Span, UnOp, Var};
use blockgen::emit::{Ctx, EmitErrorKind, InputArg, Node, Sb3};
use blockgen::qualify::qualify_struct_var_name;
use blockgen::scope;
use blockgen::ast::{Project, Sprite, Stmt, Type};

fn sp() -> Span {
    Span { start: 0, end: 0 }
}

fn empty_ctx<'a>(vars: &'a Vec<Var>, lists: &'a Vec<List>) -> Ctx<'a> {
    Ctx { proc: None, vars, lists, global: None }
}

/// Checks the whole-graph invariant: unique ids, and every node
/// reference resolving to exactly one node that declares the referrer
/// as parent.
fn check_graph(nodes: &[Node]) {
    for (i, a) in nodes.iter().enumerate() {
        for b in nodes.iter().skip(i + 1) {
            assert_ne!(a.id, b.id, "two nodes share id {}", a.id);
        }
    }
    for n in nodes {
        for inp in &n.inputs {
            if let InputArg::NodeRef { id } = &inp.arg {
                let targets: Vec<&Node> = nodes.iter().filter(|m| m.id == *id).collect();
                assert_eq!(targets.len(), 1, "input {} of node {} dangles", inp.name, n.id);
                assert_eq!(targets[0].parent, Some(n.id));
            }
        }
    }
}

#[test]
fn qualified_name_joins_with_dot() {
    let q = qualify_struct_var_name(&"x".to_string(), &"p".to_string());
    assert_eq!(q, "p.x");
}

#[test]
fn unrecognized_argument_reports_once_and_continues() {
    let vars: Vec<Var> = Vec::new();
    let lists: Vec<List> = Vec::new();
    let ctx = empty_ctx(&vars, &lists);
    let mut sb = Sb3::new();
    let root = sb.new_id();
    let e = Expr::Arg { name: Name::Plain { name: "ghostly".to_string(), span: sp() }, span: sp() };
    let r = sb.expr(&ctx, &e, root, 0);
    assert!(r.is_ok());
    assert_eq!(sb.diagnostics.len(), 1);
    assert_eq!(sb.nodes.len(), 1);
    assert_eq!(sb.nodes[0].opcode, "argument_reporter_string_number");
    check_graph(&sb.nodes);
}

#[test]
fn recognized_argument_emits_qualified_value() {
    let vars: Vec<Var> = Vec::new();
    let lists: Vec<List> = Vec::new();
    let proc = Proc {
        name: "go".to_string(),
        span: sp(),
        args: vec![Arg { name: "pt".to_string(), span: sp() }],
        used_args: vec![false],
        locals: Vec::new(),
        body: Vec::new(),
        references: References::new(),
    };
    let ctx = Ctx { proc: Some(&proc), vars: &vars, lists: &lists, global: None };
    let mut sb = Sb3::new();
    let root = sb.new_id();
    let e = Expr::Arg {
        name: Name::Dotted {
            base: "pt".to_string(),
            base_span: sp(),
            field: "x".to_string(),
            field_span: sp(),
        },
        span: sp(),
    };
    let r = sb.expr(&ctx, &e, root, 0);
    assert!(r.is_ok());
    assert!(sb.diagnostics.is_empty());
    assert_eq!(sb.nodes[0].fields[0].value, "pt.x");
}

#[test]
fn list_index_emits_item_of_list_node() {
    let vars: Vec<Var> = Vec::new();
    let lists = vec![List { name: "xs".to_string(), span: sp() }];
    let ctx = empty_ctx(&vars, &lists);
    let mut sb = Sb3::new();
    let root = sb.new_id();
    let e = Expr::BinOp {
        op: BinOp::Of,
        span: sp(),
        lhs: Box::new(Expr::Name { name: "xs".to_string(), span: sp() }),
        rhs: Box::new(Expr::Int(3)),
    };
    let r = sb.expr(&ctx, &e, root, 0);
    assert!(r.is_ok());
    assert_eq!(sb.nodes.len(), 1);
    let n = &sb.nodes[0];
    assert_eq!(n.opcode, "data_itemoflist");
    assert_eq!(n.inputs.len(), 1);
    assert_eq!(n.inputs[0].name, "INDEX");
    assert!(matches!(n.inputs[0].arg, InputArg::LitInt { v: 3 }));
    assert_eq!(n.fields.len(), 1);
    assert_eq!(n.fields[0].name, "LIST");
    assert_eq!(n.fields[0].value, "xs");
    assert!(n.fields[0].is_ref);
    check_graph(&sb.nodes);
}

#[test]
fn of_on_non_list_uses_generic_operator() {
    let vars: Vec<Var> = Vec::new();
    let lists: Vec<List> = Vec::new();
    let ctx = empty_ctx(&vars, &lists);
    let mut sb = Sb3::new();
    let root = sb.new_id();
    let e = Expr::BinOp {
        op: BinOp::Of,
        span: sp(),
        lhs: Box::new(Expr::Name { name: "s".to_string(), span: sp() }),
        rhs: Box::new(Expr::Int(1)),
    };
    let r = sb.expr(&ctx, &e, root, 0);
    assert!(r.is_ok());
    assert_eq!(sb.nodes[0].opcode, "operator_letter_of");
    assert_eq!(sb.nodes[0].inputs.len(), 2);
    check_graph(&sb.nodes);
}

#[test]
fn nested_operators_link_parent_before_children() {
    let vars: Vec<Var> = Vec::new();
    let lists: Vec<List> = Vec::new();
    let ctx = empty_ctx(&vars, &lists);
    let mut sb = Sb3::new();
    let root = sb.new_id();
    // not(x < (y * 2)) with unresolved names x and y
    let e = Expr::UnOp {
        op: UnOp::Not,
        span: sp(),
        val: Box::new(Expr::BinOp {
            op: BinOp::Lt,
            span: sp(),
            lhs: Box::new(Expr::Name { name: "x".to_string(), span: sp() }),
            rhs: Box::new(Expr::BinOp {
                op: BinOp::Mul,
                span: sp(),
                lhs: Box::new(Expr::Name { name: "y".to_string(), span: sp() }),
                rhs: Box::new(Expr::Int(2)),
            }),
        }),
    };
    let r = sb.expr(&ctx, &e, root, 0);
    assert!(r.is_ok());
    check_graph(&sb.nodes);
    // Parent appears before its children in emission order.
    for (i, n) in sb.nodes.iter().enumerate() {
        for inp in &n.inputs {
            if let InputArg::NodeRef { id } = &inp.arg {
                let j = sb.nodes.iter().position(|m| m.id == *id).unwrap();
                assert!(j > i, "child emitted before its parent closed");
            }
        }
    }
    // Every id is consumed from one monotonic counter.
    assert!(sb.nodes.iter().all(|n| n.id < sb.next_id));
}

#[test]
fn repr_arity_mismatch_is_fatal() {
    let vars: Vec<Var> = Vec::new();
    let lists: Vec<List> = Vec::new();
    let ctx = empty_ctx(&vars, &lists);
    let mut sb = Sb3::new();
    let root = sb.new_id();
    let r = Repr { opcode: "looks_say".to_string(), arg_names: vec!["MESSAGE".to_string()], menu: None };
    let e = Expr::Repr { repr: r, span: sp(), args: Vec::new() };
    let res = sb.expr(&ctx, &e, root, 0);
    match res {
        Err(err) => assert!(matches!(err.kind, EmitErrorKind::ArityMismatch)),
        Ok(_) => panic!("arity mismatch must abort the run"),
    }
}

#[test]
fn repr_menu_string_literal_becomes_selector_subnode() {
    let vars: Vec<Var> = Vec::new();
    let lists: Vec<List> = Vec::new();
    let ctx = empty_ctx(&vars, &lists);
    let mut sb = Sb3::new();
    let root = sb.new_id();
    let r = Repr {
        opcode: "sound_play".to_string(),
        arg_names: vec!["SOUND_MENU".to_string()],
        menu: Some(Menu {
            input: "SOUND_MENU".to_string(),
            opcode: "sound_sounds_menu".to_string(),
            field: "SOUND_MENU".to_string(),
        }),
    };
    let e = Expr::Repr { repr: r, span: sp(), args: vec![Expr::Str("pop".to_string())] };
    let res = sb.expr(&ctx, &e, root, 0);
    assert!(res.is_ok());
    assert_eq!(sb.nodes.len(), 2);
    assert_eq!(sb.nodes[0].opcode, "sound_play");
    assert_eq!(sb.nodes[1].opcode, "sound_sounds_menu");
    assert_eq!(sb.nodes[1].parent, Some(sb.nodes[0].id));
    assert_eq!(sb.nodes[1].fields[0].value, "pop");
    check_graph(&sb.nodes);
}

#[test]
fn repr_menu_expression_is_fatal() {
    let vars: Vec<Var> = Vec::new();
    let lists: Vec<List> = Vec::new();
    let ctx = empty_ctx(&vars, &lists);
    let mut sb = Sb3::new();
    let root = sb.new_id();
    let r = Repr {
        opcode: "sound_play".to_string(),
        arg_names: vec!["SOUND_MENU".to_string()],
        menu: Some(Menu {
            input: "SOUND_MENU".to_string(),
            opcode: "sound_sounds_menu".to_string(),
            field: "SOUND_MENU".to_string(),
        }),
    };
    let e = Expr::Repr {
        repr: r,
        span: sp(),
        args: vec![Expr::Name { name: "pick".to_string(), span: sp() }],
    };
    let res = sb.expr(&ctx, &e, root, 0);
    match res {
        Err(err) => assert!(matches!(err.kind, EmitErrorKind::UnsupportedMenuExpr)),
        Ok(_) => panic!("a non-literal menu slot must abort the run"),
    }
}

#[test]
fn scope_pass_registers_first_seen_variables() {
    let body = vec![
        Stmt::SetVar {
            name: Name::Plain { name: "score".to_string(), span: Span { start: 1, end: 2 } },
            value: Expr::Int(0),
            type_: Type::Int,
            is_local: false,
            span: sp(),
        },
        Stmt::SetVar {
            name: Name::Plain { name: "score".to_string(), span: Span { start: 9, end: 10 } },
            value: Expr::Int(1),
            type_: Type::Int,
            is_local: false,
            span: sp(),
        },
        Stmt::SetVar {
            name: Name::Plain { name: "tmp".to_string(), span: sp() },
            value: Expr::Int(0),
            type_: Type::Int,
            is_local: true,
            span: sp(),
        },
    ];
    let proc = Proc {
        name: "go".to_string(),
        span: sp(),
        args: Vec::new(),
        used_args: Vec::new(),
        locals: Vec::new(),
        body,
        references: References::new(),
    };
    let sprite = Sprite {
        name: "cat".to_string(),
        vars: Vec::new(),
        lists: Vec::new(),
        enums: Vec::new(),
        structs: Vec::new(),
        procs: vec![proc],
        events: Vec::new(),
        on_messages: Vec::new(),
    };
    let mut project = Project {
        stage: Sprite {
            name: "stage".to_string(),
            vars: Vec::new(),
            lists: Vec::new(),
            enums: Vec::new(),
            structs: Vec::new(),
            procs: Vec::new(),
            events: Vec::new(),
            on_messages: Vec::new(),
        },
        sprites: vec![sprite],
    };
    scope::visit_project(&mut project);
    let s = &project.sprites[0];
    assert_eq!(s.vars.len(), 1);
    assert_eq!(s.vars[0].name, "score");
    // First registration keeps its span.
    assert_eq!(s.vars[0].span, Span { start: 1, end: 2 });
    assert_eq!(s.procs[0].locals.len(), 1);
    assert_eq!(s.procs[0].locals[0].name, "tmp");
}
