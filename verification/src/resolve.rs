//! The resolution and desugar pass: rewrites every expression into
//! canonical form (constant folding, double-negation elimination,
//! comparison and floor-division desugaring), expands struct-typed
//! assignments into per-field assignments, and records every name a
//! body references, classified by kind.

use vstd::prelude::*;
use crate::ast::{
    clone_expr, contains_enum, contains_list, contains_name, contains_pair, find_struct, find_var,
    has_enum, has_list, insert_name, insert_pair, lemma_view_exprs, lemma_view_stmts, lookup_struct,
    lookup_var, lists_view, enums_view, procs_view, structs_view, vars_view, EventV, OnMessageV,
    ProcV, view_exprs, view_stmts, Arg, BinOp, Block,
    Enum, EnumV, Expr, ExprV, List, ListV, NameV, References, ReferencesV, Span, Stmt, StmtV,
    Struct, StructV, UnOp, Var, VarV,
};
use crate::numeric::{add_bits, f64_add, f64_mul, f64_of_i64, f64_sub, i64_to_bits, mul_bits,
    neg_bits, sub_bits, F64_SIGN_BIT};

verus! {

broadcast use
    vstd::std_specs::vec::axiom_vec_index_decreases,
    vstd::std_specs::vec::axiom_vec_decreases_to_view,
    vstd::seq::axiom_seq_index_decreases;

/// The scope a body is resolved against (view): the owning sprite's
/// tables, and the stage's tables when the body is not the stage's own.
#[verifier::ext_equal]
pub struct ScopeV {
    pub vars: Seq<VarV>,
    pub lists: Seq<ListV>,
    pub enums: Seq<EnumV>,
    pub structs: Seq<StructV>,
    pub global_vars: Seq<VarV>,
    pub global_lists: Seq<ListV>,
    pub has_global: bool,
}

/// Sprite-scope lookup with global fallback: the sprite table first,
/// then, when present, the stage table.
pub open spec fn sc_var(s: ScopeV, name: Seq<char>) -> Option<VarV> {
    match lookup_var(s.vars, name) {
        Some(v) => Some(v),
        None => if s.has_global {
            lookup_var(s.global_vars, name)
        } else {
            None
        },
    }
}

/// Whether the name is a declared list, at sprite or global scope.
pub open spec fn sc_is_list(s: ScopeV, name: Seq<char>) -> bool {
    has_list(s.lists, name) || (s.has_global && has_list(s.global_lists, name))
}

/// Whether the name is a declared enum of the sprite.
pub open spec fn sc_is_enum(s: ScopeV, name: Seq<char>) -> bool {
    has_enum(s.enums, name)
}

/// The sprite's struct declaration of this name, if any.
pub open spec fn sc_struct(s: ScopeV, name: Seq<char>) -> Option<StructV> {
    lookup_struct(s.structs, name)
}

/// The scope a body is resolved against: borrowed sprite tables plus
/// the optional stage tables.
pub struct Scopes<'a> {
    pub vars: &'a Vec<Var>,
    pub lists: &'a Vec<List>,
    pub enums: &'a Vec<Enum>,
    pub structs: &'a Vec<Struct>,
    pub global: Option<(&'a Vec<Var>, &'a Vec<List>)>,
}

impl<'a> Scopes<'a> {
    pub open spec fn sv(&self) -> ScopeV {
        ScopeV {
            vars: vars_view(self.vars@),
            lists: lists_view(self.lists@),
            enums: enums_view(self.enums@),
            structs: structs_view(self.structs@),
            global_vars: match self.global {
                Some(g) => vars_view(g.0@),
                None => Seq::<VarV>::empty(),
            },
            global_lists: match self.global {
                Some(g) => lists_view(g.1@),
                None => Seq::<ListV>::empty(),
            },
            has_global: self.global is Some,
        }
    }

    /// Resolves a name to a variable, sprite scope first, then global.
    pub fn lookup_variable(&self, name: &String) -> (r: Option<&Var>)
        ensures
            match r {
                Some(v) => sc_var(self.sv(), name@) == Some(v@),
                None => sc_var(self.sv(), name@) is None,
            },
    {
        let local = find_var(self.vars, name);
        match local {
            Some(v) => Some(v),
            None => match self.global {
                Some((gv, _)) => find_var(gv, name),
                None => None,
            },
        }
    }

    /// Whether the name is a declared list, at sprite or global scope.
    pub fn is_list(&self, name: &String) -> (r: bool)
        ensures
            r == sc_is_list(self.sv(), name@),
    {
        if contains_list(self.lists, name) {
            true
        } else {
            match self.global {
                Some((_, gl)) => contains_list(gl, name),
                None => false,
            }
        }
    }

    /// Whether the name is a declared enum of the sprite.
    pub fn is_enum(&self, name: &String) -> (r: bool)
        ensures
            r == sc_is_enum(self.sv(), name@),
    {
        contains_enum(self.enums, name)
    }

    /// The sprite's struct declaration of this name, if any.
    pub fn get_struct(&self, name: &String) -> (r: Option<&Struct>)
        ensures
            match r {
                Some(st) => sc_struct(self.sv(), name@) == Some(st@),
                None => sc_struct(self.sv(), name@) is None,
            },
    {
        find_struct(self.structs, name)
    }
}

/// The mutable state a resolution walk threads: the reference record
/// and the enclosing procedure's used-argument table (empty outside a
/// procedure).
#[verifier::ext_equal]
pub struct RState {
    pub refs: ReferencesV,
    pub used: Seq<bool>,
}

/// The index of the first declared argument with this name, or -1.
pub open spec fn arg_index(args: Seq<(Seq<char>, Span)>, name: Seq<char>) -> int
    decreases args,
{
    if args.len() == 0 {
        -1
    } else if args[0].0 == name {
        0
    } else {
        let r = arg_index(args.drop_first(), name);
        if r < 0 {
            -1
        } else {
            r + 1
        }
    }
}

/// Marking an argument as read: the first declared argument of this
/// name, if any, has its used flag set.
pub open spec fn mark_used(args: Seq<(Seq<char>, Span)>, used: Seq<bool>, name: Seq<char>) -> Seq<
    bool,
> {
    let i = arg_index(args, name);
    if 0 <= i < used.len() {
        used.update(i, true)
    } else {
        used
    }
}

/// `arg_index` finds exactly the first match.
pub proof fn lemma_arg_index_first(args: Seq<(Seq<char>, Span)>, name: Seq<char>, k: int)
    requires
        0 <= k < args.len(),
        args[k].0 == name,
        forall|j: int| 0 <= j < k ==> (#[trigger] args[j]).0 != name,
    ensures
        arg_index(args, name) == k,
    decreases args,
{
    if k == 0 {
    } else {
        assert(args[0].0 != name);
        assert(args.drop_first()[k - 1] == args[k]);
        assert forall|j: int| 0 <= j < k - 1 implies (#[trigger] args.drop_first()[j]).0
            != name by {
            assert(args.drop_first()[j] == args[j + 1]);
        }
        lemma_arg_index_first(args.drop_first(), name, k - 1);
    }
}

/// When no argument has the name, `arg_index` reports none.
pub proof fn lemma_arg_index_none(args: Seq<(Seq<char>, Span)>, name: Seq<char>)
    requires
        forall|j: int| 0 <= j < args.len() ==> (#[trigger] args[j]).0 != name,
    ensures
        arg_index(args, name) == -1,
    decreases args,
{
    if args.len() > 0 {
        assert forall|j: int| 0 <= j < args.len() - 1 implies (#[trigger] args.drop_first()[j]).0
            != name by {
            assert(args.drop_first()[j] == args[j + 1]);
        }
        lemma_arg_index_none(args.drop_first(), name);
    }
}

/// The declared argument names of a procedure, with their spans.
pub open spec fn args_names(pargs: Seq<Arg>) -> Seq<(Seq<char>, Span)> {
    pargs.map_values(|a: Arg| (a.name@, a.span))
}

/// Exact integer arithmetic of a fold, over unbounded integers.
pub open spec fn int_op(op: BinOp, a: int, b: int) -> int {
    match op {
        BinOp::Add => a + b,
        BinOp::Sub => a - b,
        _ => a * b,
    }
}

/// Binary64 arithmetic of a fold, on bit patterns.
pub open spec fn f64_op(op: BinOp, a: u64, b: u64) -> u64 {
    match op {
        BinOp::Add => f64_add(a, b),
        BinOp::Sub => f64_sub(a, b),
        _ => f64_mul(a, b),
    }
}

/// Constant folding of `Add`/`Sub`/`Mul` over two literals: two
/// integer literals fold to the exact integer result when it is
/// representable; a float operand promotes the other operand and the
/// fold is the binary64 operation; anything else does not fold.
pub open spec fn fold_arith(op: BinOp, span: Span, l: ExprV, r: ExprV) -> Option<ExprV> {
    match (l, r) {
        (ExprV::Int(a), ExprV::Int(b)) => {
            let v = int_op(op, a as int, b as int);
            if i64::MIN <= v <= i64::MAX {
                Some(ExprV::Int(v as i64))
            } else {
                None
            }
        },
        (ExprV::Int(a), ExprV::Float(b)) => Some(ExprV::Float(f64_op(op, f64_of_i64(a), b))),
        (ExprV::Float(a), ExprV::Int(b)) => Some(ExprV::Float(f64_op(op, a, f64_of_i64(b)))),
        (ExprV::Float(a), ExprV::Float(b)) => Some(ExprV::Float(f64_op(op, a, b))),
        _ => None,
    }
}

/// Rewriting of a unary operation whose operand is already rewritten:
/// minus folds into literals, cancels `0 - x`, and otherwise becomes
/// the canonical `0 - x` form; double `not` cancels to the inner
/// operand exactly.
pub open spec fn rw_unop(op: UnOp, span: Span, v: ExprV) -> ExprV {
    match op {
        UnOp::Minus => match v {
            ExprV::Int(x) => if x != i64::MIN {
                ExprV::Int((-(x as int)) as i64)
            } else {
                ExprV::BinOp {
                    op: BinOp::Sub,
                    span: span,
                    lhs: Box::new(ExprV::Int(0)),
                    rhs: Box::new(v),
                }
            },
            ExprV::Float(b) => ExprV::Float(b ^ F64_SIGN_BIT),
            ExprV::BinOp { op: iop, span: ispan, lhs, rhs } => {
                if iop == BinOp::Sub && *lhs == ExprV::Int(0) {
                    *rhs
                } else {
                    ExprV::BinOp {
                        op: BinOp::Sub,
                        span: span,
                        lhs: Box::new(ExprV::Int(0)),
                        rhs: Box::new(ExprV::BinOp { op: iop, span: ispan, lhs: lhs, rhs: rhs }),
                    }
                }
            },
            _ => ExprV::BinOp {
                op: BinOp::Sub,
                span: span,
                lhs: Box::new(ExprV::Int(0)),
                rhs: Box::new(v),
            },
        },
        UnOp::Not => match v {
            ExprV::UnOp { op: iop, span: ispan, val } => {
                if iop == UnOp::Not {
                    *val
                } else {
                    ExprV::UnOp {
                        op: UnOp::Not,
                        span: span,
                        val: Box::new(ExprV::UnOp { op: iop, span: ispan, val: val }),
                    }
                }
            },
            _ => ExprV::UnOp { op: UnOp::Not, span: span, val: Box::new(v) },
        },
        UnOp::Floor => ExprV::UnOp { op: UnOp::Floor, span: span, val: Box::new(v) },
    }
}

/// Rewriting of a binary operation whose operands are already
/// rewritten: `Add`/`Sub`/`Mul` fold over literals; `a <= b` becomes
/// `not(b < a)`; `a >= b` becomes `not(b > a)`; `a != b` becomes
/// `not(a == b)`; floor-division becomes `floor(a / b)`.
pub open spec fn rw_binop(op: BinOp, span: Span, l: ExprV, r: ExprV) -> ExprV {
    match op {
        BinOp::Add | BinOp::Sub | BinOp::Mul => match fold_arith(op, span, l, r) {
            Some(f) => f,
            None => ExprV::BinOp { op: op, span: span, lhs: Box::new(l), rhs: Box::new(r) },
        },
        BinOp::Le => ExprV::UnOp {
            op: UnOp::Not,
            span: span,
            val: Box::new(
                ExprV::BinOp { op: BinOp::Lt, span: span, lhs: Box::new(r), rhs: Box::new(l) },
            ),
        },
        BinOp::Ge => ExprV::UnOp {
            op: UnOp::Not,
            span: span,
            val: Box::new(
                ExprV::BinOp { op: BinOp::Gt, span: span, lhs: Box::new(r), rhs: Box::new(l) },
            ),
        },
        BinOp::Ne => ExprV::UnOp {
            op: UnOp::Not,
            span: span,
            val: Box::new(
                ExprV::BinOp { op: BinOp::Eq, span: span, lhs: Box::new(l), rhs: Box::new(r) },
            ),
        },
        BinOp::FloorDiv => ExprV::UnOp {
            op: UnOp::Floor,
            span: span,
            val: Box::new(
                ExprV::BinOp { op: BinOp::Div, span: span, lhs: Box::new(l), rhs: Box::new(r) },
            ),
        },
        _ => ExprV::BinOp { op: op, span: span, lhs: Box::new(l), rhs: Box::new(r) },
    }
}

/// The references one expression head contributes, after its operands
/// were rewritten.
pub open spec fn head_refs(e: ExprV, s: ScopeV, l: ExprV, refs: ReferencesV) -> ReferencesV {
    match e {
        ExprV::Accessor { symbol_name, property_name, .. } => {
            if sc_is_enum(s, symbol_name) {
                ReferencesV {
                    enum_variants: refs.enum_variants.insert((symbol_name, property_name)),
                    ..refs
                }
            } else if sc_struct(s, symbol_name) is Some {
                ReferencesV {
                    struct_fields: refs.struct_fields.insert((symbol_name, property_name)),
                    ..refs
                }
            } else {
                refs
            }
        },
        ExprV::Name { name, .. } => if sc_var(s, name) is Some {
            ReferencesV { vars: refs.vars.insert(name), ..refs }
        } else {
            ReferencesV { lists: refs.lists.insert(name), ..refs }
        },
        ExprV::BinOp { op, .. } => {
            if op == BinOp::Of {
                match l {
                    ExprV::Name { name, .. } => if sc_is_list(s, name) {
                        ReferencesV { lists: refs.lists.insert(name), ..refs }
                    } else {
                        refs
                    },
                    _ => refs,
                }
            } else {
                refs
            }
        },
        _ => refs,
    }
}

/// The full rewrite of one expression: operands first (left to right),
/// then the head is folded or desugared, while references and
/// used-argument marks accumulate in the state.
pub open spec fn rw_expr(e: ExprV, s: ScopeV, pargs: Seq<(Seq<char>, Span)>, st: RState) -> (
    ExprV,
    RState,
)
    decreases e, 1int,
{
    match e {
        ExprV::Int(_) => (e, st),
        ExprV::Float(_) => (e, st),
        ExprV::Str(_) => (e, st),
        ExprV::Accessor { .. } => (
            e,
            RState { refs: head_refs(e, s, e, st.refs), ..st },
        ),
        ExprV::Name { .. } => (e, RState { refs: head_refs(e, s, e, st.refs), ..st }),
        ExprV::Arg { name, .. } => (
            e,
            RState { used: mark_used(pargs, st.used, name.basename()), ..st },
        ),
        ExprV::Repr { repr, span, args } => {
            let p = rw_exprs(args, s, pargs, st);
            (ExprV::Repr { repr: repr, span: span, args: p.0 }, p.1)
        },
        ExprV::UnOp { op, span, val } => {
            let p = rw_expr(*val, s, pargs, st);
            (rw_unop(op, span, p.0), p.1)
        },
        ExprV::BinOp { op, span, lhs, rhs } => {
            let pl = rw_expr(*lhs, s, pargs, st);
            let pr = rw_expr(*rhs, s, pargs, pl.1);
            if op == BinOp::Of {
                (
                    ExprV::BinOp { op: op, span: span, lhs: Box::new(pl.0), rhs: Box::new(pr.0) },
                    RState { refs: head_refs(e, s, pl.0, pr.1.refs), ..pr.1 },
                )
            } else {
                (rw_binop(op, span, pl.0, pr.0), pr.1)
            }
        },
    }
}

/// `rw_expr`, folded left to right over an argument list.
pub open spec fn rw_exprs(es: Seq<ExprV>, s: ScopeV, pargs: Seq<(Seq<char>, Span)>, st: RState) -> (
    Seq<ExprV>,
    RState,
)
    decreases es, 0int,
{
    if es.len() == 0 {
        (Seq::<ExprV>::empty(), st)
    } else {
        let p = rw_expr(es[0], s, pargs, st);
        let rest = rw_exprs(es.drop_first(), s, pargs, p.1);
        (seq![p.0] + rest.0, rest.1)
    }
}

/// Marks the first declared argument of this name, if any, as read.
fn mark_used_exec(pargs: &Vec<Arg>, used: &mut Vec<bool>, name: &String)
    ensures
        final(used)@ == mark_used(args_names(pargs@), old(used)@, name@),
{
    let ghost av = args_names(pargs@);
    let mut k: usize = 0;
    while k < pargs.len()
        invariant
            k <= pargs.len(),
            used@ == old(used)@,
            av == args_names(pargs@),
            forall|j: int| 0 <= j < k ==> (#[trigger] av[j]).0 != name@,
        decreases pargs.len() - k,
    {
        if pargs[k].name == *name {
            proof {
                assert(av[k as int] == (pargs@[k as int].name@, pargs@[k as int].span));
                lemma_arg_index_first(av, name@, k as int);
            }
            if k < used.len() {
                used.set(k, true);
            }
            return ;
        }
        proof {
            assert(av[k as int] == (pargs@[k as int].name@, pargs@[k as int].span));
        }
        k += 1;
    }
    proof {
        lemma_arg_index_none(av, name@);
    }
}

/// Rewrites one expression bottom-up and records what it references;
/// the result is the canonical form and the state advances exactly as
/// the rewrite specification says.
#[verifier::loop_isolation(false)]
pub fn visit_expr(
    e: &Expr,
    s: &Scopes,
    pargs: &Vec<Arg>,
    used: &mut Vec<bool>,
    refs: &mut References,
) -> (r: Expr)
    ensures
        ({
            let post = rw_expr(
                e@,
                s.sv(),
                args_names(pargs@),
                RState { refs: old(refs)@, used: old(used)@ },
            );
            r@ == post.0 && RState { refs: final(refs)@, used: final(used)@ } == post.1
        }),
    decreases e,
{
    let ghost pre = RState { refs: old(refs)@, used: old(used)@ };
    match e {
        Expr::Int(v) => Expr::Int(*v),
        Expr::Float(b) => Expr::Float(*b),
        Expr::Str(t) => Expr::Str(t.clone()),
        Expr::Name { name, span } => {
            let known = s.lookup_variable(name);
            if known.is_some() {
                insert_name(&mut refs.vars, name);
            } else {
                insert_name(&mut refs.lists, name);
            }
            proof {
                assert(RState { refs: refs@, used: used@ } =~= rw_expr(
                    e@,
                    s.sv(),
                    args_names(pargs@),
                    pre,
                ).1);
            }
            Expr::Name { name: name.clone(), span: *span }
        },
        Expr::Arg { name, span } => {
            mark_used_exec(pargs, used, name.basename());
            proof {
                assert(RState { refs: refs@, used: used@ } =~= rw_expr(
                    e@,
                    s.sv(),
                    args_names(pargs@),
                    pre,
                ).1);
            }
            Expr::Arg { name: name.clone(), span: *span }
        },
        Expr::Accessor { symbol_name, symbol_span, property_name, property_span } => {
            if s.is_enum(symbol_name) {
                insert_pair(&mut refs.enum_variants, symbol_name, property_name);
            } else {
                let st_found = s.get_struct(symbol_name);
                if st_found.is_some() {
                    insert_pair(&mut refs.struct_fields, symbol_name, property_name);
                }
            }
            proof {
                assert(RState { refs: refs@, used: used@ } =~= rw_expr(
                    e@,
                    s.sv(),
                    args_names(pargs@),
                    pre,
                ).1);
            }
            Expr::Accessor {
                symbol_name: symbol_name.clone(),
                symbol_span: *symbol_span,
                property_name: property_name.clone(),
                property_span: *property_span,
            }
        },
        Expr::Repr { repr, span, args } => {
            let ghost av = view_exprs(args@);
            let ghost target = rw_exprs(av, s.sv(), args_names(pargs@), pre);
            proof {
                lemma_view_exprs(args@);
                assert(av.skip(0) =~= av);
            }
            let mut new_args: Vec<Expr> = Vec::new();
            let mut i: usize = 0;
            while i < args.len()
                invariant
                    i <= args.len(),
                    new_args@.len() == i,
                    target == rw_exprs(av, s.sv(), args_names(pargs@), pre),
                    target.0 =~= view_exprs(new_args@) + rw_exprs(
                        av.skip(i as int),
                        s.sv(),
                        args_names(pargs@),
                        RState { refs: refs@, used: used@ },
                    ).0,
                    target.1 == rw_exprs(
                        av.skip(i as int),
                        s.sv(),
                        args_names(pargs@),
                        RState { refs: refs@, used: used@ },
                    ).1,
                decreases args.len() - i,
            {
                proof {
                    assert(av.skip(i as int)[0] == av[i as int]);
                    assert(av[i as int] == args@[i as int]@);
                    assert(av.skip(i as int).drop_first() =~= av.skip(i as int + 1));
                }
                let na = visit_expr(&args[i], s, pargs, used, refs);
                proof {
                    assert(new_args@.push(na).drop_last() =~= new_args@);
                    assert(new_args@.push(na).last() == na);
                    assert(view_exprs(new_args@.push(na)) =~= view_exprs(new_args@).push(na@));
                }
                new_args.push(na);
                i += 1;
            }
            proof {
                assert(av.skip(args@.len() as int).len() == 0);
                assert(target.0 =~= view_exprs(new_args@));
            }
            let r = Expr::Repr { repr: repr.clone(), span: *span, args: new_args };
            proof {
                assert(r@ == rw_expr(e@, s.sv(), args_names(pargs@), pre).0);
            }
            r
        },
        Expr::UnOp { op, span, val } => {
            let nv = visit_expr(&**val, s, pargs, used, refs);
            rw_unop_exec(*op, *span, nv)
        },
        Expr::BinOp { op, span, lhs, rhs } => {
            let nl = visit_expr(&**lhs, s, pargs, used, refs);
            let nr = visit_expr(&**rhs, s, pargs, used, refs);
            if matches!(op, BinOp::Of) {
                let is_list_name = match &nl {
                    Expr::Name { name, .. } => s.is_list(name),
                    _ => false,
                };
                if is_list_name {
                    match &nl {
                        Expr::Name { name, .. } => {
                            insert_name(&mut refs.lists, name);
                        },
                        _ => {},
                    }
                }
                proof {
                    assert(RState { refs: refs@, used: used@ } =~= rw_expr(
                        e@,
                        s.sv(),
                        args_names(pargs@),
                        pre,
                    ).1);
                }
                Expr::BinOp { op: *op, span: *span, lhs: Box::new(nl), rhs: Box::new(nr) }
            } else {
                rw_binop_exec(*op, *span, nl, nr)
            }
        },
    }
}

/// Applies the unary rewrite to an already rewritten operand.
fn rw_unop_exec(op: UnOp, span: Span, v: Expr) -> (r: Expr)
    ensures
        r@ == rw_unop(op, span, v@),
{
    let ghost gv = v@;
    match op {
        UnOp::Minus => match v {
            Expr::Int(x) => {
                if x != i64::MIN {
                    let res = Expr::Int(-x);
                    proof {
                        assert(res@ =~= rw_unop(op, span, gv));
                    }
                    res
                } else {
                    let res = Expr::BinOp {
                        op: BinOp::Sub,
                        span: span,
                        lhs: Box::new(Expr::Int(0)),
                        rhs: Box::new(Expr::Int(x)),
                    };
                    proof {
                        assert((Expr::Int(0i64))@ == ExprV::Int(0i64));
                        assert((Expr::Int(x))@ == ExprV::Int(x));
                        assert(res@ =~= rw_unop(op, span, gv));
                    }
                    res
                }
            },
            Expr::Float(b) => {
                let res = Expr::Float(neg_bits(b));
                proof {
                    assert(res@ =~= rw_unop(op, span, gv));
                }
                res
            },
            Expr::BinOp { op: iop, span: ispan, lhs, rhs } => {
                let zero = lhs.is_zero();
                if matches!(iop, BinOp::Sub) && zero {
                    let res = *rhs;
                    proof {
                        assert(res@ =~= rw_unop(op, span, gv));
                    }
                    res
                } else {
                    let inner = Expr::BinOp { op: iop, span: ispan, lhs: lhs, rhs: rhs };
                    let ghost gi = inner@;
                    let res = Expr::BinOp {
                        op: BinOp::Sub,
                        span: span,
                        lhs: Box::new(Expr::Int(0)),
                        rhs: Box::new(inner),
                    };
                    proof {
                        assert((Expr::Int(0i64))@ == ExprV::Int(0i64));
                        assert(res@ =~= rw_unop(op, span, gv));
                    }
                    res
                }
            },
            other => {
                let ghost go = other@;
                let res = Expr::BinOp {
                    op: BinOp::Sub,
                    span: span,
                    lhs: Box::new(Expr::Int(0)),
                    rhs: Box::new(other),
                };
                proof {
                    assert((Expr::Int(0i64))@ == ExprV::Int(0i64));
                    assert(res@ =~= rw_unop(op, span, gv));
                }
                res
            },
        },
        UnOp::Not => match v {
            Expr::UnOp { op: iop, span: ispan, val } => {
                if matches!(iop, UnOp::Not) {
                    let res = *val;
                    proof {
                        assert(res@ =~= rw_unop(op, span, gv));
                    }
                    res
                } else {
                    let inner = Expr::UnOp { op: iop, span: ispan, val: val };
                    let ghost gi = inner@;
                    let res = Expr::UnOp { op: UnOp::Not, span: span, val: Box::new(inner) };
                    proof {
                        assert(res@ =~= rw_unop(op, span, gv));
                    }
                    res
                }
            },
            other => {
                let ghost go = other@;
                let res = Expr::UnOp { op: UnOp::Not, span: span, val: Box::new(other) };
                proof {
                    assert(res@ =~= rw_unop(op, span, gv));
                }
                res
            },
        },
        UnOp::Floor => {
            let res = Expr::UnOp { op: UnOp::Floor, span: span, val: Box::new(v) };
            proof {
                assert(res@ =~= rw_unop(op, span, gv));
            }
            res
        },
    }
}

/// Applies the binary rewrite (fold or desugar) to rewritten operands.
fn rw_binop_exec(op: BinOp, span: Span, l: Expr, r: Expr) -> (res: Expr)
    ensures
        res@ == rw_binop(op, span, l@, r@),
{
    let ghost gl = l@;
    let ghost gr = r@;
    match op {
        BinOp::Add | BinOp::Sub | BinOp::Mul => fold_arith_exec(op, span, l, r),
        BinOp::Le => {
            let inner = Expr::BinOp {
                op: BinOp::Lt,
                span: span,
                lhs: Box::new(r),
                rhs: Box::new(l),
            };
            let ghost gi = inner@;
            let res = Expr::UnOp { op: UnOp::Not, span: span, val: Box::new(inner) };
            proof {
                assert(res@ =~= rw_binop(op, span, gl, gr));
            }
            res
        },
        BinOp::Ge => {
            let inner = Expr::BinOp {
                op: BinOp::Gt,
                span: span,
                lhs: Box::new(r),
                rhs: Box::new(l),
            };
            let ghost gi = inner@;
            let res = Expr::UnOp { op: UnOp::Not, span: span, val: Box::new(inner) };
            proof {
                assert(res@ =~= rw_binop(op, span, gl, gr));
            }
            res
        },
        BinOp::Ne => {
            let inner = Expr::BinOp {
                op: BinOp::Eq,
                span: span,
                lhs: Box::new(l),
                rhs: Box::new(r),
            };
            let ghost gi = inner@;
            let res = Expr::UnOp { op: UnOp::Not, span: span, val: Box::new(inner) };
            proof {
                assert(res@ =~= rw_binop(op, span, gl, gr));
            }
            res
        },
        BinOp::FloorDiv => {
            let inner = Expr::BinOp {
                op: BinOp::Div,
                span: span,
                lhs: Box::new(l),
                rhs: Box::new(r),
            };
            let ghost gi = inner@;
            let res = Expr::UnOp { op: UnOp::Floor, span: span, val: Box::new(inner) };
            proof {
                assert(res@ =~= rw_binop(op, span, gl, gr));
            }
            res
        },
        _ => {
            let res = Expr::BinOp { op: op, span: span, lhs: Box::new(l), rhs: Box::new(r) };
            proof {
                assert(res@ =~= rw_binop(op, span, gl, gr));
            }
            res
        },
    }
}

/// Folds `Add`/`Sub`/`Mul` over literal operands; leaves any other
/// pair as the operation node.
fn fold_arith_exec(op: BinOp, span: Span, l: Expr, r: Expr) -> (res: Expr)
    requires
        op == BinOp::Add || op == BinOp::Sub || op == BinOp::Mul,
    ensures
        res@ == rw_binop(op, span, l@, r@),
{
    let ghost gl = l@;
    let ghost gr = r@;
    match (l, r) {
        (Expr::Int(a), Expr::Int(b)) => {
            let folded: Option<i64> = match op {
                BinOp::Add => a.checked_add(b),
                BinOp::Sub => a.checked_sub(b),
                _ => a.checked_mul(b),
            };
            match folded {
                Some(v) => {
                    let res = Expr::Int(v);
                    proof {
                        assert(res@ =~= rw_binop(op, span, gl, gr));
                    }
                    res
                },
                None => {
                    let res = Expr::BinOp {
                        op: op,
                        span: span,
                        lhs: Box::new(Expr::Int(a)),
                        rhs: Box::new(Expr::Int(b)),
                    };
                    proof {
                        assert((Expr::Int(a))@ == ExprV::Int(a));
                        assert((Expr::Int(b))@ == ExprV::Int(b));
                        assert(res@ =~= rw_binop(op, span, gl, gr));
                    }
                    res
                },
            }
        },
        (Expr::Int(a), Expr::Float(b)) => {
            let pa = i64_to_bits(a);
            let res = Expr::Float(f64_op_exec(op, pa, b));
            proof {
                assert(res@ =~= rw_binop(op, span, gl, gr));
            }
            res
        },
        (Expr::Float(a), Expr::Int(b)) => {
            let pb = i64_to_bits(b);
            let res = Expr::Float(f64_op_exec(op, a, pb));
            proof {
                assert(res@ =~= rw_binop(op, span, gl, gr));
            }
            res
        },
        (Expr::Float(a), Expr::Float(b)) => {
            let res = Expr::Float(f64_op_exec(op, a, b));
            proof {
                assert(res@ =~= rw_binop(op, span, gl, gr));
            }
            res
        },
        (l2, r2) => {
            let res = Expr::BinOp { op: op, span: span, lhs: Box::new(l2), rhs: Box::new(r2) };
            proof {
                assert(res@ =~= rw_binop(op, span, gl, gr));
            }
            res
        },
    }
}

/// The binary64 operation selected by the operator.
fn f64_op_exec(op: BinOp, a: u64, b: u64) -> (r: u64)
    requires
        op == BinOp::Add || op == BinOp::Sub || op == BinOp::Mul,
    ensures
        r == f64_op(op, a, b),
{
    match op {
        BinOp::Add => add_bits(a, b),
        BinOp::Sub => sub_bits(a, b),
        _ => mul_bits(a, b),
    }
}

/// The rewrite of one statement: its expressions are rewritten in
/// order, nested bodies are rewritten statement by statement (without
/// struct expansion), and list, procedure and message references are
/// recorded.
pub open spec fn rw_stmt(st: StmtV, s: ScopeV, pargs: Seq<(Seq<char>, Span)>, r: RState) -> (
    StmtV,
    RState,
)
    decreases st, 1int,
{
    match st {
        StmtV::Repeat { times, body } => {
            let pt = rw_expr(times, s, pargs, r);
            let pb = rw_stmt_seq(body, s, pargs, pt.1);
            (StmtV::Repeat { times: pt.0, body: pb.0 }, pb.1)
        },
        StmtV::Forever { body, span } => {
            let pb = rw_stmt_seq(body, s, pargs, r);
            (StmtV::Forever { body: pb.0, span: span }, pb.1)
        },
        StmtV::Branch { cond, if_body, else_body } => {
            let pc = rw_expr(cond, s, pargs, r);
            let pi = rw_stmt_seq(if_body, s, pargs, pc.1);
            let pe = rw_stmt_seq(else_body, s, pargs, pi.1);
            (StmtV::Branch { cond: pc.0, if_body: pi.0, else_body: pe.0 }, pe.1)
        },
        StmtV::Until { cond, body } => {
            let pc = rw_expr(cond, s, pargs, r);
            let pb = rw_stmt_seq(body, s, pargs, pc.1);
            (StmtV::Until { cond: pc.0, body: pb.0 }, pb.1)
        },
        StmtV::SetVar { name, value, type_, is_local, span } => {
            let pv = rw_expr(value, s, pargs, r);
            (
                StmtV::SetVar {
                    name: name,
                    value: pv.0,
                    type_: type_,
                    is_local: is_local,
                    span: span,
                },
                pv.1,
            )
        },
        StmtV::ChangeVar { name, value, span } => {
            let pv = rw_expr(value, s, pargs, r);
            (StmtV::ChangeVar { name: name, value: pv.0, span: span }, pv.1)
        },
        StmtV::SetField { variable, variable_span, field, field_span, value } => {
            let pv = rw_expr(value, s, pargs, r);
            (
                StmtV::SetField {
                    variable: variable,
                    variable_span: variable_span,
                    field: field,
                    field_span: field_span,
                    value: pv.0,
                },
                pv.1,
            )
        },
        StmtV::Show { .. } => (st, r),
        StmtV::Hide { .. } => (st, r),
        StmtV::ListAdd { name, span, value } => {
            let r1 = RState { refs: ReferencesV { lists: r.refs.lists.insert(name), ..r.refs }, ..r };
            let pv = rw_expr(value, s, pargs, r1);
            (StmtV::ListAdd { name: name, span: span, value: pv.0 }, pv.1)
        },
        StmtV::ListDelete { name, span, index } => {
            let r1 = RState { refs: ReferencesV { lists: r.refs.lists.insert(name), ..r.refs }, ..r };
            let pi = rw_expr(index, s, pargs, r1);
            (StmtV::ListDelete { name: name, span: span, index: pi.0 }, pi.1)
        },
        StmtV::ListDeleteAll { name, span } => {
            let r1 = RState { refs: ReferencesV { lists: r.refs.lists.insert(name), ..r.refs }, ..r };
            (st, r1)
        },
        StmtV::ListInsert { name, span, index, value } => {
            let r1 = RState { refs: ReferencesV { lists: r.refs.lists.insert(name), ..r.refs }, ..r };
            let pi = rw_expr(index, s, pargs, r1);
            let pv = rw_expr(value, s, pargs, pi.1);
            (StmtV::ListInsert { name: name, span: span, index: pi.0, value: pv.0 }, pv.1)
        },
        StmtV::ListSet { name, span, index, value } => {
            let r1 = RState { refs: ReferencesV { lists: r.refs.lists.insert(name), ..r.refs }, ..r };
            let pi = rw_expr(index, s, pargs, r1);
            let pv = rw_expr(value, s, pargs, pi.1);
            (StmtV::ListSet { name: name, span: span, index: pi.0, value: pv.0 }, pv.1)
        },
        StmtV::ListChange { op, name, span, index, value } => {
            let r1 = RState { refs: ReferencesV { lists: r.refs.lists.insert(name), ..r.refs }, ..r };
            let pi = rw_expr(index, s, pargs, r1);
            let pv = rw_expr(value, s, pargs, pi.1);
            (
                StmtV::ListChange { op: op, name: name, span: span, index: pi.0, value: pv.0 },
                pv.1,
            )
        },
        StmtV::Block { block, span, args } => {
            let is_broadcast = block is Broadcast || block is BroadcastAndWait;
            let r1 = if is_broadcast && args.len() > 0 && args[0] is Str {
                RState {
                    refs: ReferencesV {
                        messages: r.refs.messages.insert(args[0]->Str_0),
                        ..r.refs
                    },
                    ..r
                }
            } else {
                r
            };
            let pa = rw_exprs(args, s, pargs, r1);
            (StmtV::Block { block: block, span: span, args: pa.0 }, pa.1)
        },
        StmtV::ProcCall { name, span, args } => {
            let r1 = RState { refs: ReferencesV { procs: r.refs.procs.insert(name), ..r.refs }, ..r };
            let pa = rw_exprs(args, s, pargs, r1);
            (StmtV::ProcCall { name: name, span: span, args: pa.0 }, pa.1)
        },
    }
}

/// `rw_stmt`, folded left to right over a statement list.
pub open spec fn rw_stmt_seq(sts: Seq<StmtV>, s: ScopeV, pargs: Seq<(Seq<char>, Span)>, r: RState) -> (
    Seq<StmtV>,
    RState,
)
    decreases sts, 0int,
{
    if sts.len() == 0 {
        (Seq::<StmtV>::empty(), r)
    } else {
        let p = rw_stmt(sts[0], s, pargs, r);
        let rest = rw_stmt_seq(sts.drop_first(), s, pargs, p.1);
        (seq![p.0] + rest.0, rest.1)
    }
}

/// The per-field assignments that one struct-typed assignment expands
/// to: one `SetField` per declared field, in declared order. When the
/// assigned value is a bare name resolving to a variable of the same
/// struct type, each field reads the matching field of that source;
/// otherwise every field is assigned the original value expression.
pub open spec fn expansion_fields(
    target: Seq<char>,
    span: Span,
    sd: StructV,
    value: ExprV,
    source: Option<(Seq<char>, Span)>,
) -> Seq<StmtV> {
    match source {
        Some(src) => Seq::new(
            sd.fields.len(),
            |i: int|
                StmtV::SetField {
                    variable: target,
                    variable_span: span,
                    field: sd.fields[i].0,
                    field_span: span,
                    value: ExprV::Accessor {
                        symbol_name: src.0,
                        symbol_span: src.1,
                        property_name: sd.fields[i].0,
                        property_span: sd.fields[i].1,
                    },
                },
        ),
        None => Seq::new(
            sd.fields.len(),
            |i: int|
                StmtV::SetField {
                    variable: target,
                    variable_span: span,
                    field: sd.fields[i].0,
                    field_span: span,
                    value: value,
                },
        ),
    }
}

/// The source variable of a field-by-field struct copy, if the
/// assigned value is a bare name resolving to a variable of the same
/// struct type.
pub open spec fn copy_source(value: ExprV, s: ScopeV, struct_name: Seq<char>) -> Option<
    (Seq<char>, Span),
> {
    match value {
        ExprV::Name { name: vname, span: vspan } => match sc_var(s, vname) {
            Some(src) => if src.type_.struct_name() == Some(struct_name) {
                Some((vname, vspan))
            } else {
                None
            },
            None => None,
        },
        _ => None,
    }
}

/// What one statement becomes under struct-assignment expansion: a
/// `SetVar` whose target is a struct-typed variable becomes one
/// `SetField` per field; every other statement stands unchanged.
pub open spec fn expand_stmt(st: StmtV, s: ScopeV) -> Seq<StmtV> {
    match st {
        StmtV::SetVar { name, value, type_, is_local, span } => {
            match sc_var(s, name.basename()) {
                Some(var) => match var.type_.struct_name() {
                    Some(sn) => match sc_struct(s, sn) {
                        Some(sd) => expansion_fields(
                            name.basename(),
                            span,
                            sd,
                            value,
                            copy_source(value, s, sd.name),
                        ),
                        None => seq![st],
                    },
                    None => seq![st],
                },
                None => seq![st],
            }
        },
        _ => seq![st],
    }
}

/// `expand_stmt` over a whole top-level statement list, splicing each
/// expansion in place of its statement.
pub open spec fn expand_stmts(sts: Seq<StmtV>, s: ScopeV) -> Seq<StmtV>
    decreases sts,
{
    if sts.len() == 0 {
        Seq::<StmtV>::empty()
    } else {
        expand_stmt(sts[0], s) + expand_stmts(sts.drop_first(), s)
    }
}

/// The whole resolution of one top-level body: struct-assignment
/// expansion first, then the statement rewrite.
pub open spec fn resolve_body(
    body: Seq<StmtV>,
    s: ScopeV,
    pargs: Seq<(Seq<char>, Span)>,
    r: RState,
) -> (Seq<StmtV>, RState) {
    rw_stmt_seq(expand_stmts(body, s), s, pargs, r)
}

/// Expands one statement onto the output list.
#[verifier::loop_isolation(false)]
fn expand_stmt_exec(st: Stmt, s: &Scopes, out: &mut Vec<Stmt>)
    ensures
        view_stmts(final(out)@) == view_stmts(old(out)@) + expand_stmt(st@, s.sv()),
{
    let ghost st0 = st@;
    let ghost out0 = view_stmts(old(out)@);
    proof {
        lemma_view_stmts(old(out)@);
    }
    let is_expansion: bool = match &st {
        Stmt::SetVar { name, value, .. } => {
            let target = s.lookup_variable(name.basename());
            match target {
                Some(var) => match var.type_.struct_name() {
                    Some(sn) => s.get_struct(sn).is_some(),
                    None => false,
                },
                None => false,
            }
        },
        _ => false,
    };
    if !is_expansion {
        proof {
            assert(expand_stmt(st0, s.sv()) =~= seq![st0]);
        }
        let ghost pre_out = out@;
        out.push(st);
        proof {
            lemma_view_stmts(pre_out);
            lemma_view_stmts(out@);
            assert(out@.drop_last() =~= pre_out);
            assert(out@.last() == st);
            assert(view_stmts(out@) =~= view_stmts(pre_out).push(st0));
            assert(view_stmts(out@) =~= out0 + seq![st0]);
        }
        return ;
    }
    match st {
        Stmt::SetVar { name, value, type_, is_local, span } => {
            let nm = name.basename();
            let var = s.lookup_variable(nm).unwrap();
            let sn = var.type_.struct_name().unwrap();
            let sd = s.get_struct(sn).unwrap();
            let ghost sdv = sd@;
            let source: Option<(&String, Span)> = match &value {
                Expr::Name { name: vname, span: vspan } => {
                    let src = s.lookup_variable(vname);
                    match src {
                        Some(srcv) => match srcv.type_.struct_name() {
                            Some(ssn) => {
                                if *ssn == sd.name {
                                    Some((vname, *vspan))
                                } else {
                                    None
                                }
                            },
                            None => None,
                        },
                        None => None,
                    }
                },
                _ => None,
            };
            let ghost gsource = copy_source(value@, s.sv(), sdv.name);
            proof {
                match source {
                    Some(sv) => {
                        assert(gsource == Some((sv.0@, sv.1)));
                    },
                    None => {
                        assert(gsource is None);
                    },
                }
                assert(expand_stmt(st0, s.sv()) == expansion_fields(
                    nm@,
                    span,
                    sdv,
                    value@,
                    gsource,
                ));
            }
            let ghost exp = expansion_fields(nm@, span, sdv, value@, gsource);
            let mut i: usize = 0;
            while i < sd.fields.len()
                invariant
                    i <= sd.fields.len(),
                    sdv == sd@,
                    sdv.fields.len() == sd.fields@.len(),
                    exp.len() == sd.fields@.len(),
                    view_stmts(out@) =~= out0 + exp.subrange(0, i as int),
                decreases sd.fields.len() - i,
            {
                proof {
                    assert(sdv.fields[i as int] == (sd.fields@[i as int].name@,
                    sd.fields@[i as int].span));
                }
                let fld = &sd.fields[i];
                let fv: Expr = match source {
                    Some((vname, vspan)) => {
                        let a = Expr::Accessor {
                            symbol_name: vname.clone(),
                            symbol_span: vspan,
                            property_name: fld.name.clone(),
                            property_span: fld.span,
                        };
                        proof {
                            assert(a@ =~= ExprV::Accessor {
                                symbol_name: vname@,
                                symbol_span: vspan,
                                property_name: fld.name@,
                                property_span: fld.span,
                            });
                        }
                        a
                    },
                    None => clone_expr(&value),
                };
                let ns = Stmt::SetField {
                    variable: nm.clone(),
                    variable_span: span,
                    field: fld.name.clone(),
                    field_span: span,
                    value: fv,
                };
                proof {
                    match source {
                        Some(sv2) => {
                            assert(gsource == Some((sv2.0@, sv2.1)));
                            assert(exp =~= Seq::new(
                                sdv.fields.len(),
                                |j: int|
                                    StmtV::SetField {
                                        variable: nm@,
                                        variable_span: span,
                                        field: sdv.fields[j].0,
                                        field_span: span,
                                        value: ExprV::Accessor {
                                            symbol_name: sv2.0@,
                                            symbol_span: sv2.1,
                                            property_name: sdv.fields[j].0,
                                            property_span: sdv.fields[j].1,
                                        },
                                    },
                            ));
                        },
                        None => {
                            assert(gsource is None);
                            assert(exp =~= Seq::new(
                                sdv.fields.len(),
                                |j: int|
                                    StmtV::SetField {
                                        variable: nm@,
                                        variable_span: span,
                                        field: sdv.fields[j].0,
                                        field_span: span,
                                        value: value@,
                                    },
                            ));
                        },
                    }
                    assert(ns@ =~= exp[i as int]);
                    lemma_view_stmts(out@);
                    lemma_view_stmts(out@.push(ns));
                    assert(out@.push(ns).drop_last() =~= out@);
                    assert(view_stmts(out@.push(ns)) =~= view_stmts(out@).push(ns@));
                    assert(view_stmts(out@).push(ns@) =~= out0 + exp.subrange(0, i as int + 1));
                }
                out.push(ns);
                i += 1;
            }
            proof {
                assert(exp.subrange(0, exp.len() as int) =~= exp);
                assert(view_stmts(out@) =~= out0 + exp);
            }
        },
        _ => {
            proof {
                assert(false);
            }
        },
    }
}

/// Struct-assignment expansion over a whole top-level list: builds the
/// fresh output list, splicing each expansion in place.
fn expand_stmts_exec(stmts: Vec<Stmt>, s: &Scopes) -> (r: Vec<Stmt>)
    ensures
        view_stmts(r@) == expand_stmts(view_stmts(stmts@), s.sv()),
{
    let ghost sv0 = view_stmts(stmts@);
    proof {
        lemma_view_stmts(stmts@);
        assert(sv0.skip(0) =~= sv0);
    }
    let mut out: Vec<Stmt> = Vec::new();
    let mut rest = stmts;
    proof {
        assert(view_stmts(out@) =~= Seq::<StmtV>::empty());
        assert(view_stmts(rest@) =~= sv0.skip(0));
    }
    while rest.len() > 0
        invariant
            view_stmts(rest@).len() == rest@.len(),
            expand_stmts(sv0, s.sv()) =~= view_stmts(out@) + expand_stmts(
                view_stmts(rest@),
                s.sv(),
            ),
        decreases rest.len(),
    {
        let ghost rv = view_stmts(rest@);
        proof {
            lemma_view_stmts(rest@);
            assert(rv[0] == rest@[0]@);
            assert(rv.drop_first() =~= view_stmts(rest@.drop_first())) by {
                lemma_view_stmts(rest@.drop_first());
                assert forall|j: int| 0 <= j < rest@.len() - 1 implies view_stmts(
                    rest@.drop_first(),
                )[j] == rv.drop_first()[j] by {
                    assert(view_stmts(rest@.drop_first())[j] == rest@.drop_first()[j]@);
                    assert(rest@.drop_first()[j] == rest@[j + 1]);
                }
            }
        }
        let st = rest.remove(0);
        let ghost out_pre = view_stmts(out@);
        expand_stmt_exec(st, s, &mut out);
        proof {
            assert(expand_stmts(rv, s.sv()) == expand_stmt(rv[0], s.sv()) + expand_stmts(
                rv.drop_first(),
                s.sv(),
            ));
            assert(expand_stmts(sv0, s.sv()) =~= view_stmts(out@) + expand_stmts(
                view_stmts(rest@),
                s.sv(),
            ));
        }
    }
    proof {
        assert(view_stmts(rest@).len() == 0);
        assert(expand_stmts(view_stmts(rest@), s.sv()) =~= Seq::<StmtV>::empty());
        assert(expand_stmts(sv0, s.sv()) =~= view_stmts(out@));
    }
    out
}

/// Rewrites one statement, visiting its expressions in order and its
/// nested bodies statement by statement.
#[verifier::loop_isolation(false)]
fn visit_stmt(
    st: Stmt,
    s: &Scopes,
    pargs: &Vec<Arg>,
    used: &mut Vec<bool>,
    refs: &mut References,
) -> (r: Stmt)
    ensures
        ({
            let post = rw_stmt(
                st@,
                s.sv(),
                args_names(pargs@),
                RState { refs: old(refs)@, used: old(used)@ },
            );
            r@ == post.0 && RState { refs: final(refs)@, used: final(used)@ } == post.1
        }),
    decreases st, 1int,
{
    let ghost st0 = st@;
    let ghost pre = RState { refs: old(refs)@, used: old(used)@ };
    let ghost target = rw_stmt(st0, s.sv(), args_names(pargs@), pre);
    match st {
        Stmt::Repeat { times, body } => {
            let nt = visit_expr(&times, s, pargs, used, refs);
            let nb = visit_stmt_vec(body, s, pargs, used, refs);
            let res = Stmt::Repeat { times: nt, body: nb };
            proof {
                assert(res@ =~= target.0);
                assert(RState { refs: refs@, used: used@ } =~= target.1);
            }
            res
        },
        Stmt::Forever { body, span } => {
            let nb = visit_stmt_vec(body, s, pargs, used, refs);
            let res = Stmt::Forever { body: nb, span: span };
            proof {
                assert(res@ =~= target.0);
                assert(RState { refs: refs@, used: used@ } =~= target.1);
            }
            res
        },
        Stmt::Branch { cond, if_body, else_body } => {
            let nc = visit_expr(&cond, s, pargs, used, refs);
            let ni = visit_stmt_vec(if_body, s, pargs, used, refs);
            let ne = visit_stmt_vec(else_body, s, pargs, used, refs);
            let res = Stmt::Branch { cond: nc, if_body: ni, else_body: ne };
            proof {
                assert(res@ =~= target.0);
                assert(RState { refs: refs@, used: used@ } =~= target.1);
            }
            res
        },
        Stmt::Until { cond, body } => {
            let nc = visit_expr(&cond, s, pargs, used, refs);
            let nb = visit_stmt_vec(body, s, pargs, used, refs);
            let res = Stmt::Until { cond: nc, body: nb };
            proof {
                assert(res@ =~= target.0);
                assert(RState { refs: refs@, used: used@ } =~= target.1);
            }
            res
        },
        Stmt::SetVar { name, value, type_, is_local, span } => {
            let nv = visit_expr(&value, s, pargs, used, refs);
            let res = Stmt::SetVar {
                name: name,
                value: nv,
                type_: type_,
                is_local: is_local,
                span: span,
            };
            proof {
                assert(res@ =~= target.0);
                assert(RState { refs: refs@, used: used@ } =~= target.1);
            }
            res
        },
        Stmt::ChangeVar { name, value, span } => {
            let nv = visit_expr(&value, s, pargs, used, refs);
            let res = Stmt::ChangeVar { name: name, value: nv, span: span };
            proof {
                assert(res@ =~= target.0);
                assert(RState { refs: refs@, used: used@ } =~= target.1);
            }
            res
        },
        Stmt::SetField { variable, variable_span, field, field_span, value } => {
            let nv = visit_expr(&value, s, pargs, used, refs);
            let res = Stmt::SetField {
                variable: variable,
                variable_span: variable_span,
                field: field,
                field_span: field_span,
                value: nv,
            };
            proof {
                assert(res@ =~= target.0);
                assert(RState { refs: refs@, used: used@ } =~= target.1);
            }
            res
        },
        Stmt::Show { name, span } => {
            let res = Stmt::Show { name: name, span: span };
            proof {
                assert(res@ =~= target.0);
                assert(RState { refs: refs@, used: used@ } =~= target.1);
            }
            res
        },
        Stmt::Hide { name, span } => {
            let res = Stmt::Hide { name: name, span: span };
            proof {
                assert(res@ =~= target.0);
                assert(RState { refs: refs@, used: used@ } =~= target.1);
            }
            res
        },
        Stmt::ListAdd { name, span, value } => {
            insert_name(&mut refs.lists, &name);
            let nv = visit_expr(&value, s, pargs, used, refs);
            let res = Stmt::ListAdd { name: name, span: span, value: nv };
            proof {
                assert(res@ =~= target.0);
                assert(RState { refs: refs@, used: used@ } =~= target.1);
            }
            res
        },
        Stmt::ListDelete { name, span, index } => {
            insert_name(&mut refs.lists, &name);
            let ni = visit_expr(&index, s, pargs, used, refs);
            let res = Stmt::ListDelete { name: name, span: span, index: ni };
            proof {
                assert(res@ =~= target.0);
                assert(RState { refs: refs@, used: used@ } =~= target.1);
            }
            res
        },
        Stmt::ListDeleteAll { name, span } => {
            insert_name(&mut refs.lists, &name);
            let res = Stmt::ListDeleteAll { name: name, span: span };
            proof {
                assert(res@ =~= target.0);
                assert(RState { refs: refs@, used: used@ } =~= target.1);
            }
            res
        },
        Stmt::ListInsert { name, span, index, value } => {
            insert_name(&mut refs.lists, &name);
            let ni = visit_expr(&index, s, pargs, used, refs);
            let nv = visit_expr(&value, s, pargs, used, refs);
            let res = Stmt::ListInsert { name: name, span: span, index: ni, value: nv };
            proof {
                assert(res@ =~= target.0);
                assert(RState { refs: refs@, used: used@ } =~= target.1);
            }
            res
        },
        Stmt::ListSet { name, span, index, value } => {
            insert_name(&mut refs.lists, &name);
            let ni = visit_expr(&index, s, pargs, used, refs);
            let nv = visit_expr(&value, s, pargs, used, refs);
            let res = Stmt::ListSet { name: name, span: span, index: ni, value: nv };
            proof {
                assert(res@ =~= target.0);
                assert(RState { refs: refs@, used: used@ } =~= target.1);
            }
            res
        },
        Stmt::ListChange { op, name, span, index, value } => {
            insert_name(&mut refs.lists, &name);
            let ni = visit_expr(&index, s, pargs, used, refs);
            let nv = visit_expr(&value, s, pargs, used, refs);
            let res = Stmt::ListChange { op: op, name: name, span: span, index: ni, value: nv };
            proof {
                assert(res@ =~= target.0);
                assert(RState { refs: refs@, used: used@ } =~= target.1);
            }
            res
        },
        Stmt::Block { block, span, args } => {
            proof {
                lemma_view_exprs(args@);
            }
            let is_broadcast = matches!(block, Block::Broadcast | Block::BroadcastAndWait);
            if is_broadcast && args.len() > 0 {
                match &args[0] {
                    Expr::Str(msg) => {
                        proof {
                            assert(view_exprs(args@)[0] == args@[0]@);
                        }
                        insert_name(&mut refs.messages, msg);
                    },
                    _ => {
                        proof {
                            assert(view_exprs(args@)[0] == args@[0]@);
                        }
                    },
                }
            }
            let na = visit_expr_vec(args, s, pargs, used, refs);
            let res = Stmt::Block { block: block, span: span, args: na };
            proof {
                assert(res@ =~= target.0);
                assert(RState { refs: refs@, used: used@ } =~= target.1);
            }
            res
        },
        Stmt::ProcCall { name, span, args } => {
            insert_name(&mut refs.procs, &name);
            let na = visit_expr_vec(args, s, pargs, used, refs);
            let res = Stmt::ProcCall { name: name, span: span, args: na };
            proof {
                assert(res@ =~= target.0);
                assert(RState { refs: refs@, used: used@ } =~= target.1);
            }
            res
        },
    }
}

/// Rewrites an owned expression list, left to right.
#[verifier::loop_isolation(false)]
fn visit_expr_vec(
    es: Vec<Expr>,
    s: &Scopes,
    pargs: &Vec<Arg>,
    used: &mut Vec<bool>,
    refs: &mut References,
) -> (r: Vec<Expr>)
    ensures
        ({
            let post = rw_exprs(
                view_exprs(es@),
                s.sv(),
                args_names(pargs@),
                RState { refs: old(refs)@, used: old(used)@ },
            );
            view_exprs(r@) == post.0 && RState { refs: final(refs)@, used: final(used)@ }
                == post.1
        }),
{
    let ghost ev0 = view_exprs(es@);
    let ghost pre = RState { refs: old(refs)@, used: old(used)@ };
    let ghost target = rw_exprs(ev0, s.sv(), args_names(pargs@), pre);
    proof {
        lemma_view_exprs(es@);
        assert(view_exprs(es@) =~= ev0.skip(0));
    }
    let mut out: Vec<Expr> = Vec::new();
    let mut rest = es;
    proof {
        assert(view_exprs(out@) =~= Seq::<ExprV>::empty());
    }
    while rest.len() > 0
        invariant
            view_exprs(rest@).len() == rest@.len(),
            target == rw_exprs(ev0, s.sv(), args_names(pargs@), pre),
            target.0 =~= view_exprs(out@) + rw_exprs(
                view_exprs(rest@),
                s.sv(),
                args_names(pargs@),
                RState { refs: refs@, used: used@ },
            ).0,
            target.1 == rw_exprs(
                view_exprs(rest@),
                s.sv(),
                args_names(pargs@),
                RState { refs: refs@, used: used@ },
            ).1,
        decreases rest.len(),
    {
        let ghost rv = view_exprs(rest@);
        proof {
            lemma_view_exprs(rest@);
            assert(rv[0] == rest@[0]@);
            assert(rv.drop_first() =~= view_exprs(rest@.drop_first())) by {
                lemma_view_exprs(rest@.drop_first());
                assert forall|j: int| 0 <= j < rest@.len() - 1 implies view_exprs(
                    rest@.drop_first(),
                )[j] == rv.drop_first()[j] by {
                    assert(view_exprs(rest@.drop_first())[j] == rest@.drop_first()[j]@);
                    assert(rest@.drop_first()[j] == rest@[j + 1]);
                }
            }
        }
        let e = rest.remove(0);
        let ne = visit_expr(&e, s, pargs, used, refs);
        proof {
            lemma_view_exprs(out@);
            lemma_view_exprs(out@.push(ne));
            assert(out@.push(ne).drop_last() =~= out@);
            assert(view_exprs(out@.push(ne)) =~= view_exprs(out@).push(ne@));
        }
        out.push(ne);
    }
    proof {
        assert(view_exprs(rest@).len() == 0);
        assert(target.0 =~= view_exprs(out@));
    }
    out
}

/// Rewrites an owned statement list, left to right, without struct
/// expansion (the form nested bodies take).
#[verifier::loop_isolation(false)]
fn visit_stmt_vec(
    sts: Vec<Stmt>,
    s: &Scopes,
    pargs: &Vec<Arg>,
    used: &mut Vec<bool>,
    refs: &mut References,
) -> (r: Vec<Stmt>)
    ensures
        ({
            let post = rw_stmt_seq(
                view_stmts(sts@),
                s.sv(),
                args_names(pargs@),
                RState { refs: old(refs)@, used: old(used)@ },
            );
            view_stmts(r@) == post.0 && RState { refs: final(refs)@, used: final(used)@ }
                == post.1
        }),
    decreases sts@, 0int,
{
    let ghost sv0 = view_stmts(sts@);
    let ghost pre = RState { refs: old(refs)@, used: old(used)@ };
    let ghost target = rw_stmt_seq(sv0, s.sv(), args_names(pargs@), pre);
    proof {
        lemma_view_stmts(sts@);
        assert(view_stmts(sts@) =~= sv0.skip(0));
    }
    let mut out: Vec<Stmt> = Vec::new();
    let mut rest = sts;
    let ghost b0 = sts@;
    let ghost k: int = 0;
    proof {
        assert(view_stmts(out@) =~= Seq::<StmtV>::empty());
        assert(rest@ =~= b0.skip(0));
    }
    while rest.len() > 0
        invariant
            0 <= k <= b0.len(),
            rest@ == b0.skip(k),
            view_stmts(rest@).len() == rest@.len(),
            target == rw_stmt_seq(sv0, s.sv(), args_names(pargs@), pre),
            target.0 =~= view_stmts(out@) + rw_stmt_seq(
                view_stmts(rest@),
                s.sv(),
                args_names(pargs@),
                RState { refs: refs@, used: used@ },
            ).0,
            target.1 == rw_stmt_seq(
                view_stmts(rest@),
                s.sv(),
                args_names(pargs@),
                RState { refs: refs@, used: used@ },
            ).1,
        decreases rest.len(),
    {
        let ghost rv = view_stmts(rest@);
        proof {
            lemma_view_stmts(rest@);
            assert(rv[0] == rest@[0]@);
            assert(rest@[0] == b0[k]);
            assert(rv.drop_first() =~= view_stmts(rest@.drop_first())) by {
                lemma_view_stmts(rest@.drop_first());
                assert forall|j: int| 0 <= j < rest@.len() - 1 implies view_stmts(
                    rest@.drop_first(),
                )[j] == rv.drop_first()[j] by {
                    assert(view_stmts(rest@.drop_first())[j] == rest@.drop_first()[j]@);
                    assert(rest@.drop_first()[j] == rest@[j + 1]);
                }
            }
        }
        let st = rest.remove(0);
        let ns = visit_stmt(st, s, pargs, used, refs);
        proof {
            lemma_view_stmts(out@);
            lemma_view_stmts(out@.push(ns));
            assert(out@.push(ns).drop_last() =~= out@);
            assert(view_stmts(out@.push(ns)) =~= view_stmts(out@).push(ns@));
        }
        out.push(ns);
        proof {
            k = k + 1;
            assert(rest@ =~= b0.skip(k));
        }
    }
    proof {
        assert(view_stmts(rest@).len() == 0);
        assert(target.0 =~= view_stmts(out@));
    }
    out
}

/// Resolves one top-level statement list in place: struct-assignment
/// expansion, then the full rewrite.
pub fn visit_stmts(
    stmts: &mut Vec<Stmt>,
    s: &Scopes,
    pargs: &Vec<Arg>,
    used: &mut Vec<bool>,
    refs: &mut References,
)
    ensures
        ({
            let post = resolve_body(
                view_stmts(old(stmts)@),
                s.sv(),
                args_names(pargs@),
                RState { refs: old(refs)@, used: old(used)@ },
            );
            view_stmts(final(stmts)@) == post.0 && RState {
                refs: final(refs)@,
                used: final(used)@,
            } == post.1
        }),
{
    let mut work: Vec<Stmt> = Vec::new();
    core::mem::swap(stmts, &mut work);
    let expanded = expand_stmts_exec(work, s);
    let done = visit_stmt_vec(expanded, s, pargs, used, refs);
    *stmts = done;
}

/// The resolution of one procedure: its body, walked with the
/// procedure's declared arguments in scope; its reference record and
/// used-argument table advance together.
pub open spec fn resolve_proc(p: ProcV, s: ScopeV) -> ProcV {
    let r = resolve_body(p.body, s, p.args, RState { refs: p.references, used: p.used_args });
    ProcV { body: r.0, references: r.1.refs, used_args: r.1.used, ..p }
}

/// The resolution of one event body; events have no arguments.
pub open spec fn resolve_event(e: EventV, s: ScopeV) -> EventV {
    let r = resolve_body(
        e.body,
        s,
        Seq::<(Seq<char>, Span)>::empty(),
        RState { refs: e.references, used: Seq::<bool>::empty() },
    );
    EventV { body: r.0, references: r.1.refs, ..e }
}

/// The resolution of one message handler: the handled message is
/// itself recorded as a message reference, then the body is resolved.
pub open spec fn resolve_on_message(m: OnMessageV, s: ScopeV) -> OnMessageV {
    let r0 = ReferencesV { messages: m.references.messages.insert(m.message), ..m.references };
    let r = resolve_body(
        m.body,
        s,
        Seq::<(Seq<char>, Span)>::empty(),
        RState { refs: r0, used: Seq::<bool>::empty() },
    );
    OnMessageV { body: r.0, references: r.1.refs, ..m }
}

/// The scope one sprite's bodies are resolved against.
pub open spec fn sprite_scope(sp: crate::ast::SpriteV, stage: Option<crate::ast::SpriteV>) -> ScopeV {
    ScopeV {
        vars: sp.vars,
        lists: sp.lists,
        enums: sp.enums,
        structs: sp.structs,
        global_vars: match stage {
            Some(st) => st.vars,
            None => Seq::<VarV>::empty(),
        },
        global_lists: match stage {
            Some(st) => st.lists,
            None => Seq::<ListV>::empty(),
        },
        has_global: stage is Some,
    }
}

/// The resolution pass over one sprite: every event, message handler
/// and procedure body is resolved against the sprite's scope; the
/// declaration tables do not change.
pub open spec fn resolve_sprite(sp: crate::ast::SpriteV, stage: Option<crate::ast::SpriteV>) -> crate::ast::SpriteV {
    let sc = sprite_scope(sp, stage);
    crate::ast::SpriteV {
        events: Seq::new(sp.events.len(), |i: int| resolve_event(sp.events[i], sc)),
        on_messages: Seq::new(
            sp.on_messages.len(),
            |i: int| resolve_on_message(sp.on_messages[i], sc),
        ),
        procs: Seq::new(sp.procs.len(), |i: int| resolve_proc(sp.procs[i], sc)),
        ..sp
    }
}

/// The view of an optional stage.
pub open spec fn stage_view(stage: Option<&crate::ast::Sprite>) -> Option<crate::ast::SpriteV> {
    match stage {
        Some(st) => Some(st@),
        None => None,
    }
}

/// Resolves one procedure's body against the given scope.
pub fn visit_proc(proc: &mut crate::ast::Proc, s: &Scopes)
    ensures
        final(proc)@ == resolve_proc(old(proc)@, s.sv()),
{
    proof {
        assert(args_names(proc.args@) =~= proc@.args);
    }
    visit_stmts(&mut proc.body, s, &proc.args, &mut proc.used_args, &mut proc.references);
    proof {
        assert(proc@ =~= resolve_proc(old(proc)@, s.sv()));
    }
}

/// Resolves one event body against the given scope.
pub fn visit_event(event: &mut crate::ast::Event, s: &Scopes)
    ensures
        final(event)@ == resolve_event(old(event)@, s.sv()),
{
    let no_args: Vec<Arg> = Vec::new();
    let mut no_used: Vec<bool> = Vec::new();
    proof {
        assert(args_names(no_args@) =~= Seq::<(Seq<char>, Span)>::empty());
        assert(no_used@ =~= Seq::<bool>::empty());
    }
    visit_stmts(&mut event.body, s, &no_args, &mut no_used, &mut event.references);
    proof {
        assert(event@ =~= resolve_event(old(event)@, s.sv()));
    }
}

/// Resolves one message handler against the given scope, recording
/// the handled message as a reference first.
pub fn visit_on_message(on_message: &mut crate::ast::OnMessage, s: &Scopes)
    ensures
        final(on_message)@ == resolve_on_message(old(on_message)@, s.sv()),
{
    let msg = on_message.message.clone();
    insert_name(&mut on_message.references.messages, &msg);
    let no_args: Vec<Arg> = Vec::new();
    let mut no_used: Vec<bool> = Vec::new();
    proof {
        assert(args_names(no_args@) =~= Seq::<(Seq<char>, Span)>::empty());
        assert(no_used@ =~= Seq::<bool>::empty());
    }
    visit_stmts(&mut on_message.body, s, &no_args, &mut no_used, &mut on_message.references);
    proof {
        assert(on_message@ =~= resolve_on_message(old(on_message)@, s.sv()));
    }
}

/// Runs the resolution pass over one sprite: events, then message
/// handlers, then procedures, each body against the sprite's scope
/// (with the stage as global fallback).
pub fn visit_sprite(sprite: &mut crate::ast::Sprite, stage: Option<&crate::ast::Sprite>)
    ensures
        final(sprite)@ == resolve_sprite(old(sprite)@, stage_view(stage)),
{
    let ghost s0 = old(sprite)@;
    let ghost gstage = stage_view(stage);
    let ghost sc = sprite_scope(s0, gstage);
    let global: Option<(&Vec<Var>, &Vec<List>)> = match stage {
        Some(st) => Some((&st.vars, &st.lists)),
        None => None,
    };
    let mut k: usize = 0;
    while k < sprite.events.len()
        invariant
            k <= sprite.events.len(),
            sprite.events@.len() == s0.events.len(),
            sprite.name@ == s0.name,
            vars_view(sprite.vars@) == s0.vars,
            lists_view(sprite.lists@) == s0.lists,
            enums_view(sprite.enums@) == s0.enums,
            structs_view(sprite.structs@) == s0.structs,
            procs_view(sprite.procs@) == s0.procs,
            sprite.on_messages@.map_values(|m: crate::ast::OnMessage| m@) == s0.on_messages,
            sc == sprite_scope(s0, gstage),
            (match global {
                Some(g) => vars_view(g.0@) == sc.global_vars && lists_view(g.1@)
                    == sc.global_lists,
                None => sc.global_vars == Seq::<VarV>::empty() && sc.global_lists == Seq::<
                    ListV,
                >::empty(),
            }),
            (global is Some) == sc.has_global,
            forall|j: int| k <= j < sprite.events@.len() ==> #[trigger] sprite.events@[j]@
                == s0.events[j],
            forall|j: int| 0 <= j < k ==> #[trigger] sprite.events@[j]@ == resolve_event(
                s0.events[j],
                sc,
            ),
        decreases sprite.events.len() - k,
    {
        let s = Scopes {
            vars: &sprite.vars,
            lists: &sprite.lists,
            enums: &sprite.enums,
            structs: &sprite.structs,
            global: global,
        };
        proof {
            assert(s.sv() =~= sc);
        }
        visit_event(&mut sprite.events[k], &s);
        k += 1;
    }
    let mut k2: usize = 0;
    while k2 < sprite.on_messages.len()
        invariant
            k2 <= sprite.on_messages.len(),
            sprite.on_messages@.len() == s0.on_messages.len(),
            sprite.name@ == s0.name,
            vars_view(sprite.vars@) == s0.vars,
            lists_view(sprite.lists@) == s0.lists,
            enums_view(sprite.enums@) == s0.enums,
            structs_view(sprite.structs@) == s0.structs,
            procs_view(sprite.procs@) == s0.procs,
            sc == sprite_scope(s0, gstage),
            (match global {
                Some(g) => vars_view(g.0@) == sc.global_vars && lists_view(g.1@)
                    == sc.global_lists,
                None => sc.global_vars == Seq::<VarV>::empty() && sc.global_lists == Seq::<
                    ListV,
                >::empty(),
            }),
            (global is Some) == sc.has_global,
            forall|j: int| 0 <= j < sprite.events@.len() ==> #[trigger] sprite.events@[j]@
                == resolve_event(s0.events[j], sc),
            sprite.events@.len() == s0.events.len(),
            forall|j: int| k2 <= j < sprite.on_messages@.len() ==> #[trigger] sprite.on_messages@[j]@
                == s0.on_messages[j],
            forall|j: int| 0 <= j < k2 ==> #[trigger] sprite.on_messages@[j]@
                == resolve_on_message(s0.on_messages[j], sc),
        decreases sprite.on_messages.len() - k2,
    {
        let s = Scopes {
            vars: &sprite.vars,
            lists: &sprite.lists,
            enums: &sprite.enums,
            structs: &sprite.structs,
            global: global,
        };
        proof {
            assert(s.sv() =~= sc);
        }
        visit_on_message(&mut sprite.on_messages[k2], &s);
        k2 += 1;
    }
    let mut k3: usize = 0;
    while k3 < sprite.procs.len()
        invariant
            k3 <= sprite.procs.len(),
            sprite.procs@.len() == s0.procs.len(),
            sprite.name@ == s0.name,
            vars_view(sprite.vars@) == s0.vars,
            lists_view(sprite.lists@) == s0.lists,
            enums_view(sprite.enums@) == s0.enums,
            structs_view(sprite.structs@) == s0.structs,
            sc == sprite_scope(s0, gstage),
            (match global {
                Some(g) => vars_view(g.0@) == sc.global_vars && lists_view(g.1@)
                    == sc.global_lists,
                None => sc.global_vars == Seq::<VarV>::empty() && sc.global_lists == Seq::<
                    ListV,
                >::empty(),
            }),
            (global is Some) == sc.has_global,
            sprite.events@.len() == s0.events.len(),
            forall|j: int| 0 <= j < sprite.events@.len() ==> #[trigger] sprite.events@[j]@
                == resolve_event(s0.events[j], sc),
            sprite.on_messages@.len() == s0.on_messages.len(),
            forall|j: int| 0 <= j < sprite.on_messages@.len() ==> #[trigger] sprite.on_messages@[j]@
                == resolve_on_message(s0.on_messages[j], sc),
            forall|j: int| k3 <= j < sprite.procs@.len() ==> #[trigger] sprite.procs@[j]@
                == s0.procs[j],
            forall|j: int| 0 <= j < k3 ==> #[trigger] sprite.procs@[j]@ == resolve_proc(
                s0.procs[j],
                sc,
            ),
        decreases sprite.procs.len() - k3,
    {
        let s = Scopes {
            vars: &sprite.vars,
            lists: &sprite.lists,
            enums: &sprite.enums,
            structs: &sprite.structs,
            global: global,
        };
        proof {
            assert(s.sv() =~= sc);
        }
        visit_proc(&mut sprite.procs[k3], &s);
        k3 += 1;
    }
    proof {
        assert(sprite@ =~= resolve_sprite(s0, gstage));
    }
}

/// Runs the resolution pass over a whole project: the stage first (no
/// global fallback), then every sprite against the stage.
pub fn visit_project(project: &mut crate::ast::Project)
    ensures
        final(project)@.stage == resolve_sprite(old(project)@.stage, None),
        final(project)@.sprites.len() == old(project)@.sprites.len(),
        forall|i: int| 0 <= i < old(project)@.sprites.len()
            ==> #[trigger] final(project)@.sprites[i] == resolve_sprite(
            old(project)@.sprites[i],
            Some(final(project)@.stage),
        ),
{
    let ghost p0 = old(project)@;
    visit_sprite(&mut project.stage, None);
    let ghost stage1 = project.stage@;
    let mut i: usize = 0;
    while i < project.sprites.len()
        invariant
            i <= project.sprites.len(),
            project.sprites@.len() == p0.sprites.len(),
            project.stage@ == stage1,
            stage1 == resolve_sprite(p0.stage, None),
            forall|j: int| i <= j < project.sprites@.len() ==> #[trigger] project.sprites@[j]@
                == p0.sprites[j],
            forall|j: int| 0 <= j < i ==> #[trigger] project.sprites@[j]@ == resolve_sprite(
                p0.sprites[j],
                Some(stage1),
            ),
        decreases project.sprites.len() - i,
    {
        visit_sprite(&mut project.sprites[i], Some(&project.stage));
        i += 1;
    }
}

/// Folding two integer literals under `Add`, `Sub` or `Mul` yields the
/// integer literal holding the exact arithmetic result, whenever that
/// result is representable.
pub proof fn lemma_fold_int_exact(op: BinOp, span: Span, a: i64, b: i64)
    requires
        op == BinOp::Add || op == BinOp::Sub || op == BinOp::Mul,
        i64::MIN <= int_op(op, a as int, b as int) <= i64::MAX,
    ensures
        rw_binop(op, span, ExprV::Int(a), ExprV::Int(b)) == ExprV::Int(
            int_op(op, a as int, b as int) as i64,
        ),
{
}

/// Folding an integer literal with a float literal, in either operand
/// order, promotes the integer operand to binary64 and applies the
/// binary64 operation; the result is always a float literal.
pub proof fn lemma_fold_mixed(op: BinOp, span: Span, a: i64, b: u64)
    requires
        op == BinOp::Add || op == BinOp::Sub || op == BinOp::Mul,
    ensures
        rw_binop(op, span, ExprV::Int(a), ExprV::Float(b)) == ExprV::Float(
            f64_op(op, f64_of_i64(a), b),
        ),
        rw_binop(op, span, ExprV::Float(b), ExprV::Int(a)) == ExprV::Float(
            f64_op(op, b, f64_of_i64(a)),
        ),
        rw_binop(op, span, ExprV::Float(b), ExprV::Float(b)) == ExprV::Float(f64_op(op, b, b)),
{
}

/// `a <= b` desugars to exactly `not(b < a)`, `a >= b` to
/// `not(b > a)`, `a != b` to `not(a == b)`, and floor-division to
/// `floor(a / b)`.
pub proof fn lemma_desugar_shapes(span: Span, l: ExprV, r: ExprV)
    ensures
        rw_binop(BinOp::Le, span, l, r) == (ExprV::UnOp {
            op: UnOp::Not,
            span: span,
            val: Box::new(
                ExprV::BinOp { op: BinOp::Lt, span: span, lhs: Box::new(r), rhs: Box::new(l) },
            ),
        }),
        rw_binop(BinOp::Ge, span, l, r) == (ExprV::UnOp {
            op: UnOp::Not,
            span: span,
            val: Box::new(
                ExprV::BinOp { op: BinOp::Gt, span: span, lhs: Box::new(r), rhs: Box::new(l) },
            ),
        }),
        rw_binop(BinOp::Ne, span, l, r) == (ExprV::UnOp {
            op: UnOp::Not,
            span: span,
            val: Box::new(
                ExprV::BinOp { op: BinOp::Eq, span: span, lhs: Box::new(l), rhs: Box::new(r) },
            ),
        }),
        rw_binop(BinOp::FloorDiv, span, l, r) == (ExprV::UnOp {
            op: UnOp::Floor,
            span: span,
            val: Box::new(
                ExprV::BinOp { op: BinOp::Div, span: span, lhs: Box::new(l), rhs: Box::new(r) },
            ),
        }),
{
}

/// Over the integers, the desugared comparison forms agree with the
/// originals: `a <= b` is `not(b < a)`, `a >= b` is `not(b > a)`, and
/// `a != b` is `not(a == b)`.
pub proof fn lemma_desugar_semantics(a: int, b: int)
    ensures
        (a <= b) <==> !(b < a),
        (a >= b) <==> !(b > a),
        (a != b) <==> !(a == b),
{
}

/// Double negation: `not(not(x))` rewrites to exactly the inner
/// subtree `x`; unary minus of `0 - x` rewrites to exactly `x`.
pub proof fn lemma_double_negation(span: Span, ispan: Span, x: ExprV)
    ensures
        rw_unop(
            UnOp::Not,
            span,
            ExprV::UnOp { op: UnOp::Not, span: ispan, val: Box::new(x) },
        ) == x,
        rw_unop(
            UnOp::Minus,
            span,
            ExprV::BinOp {
                op: BinOp::Sub,
                span: ispan,
                lhs: Box::new(ExprV::Int(0)),
                rhs: Box::new(x),
            },
        ) == x,
{
}

/// A struct-typed assignment whose source is a variable of the same
/// struct type expands to exactly one field assignment per declared
/// field, in declared order, each reading the matching field off the
/// source variable.
pub proof fn lemma_expand_struct_copy(st: StmtV, s: ScopeV, sd: StructV, src: VarV)
    requires
        st matches StmtV::SetVar { name, value, .. },
        sc_var(s, st->SetVar_name.basename()) matches Some(v) && v.type_.struct_name() == Some(
            sd.name,
        ),
        sc_struct(s, sd.name) == Some(sd),
        st->SetVar_value matches ExprV::Name { name: vn, .. },
        sc_var(s, st->SetVar_value->Name_name) == Some(src),
        src.type_.struct_name() == Some(sd.name),
    ensures
        expand_stmt(st, s).len() == sd.fields.len(),
        forall|i: int| 0 <= i < sd.fields.len() ==> #[trigger] expand_stmt(st, s)[i]
            == (StmtV::SetField {
            variable: st->SetVar_name.basename(),
            variable_span: st->SetVar_span,
            field: sd.fields[i].0,
            field_span: st->SetVar_span,
            value: ExprV::Accessor {
                symbol_name: st->SetVar_value->Name_name,
                symbol_span: st->SetVar_value->Name_span,
                property_name: sd.fields[i].0,
                property_span: sd.fields[i].1,
            },
        }),
{
    let name = st->SetVar_name;
    let value = st->SetVar_value;
    let target = sc_var(s, name.basename());
    assert(target matches Some(v) && v.type_.struct_name() == Some(sd.name));
    assert(copy_source(value, s, sd.name) == Some(
        (value->Name_name, value->Name_span),
    ));
}

/// A struct-typed assignment whose source is not a matching-struct
/// variable expands to exactly one field assignment per declared
/// field, in declared order, each assigned the original, unexpanded
/// value expression.
pub proof fn lemma_expand_struct_broadcast(st: StmtV, s: ScopeV, sd: StructV)
    requires
        st matches StmtV::SetVar { name, value, .. },
        sc_var(s, st->SetVar_name.basename()) matches Some(v) && v.type_.struct_name() == Some(
            sd.name,
        ),
        sc_struct(s, sd.name) == Some(sd),
        copy_source(st->SetVar_value, s, sd.name) is None,
    ensures
        expand_stmt(st, s).len() == sd.fields.len(),
        forall|i: int| 0 <= i < sd.fields.len() ==> #[trigger] expand_stmt(st, s)[i]
            == (StmtV::SetField {
            variable: st->SetVar_name.basename(),
            variable_span: st->SetVar_span,
            field: sd.fields[i].0,
            field_span: st->SetVar_span,
            value: st->SetVar_value,
        }),
{
}

} // verus!
