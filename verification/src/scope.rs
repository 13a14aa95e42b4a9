//! The scope pass: walks every procedure and event body of every
//! sprite and registers, in the right table, each variable that an
//! assignment declares. Registration is idempotent — a name that is
//! already known keeps its first-seen span and type — and nothing else
//! of the tree is touched.

use vstd::prelude::*;
use crate::ast::{
    find_var, lemma_view_stmts, lookup_var, procs_view, vars_view, view_stmts, NameV, Proc, ProcV,
    Project, Sprite, SpriteV, Stmt, StmtV, TypeV, Var, VarV,
};

verus! {

broadcast use vstd::std_specs::vec::axiom_vec_index_decreases;

/// The declaration tables a statement walk threads through: the
/// procedure-local table (used only when one is in scope), the
/// sprite-level table, and the read-only global (stage) table.
#[verifier::ext_equal]
pub struct TablesV {
    pub use_locals: bool,
    pub locals: Seq<VarV>,
    pub vars: Seq<VarV>,
    pub global: Seq<VarV>,
    pub has_global: bool,
}

/// Whether the global table is present and knows the name.
pub open spec fn global_has(t: TablesV, name: Seq<char>) -> bool {
    t.has_global && lookup_var(t.global, name) is Some
}

/// Registration of one assigned variable, per the scoping rule: a
/// local assignment registers in the procedure-local table when one is
/// in scope (first registration wins); a non-local assignment
/// registers at sprite scope unless the name is already known at
/// sprite or global scope.
pub open spec fn reg_var(t: TablesV, name: NameV, type_: TypeV, is_local: bool) -> TablesV {
    let nv = VarV { name: name.basename(), span: name.span(), type_: type_ };
    if is_local {
        if t.use_locals && lookup_var(t.locals, name.basename()) is None {
            TablesV { locals: t.locals.push(nv), ..t }
        } else {
            t
        }
    } else {
        if lookup_var(t.vars, name.basename()) is None && !global_has(t, name.basename()) {
            TablesV { vars: t.vars.push(nv), ..t }
        } else {
            t
        }
    }
}

/// What one statement contributes to the tables: assignments register
/// their target, compound statements are recursed into, everything
/// else contributes nothing.
pub open spec fn reg_stmt(t: TablesV, st: StmtV) -> TablesV
    decreases st, 1int,
{
    match st {
        StmtV::Repeat { body, .. } => reg_seq(t, body),
        StmtV::Forever { body, .. } => reg_seq(t, body),
        StmtV::Branch { if_body, else_body, .. } => reg_seq(reg_seq(t, if_body), else_body),
        StmtV::Until { body, .. } => reg_seq(t, body),
        StmtV::SetVar { name, type_, is_local, .. } => reg_var(t, name, type_, is_local),
        _ => t,
    }
}

/// `reg_stmt`, folded left to right over a statement list.
pub open spec fn reg_seq(t: TablesV, sts: Seq<StmtV>) -> TablesV
    decreases sts, 0int,
{
    if sts.len() == 0 {
        t
    } else {
        reg_seq(reg_stmt(t, sts[0]), sts.drop_first())
    }
}

/// The view of an optional global table.
pub open spec fn global_view(g: Option<&Vec<Var>>) -> Seq<VarV> {
    match g {
        Some(gs) => vars_view(gs@),
        None => Seq::empty(),
    }
}

/// Packs the exec-side table state into its view.
pub open spec fn tables_of(
    use_locals: bool,
    locals: Seq<Var>,
    vars: Seq<Var>,
    global: Option<&Vec<Var>>,
) -> TablesV {
    TablesV {
        use_locals: use_locals,
        locals: vars_view(locals),
        vars: vars_view(vars),
        global: global_view(global),
        has_global: global is Some,
    }
}

/// `vars_view` distributes over `push`.
pub proof fn lemma_vars_view_push(s: Seq<Var>, v: Var)
    ensures
        vars_view(s.push(v)) == vars_view(s).push(v@),
{
    assert(vars_view(s.push(v)) =~= vars_view(s).push(v@));
}

/// Registers the target of one assignment statement and recurses into
/// loop and branch bodies; no other statement changes the tables.
pub fn visit_stmt(
    stmt: &Stmt,
    locals: &mut Vec<Var>,
    use_locals: bool,
    vars: &mut Vec<Var>,
    global: Option<&Vec<Var>>,
)
    ensures
        tables_of(use_locals, final(locals)@, final(vars)@, global) == reg_stmt(
            tables_of(use_locals, old(locals)@, old(vars)@, global),
            stmt@,
        ),
    decreases stmt,
{
    match stmt {
        Stmt::Repeat { body, .. } => {
            visit_stmts(body, locals, use_locals, vars, global);
        },
        Stmt::Forever { body, .. } => {
            visit_stmts(body, locals, use_locals, vars, global);
        },
        Stmt::Branch { if_body, else_body, .. } => {
            visit_stmts(if_body, locals, use_locals, vars, global);
            visit_stmts(else_body, locals, use_locals, vars, global);
        },
        Stmt::Until { body, .. } => {
            visit_stmts(body, locals, use_locals, vars, global);
        },
        Stmt::SetVar { name, type_, is_local, .. } => {
            let nm = name.basename();
            let sp = name.span();
            if *is_local {
                if use_locals {
                    let known = find_var(locals, nm);
                    if known.is_none() {
                        let nv = Var { name: nm.clone(), span: sp, type_: type_.clone() };
                        proof {
                            lemma_vars_view_push(locals@, nv);
                        }
                        locals.push(nv);
                    }
                }
            } else {
                let known_global = match global {
                    Some(g) => find_var(g, nm).is_some(),
                    None => false,
                };
                if !known_global {
                    let known = find_var(vars, nm);
                    if known.is_none() {
                        let nv = Var { name: nm.clone(), span: sp, type_: type_.clone() };
                        proof {
                            lemma_vars_view_push(vars@, nv);
                        }
                        vars.push(nv);
                    }
                }
            }
            proof {
                assert(tables_of(use_locals, final(locals)@, final(vars)@, global) =~= reg_stmt(
                    tables_of(use_locals, old(locals)@, old(vars)@, global),
                    stmt@,
                ));
            }
        },
        _ => {},
    }
}

/// Walks a statement list in order, registering every assignment.
pub fn visit_stmts(
    stmts: &Vec<Stmt>,
    locals: &mut Vec<Var>,
    use_locals: bool,
    vars: &mut Vec<Var>,
    global: Option<&Vec<Var>>,
)
    ensures
        tables_of(use_locals, final(locals)@, final(vars)@, global) == reg_seq(
            tables_of(use_locals, old(locals)@, old(vars)@, global),
            view_stmts(stmts@),
        ),
    decreases stmts@,
{
    let ghost sv = view_stmts(stmts@);
    let ghost t0 = tables_of(use_locals, old(locals)@, old(vars)@, global);
    proof {
        lemma_view_stmts(stmts@);
        assert(sv.skip(0) =~= sv);
    }
    let mut i: usize = 0;
    while i < stmts.len()
        invariant
            i <= stmts.len(),
            sv == view_stmts(stmts@),
            sv.len() == stmts@.len(),
            forall|j: int| 0 <= j < stmts@.len() ==> sv[j] == #[trigger] stmts@[j]@,
            t0 == tables_of(use_locals, old(locals)@, old(vars)@, global),
            reg_seq(t0, sv) == reg_seq(
                tables_of(use_locals, locals@, vars@, global),
                sv.skip(i as int),
            ),
        decreases stmts.len() - i,
    {
        proof {
            assert(sv.skip(i as int)[0] == sv[i as int]);
            assert(sv.skip(i as int).drop_first() =~= sv.skip(i as int + 1));
        }
        visit_stmt(&stmts[i], locals, use_locals, vars, global);
        i += 1;
    }
    proof {
        assert(sv.skip(stmts.len() as int).len() == 0);
    }
}

/// What one procedure contributes: its body is walked with its local
/// table in scope; the procedure keeps everything but its locals.
pub open spec fn reg_proc(p: ProcV, vars: Seq<VarV>, global: Seq<VarV>, has_global: bool) -> (
    ProcV,
    Seq<VarV>,
) {
    let t = TablesV {
        use_locals: true,
        locals: p.locals,
        vars: vars,
        global: global,
        has_global: has_global,
    };
    let t2 = reg_seq(t, p.body);
    (ProcV { locals: t2.locals, ..p }, t2.vars)
}

/// `reg_proc`, folded over the procedures in order, threading the
/// sprite table through.
pub open spec fn reg_procs(
    procs: Seq<ProcV>,
    vars: Seq<VarV>,
    global: Seq<VarV>,
    has_global: bool,
) -> (Seq<ProcV>, Seq<VarV>)
    decreases procs,
{
    if procs.len() == 0 {
        (Seq::<ProcV>::empty(), vars)
    } else {
        let first = reg_proc(procs[0], vars, global, has_global);
        let rest = reg_procs(procs.drop_first(), first.1, global, has_global);
        (seq![first.0] + rest.0, rest.1)
    }
}

/// What one event body contributes: walked with no local table.
pub open spec fn reg_event(
    body: Seq<StmtV>,
    vars: Seq<VarV>,
    global: Seq<VarV>,
    has_global: bool,
) -> Seq<VarV> {
    let t = TablesV {
        use_locals: false,
        locals: Seq::<VarV>::empty(),
        vars: vars,
        global: global,
        has_global: has_global,
    };
    reg_seq(t, body).vars
}

/// `reg_event`, folded over the event bodies in order.
pub open spec fn reg_events(
    bodies: Seq<Seq<StmtV>>,
    vars: Seq<VarV>,
    global: Seq<VarV>,
    has_global: bool,
) -> Seq<VarV>
    decreases bodies,
{
    if bodies.len() == 0 {
        vars
    } else {
        reg_events(
            bodies.drop_first(),
            reg_event(bodies[0], vars, global, has_global),
            global,
            has_global,
        )
    }
}

/// The event bodies of a sprite view, in order.
pub open spec fn event_bodies(s: SpriteV) -> Seq<Seq<StmtV>> {
    Seq::new(s.events.len(), |i: int| s.events[i].body)
}

/// The whole scope pass over one sprite: procedures first, then
/// events; only the sprite table, and each procedure's local table,
/// change.
pub open spec fn scope_sprite(s: SpriteV, global: Seq<VarV>, has_global: bool) -> SpriteV {
    let pr = reg_procs(s.procs, s.vars, global, has_global);
    let v3 = reg_events(event_bodies(s), pr.1, global, has_global);
    SpriteV { vars: v3, procs: pr.0, ..s }
}

/// The global table a sprite sees: the stage's variables.
pub open spec fn stage_vars(stage: Option<&Sprite>) -> Seq<VarV> {
    match stage {
        Some(s) => vars_view(s.vars@),
        None => Seq::<VarV>::empty(),
    }
}

/// Walks one procedure's body with its local table in scope.
fn scope_proc(p: &mut Proc, vars: &mut Vec<Var>, global: Option<&Vec<Var>>)
    ensures
        final(p)@ == reg_proc(
            old(p)@,
            vars_view(old(vars)@),
            global_view(global),
            global is Some,
        ).0,
        vars_view(final(vars)@) == reg_proc(
            old(p)@,
            vars_view(old(vars)@),
            global_view(global),
            global is Some,
        ).1,
{
    visit_stmts(&p.body, &mut p.locals, true, vars, global);
    proof {
        assert(p@ =~= reg_proc(
            old(p)@,
            vars_view(old(vars)@),
            global_view(global),
            global is Some,
        ).0);
    }
}

/// Walks one event body; event bodies have no local table.
fn scope_event_body(body: &Vec<Stmt>, vars: &mut Vec<Var>, global: Option<&Vec<Var>>)
    ensures
        vars_view(final(vars)@) == reg_event(
            view_stmts(body@),
            vars_view(old(vars)@),
            global_view(global),
            global is Some,
        ),
{
    let mut no_locals: Vec<Var> = Vec::new();
    proof {
        assert(vars_view(no_locals@) =~= Seq::<VarV>::empty());
    }
    visit_stmts(body, &mut no_locals, false, vars, global);
}

/// Runs the scope pass over one sprite: registers every assigned
/// variable of every procedure body (with that procedure's local table
/// in scope) and of every event body, procedures first.
pub fn visit_sprite(sprite: &mut Sprite, stage: Option<&Sprite>)
    ensures
        final(sprite)@ == scope_sprite(old(sprite)@, stage_vars(stage), stage is Some),
{
    let ghost s0 = old(sprite)@;
    let ghost g = stage_vars(stage);
    let ghost hg = stage is Some;
    let global: Option<&Vec<Var>> = match stage {
        Some(s) => Some(&s.vars),
        None => None,
    };
    proof {
        assert(global_view(global) =~= g);
        assert(s0.procs.skip(0) =~= s0.procs);
        assert(procs_view(sprite.procs@) =~= s0.procs);
        assert(s0.procs.subrange(0, 0) + s0.procs.skip(0) =~= s0.procs);
    }
    let ghost target = reg_procs(s0.procs, s0.vars, g, hg);
    let mut i: usize = 0;
    while i < sprite.procs.len()
        invariant
            i <= sprite.procs.len(),
            sprite.procs@.len() == s0.procs.len(),
            global_view(global) == g,
            (global is Some) == hg,
            sprite.name@ == s0.name,
            sprite.lists@.map_values(|l: crate::ast::List| l@) == s0.lists,
            sprite.enums@.map_values(|e: crate::ast::Enum| e@) == s0.enums,
            sprite.structs@.map_values(|st: crate::ast::Struct| st@) == s0.structs,
            sprite.events@.map_values(|e: crate::ast::Event| e@) == s0.events,
            sprite.on_messages@.map_values(|m: crate::ast::OnMessage| m@) == s0.on_messages,
            target == reg_procs(s0.procs, s0.vars, g, hg),
            forall|j: int| i <= j < sprite.procs@.len() ==> #[trigger] sprite.procs@[j]@
                == s0.procs[j],
            target.1 == reg_procs(
                procs_view(sprite.procs@).skip(i as int),
                vars_view(sprite.vars@),
                g,
                hg,
            ).1,
            target.0 =~= procs_view(sprite.procs@).subrange(0, i as int) + reg_procs(
                procs_view(sprite.procs@).skip(i as int),
                vars_view(sprite.vars@),
                g,
                hg,
            ).0,
        decreases sprite.procs.len() - i,
    {
        let ghost pv_pre = procs_view(sprite.procs@);
        proof {
            assert(pv_pre.skip(i as int)[0] == pv_pre[i as int]);
            assert(pv_pre[i as int] == sprite.procs@[i as int]@);
            assert(pv_pre.skip(i as int).drop_first() =~= pv_pre.skip(i as int + 1));
        }
        scope_proc(&mut sprite.procs[i], &mut sprite.vars, global);
        proof {
            let pv_post = procs_view(sprite.procs@);
            assert forall|j: int| 0 <= j < sprite.procs@.len() && j != i implies #[trigger]
                pv_post[j] == pv_pre[j] by {
                assert(pv_post[j] == sprite.procs@[j]@);
            }
            assert(pv_post[i as int] == sprite.procs@[i as int]@);
            assert(pv_post.skip(i as int + 1) =~= pv_pre.skip(i as int + 1));
            assert(pv_post.subrange(0, i as int + 1) =~= pv_pre.subrange(0, i as int).push(
                pv_post[i as int],
            ));
            assert(target.0 =~= pv_post.subrange(0, i as int + 1) + reg_procs(
                pv_post.skip(i as int + 1),
                vars_view(sprite.vars@),
                g,
                hg,
            ).0);
        }
        i += 1;
    }
    proof {
        let pv = procs_view(sprite.procs@);
        assert(pv.skip(sprite.procs@.len() as int).len() == 0);
        assert(target.0 =~= pv.subrange(0, sprite.procs@.len() as int));
        assert(pv.subrange(0, sprite.procs@.len() as int) =~= pv);
        assert(target.1 == vars_view(sprite.vars@));
    }
    let ghost ebodies = event_bodies(s0);
    let ghost vstart = vars_view(sprite.vars@);
    proof {
        assert(ebodies.skip(0) =~= ebodies);
    }
    let mut k: usize = 0;
    while k < sprite.events.len()
        invariant
            k <= sprite.events.len(),
            sprite.events@.len() == ebodies.len(),
            global_view(global) == g,
            (global is Some) == hg,
            sprite.name@ == s0.name,
            sprite.lists@.map_values(|l: crate::ast::List| l@) == s0.lists,
            sprite.enums@.map_values(|e: crate::ast::Enum| e@) == s0.enums,
            sprite.structs@.map_values(|st: crate::ast::Struct| st@) == s0.structs,
            sprite.events@.map_values(|e: crate::ast::Event| e@) == s0.events,
            sprite.on_messages@.map_values(|m: crate::ast::OnMessage| m@) == s0.on_messages,
            procs_view(sprite.procs@) == target.0,
            forall|j: int| 0 <= j < ebodies.len() ==> ebodies[j] == #[trigger] s0.events[j].body,
            reg_events(ebodies, vstart, g, hg) == reg_events(
                ebodies.skip(k as int),
                vars_view(sprite.vars@),
                g,
                hg,
            ),
        decreases sprite.events.len() - k,
    {
        proof {
            assert(ebodies.skip(k as int)[0] == ebodies[k as int]);
            assert(ebodies.skip(k as int).drop_first() =~= ebodies.skip(k as int + 1));
            assert(sprite.events@[k as int]@ == s0.events[k as int]);
            assert(view_stmts(sprite.events@[k as int].body@) == s0.events[k as int].body);
        }
        scope_event_body(&sprite.events[k].body, &mut sprite.vars, global);
        k += 1;
    }
    proof {
        assert(ebodies.skip(sprite.events@.len() as int).len() == 0);
        assert(reg_events(ebodies, vstart, g, hg) == vars_view(sprite.vars@));
        assert(sprite@ =~= scope_sprite(s0, g, hg));
    }
}

/// Runs the scope pass over a whole project: the stage first (it is
/// its own, global scope), then every sprite against the stage.
pub fn visit_project(project: &mut Project)
    ensures
        final(project)@.stage == scope_sprite(
            old(project)@.stage,
            Seq::<VarV>::empty(),
            false,
        ),
        final(project)@.sprites.len() == old(project)@.sprites.len(),
        forall|i: int| 0 <= i < old(project)@.sprites.len()
            ==> #[trigger] final(project)@.sprites[i] == scope_sprite(
            old(project)@.sprites[i],
            final(project)@.stage.vars,
            true,
        ),
{
    let ghost p0 = old(project)@;
    visit_sprite(&mut project.stage, None);
    proof {
        assert(stage_vars(None) =~= Seq::<VarV>::empty());
    }
    let ghost stage1 = project.stage@;
    let mut i: usize = 0;
    while i < project.sprites.len()
        invariant
            i <= project.sprites.len(),
            project.sprites@.len() == p0.sprites.len(),
            project.stage@ == stage1,
            stage1 == scope_sprite(p0.stage, Seq::<VarV>::empty(), false),
            forall|j: int| i <= j < project.sprites@.len() ==> #[trigger] project.sprites@[j]@
                == p0.sprites[j],
            forall|j: int| 0 <= j < i ==> #[trigger] project.sprites@[j]@ == scope_sprite(
                p0.sprites[j],
                stage1.vars,
                true,
            ),
        decreases project.sprites.len() - i,
    {
        proof {
            assert(stage_vars(Some(&project.stage)) == vars_view(project.stage.vars@));
            assert(vars_view(project.stage.vars@) == stage1.vars);
        }
        visit_sprite(&mut project.sprites[i], Some(&project.stage));
        i += 1;
    }
}

} // verus!
