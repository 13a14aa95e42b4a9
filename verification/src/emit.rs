//! The node-graph emitter: serializes resolved expressions into a
//! flat sequence of block nodes. Every node takes one fresh identifier
//! from a single monotonic counter, a parent node is appended before
//! any of its children, and every input slot that references a child
//! resolves to exactly one emitted node that declares the referrer as
//! its parent.

use vstd::prelude::*;
use vstd::string::StringExecFns;
use crate::ast::{
    contains_list, lemma_view_exprs, view_exprs, Expr, ExprV, List, Name, NameV, Proc, ProcV,
    Repr, ReprV, Span, Var,
};
use crate::qualify::{qualified_name, qualify_struct_var_name};

verus! {

broadcast use
    vstd::std_specs::vec::axiom_vec_index_decreases,
    vstd::std_specs::vec::axiom_vec_decreases_to_view,
    vstd::seq::axiom_seq_index_decreases;

/// One input slot value (view).
#[verifier::ext_equal]
pub enum InputArgV {
    NodeRef { id: u64 },
    LitInt { v: i64 },
    LitFloat { bits: u64 },
    LitStr { s: Seq<char> },
}

/// One input slot value: a reference to a child node, or an inline
/// literal shadow value.
#[derive(Debug)]
pub enum InputArg {
    NodeRef { id: u64 },
    LitInt { v: i64 },
    LitFloat { bits: u64 },
    LitStr { s: String },
}

impl View for InputArg {
    type V = InputArgV;

    open spec fn view(&self) -> InputArgV {
        match self {
            InputArg::NodeRef { id } => InputArgV::NodeRef { id: *id },
            InputArg::LitInt { v } => InputArgV::LitInt { v: *v },
            InputArg::LitFloat { bits } => InputArgV::LitFloat { bits: *bits },
            InputArg::LitStr { s } => InputArgV::LitStr { s: s@ },
        }
    }
}

/// The child node a slot references, if it references one.
pub open spec fn ref_target(a: InputArgV) -> Option<u64> {
    match a {
        InputArgV::NodeRef { id } => Some(id),
        _ => None,
    }
}

/// A named input slot (view).
#[verifier::ext_equal]
pub struct InputV {
    pub name: Seq<char>,
    pub arg: InputArgV,
}

/// A named input slot.
#[derive(Debug)]
pub struct Input {
    pub name: String,
    pub arg: InputArg,
}

impl View for Input {
    type V = InputV;

    open spec fn view(&self) -> InputV {
        InputV { name: self.name@, arg: self.arg@ }
    }
}

/// A named field slot (view).
#[verifier::ext_equal]
pub struct FieldSlotV {
    pub name: Seq<char>,
    pub value: Seq<char>,
    pub is_ref: bool,
}

/// A named field slot: a literal string, or (`is_ref`) an identifier
/// reference such as a list name.
#[derive(Debug)]
pub struct FieldSlot {
    pub name: String,
    pub value: String,
    pub is_ref: bool,
}

impl View for FieldSlot {
    type V = FieldSlotV;

    open spec fn view(&self) -> FieldSlotV {
        FieldSlotV { name: self.name@, value: self.value@, is_ref: self.is_ref }
    }
}

/// One emitted block node (view).
#[verifier::ext_equal]
pub struct NodeV {
    pub id: u64,
    pub opcode: Seq<char>,
    pub parent: Option<u64>,
    pub inputs: Seq<InputV>,
    pub fields: Seq<FieldSlotV>,
}

/// One emitted block node.
#[derive(Debug)]
pub struct Node {
    pub id: u64,
    pub opcode: String,
    pub parent: Option<u64>,
    pub inputs: Vec<Input>,
    pub fields: Vec<FieldSlot>,
}

impl View for Node {
    type V = NodeV;

    open spec fn view(&self) -> NodeV {
        NodeV {
            id: self.id,
            opcode: self.opcode@,
            parent: self.parent,
            inputs: self.inputs@.map_values(|i: Input| i@),
            fields: self.fields@.map_values(|f: FieldSlot| f@),
        }
    }
}

/// A recoverable diagnostic kind (view).
#[verifier::ext_equal]
pub enum DiagnosticKindV {
    UnrecognizedArgument { name: Seq<char> },
}

/// A recoverable diagnostic kind.
#[derive(Debug)]
pub enum DiagnosticKind {
    UnrecognizedArgument { name: String },
}

impl View for DiagnosticKind {
    type V = DiagnosticKindV;

    open spec fn view(&self) -> DiagnosticKindV {
        match self {
            DiagnosticKind::UnrecognizedArgument { name } => DiagnosticKindV::UnrecognizedArgument {
                name: name@,
            },
        }
    }
}

/// A collected diagnostic (view).
#[verifier::ext_equal]
pub struct DiagnosticV {
    pub kind: DiagnosticKindV,
    pub span: Span,
}

/// A collected diagnostic: reported once generation completes, never
/// aborting the run.
#[derive(Debug)]
pub struct Diagnostic {
    pub kind: DiagnosticKind,
    pub span: Span,
}

impl View for Diagnostic {
    type V = DiagnosticV;

    open spec fn view(&self) -> DiagnosticV {
        DiagnosticV { kind: self.kind@, span: self.span }
    }
}

/// An internal-consistency failure: generation of the whole run stops.
#[derive(Debug)]
pub enum EmitErrorKind {
    /// The argument count does not match the operation's static arity.
    ArityMismatch,
    /// A menu slot carries something other than a string literal.
    UnsupportedMenuExpr,
}

/// A fatal internal error, with the offending construct's location.
#[derive(Debug)]
pub struct EmitError {
    pub kind: EmitErrorKind,
    pub span: Span,
}

/// The element-wise views of a node list.
pub open spec fn nodes_view(ns: Seq<Node>) -> Seq<NodeV> {
    ns.map_values(|n: Node| n@)
}

/// The element-wise views of a diagnostics list.
pub open spec fn diags_view(ds: Seq<Diagnostic>) -> Seq<DiagnosticV> {
    ds.map_values(|d: Diagnostic| d@)
}

/// No two nodes share an identifier.
pub open spec fn ids_unique(ns: Seq<NodeV>) -> bool {
    forall|i: int, j: int| 0 <= i < j < ns.len() ==> ns[i].id != ns[j].id
}

/// No node carries the given identifier.
pub open spec fn id_unused(ns: Seq<NodeV>, id: u64) -> bool {
    forall|i: int| 0 <= i < ns.len() ==> (#[trigger] ns[i]).id != id
}

/// Every input slot of `n` that references a child resolves to
/// exactly one node of `ns` with that identifier, and that node
/// declares `n` as its parent.
pub open spec fn node_inputs_resolved(ns: Seq<NodeV>, n: NodeV) -> bool {
    forall|k: int| 0 <= k < n.inputs.len() && ref_target((#[trigger] n.inputs[k]).arg) is Some
        ==> exists|j: int|
        0 <= j < ns.len() && (#[trigger] ns[j]).id == ref_target(n.inputs[k].arg)->0 && ns[j].parent
            == Some(n.id)
}

/// Every node from position `start` on has all its input references
/// resolved within the whole list.
pub open spec fn refs_resolved_from(ns: Seq<NodeV>, start: int) -> bool {
    forall|i: int| start <= i < ns.len() ==> node_inputs_resolved(ns, #[trigger] ns[i])
}

/// The number of identifiers the emitter may allocate for one
/// expression: one per operand slot, one for a possible menu
/// sub-node, plus what the operands themselves need.
pub open spec fn weight(e: ExprV) -> nat
    decreases e, 1int,
{
    match e {
        ExprV::Repr { args, .. } => args.len() + 1 + weights(args),
        ExprV::UnOp { val, .. } => 1 + weight(*val),
        ExprV::BinOp { lhs, rhs, .. } => 2 + weight(*lhs) + weight(*rhs),
        _ => 0,
    }
}

/// The summed weights of an argument list.
pub open spec fn weights(es: Seq<ExprV>) -> nat
    decreases es, 0int,
{
    if es.len() == 0 {
        0
    } else {
        weight(es[0]) + weights(es.drop_first())
    }
}

/// `weights` of a prefix never exceeds the whole.
pub proof fn lemma_weights_skip(es: Seq<ExprV>, i: int)
    requires
        0 <= i < es.len(),
    ensures
        weight(es[i]) + weights(es.skip(i + 1)) <= weights(es.skip(i)),
{
    assert(es.skip(i)[0] == es[i]);
    assert(es.skip(i).drop_first() =~= es.skip(i + 1));
}

/// The emitter context: the procedure being generated (if any) and
/// the tables the active scope resolves names against.
pub struct Ctx<'a> {
    pub proc: Option<&'a Proc>,
    pub vars: &'a Vec<Var>,
    pub lists: &'a Vec<List>,
    pub global: Option<(&'a Vec<Var>, &'a Vec<List>)>,
}

/// The emitter context, viewed.
#[verifier::ext_equal]
pub struct CtxV {
    pub proc: Option<ProcV>,
    pub vars: Seq<crate::ast::VarV>,
    pub lists: Seq<crate::ast::ListV>,
    pub global_vars: Seq<crate::ast::VarV>,
    pub global_lists: Seq<crate::ast::ListV>,
    pub has_global: bool,
}

impl<'a> Ctx<'a> {
    pub open spec fn cv(&self) -> CtxV {
        CtxV {
            proc: match self.proc {
                Some(p) => Some(p@),
                None => None,
            },
            vars: crate::ast::vars_view(self.vars@),
            lists: crate::ast::lists_view(self.lists@),
            global_vars: match self.global {
                Some(g) => crate::ast::vars_view(g.0@),
                None => Seq::<crate::ast::VarV>::empty(),
            },
            global_lists: match self.global {
                Some(g) => crate::ast::lists_view(g.1@),
                None => Seq::<crate::ast::ListV>::empty(),
            },
            has_global: self.global is Some,
        }
    }
}

/// Whether the name is a declared list in the context's scope.
pub open spec fn ctx_is_list(c: CtxV, name: Seq<char>) -> bool {
    crate::ast::has_list(c.lists, name) || (c.has_global && crate::ast::has_list(
        c.global_lists,
        name,
    ))
}

/// Whether the name is a declared variable in the context's scope.
pub open spec fn ctx_is_var(c: CtxV, name: Seq<char>) -> bool {
    crate::ast::lookup_var(c.vars, name) is Some || (c.has_global && crate::ast::lookup_var(
        c.global_vars,
        name,
    ) is Some)
}

/// Everything of the emitter before the call is kept: the nodes and
/// diagnostics already emitted stand unchanged as a prefix, and the
/// identifier counter never moves backwards.
pub open spec fn emits_frame(pre: Sb3, post: Sb3) -> bool {
    &&& post.nv().len() >= pre.nv().len()
    &&& post.nv().subrange(0, pre.nv().len() as int) == pre.nv()
    &&& pre.next_id <= post.next_id
    &&& post.dv().len() >= pre.dv().len()
    &&& post.dv().subrange(0, pre.dv().len() as int) == pre.dv()
}

/// Every node the call appended carries either the identifier the
/// caller reserved for it or a fresh one from the counter.
pub open spec fn suffix_ids(pre: Sb3, post: Sb3, this_id: u64) -> bool {
    forall|j: int| pre.nv().len() <= j < post.nv().len() ==> (#[trigger] post.nv()[j]).id
        == this_id || (pre.next_id <= post.nv()[j].id < post.next_id)
}

/// The call appended a node with the reserved identifier, declaring
/// the given parent.
pub open spec fn emitted_node(pre: Sb3, post: Sb3, this_id: u64, parent_id: u64) -> bool {
    exists|j: int| pre.nv().len() <= j < post.nv().len() && (#[trigger] post.nv()[j]).id == this_id
        && post.nv()[j].parent == Some(parent_id)
}

/// Whether the procedure declares an argument of this name.
pub open spec fn has_arg(p: ProcV, name: Seq<char>) -> bool {
    exists|i: int| 0 <= i < p.args.len() && (#[trigger] p.args[i]).0 == name
}

/// Whether an argument reference resolves: a procedure is being
/// generated and it declares the referenced base name.
pub open spec fn arg_resolves(c: CtxV, name: NameV) -> bool {
    match c.proc {
        Some(p) => has_arg(p, name.basename()),
        None => false,
    }
}

/// The value the argument-reporter node carries: the struct-qualified
/// name for a dotted reference, the base name otherwise.
pub open spec fn arg_value(name: NameV) -> Seq<char> {
    match name.fieldname() {
        Some(f) => qualified_name(name.basename(), f),
        None => name.basename(),
    }
}

/// The emitter: the nodes emitted so far, the monotonic identifier
/// counter, and the diagnostics collected during the run.
#[derive(Debug)]
pub struct Sb3 {
    pub nodes: Vec<Node>,
    pub next_id: u64,
    pub diagnostics: Vec<Diagnostic>,
}

impl Sb3 {
    /// The views of the emitted nodes.
    pub open spec fn nv(&self) -> Seq<NodeV> {
        nodes_view(self.nodes@)
    }

    /// The views of the collected diagnostics.
    pub open spec fn dv(&self) -> Seq<DiagnosticV> {
        diags_view(self.diagnostics@)
    }

    /// The emitter's invariant: identifiers are unique and all below
    /// the counter.
    pub open spec fn wf(&self) -> bool {
        ids_unique(self.nv()) && forall|i: int|
            0 <= i < self.nv().len() ==> (#[trigger] self.nv()[i]).id < self.next_id
    }

    /// A fresh emitter: no nodes, no diagnostics, counter at zero.
    pub fn new() -> (r: Sb3)
        ensures
            r.wf(),
            r.nv() == Seq::<NodeV>::empty(),
            r.dv() == Seq::<DiagnosticV>::empty(),
            r.next_id == 0,
    {
        let r = Sb3 { nodes: Vec::new(), next_id: 0, diagnostics: Vec::new() };
        proof {
            assert(r.nv() =~= Seq::<NodeV>::empty());
            assert(r.dv() =~= Seq::<DiagnosticV>::empty());
        }
        r
    }

    /// Takes one fresh identifier from the monotonic counter.
    pub fn new_id(&mut self) -> (r: u64)
        requires
            old(self).next_id < u64::MAX,
        ensures
            r == old(self).next_id,
            final(self).next_id == old(self).next_id + 1,
            final(self).nodes == old(self).nodes,
            final(self).diagnostics == old(self).diagnostics,
            old(self).wf() ==> final(self).wf(),
    {
        let r = self.next_id;
        self.next_id = self.next_id + 1;
        r
    }

    /// Appends one fully built node. The identifier must be fresh.
    fn push_node(&mut self, n: Node)
        requires
            old(self).wf(),
            n.id < old(self).next_id,
            id_unused(old(self).nv(), n.id),
        ensures
            final(self).wf(),
            final(self).nodes@ == old(self).nodes@.push(n),
            final(self).nv() == old(self).nv().push(n@),
            final(self).next_id == old(self).next_id,
            final(self).diagnostics == old(self).diagnostics,
    {
        let ghost pre = self.nv();
        self.nodes.push(n);
        proof {
            assert(self.nv() =~= pre.push(n@));
        }
    }

    /// Emits the leaf node for a procedure-argument reference. An
    /// unresolved reference reports exactly one "unrecognized
    /// argument" diagnostic and emits a harmless placeholder carrying
    /// the bare name, so that generation continues.
    pub fn arg(&mut self, ctx: &Ctx, this_id: u64, parent_id: u64, name: &Name)
        requires
            old(self).wf(),
            this_id < old(self).next_id,
            id_unused(old(self).nv(), this_id),
        ensures
            final(self).wf(),
            final(self).next_id == old(self).next_id,
            final(self).nv() == old(self).nv().push(
                NodeV {
                    id: this_id,
                    opcode: "argument_reporter_string_number"@,
                    parent: Some(parent_id),
                    inputs: Seq::<InputV>::empty(),
                    fields: seq![
                        FieldSlotV {
                            name: "VALUE"@,
                            value: if arg_resolves(ctx.cv(), name@) {
                                arg_value(name@)
                            } else {
                                name@.basename()
                            },
                            is_ref: false,
                        },
                    ],
                },
            ),
            final(self).dv() == if arg_resolves(ctx.cv(), name@) {
                old(self).dv()
            } else {
                old(self).dv().push(
                    DiagnosticV {
                        kind: DiagnosticKindV::UnrecognizedArgument { name: name@.basename() },
                        span: name@.span(),
                    },
                )
            },
    {
        let basename = name.basename();
        let resolved: bool = match ctx.proc {
            Some(p) => {
                let mut found = false;
                let mut i: usize = 0;
                while i < p.args.len()
                    invariant
                        i <= p.args.len(),
                        found == exists|j: int|
                            0 <= j < i && (#[trigger] p@.args[j]).0 == basename@,
                    decreases p.args.len() - i,
                {
                    if p.args[i].name == *basename {
                        proof {
                            assert(p@.args[i as int].0 == basename@);
                        }
                        found = true;
                    }
                    proof {
                        assert(p@.args[i as int] == (p.args@[i as int].name@,
                        p.args@[i as int].span));
                    }
                    i += 1;
                }
                proof {
                    assert(found == has_arg(p@, basename@));
                }
                found
            },
            None => false,
        };
        let ghost pre_d = self.dv();
        if !resolved {
            let d = Diagnostic {
                kind: DiagnosticKind::UnrecognizedArgument { name: basename.clone() },
                span: name.span(),
            };
            self.diagnostics.push(d);
            proof {
                assert(self.dv() =~= pre_d.push(
                    DiagnosticV {
                        kind: DiagnosticKindV::UnrecognizedArgument { name: name@.basename() },
                        span: name@.span(),
                    },
                ));
            }
        }
        let value: String = if resolved {
            match name.fieldname() {
                Some(fieldname) => qualify_struct_var_name(fieldname, basename),
                None => basename.clone(),
            }
        } else {
            basename.clone()
        };
        let mut fields: Vec<FieldSlot> = Vec::new();
        fields.push(
            FieldSlot { name: String::from_str("VALUE"), value: value, is_ref: false },
        );
        let n = Node {
            id: this_id,
            opcode: String::from_str("argument_reporter_string_number"),
            parent: Some(parent_id),
            inputs: Vec::new(),
            fields: fields,
        };
        proof {
            assert(n@.inputs =~= Seq::<InputV>::empty());
            assert(n@.fields =~= seq![
                FieldSlotV {
                    name: "VALUE"@,
                    value: if arg_resolves(ctx.cv(), name@) {
                        arg_value(name@)
                    } else {
                        name@.basename()
                    },
                    is_ref: false,
                },
            ]);
        }
        self.push_node(n);
    }
}

/// The opcode a unary operator's node carries.
pub open spec fn unop_opcode(op: crate::ast::UnOp) -> Seq<char> {
    match op {
        crate::ast::UnOp::Minus => "operator_subtract"@,
        crate::ast::UnOp::Not => "operator_not"@,
        crate::ast::UnOp::Floor => "operator_mathop"@,
    }
}

/// The input slot name of a unary operator.
pub open spec fn unop_input(op: crate::ast::UnOp) -> Seq<char> {
    match op {
        crate::ast::UnOp::Minus => "NUM2"@,
        crate::ast::UnOp::Not => "OPERAND"@,
        crate::ast::UnOp::Floor => "NUM"@,
    }
}

/// The static field slots a unary operator's node carries.
pub open spec fn unop_fields(op: crate::ast::UnOp) -> Seq<FieldSlotV> {
    match op {
        crate::ast::UnOp::Floor => seq![
            FieldSlotV { name: "OPERATOR"@, value: "floor"@, is_ref: false },
        ],
        _ => Seq::<FieldSlotV>::empty(),
    }
}

/// The opcode a binary operator's generic node carries.
pub open spec fn binop_opcode(op: crate::ast::BinOp) -> Seq<char> {
    match op {
        crate::ast::BinOp::Add => "operator_add"@,
        crate::ast::BinOp::Sub => "operator_subtract"@,
        crate::ast::BinOp::Mul => "operator_multiply"@,
        crate::ast::BinOp::Div => "operator_divide"@,
        crate::ast::BinOp::FloorDiv => "operator_divide"@,
        crate::ast::BinOp::Lt => "operator_lt"@,
        crate::ast::BinOp::Gt => "operator_gt"@,
        crate::ast::BinOp::Eq => "operator_equals"@,
        crate::ast::BinOp::Le => "operator_lt"@,
        crate::ast::BinOp::Ge => "operator_gt"@,
        crate::ast::BinOp::Ne => "operator_equals"@,
        crate::ast::BinOp::Of => "operator_letter_of"@,
    }
}

/// The left input slot name of a binary operator.
pub open spec fn binop_lhs(op: crate::ast::BinOp) -> Seq<char> {
    match op {
        crate::ast::BinOp::Lt => "OPERAND1"@,
        crate::ast::BinOp::Gt => "OPERAND1"@,
        crate::ast::BinOp::Eq => "OPERAND1"@,
        crate::ast::BinOp::Le => "OPERAND1"@,
        crate::ast::BinOp::Ge => "OPERAND1"@,
        crate::ast::BinOp::Ne => "OPERAND1"@,
        crate::ast::BinOp::Of => "LETTER"@,
        _ => "NUM1"@,
    }
}

/// The right input slot name of a binary operator.
pub open spec fn binop_rhs(op: crate::ast::BinOp) -> Seq<char> {
    match op {
        crate::ast::BinOp::Lt => "OPERAND2"@,
        crate::ast::BinOp::Gt => "OPERAND2"@,
        crate::ast::BinOp::Eq => "OPERAND2"@,
        crate::ast::BinOp::Le => "OPERAND2"@,
        crate::ast::BinOp::Ge => "OPERAND2"@,
        crate::ast::BinOp::Ne => "OPERAND2"@,
        crate::ast::BinOp::Of => "STRING"@,
        _ => "NUM2"@,
    }
}

/// The input slot value standing for one operand: literals are
/// embedded inline, anything else references the pre-allocated child.
pub open spec fn input_of(e: ExprV, id: u64) -> InputArgV {
    match e {
        ExprV::Int(v) => InputArgV::LitInt { v: v },
        ExprV::Float(b) => InputArgV::LitFloat { bits: b },
        ExprV::Str(t) => InputArgV::LitStr { s: t },
        _ => InputArgV::NodeRef { id: id },
    }
}

/// Whether emission of this expression can run to completion: every
/// primitive operation in it has the argument count its descriptor
/// declares, and every menu slot carries a string literal.
pub open spec fn emittable(e: ExprV) -> bool
    decreases e, 1int,
{
    match e {
        ExprV::Repr { repr, args, .. } => {
            &&& args.len() == repr.arg_names.len()
            &&& menu_ok(repr, args)
            &&& emittable_all(args)
        },
        ExprV::UnOp { val, .. } => emittable(*val),
        ExprV::BinOp { lhs, rhs, .. } => emittable(*lhs) && emittable(*rhs),
        _ => true,
    }
}

/// Every expression of the list is emittable.
pub open spec fn emittable_all(es: Seq<ExprV>) -> bool
    decreases es, 0int,
{
    if es.len() == 0 {
        true
    } else {
        emittable(es[0]) && emittable_all(es.drop_first())
    }
}

/// Every menu slot of the operation carries a string literal.
pub open spec fn menu_ok(repr: ReprV, args: Seq<ExprV>) -> bool {
    match repr.menu {
        Some(m) => forall|i: int|
            0 <= i < args.len() && i < repr.arg_names.len() && (#[trigger] repr.arg_names[i])
                == m.input ==> args[i] is Str,
        None => true,
    }
}

impl Sb3 {
    /// Builds the input slot for one operand.
    fn input(slot: String, e: &Expr, id: u64) -> (r: Input)
        ensures
            r@ == (InputV { name: slot@, arg: input_of(e@, id) }),
    {
        let arg = match e {
            Expr::Int(v) => InputArg::LitInt { v: *v },
            Expr::Float(b) => InputArg::LitFloat { bits: *b },
            Expr::Str(t) => InputArg::LitStr { s: t.clone() },
            _ => InputArg::NodeRef { id: id },
        };
        Input { name: slot, arg: arg }
    }

    /// Emits the dedicated "item of list" node: one input for the
    /// index, one field referencing the list by name — never a
    /// generic binary-operator node.
    pub fn list_index(
        &mut self,
        ctx: &Ctx,
        this_id: u64,
        parent_id: u64,
        name: &String,
        index: &Expr,
    ) -> (r: Result<(), EmitError>)
        requires
            old(self).wf(),
            this_id < old(self).next_id,
            id_unused(old(self).nv(), this_id),
            old(self).next_id + 1 + weight(index@) <= u64::MAX,
        ensures
            final(self).wf(),
            emits_frame(*old(self), *final(self)),
            suffix_ids(*old(self), *final(self), this_id),
            final(self).next_id <= old(self).next_id + 1 + weight(index@),
            r is Ok <==> emittable(index@),
            r is Ok ==> final(self).nv().len() > old(self).nv().len(),
            r is Ok ==> final(self).nv()[old(self).nv().len() as int] == (NodeV {
                id: this_id,
                opcode: "data_itemoflist"@,
                parent: Some(parent_id),
                inputs: seq![
                    InputV { name: "INDEX"@, arg: input_of(index@, old(self).next_id) },
                ],
                fields: seq![FieldSlotV { name: "LIST"@, value: name@, is_ref: true }],
            }),
            r is Ok ==> refs_resolved_from(final(self).nv(), old(self).nv().len() as int),
        decreases index@, 3int,
    {
        let ghost pre = *self;
        let index_id = self.new_id();
        let inp = Self::input(String::from_str("INDEX"), index, index_id);
        let mut inputs: Vec<Input> = Vec::new();
        inputs.push(inp);
        let mut fields: Vec<FieldSlot> = Vec::new();
        fields.push(FieldSlot { name: String::from_str("LIST"), value: name.clone(), is_ref: true });
        let n = Node {
            id: this_id,
            opcode: String::from_str("data_itemoflist"),
            parent: Some(parent_id),
            inputs: inputs,
            fields: fields,
        };
        proof {
            assert(n@.inputs =~= seq![
                InputV { name: "INDEX"@, arg: input_of(index@, index_id) },
            ]);
            assert(n@.fields =~= seq![FieldSlotV { name: "LIST"@, value: name@, is_ref: true }]);
        }
        self.push_node(n);
        let ghost mid = *self;
        proof {
            assert(decreases_to!(index@, 3int => index@, 2int));
        }
        let res = self.expr(ctx, index, index_id, this_id);
        proof {
            assert(mid.nv() == pre.nv().push(n@));
            assert(emits_frame(pre, *self)) by {
                assert(self.nv().subrange(0, mid.nv().len() as int) == mid.nv());
                assert(self.nv().subrange(0, pre.nv().len() as int) =~= pre.nv());
                assert(self.dv().subrange(0, pre.dv().len() as int) =~= pre.dv());
            }
            assert(suffix_ids(pre, *self, this_id)) by {
                assert forall|j: int| pre.nv().len() <= j < self.nv().len() implies (#[trigger]
                    self.nv()[j]).id == this_id || (pre.next_id <= self.nv()[j].id
                    < self.next_id) by {
                    if j == pre.nv().len() {
                        assert(self.nv()[j] == mid.nv()[j]);
                    } else {
                        assert(self.nv()[j].id == index_id || mid.next_id <= self.nv()[j].id
                            < self.next_id);
                    }
                }
            }
            if res is Ok {
                assert(self.nv()[pre.nv().len() as int] == n@) by {
                    assert(self.nv().subrange(0, mid.nv().len() as int) == mid.nv());
                    assert(self.nv()[pre.nv().len() as int] == mid.nv()[pre.nv().len() as int]);
                }
                assert(refs_resolved_from(self.nv(), pre.nv().len() as int)) by {
                    assert forall|i: int| pre.nv().len() <= i < self.nv().len()
                        implies node_inputs_resolved(self.nv(), #[trigger] self.nv()[i]) by {
                        if i == pre.nv().len() {
                            let me = self.nv()[i];
                            assert forall|k: int| 0 <= k < me.inputs.len() && ref_target(
                                (#[trigger] me.inputs[k]).arg,
                            ) is Some implies exists|j: int|
                                0 <= j < self.nv().len() && (#[trigger] self.nv()[j]).id
                                    == ref_target(me.inputs[k].arg)->0 && self.nv()[j].parent
                                    == Some(me.id) by {
                                assert(me.inputs[0].arg == input_of(index@, index_id));
                                if !index@.is_literal() {
                                    let j = choose|j: int|
                                        mid.nv().len() <= j < self.nv().len() && (#[trigger]
                                        self.nv()[j]).id == index_id && self.nv()[j].parent
                                            == Some(this_id);
                                    assert(self.nv()[j].id == ref_target(me.inputs[k].arg)->0);
                                }
                            }
                        } else {
                            assert(node_inputs_resolved(self.nv(), self.nv()[i]));
                        }
                    }
                }
            }
        }
        match res {
            Ok(_) => Ok(()),
            Err(e) => Err(e),
        }
    }

    /// Emits a unary operator node: the operand slot is filled (inline
    /// for a literal, a child reference otherwise), the node is
    /// closed, and only then is the operand emitted as a sibling.
    pub fn un_op(
        &mut self,
        ctx: &Ctx,
        this_id: u64,
        parent_id: u64,
        op: crate::ast::UnOp,
        span: &Span,
        opr: &Expr,
    ) -> (r: Result<(), EmitError>)
        requires
            old(self).wf(),
            this_id < old(self).next_id,
            id_unused(old(self).nv(), this_id),
            old(self).next_id + 1 + weight(opr@) <= u64::MAX,
        ensures
            final(self).wf(),
            emits_frame(*old(self), *final(self)),
            suffix_ids(*old(self), *final(self), this_id),
            final(self).next_id <= old(self).next_id + 1 + weight(opr@),
            r is Ok <==> emittable(opr@),
            r is Ok ==> final(self).nv().len() > old(self).nv().len(),
            r is Ok ==> final(self).nv()[old(self).nv().len() as int] == (NodeV {
                id: this_id,
                opcode: unop_opcode(op),
                parent: Some(parent_id),
                inputs: seq![
                    InputV { name: unop_input(op), arg: input_of(opr@, old(self).next_id) },
                ],
                fields: unop_fields(op),
            }),
            r is Ok ==> refs_resolved_from(final(self).nv(), old(self).nv().len() as int),
        decreases (ExprV::UnOp { op: op, span: *span, val: Box::new(opr@) }), 1int,
    {
        let ghost pre = *self;
        let opr_id = self.new_id();
        let slot = match op {
            crate::ast::UnOp::Minus => String::from_str("NUM2"),
            crate::ast::UnOp::Not => String::from_str("OPERAND"),
            crate::ast::UnOp::Floor => String::from_str("NUM"),
        };
        let opcode = match op {
            crate::ast::UnOp::Minus => String::from_str("operator_subtract"),
            crate::ast::UnOp::Not => String::from_str("operator_not"),
            crate::ast::UnOp::Floor => String::from_str("operator_mathop"),
        };
        let inp = Self::input(slot, opr, opr_id);
        let mut inputs: Vec<Input> = Vec::new();
        inputs.push(inp);
        let mut fields: Vec<FieldSlot> = Vec::new();
        if matches!(op, crate::ast::UnOp::Floor) {
            fields.push(
                FieldSlot {
                    name: String::from_str("OPERATOR"),
                    value: String::from_str("floor"),
                    is_ref: false,
                },
            );
        }
        let n = Node {
            id: this_id,
            opcode: opcode,
            parent: Some(parent_id),
            inputs: inputs,
            fields: fields,
        };
        proof {
            assert(n@.inputs =~= seq![
                InputV { name: unop_input(op), arg: input_of(opr@, opr_id) },
            ]);
            assert(n@.fields =~= unop_fields(op));
        }
        self.push_node(n);
        let ghost mid = *self;
        proof {
            let w = ExprV::UnOp { op: op, span: *span, val: Box::new(opr@) };
            assert(decreases_to!(w => w->UnOp_val));
            assert(*w->UnOp_val == opr@);
        }
        let res = self.expr(ctx, opr, opr_id, this_id);
        proof {
            assert(mid.nv() == pre.nv().push(n@));
            assert(emits_frame(pre, *self)) by {
                assert(self.nv().subrange(0, mid.nv().len() as int) == mid.nv());
                assert(self.nv().subrange(0, pre.nv().len() as int) =~= pre.nv());
                assert(self.dv().subrange(0, pre.dv().len() as int) =~= pre.dv());
            }
            assert(suffix_ids(pre, *self, this_id)) by {
                assert forall|j: int| pre.nv().len() <= j < self.nv().len() implies (#[trigger]
                    self.nv()[j]).id == this_id || (pre.next_id <= self.nv()[j].id
                    < self.next_id) by {
                    if j == pre.nv().len() {
                        assert(self.nv()[j] == mid.nv()[j]);
                    } else {
                        assert(self.nv()[j].id == opr_id || mid.next_id <= self.nv()[j].id
                            < self.next_id);
                    }
                }
            }
            if res is Ok {
                assert(self.nv()[pre.nv().len() as int] == n@) by {
                    assert(self.nv().subrange(0, mid.nv().len() as int) == mid.nv());
                    assert(self.nv()[pre.nv().len() as int] == mid.nv()[pre.nv().len() as int]);
                }
                assert(refs_resolved_from(self.nv(), pre.nv().len() as int)) by {
                    assert forall|i: int| pre.nv().len() <= i < self.nv().len()
                        implies node_inputs_resolved(self.nv(), #[trigger] self.nv()[i]) by {
                        if i == pre.nv().len() {
                            let me = self.nv()[i];
                            assert forall|k: int| 0 <= k < me.inputs.len() && ref_target(
                                (#[trigger] me.inputs[k]).arg,
                            ) is Some implies exists|j: int|
                                0 <= j < self.nv().len() && (#[trigger] self.nv()[j]).id
                                    == ref_target(me.inputs[k].arg)->0 && self.nv()[j].parent
                                    == Some(me.id) by {
                                assert(me.inputs[0].arg == input_of(opr@, opr_id));
                                if !opr@.is_literal() {
                                    let j = choose|j: int|
                                        mid.nv().len() <= j < self.nv().len() && (#[trigger]
                                        self.nv()[j]).id == opr_id && self.nv()[j].parent
                                            == Some(this_id);
                                    assert(self.nv()[j].id == ref_target(me.inputs[k].arg)->0);
                                }
                            }
                        } else {
                            assert(node_inputs_resolved(self.nv(), self.nv()[i]));
                        }
                    }
                }
            }
        }
        match res {
            Ok(_) => Ok(()),
            Err(e) => Err(e),
        }
    }
    /// Emits a generic binary operator node — except that an `Of`
    /// whose left operand is a bare name resolving to a declared list
    /// is emitted as the dedicated "item of list" node instead.
    pub fn bin_op(
        &mut self,
        ctx: &Ctx,
        this_id: u64,
        parent_id: u64,
        op: crate::ast::BinOp,
        span: &Span,
        lhs: &Expr,
        rhs: &Expr,
    ) -> (r: Result<(), EmitError>)
        requires
            old(self).wf(),
            this_id < old(self).next_id,
            id_unused(old(self).nv(), this_id),
            old(self).next_id + 2 + weight(lhs@) + weight(rhs@) <= u64::MAX,
        ensures
            final(self).wf(),
            emits_frame(*old(self), *final(self)),
            suffix_ids(*old(self), *final(self), this_id),
            final(self).next_id <= old(self).next_id + 2 + weight(lhs@) + weight(rhs@),
            of_list_case(ctx.cv(), op, lhs@) ==> {
                &&& (r is Ok <==> emittable(rhs@))
                &&& (r is Ok ==> final(self).nv().len() > old(self).nv().len()
                    && final(self).nv()[old(self).nv().len() as int] == (NodeV {
                    id: this_id,
                    opcode: "data_itemoflist"@,
                    parent: Some(parent_id),
                    inputs: seq![
                        InputV { name: "INDEX"@, arg: input_of(rhs@, old(self).next_id) },
                    ],
                    fields: seq![
                        FieldSlotV { name: "LIST"@, value: lhs@->Name_name, is_ref: true },
                    ],
                }))
            },
            !of_list_case(ctx.cv(), op, lhs@) ==> {
                &&& (r is Ok <==> emittable(lhs@) && emittable(rhs@))
                &&& (r is Ok ==> final(self).nv().len() > old(self).nv().len()
                    && final(self).nv()[old(self).nv().len() as int] == (NodeV {
                    id: this_id,
                    opcode: binop_opcode(op),
                    parent: Some(parent_id),
                    inputs: seq![
                        InputV { name: binop_lhs(op), arg: input_of(lhs@, old(self).next_id) },
                        InputV {
                            name: binop_rhs(op),
                            arg: input_of(rhs@, (old(self).next_id + 1) as u64),
                        },
                    ],
                    fields: Seq::<FieldSlotV>::empty(),
                }))
            },
            r is Ok ==> refs_resolved_from(final(self).nv(), old(self).nv().len() as int),
        decreases (ExprV::BinOp {
            op: op,
            span: *span,
            lhs: Box::new(lhs@),
            rhs: Box::new(rhs@),
        }), 1int,
    {
        let ghost pre = *self;
        if matches!(op, crate::ast::BinOp::Of) {
            let list_name: Option<&String> = match lhs {
                Expr::Name { name, .. } => {
                    let mut is_l = contains_list(ctx.lists, name);
                    if !is_l {
                        match ctx.global {
                            Some((_, gl)) => {
                                is_l = contains_list(gl, name);
                            },
                            None => {},
                        }
                    }
                    if is_l {
                        Some(name)
                    } else {
                        None
                    }
                },
                _ => None,
            };
            match list_name {
                Some(name) => {
                    proof {
                        assert(of_list_case(ctx.cv(), op, lhs@));
                    }
                    proof {
                        let w = ExprV::BinOp {
                            op: op,
                            span: *span,
                            lhs: Box::new(lhs@),
                            rhs: Box::new(rhs@),
                        };
                        assert(decreases_to!(w => w->BinOp_rhs));
                        assert(*w->BinOp_rhs == rhs@);
                    }
                    return self.list_index(ctx, this_id, parent_id, name, rhs);
                },
                None => {
                    proof {
                        assert(!of_list_case(ctx.cv(), op, lhs@));
                    }
                },
            }
        }
        proof {
            assert(!of_list_case(ctx.cv(), op, lhs@));
        }
        let lhs_id = self.new_id();
        let rhs_id = self.new_id();
        let lslot = Self::slot_string(binop_lhs_str(op));
        let rslot = Self::slot_string(binop_rhs_str(op));
        let linp = Self::input(lslot, lhs, lhs_id);
        let rinp = Self::input(rslot, rhs, rhs_id);
        let mut inputs: Vec<Input> = Vec::new();
        inputs.push(linp);
        inputs.push(rinp);
        let n = Node {
            id: this_id,
            opcode: Self::slot_string(binop_opcode_str(op)),
            parent: Some(parent_id),
            inputs: inputs,
            fields: Vec::new(),
        };
        proof {
            assert(n@.inputs =~= seq![
                InputV { name: binop_lhs(op), arg: input_of(lhs@, lhs_id) },
                InputV { name: binop_rhs(op), arg: input_of(rhs@, rhs_id) },
            ]);
            assert(n@.fields =~= Seq::<FieldSlotV>::empty());
        }
        self.push_node(n);
        let ghost mid = *self;
        proof {
            let w = ExprV::BinOp { op: op, span: *span, lhs: Box::new(lhs@), rhs: Box::new(rhs@) };
            assert(decreases_to!(w => w->BinOp_lhs));
            assert(decreases_to!(w => w->BinOp_rhs));
            assert(*w->BinOp_lhs == lhs@);
            assert(*w->BinOp_rhs == rhs@);
        }
        proof {
            assert(id_unused(mid.nv(), lhs_id)) by {
                assert forall|j: int| 0 <= j < mid.nv().len() implies (#[trigger] mid.nv()[j]).id
                    != lhs_id by {
                    if j < pre.nv().len() {
                        assert(mid.nv()[j] == pre.nv()[j]);
                    }
                }
            }
        }
        let res1 = self.expr(ctx, lhs, lhs_id, this_id);
        let ghost mid2 = *self;
        proof {
            if res1 is Ok {
                assert(id_unused(mid2.nv(), rhs_id)) by {
                    assert forall|j: int| 0 <= j < mid2.nv().len() implies (#[trigger]
                        mid2.nv()[j]).id != rhs_id by {
                        if j < mid.nv().len() {
                            assert(mid2.nv()[j] == mid.nv()[j]);
                            if j < pre.nv().len() {
                                assert(mid.nv()[j] == pre.nv()[j]);
                            }
                        } else {
                            assert(mid2.nv()[j].id == lhs_id || mid.next_id <= mid2.nv()[j].id
                                < mid2.next_id);
                        }
                    }
                }
            }
        }
        if res1.is_err() {
            proof {
                assert(emits_frame(pre, *self)) by {
                    assert(self.nv().subrange(0, pre.nv().len() as int) =~= pre.nv());
                    assert(self.dv().subrange(0, pre.dv().len() as int) =~= pre.dv());
                }
                assert(suffix_ids(pre, *self, this_id)) by {
                    assert forall|j: int| pre.nv().len() <= j < self.nv().len() implies (#[trigger]
                        self.nv()[j]).id == this_id || (pre.next_id <= self.nv()[j].id
                        < self.next_id) by {
                        if j == pre.nv().len() {
                            assert(self.nv()[j] == mid.nv()[j]);
                        }
                    }
                }
            }
            return res1;
        }
        let res2 = self.expr(ctx, rhs, rhs_id, this_id);
        proof {
            assert(mid.nv() == pre.nv().push(n@));
            assert(mid2.nv().subrange(0, mid.nv().len() as int) == mid.nv());
            assert(self.nv().subrange(0, mid2.nv().len() as int) == mid2.nv());
            assert forall|j: int| 0 <= j < mid2.nv().len() implies self.nv()[j] == mid2.nv()[j] by {
                assert(self.nv().subrange(0, mid2.nv().len() as int)[j] == self.nv()[j]);
            }
            assert forall|j: int| 0 <= j < mid.nv().len() implies mid2.nv()[j] == mid.nv()[j] by {
                assert(mid2.nv().subrange(0, mid.nv().len() as int)[j] == mid2.nv()[j]);
            }
            assert(self.dv().subrange(0, mid2.dv().len() as int) == mid2.dv());
            assert(mid2.dv().subrange(0, mid.dv().len() as int) == mid.dv());
            assert forall|j: int| 0 <= j < mid2.dv().len() implies self.dv()[j] == mid2.dv()[j] by {
                assert(self.dv().subrange(0, mid2.dv().len() as int)[j] == self.dv()[j]);
            }
            assert(emits_frame(pre, *self)) by {
                assert(self.nv().subrange(0, pre.nv().len() as int) =~= pre.nv());
                assert(self.dv().subrange(0, pre.dv().len() as int) =~= pre.dv());
            }
            assert(suffix_ids(pre, *self, this_id)) by {
                assert forall|j: int| pre.nv().len() <= j < self.nv().len() implies (#[trigger]
                    self.nv()[j]).id == this_id || (pre.next_id <= self.nv()[j].id
                    < self.next_id) by {
                    if j == pre.nv().len() {
                        assert(self.nv()[j] == mid.nv()[j]);
                    } else if j < mid2.nv().len() {
                        assert(self.nv()[j] == mid2.nv()[j]);
                        assert(mid2.nv()[j].id == lhs_id || mid.next_id <= mid2.nv()[j].id
                            < mid2.next_id);
                    } else {
                        assert(self.nv()[j].id == rhs_id || mid2.next_id <= self.nv()[j].id
                            < self.next_id);
                    }
                }
            }
            if res2 is Ok {
                assert(self.nv()[pre.nv().len() as int] == n@) by {
                    assert(self.nv()[pre.nv().len() as int] == mid.nv()[pre.nv().len() as int]);
                }
                assert(refs_resolved_from(self.nv(), pre.nv().len() as int)) by {
                    assert forall|i: int| pre.nv().len() <= i < self.nv().len()
                        implies node_inputs_resolved(self.nv(), #[trigger] self.nv()[i]) by {
                        if i == pre.nv().len() {
                            let me = self.nv()[i];
                            assert forall|k: int| 0 <= k < me.inputs.len() && ref_target(
                                (#[trigger] me.inputs[k]).arg,
                            ) is Some implies exists|j: int|
                                0 <= j < self.nv().len() && (#[trigger] self.nv()[j]).id
                                    == ref_target(me.inputs[k].arg)->0 && self.nv()[j].parent
                                    == Some(me.id) by {
                                assert(me.inputs.len() == 2);
                                if k == 0 {
                                    assert(me.inputs[0].arg == input_of(lhs@, lhs_id));
                                    if !lhs@.is_literal() {
                                        let j = choose|j: int|
                                            mid.nv().len() <= j < mid2.nv().len() && (#[trigger]
                                            mid2.nv()[j]).id == lhs_id && mid2.nv()[j].parent
                                                == Some(this_id);
                                        assert(self.nv()[j] == mid2.nv()[j]);
                                        assert(self.nv()[j].id == ref_target(me.inputs[k].arg)->0);
                                    }
                                } else {
                                    assert(me.inputs[1].arg == input_of(rhs@, rhs_id));
                                    if !rhs@.is_literal() {
                                        let j = choose|j: int|
                                            mid2.nv().len() <= j < self.nv().len() && (#[trigger]
                                            self.nv()[j]).id == rhs_id && self.nv()[j].parent
                                                == Some(this_id);
                                        assert(self.nv()[j].id == ref_target(me.inputs[k].arg)->0);
                                    }
                                }
                            }
                        } else if i < mid2.nv().len() {
                            assert(self.nv()[i] == mid2.nv()[i]);
                            assert(node_inputs_resolved(mid2.nv(), mid2.nv()[i]));
                            assert forall|k: int| 0 <= k < self.nv()[i].inputs.len() && ref_target(
                                (#[trigger] self.nv()[i].inputs[k]).arg,
                            ) is Some implies exists|j: int|
                                0 <= j < self.nv().len() && (#[trigger] self.nv()[j]).id
                                    == ref_target(self.nv()[i].inputs[k].arg)->0
                                    && self.nv()[j].parent == Some(self.nv()[i].id) by {
                                let j = choose|j: int|
                                    0 <= j < mid2.nv().len() && (#[trigger] mid2.nv()[j]).id
                                        == ref_target(self.nv()[i].inputs[k].arg)->0
                                        && mid2.nv()[j].parent == Some(self.nv()[i].id);
                                assert(self.nv()[j] == mid2.nv()[j]);
                            }
                        } else {
                            assert(node_inputs_resolved(self.nv(), self.nv()[i]));
                        }
                    }
                }
            }
        }
        res2
    }

    /// Builds an owned slot-name string.
    fn slot_string(s: &str) -> (r: String)
        ensures
            r@ == s@,
    {
        String::from_str(s)
    }
}

/// The left slot name of a binary operator, as a literal.
pub fn binop_lhs_str(op: crate::ast::BinOp) -> (r: &'static str)
    ensures
        r@ == binop_lhs(op),
{
    match op {
        crate::ast::BinOp::Lt => "OPERAND1",
        crate::ast::BinOp::Gt => "OPERAND1",
        crate::ast::BinOp::Eq => "OPERAND1",
        crate::ast::BinOp::Le => "OPERAND1",
        crate::ast::BinOp::Ge => "OPERAND1",
        crate::ast::BinOp::Ne => "OPERAND1",
        crate::ast::BinOp::Of => "LETTER",
        _ => "NUM1",
    }
}

/// The right slot name of a binary operator, as a literal.
pub fn binop_rhs_str(op: crate::ast::BinOp) -> (r: &'static str)
    ensures
        r@ == binop_rhs(op),
{
    match op {
        crate::ast::BinOp::Lt => "OPERAND2",
        crate::ast::BinOp::Gt => "OPERAND2",
        crate::ast::BinOp::Eq => "OPERAND2",
        crate::ast::BinOp::Le => "OPERAND2",
        crate::ast::BinOp::Ge => "OPERAND2",
        crate::ast::BinOp::Ne => "OPERAND2",
        crate::ast::BinOp::Of => "STRING",
        _ => "NUM2",
    }
}

/// The opcode of a binary operator, as a literal.
pub fn binop_opcode_str(op: crate::ast::BinOp) -> (r: &'static str)
    ensures
        r@ == binop_opcode(op),
{
    match op {
        crate::ast::BinOp::Add => "operator_add",
        crate::ast::BinOp::Sub => "operator_subtract",
        crate::ast::BinOp::Mul => "operator_multiply",
        crate::ast::BinOp::Div => "operator_divide",
        crate::ast::BinOp::FloorDiv => "operator_divide",
        crate::ast::BinOp::Lt => "operator_lt",
        crate::ast::BinOp::Gt => "operator_gt",
        crate::ast::BinOp::Eq => "operator_equals",
        crate::ast::BinOp::Le => "operator_lt",
        crate::ast::BinOp::Ge => "operator_gt",
        crate::ast::BinOp::Ne => "operator_equals",
        crate::ast::BinOp::Of => "operator_letter_of",
    }
}

/// Whether an `Of` stands on a bare name that resolves to a declared
/// list — the case that bypasses the generic operator path entirely.
pub open spec fn of_list_case(c: CtxV, op: crate::ast::BinOp, l: ExprV) -> bool {
    op == crate::ast::BinOp::Of && match l {
        ExprV::Name { name, .. } => ctx_is_list(c, name),
        _ => false,
    }
}

/// The input slot a primitive operation's node carries at position
/// `k`: the menu slot references the menu sub-node; every other slot
/// carries its operand inline or as a child reference.
pub open spec fn repr_input(rv: ReprV, av: Seq<ExprV>, k: int, base: u64, menu_id: u64) -> InputV {
    match rv.menu {
        Some(m) => if rv.arg_names[k] == m.input {
            InputV { name: rv.arg_names[k], arg: InputArgV::NodeRef { id: menu_id } }
        } else {
            InputV { name: rv.arg_names[k], arg: input_of(av[k], (base + k) as u64) }
        },
        None => InputV { name: rv.arg_names[k], arg: input_of(av[k], (base + k) as u64) },
    }
}

impl Sb3 {
    /// Emits a primitive-operation node: one identifier per argument
    /// is taken up front, a menu slot captures its string literal into
    /// a dedicated selector sub-node, every other slot becomes a
    /// standard input, and the operands are emitted as siblings after
    /// the node is closed. An argument-count mismatch, or a menu slot
    /// that carries anything but a string literal, is a fatal
    /// internal-consistency error.
    #[verifier::rlimit(100)]
    #[verifier::loop_isolation(false)]
    pub fn repr(
        &mut self,
        ctx: &Ctx,
        this_id: u64,
        parent_id: u64,
        repr: &Repr,
        span: &Span,
        args: &Vec<Expr>,
    ) -> (r: Result<(), EmitError>)
        requires
            old(self).wf(),
            this_id < old(self).next_id,
            id_unused(old(self).nv(), this_id),
            old(self).next_id + args@.len() + 1 + weights(view_exprs(args@)) <= u64::MAX,
        ensures
            final(self).wf(),
            emits_frame(*old(self), *final(self)),
            suffix_ids(*old(self), *final(self), this_id),
            final(self).next_id <= old(self).next_id + args@.len() + 1 + weights(
                view_exprs(args@),
            ),
            r is Ok <==> emittable(
                ExprV::Repr { repr: repr@, span: *span, args: view_exprs(args@) },
            ),
            r is Ok ==> final(self).nv().len() > old(self).nv().len(),
            r is Ok ==> {
                let n = final(self).nv()[old(self).nv().len() as int];
                &&& n.id == this_id
                &&& n.opcode == repr@.opcode
                &&& n.parent == Some(parent_id)
                &&& n.inputs.len() == args@.len()
                &&& forall|k: int| 0 <= k < args@.len() ==> #[trigger] n.inputs[k] == repr_input(
                    repr@,
                    view_exprs(args@),
                    k,
                    old(self).next_id,
                    (old(self).next_id + args@.len()) as u64,
                )
            },
            r is Ok ==> refs_resolved_from(final(self).nv(), old(self).nv().len() as int),
        decreases (ExprV::Repr { repr: repr@, span: *span, args: view_exprs(args@) }), 1int,
    {
        let ghost pre = *self;
        let ghost av = view_exprs(args@);
        let ghost rv = repr@;
        let ghost whole = ExprV::Repr { repr: repr@, span: *span, args: av };
        proof {
            lemma_view_exprs(args@);
            assert(rv.arg_names.len() == repr.arg_names@.len());
        }
        if args.len() != repr.arg_names.len() {
            proof {
                assert(!emittable(whole));
                assert(self.nv().subrange(0, pre.nv().len() as int) =~= pre.nv());
                assert(self.dv().subrange(0, pre.dv().len() as int) =~= pre.dv());
            }
            return Err(EmitError { kind: EmitErrorKind::ArityMismatch, span: *span });
        }
        let mut ids: Vec<u64> = Vec::new();
        let mut i: usize = 0;
        while i < args.len()
            invariant
                i <= args.len(),
                ids@.len() == i,
                forall|j: int| 0 <= j < i ==> #[trigger] ids@[j] == pre.next_id + j,
                self.next_id == pre.next_id + i,
                self.nodes == pre.nodes,
                self.diagnostics == pre.diagnostics,
            decreases args.len() - i,
        {
            let id = self.new_id();
            ids.push(id);
            i += 1;
        }
        let menu_id = self.new_id();
        let ghost base = pre.next_id;
        let mut inputs: Vec<Input> = Vec::new();
        let mut menu_value: Option<String> = None;
        let mut k: usize = 0;
        while k < args.len()
            invariant
                k <= args.len(),
                args@.len() == av.len(),
                args@.len() == repr.arg_names@.len(),
                rv == repr@,
                av == view_exprs(args@),
                forall|j: int| 0 <= j < av.len() ==> av[j] == #[trigger] args@[j]@,
                ids@.len() == args@.len(),
                forall|j: int| 0 <= j < ids@.len() ==> #[trigger] ids@[j] == base + j,
                menu_id == base + args@.len(),
                self.next_id == base + args@.len() + 1,
                self.nodes == pre.nodes,
                self.diagnostics == pre.diagnostics,
                inputs@.len() == k,
                forall|j: int| 0 <= j < k ==> (#[trigger] inputs@[j])@ == repr_input(
                    rv,
                    av,
                    j,
                    base,
                    menu_id,
                ),
                forall|j: int| 0 <= j < k ==> (rv.menu matches Some(m) && rv.arg_names[j]
                    == m.input ==> av[j] is Str),
            decreases args.len() - k,
        {
            let is_menu: bool = match &repr.menu {
                Some(m) => repr.arg_names[k] == m.input,
                None => false,
            };
            if is_menu {
                match &args[k] {
                    Expr::Str(t) => {
                        menu_value = Some(t.clone());
                        inputs.push(
                            Input {
                                name: repr.arg_names[k].clone(),
                                arg: InputArg::NodeRef { id: menu_id },
                            },
                        );
                        proof {
                            assert(av[k as int] == args@[k as int]@);
                            assert(rv.arg_names[k as int] == repr.arg_names@[k as int]@);
                            assert(inputs@.last()@ == repr_input(rv, av, k as int, base, menu_id));
                        }
                    },
                    _ => {
                        proof {
                            assert(av[k as int] == args@[k as int]@);
                            assert(rv.arg_names[k as int] == repr.arg_names@[k as int]@);
                            assert(!menu_ok(rv, av));
                            assert(!emittable(whole));
                            assert(self.nv().subrange(0, pre.nv().len() as int) =~= pre.nv());
                            assert(self.dv().subrange(0, pre.dv().len() as int) =~= pre.dv());
                        }
                        return Err(
                            EmitError { kind: EmitErrorKind::UnsupportedMenuExpr, span: *span },
                        );
                    },
                }
            } else {
                let inp = Self::input(repr.arg_names[k].clone(), &args[k], ids[k]);
                inputs.push(inp);
                proof {
                    assert(av[k as int] == args@[k as int]@);
                    assert(rv.arg_names[k as int] == repr.arg_names@[k as int]@);
                    assert(inputs@.last()@ == repr_input(rv, av, k as int, base, menu_id));
                }
            }
            k += 1;
        }
        let n = Node {
            id: this_id,
            opcode: repr.opcode.clone(),
            parent: Some(parent_id),
            inputs: inputs,
            fields: Vec::new(),
        };
        let ghost nview = n@;
        proof {
            assert(nview.inputs.len() == args@.len());
            assert forall|j: int| 0 <= j < args@.len() implies #[trigger] nview.inputs[j]
                == repr_input(rv, av, j, base, menu_id) by {
                assert(nview.inputs[j] == n.inputs@[j]@);
            }
        }
        self.push_node(n);
        let has_menu = repr.menu.is_some();
        if has_menu {
            let mvalue: String = match menu_value {
                Some(v) => v,
                None => String::from_str(""),
            };
            let mut mfields: Vec<FieldSlot> = Vec::new();
            let mopcode: String = match &repr.menu {
                Some(m) => m.opcode.clone(),
                None => String::from_str(""),
            };
            match &repr.menu {
                Some(m) => {
                    mfields.push(
                        FieldSlot { name: m.field.clone(), value: mvalue, is_ref: false },
                    );
                },
                None => {},
            }
            let mnode = Node {
                id: menu_id,
                opcode: mopcode,
                parent: Some(this_id),
                inputs: Vec::new(),
                fields: mfields,
            };
            proof {
                assert(mnode@.inputs =~= Seq::<InputV>::empty());
            }
            self.push_node(mnode);
        }
        let ghost mid = *self;
        proof {
            assert(mid.nv()[pre.nv().len() as int] == nview);
            assert(has_menu ==> mid.nv().len() == pre.nv().len() + 2 && mid.nv()[pre.nv().len() as int
                + 1].id == menu_id && mid.nv()[pre.nv().len() as int + 1].parent == Some(this_id)
                && mid.nv()[pre.nv().len() as int + 1].inputs.len() == 0);
            assert(!has_menu ==> mid.nv().len() == pre.nv().len() + 1);
            assert(av.skip(0) =~= av);
        }
        proof {
            frame_refl(mid);
            assert(av.skip(0) =~= av);
            assert forall|x: int| 0 <= x < ids@.len() implies id_unused(
                self.nv(),
                #[trigger] ids@[x],
            ) by {
                assert forall|j: int| 0 <= j < self.nv().len() implies (#[trigger]
                    self.nv()[j]).id != ids@[x] by {
                    if j < pre.nv().len() {
                        assert(self.nv()[j] == pre.nv()[j]);
                    }
                }
            }
        }
        let mut c: usize = 0;
        let mut failed: Option<EmitError> = None;
        while c < args.len() && failed.is_none()
            invariant
                c <= args.len(),
                args@.len() == av.len(),
                forall|j: int| 0 <= j < av.len() ==> av[j] == #[trigger] args@[j]@,
                ids@.len() == args@.len(),
                forall|j: int| 0 <= j < ids@.len() ==> #[trigger] ids@[j] == base + j,
                menu_id == base + args@.len(),
                mid.next_id == base + args@.len() + 1,
                self.wf(),
                emits_frame(mid, *self),
                self.nv().subrange(0, mid.nv().len() as int) == mid.nv(),
                self.next_id + weights(av.skip(c as int)) <= mid.next_id + weights(av),
                mid.next_id <= self.next_id,
                forall|j: int| mid.nv().len() <= j < self.nv().len() ==> (
                    exists|x: int| 0 <= x < c && (#[trigger] self.nv()[j]).id == ids@[x]) || (
                mid.next_id <= self.nv()[j].id < self.next_id),
                forall|x: int| c <= x < ids@.len() ==> id_unused(self.nv(), #[trigger] ids@[x]),
                failed is None ==> refs_resolved_from(self.nv(), mid.nv().len() as int),
                failed is None ==> forall|x: int| 0 <= x < c && !(#[trigger] av[x]).is_literal()
                    ==> exists|j: int|
                    mid.nv().len() <= j < self.nv().len() && (#[trigger] self.nv()[j]).id
                        == ids@[x] && self.nv()[j].parent == Some(this_id),
                failed is None ==> forall|x: int| 0 <= x < c ==> emittable(#[trigger] av[x]),
                failed is Some ==> !emittable(whole),
            decreases args.len() - c,
        {
            let ghost snap = *self;
            proof {
                lemma_weights_skip(av, c as int);
                assert(av[c as int] == args@[c as int]@);
                assert(decreases_to!(whole => whole->Repr_args));
                assert(whole->Repr_args == av);
                assert(decreases_to!(av => av[c as int]));
            }
            let res = self.expr(ctx, &args[c], ids[c], this_id);
            proof {
                assert(self.nv().subrange(0, snap.nv().len() as int) == snap.nv());
                assert forall|j: int| 0 <= j < snap.nv().len() implies self.nv()[j]
                    == snap.nv()[j] by {
                    assert(self.nv().subrange(0, snap.nv().len() as int)[j] == self.nv()[j]);
                }
                assert(self.dv().subrange(0, snap.dv().len() as int) == snap.dv());
                assert forall|j: int| 0 <= j < snap.dv().len() implies self.dv()[j]
                    == snap.dv()[j] by {
                    assert(self.dv().subrange(0, snap.dv().len() as int)[j] == self.dv()[j]);
                }
                assert(self.nv().subrange(0, mid.nv().len() as int) =~= mid.nv());
                assert(self.dv().subrange(0, mid.dv().len() as int) =~= mid.dv());
                assert(emits_frame(mid, *self));
                assert forall|j: int| mid.nv().len() <= j < self.nv().len() implies (
                    exists|x: int| 0 <= x < c + 1 && (#[trigger] self.nv()[j]).id == ids@[x]) || (
                mid.next_id <= self.nv()[j].id < self.next_id) by {
                    if j < snap.nv().len() {
                        assert(self.nv()[j] == snap.nv()[j]);
                    } else {
                        assert(self.nv()[j].id == ids@[c as int] || snap.next_id
                            <= self.nv()[j].id < self.next_id);
                    }
                }
                assert forall|x: int| c + 1 <= x < ids@.len() implies id_unused(
                    self.nv(),
                    #[trigger] ids@[x],
                ) by {
                    assert forall|j: int| 0 <= j < self.nv().len() implies (#[trigger]
                        self.nv()[j]).id != ids@[x] by {
                        if j < snap.nv().len() {
                            assert(self.nv()[j] == snap.nv()[j]);
                        } else {
                            assert(self.nv()[j].id == ids@[c as int] || snap.next_id
                                <= self.nv()[j].id < self.next_id);
                        }
                    }
                }
            }
            match res {
                Ok(_) => {
                    proof {
                        if !av[c as int].is_literal() {
                            assert(exists|j: int|
                                snap.nv().len() <= j < self.nv().len() && (#[trigger]
                                self.nv()[j]).id == ids@[c as int] && self.nv()[j].parent
                                    == Some(this_id));
                        }
                        assert forall|x: int| 0 <= x < c + 1 && !(#[trigger] av[x]).is_literal()
                            implies exists|j: int|
                            mid.nv().len() <= j < self.nv().len() && (#[trigger] self.nv()[j]).id
                                == ids@[x] && self.nv()[j].parent == Some(this_id) by {
                            if x < c {
                                let j = choose|j: int|
                                    mid.nv().len() <= j < snap.nv().len() && (#[trigger]
                                    snap.nv()[j]).id == ids@[x] && snap.nv()[j].parent == Some(
                                        this_id,
                                    );
                                assert(self.nv()[j] == snap.nv()[j]);
                            }
                        }
                        assert forall|i2: int| mid.nv().len() <= i2 < self.nv().len()
                            implies node_inputs_resolved(self.nv(), #[trigger] self.nv()[i2]) by {
                            if i2 < snap.nv().len() {
                                assert(self.nv()[i2] == snap.nv()[i2]);
                                assert(node_inputs_resolved(snap.nv(), snap.nv()[i2]));
                                assert forall|k2: int| 0 <= k2 < self.nv()[i2].inputs.len()
                                    && ref_target(
                                    (#[trigger] self.nv()[i2].inputs[k2]).arg,
                                ) is Some implies exists|j: int|
                                    0 <= j < self.nv().len() && (#[trigger] self.nv()[j]).id
                                        == ref_target(self.nv()[i2].inputs[k2].arg)->0
                                        && self.nv()[j].parent == Some(self.nv()[i2].id) by {
                                    let j = choose|j: int|
                                        0 <= j < snap.nv().len() && (#[trigger] snap.nv()[j]).id
                                            == ref_target(self.nv()[i2].inputs[k2].arg)->0
                                            && snap.nv()[j].parent == Some(self.nv()[i2].id);
                                    assert(self.nv()[j] == snap.nv()[j]);
                                }
                            } else {
                                assert(node_inputs_resolved(self.nv(), self.nv()[i2]));
                            }
                        }
                    }
                },
                Err(e) => {
                    proof {
                        assert(!emittable(av[c as int]));
                        assert(!emittable_all(av)) by {
                            lemma_not_emittable_all(av, c as int);
                        }
                        assert(!emittable(whole));
                    }
                    failed = Some(e);
                },
            }
            c += 1;
        }
        match failed {
            Some(e) => {
                proof {
                    assert(emits_frame(pre, *self)) by {
                        assert(self.nv().subrange(0, pre.nv().len() as int) =~= pre.nv());
                        assert(self.dv().subrange(0, pre.dv().len() as int) =~= pre.dv());
                    }
                    assert(suffix_ids(pre, *self, this_id)) by {
                        assert forall|j: int| pre.nv().len() <= j < self.nv().len() implies (
                            #[trigger] self.nv()[j]).id == this_id || (pre.next_id
                            <= self.nv()[j].id < self.next_id) by {
                            if j < mid.nv().len() {
                                assert(self.nv()[j] == mid.nv()[j]);
                            }
                        }
                    }
                    assert(self.next_id <= pre.next_id + args@.len() + 1 + weights(av)) by {
                        assert(weights(av.skip(c as int)) >= 0);
                    }
                }
                Err(e)
            },
            None => {
                proof {
                    assert(c == args@.len());
                    assert(av.skip(av.len() as int).len() == 0);
                    assert(emittable_all(av)) by {
                        lemma_emittable_all(av);
                    }
                    assert(menu_ok(rv, av));
                    assert(emittable(whole));
                    assert(emits_frame(pre, *self)) by {
                        assert(self.nv().subrange(0, pre.nv().len() as int) =~= pre.nv());
                        assert(self.dv().subrange(0, pre.dv().len() as int) =~= pre.dv());
                    }
                    assert(suffix_ids(pre, *self, this_id)) by {
                        assert forall|j: int| pre.nv().len() <= j < self.nv().len() implies (
                            #[trigger] self.nv()[j]).id == this_id || (pre.next_id
                            <= self.nv()[j].id < self.next_id) by {
                            if j < mid.nv().len() {
                                assert(self.nv()[j] == mid.nv()[j]);
                            }
                        }
                    }
                    assert(self.nv()[pre.nv().len() as int] == nview) by {
                        assert(self.nv()[pre.nv().len() as int] == mid.nv()[pre.nv().len() as int]);
                    }
                    assert(refs_resolved_from(self.nv(), pre.nv().len() as int)) by {
                        assert forall|i2: int| pre.nv().len() <= i2 < self.nv().len()
                            implies node_inputs_resolved(self.nv(), #[trigger] self.nv()[i2]) by {
                            if i2 == pre.nv().len() {
                                let me = self.nv()[i2];
                                assert(me == nview);
                                assert forall|k2: int| 0 <= k2 < me.inputs.len() && ref_target(
                                    (#[trigger] me.inputs[k2]).arg,
                                ) is Some implies exists|j: int|
                                    0 <= j < self.nv().len() && (#[trigger] self.nv()[j]).id
                                        == ref_target(me.inputs[k2].arg)->0 && self.nv()[j].parent
                                        == Some(me.id) by {
                                    assert(me.inputs[k2] == repr_input(rv, av, k2, base, menu_id));
                                    let is_menu_slot = rv.menu matches Some(m) && rv.arg_names[k2]
                                        == m.input;
                                    if is_menu_slot {
                                        assert(has_menu);
                                        assert(self.nv()[pre.nv().len() as int + 1] == mid.nv()[
                                        pre.nv().len() as int + 1]);
                                        assert(self.nv()[pre.nv().len() as int + 1].id == menu_id);
                                    } else {
                                        assert(me.inputs[k2].arg == input_of(av[k2], ids@[k2]));
                                        if !av[k2].is_literal() {
                                            assert(exists|j: int|
                                                mid.nv().len() <= j < self.nv().len() && (
                                                #[trigger] self.nv()[j]).id == ids@[k2]
                                                    && self.nv()[j].parent == Some(this_id));
                                        }
                                    }
                                }
                            } else if has_menu && i2 == pre.nv().len() as int + 1 {
                                assert(self.nv()[i2] == mid.nv()[i2]);
                                assert(self.nv()[i2].inputs.len() == 0);
                            } else {
                                assert(node_inputs_resolved(self.nv(), self.nv()[i2]));
                            }
                        }
                    }
                }
                Ok(())
            },
        }
    }

    /// Emits one resolved expression as a node (with its subtree), or
    /// embeds nothing when the expression is a literal the caller
    /// already carries inline.
    pub fn expr(
        &mut self,
        ctx: &Ctx,
        e: &Expr,
        this_id: u64,
        parent_id: u64,
    ) -> (r: Result<(), EmitError>)
        requires
            old(self).wf(),
            this_id < old(self).next_id,
            id_unused(old(self).nv(), this_id),
            old(self).next_id + weight(e@) <= u64::MAX,
        ensures
            final(self).wf(),
            emits_frame(*old(self), *final(self)),
            suffix_ids(*old(self), *final(self), this_id),
            final(self).next_id <= old(self).next_id + weight(e@),
            r is Ok <==> emittable(e@),
            e@.is_literal() ==> *final(self) == *old(self),
            r is Ok && !e@.is_literal() ==> final(self).nv().len() > old(self).nv().len()
                && emitted_node(*old(self), *final(self), this_id, parent_id),
            r is Ok ==> refs_resolved_from(final(self).nv(), old(self).nv().len() as int),
        decreases e@, 2int,
    {
        let ghost pre = *self;
        match e {
            Expr::Int(_) => {
                proof {
                    frame_refl(pre);
                }
                Ok(())
            },
            Expr::Float(_) => {
                proof {
                    frame_refl(pre);
                }
                Ok(())
            },
            Expr::Str(_) => {
                proof {
                    frame_refl(pre);
                }
                Ok(())
            },
            Expr::Name { name, .. } => {
                let is_var = {
                    let mut v = crate::ast::find_var(ctx.vars, name).is_some();
                    if !v {
                        match ctx.global {
                            Some((gv, _)) => {
                                v = crate::ast::find_var(gv, name).is_some();
                            },
                            None => {},
                        }
                    }
                    v
                };
                let mut fields: Vec<FieldSlot> = Vec::new();
                let opcode: String;
                if is_var {
                    opcode = String::from_str("data_variable");
                    fields.push(
                        FieldSlot {
                            name: String::from_str("VARIABLE"),
                            value: name.clone(),
                            is_ref: true,
                        },
                    );
                } else {
                    opcode = String::from_str("data_listcontents");
                    fields.push(
                        FieldSlot {
                            name: String::from_str("LIST"),
                            value: name.clone(),
                            is_ref: true,
                        },
                    );
                }
                let n = Node {
                    id: this_id,
                    opcode: opcode,
                    parent: Some(parent_id),
                    inputs: Vec::new(),
                    fields: fields,
                };
                proof {
                    assert(n@.inputs =~= Seq::<InputV>::empty());
                }
                let ghost nview = n@;
                self.push_node(n);
                proof {
                    leaf_post_arg(pre, *self, this_id, nview);
                }
                Ok(())
            },
            Expr::Accessor { symbol_name, property_name, .. } => {
                let qualified = qualify_struct_var_name(property_name, symbol_name);
                let mut fields: Vec<FieldSlot> = Vec::new();
                fields.push(
                    FieldSlot {
                        name: String::from_str("VARIABLE"),
                        value: qualified,
                        is_ref: true,
                    },
                );
                let n = Node {
                    id: this_id,
                    opcode: String::from_str("data_variable"),
                    parent: Some(parent_id),
                    inputs: Vec::new(),
                    fields: fields,
                };
                proof {
                    assert(n@.inputs =~= Seq::<InputV>::empty());
                }
                let ghost nview = n@;
                self.push_node(n);
                proof {
                    leaf_post_arg(pre, *self, this_id, nview);
                }
                Ok(())
            },
            Expr::Arg { name, .. } => {
                self.arg(ctx, this_id, parent_id, name);
                proof {
                    assert(self.nv() == pre.nv().push(self.nv().last()));
                    leaf_post_arg(pre, *self, this_id, self.nv().last());
                    assert(self.nv()[pre.nv().len() as int].id == this_id);
                    assert(self.nv()[pre.nv().len() as int].parent == Some(parent_id));
                    assert(emitted_node(pre, *self, this_id, parent_id));
                }
                Ok(())
            },
            Expr::Repr { repr, span, args } => {
                proof {
                    assert(e@ == ExprV::Repr {
                        repr: repr@,
                        span: *span,
                        args: view_exprs(args@),
                    });
                    lemma_view_exprs(args@);
                    assert(weight(e@) == args@.len() + 1 + weights(view_exprs(args@)));
                }
                let r2 = self.repr(ctx, this_id, parent_id, repr, span, args);
                proof {
                    if r2 is Ok {
                        assert(self.nv()[pre.nv().len() as int].id == this_id);
                        assert(self.nv()[pre.nv().len() as int].parent == Some(parent_id));
                        assert(emitted_node(pre, *self, this_id, parent_id));
                    }
                }
                r2
            },
            Expr::UnOp { op, span, val } => {
                let r2 = self.un_op(ctx, this_id, parent_id, *op, span, &**val);
                proof {
                    assert(e@ == ExprV::UnOp { op: *op, span: *span, val: Box::new((**val)@) });
                    if r2 is Ok {
                        assert(self.nv()[pre.nv().len() as int].id == this_id);
                        assert(self.nv()[pre.nv().len() as int].parent == Some(parent_id));
                        assert(emitted_node(pre, *self, this_id, parent_id));
                    }
                }
                r2
            },
            Expr::BinOp { op, span, lhs, rhs } => {
                let r2 = self.bin_op(ctx, this_id, parent_id, *op, span, &**lhs, &**rhs);
                proof {
                    assert(e@ == ExprV::BinOp {
                        op: *op,
                        span: *span,
                        lhs: Box::new((**lhs)@),
                        rhs: Box::new((**rhs)@),
                    });
                    if of_list_case(ctx.cv(), *op, (**lhs)@) {
                        assert(emittable((**lhs)@));
                    }
                    if r2 is Ok {
                        assert(self.nv()[pre.nv().len() as int].id == this_id);
                        assert(self.nv()[pre.nv().len() as int].parent == Some(parent_id));
                        assert(emitted_node(pre, *self, this_id, parent_id));
                    }
                }
                r2
            },
        }
    }
}

/// An unchanged emitter keeps its frame trivially.
pub proof fn frame_refl(s: Sb3)
    ensures
        emits_frame(s, s),
        forall|id: u64| suffix_ids(s, s, id),
{
    assert(s.nv().subrange(0, s.nv().len() as int) =~= s.nv());
    assert(s.dv().subrange(0, s.dv().len() as int) =~= s.dv());
}

/// Appending one leaf node with the reserved identifier keeps the
/// frame, the suffix discipline, and resolution; one diagnostic may
/// have been appended alongside.
pub proof fn leaf_post_arg(pre: Sb3, post: Sb3, this_id: u64, n: NodeV)
    requires
        post.nv() == pre.nv().push(n),
        n.id == this_id,
        n.inputs.len() == 0,
        post.next_id == pre.next_id,
        post.dv() == pre.dv() || post.dv() == pre.dv().push(post.dv().last()),
    ensures
        emits_frame(pre, post),
        suffix_ids(pre, post, this_id),
        refs_resolved_from(post.nv(), pre.nv().len() as int),
{
    assert(post.nv().subrange(0, pre.nv().len() as int) =~= pre.nv());
    assert(post.dv().subrange(0, pre.dv().len() as int) =~= pre.dv());
    assert forall|i: int| pre.nv().len() <= i < post.nv().len() implies node_inputs_resolved(
        post.nv(),
        #[trigger] post.nv()[i],
    ) by {
        assert(post.nv()[i] == n);
    }
}

/// One inadmissible element makes the whole list inadmissible.
pub proof fn lemma_not_emittable_all(es: Seq<ExprV>, i: int)
    requires
        0 <= i < es.len(),
        !emittable(es[i]),
    ensures
        !emittable_all(es),
    decreases es,
{
    if i == 0 {
    } else {
        assert(es.drop_first()[i - 1] == es[i]);
        lemma_not_emittable_all(es.drop_first(), i - 1);
    }
}

/// Element-wise admissibility gives the whole list's.
pub proof fn lemma_emittable_all(es: Seq<ExprV>)
    requires
        forall|x: int| 0 <= x < es.len() ==> emittable(#[trigger] es[x]),
    ensures
        emittable_all(es),
    decreases es,
{
    if es.len() > 0 {
        assert forall|x: int| 0 <= x < es.len() - 1 implies emittable(
            #[trigger] es.drop_first()[x],
        ) by {
            assert(es.drop_first()[x] == es[x + 1]);
        }
        lemma_emittable_all(es.drop_first());
    }
}

/// Every identifier emitted in one run is unique, and every input
/// slot that references a child identifier corresponds to exactly one
/// emitted node carrying that identifier, whose declared parent is
/// the referring node: this holds of a whole graph emitted from a
/// fresh emitter, by its invariant and the per-call resolution
/// guarantee.
pub proof fn lemma_graph_wf(s: Sb3)
    requires
        s.wf(),
        refs_resolved_from(s.nv(), 0),
    ensures
        ids_unique(s.nv()),
        forall|i: int, k: int|
            0 <= i < s.nv().len() && 0 <= k < s.nv()[i].inputs.len() && ref_target(
                (#[trigger] s.nv()[i].inputs[k]).arg,
            ) is Some ==> exists|j: int|
                0 <= j < s.nv().len() && (#[trigger] s.nv()[j]).id == ref_target(
                    s.nv()[i].inputs[k].arg,
                )->0 && s.nv()[j].parent == Some(s.nv()[i].id),
        forall|j1: int, j2: int|
            0 <= j1 < s.nv().len() && 0 <= j2 < s.nv().len() && (#[trigger] s.nv()[j1]).id == (
            #[trigger] s.nv()[j2]).id ==> j1 == j2,
{
    assert forall|i: int, k: int|
        0 <= i < s.nv().len() && 0 <= k < s.nv()[i].inputs.len() && ref_target(
            (#[trigger] s.nv()[i].inputs[k]).arg,
        ) is Some implies exists|j: int|
        0 <= j < s.nv().len() && (#[trigger] s.nv()[j]).id == ref_target(
            s.nv()[i].inputs[k].arg,
        )->0 && s.nv()[j].parent == Some(s.nv()[i].id) by {
        assert(node_inputs_resolved(s.nv(), s.nv()[i]));
    }
    assert forall|j1: int, j2: int|
        0 <= j1 < s.nv().len() && 0 <= j2 < s.nv().len() && (#[trigger] s.nv()[j1]).id == (
        #[trigger] s.nv()[j2]).id implies j1 == j2 by {
        if j1 < j2 {
            assert(s.nv()[j1].id != s.nv()[j2].id);
        }
        if j2 < j1 {
            assert(s.nv()[j2].id != s.nv()[j1].id);
        }
    }
}

} // verus!
