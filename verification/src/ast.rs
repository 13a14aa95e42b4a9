//! The abstract syntax tree that the passes walk and rewrite, the
//! declaration tables of a sprite, and the reference sets the
//! resolution pass fills in — together with the mathematical views
//! (`...V` types) that every contract is stated over.
//!
//! Expression subtrees are plainly owned: a rewrite builds the new tree
//! and the caller stores it back, so no two owners ever alias a
//! subtree. Float literals carry their IEEE-754 binary64 bit pattern
//! as a `u64`; arithmetic on them goes through `numeric`.

use vstd::prelude::*;

verus! {

broadcast use
    vstd::std_specs::vec::axiom_vec_index_decreases,
    vstd::std_specs::vec::axiom_vec_decreases_to_view,
    vstd::seq::axiom_seq_index_decreases;

/// A source span: byte offsets of a token or construct, kept on
/// declarations and references for diagnostics.
#[derive(Clone, Copy, PartialEq, Eq, Structural, Debug)]
pub struct Span {
    pub start: usize,
    pub end: usize,
}

/// The declared or inferred type of a variable (view).
#[verifier::ext_equal]
pub enum TypeV {
    Int,
    Float,
    Str,
    Untyped,
    Struct(Seq<char>),
}

/// The declared or inferred type of a variable.
#[derive(Debug)]
pub enum Type {
    Int,
    Float,
    Str,
    Untyped,
    /// A struct type, by the struct's declared name.
    Struct(String),
}

impl View for Type {
    type V = TypeV;

    open spec fn view(&self) -> TypeV {
        match self {
            Type::Int => TypeV::Int,
            Type::Float => TypeV::Float,
            Type::Str => TypeV::Str,
            Type::Untyped => TypeV::Untyped,
            Type::Struct(name) => TypeV::Struct(name@),
        }
    }
}

impl Clone for Type {
    fn clone(&self) -> (res: Self)
        ensures
            res@ == self@,
    {
        match self {
            Type::Int => Type::Int,
            Type::Float => Type::Float,
            Type::Str => Type::Str,
            Type::Untyped => Type::Untyped,
            Type::Struct(name) => Type::Struct(name.clone()),
        }
    }
}

impl TypeV {
    /// The struct name, for a struct-typed variable.
    pub open spec fn struct_name(self) -> Option<Seq<char>> {
        match self {
            TypeV::Struct(name) => Some(name),
            _ => None,
        }
    }
}

impl Type {
    /// The struct name, for a struct-typed variable.
    pub fn struct_name(&self) -> (r: Option<&String>)
        ensures
            match r {
                Some(name) => self@.struct_name() == Some(name@),
                None => self@.struct_name() is None,
            },
    {
        match self {
            Type::Struct(name) => Some(name),
            _ => None,
        }
    }
}

/// A possibly dotted identifier (view).
#[verifier::ext_equal]
pub enum NameV {
    Plain { name: Seq<char>, span: Span },
    Dotted { base: Seq<char>, base_span: Span, field: Seq<char>, field_span: Span },
}

/// A possibly dotted identifier: either a plain name or a
/// `base.field` pair naming one field of a struct-typed variable.
#[derive(Debug)]
pub enum Name {
    Plain { name: String, span: Span },
    Dotted { base: String, base_span: Span, field: String, field_span: Span },
}

impl View for Name {
    type V = NameV;

    open spec fn view(&self) -> NameV {
        match self {
            Name::Plain { name, span } => NameV::Plain { name: name@, span: *span },
            Name::Dotted { base, base_span, field, field_span } => NameV::Dotted {
                base: base@,
                base_span: *base_span,
                field: field@,
                field_span: *field_span,
            },
        }
    }
}

impl Clone for Name {
    fn clone(&self) -> (res: Self)
        ensures
            res@ == self@,
    {
        match self {
            Name::Plain { name, span } => Name::Plain { name: name.clone(), span: *span },
            Name::Dotted { base, base_span, field, field_span } => Name::Dotted {
                base: base.clone(),
                base_span: *base_span,
                field: field.clone(),
                field_span: *field_span,
            },
        }
    }
}

impl NameV {
    pub open spec fn basename(self) -> Seq<char> {
        match self {
            NameV::Plain { name, .. } => name,
            NameV::Dotted { base, .. } => base,
        }
    }

    pub open spec fn fieldname(self) -> Option<Seq<char>> {
        match self {
            NameV::Plain { .. } => None,
            NameV::Dotted { field, .. } => Some(field),
        }
    }

    pub open spec fn span(self) -> Span {
        match self {
            NameV::Plain { span, .. } => span,
            NameV::Dotted { base_span, .. } => base_span,
        }
    }
}

impl Name {
    /// The base identifier: the whole name, or the part before the dot.
    pub fn basename(&self) -> (r: &String)
        ensures
            r@ == self@.basename(),
    {
        match self {
            Name::Plain { name, .. } => name,
            Name::Dotted { base, .. } => base,
        }
    }

    /// The field part, when the name is dotted.
    pub fn fieldname(&self) -> (r: Option<&String>)
        ensures
            match r {
                Some(f) => self@.fieldname() == Some(f@),
                None => self@.fieldname() is None,
            },
    {
        match self {
            Name::Plain { .. } => None,
            Name::Dotted { field, .. } => Some(field),
        }
    }

    pub fn span(&self) -> (r: Span)
        ensures
            r == self@.span(),
    {
        match self {
            Name::Plain { span, .. } => *span,
            Name::Dotted { base_span, .. } => *base_span,
        }
    }
}

/// A unary operator, before and after desugaring. `Minus` never
/// survives resolution: it folds into the literal or is rewritten to
/// `0 - x`. `Floor` only appears as the result of desugaring
/// floor-division.
#[derive(Clone, Copy, PartialEq, Eq, Structural, Debug)]
pub enum UnOp {
    Minus,
    Not,
    Floor,
}

/// A binary operator. `Le`, `Ge`, `Ne` and `FloorDiv` never survive
/// resolution: they desugar into `Not`/`Lt`/`Gt`/`Eq`/`Floor`/`Div`
/// combinations. `Of` is list indexing.
#[derive(Clone, Copy, PartialEq, Eq, Structural, Debug)]
pub enum BinOp {
    Add,
    Sub,
    Mul,
    Div,
    FloorDiv,
    Lt,
    Gt,
    Eq,
    Le,
    Ge,
    Ne,
    Of,
}

/// A menu-selectable argument slot of a primitive operation (view).
#[verifier::ext_equal]
pub struct MenuV {
    pub input: Seq<char>,
    pub opcode: Seq<char>,
    pub field: Seq<char>,
}

/// A menu-selectable argument slot of a primitive operation: the slot
/// name, and the opcode and field name of the selector sub-node that
/// renders it.
#[derive(Debug)]
pub struct Menu {
    pub input: String,
    pub opcode: String,
    pub field: String,
}

impl View for Menu {
    type V = MenuV;

    open spec fn view(&self) -> MenuV {
        MenuV { input: self.input@, opcode: self.opcode@, field: self.field@ }
    }
}

impl Clone for Menu {
    fn clone(&self) -> (res: Self)
        ensures
            res@ == self@,
    {
        Menu { input: self.input.clone(), opcode: self.opcode.clone(), field: self.field.clone() }
    }
}

/// A primitive operation descriptor (view).
#[verifier::ext_equal]
pub struct ReprV {
    pub opcode: Seq<char>,
    pub arg_names: Seq<Seq<char>>,
    pub menu: Option<MenuV>,
}

/// A primitive operation descriptor: its opcode, its positional
/// argument slot names, and optionally which slot is a menu.
#[derive(Debug)]
pub struct Repr {
    pub opcode: String,
    pub arg_names: Vec<String>,
    pub menu: Option<Menu>,
}

impl View for Repr {
    type V = ReprV;

    open spec fn view(&self) -> ReprV {
        ReprV {
            opcode: self.opcode@,
            arg_names: self.arg_names@.map_values(|s: String| s@),
            menu: match self.menu {
                Some(m) => Some(m@),
                None => None,
            },
        }
    }
}

/// A statement-level built-in block (view).
#[verifier::ext_equal]
pub enum BlockV {
    Broadcast,
    BroadcastAndWait,
    Other { opcode: Seq<char> },
}

/// A statement-level built-in block. Only the broadcast blocks are
/// distinguished, because the resolution pass records their message
/// argument; everything else is carried by opcode.
#[derive(Debug)]
pub enum Block {
    Broadcast,
    BroadcastAndWait,
    Other { opcode: String },
}

impl View for Block {
    type V = BlockV;

    open spec fn view(&self) -> BlockV {
        match self {
            Block::Broadcast => BlockV::Broadcast,
            Block::BroadcastAndWait => BlockV::BroadcastAndWait,
            Block::Other { opcode } => BlockV::Other { opcode: opcode@ },
        }
    }
}

/// An expression (view). Children are boxed views; argument lists are
/// sequences of views.
#[verifier::ext_equal]
pub enum ExprV {
    Int(i64),
    Float(u64),
    Str(Seq<char>),
    Name { name: Seq<char>, span: Span },
    Arg { name: NameV, span: Span },
    Accessor {
        symbol_name: Seq<char>,
        symbol_span: Span,
        property_name: Seq<char>,
        property_span: Span,
    },
    Repr { repr: ReprV, span: Span, args: Seq<ExprV> },
    UnOp { op: UnOp, span: Span, val: Box<ExprV> },
    BinOp { op: BinOp, span: Span, lhs: Box<ExprV>, rhs: Box<ExprV> },
}

impl ExprV {
    /// Whether this is the integer literal zero, the shape that
    /// unary-minus folding recognizes in `0 - x`.
    pub open spec fn is_zero(self) -> bool {
        self == ExprV::Int(0)
    }

    /// Whether this expression is a literal value, which the emitter
    /// embeds directly in an input slot instead of a child node.
    pub open spec fn is_literal(self) -> bool {
        self is Int || self is Float || self is Str
    }
}

/// An expression. Subtrees are owned (`Box`), so a rewrite replaces a
/// subtree wholesale and no stale alias can observe the old value.
#[derive(Debug)]
pub enum Expr {
    /// An integer literal.
    Int(i64),
    /// A float literal, as its IEEE-754 binary64 bit pattern.
    Float(u64),
    /// A string literal.
    Str(String),
    /// A bare name: variable or list, unresolved until the resolution
    /// pass classifies it against the scope tables.
    Name { name: String, span: Span },
    /// A reference to a procedure argument.
    Arg { name: Name, span: Span },
    /// `symbol.property`: an enum variant or a struct field access.
    Accessor {
        symbol_name: String,
        symbol_span: Span,
        property_name: String,
        property_span: Span,
    },
    /// A call of a primitive operation.
    Repr { repr: Repr, span: Span, args: Vec<Expr> },
    UnOp { op: UnOp, span: Span, val: Box<Expr> },
    BinOp { op: BinOp, span: Span, lhs: Box<Expr>, rhs: Box<Expr> },
}

/// The views of a list of expressions, in order.
pub open spec fn view_exprs(args: Seq<Expr>) -> Seq<ExprV>
    decreases args,
{
    if args.len() == 0 {
        Seq::empty()
    } else {
        view_exprs(args.drop_last()).push(args.last()@)
    }
}

impl View for Expr {
    type V = ExprV;

    open spec fn view(&self) -> ExprV
        decreases self,
    {
        match self {
            Expr::Int(v) => ExprV::Int(*v),
            Expr::Float(b) => ExprV::Float(*b),
            Expr::Str(s) => ExprV::Str(s@),
            Expr::Name { name, span } => ExprV::Name { name: name@, span: *span },
            Expr::Arg { name, span } => ExprV::Arg { name: name@, span: *span },
            Expr::Accessor { symbol_name, symbol_span, property_name, property_span } => {
                ExprV::Accessor {
                    symbol_name: symbol_name@,
                    symbol_span: *symbol_span,
                    property_name: property_name@,
                    property_span: *property_span,
                }
            },
            Expr::Repr { repr, span, args } => ExprV::Repr {
                repr: repr@,
                span: *span,
                args: view_exprs(args@),
            },
            Expr::UnOp { op, span, val } => ExprV::UnOp {
                op: *op,
                span: *span,
                val: Box::new((**val)@),
            },
            Expr::BinOp { op, span, lhs, rhs } => ExprV::BinOp {
                op: *op,
                span: *span,
                lhs: Box::new((**lhs)@),
                rhs: Box::new((**rhs)@),
            },
        }
    }
}

/// `view_exprs` is the element-wise view.
pub proof fn lemma_view_exprs(args: Seq<Expr>)
    ensures
        view_exprs(args).len() == args.len(),
        forall|i: int| 0 <= i < args.len() ==> view_exprs(args)[i] == #[trigger] args[i]@,
    decreases args,
{
    if args.len() > 0 {
        lemma_view_exprs(args.drop_last());
        assert(view_exprs(args) == view_exprs(args.drop_last()).push(args.last()@));
        assert(view_exprs(args.drop_last()).len() == args.len() - 1);
        assert forall|i: int| 0 <= i < args.len() implies view_exprs(args)[i] == #[trigger] args[i]@ by {
            if i < args.len() - 1 {
                assert(view_exprs(args)[i] == view_exprs(args.drop_last())[i]);
                assert(view_exprs(args.drop_last())[i] == args.drop_last()[i]@);
                assert(args.drop_last()[i] == args[i]);
            } else {
                assert(view_exprs(args)[i] == args.last()@);
                assert(args.last() == args[i]);
            }
        }
    }
}

impl Expr {
    /// Whether this is the integer literal zero.
    pub fn is_zero(&self) -> (r: bool)
        ensures
            r == self@.is_zero(),
    {
        match self {
            Expr::Int(v) => *v == 0i64,
            _ => false,
        }
    }

    /// Whether this expression is a literal value.
    pub fn is_literal(&self) -> (r: bool)
        ensures
            r == self@.is_literal(),
    {
        match self {
            Expr::Int(_) => true,
            Expr::Float(_) => true,
            Expr::Str(_) => true,
            _ => false,
        }
    }
}

/// Clones a string list, element for element.
pub fn clone_strings(v: &Vec<String>) -> (r: Vec<String>)
    ensures
        r@ == v@,
{
    let mut r: Vec<String> = Vec::new();
    let mut i: usize = 0;
    while i < v.len()
        invariant
            i <= v.len(),
            r@ =~= v@.subrange(0, i as int),
        decreases v.len() - i,
    {
        r.push(v[i].clone());
        i += 1;
    }
    proof {
        assert(r@ =~= v@);
    }
    r
}

impl Clone for Repr {
    fn clone(&self) -> (res: Self)
        ensures
            res@ == self@,
    {
        let res = Repr {
            opcode: self.opcode.clone(),
            arg_names: clone_strings(&self.arg_names),
            menu: match &self.menu {
                Some(m) => Some(m.clone()),
                None => None,
            },
        };
        proof {
            assert(res@ =~= self@);
        }
        res
    }
}

/// Clones an expression tree; the clone has the same view.
#[verifier::loop_isolation(false)]
pub fn clone_expr(e: &Expr) -> (r: Expr)
    ensures
        r@ == e@,
    decreases e,
{
    match e {
        Expr::Int(v) => Expr::Int(*v),
        Expr::Float(b) => Expr::Float(*b),
        Expr::Str(s) => Expr::Str(s.clone()),
        Expr::Name { name, span } => Expr::Name { name: name.clone(), span: *span },
        Expr::Arg { name, span } => Expr::Arg { name: name.clone(), span: *span },
        Expr::Accessor { symbol_name, symbol_span, property_name, property_span } => {
            Expr::Accessor {
                symbol_name: symbol_name.clone(),
                symbol_span: *symbol_span,
                property_name: property_name.clone(),
                property_span: *property_span,
            }
        },
        Expr::Repr { repr, span, args } => {
            let mut new_args: Vec<Expr> = Vec::new();
            let mut i: usize = 0;
            while i < args.len()
                invariant
                    i <= args.len(),
                    new_args@.len() == i,
                    forall|j: int| 0 <= j < i ==> (#[trigger] new_args@[j])@ == args@[j]@,
                decreases args.len() - i,
            {
                let c = clone_expr(&args[i]);
                new_args.push(c);
                i += 1;
            }
            let r = Expr::Repr { repr: repr.clone(), span: *span, args: new_args };
            proof {
                lemma_view_exprs(new_args@);
                lemma_view_exprs(args@);
                assert forall|j: int| 0 <= j < args@.len() implies view_exprs(new_args@)[j]
                    == view_exprs(args@)[j] by {
                    assert(view_exprs(new_args@)[j] == new_args@[j]@);
                    assert(view_exprs(args@)[j] == args@[j]@);
                }
                assert(view_exprs(new_args@) =~= view_exprs(args@));
                assert(r@ =~= e@);
            }
            r
        },
        Expr::UnOp { op, span, val } => {
            let v = clone_expr(&**val);
            Expr::UnOp { op: *op, span: *span, val: Box::new(v) }
        },
        Expr::BinOp { op, span, lhs, rhs } => {
            let l = clone_expr(&**lhs);
            let r = clone_expr(&**rhs);
            Expr::BinOp { op: *op, span: *span, lhs: Box::new(l), rhs: Box::new(r) }
        },
    }
}

impl Clone for Expr {
    fn clone(&self) -> (res: Self)
        ensures
            res@ == self@,
    {
        clone_expr(self)
    }
}

/// A statement (view).
#[verifier::ext_equal]
pub enum StmtV {
    Repeat { times: ExprV, body: Seq<StmtV> },
    Forever { body: Seq<StmtV>, span: Span },
    Branch { cond: ExprV, if_body: Seq<StmtV>, else_body: Seq<StmtV> },
    Until { cond: ExprV, body: Seq<StmtV> },
    SetVar { name: NameV, value: ExprV, type_: TypeV, is_local: bool, span: Span },
    ChangeVar { name: NameV, value: ExprV, span: Span },
    SetField {
        variable: Seq<char>,
        variable_span: Span,
        field: Seq<char>,
        field_span: Span,
        value: ExprV,
    },
    Show { name: NameV, span: Span },
    Hide { name: NameV, span: Span },
    ListAdd { name: Seq<char>, span: Span, value: ExprV },
    ListDelete { name: Seq<char>, span: Span, index: ExprV },
    ListDeleteAll { name: Seq<char>, span: Span },
    ListInsert { name: Seq<char>, span: Span, index: ExprV, value: ExprV },
    ListSet { name: Seq<char>, span: Span, index: ExprV, value: ExprV },
    ListChange { op: BinOp, name: Seq<char>, span: Span, index: ExprV, value: ExprV },
    Block { block: BlockV, span: Span, args: Seq<ExprV> },
    ProcCall { name: Seq<char>, span: Span, args: Seq<ExprV> },
}

/// A statement. Bodies are owned statement lists.
#[derive(Debug)]
pub enum Stmt {
    Repeat { times: Expr, body: Vec<Stmt> },
    Forever { body: Vec<Stmt>, span: Span },
    Branch { cond: Expr, if_body: Vec<Stmt>, else_body: Vec<Stmt> },
    Until { cond: Expr, body: Vec<Stmt> },
    SetVar { name: Name, value: Expr, type_: Type, is_local: bool, span: Span },
    ChangeVar { name: Name, value: Expr, span: Span },
    SetField {
        variable: String,
        variable_span: Span,
        field: String,
        field_span: Span,
        value: Expr,
    },
    Show { name: Name, span: Span },
    Hide { name: Name, span: Span },
    ListAdd { name: String, span: Span, value: Expr },
    ListDelete { name: String, span: Span, index: Expr },
    ListDeleteAll { name: String, span: Span },
    ListInsert { name: String, span: Span, index: Expr, value: Expr },
    ListSet { name: String, span: Span, index: Expr, value: Expr },
    ListChange { op: BinOp, name: String, span: Span, index: Expr, value: Expr },
    Block { block: Block, span: Span, args: Vec<Expr> },
    ProcCall { name: String, span: Span, args: Vec<Expr> },
}

/// The views of a statement list, in order.
pub open spec fn view_stmts(stmts: Seq<Stmt>) -> Seq<StmtV>
    decreases stmts,
{
    if stmts.len() == 0 {
        Seq::empty()
    } else {
        view_stmts(stmts.drop_last()).push(stmts.last()@)
    }
}

impl View for Stmt {
    type V = StmtV;

    open spec fn view(&self) -> StmtV
        decreases self,
    {
        match self {
            Stmt::Repeat { times, body } => StmtV::Repeat {
                times: times@,
                body: view_stmts(body@),
            },
            Stmt::Forever { body, span } => StmtV::Forever { body: view_stmts(body@), span: *span },
            Stmt::Branch { cond, if_body, else_body } => StmtV::Branch {
                cond: cond@,
                if_body: view_stmts(if_body@),
                else_body: view_stmts(else_body@),
            },
            Stmt::Until { cond, body } => StmtV::Until { cond: cond@, body: view_stmts(body@) },
            Stmt::SetVar { name, value, type_, is_local, span } => StmtV::SetVar {
                name: name@,
                value: value@,
                type_: type_@,
                is_local: *is_local,
                span: *span,
            },
            Stmt::ChangeVar { name, value, span } => StmtV::ChangeVar {
                name: name@,
                value: value@,
                span: *span,
            },
            Stmt::SetField { variable, variable_span, field, field_span, value } => {
                StmtV::SetField {
                    variable: variable@,
                    variable_span: *variable_span,
                    field: field@,
                    field_span: *field_span,
                    value: value@,
                }
            },
            Stmt::Show { name, span } => StmtV::Show { name: name@, span: *span },
            Stmt::Hide { name, span } => StmtV::Hide { name: name@, span: *span },
            Stmt::ListAdd { name, span, value } => StmtV::ListAdd {
                name: name@,
                span: *span,
                value: value@,
            },
            Stmt::ListDelete { name, span, index } => StmtV::ListDelete {
                name: name@,
                span: *span,
                index: index@,
            },
            Stmt::ListDeleteAll { name, span } => StmtV::ListDeleteAll { name: name@, span: *span },
            Stmt::ListInsert { name, span, index, value } => StmtV::ListInsert {
                name: name@,
                span: *span,
                index: index@,
                value: value@,
            },
            Stmt::ListSet { name, span, index, value } => StmtV::ListSet {
                name: name@,
                span: *span,
                index: index@,
                value: value@,
            },
            Stmt::ListChange { op, name, span, index, value } => StmtV::ListChange {
                op: *op,
                name: name@,
                span: *span,
                index: index@,
                value: value@,
            },
            Stmt::Block { block, span, args } => StmtV::Block {
                block: block@,
                span: *span,
                args: view_exprs(args@),
            },
            Stmt::ProcCall { name, span, args } => StmtV::ProcCall {
                name: name@,
                span: *span,
                args: view_exprs(args@),
            },
        }
    }
}

/// `view_stmts` is the element-wise view.
pub proof fn lemma_view_stmts(stmts: Seq<Stmt>)
    ensures
        view_stmts(stmts).len() == stmts.len(),
        forall|i: int| 0 <= i < stmts.len() ==> view_stmts(stmts)[i] == #[trigger] stmts[i]@,
    decreases stmts,
{
    if stmts.len() > 0 {
        lemma_view_stmts(stmts.drop_last());
        assert(view_stmts(stmts) == view_stmts(stmts.drop_last()).push(stmts.last()@));
        assert(view_stmts(stmts.drop_last()).len() == stmts.len() - 1);
        assert forall|i: int| 0 <= i < stmts.len() implies view_stmts(stmts)[i] == #[trigger] stmts[i]@ by {
            if i < stmts.len() - 1 {
                assert(view_stmts(stmts)[i] == view_stmts(stmts.drop_last())[i]);
                assert(view_stmts(stmts.drop_last())[i] == stmts.drop_last()[i]@);
                assert(stmts.drop_last()[i] == stmts[i]);
            } else {
                assert(view_stmts(stmts)[i] == stmts.last()@);
                assert(stmts.last() == stmts[i]);
            }
        }
    }
}

/// A declared variable (view).
#[verifier::ext_equal]
pub struct VarV {
    pub name: Seq<char>,
    pub span: Span,
    pub type_: TypeV,
}

/// A declared variable: name, first-seen declaration span, and type.
#[derive(Debug)]
pub struct Var {
    pub name: String,
    pub span: Span,
    pub type_: Type,
}

impl View for Var {
    type V = VarV;

    open spec fn view(&self) -> VarV {
        VarV { name: self.name@, span: self.span, type_: self.type_@ }
    }
}

impl Clone for Var {
    fn clone(&self) -> (res: Self)
        ensures
            res@ == self@,
    {
        Var { name: self.name.clone(), span: self.span, type_: self.type_.clone() }
    }
}

/// A declared list (view).
#[verifier::ext_equal]
pub struct ListV {
    pub name: Seq<char>,
    pub span: Span,
}

/// A declared list.
#[derive(Debug)]
pub struct List {
    pub name: String,
    pub span: Span,
}

impl View for List {
    type V = ListV;

    open spec fn view(&self) -> ListV {
        ListV { name: self.name@, span: self.span }
    }
}

/// A declared enum (view).
#[verifier::ext_equal]
pub struct EnumV {
    pub name: Seq<char>,
    pub span: Span,
    pub variants: Seq<Seq<char>>,
}

/// A declared enum. The resolution pass only needs its name to
/// classify accessor expressions.
#[derive(Debug)]
pub struct Enum {
    pub name: String,
    pub span: Span,
    pub variants: Vec<String>,
}

impl View for Enum {
    type V = EnumV;

    open spec fn view(&self) -> EnumV {
        EnumV {
            name: self.name@,
            span: self.span,
            variants: self.variants@.map_values(|s: String| s@),
        }
    }
}

/// One field of a struct declaration.
#[derive(Debug)]
pub struct Field {
    pub name: String,
    pub span: Span,
}

/// A declared struct (view): field order is kept.
#[verifier::ext_equal]
pub struct StructV {
    pub name: Seq<char>,
    pub span: Span,
    pub fields: Seq<(Seq<char>, Span)>,
}

/// A declared struct: the field order is semantically significant,
/// because struct-assignment expansion replays it.
#[derive(Debug)]
pub struct Struct {
    pub name: String,
    pub span: Span,
    pub fields: Vec<Field>,
}

impl View for Struct {
    type V = StructV;

    open spec fn view(&self) -> StructV {
        StructV {
            name: self.name@,
            span: self.span,
            fields: self.fields@.map_values(|f: Field| (f.name@, f.span)),
        }
    }
}

/// A declared procedure argument.
#[derive(Debug)]
pub struct Arg {
    pub name: String,
    pub span: Span,
}

/// Reference sets of one body (view): each component is the set of
/// names (or name pairs) referenced, of that kind.
#[verifier::ext_equal]
pub struct ReferencesV {
    pub vars: Set<Seq<char>>,
    pub lists: Set<Seq<char>>,
    pub procs: Set<Seq<char>>,
    pub messages: Set<Seq<char>>,
    pub enum_variants: Set<(Seq<char>, Seq<char>)>,
    pub struct_fields: Set<(Seq<char>, Seq<char>)>,
}

/// Every name a body referenced, by kind. Each list is duplicate-free
/// and stands for a set.
#[derive(Debug)]
pub struct References {
    pub vars: Vec<String>,
    pub lists: Vec<String>,
    pub procs: Vec<String>,
    pub messages: Vec<String>,
    pub enum_variants: Vec<(String, String)>,
    pub struct_fields: Vec<(String, String)>,
}

/// The set of viewed names in a name list.
pub open spec fn name_set(names: Seq<String>) -> Set<Seq<char>> {
    Set::new(|y: Seq<char>| exists|i: int| 0 <= i < names.len() && names[i]@ == y)
}

/// The set of viewed name pairs in a pair list.
pub open spec fn pair_set(pairs: Seq<(String, String)>) -> Set<(Seq<char>, Seq<char>)> {
    Set::new(
        |y: (Seq<char>, Seq<char>)|
            exists|i: int| 0 <= i < pairs.len() && (pairs[i].0@, pairs[i].1@) == y,
    )
}

impl View for References {
    type V = ReferencesV;

    open spec fn view(&self) -> ReferencesV {
        ReferencesV {
            vars: name_set(self.vars@),
            lists: name_set(self.lists@),
            procs: name_set(self.procs@),
            messages: name_set(self.messages@),
            enum_variants: pair_set(self.enum_variants@),
            struct_fields: pair_set(self.struct_fields@),
        }
    }
}

impl ReferencesV {
    /// The record with every component empty.
    pub open spec fn empty() -> ReferencesV {
        ReferencesV {
            vars: Set::<Seq<char>>::empty(),
            lists: Set::<Seq<char>>::empty(),
            procs: Set::<Seq<char>>::empty(),
            messages: Set::<Seq<char>>::empty(),
            enum_variants: Set::<(Seq<char>, Seq<char>)>::empty(),
            struct_fields: Set::<(Seq<char>, Seq<char>)>::empty(),
        }
    }
}

impl References {
    /// A fresh, empty reference record.
    pub fn new() -> (r: References)
        ensures
            r@ == ReferencesV::empty(),
    {
        let r = References {
            vars: Vec::new(),
            lists: Vec::new(),
            procs: Vec::new(),
            messages: Vec::new(),
            enum_variants: Vec::new(),
            struct_fields: Vec::new(),
        };
        proof {
            assert(r@.vars =~= Set::<Seq<char>>::empty());
            assert(r@.lists =~= Set::<Seq<char>>::empty());
            assert(r@.procs =~= Set::<Seq<char>>::empty());
            assert(r@.messages =~= Set::<Seq<char>>::empty());
            assert(r@.enum_variants =~= Set::<(Seq<char>, Seq<char>)>::empty());
            assert(r@.struct_fields =~= Set::<(Seq<char>, Seq<char>)>::empty());
        }
        r
    }
}

/// A procedure (view).
#[verifier::ext_equal]
pub struct ProcV {
    pub name: Seq<char>,
    pub span: Span,
    pub args: Seq<(Seq<char>, Span)>,
    pub used_args: Seq<bool>,
    pub locals: Seq<VarV>,
    pub body: Seq<StmtV>,
    pub references: ReferencesV,
}

/// A procedure: ordered declared arguments, a parallel used-argument
/// table, procedure-local variables, a body, and its reference record.
#[derive(Debug)]
pub struct Proc {
    pub name: String,
    pub span: Span,
    pub args: Vec<Arg>,
    /// `used_args[i]` says whether `args[i]` was ever read; the two
    /// vectors always have the same length.
    pub used_args: Vec<bool>,
    pub locals: Vec<Var>,
    pub body: Vec<Stmt>,
    pub references: References,
}

impl View for Proc {
    type V = ProcV;

    open spec fn view(&self) -> ProcV {
        ProcV {
            name: self.name@,
            span: self.span,
            args: self.args@.map_values(|a: Arg| (a.name@, a.span)),
            used_args: self.used_args@,
            locals: self.locals@.map_values(|v: Var| v@),
            body: view_stmts(self.body@),
            references: self.references@,
        }
    }
}

/// An event handler body (view).
#[verifier::ext_equal]
pub struct EventV {
    pub name: Seq<char>,
    pub span: Span,
    pub body: Seq<StmtV>,
    pub references: ReferencesV,
}

/// An event handler body.
#[derive(Debug)]
pub struct Event {
    pub name: String,
    pub span: Span,
    pub body: Vec<Stmt>,
    pub references: References,
}

impl View for Event {
    type V = EventV;

    open spec fn view(&self) -> EventV {
        EventV {
            name: self.name@,
            span: self.span,
            body: view_stmts(self.body@),
            references: self.references@,
        }
    }
}

/// A message handler body (view).
#[verifier::ext_equal]
pub struct OnMessageV {
    pub message: Seq<char>,
    pub span: Span,
    pub body: Seq<StmtV>,
    pub references: ReferencesV,
}

/// A message handler body.
#[derive(Debug)]
pub struct OnMessage {
    pub message: String,
    pub span: Span,
    pub body: Vec<Stmt>,
    pub references: References,
}

impl View for OnMessage {
    type V = OnMessageV;

    open spec fn view(&self) -> OnMessageV {
        OnMessageV {
            message: self.message@,
            span: self.span,
            body: view_stmts(self.body@),
            references: self.references@,
        }
    }
}

/// A sprite: the owner of declaration tables and bodies. Each table is
/// a name-keyed vector; lookup takes the first entry with the name, so
/// the first registration wins.
#[derive(Debug)]
pub struct Sprite {
    pub name: String,
    pub vars: Vec<Var>,
    pub lists: Vec<List>,
    pub enums: Vec<Enum>,
    pub structs: Vec<Struct>,
    pub procs: Vec<Proc>,
    pub events: Vec<Event>,
    pub on_messages: Vec<OnMessage>,
}

/// A sprite (view).
#[verifier::ext_equal]
pub struct SpriteV {
    pub name: Seq<char>,
    pub vars: Seq<VarV>,
    pub lists: Seq<ListV>,
    pub enums: Seq<EnumV>,
    pub structs: Seq<StructV>,
    pub procs: Seq<ProcV>,
    pub events: Seq<EventV>,
    pub on_messages: Seq<OnMessageV>,
}

impl View for Sprite {
    type V = SpriteV;

    open spec fn view(&self) -> SpriteV {
        SpriteV {
            name: self.name@,
            vars: self.vars@.map_values(|v: Var| v@),
            lists: self.lists@.map_values(|l: List| l@),
            enums: self.enums@.map_values(|e: Enum| e@),
            structs: self.structs@.map_values(|s: Struct| s@),
            procs: self.procs@.map_values(|p: Proc| p@),
            events: self.events@.map_values(|e: Event| e@),
            on_messages: self.on_messages@.map_values(|m: OnMessage| m@),
        }
    }
}

/// A whole project (view).
#[verifier::ext_equal]
pub struct ProjectV {
    pub stage: SpriteV,
    pub sprites: Seq<SpriteV>,
}

/// A whole project: the stage (the global scope) plus the sprites.
#[derive(Debug)]
pub struct Project {
    pub stage: Sprite,
    pub sprites: Vec<Sprite>,
}

impl View for Project {
    type V = ProjectV;

    open spec fn view(&self) -> ProjectV {
        ProjectV {
            stage: self.stage@,
            sprites: self.sprites@.map_values(|s: Sprite| s@),
        }
    }
}

/// The first variable with the given name, if any: lookup order is the
/// registration order, so the first registration wins.
pub open spec fn lookup_var(vars: Seq<VarV>, name: Seq<char>) -> Option<VarV>
    decreases vars,
{
    if vars.len() == 0 {
        None
    } else if vars[0].name == name {
        Some(vars[0])
    } else {
        lookup_var(vars.drop_first(), name)
    }
}

/// The first struct declaration with the given name, if any.
pub open spec fn lookup_struct(structs: Seq<StructV>, name: Seq<char>) -> Option<StructV>
    decreases structs,
{
    if structs.len() == 0 {
        None
    } else if structs[0].name == name {
        Some(structs[0])
    } else {
        lookup_struct(structs.drop_first(), name)
    }
}

/// Whether some list has the given name.
pub open spec fn has_list(lists: Seq<ListV>, name: Seq<char>) -> bool {
    exists|i: int| 0 <= i < lists.len() && lists[i].name == name
}

/// Whether some enum has the given name.
pub open spec fn has_enum(enums: Seq<EnumV>, name: Seq<char>) -> bool {
    exists|i: int| 0 <= i < enums.len() && enums[i].name == name
}

/// The element-wise views of a variable table.
pub open spec fn vars_view(s: Seq<Var>) -> Seq<VarV> {
    s.map_values(|x: Var| x@)
}

/// The element-wise views of a struct table.
pub open spec fn structs_view(s: Seq<Struct>) -> Seq<StructV> {
    s.map_values(|x: Struct| x@)
}

/// The element-wise views of a list table.
pub open spec fn lists_view(s: Seq<List>) -> Seq<ListV> {
    s.map_values(|x: List| x@)
}

/// The element-wise views of an enum table.
pub open spec fn enums_view(s: Seq<Enum>) -> Seq<EnumV> {
    s.map_values(|x: Enum| x@)
}

/// The element-wise views of a procedure table.
pub open spec fn procs_view(s: Seq<Proc>) -> Seq<ProcV> {
    s.map_values(|x: Proc| x@)
}

/// The first variable named `name`, searching the table front to back.
pub fn find_var<'a>(vars: &'a Vec<Var>, name: &String) -> (r: Option<&'a Var>)
    ensures
        match r {
            Some(v) => lookup_var(vars_view(vars@), name@) == Some(v@),
            None => lookup_var(vars_view(vars@), name@) is None,
        },
{
    let ghost vv = vars_view(vars@);
    let mut i: usize = 0;
    proof {
        assert(vv.skip(0) =~= vv);
    }
    while i < vars.len()
        invariant
            i <= vars.len(),
            vv == vars_view(vars@),
            lookup_var(vv, name@) == lookup_var(vv.skip(i as int), name@),
        decreases vars.len() - i,
    {
        proof {
            assert(vv.skip(i as int)[0] == vv[i as int]);
            assert(vv.skip(i as int).drop_first() =~= vv.skip(i as int + 1));
        }
        if vars[i].name == *name {
            return Some(&vars[i]);
        }
        i += 1;
    }
    proof {
        assert(vv.skip(vars.len() as int).len() == 0);
    }
    None
}

/// The first struct declaration named `name`.
pub fn find_struct<'a>(structs: &'a Vec<Struct>, name: &String) -> (r: Option<&'a Struct>)
    ensures
        match r {
            Some(s) => lookup_struct(structs_view(structs@), name@) == Some(s@),
            None => lookup_struct(structs_view(structs@), name@) is None,
        },
{
    let ghost vv = structs_view(structs@);
    let mut i: usize = 0;
    proof {
        assert(vv.skip(0) =~= vv);
    }
    while i < structs.len()
        invariant
            i <= structs.len(),
            vv == structs_view(structs@),
            lookup_struct(vv, name@) == lookup_struct(vv.skip(i as int), name@),
        decreases structs.len() - i,
    {
        proof {
            assert(vv.skip(i as int)[0] == vv[i as int]);
            assert(vv.skip(i as int).drop_first() =~= vv.skip(i as int + 1));
        }
        if structs[i].name == *name {
            return Some(&structs[i]);
        }
        i += 1;
    }
    proof {
        assert(vv.skip(structs.len() as int).len() == 0);
    }
    None
}

/// Whether the list table holds a list of this name.
pub fn contains_list(lists: &Vec<List>, name: &String) -> (r: bool)
    ensures
        r == has_list(lists_view(lists@), name@),
{
    let ghost vv = lists_view(lists@);
    let mut i: usize = 0;
    while i < lists.len()
        invariant
            i <= lists.len(),
            vv == lists_view(lists@),
            forall|j: int| 0 <= j < i ==> (#[trigger] vv[j]).name != name@,
        decreases lists.len() - i,
    {
        if lists[i].name == *name {
            proof {
                assert(vv[i as int].name == name@);
            }
            return true;
        }
        i += 1;
    }
    proof {
        assert(!has_list(vv, name@));
    }
    false
}

/// Whether the enum table holds an enum of this name.
pub fn contains_enum(enums: &Vec<Enum>, name: &String) -> (r: bool)
    ensures
        r == has_enum(enums_view(enums@), name@),
{
    let ghost vv = enums_view(enums@);
    let mut i: usize = 0;
    while i < enums.len()
        invariant
            i <= enums.len(),
            vv == enums_view(enums@),
            forall|j: int| 0 <= j < i ==> (#[trigger] vv[j]).name != name@,
        decreases enums.len() - i,
    {
        if enums[i].name == *name {
            proof {
                assert(vv[i as int].name == name@);
            }
            return true;
        }
        i += 1;
    }
    proof {
        assert(!has_enum(vv, name@));
    }
    false
}

/// Whether the name list holds this name.
pub fn contains_name(names: &Vec<String>, name: &String) -> (r: bool)
    ensures
        r == name_set(names@).contains(name@),
{
    let mut i: usize = 0;
    while i < names.len()
        invariant
            i <= names.len(),
            forall|j: int| 0 <= j < i ==> (#[trigger] names@[j])@ != name@,
        decreases names.len() - i,
    {
        if names[i] == *name {
            proof {
                assert(names@[i as int]@ == name@);
            }
            return true;
        }
        i += 1;
    }
    false
}

/// Record a name: append it unless it is already present, so the list
/// stays duplicate-free and stands for its set of names.
pub fn insert_name(names: &mut Vec<String>, name: &String)
    ensures
        name_set(final(names)@) == name_set(old(names)@).insert(name@),
{
    let present = contains_name(names, name);
    if !present {
        names.push(name.clone());
    }
    proof {
        let oldn = old(names)@;
        let newn = final(names)@;
        assert forall|y: Seq<char>| name_set(newn).contains(y) implies name_set(oldn).insert(
            name@,
        ).contains(y) by {
            let i = choose|i: int| 0 <= i < newn.len() && newn[i]@ == y;
            if i < oldn.len() {
                assert(oldn[i]@ == y);
            } else {
                assert(y == name@);
            }
        }
        assert forall|y: Seq<char>| name_set(oldn).insert(name@).contains(y) implies name_set(
            newn,
        ).contains(y) by {
            if y == name@ {
                if present {
                    let i = choose|i: int| 0 <= i < oldn.len() && oldn[i]@ == y;
                    assert(newn[i]@ == y);
                } else {
                    assert(newn[newn.len() - 1]@ == y);
                }
            } else {
                let i = choose|i: int| 0 <= i < oldn.len() && oldn[i]@ == y;
                assert(newn[i]@ == y);
            }
        }
        assert(name_set(newn) =~= name_set(oldn).insert(name@));
    }
}

/// Whether the pair list holds this pair.
pub fn contains_pair(pairs: &Vec<(String, String)>, a: &String, b: &String) -> (r: bool)
    ensures
        r == pair_set(pairs@).contains((a@, b@)),
{
    let mut i: usize = 0;
    while i < pairs.len()
        invariant
            i <= pairs.len(),
            forall|j: int| 0 <= j < i ==> ((#[trigger] pairs@[j]).0@, pairs@[j].1@) != (a@, b@),
        decreases pairs.len() - i,
    {
        if pairs[i].0 == *a && pairs[i].1 == *b {
            proof {
                assert((pairs@[i as int].0@, pairs@[i as int].1@) == (a@, b@));
            }
            return true;
        }
        i += 1;
    }
    false
}

/// Record a name pair: append it unless it is already present.
pub fn insert_pair(pairs: &mut Vec<(String, String)>, a: &String, b: &String)
    ensures
        pair_set(final(pairs)@) == pair_set(old(pairs)@).insert((a@, b@)),
{
    let present = contains_pair(pairs, a, b);
    if !present {
        pairs.push((a.clone(), b.clone()));
    }
    proof {
        let oldp = old(pairs)@;
        let newp = final(pairs)@;
        assert forall|y: (Seq<char>, Seq<char>)| pair_set(newp).contains(y) implies pair_set(
            oldp,
        ).insert((a@, b@)).contains(y) by {
            let i = choose|i: int| 0 <= i < newp.len() && (newp[i].0@, newp[i].1@) == y;
            if i < oldp.len() {
                assert((oldp[i].0@, oldp[i].1@) == y);
            } else {
                assert(y == (a@, b@));
            }
        }
        assert forall|y: (Seq<char>, Seq<char>)| pair_set(oldp).insert((a@, b@)).contains(y)
            implies pair_set(newp).contains(y) by {
            if y == (a@, b@) {
                if present {
                    let i = choose|i: int| 0 <= i < oldp.len() && (oldp[i].0@, oldp[i].1@) == y;
                    assert((newp[i].0@, newp[i].1@) == y);
                } else {
                    assert((newp[newp.len() - 1].0@, newp[newp.len() - 1].1@) == y);
                }
            } else {
                let i = choose|i: int| 0 <= i < oldp.len() && (oldp[i].0@, oldp[i].1@) == y;
                assert((newp[i].0@, newp[i].1@) == y);
            }
        }
        assert(pair_set(newp) =~= pair_set(oldp).insert((a@, b@)));
    }
}

} // verus!
