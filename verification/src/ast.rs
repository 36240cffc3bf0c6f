//! The syntax-tree model: a tagged-union node representation of the part of
//! the module grammar that the rewriters read and produce, with a ghost
//! mirror (`…V` types over `Seq`) that the contracts are stated over.
//!
//! Syntax that the transformation never touches is carried through as an
//! `Opaque` node; the caller that built the tree keeps the original node
//! under the carried id and restores it when printing.
use vstd::prelude::*;

verus! {

/// A binding pattern, as far as the applier needs to read it.
#[derive(Debug, PartialEq)]
pub enum Pat {
    /// A plain identifier binding.
    Id { name: String },
    /// An object-destructuring binding: the names it binds.
    Obj { names: Vec<String> },
    /// Any other pattern, carried through unread.
    Other { id: u64 },
}

/// An expression node. Literal nodes carry the 0-based source line they
/// start on, so the suppressing-comment scan can look at the lines above.
#[derive(Debug, PartialEq)]
pub enum Expr {
    StrLit { value: String, line: usize },
    TplLit { quasis: Vec<String>, exprs: Vec<Expr>, line: usize },
    Ident { name: String },
    /// `obj.prop`; `prop` is None for a computed or otherwise non-identifier
    /// property.
    Member { obj: Box<Expr>, prop: Option<String> },
    Call { callee: Box<Expr>, args: Vec<Expr> },
    ObjectLit { props: Vec<(String, Expr)> },
    Arrow { is_async: bool, body: Vec<Stmt> },
    JsxElement { name: String, attrs: Vec<(String, Option<Expr>)>, children: Vec<Expr> },
    JsxText { value: String, line: usize },
    JsxExprContainer { inner: Box<Expr> },
    Await { inner: Box<Expr> },
    Opaque { id: u64 },
}

/// A statement or module item.
#[derive(Debug, PartialEq)]
pub enum Stmt {
    Expr { expr: Expr },
    Return { arg: Option<Expr> },
    VarDecl { decls: Vec<(Pat, Expr)> },
    FnDecl { name: String, is_async: bool, body: Vec<Stmt> },
    Import { names: Vec<String>, source: String },
    Opaque { id: u64 },
}

/// A module: the statement list of one source file.
#[derive(Debug, PartialEq)]
pub struct Module {
    pub body: Vec<Stmt>,
}

#[verifier::ext_equal]
pub enum PatV {
    Id { name: Seq<char> },
    Obj { names: Seq<Seq<char>> },
    Other { id: u64 },
}

#[verifier::ext_equal]
pub enum ExprV {
    StrLit { value: Seq<char>, line: usize },
    TplLit { quasis: Seq<Seq<char>>, exprs: Seq<ExprV>, line: usize },
    Ident { name: Seq<char> },
    Member { obj: Box<ExprV>, prop: Option<Seq<char>> },
    Call { callee: Box<ExprV>, args: Seq<ExprV> },
    ObjectLit { props: Seq<(Seq<char>, ExprV)> },
    Arrow { is_async: bool, body: Seq<StmtV> },
    JsxElement {
        name: Seq<char>,
        attrs: Seq<(Seq<char>, Option<ExprV>)>,
        children: Seq<ExprV>,
    },
    JsxText { value: Seq<char>, line: usize },
    JsxExprContainer { inner: Box<ExprV> },
    Await { inner: Box<ExprV> },
    Opaque { id: u64 },
}

#[verifier::ext_equal]
pub enum StmtV {
    Expr { expr: ExprV },
    Return { arg: Option<ExprV> },
    VarDecl { decls: Seq<(PatV, ExprV)> },
    FnDecl { name: Seq<char>, is_async: bool, body: Seq<StmtV> },
    Import { names: Seq<Seq<char>>, source: Seq<char> },
    Opaque { id: u64 },
}

#[verifier::ext_equal]
pub struct ModuleV {
    pub body: Seq<StmtV>,
}

pub open spec fn strings_view(v: Seq<String>) -> Seq<Seq<char>> {
    v.map_values(|s: String| s@)
}

impl View for Pat {
    type V = PatV;

    open spec fn view(&self) -> PatV {
        pat_view(*self)
    }
}

impl View for Expr {
    type V = ExprV;

    open spec fn view(&self) -> ExprV {
        expr_view(*self)
    }
}

impl View for Stmt {
    type V = StmtV;

    open spec fn view(&self) -> StmtV {
        stmt_view(*self)
    }
}

impl View for Module {
    type V = ModuleV;

    open spec fn view(&self) -> ModuleV {
        ModuleV { body: stmts_view(self.body@) }
    }
}

pub open spec fn pat_view(p: Pat) -> PatV {
    match p {
        Pat::Id { name } => PatV::Id { name: name@ },
        Pat::Obj { names } => PatV::Obj { names: strings_view(names@) },
        Pat::Other { id } => PatV::Other { id },
    }
}

pub open spec fn expr_view(e: Expr) -> ExprV
    decreases e,
{
    match e {
        Expr::StrLit { value, line } => ExprV::StrLit { value: value@, line },
        Expr::TplLit { quasis, exprs, line } => ExprV::TplLit {
            quasis: strings_view(quasis@),
            exprs: exprs_view(exprs@),
            line,
        },
        Expr::Ident { name } => ExprV::Ident { name: name@ },
        Expr::Member { obj, prop } => ExprV::Member {
            obj: Box::new(expr_view(*obj)),
            prop: match prop {
                Some(p) => Some(p@),
                None => None,
            },
        },
        Expr::Call { callee, args } => ExprV::Call {
            callee: Box::new(expr_view(*callee)),
            args: exprs_view(args@),
        },
        Expr::ObjectLit { props } => ExprV::ObjectLit { props: props_view(props@) },
        Expr::Arrow { is_async, body } => ExprV::Arrow {
            is_async,
            body: stmts_view(body@),
        },
        Expr::JsxElement { name, attrs, children } => ExprV::JsxElement {
            name: name@,
            attrs: attrs_view(attrs@),
            children: exprs_view(children@),
        },
        Expr::JsxText { value, line } => ExprV::JsxText { value: value@, line },
        Expr::JsxExprContainer { inner } => ExprV::JsxExprContainer {
            inner: Box::new(expr_view(*inner)),
        },
        Expr::Await { inner } => ExprV::Await { inner: Box::new(expr_view(*inner)) },
        Expr::Opaque { id } => ExprV::Opaque { id },
    }
}

pub open spec fn stmt_view(s: Stmt) -> StmtV
    decreases s,
{
    match s {
        Stmt::Expr { expr } => StmtV::Expr { expr: expr_view(expr) },
        Stmt::Return { arg } => StmtV::Return {
            arg: match arg {
                Some(e) => Some(expr_view(e)),
                None => None,
            },
        },
        Stmt::VarDecl { decls } => StmtV::VarDecl { decls: decls_view(decls@) },
        Stmt::FnDecl { name, is_async, body } => StmtV::FnDecl {
            name: name@,
            is_async,
            body: stmts_view(body@),
        },
        Stmt::Import { names, source } => StmtV::Import {
            names: strings_view(names@),
            source: source@,
        },
        Stmt::Opaque { id } => StmtV::Opaque { id },
    }
}

pub open spec fn exprs_view(v: Seq<Expr>) -> Seq<ExprV>
    decreases v,
{
    if v.len() == 0 {
        Seq::empty()
    } else {
        exprs_view(v.drop_last()).push(expr_view(v.last()))
    }
}

pub open spec fn props_view(v: Seq<(String, Expr)>) -> Seq<(Seq<char>, ExprV)>
    decreases v,
{
    if v.len() == 0 {
        Seq::empty()
    } else {
        props_view(v.drop_last()).push((v.last().0@, expr_view(v.last().1)))
    }
}

pub open spec fn attrs_view(v: Seq<(String, Option<Expr>)>) -> Seq<(Seq<char>, Option<ExprV>)>
    decreases v,
{
    if v.len() == 0 {
        Seq::empty()
    } else {
        attrs_view(v.drop_last()).push(
            (
                v.last().0@,
                match v.last().1 {
                    Some(e) => Some(expr_view(e)),
                    None => None,
                },
            ),
        )
    }
}

pub open spec fn decls_view(v: Seq<(Pat, Expr)>) -> Seq<(PatV, ExprV)>
    decreases v,
{
    if v.len() == 0 {
        Seq::empty()
    } else {
        decls_view(v.drop_last()).push((pat_view(v.last().0), expr_view(v.last().1)))
    }
}

pub open spec fn stmts_view(v: Seq<Stmt>) -> Seq<StmtV>
    decreases v,
{
    if v.len() == 0 {
        Seq::empty()
    } else {
        stmts_view(v.drop_last()).push(stmt_view(v.last()))
    }
}

pub broadcast proof fn lemma_exprs_view(v: Seq<Expr>)
    ensures
        (#[trigger] exprs_view(v)).len() == v.len(),
        forall|i: int| 0 <= i < v.len() ==> exprs_view(v)[i] == expr_view(v[i]),
    decreases v.len(),
{
    if v.len() > 0 {
        lemma_exprs_view(v.drop_last());
    }
}

pub broadcast proof fn lemma_props_view(v: Seq<(String, Expr)>)
    ensures
        (#[trigger] props_view(v)).len() == v.len(),
        forall|i: int|
            0 <= i < v.len() ==> props_view(v)[i] == (v[i].0@, expr_view(v[i].1)),
    decreases v.len(),
{
    if v.len() > 0 {
        lemma_props_view(v.drop_last());
    }
}

pub broadcast proof fn lemma_attrs_view(v: Seq<(String, Option<Expr>)>)
    ensures
        (#[trigger] attrs_view(v)).len() == v.len(),
        forall|i: int|
            0 <= i < v.len() ==> attrs_view(v)[i] == (
                v[i].0@,
                match v[i].1 {
                    Some(e) => Some(expr_view(e)),
                    None => None,
                },
            ),
    decreases v.len(),
{
    if v.len() > 0 {
        lemma_attrs_view(v.drop_last());
    }
}

pub broadcast proof fn lemma_decls_view(v: Seq<(Pat, Expr)>)
    ensures
        (#[trigger] decls_view(v)).len() == v.len(),
        forall|i: int|
            0 <= i < v.len() ==> decls_view(v)[i] == (pat_view(v[i].0), expr_view(v[i].1)),
    decreases v.len(),
{
    if v.len() > 0 {
        lemma_decls_view(v.drop_last());
    }
}

pub broadcast proof fn lemma_stmts_view(v: Seq<Stmt>)
    ensures
        (#[trigger] stmts_view(v)).len() == v.len(),
        forall|i: int| 0 <= i < v.len() ==> stmts_view(v)[i] == stmt_view(v[i]),
    decreases v.len(),
{
    if v.len() > 0 {
        lemma_stmts_view(v.drop_last());
    }
}

} // verus!
