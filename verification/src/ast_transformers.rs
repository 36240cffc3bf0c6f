//! The rewriters and the component walker: string literals, template
//! literals and JSX text inside component bodies become calls to the
//! translation function `t`; template literals gain an interpolation
//! pattern and a key/value object for their embedded expressions.
use vstd::prelude::*;

verus! {

use crate::ast::{ExprV, PatV, StmtV, ModuleV};
use crate::ast_helpers::has_marker;
use crate::utils::{spec_is_component_name, spec_should_translate};
use crate::text::spec_trim;

/// The translation function identifier.
pub open spec fn t_ident() -> ExprV {
    ExprV::Ident { name: "t"@ }
}

/// A call of the translation function on one argument.
pub open spec fn mk_t_call(arg: ExprV) -> ExprV {
    ExprV::Call { callee: Box::new(t_ident()), args: seq![arg] }
}

/// A node on this line is suppressed: a recognized marker stands in one of
/// the up to three lines directly above it.
pub open spec fn skip_at(lines: Seq<Seq<char>>, line: usize) -> bool {
    exists|j: int|
        line - 3 <= j < line && 0 <= j < lines.len() && has_marker(#[trigger] lines[j])
}

/// A call that already wraps a literal in the translation function: its
/// callee is `t` and its first argument is a string or template literal.
/// Such a call, the produced replacement shape included, is left whole;
/// nothing below it is rewritten again.
pub open spec fn already_wrapped(callee: ExprV, args: Seq<ExprV>) -> bool {
    callee == t_ident() && args.len() >= 1 && (args[0] is StrLit || args[0] is TplLit)
}

/// A template literal is eligible when at least one of its constant chunks
/// holds target-script text.
pub open spec fn tpl_eligible(quasis: Seq<Seq<char>>) -> bool {
    exists|i: int| 0 <= i < quasis.len() && crate::text::has_target_script(#[trigger] quasis[i])
}

/// The decimal digits of `n`.
pub open spec fn dec_str(n: nat) -> Seq<char>
    decreases n,
{
    if n < 10 {
        seq![digit_char(n)]
    } else {
        dec_str(n / 10) + seq![digit_char(n % 10)]
    }
}

pub open spec fn digit_char(d: nat) -> char {
    if d == 0 {
        '0'
    } else if d == 1 {
        '1'
    } else if d == 2 {
        '2'
    } else if d == 3 {
        '3'
    } else if d == 4 {
        '4'
    } else if d == 5 {
        '5'
    } else if d == 6 {
        '6'
    } else if d == 7 {
        '7'
    } else if d == 8 {
        '8'
    } else {
        '9'
    }
}

/// The name a member-access chain of identifiers flattens to: the
/// identifiers joined with `_`, in access order. `None` when the chain
/// holds anything but plain identifiers.
pub open spec fn member_name(e: ExprV) -> Option<Seq<char>>
    decreases e,
{
    match e {
        ExprV::Ident { name } => Some(name),
        ExprV::Member { obj, prop } => match (member_name(*obj), prop) {
            (Some(base), Some(p)) => Some(base + "_"@ + p),
            _ => None,
        },
        _ => None,
    }
}

/// The key under which an embedded expression lands in the interpolation
/// object: its own name for an identifier, the flattened chain for a member
/// access, and a positional placeholder name otherwise.
pub open spec fn var_name(e: ExprV, idx: nat) -> Seq<char> {
    match member_name(e) {
        Some(n) => n,
        None => "expr"@ + dec_str(idx),
    }
}

/// The interpolation-pattern string from chunk `i` on: each constant chunk
/// verbatim, followed by `{{name}}` for the following embedded expression.
pub open spec fn pattern_of(quasis: Seq<Seq<char>>, exprs: Seq<ExprV>, i: int) -> Seq<char>
    decreases quasis.len() - i,
{
    if i < 0 || i >= quasis.len() {
        Seq::empty()
    } else if i < exprs.len() {
        quasis[i] + "{{"@ + var_name(exprs[i], i as nat) + "}}"@ + pattern_of(
            quasis,
            exprs,
            i + 1,
        )
    } else {
        quasis[i] + pattern_of(quasis, exprs, i + 1)
    }
}

/// The interpolation object entries from expression `i` on: each embedded
/// expression verbatim under its derived key. Colliding keys are not
/// de-duplicated; the last writer wins in the emitted object.
pub open spec fn props_of(exprs: Seq<ExprV>, i: int) -> Seq<(Seq<char>, ExprV)>
    decreases exprs.len() - i,
{
    if i < 0 || i >= exprs.len() {
        Seq::empty()
    } else {
        seq![(var_name(exprs[i], i as nat), exprs[i])] + props_of(exprs, i + 1)
    }
}

/// The replacement for an eligible template literal: the pattern string,
/// and the interpolation object unless no expression is embedded.
pub open spec fn tpl_replacement(
    quasis: Seq<Seq<char>>,
    exprs: Seq<ExprV>,
    line: usize,
) -> ExprV {
    if exprs.len() == 0 {
        mk_t_call(ExprV::StrLit { value: pattern_of(quasis, exprs, 0), line })
    } else {
        ExprV::Call {
            callee: Box::new(t_ident()),
            args: seq![
                ExprV::StrLit { value: pattern_of(quasis, exprs, 0), line },
                ExprV::ObjectLit { props: props_of(exprs, 0) },
            ],
        }
    }
}

/// The rewrite of one expression. `active` says whether the walker stands
/// inside the body of a component or custom hook; only there are literals
/// offered to the rewriters.
pub open spec fn tx_expr(e: ExprV, lines: Seq<Seq<char>>, active: bool) -> ExprV
    decreases e, 1int,
{
    match e {
        ExprV::StrLit { value, line } => if active && !skip_at(lines, line)
            && spec_should_translate(value) {
            mk_t_call(e)
        } else {
            e
        },
        ExprV::TplLit { quasis, exprs, line } => if active && !skip_at(lines, line)
            && tpl_eligible(quasis) {
            tpl_replacement(quasis, exprs, line)
        } else {
            ExprV::TplLit { quasis, exprs: tx_exprs(exprs, lines, active), line }
        },
        ExprV::Ident { .. } => e,
        ExprV::Member { obj, prop } => ExprV::Member {
            obj: Box::new(tx_expr(*obj, lines, active)),
            prop,
        },
        ExprV::Call { callee, args } => if already_wrapped(*callee, args) {
            e
        } else {
            ExprV::Call {
                callee: Box::new(tx_expr(*callee, lines, active)),
                args: tx_exprs(args, lines, active),
            }
        },
        ExprV::ObjectLit { props } => ExprV::ObjectLit {
            props: tx_props(props, lines, active),
        },
        ExprV::Arrow { is_async, body } => ExprV::Arrow {
            is_async,
            body: tx_stmts(body, lines, active),
        },
        ExprV::JsxElement { name, attrs, children } => ExprV::JsxElement {
            name,
            attrs: tx_attrs(attrs, lines, active),
            children: tx_exprs(children, lines, active),
        },
        ExprV::JsxText { value, line } => if active && !skip_at(lines, line)
            && spec_should_translate(value) {
            ExprV::JsxExprContainer {
                inner: Box::new(mk_t_call(ExprV::StrLit { value: spec_trim(value), line })),
            }
        } else {
            e
        },
        ExprV::JsxExprContainer { inner } => ExprV::JsxExprContainer {
            inner: Box::new(tx_expr(*inner, lines, active)),
        },
        ExprV::Await { inner } => ExprV::Await {
            inner: Box::new(tx_expr(*inner, lines, active)),
        },
        ExprV::Opaque { .. } => e,
    }
}

pub open spec fn tx_exprs(es: Seq<ExprV>, lines: Seq<Seq<char>>, active: bool) -> Seq<ExprV>
    decreases es, 0int,
{
    if es.len() == 0 {
        Seq::empty()
    } else {
        tx_exprs(es.drop_last(), lines, active).push(tx_expr(es.last(), lines, active))
    }
}

/// Object-literal properties: values are rewritten, keys never are.
pub open spec fn tx_props(
    ps: Seq<(Seq<char>, ExprV)>,
    lines: Seq<Seq<char>>,
    active: bool,
) -> Seq<(Seq<char>, ExprV)>
    decreases ps, 0int,
{
    if ps.len() == 0 {
        Seq::empty()
    } else {
        tx_props(ps.drop_last(), lines, active).push(
            (ps.last().0, tx_expr(ps.last().1, lines, active)),
        )
    }
}

/// The rewrite of one JSX attribute value: an eligible string literal is
/// wrapped, and the call stands in an expression container so the tree
/// stays well-formed in attribute position.
pub open spec fn tx_attr_value(
    v: ExprV,
    lines: Seq<Seq<char>>,
    active: bool,
) -> ExprV
    decreases v, 2int,
{
    match v {
        ExprV::StrLit { value, line } => if active && !skip_at(lines, line)
            && spec_should_translate(value) {
            ExprV::JsxExprContainer { inner: Box::new(mk_t_call(v)) }
        } else {
            v
        },
        _ => tx_expr(v, lines, active),
    }
}

pub open spec fn tx_attrs(
    ats: Seq<(Seq<char>, Option<ExprV>)>,
    lines: Seq<Seq<char>>,
    active: bool,
) -> Seq<(Seq<char>, Option<ExprV>)>
    decreases ats, 0int,
{
    if ats.len() == 0 {
        Seq::empty()
    } else {
        tx_attrs(ats.drop_last(), lines, active).push(
            (
                ats.last().0,
                match ats.last().1 {
                    Some(v) => Some(tx_attr_value(v, lines, active)),
                    None => None,
                },
            ),
        )
    }
}

/// One declarator: an arrow initializer re-enters the walker under the
/// classification of its binding name; an unnamed or destructured binding
/// never activates rewriting of the function it holds.
pub open spec fn tx_decl(
    d: (PatV, ExprV),
    lines: Seq<Seq<char>>,
    active: bool,
) -> (PatV, ExprV)
    decreases d, 3int,
{
    match d.1 {
        ExprV::Arrow { is_async, body } => (
            d.0,
            ExprV::Arrow {
                is_async,
                body: tx_stmts(
                    body,
                    lines,
                    match d.0 {
                        PatV::Id { name } => spec_is_component_name(name),
                        _ => false,
                    },
                ),
            },
        ),
        _ => (d.0, tx_expr(d.1, lines, active)),
    }
}

pub open spec fn tx_decls(
    ds: Seq<(PatV, ExprV)>,
    lines: Seq<Seq<char>>,
    active: bool,
) -> Seq<(PatV, ExprV)>
    decreases ds, 0int,
{
    if ds.len() == 0 {
        Seq::empty()
    } else {
        tx_decls(ds.drop_last(), lines, active).push(tx_decl(ds.last(), lines, active))
    }
}

/// The rewrite of one statement. A function declaration re-enters the
/// walker under the classification of its own name; import declarations
/// are never touched.
pub open spec fn tx_stmt(s: StmtV, lines: Seq<Seq<char>>, active: bool) -> StmtV
    decreases s, 1int,
{
    match s {
        StmtV::Expr { expr } => StmtV::Expr { expr: tx_expr(expr, lines, active) },
        StmtV::Return { arg } => StmtV::Return {
            arg: match arg {
                Some(e) => Some(tx_expr(e, lines, active)),
                None => None,
            },
        },
        StmtV::VarDecl { decls } => StmtV::VarDecl { decls: tx_decls(decls, lines, active) },
        StmtV::FnDecl { name, is_async, body } => StmtV::FnDecl {
            name,
            is_async,
            body: tx_stmts(body, lines, spec_is_component_name(name)),
        },
        StmtV::Import { .. } => s,
        StmtV::Opaque { .. } => s,
    }
}

pub open spec fn tx_stmts(ss: Seq<StmtV>, lines: Seq<Seq<char>>, active: bool) -> Seq<StmtV>
    decreases ss, 0int,
{
    if ss.len() == 0 {
        Seq::empty()
    } else {
        tx_stmts(ss.drop_last(), lines, active).push(tx_stmt(ss.last(), lines, active))
    }
}

/// The rewrite of a whole module. At module scope the walker stands
/// outside every function, so nothing is rewritten until it enters a
/// component or hook body.
pub open spec fn tx_module(m: ModuleV, lines: Seq<Seq<char>>) -> ModuleV {
    ModuleV { body: tx_stmts(m.body, lines, false) }
}

/// The names that one top-level declarator batch contributes to the
/// modified-function registry.
pub open spec fn decl_changed_names(
    ds: Seq<(PatV, ExprV)>,
    lines: Seq<Seq<char>>,
) -> Seq<Seq<char>>
    decreases ds,
{
    if ds.len() == 0 {
        Seq::empty()
    } else {
        decl_changed_names(ds.drop_last(), lines) + match ds.last() {
            (PatV::Id { name }, ExprV::Arrow { is_async: _, body }) => if
                spec_is_component_name(name) && tx_stmts(body, lines, true) != body {
                seq![name]
            } else {
                Seq::empty()
            },
            _ => Seq::empty(),
        }
    }
}

/// The names one top-level statement contributes to the registry: a
/// component or hook whose body the rewrite changed.
pub open spec fn stmt_changed_names(s: StmtV, lines: Seq<Seq<char>>) -> Seq<Seq<char>> {
    match s {
        StmtV::FnDecl { name, is_async: _, body } => if spec_is_component_name(name)
            && tx_stmts(body, lines, true) != body {
            seq![name]
        } else {
            Seq::empty()
        },
        StmtV::VarDecl { decls } => decl_changed_names(decls, lines),
        _ => Seq::empty(),
    }
}

/// Append the given names to the registry, in order, once each.
pub open spec fn append_new(r: Seq<Seq<char>>, ns: Seq<Seq<char>>) -> Seq<Seq<char>>
    decreases ns,
{
    if ns.len() == 0 {
        r
    } else {
        let r1 = append_new(r, ns.drop_last());
        if r1.contains(ns.last()) {
            r1
        } else {
            r1.push(ns.last())
        }
    }
}

/// The modified-function registry of a module: the ordered distinct names
/// of the top-level components and hooks whose bodies the rewrite changed.
pub open spec fn registry(ss: Seq<StmtV>, lines: Seq<Seq<char>>) -> Seq<Seq<char>>
    decreases ss,
{
    if ss.len() == 0 {
        Seq::empty()
    } else {
        append_new(registry(ss.drop_last(), lines), stmt_changed_names(ss.last(), lines))
    }
}


pub broadcast proof fn lemma_tx_exprs(es: Seq<ExprV>, lines: Seq<Seq<char>>, active: bool)
    ensures
        (#[trigger] tx_exprs(es, lines, active)).len() == es.len(),
        forall|i: int|
            0 <= i < es.len() ==> tx_exprs(es, lines, active)[i] == tx_expr(
                es[i],
                lines,
                active,
            ),
    decreases es.len(),
{
    if es.len() > 0 {
        lemma_tx_exprs(es.drop_last(), lines, active);
    }
}

pub broadcast proof fn lemma_tx_props(
    ps: Seq<(Seq<char>, ExprV)>,
    lines: Seq<Seq<char>>,
    active: bool,
)
    ensures
        (#[trigger] tx_props(ps, lines, active)).len() == ps.len(),
        forall|i: int|
            0 <= i < ps.len() ==> tx_props(ps, lines, active)[i] == (
                ps[i].0,
                tx_expr(ps[i].1, lines, active),
            ),
    decreases ps.len(),
{
    if ps.len() > 0 {
        lemma_tx_props(ps.drop_last(), lines, active);
    }
}

pub broadcast proof fn lemma_tx_attrs(
    ats: Seq<(Seq<char>, Option<ExprV>)>,
    lines: Seq<Seq<char>>,
    active: bool,
)
    ensures
        (#[trigger] tx_attrs(ats, lines, active)).len() == ats.len(),
        forall|i: int|
            0 <= i < ats.len() ==> tx_attrs(ats, lines, active)[i] == (
                ats[i].0,
                match ats[i].1 {
                    Some(v) => Some(tx_attr_value(v, lines, active)),
                    None => None,
                },
            ),
    decreases ats.len(),
{
    if ats.len() > 0 {
        lemma_tx_attrs(ats.drop_last(), lines, active);
    }
}

pub broadcast proof fn lemma_tx_decls(
    ds: Seq<(PatV, ExprV)>,
    lines: Seq<Seq<char>>,
    active: bool,
)
    ensures
        (#[trigger] tx_decls(ds, lines, active)).len() == ds.len(),
        forall|i: int|
            0 <= i < ds.len() ==> tx_decls(ds, lines, active)[i] == tx_decl(
                ds[i],
                lines,
                active,
            ),
    decreases ds.len(),
{
    if ds.len() > 0 {
        lemma_tx_decls(ds.drop_last(), lines, active);
    }
}

pub broadcast proof fn lemma_tx_stmts(ss: Seq<StmtV>, lines: Seq<Seq<char>>, active: bool)
    ensures
        (#[trigger] tx_stmts(ss, lines, active)).len() == ss.len(),
        forall|i: int|
            0 <= i < ss.len() ==> tx_stmts(ss, lines, active)[i] == tx_stmt(
                ss[i],
                lines,
                active,
            ),
    decreases ss.len(),
{
    if ss.len() > 0 {
        lemma_tx_stmts(ss.drop_last(), lines, active);
    }
}


// ---------------------------------------------------------------------------
// Verbatim copies: owned, value-equal copies of subtrees. The rewriters use
// them where a node is carried over unchanged, such as the expressions moved
// into the interpolation object and the arguments of an already-wrapped call.
// ---------------------------------------------------------------------------

use crate::ast::{
    attrs_view, decls_view, expr_view, exprs_view, lemma_attrs_view, lemma_decls_view,
    lemma_exprs_view, lemma_props_view, lemma_stmts_view, pat_view, props_view, stmt_view,
    stmts_view, strings_view, Expr, Module, Pat, Stmt,
};
use crate::text::string_clone;

/// An owned copy of a string vector, with the same view.
pub(crate) fn clone_strings(v: &Vec<String>) -> (r: Vec<String>)
    ensures
        strings_view(r@) == strings_view(v@),
{
    let mut out: Vec<String> = Vec::new();
    let mut i: usize = 0;
    while i < v.len()
        invariant
            i <= v@.len(),
            out@.len() == i,
            forall|j: int| 0 <= j < i ==> out@[j]@ == #[trigger] v@[j]@,
        decreases v@.len() - i,
    {
        out.push(string_clone(&v[i]));
        i += 1;
    }
    proof {
        assert(strings_view(out@) =~= strings_view(v@));
    }
    out
}

pub(crate) fn clone_opt_string(v: &Option<String>) -> (r: Option<String>)
    ensures
        match v {
            Some(s) => r matches Some(t) && t@ == s@,
            None => r is None,
        },
{
    match v {
        Some(s) => Some(string_clone(s)),
        None => None,
    }
}

pub(crate) fn copy_pat(p: &Pat) -> (r: Pat)
    ensures
        pat_view(r) == pat_view(*p),
{
    match p {
        Pat::Id { name } => Pat::Id { name: string_clone(name) },
        Pat::Obj { names } => Pat::Obj { names: clone_strings(names) },
        Pat::Other { id } => Pat::Other { id: *id },
    }
}

/// An owned copy of an expression, equal in view.
pub(crate) fn copy_expr(e: &Expr) -> (r: Expr)
    ensures
        expr_view(r) == expr_view(*e),
    decreases e,
{
    match e {
        Expr::StrLit { value, line } => Expr::StrLit {
            value: string_clone(value),
            line: *line,
        },
        Expr::TplLit { quasis, exprs, line } => Expr::TplLit {
            quasis: clone_strings(quasis),
            exprs: copy_exprs(exprs),
            line: *line,
        },
        Expr::Ident { name } => Expr::Ident { name: string_clone(name) },
        Expr::Member { obj, prop } => Expr::Member {
            obj: Box::new(copy_expr(obj)),
            prop: clone_opt_string(prop),
        },
        Expr::Call { callee, args } => Expr::Call {
            callee: Box::new(copy_expr(callee)),
            args: copy_exprs(args),
        },
        Expr::ObjectLit { props } => Expr::ObjectLit { props: copy_props(props) },
        Expr::Arrow { is_async, body } => Expr::Arrow {
            is_async: *is_async,
            body: copy_stmts(body),
        },
        Expr::JsxElement { name, attrs, children } => Expr::JsxElement {
            name: string_clone(name),
            attrs: copy_attrs(attrs),
            children: copy_exprs(children),
        },
        Expr::JsxText { value, line } => Expr::JsxText {
            value: string_clone(value),
            line: *line,
        },
        Expr::JsxExprContainer { inner } => Expr::JsxExprContainer {
            inner: Box::new(copy_expr(inner)),
        },
        Expr::Await { inner } => Expr::Await { inner: Box::new(copy_expr(inner)) },
        Expr::Opaque { id } => Expr::Opaque { id: *id },
    }
}

pub(crate) fn copy_exprs(v: &Vec<Expr>) -> (r: Vec<Expr>)
    ensures
        exprs_view(r@) == exprs_view(v@),
    decreases v,
{
    let mut out: Vec<Expr> = Vec::new();
    let mut i: usize = 0;
    while i < v.len()
        invariant
            i <= v@.len(),
            out@.len() == i,
            forall|j: int| 0 <= j < i ==> expr_view(out@[j]) == expr_view(#[trigger] v@[j]),
        decreases v@.len() - i,
    {
        proof {
            assert(decreases_to!(v => v@));
            assert(decreases_to!(v@ => v@[i as int]));
        }
        out.push(copy_expr(&v[i]));
        i += 1;
    }
    proof {
        lemma_exprs_view(out@);
        lemma_exprs_view(v@);
        assert(exprs_view(out@) =~= exprs_view(v@));
    }
    out
}

pub(crate) fn copy_props(v: &Vec<(String, Expr)>) -> (r: Vec<(String, Expr)>)
    ensures
        props_view(r@) == props_view(v@),
    decreases v,
{
    let mut out: Vec<(String, Expr)> = Vec::new();
    let mut i: usize = 0;
    while i < v.len()
        invariant
            i <= v@.len(),
            out@.len() == i,
            forall|j: int|
                0 <= j < i ==> out@[j].0@ == #[trigger] v@[j].0@ && expr_view(out@[j].1)
                    == expr_view(v@[j].1),
        decreases v@.len() - i,
    {
        proof {
            assert(decreases_to!(v => v@));
            assert(decreases_to!(v@ => v@[i as int]));
            assert(decreases_to!(v@[i as int] => v@[i as int].1));
        }
        let key = string_clone(&v[i].0);
        let val = copy_expr(&v[i].1);
        out.push((key, val));
        i += 1;
    }
    proof {
        lemma_props_view(out@);
        lemma_props_view(v@);
        assert(props_view(out@) =~= props_view(v@));
    }
    out
}

pub(crate) fn copy_attrs(v: &Vec<(String, Option<Expr>)>) -> (r: Vec<(String, Option<Expr>)>)
    ensures
        attrs_view(r@) == attrs_view(v@),
    decreases v,
{
    let mut out: Vec<(String, Option<Expr>)> = Vec::new();
    let mut i: usize = 0;
    while i < v.len()
        invariant
            i <= v@.len(),
            out@.len() == i,
            forall|j: int|
                0 <= j < i ==> out@[j].0@ == #[trigger] v@[j].0@ && (match (
                    out@[j].1,
                    v@[j].1,
                ) {
                    (Some(a), Some(b)) => expr_view(a) == expr_view(b),
                    (None, None) => true,
                    _ => false,
                }),
        decreases v@.len() - i,
    {
        proof {
            assert(decreases_to!(v => v@));
            assert(decreases_to!(v@ => v@[i as int]));
            assert(decreases_to!(v@[i as int] => v@[i as int].1));
            if v@[i as int].1 is Some {
                assert(decreases_to!(v@[i as int].1 => v@[i as int].1->0));
            }
        }
        let key = string_clone(&v[i].0);
        let val = match &v[i].1 {
            Some(inner) => Some(copy_expr(inner)),
            None => None,
        };
        proof {
            assert(match (val, v@[i as int].1) {
                (Some(a), Some(b)) => expr_view(a) == expr_view(b),
                (None, None) => true,
                _ => false,
            });
        }
        out.push((key, val));
        i += 1;
    }
    proof {
        lemma_attrs_view(out@);
        lemma_attrs_view(v@);
        assert(attrs_view(out@) =~= attrs_view(v@));
    }
    out
}

pub(crate) fn copy_stmt(s: &Stmt) -> (r: Stmt)
    ensures
        stmt_view(r) == stmt_view(*s),
    decreases s,
{
    match s {
        Stmt::Expr { expr } => Stmt::Expr { expr: copy_expr(expr) },
        Stmt::Return { arg } => Stmt::Return {
            arg: match arg {
                Some(e) => Some(copy_expr(e)),
                None => None,
            },
        },
        Stmt::VarDecl { decls } => Stmt::VarDecl { decls: copy_decls(decls) },
        Stmt::FnDecl { name, is_async, body } => Stmt::FnDecl {
            name: string_clone(name),
            is_async: *is_async,
            body: copy_stmts(body),
        },
        Stmt::Import { names, source } => Stmt::Import {
            names: clone_strings(names),
            source: string_clone(source),
        },
        Stmt::Opaque { id } => Stmt::Opaque { id: *id },
    }
}

pub(crate) fn copy_decls(v: &Vec<(Pat, Expr)>) -> (r: Vec<(Pat, Expr)>)
    ensures
        decls_view(r@) == decls_view(v@),
    decreases v,
{
    let mut out: Vec<(Pat, Expr)> = Vec::new();
    let mut i: usize = 0;
    while i < v.len()
        invariant
            i <= v@.len(),
            out@.len() == i,
            forall|j: int|
                0 <= j < i ==> pat_view(out@[j].0) == pat_view(#[trigger] v@[j].0)
                    && expr_view(out@[j].1) == expr_view(v@[j].1),
        decreases v@.len() - i,
    {
        proof {
            assert(decreases_to!(v => v@));
            assert(decreases_to!(v@ => v@[i as int]));
            assert(decreases_to!(v@[i as int] => v@[i as int].1));
        }
        let p = copy_pat(&v[i].0);
        let x = copy_expr(&v[i].1);
        out.push((p, x));
        i += 1;
    }
    proof {
        lemma_decls_view(out@);
        lemma_decls_view(v@);
        assert(decls_view(out@) =~= decls_view(v@));
    }
    out
}

pub(crate) fn copy_stmts(v: &Vec<Stmt>) -> (r: Vec<Stmt>)
    ensures
        stmts_view(r@) == stmts_view(v@),
    decreases v,
{
    let mut out: Vec<Stmt> = Vec::new();
    let mut i: usize = 0;
    while i < v.len()
        invariant
            i <= v@.len(),
            out@.len() == i,
            forall|j: int| 0 <= j < i ==> stmt_view(out@[j]) == stmt_view(#[trigger] v@[j]),
        decreases v@.len() - i,
    {
        proof {
            assert(decreases_to!(v => v@));
            assert(decreases_to!(v@ => v@[i as int]));
        }
        out.push(copy_stmt(&v[i]));
        i += 1;
    }
    proof {
        lemma_stmts_view(out@);
        lemma_stmts_view(v@);
        assert(stmts_view(out@) =~= stmts_view(v@));
    }
    out
}

// ---------------------------------------------------------------------------
// The rewriters.
// ---------------------------------------------------------------------------

use vstd::string::{StrSliceExecFns, StringExecFns};
use crate::ast_helpers::contains_sub;
use crate::text::{has_target_script, str_has_target, trim_str};
use crate::utils::{is_react_component, should_translate};

/// One decimal digit as a string slice.
fn digit_str(d: usize) -> (r: &'static str)
    requires
        d < 10,
    ensures
        r@ == seq![digit_char(d as nat)],
{
    proof {
        reveal_strlit("0");
        reveal_strlit("1");
        reveal_strlit("2");
        reveal_strlit("3");
        reveal_strlit("4");
        reveal_strlit("5");
        reveal_strlit("6");
        reveal_strlit("7");
        reveal_strlit("8");
        reveal_strlit("9");
    }
    if d == 0 {
        "0"
    } else if d == 1 {
        "1"
    } else if d == 2 {
        "2"
    } else if d == 3 {
        "3"
    } else if d == 4 {
        "4"
    } else if d == 5 {
        "5"
    } else if d == 6 {
        "6"
    } else if d == 7 {
        "7"
    } else if d == 8 {
        "8"
    } else {
        "9"
    }
}

/// The decimal digits of `n`, as an owned string.
fn usize_to_dec(n: usize) -> (r: String)
    ensures
        r@ == dec_str(n as nat),
    decreases n,
{
    if n < 10 {
        String::from_str(digit_str(n))
    } else {
        let mut s = usize_to_dec(n / 10);
        s.append(digit_str(n % 10));
        s
    }
}

/// The flattened name of a member-access chain of identifiers, or `None`.
fn member_name_exec(e: &Expr) -> (r: Option<String>)
    ensures
        match r {
            Some(s) => member_name(expr_view(*e)) == Some(s@),
            None => member_name(expr_view(*e)) is None,
        },
    decreases e,
{
    match e {
        Expr::Ident { name } => Some(string_clone(name)),
        Expr::Member { obj, prop } => match (member_name_exec(obj), prop) {
            (Some(base), Some(p)) => {
                let mut s = base;
                s.append("_");
                s.append(p.as_str());
                Some(s)
            },
            _ => None,
        },
        _ => None,
    }
}

/// The interpolation-object key an embedded expression gets, by the
/// derivation order of the design: identifier name, flattened member chain,
/// positional placeholder.
pub fn extract_var_name(expr: &Expr, idx: usize) -> (r: String)
    ensures
        r@ == var_name(expr_view(*expr), idx as nat),
{
    match member_name_exec(expr) {
        Some(s) => s,
        None => {
            let mut s = String::from_str("expr");
            s.append(usize_to_dec(idx).as_str());
            s
        },
    }
}

/// Whether the line holds a suppressing comment in any recognized spelling.
fn has_marker_exec(line: &str) -> (r: bool)
    ensures
        r == has_marker(line@),
{
    contains_sub(line, "i18n-ignore") || contains_sub(line, "// i18n-ignore")
        || contains_sub(line, "/* i18n-ignore */") || contains_sub(
        line,
        "{/* i18n-ignore */}",
    )
}

/// Whether a node on this line is suppressed by a marker within the up to
/// three lines directly above it.
fn line_suppressed(lines: &Vec<String>, line: usize) -> (r: bool)
    ensures
        r == skip_at(lines.deep_view(), line),
{
    let lo: usize = if line >= 3 {
        line - 3
    } else {
        0
    };
    let hi: usize = if line <= lines.len() {
        line
    } else {
        lines.len()
    };
    let mut j: usize = lo;
    while j < hi
        invariant
            lo <= j,
            hi <= lines@.len(),
            hi <= line,
            line - 3 <= lo,
            lo == if line >= 3 { line - 3 } else { 0 },
            hi == if line <= lines@.len() { line as int } else { lines@.len() as int },
            forall|k: int| lo <= k < j ==> !has_marker(#[trigger] lines.deep_view()[k]),
        decreases hi - j,
    {
        if has_marker_exec(lines[j].as_str()) {
            proof {
                assert(lines.deep_view()[j as int] == lines@[j as int]@);
            }
            return true;
        }
        j += 1;
    }
    proof {
        assert forall|k: int|
            !(line - 3 <= k < line && 0 <= k < lines.deep_view().len() && has_marker(
                lines.deep_view()[k],
            )) by {
            if line - 3 <= k < line && 0 <= k < lines.deep_view().len() {
                assert(lo <= k < hi);
            }
        }
    }
    false
}

/// Whether any constant chunk of a template literal holds target-script
/// text.
fn quasis_have_target(quasis: &Vec<String>) -> (r: bool)
    ensures
        r == tpl_eligible(strings_view(quasis@)),
{
    let mut i: usize = 0;
    while i < quasis.len()
        invariant
            i <= quasis@.len(),
            forall|j: int|
                0 <= j < i ==> !has_target_script(#[trigger] strings_view(quasis@)[j]),
        decreases quasis@.len() - i,
    {
        if str_has_target(quasis[i].as_str()) {
            proof {
                assert(strings_view(quasis@)[i as int] == quasis@[i as int]@);
            }
            return true;
        }
        proof {
            assert(strings_view(quasis@)[i as int] == quasis@[i as int]@);
        }
        i += 1;
    }
    false
}

/// A call expression `t(value)` wrapping the given literal text.
pub fn create_t_call(value: String, line: usize) -> (r: Expr)
    ensures
        expr_view(r) == mk_t_call(ExprV::StrLit { value: value@, line }),
{
    let ghost vv = value@;
    let arg = Expr::StrLit { value, line };
    let tname = String::from_str("t");
    let ghost tn = tname@;
    let mut args: Vec<Expr> = Vec::new();
    args.push(arg);
    let r = Expr::Call { callee: Box::new(Expr::Ident { name: tname }), args };
    proof {
        lemma_exprs_view(args@);
        assert(exprs_view(args@) =~= seq![ExprV::StrLit { value: vv, line }]);
        assert(tn == "t"@);
        assert(r->Call_args == args);
        assert(expr_view(r) == (ExprV::Call {
            callee: Box::new(expr_view(Expr::Ident { name: tname })),
            args: exprs_view(args@),
        }));
        assert(expr_view(Expr::Ident { name: tname }) == t_ident());
        assert(expr_view(r) == mk_t_call(ExprV::StrLit { value: vv, line }));
    }
    r
}

/// The rewrite of one expression: eligible literals inside component
/// bodies become `t(...)` calls; already-wrapped calls are left whole;
/// everything else is rebuilt with its children rewritten. The second
/// result says whether the rewrite changed the node.
pub fn rewrite_expr(e: &Expr, lines: &Vec<String>, active: bool) -> (r: (Expr, bool))
    ensures
        expr_view(r.0) == tx_expr(expr_view(*e), lines.deep_view(), active),
        r.1 == (tx_expr(expr_view(*e), lines.deep_view(), active) != expr_view(*e)),
    decreases e, 1int,
{
    let ghost ev = expr_view(*e);
    let ghost lv = lines.deep_view();
    match e {
        Expr::StrLit { value, line } => {
            let elig = active && !line_suppressed(lines, *line) && should_translate(
                value.as_str(),
            );
            if elig {
                let r0 = create_t_call(string_clone(value), *line);
                proof {
                    assert(tx_expr(ev, lv, active) == mk_t_call(ev));
                    assert(mk_t_call(ev) != ev);
                }
                (r0, true)
            } else {
                proof {
                    assert(tx_expr(ev, lv, active) == ev);
                }
                (copy_expr(e), false)
            }
        },
        Expr::TplLit { quasis, exprs, line } => {
            let elig = active && !line_suppressed(lines, *line) && quasis_have_target(
                quasis,
            );
            let ghost qv = strings_view(quasis@);
            let ghost xv = exprs_view(exprs@);
            proof {
                lemma_exprs_view(exprs@);
            }
            if elig {
                let mut pat = String::new();
                let mut i: usize = 0;
                proof {
                    assert(pat@ + pattern_of(qv, xv, 0) =~= pattern_of(qv, xv, 0));
                }
                while i < quasis.len()
                    invariant
                        i <= quasis@.len(),
                        qv == strings_view(quasis@),
                        xv == exprs_view(exprs@),
                        qv.len() == quasis@.len(),
                        xv.len() == exprs@.len(),
                        pattern_of(qv, xv, 0) == pat@ + pattern_of(qv, xv, i as int),
                    decreases quasis@.len() - i,
                {
                    let ghost p0 = pat@;
                    pat.append(quasis[i].as_str());
                    proof {
                        assert(strings_view(quasis@)[i as int] == quasis@[i as int]@);
                    }
                    if i < exprs.len() {
                        let name = extract_var_name(&exprs[i], i);
                        pat.append("{{");
                        pat.append(name.as_str());
                        pat.append("}}");
                        proof {
                            lemma_exprs_view(exprs@);
                            assert(expr_view(exprs@[i as int]) == xv[i as int]);
                            assert(pat@ =~= p0 + (qv[i as int] + "{{"@ + var_name(
                                xv[i as int],
                                i as nat,
                            ) + "}}"@));
                            assert(pattern_of(qv, xv, i as int) == (qv[i as int] + "{{"@
                                + var_name(xv[i as int], i as nat) + "}}"@) + pattern_of(
                                qv,
                                xv,
                                i + 1,
                            )) by {
                                assert(qv[i as int] + "{{"@ + var_name(xv[i as int], i as nat)
                                    + "}}"@ + pattern_of(qv, xv, i + 1) =~= (qv[i as int]
                                    + "{{"@ + var_name(xv[i as int], i as nat) + "}}"@)
                                    + pattern_of(qv, xv, i + 1));
                            }
                            assert(pat@ + pattern_of(qv, xv, i + 1) =~= p0 + pattern_of(
                                qv,
                                xv,
                                i as int,
                            ));
                        }
                    } else {
                        proof {
                            assert(pat@ =~= p0 + qv[i as int]);
                            assert(pattern_of(qv, xv, i as int) == qv[i as int] + pattern_of(
                                qv,
                                xv,
                                i + 1,
                            ));
                            assert(pat@ + pattern_of(qv, xv, i + 1) =~= p0 + pattern_of(
                                qv,
                                xv,
                                i as int,
                            ));
                        }
                    }
                    i += 1;
                }
                proof {
                    assert(pattern_of(qv, xv, quasis@.len() as int) == Seq::<char>::empty());
                    assert(pat@ + Seq::<char>::empty() =~= pat@);
                    assert(pat@ == pattern_of(qv, xv, 0));
                }
                let mut props: Vec<(String, Expr)> = Vec::new();
                let mut k: usize = 0;
                proof {
                    assert(props_view(props@) + props_of(xv, 0) =~= props_of(xv, 0));
                }
                while k < exprs.len()
                    invariant
                        k <= exprs@.len(),
                        xv == exprs_view(exprs@),
                        xv.len() == exprs@.len(),
                        props@.len() == k,
                        props_of(xv, 0) == props_view(props@) + props_of(xv, k as int),
                    decreases exprs@.len() - k,
                {
                    let ghost pv0 = props_view(props@);
                    let ghost op = props@;
                    let name = extract_var_name(&exprs[k], k);
                    let x = copy_expr(&exprs[k]);
                    props.push((name, x));
                    proof {
                        lemma_props_view(op);
                        lemma_props_view(props@);
                        lemma_exprs_view(exprs@);
                        assert(expr_view(exprs@[k as int]) == xv[k as int]);
                        assert(props@ =~= op.push((name, x)));
                        assert(props_view(props@) =~= pv0.push(
                            (var_name(xv[k as int], k as nat), xv[k as int]),
                        ));
                        assert(props_of(xv, k as int) == seq![
                            (var_name(xv[k as int], k as nat), xv[k as int]),
                        ] + props_of(xv, k + 1));
                        assert(props_view(props@) + props_of(xv, k + 1) =~= pv0
                            + props_of(xv, k as int));
                    }
                    k += 1;
                }
                proof {
                    assert(props_of(xv, exprs@.len() as int) == Seq::<
                        (Seq<char>, ExprV),
                    >::empty());
                    assert(props_view(props@) + Seq::<(Seq<char>, ExprV)>::empty()
                        =~= props_view(props@));
                    assert(props_view(props@) == props_of(xv, 0));
                }
                let ghost patv = pat@;
                let sl = Expr::StrLit { value: pat, line: *line };
                let two = props.len() > 0;
                let mut args: Vec<Expr> = Vec::new();
                args.push(sl);
                let ghost propsv = props_view(props@);
                if two {
                    args.push(Expr::ObjectLit { props });
                }
                let tname = String::from_str("t");
                let r0 = Expr::Call { callee: Box::new(Expr::Ident { name: tname }), args };
                proof {
                    lemma_exprs_view(args@);
                    assert(expr_view(Expr::Ident { name: tname }) == t_ident());
                    if two {
                        assert(exprs_view(args@) =~= seq![
                            ExprV::StrLit { value: patv, line: *line },
                            ExprV::ObjectLit { props: propsv },
                        ]);
                    } else {
                        assert(xv.len() == 0);
                        assert(exprs_view(args@) =~= seq![
                            ExprV::StrLit { value: patv, line: *line },
                        ]);
                    }
                    assert(tx_expr(ev, lv, active) == tpl_replacement(qv, xv, *line));
                    assert(expr_view(r0) == tpl_replacement(qv, xv, *line));
                    assert(tpl_replacement(qv, xv, *line) != ev);
                }
                (r0, true)
            } else {
                let (nx, ch) = rewrite_exprs(exprs, lines, active);
                let r0 = Expr::TplLit {
                    quasis: clone_strings(quasis),
                    exprs: nx,
                    line: *line,
                };
                proof {
                    assert(tx_expr(ev, lv, active) == (ExprV::TplLit {
                        quasis: qv,
                        exprs: tx_exprs(xv, lv, active),
                        line: *line,
                    }));
                    assert(expr_view(r0) == tx_expr(ev, lv, active));
                    if ch {
                        assert(tx_expr(ev, lv, active) != ev);
                    } else {
                        assert(tx_expr(ev, lv, active) == ev);
                    }
                }
                (r0, ch)
            }
        },
        Expr::Ident { name } => {
            proof {
                assert(tx_expr(ev, lv, active) == ev);
            }
            (copy_expr(e), false)
        },
        Expr::Member { obj, prop } => {
            proof {
                assert(decreases_to!(*e => e->Member_obj));
            }
            let (no, ch) = rewrite_expr(obj, lines, active);
            let r0 = Expr::Member { obj: Box::new(no), prop: clone_opt_string(prop) };
            proof {
                let ghost ov = expr_view(**obj);
                assert(tx_expr(ev, lv, active) == (ExprV::Member {
                    obj: Box::new(tx_expr(ov, lv, active)),
                    prop: ev->Member_prop,
                }));
                assert(expr_view(r0) == tx_expr(ev, lv, active));
                if ch {
                    assert(tx_expr(ev, lv, active) != ev);
                } else {
                    assert(tx_expr(ev, lv, active) == ev);
                }
            }
            (r0, ch)
        },
        Expr::Call { callee, args } => {
            let tname = String::from_str("t");
            let guarded = match &**callee {
                Expr::Ident { name } => if name.eq(&tname) && args.len() >= 1 {
                    match &args[0] {
                        Expr::StrLit { .. } => true,
                        Expr::TplLit { .. } => true,
                        _ => false,
                    }
                } else {
                    false
                },
                _ => false,
            };
            proof {
                lemma_exprs_view(args@);
                if args@.len() >= 1 {
                    assert(exprs_view(args@)[0] == expr_view(args@[0]));
                }
                assert(guarded == already_wrapped(expr_view(**callee), exprs_view(args@)));
            }
            if guarded {
                proof {
                    assert(tx_expr(ev, lv, active) == ev);
                }
                (copy_expr(e), false)
            } else {
                proof {
                    assert(decreases_to!(*e => e->Call_callee));
                }
                let (nc, ch1) = rewrite_expr(callee, lines, active);
                let (na, ch2) = rewrite_exprs(args, lines, active);
                let r0 = Expr::Call { callee: Box::new(nc), args: na };
                proof {
                    let ghost cv = expr_view(**callee);
                    let ghost av = exprs_view(args@);
                    assert(tx_expr(ev, lv, active) == (ExprV::Call {
                        callee: Box::new(tx_expr(cv, lv, active)),
                        args: tx_exprs(av, lv, active),
                    }));
                    assert(expr_view(r0) == tx_expr(ev, lv, active));
                    if ch1 || ch2 {
                        assert(tx_expr(ev, lv, active) != ev);
                    } else {
                        assert(tx_expr(ev, lv, active) == ev);
                    }
                }
                (r0, ch1 || ch2)
            }
        },
        Expr::ObjectLit { props } => {
            proof {
                assert(decreases_to!(*e => e->ObjectLit_props));
            }
            let (np, ch) = rewrite_props(props, lines, active);
            let r0 = Expr::ObjectLit { props: np };
            proof {
                assert(tx_expr(ev, lv, active) == (ExprV::ObjectLit {
                    props: tx_props(props_view(props@), lv, active),
                }));
                assert(expr_view(r0) == tx_expr(ev, lv, active));
                if ch {
                    assert(tx_expr(ev, lv, active) != ev);
                } else {
                    assert(tx_expr(ev, lv, active) == ev);
                }
            }
            (r0, ch)
        },
        Expr::Arrow { is_async, body } => {
            proof {
                assert(decreases_to!(*e => e->Arrow_body));
            }
            let (nb, ch) = rewrite_stmts(body, lines, active);
            let r0 = Expr::Arrow { is_async: *is_async, body: nb };
            proof {
                assert(tx_expr(ev, lv, active) == (ExprV::Arrow {
                    is_async: *is_async,
                    body: tx_stmts(stmts_view(body@), lv, active),
                }));
                assert(expr_view(r0) == tx_expr(ev, lv, active));
                if ch {
                    assert(tx_expr(ev, lv, active) != ev);
                } else {
                    assert(tx_expr(ev, lv, active) == ev);
                }
            }
            (r0, ch)
        },
        Expr::JsxElement { name, attrs, children } => {
            proof {
                assert(decreases_to!(*e => e->JsxElement_attrs));
                assert(decreases_to!(*e => e->JsxElement_children));
            }
            let (na, ch1) = rewrite_attrs(attrs, lines, active);
            let (nc, ch2) = rewrite_exprs(children, lines, active);
            let r0 = Expr::JsxElement { name: string_clone(name), attrs: na, children: nc };
            proof {
                assert(tx_expr(ev, lv, active) == (ExprV::JsxElement {
                    name: name@,
                    attrs: tx_attrs(attrs_view(attrs@), lv, active),
                    children: tx_exprs(exprs_view(children@), lv, active),
                }));
                assert(expr_view(r0) == tx_expr(ev, lv, active));
                if ch1 || ch2 {
                    assert(tx_expr(ev, lv, active) != ev);
                } else {
                    assert(tx_expr(ev, lv, active) == ev);
                }
            }
            (r0, ch1 || ch2)
        },
        Expr::JsxText { value, line } => {
            let elig = active && !line_suppressed(lines, *line) && should_translate(
                value.as_str(),
            );
            if elig {
                let trimmed = trim_str(value.as_str());
                let call = create_t_call(trimmed, *line);
                let r0 = Expr::JsxExprContainer { inner: Box::new(call) };
                proof {
                    assert(tx_expr(ev, lv, active) == (ExprV::JsxExprContainer {
                        inner: Box::new(mk_t_call(ExprV::StrLit {
                            value: spec_trim(value@),
                            line: *line,
                        })),
                    }));
                    assert(expr_view(r0) == tx_expr(ev, lv, active));
                    assert(tx_expr(ev, lv, active) != ev);
                }
                (r0, true)
            } else {
                proof {
                    assert(tx_expr(ev, lv, active) == ev);
                }
                (copy_expr(e), false)
            }
        },
        Expr::JsxExprContainer { inner } => {
            proof {
                assert(decreases_to!(*e => e->JsxExprContainer_inner));
            }
            let (ni, ch) = rewrite_expr(inner, lines, active);
            let r0 = Expr::JsxExprContainer { inner: Box::new(ni) };
            proof {
                let ghost iv = expr_view(**inner);
                assert(tx_expr(ev, lv, active) == (ExprV::JsxExprContainer {
                    inner: Box::new(tx_expr(iv, lv, active)),
                }));
                assert(expr_view(r0) == tx_expr(ev, lv, active));
                if ch {
                    assert(tx_expr(ev, lv, active) != ev);
                } else {
                    assert(tx_expr(ev, lv, active) == ev);
                }
            }
            (r0, ch)
        },
        Expr::Await { inner } => {
            proof {
                assert(decreases_to!(*e => e->Await_inner));
            }
            let (ni, ch) = rewrite_expr(inner, lines, active);
            let r0 = Expr::Await { inner: Box::new(ni) };
            proof {
                let ghost iv = expr_view(**inner);
                assert(tx_expr(ev, lv, active) == (ExprV::Await {
                    inner: Box::new(tx_expr(iv, lv, active)),
                }));
                assert(expr_view(r0) == tx_expr(ev, lv, active));
                if ch {
                    assert(tx_expr(ev, lv, active) != ev);
                } else {
                    assert(tx_expr(ev, lv, active) == ev);
                }
            }
            (r0, ch)
        },
        Expr::Opaque { id } => {
            proof {
                assert(tx_expr(ev, lv, active) == ev);
            }
            (Expr::Opaque { id: *id }, false)
        },
    }
}

fn rewrite_exprs(v: &Vec<Expr>, lines: &Vec<String>, active: bool) -> (r: (Vec<Expr>, bool))
    ensures
        exprs_view(r.0@) == tx_exprs(exprs_view(v@), lines.deep_view(), active),
        r.1 == (tx_exprs(exprs_view(v@), lines.deep_view(), active) != exprs_view(v@)),
    decreases v, 0int,
{
    let ghost lv = lines.deep_view();
    let ghost sv = exprs_view(v@);
    let mut out: Vec<Expr> = Vec::new();
    let mut changed = false;
    let mut i: usize = 0;
    proof {
        lemma_exprs_view(v@);
    }
    while i < v.len()
        invariant
            i <= v@.len(),
            sv == exprs_view(v@),
            sv.len() == v@.len(),
            lv == lines.deep_view(),
            out@.len() == i,
            forall|j: int|
                0 <= j < i ==> expr_view(#[trigger] out@[j]) == tx_expr(sv[j], lv, active),
            changed == exists|j: int|
                0 <= j < i && tx_expr(#[trigger] sv[j], lv, active) != sv[j],
        decreases v@.len() - i,
    {
        proof {
            assert(decreases_to!(v => v@));
            assert(decreases_to!(v@ => v@[i as int]));
        }
        let (ne, ch) = rewrite_expr(&v[i], lines, active);
        proof {
            lemma_exprs_view(v@);
            assert(expr_view(v@[i as int]) == sv[i as int]);
        }
        out.push(ne);
        if ch {
            changed = true;
        }
        i += 1;
    }
    proof {
        lemma_tx_exprs(sv, lv, active);
        lemma_exprs_view(out@);
        assert(exprs_view(out@) =~= tx_exprs(sv, lv, active));
        if changed {
            let j = choose|j: int| 0 <= j < sv.len() && tx_expr(#[trigger] sv[j], lv, active)
                != sv[j];
            assert(tx_exprs(sv, lv, active)[j] != sv[j]);
        } else {
            assert(tx_exprs(sv, lv, active) =~= sv);
        }
    }
    (out, changed)
}

fn rewrite_props(
    v: &Vec<(String, Expr)>,
    lines: &Vec<String>,
    active: bool,
) -> (r: (Vec<(String, Expr)>, bool))
    ensures
        props_view(r.0@) == tx_props(props_view(v@), lines.deep_view(), active),
        r.1 == (tx_props(props_view(v@), lines.deep_view(), active) != props_view(v@)),
    decreases v, 0int,
{
    let ghost lv = lines.deep_view();
    let ghost sv = props_view(v@);
    let mut out: Vec<(String, Expr)> = Vec::new();
    let mut changed = false;
    let mut i: usize = 0;
    proof {
        lemma_props_view(v@);
    }
    while i < v.len()
        invariant
            i <= v@.len(),
            sv == props_view(v@),
            sv.len() == v@.len(),
            lv == lines.deep_view(),
            out@.len() == i,
            forall|j: int|
                0 <= j < i ==> (#[trigger] out@[j]).0@ == sv[j].0 && expr_view(out@[j].1)
                    == tx_expr(sv[j].1, lv, active),
            changed == exists|j: int|
                0 <= j < i && tx_expr((#[trigger] sv[j]).1, lv, active) != sv[j].1,
        decreases v@.len() - i,
    {
        proof {
            assert(decreases_to!(v => v@));
            assert(decreases_to!(v@ => v@[i as int]));
            assert(decreases_to!(v@[i as int] => v@[i as int].1));
        }
        let key = string_clone(&v[i].0);
        let (ne, ch) = rewrite_expr(&v[i].1, lines, active);
        proof {
            lemma_props_view(v@);
            assert(props_view(v@)[i as int] == (v@[i as int].0@, expr_view(v@[i as int].1)));
        }
        out.push((key, ne));
        if ch {
            changed = true;
        }
        i += 1;
    }
    proof {
        lemma_tx_props(sv, lv, active);
        lemma_props_view(out@);
        assert(props_view(out@) =~= tx_props(sv, lv, active));
        if changed {
            let j = choose|j: int| 0 <= j < sv.len() && tx_expr((#[trigger] sv[j]).1, lv, active)
                != sv[j].1;
            assert(tx_props(sv, lv, active)[j] != sv[j]);
        } else {
            assert(tx_props(sv, lv, active) =~= sv);
        }
    }
    (out, changed)
}

fn rewrite_attrs(
    v: &Vec<(String, Option<Expr>)>,
    lines: &Vec<String>,
    active: bool,
) -> (r: (Vec<(String, Option<Expr>)>, bool))
    ensures
        attrs_view(r.0@) == tx_attrs(attrs_view(v@), lines.deep_view(), active),
        r.1 == (tx_attrs(attrs_view(v@), lines.deep_view(), active) != attrs_view(v@)),
    decreases v, 0int,
{
    let ghost lv = lines.deep_view();
    let ghost sv = attrs_view(v@);
    let mut out: Vec<(String, Option<Expr>)> = Vec::new();
    let mut changed = false;
    let mut i: usize = 0;
    proof {
        lemma_attrs_view(v@);
    }
    while i < v.len()
        invariant
            i <= v@.len(),
            sv == attrs_view(v@),
            sv.len() == v@.len(),
            lv == lines.deep_view(),
            out@.len() == i,
            forall|j: int|
                0 <= j < i ==> (#[trigger] out@[j]).0@ == sv[j].0 && (match (
                    out@[j].1,
                    sv[j].1,
                ) {
                    (Some(a), Some(b)) => expr_view(a) == tx_attr_value(b, lv, active),
                    (None, None) => true,
                    _ => false,
                }),
            changed == exists|j: int|
                0 <= j < i && (match (#[trigger] sv[j]).1 {
                    Some(b) => tx_attr_value(b, lv, active) != b,
                    None => false,
                }),
        decreases v@.len() - i,
    {
        proof {
            assert(decreases_to!(v => v@));
            assert(decreases_to!(v@ => v@[i as int]));
            assert(decreases_to!(v@[i as int] => v@[i as int].1));
            if v@[i as int].1 is Some {
                assert(decreases_to!(v@[i as int].1 => v@[i as int].1->0));
            }
            lemma_attrs_view(v@);
            assert(attrs_view(v@)[i as int] == (
                v@[i as int].0@,
                match v@[i as int].1 {
                    Some(x) => Some(expr_view(x)),
                    None => None,
                },
            ));
        }
        let key = string_clone(&v[i].0);
        let mut ch = false;
        let nv: Option<Expr> = match &v[i].1 {
            None => None,
            Some(av) => {
                let (nx, c) = rewrite_attr_value(av, lines, active);
                ch = c;
                Some(nx)
            },
        };
        proof {
            assert(match (nv, sv[i as int].1) {
                (Some(a), Some(b)) => expr_view(a) == tx_attr_value(b, lv, active) && ch == (
                tx_attr_value(b, lv, active) != b),
                (None, None) => !ch,
                _ => false,
            });
        }
        out.push((key, nv));
        if ch {
            changed = true;
        }
        i += 1;
    }
    proof {
        lemma_tx_attrs(sv, lv, active);
        lemma_attrs_view(out@);
        assert(attrs_view(out@) =~= tx_attrs(sv, lv, active));
        if changed {
            let j = choose|j: int|
                0 <= j < sv.len() && (match (#[trigger] sv[j]).1 {
                    Some(b) => tx_attr_value(b, lv, active) != b,
                    None => false,
                });
            assert(tx_attrs(sv, lv, active)[j] != sv[j]);
        } else {
            assert(tx_attrs(sv, lv, active) =~= sv);
        }
    }
    (out, changed)
}

/// The rewrite of one JSX attribute value: an eligible string literal gets
/// the wrapped call inside an expression container.
fn rewrite_attr_value(e: &Expr, lines: &Vec<String>, active: bool) -> (r: (Expr, bool))
    ensures
        expr_view(r.0) == tx_attr_value(expr_view(*e), lines.deep_view(), active),
        r.1 == (tx_attr_value(expr_view(*e), lines.deep_view(), active) != expr_view(*e)),
    decreases e, 2int,
{
    let ghost ev = expr_view(*e);
    let ghost lv = lines.deep_view();
    match e {
        Expr::StrLit { value, line } => {
            let elig = active && !line_suppressed(lines, *line) && should_translate(
                value.as_str(),
            );
            if elig {
                let call = create_t_call(string_clone(value), *line);
                let r0 = Expr::JsxExprContainer { inner: Box::new(call) };
                proof {
                    assert(tx_attr_value(ev, lv, active) == (ExprV::JsxExprContainer {
                        inner: Box::new(mk_t_call(ev)),
                    }));
                    assert(expr_view(r0) == tx_attr_value(ev, lv, active));
                    assert(tx_attr_value(ev, lv, active) != ev);
                }
                (r0, true)
            } else {
                proof {
                    assert(tx_attr_value(ev, lv, active) == ev);
                    assert(tx_expr(ev, lv, active) == ev);
                }
                (copy_expr(e), false)
            }
        },
        _ => {
            proof {
                assert(tx_attr_value(ev, lv, active) == tx_expr(ev, lv, active));
            }
            rewrite_expr(e, lines, active)
        },
    }
}

fn rewrite_decls(
    v: &Vec<(Pat, Expr)>,
    lines: &Vec<String>,
    active: bool,
) -> (r: (Vec<(Pat, Expr)>, bool))
    ensures
        decls_view(r.0@) == tx_decls(decls_view(v@), lines.deep_view(), active),
        r.1 == (tx_decls(decls_view(v@), lines.deep_view(), active) != decls_view(v@)),
    decreases v, 0int,
{
    let ghost lv = lines.deep_view();
    let ghost sv = decls_view(v@);
    let mut out: Vec<(Pat, Expr)> = Vec::new();
    let mut changed = false;
    let mut i: usize = 0;
    proof {
        lemma_decls_view(v@);
    }
    while i < v.len()
        invariant
            i <= v@.len(),
            sv == decls_view(v@),
            sv.len() == v@.len(),
            lv == lines.deep_view(),
            out@.len() == i,
            forall|j: int|
                0 <= j < i ==> (
                    pat_view((#[trigger] out@[j]).0),
                    expr_view(out@[j].1),
                ) == tx_decl(sv[j], lv, active),
            changed == exists|j: int|
                0 <= j < i && tx_decl(#[trigger] sv[j], lv, active) != sv[j],
        decreases v@.len() - i,
    {
        proof {
            assert(decreases_to!(v => v@));
            assert(decreases_to!(v@ => v@[i as int]));
            assert(decreases_to!(v@[i as int] => v@[i as int].1));
            lemma_decls_view(v@);
            assert(decls_view(v@)[i as int] == (
                pat_view(v@[i as int].0),
                expr_view(v@[i as int].1),
            ));
        }
        let d = rewrite_decl(&v[i].0, &v[i].1, lines, active);
        let (np, nx, ch) = d;
        out.push((np, nx));
        if ch {
            changed = true;
        }
        i += 1;
    }
    proof {
        lemma_tx_decls(sv, lv, active);
        lemma_decls_view(out@);
        assert(decls_view(out@) =~= tx_decls(sv, lv, active));
        if changed {
            let j = choose|j: int| 0 <= j < sv.len() && tx_decl(#[trigger] sv[j], lv, active)
                != sv[j];
            assert(tx_decls(sv, lv, active)[j] != sv[j]);
        } else {
            assert(tx_decls(sv, lv, active) =~= sv);
        }
    }
    (out, changed)
}

/// One declarator: an arrow initializer re-enters the walker under its
/// binding name's classification.
fn rewrite_decl(p: &Pat, init: &Expr, lines: &Vec<String>, active: bool) -> (r: (
    Pat,
    Expr,
    bool,
))
    ensures
        (pat_view(r.0), expr_view(r.1)) == tx_decl(
            (pat_view(*p), expr_view(*init)),
            lines.deep_view(),
            active,
        ),
        r.2 == (tx_decl((pat_view(*p), expr_view(*init)), lines.deep_view(), active) != (
        pat_view(*p),
        expr_view(*init),
        )),
    decreases init, 3int,
{
    let ghost dv = (pat_view(*p), expr_view(*init));
    let ghost lv = lines.deep_view();
    match init {
        Expr::Arrow { is_async, body } => {
            let inner_active = match p {
                Pat::Id { name } => is_react_component(name.as_str()),
                _ => false,
            };
            proof {
                assert(decreases_to!(*init => init->Arrow_body));
            }
            let (nb, ch) = rewrite_stmts(body, lines, inner_active);
            let np = copy_pat(p);
            let nx = Expr::Arrow { is_async: *is_async, body: nb };
            proof {
                assert(tx_decl(dv, lv, active) == (
                    dv.0,
                    ExprV::Arrow {
                        is_async: *is_async,
                        body: tx_stmts(stmts_view(body@), lv, inner_active),
                    },
                ));
                assert((pat_view(np), expr_view(nx)) == tx_decl(dv, lv, active));
                if ch {
                    assert(tx_decl(dv, lv, active) != dv);
                } else {
                    assert(tx_decl(dv, lv, active) == dv);
                }
            }
            (np, nx, ch)
        },
        _ => {
            let (nx, ch) = rewrite_expr(init, lines, active);
            let np = copy_pat(p);
            proof {
                assert(tx_decl(dv, lv, active) == (dv.0, tx_expr(dv.1, lv, active)));
                assert((pat_view(np), expr_view(nx)) == tx_decl(dv, lv, active));
                if ch {
                    assert(tx_decl(dv, lv, active) != dv);
                } else {
                    assert(tx_decl(dv, lv, active) == dv);
                }
            }
            (np, nx, ch)
        },
    }
}

/// The rewrite of one statement.
pub fn rewrite_stmt(s: &Stmt, lines: &Vec<String>, active: bool) -> (r: (Stmt, bool))
    ensures
        stmt_view(r.0) == tx_stmt(stmt_view(*s), lines.deep_view(), active),
        r.1 == (tx_stmt(stmt_view(*s), lines.deep_view(), active) != stmt_view(*s)),
    decreases s, 1int,
{
    let ghost sv = stmt_view(*s);
    let ghost lv = lines.deep_view();
    match s {
        Stmt::Expr { expr } => {
            proof {
                assert(decreases_to!(*s => s->Expr_expr));
            }
            let (ne, ch) = rewrite_expr(expr, lines, active);
            let r0 = Stmt::Expr { expr: ne };
            proof {
                assert(tx_stmt(sv, lv, active) == (StmtV::Expr {
                    expr: tx_expr(expr_view(*expr), lv, active),
                }));
                assert(stmt_view(r0) == tx_stmt(sv, lv, active));
                if ch {
                    assert(tx_stmt(sv, lv, active) != sv);
                } else {
                    assert(tx_stmt(sv, lv, active) == sv);
                }
            }
            (r0, ch)
        },
        Stmt::Return { arg } => match arg {
            Some(e) => {
                proof {
                    assert(decreases_to!(*s => s->Return_arg));
                    assert(decreases_to!(s->Return_arg => s->Return_arg->0));
                }
                let (ne, ch) = rewrite_expr(e, lines, active);
                let r0 = Stmt::Return { arg: Some(ne) };
                proof {
                    assert(tx_stmt(sv, lv, active) == (StmtV::Return {
                        arg: Some(tx_expr(expr_view(*e), lv, active)),
                    }));
                    assert(stmt_view(r0) == tx_stmt(sv, lv, active));
                    if ch {
                        assert(tx_stmt(sv, lv, active) != sv);
                    } else {
                        assert(tx_stmt(sv, lv, active) == sv);
                    }
                }
                (r0, ch)
            },
            None => {
                proof {
                    assert(tx_stmt(sv, lv, active) == sv);
                }
                (Stmt::Return { arg: None }, false)
            },
        },
        Stmt::VarDecl { decls } => {
            proof {
                assert(decreases_to!(*s => s->VarDecl_decls));
            }
            let (nd, ch) = rewrite_decls(decls, lines, active);
            let r0 = Stmt::VarDecl { decls: nd };
            proof {
                assert(tx_stmt(sv, lv, active) == (StmtV::VarDecl {
                    decls: tx_decls(decls_view(decls@), lv, active),
                }));
                assert(stmt_view(r0) == tx_stmt(sv, lv, active));
                if ch {
                    assert(tx_stmt(sv, lv, active) != sv);
                } else {
                    assert(tx_stmt(sv, lv, active) == sv);
                }
            }
            (r0, ch)
        },
        Stmt::FnDecl { name, is_async, body } => {
            let inner_active = is_react_component(name.as_str());
            proof {
                assert(decreases_to!(*s => s->FnDecl_body));
            }
            let (nb, ch) = rewrite_stmts(body, lines, inner_active);
            let r0 = Stmt::FnDecl {
                name: string_clone(name),
                is_async: *is_async,
                body: nb,
            };
            proof {
                assert(tx_stmt(sv, lv, active) == (StmtV::FnDecl {
                    name: name@,
                    is_async: *is_async,
                    body: tx_stmts(stmts_view(body@), lv, inner_active),
                }));
                assert(stmt_view(r0) == tx_stmt(sv, lv, active));
                if ch {
                    assert(tx_stmt(sv, lv, active) != sv);
                } else {
                    assert(tx_stmt(sv, lv, active) == sv);
                }
            }
            (r0, ch)
        },
        Stmt::Import { names, source } => {
            proof {
                assert(tx_stmt(sv, lv, active) == sv);
            }
            (
                Stmt::Import {
                    names: clone_strings(names),
                    source: string_clone(source),
                },
                false,
            )
        },
        Stmt::Opaque { id } => {
            proof {
                assert(tx_stmt(sv, lv, active) == sv);
            }
            (Stmt::Opaque { id: *id }, false)
        },
    }
}

/// The rewrite of a statement list, such as one function body.
pub fn rewrite_stmts(v: &Vec<Stmt>, lines: &Vec<String>, active: bool) -> (r: (
    Vec<Stmt>,
    bool,
))
    ensures
        stmts_view(r.0@) == tx_stmts(stmts_view(v@), lines.deep_view(), active),
        r.1 == (tx_stmts(stmts_view(v@), lines.deep_view(), active) != stmts_view(v@)),
    decreases v, 0int,
{
    let ghost lv = lines.deep_view();
    let ghost sv = stmts_view(v@);
    let mut out: Vec<Stmt> = Vec::new();
    let mut changed = false;
    let mut i: usize = 0;
    proof {
        lemma_stmts_view(v@);
    }
    while i < v.len()
        invariant
            i <= v@.len(),
            sv == stmts_view(v@),
            sv.len() == v@.len(),
            lv == lines.deep_view(),
            out@.len() == i,
            forall|j: int|
                0 <= j < i ==> stmt_view(#[trigger] out@[j]) == tx_stmt(sv[j], lv, active),
            changed == exists|j: int|
                0 <= j < i && tx_stmt(#[trigger] sv[j], lv, active) != sv[j],
        decreases v@.len() - i,
    {
        proof {
            assert(decreases_to!(v => v@));
            assert(decreases_to!(v@ => v@[i as int]));
        }
        let (ns, ch) = rewrite_stmt(&v[i], lines, active);
        proof {
            lemma_stmts_view(v@);
            assert(stmt_view(v@[i as int]) == sv[i as int]);
        }
        out.push(ns);
        if ch {
            changed = true;
        }
        i += 1;
    }
    proof {
        lemma_tx_stmts(sv, lv, active);
        lemma_stmts_view(out@);
        assert(stmts_view(out@) =~= tx_stmts(sv, lv, active));
        if changed {
            let j = choose|j: int| 0 <= j < sv.len() && tx_stmt(#[trigger] sv[j], lv, active)
                != sv[j];
            assert(tx_stmts(sv, lv, active)[j] != sv[j]);
        } else {
            assert(tx_stmts(sv, lv, active) =~= sv);
        }
    }
    (out, changed)
}

// ---------------------------------------------------------------------------
// The walker's top level: one pass over the module, the was-modified flag,
// and the modified-function registry.
// ---------------------------------------------------------------------------


use crate::text::{spec_lines, split_lines};

/// A value object summarizing whether any rewrite occurred in a subtree.
pub struct TransformResult {
    pub was_modified: bool,
}

impl TransformResult {
    pub fn new(was_modified: bool) -> (r: Self)
        ensures
            r.was_modified == was_modified,
    {
        Self { was_modified }
    }
}

/// The state the walker accumulates over one module pass.
pub struct TranslationTransformer {
    pub was_modified: bool,
    pub source_code: String,
    /// The modified-function registry: ordered, distinct names.
    pub modified_functions: Vec<String>,
}

impl TranslationTransformer {
    pub fn new(source_code: String) -> (r: Self)
        ensures
            !r.was_modified,
            r.source_code@ == source_code@,
            r.modified_functions@.len() == 0,
    {
        Self { was_modified: false, source_code, modified_functions: Vec::new() }
    }
}

/// `append_new` distributes over concatenation of name batches.
proof fn lemma_append_new_concat(r: Seq<Seq<char>>, a: Seq<Seq<char>>, b: Seq<Seq<char>>)
    ensures
        append_new(r, a + b) == append_new(append_new(r, a), b),
    decreases b.len(),
{
    if b.len() == 0 {
        assert(a + b =~= a);
    } else {
        assert((a + b).drop_last() =~= a + b.drop_last());
        assert((a + b).last() == b.last());
        lemma_append_new_concat(r, a, b.drop_last());
    }
}

/// Append a name to the registry unless it is already there.
fn push_unique(names: &mut Vec<String>, n: &String)
    ensures
        final(names).deep_view() == append_new(old(names).deep_view(), seq![n@]),
{
    let ghost r0 = names.deep_view();
    let mut j: usize = 0;
    let mut found = false;
    while j < names.len()
        invariant
            j <= names@.len(),
            r0 == names.deep_view(),
            found == exists|k: int| 0 <= k < j && #[trigger] names.deep_view()[k] == n@,
        decreases names@.len() - j,
    {
        if !found && n.eq(&names[j]) {
            proof {
                assert(names.deep_view()[j as int] == n@);
            }
            found = true;
        }
        j += 1;
    }
    proof {
        if found {
            let k = choose|k: int| 0 <= k < j && names.deep_view()[k] == n@;
            assert(r0[k] == n@);
            assert(r0.contains(n@));
        } else {
            assert(forall|k: int| 0 <= k < r0.len() ==> #[trigger] r0[k] != n@);
            assert(!r0.contains(n@));
        }
        assert(found == r0.contains(n@));
        assert(seq![n@].drop_last() =~= Seq::<Seq<char>>::empty());
        assert(append_new(r0, Seq::<Seq<char>>::empty()) == r0);
        assert(seq![n@].last() == n@);
        assert(append_new(r0, seq![n@]) == if r0.contains(n@) {
            r0
        } else {
            r0.push(n@)
        });
    }
    if !found {
        names.push(string_clone(n));
        proof {
            assert(names.deep_view() =~= r0.push(n@));
        }
    }
}

/// One pass over a module: rewrites eligible text inside component and hook
/// bodies, reports whether anything changed, and returns the
/// modified-function registry, in first-modification order without
/// duplicates.
pub fn transform_module(module: &Module, source_code: &str) -> (r: (
    Module,
    TransformResult,
    Vec<String>,
))
    ensures
        r.0@ == tx_module(module@, spec_lines(source_code@)),
        r.1.was_modified == (tx_module(module@, spec_lines(source_code@)) != module@),
        r.2.deep_view() == registry(module@.body, spec_lines(source_code@)),
{
    let lines = split_lines(source_code);
    let ghost lv = spec_lines(source_code@);
    let ghost bv = stmts_view(module.body@);
    let mut out: Vec<Stmt> = Vec::new();
    let mut changed = false;
    let mut names: Vec<String> = Vec::new();
    let mut i: usize = 0;
    proof {
        lemma_stmts_view(module.body@);
        assert(names.deep_view() =~= Seq::<Seq<char>>::empty());
        assert(registry(bv.take(0), lv) =~= Seq::<Seq<char>>::empty()) by {
            assert(bv.take(0) =~= Seq::<StmtV>::empty());
        }
    }
    while i < module.body.len()
        invariant
            i <= module.body@.len(),
            lv == lines.deep_view(),
            lv == spec_lines(source_code@),
            bv == stmts_view(module.body@),
            bv.len() == module.body@.len(),
            out@.len() == i,
            forall|j: int|
                0 <= j < i ==> stmt_view(#[trigger] out@[j]) == tx_stmt(bv[j], lv, false),
            changed == exists|j: int|
                0 <= j < i && tx_stmt(#[trigger] bv[j], lv, false) != bv[j],
            names.deep_view() == registry(bv.take(i as int), lv),
        decreases module.body@.len() - i,
    {
        let ghost reg0 = names.deep_view();
        proof {
            lemma_stmts_view(module.body@);
            assert(stmt_view(module.body@[i as int]) == bv[i as int]);
            assert(bv.take(i + 1).drop_last() =~= bv.take(i as int));
            assert(bv.take(i + 1).last() == bv[i as int]);
        }
        match &module.body[i] {
            Stmt::FnDecl { name, is_async, body } => {
                let inner = is_react_component(name.as_str());
                let (nb, ch) = rewrite_stmts(body, &lines, inner);
                let ns = Stmt::FnDecl {
                    name: string_clone(name),
                    is_async: *is_async,
                    body: nb,
                };
                proof {
                    assert(tx_stmt(bv[i as int], lv, false) == (StmtV::FnDecl {
                        name: name@,
                        is_async: *is_async,
                        body: tx_stmts(stmts_view(body@), lv, inner),
                    }));
                    assert(stmt_view(ns) == tx_stmt(bv[i as int], lv, false));
                    if ch {
                        assert(tx_stmt(bv[i as int], lv, false) != bv[i as int]);
                    } else {
                        assert(tx_stmt(bv[i as int], lv, false) == bv[i as int]);
                    }
                }
                out.push(ns);
                if ch {
                    changed = true;
                }
                if inner && ch {
                    push_unique(&mut names, name);
                    proof {
                        assert(stmt_changed_names(bv[i as int], lv) =~= seq![name@]);
                        assert(names.deep_view() == registry(bv.take(i + 1), lv));
                    }
                } else {
                    proof {
                        assert(stmt_changed_names(bv[i as int], lv)
                            =~= Seq::<Seq<char>>::empty());
                        assert(append_new(reg0, Seq::<Seq<char>>::empty()) == reg0);
                        assert(names.deep_view() == registry(bv.take(i + 1), lv));
                    }
                }
            },
            Stmt::VarDecl { decls } => {
                let ghost dv = decls_view(decls@);
                let mut nd: Vec<(Pat, Expr)> = Vec::new();
                let mut vch = false;
                let mut k: usize = 0;
                proof {
                    lemma_decls_view(decls@);
                    assert(decl_changed_names(dv.take(0), lv) =~= Seq::<
                        Seq<char>,
                    >::empty()) by {
                        assert(dv.take(0) =~= Seq::<(PatV, ExprV)>::empty());
                    }
                    assert(append_new(reg0, Seq::<Seq<char>>::empty()) == reg0);
                }
                while k < decls.len()
                    invariant
                        k <= decls@.len(),
                        lv == lines.deep_view(),
                        dv == decls_view(decls@),
                        dv.len() == decls@.len(),
                        nd@.len() == k,
                        reg0 == registry(bv.take(i as int), lv),
                        forall|j: int|
                            0 <= j < k ==> (
                                pat_view((#[trigger] nd@[j]).0),
                                expr_view(nd@[j].1),
                            ) == tx_decl(dv[j], lv, false),
                        vch == exists|j: int|
                            0 <= j < k && tx_decl(#[trigger] dv[j], lv, false) != dv[j],
                        names.deep_view() == append_new(
                            reg0,
                            decl_changed_names(dv.take(k as int), lv),
                        ),
                    decreases decls@.len() - k,
                {
                    let ghost regk = names.deep_view();
                    proof {
                        lemma_decls_view(decls@);
                        assert(decls_view(decls@)[k as int] == (
                            pat_view(decls@[k as int].0),
                            expr_view(decls@[k as int].1),
                        ));
                        assert(dv.take(k + 1).drop_last() =~= dv.take(k as int));
                        assert(dv.take(k + 1).last() == dv[k as int]);
                    }
                    let d = rewrite_decl(&decls[k].0, &decls[k].1, &lines, false);
                    let (np, nx, ch) = d;
                    let named: Option<&String> = match &decls[k].0 {
                        Pat::Id { name } => Some(name),
                        _ => None,
                    };
                    let is_arrow = matches!(&decls[k].1, Expr::Arrow { .. });
                    let is_named_arrow = is_arrow && match named {
                        Some(n) => is_react_component(n.as_str()),
                        None => false,
                    };
                    nd.push((np, nx));
                    if ch {
                        vch = true;
                    }
                    proof {
                        let batch = match dv[k as int] {
                            (PatV::Id { name }, ExprV::Arrow { is_async: _, body }) => if
                                spec_is_component_name(name) && tx_stmts(body, lv, true)
                                != body {
                                seq![name]
                            } else {
                                Seq::<Seq<char>>::empty()
                            },
                            _ => Seq::<Seq<char>>::empty(),
                        };
                        assert(decl_changed_names(dv.take(k + 1), lv) == decl_changed_names(
                            dv.take(k as int),
                            lv,
                        ) + batch);
                        lemma_append_new_concat(
                            reg0,
                            decl_changed_names(dv.take(k as int), lv),
                            batch,
                        );
                    }
                    if is_named_arrow && ch {
                        match named {
                            Some(nref) => {
                                push_unique(&mut names, nref);
                            },
                            None => {},
                        }
                        proof {
                            assert(names.deep_view() == append_new(
                                reg0,
                                decl_changed_names(dv.take(k + 1), lv),
                            ));
                        }
                    } else {
                        proof {
                            assert(names.deep_view() == append_new(
                                reg0,
                                decl_changed_names(dv.take(k + 1), lv),
                            ));
                        }
                    }
                    k += 1;
                }
                let ns = Stmt::VarDecl { decls: nd };
                proof {
                    lemma_tx_decls(dv, lv, false);
                    lemma_decls_view(nd@);
                    assert(decls_view(nd@) =~= tx_decls(dv, lv, false));
                    assert(tx_stmt(bv[i as int], lv, false) == (StmtV::VarDecl {
                        decls: tx_decls(dv, lv, false),
                    }));
                    assert(stmt_view(ns) == tx_stmt(bv[i as int], lv, false));
                    if vch {
                        let j = choose|j: int|
                            0 <= j < dv.len() && tx_decl(#[trigger] dv[j], lv, false)
                                != dv[j];
                        assert(tx_decls(dv, lv, false)[j] != dv[j]);
                        assert(tx_stmt(bv[i as int], lv, false) != bv[i as int]);
                    } else {
                        assert(tx_decls(dv, lv, false) =~= dv);
                        assert(tx_stmt(bv[i as int], lv, false) == bv[i as int]);
                    }
                    assert(dv.take(dv.len() as int) =~= dv);
                    assert(stmt_changed_names(bv[i as int], lv) == decl_changed_names(
                        dv,
                        lv,
                    ));
                    assert(names.deep_view() == registry(bv.take(i + 1), lv));
                }
                out.push(ns);
                if vch {
                    changed = true;
                }
            },
            _ => {
                let (ns, ch) = rewrite_stmt(&module.body[i], &lines, false);
                out.push(ns);
                if ch {
                    changed = true;
                }
                proof {
                    assert(stmt_changed_names(bv[i as int], lv) =~= Seq::<
                        Seq<char>,
                    >::empty());
                    assert(append_new(reg0, Seq::<Seq<char>>::empty()) == reg0);
                    assert(names.deep_view() == registry(bv.take(i + 1), lv));
                }
            },
        }
        i += 1;
    }
    let m = Module { body: out };
    proof {
        lemma_tx_stmts(bv, lv, false);
        lemma_stmts_view(m.body@);
        assert(stmts_view(m.body@) =~= tx_stmts(bv, lv, false));
        assert(m@ == tx_module(module@, lv));
        if changed {
            let j = choose|j: int| 0 <= j < bv.len() && tx_stmt(#[trigger] bv[j], lv, false)
                != bv[j];
            assert(tx_stmts(bv, lv, false)[j] != bv[j]);
            assert(tx_module(module@, lv) != module@);
        } else {
            assert(tx_stmts(bv, lv, false) =~= bv);
            assert(tx_module(module@, lv) =~~= module@);
        }
        assert(bv.take(bv.len() as int) =~= bv);
    }
    (m, TransformResult::new(changed), names)
}

/// The rewrite of one function body, offered every literal in it.
pub fn transform_function_body(body: &Vec<Stmt>, source_code: &str) -> (r: (
    Vec<Stmt>,
    TransformResult,
))
    ensures
        stmts_view(r.0@) == tx_stmts(stmts_view(body@), spec_lines(source_code@), true),
        r.1.was_modified == (tx_stmts(stmts_view(body@), spec_lines(source_code@), true)
            != stmts_view(body@)),
{
    let lines = split_lines(source_code);
    let (nb, ch) = rewrite_stmts(body, &lines, true);
    (nb, TransformResult::new(ch))
}

} // verus!
