//! The laws the library guarantees, each proved over the same spec
//! functions the executable contracts use: the rewrite is idempotent, a
//! suppressed literal is never rewritten, text without target script is
//! never rewritten, and the whole per-file pipeline is idempotent.
use vstd::prelude::*;

verus! {

use crate::ast::{ExprV, ModuleV, PatV, StmtV};
use crate::ast_helpers::has_marker;
use crate::ast_transformers::{
    already_wrapped, lemma_tx_decls, lemma_tx_exprs, lemma_tx_stmts, mk_t_call, registry,
    skip_at, t_ident, tpl_replacement, tx_attr_value, tx_attrs, tx_decl, tx_decls, tx_expr,
    tx_exprs, tx_module, tx_props, tx_stmt, tx_stmts,
};
use crate::translation_applier::{
    accessor_name, add_name, apply_body, apply_decl, apply_decls, apply_imports,
    apply_module, apply_stmt, apply_stmts, binds_t, client_binding, directive_stmt,
    apply_async, ensure_import, find_import, is_client_mode, is_directive, is_nextjs,
    is_server_mode, lemma_apply_decls, lemma_apply_stmts, lemma_find_import_found,
    pat_binds_t, server_binding, server_fn_name, stmt_binds_t, with_directive,
    ApplierConfigV,
};
use crate::utils::spec_should_translate;
use crate::text::has_target_script;
use crate::wrapper::spec_process;

/// The top constructor of a rewritten node tells the input's: the rewrite
/// yields a string literal, template literal, identifier or arrow only where
/// the input already was one.
proof fn lemma_tx_top_shape(e: ExprV, lines: Seq<Seq<char>>, active: bool)
    ensures
        tx_expr(e, lines, active) is StrLit ==> e is StrLit,
        tx_expr(e, lines, active) is TplLit ==> e is TplLit,
        tx_expr(e, lines, active) is Ident ==> tx_expr(e, lines, active) == e,
        tx_expr(e, lines, active) is Arrow ==> e is Arrow,
{
}

/// Rewriting a node that is already a rewrite's result changes nothing.
pub proof fn lemma_tx_expr_idempotent(e: ExprV, lines: Seq<Seq<char>>, active: bool)
    ensures
        tx_expr(tx_expr(e, lines, active), lines, active) == tx_expr(e, lines, active),
    decreases e, 1int,
{
    let t1 = tx_expr(e, lines, active);
    match e {
        ExprV::StrLit { value, line } => {
            if active && !skip_at(lines, line) && spec_should_translate(value) {
                assert(t1 == mk_t_call(e));
                assert(seq![e][0] == e);
                assert(already_wrapped(*t1->Call_callee, t1->Call_args));
            }
        },
        ExprV::TplLit { quasis, exprs, line } => {
            if active && !skip_at(lines, line) && crate::ast_transformers::tpl_eligible(
                quasis,
            ) {
                assert(t1 == tpl_replacement(quasis, exprs, line));
                if exprs.len() == 0 {
                    assert(t1->Call_args[0] is StrLit);
                } else {
                    assert(t1->Call_args[0] is StrLit);
                }
                assert(already_wrapped(*t1->Call_callee, t1->Call_args));
            } else {
                lemma_tx_exprs_idempotent(exprs, lines, active);
            }
        },
        ExprV::Ident { .. } => {},
        ExprV::Member { obj, prop } => {
            lemma_tx_expr_idempotent(*obj, lines, active);
        },
        ExprV::Call { callee, args } => {
            if already_wrapped(*callee, args) {
                assert(tx_expr(t1, lines, active) == t1);
            } else {
                lemma_tx_expr_idempotent(*callee, lines, active);
                lemma_tx_exprs_idempotent(args, lines, active);
                assert(!already_wrapped(
                    *t1->Call_callee,
                    t1->Call_args,
                )) by {
                    if already_wrapped(*t1->Call_callee, t1->Call_args) {
                        lemma_tx_top_shape(*callee, lines, active);
                        assert(*callee == t_ident());
                        lemma_tx_exprs(args, lines, active);
                        assert(t1->Call_args[0] == tx_expr(args[0], lines, active));
                        lemma_tx_top_shape(args[0], lines, active);
                        assert(args[0] is StrLit || args[0] is TplLit);
                    }
                }
            }
        },
        ExprV::ObjectLit { props } => {
            lemma_tx_props_idempotent(props, lines, active);
        },
        ExprV::Arrow { is_async, body } => {
            lemma_tx_stmts_idempotent(body, lines, active);
        },
        ExprV::JsxElement { name, attrs, children } => {
            lemma_tx_attrs_idempotent(attrs, lines, active);
            lemma_tx_exprs_idempotent(children, lines, active);
        },
        ExprV::JsxText { value, line } => {
            if active && !skip_at(lines, line) && spec_should_translate(value) {
                let inner = mk_t_call(
                    ExprV::StrLit { value: crate::text::spec_trim(value), line },
                );
                assert(seq![inner->Call_args[0]][0] is StrLit);
                assert(already_wrapped(*inner->Call_callee, inner->Call_args));
                assert(tx_expr(inner, lines, active) == inner);
            }
        },
        ExprV::JsxExprContainer { inner } => {
            lemma_tx_expr_idempotent(*inner, lines, active);
        },
        ExprV::Await { inner } => {
            lemma_tx_expr_idempotent(*inner, lines, active);
        },
        ExprV::Opaque { .. } => {},
    }
}

proof fn lemma_tx_exprs_idempotent(es: Seq<ExprV>, lines: Seq<Seq<char>>, active: bool)
    ensures
        tx_exprs(tx_exprs(es, lines, active), lines, active) == tx_exprs(es, lines, active),
    decreases es, 0int,
{
    if es.len() > 0 {
        lemma_tx_exprs_idempotent(es.drop_last(), lines, active);
        lemma_tx_expr_idempotent(es.last(), lines, active);
        let t1 = tx_exprs(es, lines, active);
        let head = tx_exprs(es.drop_last(), lines, active);
        let tail = tx_expr(es.last(), lines, active);
        assert(t1 == head.push(tail));
        assert(t1.drop_last() =~= head);
        assert(t1.last() == tail);
        assert(tx_exprs(t1, lines, active) == tx_exprs(head, lines, active).push(
            tx_expr(tail, lines, active),
        ));
    }
}

proof fn lemma_tx_props_idempotent(
    ps: Seq<(Seq<char>, ExprV)>,
    lines: Seq<Seq<char>>,
    active: bool,
)
    ensures
        tx_props(tx_props(ps, lines, active), lines, active) == tx_props(ps, lines, active),
    decreases ps, 0int,
{
    if ps.len() > 0 {
        lemma_tx_props_idempotent(ps.drop_last(), lines, active);
        lemma_tx_expr_idempotent(ps.last().1, lines, active);
        let t1 = tx_props(ps, lines, active);
        let head = tx_props(ps.drop_last(), lines, active);
        assert(t1.drop_last() =~= head);
    }
}

proof fn lemma_tx_attr_value_idempotent(v: ExprV, lines: Seq<Seq<char>>, active: bool)
    ensures
        tx_attr_value(tx_attr_value(v, lines, active), lines, active) == tx_attr_value(
            v,
            lines,
            active,
        ),
    decreases v, 2int,
{
    match v {
        ExprV::StrLit { value, line } => {
            if active && !skip_at(lines, line) && spec_should_translate(value) {
                let t1 = tx_attr_value(v, lines, active);
                let inner = mk_t_call(v);
                assert(already_wrapped(*inner->Call_callee, inner->Call_args));
                assert(tx_expr(inner, lines, active) == inner);
                assert(tx_attr_value(t1, lines, active) == tx_expr(t1, lines, active));
            }
        },
        _ => {
            lemma_tx_top_shape(v, lines, active);
            lemma_tx_expr_idempotent(v, lines, active);
            if tx_expr(v, lines, active) is StrLit {
                assert(tx_expr(v, lines, active) == v);
            }
        },
    }
}

proof fn lemma_tx_attrs_idempotent(
    ats: Seq<(Seq<char>, Option<ExprV>)>,
    lines: Seq<Seq<char>>,
    active: bool,
)
    ensures
        tx_attrs(tx_attrs(ats, lines, active), lines, active) == tx_attrs(ats, lines, active),
    decreases ats, 0int,
{
    if ats.len() > 0 {
        lemma_tx_attrs_idempotent(ats.drop_last(), lines, active);
        match ats.last().1 {
            Some(av) => {
                lemma_tx_attr_value_idempotent(av, lines, active);
            },
            None => {},
        }
        let t1 = tx_attrs(ats, lines, active);
        let head = tx_attrs(ats.drop_last(), lines, active);
        assert(t1.drop_last() =~= head);
    }
}

proof fn lemma_tx_decl_idempotent(d: (PatV, ExprV), lines: Seq<Seq<char>>, active: bool)
    ensures
        tx_decl(tx_decl(d, lines, active), lines, active) == tx_decl(d, lines, active),
    decreases d, 3int,
{
    match d.1 {
        ExprV::Arrow { is_async, body } => {
            let inner_active = match d.0 {
                PatV::Id { name } => crate::utils::spec_is_component_name(name),
                _ => false,
            };
            lemma_tx_stmts_idempotent(body, lines, inner_active);
        },
        _ => {
            lemma_tx_top_shape(d.1, lines, active);
            lemma_tx_expr_idempotent(d.1, lines, active);
            if tx_expr(d.1, lines, active) is Arrow {
                assert(d.1 is Arrow);
            }
        },
    }
}

proof fn lemma_tx_decls_idempotent(
    ds: Seq<(PatV, ExprV)>,
    lines: Seq<Seq<char>>,
    active: bool,
)
    ensures
        tx_decls(tx_decls(ds, lines, active), lines, active) == tx_decls(ds, lines, active),
    decreases ds, 0int,
{
    if ds.len() > 0 {
        lemma_tx_decls_idempotent(ds.drop_last(), lines, active);
        lemma_tx_decl_idempotent(ds.last(), lines, active);
        let t1 = tx_decls(ds, lines, active);
        let head = tx_decls(ds.drop_last(), lines, active);
        assert(t1.drop_last() =~= head);
    }
}

pub proof fn lemma_tx_stmt_idempotent(s: StmtV, lines: Seq<Seq<char>>, active: bool)
    ensures
        tx_stmt(tx_stmt(s, lines, active), lines, active) == tx_stmt(s, lines, active),
    decreases s, 1int,
{
    match s {
        StmtV::Expr { expr } => {
            lemma_tx_expr_idempotent(expr, lines, active);
        },
        StmtV::Return { arg } => {
            match arg {
                Some(e) => {
                    lemma_tx_expr_idempotent(e, lines, active);
                },
                None => {},
            }
        },
        StmtV::VarDecl { decls } => {
            lemma_tx_decls_idempotent(decls, lines, active);
        },
        StmtV::FnDecl { name, is_async, body } => {
            lemma_tx_stmts_idempotent(
                body,
                lines,
                crate::utils::spec_is_component_name(name),
            );
        },
        StmtV::Import { .. } => {},
        StmtV::Opaque { .. } => {},
    }
}

proof fn lemma_tx_stmts_idempotent(ss: Seq<StmtV>, lines: Seq<Seq<char>>, active: bool)
    ensures
        tx_stmts(tx_stmts(ss, lines, active), lines, active) == tx_stmts(ss, lines, active),
    decreases ss, 0int,
{
    if ss.len() > 0 {
        lemma_tx_stmts_idempotent(ss.drop_last(), lines, active);
        lemma_tx_stmt_idempotent(ss.last(), lines, active);
        let t1 = tx_stmts(ss, lines, active);
        let head = tx_stmts(ss.drop_last(), lines, active);
        assert(t1.drop_last() =~= head);
    }
}

/// Rewriting a module twice gives the same tree as rewriting it once: no
/// wrapper call is ever stacked on another.
pub proof fn lemma_tx_module_idempotent(m: ModuleV, lines: Seq<Seq<char>>)
    ensures
        tx_module(tx_module(m, lines), lines) == tx_module(m, lines),
{
    lemma_tx_stmts_idempotent(m.body, lines, false);
}

/// The inserted client binding is a fixpoint of the rewrite: its call has
/// no argument, so the already-wrapped guard is not even needed.
proof fn lemma_client_binding_fixed(lines: Seq<Seq<char>>, active: bool)
    ensures
        tx_stmt(client_binding(), lines, active) == client_binding(),
{
    let b = client_binding();
    let callv = ExprV::Call {
        callee: Box::new(ExprV::Ident { name: "useTranslation"@ }),
        args: Seq::empty(),
    };
    let d = (PatV::Obj { names: seq!["t"@] }, callv);
    assert(b->VarDecl_decls =~= seq![d]);
    assert(!already_wrapped(ExprV::Ident { name: "useTranslation"@ }, Seq::empty()));
    assert(tx_exprs(Seq::<ExprV>::empty(), lines, active) == Seq::<ExprV>::empty());
    assert(tx_expr(ExprV::Ident { name: "useTranslation"@ }, lines, active)
        == (ExprV::Ident { name: "useTranslation"@ }));
    assert(tx_expr(callv, lines, active) == callv);
    assert(tx_decl(d, lines, active) == d);
    assert(tx_decls(Seq::<(PatV, ExprV)>::empty(), lines, active) == Seq::<
        (PatV, ExprV),
    >::empty());
    assert(tx_decls(seq![d], lines, active) =~= seq![d]) by {
        assert(seq![d].drop_last() =~= Seq::<(PatV, ExprV)>::empty());
        assert(seq![d].last() == d);
    }
    assert(tx_stmt(client_binding(), lines, active) =~~= client_binding());
}

/// The inserted server binding is a fixpoint of the rewrite, whatever name
/// the retrieval function was configured with.
proof fn lemma_server_binding_fixed(fname: Seq<char>, lines: Seq<Seq<char>>, active: bool)
    ensures
        tx_stmt(server_binding(fname), lines, active) == server_binding(fname),
{
    let b = server_binding(fname);
    let callv = ExprV::Call {
        callee: Box::new(ExprV::Ident { name: fname }),
        args: Seq::empty(),
    };
    let awv = ExprV::Await { inner: Box::new(callv) };
    let d = (PatV::Obj { names: seq!["t"@] }, awv);
    assert(b->VarDecl_decls =~= seq![d]);
    assert(!already_wrapped(ExprV::Ident { name: fname }, Seq::empty()));
    assert(tx_exprs(Seq::<ExprV>::empty(), lines, active) == Seq::<ExprV>::empty());
    assert(tx_expr(ExprV::Ident { name: fname }, lines, active) == (ExprV::Ident {
        name: fname,
    }));
    assert(tx_expr(callv, lines, active) == callv);
    assert(tx_expr(awv, lines, active) == awv);
    assert(tx_decl(d, lines, active) == d);
    assert(tx_decls(Seq::<(PatV, ExprV)>::empty(), lines, active) == Seq::<
        (PatV, ExprV),
    >::empty());
    assert(tx_decls(seq![d], lines, active) =~= seq![d]) by {
        assert(seq![d].drop_last() =~= Seq::<(PatV, ExprV)>::empty());
        assert(seq![d].last() == d);
    }
    assert(tx_stmt(server_binding(fname), lines, active) =~~= server_binding(fname));
}

/// A body the rewrite no longer changes stays a fixpoint after the applier
/// put a binding at its top.
proof fn lemma_apply_body_fixed(
    body: Seq<StmtV>,
    c: ApplierConfigV,
    lines: Seq<Seq<char>>,
    active: bool,
)
    requires
        tx_stmts(body, lines, active) == body,
    ensures
        tx_stmts(apply_body(body, c), lines, active) == apply_body(body, c),
{
    lemma_tx_stmts(body, lines, active);
    let ab = apply_body(body, c);
    if binds_t(body) {
    } else if is_client_mode(c) {
        lemma_client_binding_fixed(lines, active);
        lemma_tx_stmts(ab, lines, active);
        assert(tx_stmts(ab, lines, active) =~= ab) by {
            assert(forall|j: int|
                0 <= j < body.len() ==> tx_stmt(#[trigger] body[j], lines, active)
                    == body[j]);
            assert(forall|j: int|
                1 <= j < ab.len() ==> #[trigger] ab[j] == body[j - 1]);
            assert(ab[0] == client_binding());
        }
    } else if is_server_mode(c) {
        lemma_server_binding_fixed(server_fn_name(c), lines, active);
        lemma_tx_stmts(ab, lines, active);
        assert(tx_stmts(ab, lines, active) =~= ab) by {
            assert(forall|j: int|
                0 <= j < body.len() ==> tx_stmt(#[trigger] body[j], lines, active)
                    == body[j]);
            assert(forall|j: int|
                1 <= j < ab.len() ==> #[trigger] ab[j] == body[j - 1]);
            assert(ab[0] == server_binding(server_fn_name(c)));
        }
    }
}

/// A statement the rewrite no longer changes stays a fixpoint after the
/// applier's per-function pass.
proof fn lemma_apply_stmt_fixed(
    s: StmtV,
    names: Seq<Seq<char>>,
    c: ApplierConfigV,
    lines: Seq<Seq<char>>,
)
    requires
        tx_stmt(s, lines, false) == s,
    ensures
        tx_stmt(apply_stmt(s, names, c), lines, false) == apply_stmt(s, names, c),
{
    match s {
        StmtV::FnDecl { name, is_async, body } => {
            let act = crate::utils::spec_is_component_name(name);
            assert(tx_stmts(body, lines, act) == body);
            if names.contains(name) {
                lemma_apply_body_fixed(body, c, lines, act);
            }
        },
        StmtV::VarDecl { decls } => {
            assert(tx_decls(decls, lines, false) == decls);
            lemma_tx_decls(decls, lines, false);
            let ad = apply_decls(decls, names, c);
            lemma_apply_decls(decls, names, c);
            lemma_tx_decls(ad, lines, false);
            assert forall|j: int| 0 <= j < ad.len() implies tx_decl(
                #[trigger] ad[j],
                lines,
                false,
            ) == ad[j] by {
                assert(tx_decl(decls[j], lines, false) == decls[j]);
                assert(ad[j] == apply_decl(decls[j], names, c));
                match decls[j] {
                    (PatV::Id { name }, ExprV::Arrow { is_async, body }) => {
                        let act = crate::utils::spec_is_component_name(name);
                        assert(tx_stmts(body, lines, act) == body);
                        if names.contains(name) {
                            lemma_apply_body_fixed(body, c, lines, act);
                        }
                    },
                    _ => {},
                }
            }
            assert(tx_decls(ad, lines, false) =~= ad);
        },
        _ => {},
    }
}

/// A module the rewrite no longer changes stays a fixpoint of the rewrite
/// after the applier added bindings, directive and import.
pub proof fn lemma_apply_preserves_fixpoint(
    x: ModuleV,
    names: Seq<Seq<char>>,
    c: ApplierConfigV,
    lines: Seq<Seq<char>>,
)
    requires
        tx_module(x, lines) == x,
    ensures
        tx_module(apply_module(x, names, c), lines) == apply_module(x, names, c),
{
    assert(tx_stmts(x.body, lines, false) == x.body);
    lemma_tx_stmts(x.body, lines, false);
    let s1 = apply_stmts(x.body, names, c);
    lemma_apply_stmts(x.body, names, c);
    lemma_tx_stmts(s1, lines, false);
    assert forall|j: int| 0 <= j < s1.len() implies tx_stmt(
        #[trigger] s1[j],
        lines,
        false,
    ) == s1[j] by {
        assert(tx_stmt(x.body[j], lines, false) == x.body[j]);
        assert(s1[j] == apply_stmt(x.body[j], names, c));
        lemma_apply_stmt_fixed(x.body[j], names, c, lines);
    }
    let s2 = with_directive(s1, c);
    lemma_tx_stmts(s2, lines, false);
    assert forall|j: int| 0 <= j < s2.len() implies tx_stmt(
        #[trigger] s2[j],
        lines,
        false,
    ) == s2[j] by {
        if is_nextjs(c) && is_client_mode(c) && !(s1.len() > 0 && is_directive(s1[0])) {
            assert(s2 == seq![directive_stmt()] + s1);
            if j == 0 {
                assert(s2[0] == directive_stmt());
            } else {
                assert(s2[j] == s1[j - 1]);
            }
        } else {
            assert(s2 == s1);
        }
    }
    let s3 = apply_imports(s2, names, c);
    lemma_tx_stmts(s3, lines, false);
    assert forall|j: int| 0 <= j < s3.len() implies tx_stmt(
        #[trigger] s3[j],
        lines,
        false,
    ) == s3[j] by {
        match accessor_name(c) {
            Some(an) => {
                if names.len() > 0 {
                    let source = c.translation_import_source;
                    match find_import(s2, source, 0) {
                        Some(i) => {
                            lemma_find_import_found(s2, source, 0);
                            assert(s3 == s2.update(
                                i,
                                StmtV::Import {
                                    names: add_name(s2[i]->Import_names, an),
                                    source,
                                },
                            ));
                            if j == i {
                                assert(s3[j] is Import);
                            } else {
                                assert(s3[j] == s2[j]);
                            }
                        },
                        None => {
                            let at: int = if s2.len() > 0 && is_directive(s2[0]) {
                                1
                            } else {
                                0
                            };
                            let ins = StmtV::Import { names: seq![an], source };
                            assert(s3 == s2.insert(at, ins));
                            if j < at {
                                assert(s3[j] == s2[j]);
                            } else if j == at {
                                assert(s3[j] == ins);
                            } else {
                                assert(s3[j] == s2[j - 1]);
                            }
                        },
                    }
                } else {
                    assert(s3 == s2);
                }
            },
            None => {
                assert(s3 == s2);
            },
        }
    }
    assert(tx_stmts(s3, lines, false) =~= s3);
    assert(tx_module(apply_module(x, names, c), lines) =~~= apply_module(x, names, c));
}

/// Running the per-file pipeline twice gives the same module as running it
/// once: no duplicated wrapper calls, bindings, directives or imports.
pub proof fn lemma_pipeline_idempotent(
    m: ModuleV,
    lines: Seq<Seq<char>>,
    c: ApplierConfigV,
)
    ensures
        spec_process(spec_process(m, lines, c), lines, c) == spec_process(m, lines, c),
{
    let m1 = tx_module(m, lines);
    if m1 != m {
        let p = apply_module(m1, registry(m.body, lines), c);
        lemma_tx_module_idempotent(m, lines);
        lemma_apply_preserves_fixpoint(m1, registry(m.body, lines), c, lines);
        assert(tx_module(p, lines) == p);
        assert(spec_process(p, lines, c) == p);
    }
}

/// A string literal or JSX text directly preceded by a suppressing comment
/// is never rewritten; every recognized marker spelling carries the marker
/// token, so each spelling suppresses.
pub proof fn lemma_suppressed_literal_untouched(
    value: Seq<char>,
    line: usize,
    lines: Seq<Seq<char>>,
    active: bool,
)
    requires
        line >= 1,
        line - 1 < lines.len(),
        has_marker(lines[line - 1]),
    ensures
        tx_expr(ExprV::StrLit { value, line }, lines, active) == (ExprV::StrLit {
            value,
            line,
        }),
        tx_expr(ExprV::JsxText { value, line }, lines, active) == (ExprV::JsxText {
            value,
            line,
        }),
{
    assert(skip_at(lines, line)) by {
        assert(line - 3 <= line - 1 < line && 0 <= line - 1 < lines.len() && has_marker(
            lines[line - 1],
        ));
    }
}

/// Text without a target-script code point is never rewritten: of two
/// literals in one file, only the target-script one can change.
pub proof fn lemma_foreign_literal_untouched(
    value: Seq<char>,
    line: usize,
    lines: Seq<Seq<char>>,
    active: bool,
)
    requires
        !has_target_script(value),
    ensures
        tx_expr(ExprV::StrLit { value, line }, lines, active) == (ExprV::StrLit {
            value,
            line,
        }),
        tx_expr(ExprV::JsxText { value, line }, lines, active) == (ExprV::JsxText {
            value,
            line,
        }),
{
}

/// A call whose callee is the translation function and whose first
/// argument is already a literal is left whole: nothing below it is
/// wrapped again, however often the rewrite runs over it.
pub proof fn lemma_wrapped_call_untouched(
    callee: ExprV,
    args: Seq<ExprV>,
    lines: Seq<Seq<char>>,
    active: bool,
)
    requires
        already_wrapped(callee, args),
    ensures
        tx_expr(ExprV::Call { callee: Box::new(callee), args }, lines, active) == (
        ExprV::Call { callee: Box::new(callee), args }),
{
}

/// `find_import` answers the first import of the source: nothing before
/// the found position matches, and a `None` means nothing matches at all.
proof fn lemma_find_import_prefix(ss: Seq<StmtV>, source: Seq<char>, k: int)
    requires
        0 <= k,
    ensures
        match find_import(ss, source, k) {
            Some(p) => forall|j: int|
                k <= j < p ==> !((#[trigger] ss[j]) is Import && ss[j]->Import_source
                    == source),
            None => forall|j: int|
                k <= j < ss.len() ==> !((#[trigger] ss[j]) is Import
                    && ss[j]->Import_source == source),
        },
    decreases ss.len() - k,
{
    if k < ss.len() {
        match ss[k] {
            StmtV::Import { names: _, source: src } => {
                if src != source {
                    lemma_find_import_prefix(ss, source, k + 1);
                }
            },
            _ => {
                lemma_find_import_prefix(ss, source, k + 1);
            },
        }
    }
}

/// Conversely, the first matching position is what `find_import` answers.
proof fn lemma_find_import_at(ss: Seq<StmtV>, source: Seq<char>, k: int, p: int)
    requires
        0 <= k <= p < ss.len(),
        ss[p] is Import,
        ss[p]->Import_source == source,
        forall|j: int|
            k <= j < p ==> !((#[trigger] ss[j]) is Import && ss[j]->Import_source
                == source),
    ensures
        find_import(ss, source, k) == Some(p),
    decreases p - k,
{
    if k < p {
        lemma_find_import_at(ss, source, k + 1, p);
    }
}

/// When the first import of this source already carries the name, ensuring
/// the import changes nothing: a repeated call adds nothing.
pub proof fn lemma_ensure_import_existing(ss: Seq<StmtV>, name: Seq<char>, source: Seq<char>)
    requires
        match find_import(ss, source, 0) {
            Some(i) => ss[i]->Import_names.contains(name),
            None => false,
        },
    ensures
        ensure_import(ss, name, source) == ss,
{
    lemma_find_import_found(ss, source, 0);
    match find_import(ss, source, 0) {
        Some(i) => {
            assert(add_name(ss[i]->Import_names, name) == ss[i]->Import_names);
            assert((StmtV::Import {
                names: add_name(ss[i]->Import_names, name),
                source,
            }) == ss[i]);
            assert(ensure_import(ss, name, source) =~= ss);
        },
        None => {},
    }
}

/// The two mode words differ, so client mode and server mode exclude each
/// other.
proof fn lemma_modes_exclusive(c: ApplierConfigV)
    ensures
        !(is_client_mode(c) && is_server_mode(c)),
{
    if is_client_mode(c) && is_server_mode(c) {
        reveal_strlit("client");
        reveal_strlit("server");
        assert("client"@[0] == 'c');
        assert("server"@[0] == 's');
    }
}

/// With no mode set the applier changes nothing: no binding, no async
/// marker, no directive, no import.
pub proof fn lemma_apply_mode_none(m: ModuleV, names: Seq<Seq<char>>, c: ApplierConfigV)
    requires
        c.mode is None,
    ensures
        apply_module(m, names, c) == m,
{
    assert(!is_client_mode(c));
    assert(!is_server_mode(c));
    lemma_apply_stmts(m.body, names, c);
    assert forall|j: int| 0 <= j < m.body.len() implies apply_stmts(m.body, names, c)[j]
        == m.body[j] by {
        let s = m.body[j];
        match s {
            StmtV::FnDecl { name, is_async, body } => {
                if names.contains(name) {
                    assert(apply_body(body, c) == body);
                    assert(apply_async(is_async, c) == is_async);
                    assert(apply_stmt(s, names, c) == s);
                }
            },
            StmtV::VarDecl { decls } => {
                lemma_apply_decls(decls, names, c);
                assert forall|k: int| 0 <= k < decls.len() implies apply_decl(
                    #[trigger] decls[k],
                    names,
                    c,
                ) == decls[k] by {
                    match decls[k] {
                        (PatV::Id { name }, ExprV::Arrow { is_async, body }) => {
                            if names.contains(name) {
                                assert(apply_body(body, c) == body);
                                assert(apply_async(is_async, c) == is_async);
                            }
                        },
                        _ => {},
                    }
                }
                assert(apply_decls(decls, names, c) =~= decls);
                assert(apply_stmt(s, names, c) == s);
            },
            _ => {},
        }
    }
    assert(apply_stmts(m.body, names, c) =~= m.body);
    assert(with_directive(m.body, c) == m.body);
    assert(accessor_name(c) is None);
    assert(apply_imports(m.body, names, c) == m.body);
    assert(apply_module(m, names, c) =~~= m);
}

/// Client mode on a registered function: the hook binding is put first
/// unless a binding of the target name already exists, and the function is
/// not marked asynchronous.
pub proof fn lemma_apply_client_function(
    name: Seq<char>,
    is_async: bool,
    body: Seq<StmtV>,
    names: Seq<Seq<char>>,
    c: ApplierConfigV,
)
    requires
        is_client_mode(c),
        names.contains(name),
    ensures
        apply_stmt(StmtV::FnDecl { name, is_async, body }, names, c) == (StmtV::FnDecl {
            name,
            is_async,
            body: apply_body(body, c),
        }),
        !binds_t(body) ==> apply_body(body, c) == seq![client_binding()] + body,
        binds_t(body) ==> apply_body(body, c) == body,
{
    lemma_modes_exclusive(c);
    assert(apply_async(is_async, c) == is_async);
}

/// Server mode on a registered function: it is marked asynchronous, and
/// the awaited retrieval binding — under the configured function name —
/// is put first unless a binding of the target name already exists.
pub proof fn lemma_apply_server_function(
    name: Seq<char>,
    is_async: bool,
    body: Seq<StmtV>,
    names: Seq<Seq<char>>,
    c: ApplierConfigV,
)
    requires
        is_server_mode(c),
        names.contains(name),
    ensures
        apply_stmt(StmtV::FnDecl { name, is_async, body }, names, c) == (StmtV::FnDecl {
            name,
            is_async: true,
            body: apply_body(body, c),
        }),
        !binds_t(body) ==> apply_body(body, c) == seq![server_binding(server_fn_name(c))]
            + body,
        binds_t(body) ==> apply_body(body, c) == body,
{
    lemma_modes_exclusive(c);
    assert(apply_async(is_async, c));
}

/// The client directive stands first exactly under the `nextjs` framework
/// in client mode; it is inserted only when absent and added nowhere else.
pub proof fn lemma_apply_directive(ss: Seq<StmtV>, c: ApplierConfigV)
    ensures
        is_nextjs(c) && is_client_mode(c) ==> with_directive(ss, c).len() > 0
            && is_directive(with_directive(ss, c)[0]),
        !(is_nextjs(c) && is_client_mode(c)) ==> with_directive(ss, c) == ss,
        ss.len() > 0 && is_directive(ss[0]) ==> with_directive(ss, c) == ss,
{
    if is_nextjs(c) && is_client_mode(c) {
        if !(ss.len() > 0 && is_directive(ss[0])) {
            assert((seq![directive_stmt()] + ss)[0] == directive_stmt());
            assert(is_directive(directive_stmt()));
        }
    }
}

/// Whenever a mode is set and a function was modified, the applied module
/// holds an import from the configured source that carries the accessor.
pub proof fn lemma_apply_import_present(
    ss: Seq<StmtV>,
    names: Seq<Seq<char>>,
    c: ApplierConfigV,
)
    requires
        accessor_name(c) is Some,
        names.len() > 0,
    ensures
        exists|i: int|
            0 <= i < apply_imports(ss, names, c).len() && (#[trigger] apply_imports(
                ss,
                names,
                c,
            )[i]) is Import && apply_imports(ss, names, c)[i]->Import_source
                == c.translation_import_source && apply_imports(
                ss,
                names,
                c,
            )[i]->Import_names.contains(accessor_name(c)->0),
{
    let an = accessor_name(c)->0;
    let source = c.translation_import_source;
    let r = apply_imports(ss, names, c);
    lemma_find_import_found(ss, source, 0);
    match find_import(ss, source, 0) {
        Some(i) => {
            let merged = add_name(ss[i]->Import_names, an);
            assert(merged.contains(an)) by {
                if !ss[i]->Import_names.contains(an) {
                    assert(merged[merged.len() - 1] == an);
                }
            }
            assert(r == ss.update(i, StmtV::Import { names: merged, source }));
            assert(r[i] is Import && r[i]->Import_source == source
                && r[i]->Import_names.contains(an));
        },
        None => {
            let at: int = if ss.len() > 0 && is_directive(ss[0]) {
                1
            } else {
                0
            };
            let ins = StmtV::Import { names: seq![an], source };
            assert(seq![an][0] == an);
            assert(seq![an].contains(an));
            assert(r == ss.insert(at, ins));
            assert(r =~= ss.take(at) + seq![ins] + ss.skip(at));
            assert(r[at] == ins);
            assert(r[at] is Import && r[at]->Import_source == source
                && r[at]->Import_names.contains(an));
        },
    }
}

/// Both inserted bindings declare the target name, so a second pass finds
/// the binding in scope and inserts nothing.
proof fn lemma_bindings_bind_t(fname: Seq<char>)
    ensures
        stmt_binds_t(client_binding()),
        stmt_binds_t(server_binding(fname)),
{
    assert(seq!["t"@][0] == "t"@);
    assert(seq!["t"@].contains("t"@));
    assert(pat_binds_t(client_binding()->VarDecl_decls[0].0));
    assert(pat_binds_t(server_binding(fname)->VarDecl_decls[0].0));
}

/// Ensuring a binding at the top of a body is idempotent.
proof fn lemma_apply_body_idempotent(body: Seq<StmtV>, c: ApplierConfigV)
    ensures
        apply_body(apply_body(body, c), c) == apply_body(body, c),
{
    let ab = apply_body(body, c);
    if binds_t(body) {
    } else if is_client_mode(c) {
        lemma_bindings_bind_t(server_fn_name(c));
        assert(ab[0] == client_binding());
        assert(binds_t(ab));
    } else if is_server_mode(c) {
        lemma_bindings_bind_t(server_fn_name(c));
        assert(ab[0] == server_binding(server_fn_name(c)));
        assert(binds_t(ab));
    }
}

/// The per-function pass of the applier is idempotent on every statement.
proof fn lemma_apply_stmt_idempotent(s: StmtV, names: Seq<Seq<char>>, c: ApplierConfigV)
    ensures
        apply_stmt(apply_stmt(s, names, c), names, c) == apply_stmt(s, names, c),
{
    let s1 = apply_stmt(s, names, c);
    match s {
        StmtV::FnDecl { name, is_async, body } => {
            if names.contains(name) {
                lemma_apply_body_idempotent(body, c);
                assert(apply_async(apply_async(is_async, c), c) == apply_async(
                    is_async,
                    c,
                ));
                assert(apply_stmt(s1, names, c) == s1);
            }
        },
        StmtV::VarDecl { decls } => {
            let d1 = apply_decls(decls, names, c);
            lemma_apply_decls(decls, names, c);
            lemma_apply_decls(d1, names, c);
            assert forall|k: int| 0 <= k < d1.len() implies apply_decl(
                #[trigger] d1[k],
                names,
                c,
            ) == d1[k] by {
                assert(d1[k] == apply_decl(decls[k], names, c));
                match decls[k] {
                    (PatV::Id { name }, ExprV::Arrow { is_async, body }) => {
                        if names.contains(name) {
                            lemma_apply_body_idempotent(body, c);
                            assert(apply_async(apply_async(is_async, c), c)
                                == apply_async(is_async, c));
                        }
                    },
                    _ => {},
                }
            }
            assert(apply_decls(d1, names, c) =~= d1);
            assert(apply_stmt(s1, names, c) == s1);
        },
        _ => {},
    }
}

/// Applying the binding-and-import pass twice gives the module of applying
/// it once: no second binding, no duplicate directive, no duplicate
/// import.
pub proof fn lemma_apply_module_idempotent(
    m: ModuleV,
    names: Seq<Seq<char>>,
    c: ApplierConfigV,
)
    ensures
        apply_module(apply_module(m, names, c), names, c) == apply_module(m, names, c),
{
    let s1 = apply_stmts(m.body, names, c);
    let s2 = with_directive(s1, c);
    let s3 = apply_imports(s2, names, c);
    let source = c.translation_import_source;
    lemma_apply_stmts(m.body, names, c);
    lemma_apply_directive(s1, c);
    lemma_find_import_found(s2, source, 0);
    lemma_find_import_prefix(s2, source, 0);
    // Each statement of s2 is a fixpoint of the per-function pass.
    assert forall|j: int| 0 <= j < s2.len() implies apply_stmt(
        #[trigger] s2[j],
        names,
        c,
    ) == s2[j] by {
        if is_nextjs(c) && is_client_mode(c) && !(s1.len() > 0 && is_directive(s1[0])) {
            assert(s2 == seq![directive_stmt()] + s1);
            if j == 0 {
                assert(s2[0] == directive_stmt());
            } else {
                assert(s2[j] == s1[j - 1]);
                assert(s1[j - 1] == apply_stmt(m.body[j - 1], names, c));
                lemma_apply_stmt_idempotent(m.body[j - 1], names, c);
            }
        } else {
            assert(s2 == s1);
            assert(s1[j] == apply_stmt(m.body[j], names, c));
            lemma_apply_stmt_idempotent(m.body[j], names, c);
        }
    }
    // The imported statement list is still a pointwise fixpoint, its head
    // directive (when owed) stays first, and its first import of the
    // source carries the accessor.
    match accessor_name(c) {
        Some(an) => {
            if names.len() > 0 {
                match find_import(s2, source, 0) {
                    Some(i) => {
                        let merged = add_name(s2[i]->Import_names, an);
                        assert(merged.contains(an)) by {
                            if !s2[i]->Import_names.contains(an) {
                                assert(merged[merged.len() - 1] == an);
                            }
                        }
                        assert(s3 == s2.update(i, StmtV::Import { names: merged, source }));
                        assert forall|j: int| 0 <= j < s3.len() implies apply_stmt(
                            #[trigger] s3[j],
                            names,
                            c,
                        ) == s3[j] by {
                            if j != i {
                                assert(s3[j] == s2[j]);
                            }
                        }
                        assert(apply_stmts(s3, names, c) =~= s3) by {
                            lemma_apply_stmts(s3, names, c);
                        }
                        if is_nextjs(c) && is_client_mode(c) {
                            assert(is_directive(s2[0]));
                            assert(i != 0);
                            assert(s3[0] == s2[0]);
                            assert(with_directive(s3, c) == s3);
                        } else {
                            assert(with_directive(s3, c) == s3);
                        }
                        assert(find_import(s3, source, 0) == Some(i)) by {
                            assert forall|j: int|
                                0 <= j < i implies !((#[trigger] s3[j]) is Import
                                && s3[j]->Import_source == source) by {
                                assert(s3[j] == s2[j]);
                            }
                            lemma_find_import_at(s3, source, 0, i);
                        }
                        lemma_ensure_import_existing(s3, an, source);
                        assert(apply_imports(s3, names, c) == s3);
                    },
                    None => {
                        let at: int = if s2.len() > 0 && is_directive(s2[0]) {
                            1
                        } else {
                            0
                        };
                        let ins = StmtV::Import { names: seq![an], source };
                        assert(seq![an][0] == an);
                        assert(seq![an].contains(an));
                        assert(s3 == s2.insert(at, ins));
                        assert(s3 =~= s2.take(at) + seq![ins] + s2.skip(at));
                        assert forall|j: int| 0 <= j < s3.len() implies apply_stmt(
                            #[trigger] s3[j],
                            names,
                            c,
                        ) == s3[j] by {
                            if j < at {
                                assert(s3[j] == s2[j]);
                            } else if j == at {
                                assert(s3[j] == ins);
                            } else {
                                assert(s3[j] == s2[j - 1]);
                            }
                        }
                        assert(apply_stmts(s3, names, c) =~= s3) by {
                            lemma_apply_stmts(s3, names, c);
                        }
                        if is_nextjs(c) && is_client_mode(c) {
                            assert(is_directive(s2[0]));
                            assert(at == 1);
                            assert(s3[0] == s2[0]);
                            assert(with_directive(s3, c) == s3);
                        } else {
                            assert(with_directive(s3, c) == s3);
                        }
                        assert(find_import(s3, source, 0) == Some(at)) by {
                            assert(s3[at] == ins);
                            if at == 1 {
                                assert(s3[0] == s2[0]);
                                assert(is_directive(s2[0]));
                                assert(!(s3[0] is Import));
                            }
                            lemma_find_import_at(s3, source, 0, at);
                        }
                        lemma_ensure_import_existing(s3, an, source);
                        assert(apply_imports(s3, names, c) == s3);
                    },
                }
            } else {
                assert(s3 == s2);
                assert(apply_stmts(s3, names, c) =~= s3) by {
                    lemma_apply_stmts(s3, names, c);
                }
                assert(with_directive(s3, c) == s3) by {
                    lemma_apply_directive(s3, c);
                    if is_nextjs(c) && is_client_mode(c) {
                        assert(is_directive(s2[0]));
                    }
                }
                assert(apply_imports(s3, names, c) == s3);
            }
        },
        None => {
            assert(s3 == s2);
            assert(apply_stmts(s3, names, c) =~= s3) by {
                lemma_apply_stmts(s3, names, c);
            }
            assert(with_directive(s3, c) == s3) by {
                lemma_apply_directive(s3, c);
                if is_nextjs(c) && is_client_mode(c) {
                    assert(is_directive(s2[0]));
                }
            }
            assert(apply_imports(s3, names, c) == s3);
        },
    }
    assert(apply_module(apply_module(m, names, c), names, c) =~~= apply_module(
        m,
        names,
        c,
    ));
}

} // verus!
